// Character-level text predicates and string building, with their specifications.

use vstd::prelude::*;

verus! {

/// Unicode `White_Space`, the set that `char::is_whitespace` and `str::trim` use.
pub open spec fn is_ws(c: char) -> bool {
    let u = c as u32;
    ||| 0x09 <= u <= 0x0d
    ||| u == 0x20
    ||| u == 0x85
    ||| u == 0xa0
    ||| u == 0x1680
    ||| 0x2000 <= u <= 0x200a
    ||| u == 0x2028
    ||| u == 0x2029
    ||| u == 0x202f
    ||| u == 0x205f
    ||| u == 0x3000
}

pub open spec fn is_ascii_digit(c: char) -> bool {
    '0' <= c <= '9'
}

pub open spec fn is_ascii_alnum(c: char) -> bool {
    ||| '0' <= c <= '9'
    ||| 'a' <= c <= 'z'
    ||| 'A' <= c <= 'Z'
}

/// Every character is whitespace (the string trims to nothing).
pub open spec fn all_ws(s: Seq<char>) -> bool {
    forall|i: int| 0 <= i < s.len() ==> is_ws(#[trigger] s[i])
}

pub open spec fn any_ws(s: Seq<char>) -> bool {
    exists|i: int| 0 <= i < s.len() && is_ws(#[trigger] s[i])
}

pub open spec fn seq_starts_with(s: Seq<char>, p: Seq<char>) -> bool {
    p.len() <= s.len() && s.take(p.len() as int) == p
}

pub open spec fn seq_ends_with(s: Seq<char>, p: Seq<char>) -> bool {
    p.len() <= s.len() && s.skip(s.len() - p.len()) == p
}

pub open spec fn trim_start(s: Seq<char>) -> Seq<char>
    decreases s.len(),
{
    if s.len() > 0 && is_ws(s[0]) {
        trim_start(s.drop_first())
    } else {
        s
    }
}

pub open spec fn trim_end(s: Seq<char>) -> Seq<char>
    decreases s.len(),
{
    if s.len() > 0 && is_ws(s.last()) {
        trim_end(s.drop_last())
    } else {
        s
    }
}

/// What `str::trim` leaves.
pub open spec fn trim(s: Seq<char>) -> Seq<char> {
    trim_end(trim_start(s))
}

/// What `str::trim_start_matches(c)` leaves.
pub open spec fn trim_start_char(s: Seq<char>, c: char) -> Seq<char>
    decreases s.len(),
{
    if s.len() > 0 && s[0] == c {
        trim_start_char(s.drop_first(), c)
    } else {
        s
    }
}

/// What `str::trim_end_matches(c)` leaves.
pub open spec fn trim_end_char(s: Seq<char>, c: char) -> Seq<char>
    decreases s.len(),
{
    if s.len() > 0 && s.last() == c {
        trim_end_char(s.drop_last(), c)
    } else {
        s
    }
}

pub open spec fn digit_char(d: nat) -> char {
    if d == 0 { '0' }
    else if d == 1 { '1' }
    else if d == 2 { '2' }
    else if d == 3 { '3' }
    else if d == 4 { '4' }
    else if d == 5 { '5' }
    else if d == 6 { '6' }
    else if d == 7 { '7' }
    else if d == 8 { '8' }
    else { '9' }
}

/// Decimal rendering of a natural number, as `{}` formats an unsigned integer.
pub open spec fn decimal(n: nat) -> Seq<char>
    decreases n,
{
    if n < 10 {
        seq![digit_char(n)]
    } else {
        decimal(n / 10).push(digit_char(n % 10))
    }
}

pub open spec fn hex_char(d: nat) -> char {
    if d < 10 { digit_char(d) }
    else if d == 10 { 'a' }
    else if d == 11 { 'b' }
    else if d == 12 { 'c' }
    else if d == 13 { 'd' }
    else if d == 14 { 'e' }
    else { 'f' }
}

/// The `width` lowest hexadecimal digits of `n`, most significant first, lower case.
pub open spec fn hex_digits(n: nat, width: nat) -> Seq<char>
    decreases width,
{
    if width == 0 {
        seq![]
    } else {
        hex_digits(n / 16, (width - 1) as nat).push(hex_char(n % 16))
    }
}

/// The characters of a string slice, in order.
pub fn chars_of(s: &str) -> (v: Vec<char>)
    ensures
        v@ == s@,
{
    let mut v: Vec<char> = Vec::new();
    for c in it: s.chars()
        invariant
            v@ == it.seq().take(it.index() as int),
            it.seq() == s@,
    {
        v.push(c);
    }
    v
}

/// Appends one character.
#[verifier::external_body]
pub(crate) fn push_char(s: &mut String, c: char)
    ensures
        final(s)@ == old(s)@.push(c),
{
    s.push(c);
}

/// `a` followed by `b`.
pub fn cat2(a: &str, b: &str) -> (s: String)
    ensures
        s@ == a@ + b@,
{
    let mut s = string_from(a);
    push_str(&mut s, b);
    s
}

/// `a`, `b` and `c` in turn.
pub fn cat3(a: &str, b: &str, c: &str) -> (s: String)
    ensures
        s@ == a@ + b@ + c@,
{
    let mut s = string_from(a);
    push_str(&mut s, b);
    push_str(&mut s, c);
    s
}

/// Appends a string slice.
pub fn push_str(s: &mut String, t: &str)
    ensures
        final(s)@ == old(s)@ + t@,
{
    s.append(t);
}

/// A new string holding `t`.
pub fn string_from(t: &str) -> (s: String)
    ensures
        s@ == t@,
{
    String::from_str(t)
}

/// Appends the characters `v[from..to]`.
pub fn push_chars(s: &mut String, v: &Vec<char>, from: usize, to: usize)
    requires
        from <= to <= v.len(),
    ensures
        final(s)@ == old(s)@ + v@.subrange(from as int, to as int),
{
    let mut i = from;
    while i < to
        invariant
            from <= i <= to <= v.len(),
            s@ == old(s)@ + v@.subrange(from as int, i as int),
        decreases to - i,
    {
        push_char(s, v[i]);
        i += 1;
        assert(s@ == old(s)@ + v@.subrange(from as int, i as int));
    }
}

/// The string made of `v[from..to]`.
pub fn string_of_range(v: &Vec<char>, from: usize, to: usize) -> (s: String)
    requires
        from <= to <= v.len(),
    ensures
        s@ == v@.subrange(from as int, to as int),
{
    let mut s = String::new();
    push_chars(&mut s, v, from, to);
    assert(Seq::<char>::empty() + v@.subrange(from as int, to as int) == v@.subrange(
        from as int,
        to as int,
    ));
    s
}

pub fn is_ws_char(c: char) -> (r: bool)
    ensures
        r == is_ws(c),
{
    let u = c as u32;
    (0x09 <= u && u <= 0x0d) || u == 0x20 || u == 0x85 || u == 0xa0 || u == 0x1680 || (0x2000
        <= u && u <= 0x200a) || u == 0x2028 || u == 0x2029 || u == 0x202f || u == 0x205f || u
        == 0x3000
}

pub fn is_ascii_digit_char(c: char) -> (r: bool)
    ensures
        r == is_ascii_digit(c),
{
    '0' <= c && c <= '9'
}

pub fn is_ascii_alnum_char(c: char) -> (r: bool)
    ensures
        r == is_ascii_alnum(c),
{
    ('0' <= c && c <= '9') || ('a' <= c && c <= 'z') || ('A' <= c && c <= 'Z')
}

/// `s.trim().is_empty()`.
pub fn is_blank(s: &str) -> (r: bool)
    ensures
        r == all_ws(s@),
{
    let v = chars_of(s);
    let mut i: usize = 0;
    while i < v.len()
        invariant
            i <= v.len(),
            v@ == s@,
            forall|j: int| 0 <= j < i ==> is_ws(#[trigger] v@[j]),
        decreases v.len() - i,
    {
        if !is_ws_char(v[i]) {
            return false;
        }
        i += 1;
    }
    true
}

/// `s.contains(char::is_whitespace)`.
pub fn has_whitespace(s: &str) -> (r: bool)
    ensures
        r == any_ws(s@),
{
    let v = chars_of(s);
    let mut i: usize = 0;
    while i < v.len()
        invariant
            i <= v.len(),
            v@ == s@,
            forall|j: int| 0 <= j < i ==> !is_ws(#[trigger] v@[j]),
        decreases v.len() - i,
    {
        if is_ws_char(v[i]) {
            return true;
        }
        i += 1;
    }
    false
}

/// `s.contains(c)`.
pub fn contains_char(s: &str, c: char) -> (r: bool)
    ensures
        r == s@.contains(c),
{
    let v = chars_of(s);
    let mut i: usize = 0;
    while i < v.len()
        invariant
            i <= v.len(),
            v@ == s@,
            forall|j: int| 0 <= j < i ==> #[trigger] v@[j] != c,
        decreases v.len() - i,
    {
        if v[i] == c {
            assert(s@[i as int] == c);
            return true;
        }
        i += 1;
    }
    false
}

/// Equality of two character sequences.
pub fn chars_eq(a: &Vec<char>, b: &Vec<char>) -> (r: bool)
    ensures
        r == (a@ == b@),
{
    if a.len() != b.len() {
        return false;
    }
    let mut i: usize = 0;
    while i < a.len()
        invariant
            i <= a.len() == b.len(),
            forall|j: int| 0 <= j < i ==> a@[j] == b@[j],
        decreases a.len() - i,
    {
        if a[i] != b[i] {
            return false;
        }
        i += 1;
    }
    assert(a@ =~= b@);
    true
}

/// Equality of two string slices.
pub fn str_eq(a: &str, b: &str) -> (r: bool)
    ensures
        r == (a@ == b@),
{
    let va = chars_of(a);
    let vb = chars_of(b);
    chars_eq(&va, &vb)
}

/// `s.starts_with(p)`.
pub fn starts_with(s: &str, p: &str) -> (r: bool)
    ensures
        r == seq_starts_with(s@, p@),
{
    let v = chars_of(s);
    let w = chars_of(p);
    if w.len() > v.len() {
        return false;
    }
    let mut i: usize = 0;
    while i < w.len()
        invariant
            i <= w.len() <= v.len(),
            v@ == s@,
            w@ == p@,
            forall|j: int| 0 <= j < i ==> v@[j] == w@[j],
        decreases w.len() - i,
    {
        if v[i] != w[i] {
            return false;
        }
        i += 1;
    }
    assert(s@.take(p@.len() as int) =~= p@);
    true
}

/// `s.ends_with(p)`.
pub fn ends_with(s: &str, p: &str) -> (r: bool)
    ensures
        r == seq_ends_with(s@, p@),
{
    let v = chars_of(s);
    let w = chars_of(p);
    if w.len() > v.len() {
        return false;
    }
    let off = v.len() - w.len();
    let mut i: usize = 0;
    while i < w.len()
        invariant
            i <= w.len() <= v.len(),
            off == v.len() - w.len(),
            v@ == s@,
            w@ == p@,
            forall|j: int| 0 <= j < i ==> v@[off + j] == w@[j],
        decreases w.len() - i,
    {
        if v[off + i] != w[i] {
            assert(s@.skip(off as int)[i as int] == v@[off + i]);
            return false;
        }
        i += 1;
    }
    assert(s@.skip(off as int) =~= p@);
    true
}

/// `s.starts_with(c)`.
pub fn starts_with_char(s: &str, c: char) -> (r: bool)
    ensures
        r == (s@.len() > 0 && s@[0] == c),
{
    let v = chars_of(s);
    v.len() > 0 && v[0] == c
}

/// `s.strip_prefix(p)`.
pub fn strip_prefix(s: &str, p: &str) -> (r: Option<String>)
    ensures
        r is Some <==> seq_starts_with(s@, p@),
        r matches Some(t) ==> t@ == s@.skip(p@.len() as int),
{
    if starts_with(s, p) {
        let v = chars_of(s);
        let n = chars_of(p).len();
        Some(string_of_range(&v, n, v.len()))
    } else {
        None
    }
}

/// `s.trim()`.
pub fn trim_str(s: &str) -> (r: String)
    ensures
        r@ == trim(s@),
{
    let v = chars_of(s);
    let mut i: usize = 0;
    assert(v@.skip(0) =~= v@);
    while i < v.len() && is_ws_char(v[i])
        invariant
            i <= v.len(),
            v@ == s@,
            trim_start(v@.skip(i as int)) == trim_start(s@),
        decreases v.len() - i,
    {
        assert(v@.skip(i as int).drop_first() =~= v@.skip(i + 1));
        i += 1;
    }
    assert(trim_start(s@) == v@.skip(i as int));
    let mut j: usize = v.len();
    while j > i && is_ws_char(v[j - 1])
        invariant
            i <= j <= v.len(),
            v@ == s@,
            trim_end(v@.subrange(i as int, j as int)) == trim(s@),
        decreases j,
    {
        assert(v@.subrange(i as int, j as int).drop_last() =~= v@.subrange(i as int, j - 1));
        j -= 1;
    }
    assert(v@.skip(i as int) =~= v@.subrange(i as int, v.len() as int));
    string_of_range(&v, i, j)
}

/// `s.trim_start_matches(c)`.
pub fn trim_start_matches(s: &str, c: char) -> (r: String)
    ensures
        r@ == trim_start_char(s@, c),
{
    let v = chars_of(s);
    let mut i: usize = 0;
    assert(v@.skip(0) =~= v@);
    while i < v.len() && v[i] == c
        invariant
            i <= v.len(),
            v@ == s@,
            trim_start_char(v@.skip(i as int), c) == trim_start_char(s@, c),
        decreases v.len() - i,
    {
        assert(v@.skip(i as int).drop_first() =~= v@.skip(i + 1));
        i += 1;
    }
    assert(v@.skip(i as int) =~= v@.subrange(i as int, v.len() as int));
    string_of_range(&v, i, v.len())
}

/// `s.trim_end_matches(c)`.
pub fn trim_end_matches(s: &str, c: char) -> (r: String)
    ensures
        r@ == trim_end_char(s@, c),
{
    let v = chars_of(s);
    let mut j: usize = v.len();
    assert(v@.take(j as int) =~= v@);
    while j > 0 && v[j - 1] == c
        invariant
            j <= v.len(),
            v@ == s@,
            trim_end_char(v@.take(j as int), c) == trim_end_char(s@, c),
        decreases j,
    {
        assert(v@.take(j as int).drop_last() =~= v@.take(j - 1));
        j -= 1;
    }
    assert(v@.take(j as int) =~= v@.subrange(0, j as int));
    assert(v@.take(v.len() as int) =~= s@);
    string_of_range(&v, 0, j)
}

pub fn digit_of(d: u128) -> (c: char)
    requires
        d < 10,
    ensures
        c == digit_char(d as nat),
{
    if d == 0 { '0' }
    else if d == 1 { '1' }
    else if d == 2 { '2' }
    else if d == 3 { '3' }
    else if d == 4 { '4' }
    else if d == 5 { '5' }
    else if d == 6 { '6' }
    else if d == 7 { '7' }
    else if d == 8 { '8' }
    else { '9' }
}

/// Appends the decimal rendering of `n`.
pub fn push_decimal(s: &mut String, n: u128)
    ensures
        final(s)@ == old(s)@ + decimal(n as nat),
    decreases n,
{
    if n >= 10 {
        push_decimal(s, n / 10);
    }
    push_char(s, digit_of(n % 10));
    assert(decimal(n as nat) == if n < 10 {
        seq![digit_char(n as nat)]
    } else {
        decimal((n / 10) as nat).push(digit_char((n % 10) as nat))
    });
}

/// The decimal rendering of `n`.
pub fn decimal_string(n: u128) -> (s: String)
    ensures
        s@ == decimal(n as nat),
{
    let mut s = String::new();
    push_decimal(&mut s, n);
    assert(Seq::<char>::empty() + decimal(n as nat) == decimal(n as nat));
    s
}

pub fn hex_of(d: u64) -> (c: char)
    requires
        d < 16,
    ensures
        c == hex_char(d as nat),
{
    if d < 10 { digit_of(d as u128) }
    else if d == 10 { 'a' }
    else if d == 11 { 'b' }
    else if d == 12 { 'c' }
    else if d == 13 { 'd' }
    else if d == 14 { 'e' }
    else { 'f' }
}

/// Appends the `width` lowest hexadecimal digits of `n`.
pub fn push_hex_digits(s: &mut String, n: u64, width: u32)
    ensures
        final(s)@ == old(s)@ + hex_digits(n as nat, width as nat),
    decreases width,
{
    if width > 0 {
        push_hex_digits(s, n / 16, width - 1);
        push_char(s, hex_of(n % 16));
    }
}


/// Splitting at `c`: the pieces done so far and the piece being read.
pub open spec fn split_fold(s: Seq<char>, c: char) -> (Seq<Seq<char>>, Seq<char>)
    decreases s.len(),
{
    if s.len() == 0 {
        (Seq::<Seq<char>>::empty(), Seq::<char>::empty())
    } else {
        let (done, cur) = split_fold(s.drop_last(), c);
        if s.last() == c {
            (done.push(cur), Seq::<char>::empty())
        } else {
            (done, cur.push(s.last()))
        }
    }
}

/// Appending text without the separator only extends the piece being read.
pub proof fn lemma_split_fold_plain(p: Seq<char>, b: Seq<char>, c: char)
    requires
        !b.contains(c),
    ensures
        split_fold(p + b, c) == (split_fold(p, c).0, split_fold(p, c).1 + b),
    decreases b.len(),
{
    if b.len() == 0 {
        assert(p + b =~= p);
        assert(split_fold(p, c).1 + b =~= split_fold(p, c).1);
    } else {
        let bl = b.drop_last();
        assert(!bl.contains(c)) by {
            if bl.contains(c) {
                let k = choose|k: int| 0 <= k < bl.len() && bl[k] == c;
                assert(b[k] == c);
            }
        }
        lemma_split_fold_plain(p, bl, c);
        assert((p + b).drop_last() =~= p + bl);
        assert(b[b.len() - 1] != c);
        assert((p + b).last() == b.last());
        assert((split_fold(p, c).1 + bl).push(b.last()) =~= split_fold(p, c).1 + b);
    }
}

/// A separator closes the piece being read.
pub proof fn lemma_split_fold_sep(p: Seq<char>, c: char)
    ensures
        split_fold(p.push(c), c) == (split_fold(p, c).0.push(split_fold(p, c).1), Seq::<char>::empty()),
{
    assert(p.push(c).drop_last() =~= p);
}

/// The pieces of `s` between occurrences of `c`, as `str::split(c)` gives them.
pub open spec fn split_on(s: Seq<char>, c: char) -> Seq<Seq<char>> {
    let (done, cur) = split_fold(s, c);
    done.push(cur)
}

/// A line without the carriage return that ended it.
pub open spec fn strip_cr(l: Seq<char>) -> Seq<char> {
    if l.len() > 0 && l.last() == '\r' {
        l.drop_last()
    } else {
        l
    }
}

/// The lines of `s` as `str::lines` gives them: split at `\n`, a `\r` before the `\n`
/// removed, and no empty line after a final `\n`.
pub open spec fn spec_lines(s: Seq<char>) -> Seq<Seq<char>> {
    let (done, cur) = split_fold(s, '\n');
    let ls = done.map_values(|l: Seq<char>| strip_cr(l));
    if cur.len() > 0 {
        ls.push(cur)
    } else {
        ls
    }
}

fn pieces(s: &str, sep: char) -> (r: (Vec<String>, String))
    ensures
        (r.0@.map_values(|x: String| x@), r.1@) == split_fold(s@, sep),
{
    let v = chars_of(s);
    let mut done: Vec<String> = Vec::new();
    let mut cur = String::new();
    let mut i: usize = 0;
    assert(v@.take(0) =~= Seq::<char>::empty());
    assert(done@.map_values(|x: String| x@) =~= Seq::<Seq<char>>::empty());
    while i < v.len()
        invariant
            i <= v.len(),
            v@ == s@,
            (done@.map_values(|x: String| x@), cur@) == split_fold(v@.take(i as int), sep),
        decreases v.len() - i,
    {
        let c = v[i];
        assert(v@.take(i + 1).drop_last() =~= v@.take(i as int));
        assert(v@.take(i + 1).last() == c);
        if c == sep {
            let ghost d0 = done@;
            let piece = cur;
            cur = String::new();
            let ghost pv = piece@;
            done.push(piece);
            assert(done@.map_values(|x: String| x@) =~= d0.map_values(|x: String| x@).push(pv));
            assert(cur@ =~= Seq::<char>::empty());
        } else {
            push_char(&mut cur, c);
        }
        i += 1;
    }
    assert(v@.take(v.len() as int) =~= v@);
    (done, cur)
}

/// The pieces of `s` between occurrences of `sep`.
pub fn split_str(s: &str, sep: char) -> (r: Vec<String>)
    ensures
        r@.map_values(|x: String| x@) == split_on(s@, sep),
{
    let (mut done, cur) = pieces(s, sep);
    let ghost d0 = done@;
    let ghost cv = cur@;
    done.push(cur);
    assert(done@.map_values(|x: String| x@) =~= d0.map_values(|x: String| x@).push(cv));
    done
}

fn strip_cr_str(l: String) -> (r: String)
    ensures
        r@ == strip_cr(l@),
{
    let v = chars_of(l.as_str());
    if v.len() > 0 && v[v.len() - 1] == '\r' {
        string_of_range(&v, 0, v.len() - 1)
    } else {
        l
    }
}

/// The lines of `s`.
pub fn lines_of(s: &str) -> (r: Vec<String>)
    ensures
        r@.map_values(|x: String| x@) == spec_lines(s@),
{
    let (done, cur) = pieces(s, '\n');
    let ghost dv = done@.map_values(|x: String| x@);
    let mut out: Vec<String> = Vec::new();
    let mut i: usize = 0;
    let n = done.len();
    for piece in it: done.into_iter()
        invariant
            n == dv.len(),
            it.seq().map_values(|x: String| x@) == dv,
            out@.map_values(|x: String| x@) == dv.take(it.index() as int).map_values(
                |l: Seq<char>| strip_cr(l),
            ),
    {
        let ghost idx = it.index();
        let ghost o0 = out@;
        assert(piece@ == dv[idx as int]);
        let line = strip_cr_str(piece);
        let ghost lv = line@;
        out.push(line);
        assert(out@.map_values(|x: String| x@) =~= o0.map_values(|x: String| x@).push(lv));
        assert(dv.take(idx + 1) =~= dv.take(idx as int).push(dv[idx as int]));
        assert(out@.map_values(|x: String| x@) =~= dv.take(idx + 1).map_values(
            |l: Seq<char>| strip_cr(l),
        ));
    }
    assert(dv.take(dv.len() as int) =~= dv);
    if cur.as_str().len() > 0 || !cur.as_str().is_empty() {
        let ghost o0 = out@;
        let ghost cv = cur@;
        out.push(cur);
        assert(out@.map_values(|x: String| x@) =~= o0.map_values(|x: String| x@).push(cv));
    }
    out
}

/// Why a string is not an unsigned integer, as `ParseIntError` reports it.
#[derive(Debug, Clone, Copy, PartialEq, Eq, Structural)]
pub enum IntErrorKind {
    Empty,
    InvalidDigit,
    PosOverflow,
}

pub open spec fn int_error_text(k: IntErrorKind) -> Seq<char> {
    match k {
        IntErrorKind::Empty => "cannot parse integer from empty string"@,
        IntErrorKind::InvalidDigit => "invalid digit found in string"@,
        IntErrorKind::PosOverflow => "number too large to fit in target type"@,
    }
}

impl IntErrorKind {
    /// The message `ParseIntError` displays.
    pub fn message(self) -> (s: &'static str)
        ensures
            s@ == int_error_text(self),
    {
        match self {
            IntErrorKind::Empty => "cannot parse integer from empty string",
            IntErrorKind::InvalidDigit => "invalid digit found in string",
            IntErrorKind::PosOverflow => "number too large to fit in target type",
        }
    }
}

pub open spec fn char_digit(c: char) -> nat {
    ((c as u32) - ('0' as u32)) as nat
}

/// Reading digits left to right: the first character that is no digit, or the first
/// point where the value passes `usize::MAX`, ends it.
pub open spec fn usize_digits(d: Seq<char>, i: nat, acc: nat) -> Result<nat, IntErrorKind>
    decreases d.len() - i,
{
    if i >= d.len() {
        Ok(acc)
    } else if !is_ascii_digit(d[i as int]) {
        Err(IntErrorKind::InvalidDigit)
    } else if acc * 10 + char_digit(d[i as int]) > usize::MAX {
        Err(IntErrorKind::PosOverflow)
    } else {
        usize_digits(d, i + 1, acc * 10 + char_digit(d[i as int]))
    }
}

/// `str::parse::<usize>`.
pub open spec fn spec_usize_from_str(s: Seq<char>) -> Result<nat, IntErrorKind> {
    if s.len() == 0 {
        Err(IntErrorKind::Empty)
    } else if s.len() == 1 && (s[0] == '+' || s[0] == '-') {
        Err(IntErrorKind::InvalidDigit)
    } else if s[0] == '+' {
        usize_digits(s.drop_first(), 0, 0)
    } else {
        usize_digits(s, 0, 0)
    }
}

/// Reads an unsigned integer as `str::parse::<usize>` does.
pub fn usize_from_str(s: &str) -> (r: Result<usize, IntErrorKind>)
    ensures
        match r {
            Ok(m) => spec_usize_from_str(s@) == Ok::<nat, IntErrorKind>(m as nat),
            Err(k) => spec_usize_from_str(s@) == Err::<nat, IntErrorKind>(k),
        },
{
    let v = chars_of(s);
    if v.len() == 0 {
        return Err(IntErrorKind::Empty);
    }
    if v.len() == 1 && (v[0] == '+' || v[0] == '-') {
        return Err(IntErrorKind::InvalidDigit);
    }
    let start: usize = if v[0] == '+' {
        1
    } else {
        0
    };
    let ghost d = v@.skip(start as int);
    assert(d =~= if s@[0] == '+' {
        s@.drop_first()
    } else {
        s@
    });
    let ghost goal = usize_digits(d, 0, 0);
    assert(spec_usize_from_str(s@) == goal);
    let mut acc: usize = 0;
    let mut i: usize = start;
    while i < v.len()
        invariant
            start <= i <= v.len(),
            v@ == s@,
            d == v@.skip(start as int),
            goal == spec_usize_from_str(s@),
            goal == usize_digits(d, (i - start) as nat, acc as nat),
        decreases v.len() - i,
    {
        let c = v[i];
        assert(d[i - start] == c);
        if !is_ascii_digit_char(c) {
            return Err(IntErrorKind::InvalidDigit);
        }
        let digit = (c as u32 - '0' as u32) as usize;
        assert(char_digit(c) == digit);
        if acc > (usize::MAX - digit) / 10 {
            assert(acc * 10 + digit > usize::MAX) by (nonlinear_arith)
                requires
                    acc > (usize::MAX - digit) / 10,
                    digit <= 9,
            ;
            return Err(IntErrorKind::PosOverflow);
        }
        assert(acc * 10 + digit <= usize::MAX) by (nonlinear_arith)
            requires
                acc <= (usize::MAX - digit) / 10,
                digit <= 9,
        ;
        acc = acc * 10 + digit;
        i += 1;
    }
    Ok(acc)
}


pub open spec fn is_octal_digit(c: char) -> bool {
    '0' <= c && c <= '7'
}

/// Octal digits left to right, as `usize_digits` reads decimal ones, bounded by `u32::MAX`.
pub open spec fn octal_digits(d: Seq<char>, i: nat, acc: nat) -> Result<nat, IntErrorKind>
    decreases d.len() - i,
{
    if i >= d.len() {
        Ok(acc)
    } else if !is_octal_digit(d[i as int]) {
        Err(IntErrorKind::InvalidDigit)
    } else if acc * 8 + char_digit(d[i as int]) > u32::MAX {
        Err(IntErrorKind::PosOverflow)
    } else {
        octal_digits(d, i + 1, acc * 8 + char_digit(d[i as int]))
    }
}

/// `u32::from_str_radix(s, 8)`.
pub open spec fn spec_u32_from_octal(s: Seq<char>) -> Result<nat, IntErrorKind> {
    if s.len() == 0 {
        Err(IntErrorKind::Empty)
    } else if s.len() == 1 && (s[0] == '+' || s[0] == '-') {
        Err(IntErrorKind::InvalidDigit)
    } else if s[0] == '+' {
        octal_digits(s.drop_first(), 0, 0)
    } else {
        octal_digits(s, 0, 0)
    }
}

/// Reads an octal number as `u32::from_str_radix(s, 8)` does.
pub fn u32_from_octal_str(s: &str) -> (r: Result<u32, IntErrorKind>)
    ensures
        match r {
            Ok(m) => spec_u32_from_octal(s@) == Ok::<nat, IntErrorKind>(m as nat),
            Err(k) => spec_u32_from_octal(s@) == Err::<nat, IntErrorKind>(k),
        },
{
    let v = chars_of(s);
    if v.len() == 0 {
        return Err(IntErrorKind::Empty);
    }
    if v.len() == 1 && (v[0] == '+' || v[0] == '-') {
        return Err(IntErrorKind::InvalidDigit);
    }
    let start: usize = if v[0] == '+' {
        1
    } else {
        0
    };
    let ghost d = v@.skip(start as int);
    assert(d =~= if s@[0] == '+' {
        s@.drop_first()
    } else {
        s@
    });
    let ghost goal = octal_digits(d, 0, 0);
    assert(spec_u32_from_octal(s@) == goal);
    let mut acc: u32 = 0;
    let mut i: usize = start;
    while i < v.len()
        invariant
            start <= i <= v.len(),
            v@ == s@,
            d == v@.skip(start as int),
            goal == spec_u32_from_octal(s@),
            goal == octal_digits(d, (i - start) as nat, acc as nat),
        decreases v.len() - i,
    {
        let c = v[i];
        assert(d[i - start] == c);
        if !('0' <= c && c <= '7') {
            return Err(IntErrorKind::InvalidDigit);
        }
        let digit = c as u32 - '0' as u32;
        assert(char_digit(c) == digit);
        if acc > (u32::MAX - digit) / 8 {
            assert(acc * 8 + digit > u32::MAX) by (nonlinear_arith)
                requires
                    acc > (u32::MAX - digit) / 8,
                    digit <= 7,
            ;
            return Err(IntErrorKind::PosOverflow);
        }
        assert(acc * 8 + digit <= u32::MAX) by (nonlinear_arith)
            requires
                acc <= (u32::MAX - digit) / 8,
                digit <= 7,
        ;
        acc = acc * 8 + digit;
        i += 1;
    }
    Ok(acc)
}

/// The leading run of non-whitespace characters.
pub open spec fn word_prefix(t: Seq<char>) -> Seq<char>
    decreases t.len(),
{
    if t.len() == 0 || is_ws(t[0]) {
        Seq::<char>::empty()
    } else {
        seq![t[0]] + word_prefix(t.drop_first())
    }
}

/// The first whitespace-separated word, as `split_whitespace().next()` gives it.
pub open spec fn first_word(s: Seq<char>) -> Option<Seq<char>> {
    let t = trim_start(s);
    if t.len() == 0 {
        None
    } else {
        Some(word_prefix(t))
    }
}

pub fn first_word_of(s: &str) -> (r: Option<String>)
    ensures
        crate::config::types::opt_view(r) == first_word(s@),
{
    let v = chars_of(s);
    let mut i: usize = 0;
    assert(v@.skip(0) =~= v@);
    while i < v.len() && is_ws_char(v[i])
        invariant
            i <= v.len(),
            v@ == s@,
            trim_start(s@) == trim_start(v@.skip(i as int)),
        decreases v.len() - i,
    {
        assert(v@.skip(i as int).drop_first() =~= v@.skip(i + 1));
        i += 1;
    }
    let ghost t = v@.skip(i as int);
    assert(trim_start(t) == t);
    if i == v.len() {
        return None;
    }
    let start = i;
    while i < v.len() && !is_ws_char(v[i])
        invariant
            start <= i <= v.len(),
            v@ == s@,
            t == v@.skip(start as int),
            word_prefix(t) == v@.subrange(start as int, i as int) + word_prefix(v@.skip(i as int)),
        decreases v.len() - i,
    {
        assert(v@.skip(i as int).drop_first() =~= v@.skip(i + 1));
        assert(v@.subrange(start as int, i + 1) =~= v@.subrange(start as int, i as int) + seq![v@[i as int]]);
        i += 1;
    }
    assert(word_prefix(v@.skip(i as int)) =~= Seq::<char>::empty());
    Some(string_of_range(&v, start, i))
}

/// `s` with the suffix `p` removed, when it ends with it.
pub fn strip_suffix(s: &str, p: &str) -> (r: Option<String>)
    ensures
        r is Some <==> seq_ends_with(s@, p@),
        r matches Some(t) ==> t@ == s@.take(s@.len() - p@.len()),
{
    if ends_with(s, p) {
        let v = chars_of(s);
        let w = chars_of(p);
        let t = string_of_range(&v, 0, v.len() - w.len());
        Some(t)
    } else {
        None
    }
}

/// Joins `parts` with `sep` between them.
pub open spec fn joined(parts: Seq<Seq<char>>, sep: Seq<char>) -> Seq<char>
    decreases parts.len(),
{
    if parts.len() == 0 {
        Seq::<char>::empty()
    } else if parts.len() == 1 {
        parts[0]
    } else {
        joined(parts.drop_last(), sep) + sep + parts.last()
    }
}

pub fn join_strings(parts: &Vec<String>, sep: &str) -> (s: String)
    ensures
        s@ == joined(parts@.map_values(|x: String| x@), sep@),
{
    let ghost pv = parts@.map_values(|x: String| x@);
    let mut s = String::new();
    let mut i: usize = 0;
    assert(pv.take(0) =~= Seq::<Seq<char>>::empty());
    while i < parts.len()
        invariant
            i <= parts.len(),
            pv == parts@.map_values(|x: String| x@),
            s@ == joined(pv.take(i as int), sep@),
        decreases parts.len() - i,
    {
        assert(pv.take(i + 1).drop_last() =~= pv.take(i as int));
        assert(pv.take(i + 1).last() == parts@[i as int]@);
        if i > 0 {
            push_str(&mut s, sep);
        } else {
            assert(s@ =~= Seq::<char>::empty());
        }
        push_str(&mut s, parts[i].as_str());
        assert(s@ =~= joined(pv.take(i + 1), sep@));
        i += 1;
    }
    assert(pv.take(parts.len() as int) =~= pv);
    s
}


/// A sequence with `x` pushed holds exactly what it held and `x`.
pub proof fn lemma_contains_push<A>(s: Seq<A>, x: A, p: A)
    ensures
        s.push(x).contains(p) <==> (s.contains(p) || p == x),
{
    if s.contains(p) {
        let k = choose|k: int| 0 <= k < s.len() && s[k] == p;
        assert(s.push(x)[k] == p);
    }
    if p == x {
        assert(s.push(x)[s.len() as int] == p);
    }
    if s.push(x).contains(p) {
        let k = choose|k: int| 0 <= k < s.push(x).len() && s.push(x)[k] == p;
        if k < s.len() {
            assert(s[k] == p);
        }
    }
}


/// Splitting into words: the words done so far and the word being read.
pub open spec fn words_fold(s: Seq<char>) -> (Seq<Seq<char>>, Seq<char>)
    decreases s.len(),
{
    if s.len() == 0 {
        (Seq::<Seq<char>>::empty(), Seq::<char>::empty())
    } else {
        let (done, cur) = words_fold(s.drop_last());
        if is_ws(s.last()) {
            if cur.len() > 0 {
                (done.push(cur), Seq::<char>::empty())
            } else {
                (done, cur)
            }
        } else {
            (done, cur.push(s.last()))
        }
    }
}

/// The whitespace-separated words of `s`, as `split_whitespace` gives them.
pub open spec fn spec_words(s: Seq<char>) -> Seq<Seq<char>> {
    let (done, cur) = words_fold(s);
    if cur.len() > 0 {
        done.push(cur)
    } else {
        done
    }
}

pub fn words_of(s: &str) -> (r: Vec<String>)
    ensures
        r@.map_values(|x: String| x@) == spec_words(s@),
{
    let v = chars_of(s);
    let mut done: Vec<String> = Vec::new();
    let mut cur = String::new();
    let mut i: usize = 0;
    assert(v@.take(0) =~= Seq::<char>::empty());
    assert(done@.map_values(|x: String| x@) =~= Seq::<Seq<char>>::empty());
    while i < v.len()
        invariant
            i <= v.len(),
            v@ == s@,
            (done@.map_values(|x: String| x@), cur@) == words_fold(v@.take(i as int)),
        decreases v.len() - i,
    {
        let c = v[i];
        assert(v@.take(i + 1).drop_last() =~= v@.take(i as int));
        assert(v@.take(i + 1).last() == c);
        if is_ws_char(c) {
            if !cur.as_str().is_empty() {
                let ghost d0 = done@;
                let word = cur;
                cur = String::new();
                let ghost wv = word@;
                done.push(word);
                assert(done@.map_values(|x: String| x@) =~= d0.map_values(|x: String| x@).push(wv));
                assert(cur@ =~= Seq::<char>::empty());
            }
        } else {
            push_char(&mut cur, c);
        }
        i += 1;
    }
    assert(v@.take(v.len() as int) =~= v@);
    if !cur.as_str().is_empty() {
        let ghost d0 = done@;
        let ghost wv = cur@;
        done.push(cur);
        assert(done@.map_values(|x: String| x@) =~= d0.map_values(|x: String| x@).push(wv));
    }
    done
}

/// Whether `xs` holds `x`.
pub fn contains_str(xs: &Vec<String>, x: &str) -> (b: bool)
    ensures
        b == xs@.map_values(|s: String| s@).contains(x@),
{
    let ghost xv = xs@.map_values(|s: String| s@);
    let mut i: usize = 0;
    while i < xs.len()
        invariant
            i <= xs.len(),
            xv == xs@.map_values(|s: String| s@),
            forall|j: int| 0 <= j < i ==> xv[j] != x@,
        decreases xs.len() - i,
    {
        if str_eq(xs[i].as_str(), x) {
            assert(xv[i as int] == x@);
            return true;
        }
        i += 1;
    }
    false
}

/// `s.split_once(c)`: the text before the first `c` and the text after it.
pub fn split_once_char(s: &str, c: char) -> (r: Option<(String, String)>)
    ensures
        r matches Some((a, b)) ==> s@ == a@ + seq![c] + b@ && !a@.contains(c),
        r is None ==> !s@.contains(c),
{
    let v = chars_of(s);
    let mut i: usize = 0;
    while i < v.len()
        invariant
            i <= v.len(),
            v@ == s@,
            forall|j: int| 0 <= j < i ==> v@[j] != c,
        decreases v.len() - i,
    {
        if v[i] == c {
            let a = string_of_range(&v, 0, i);
            let b = string_of_range(&v, i + 1, v.len());
            proof {
                assert(s@ =~= a@ + seq![c] + b@);
                if a@.contains(c) {
                    let k = choose|k: int| 0 <= k < a@.len() && a@[k] == c;
                    assert(v@[k] == c);
                }
            }
            return Some((a, b));
        }
        i += 1;
    }
    proof {
        if s@.contains(c) {
            let k = choose|k: int| 0 <= k < s@.len() && s@[k] == c;
            assert(v@[k] == c);
        }
    }
    None
}

/// One more character after the digits read so far.
pub open spec fn digit_step(acc: nat, c: char) -> Result<nat, IntErrorKind> {
    if !is_ascii_digit(c) {
        Err(IntErrorKind::InvalidDigit)
    } else if acc * 10 + char_digit(c) > usize::MAX {
        Err(IntErrorKind::PosOverflow)
    } else {
        Ok(acc * 10 + char_digit(c))
    }
}

proof fn lemma_digits_push(s: Seq<char>, c: char, i: nat, acc: nat)
    requires
        i <= s.len(),
    ensures
        usize_digits(s.push(c), i, acc) == match usize_digits(s, i, acc) {
            Ok(v) => digit_step(v, c),
            Err(e) => Err(e),
        },
    decreases s.len() - i,
{
    if i < s.len() {
        assert(s.push(c)[i as int] == s[i as int]);
        let d = s[i as int];
        if is_ascii_digit(d) && acc * 10 + char_digit(d) <= usize::MAX {
            lemma_digits_push(s, c, i + 1, acc * 10 + char_digit(d));
        }
    } else {
        assert(s.push(c)[i as int] == c);
        assert(usize_digits(s.push(c), i + 1, acc * 10 + char_digit(c)) == Ok::<nat, IntErrorKind>(
            acc * 10 + char_digit(c),
        ));
    }
}

proof fn lemma_digit_char(d: nat)
    requires
        d < 10,
    ensures
        is_ascii_digit(digit_char(d)),
        char_digit(digit_char(d)) == d,
{
}

pub proof fn lemma_decimal_digits(n: nat)
    ensures
        decimal(n).len() > 0,
        forall|i: int| 0 <= i < decimal(n).len() ==> is_ascii_digit(#[trigger] decimal(n)[i]),
        n <= usize::MAX ==> usize_digits(decimal(n), 0, 0) == Ok::<nat, IntErrorKind>(n),
    decreases n,
{
    if n < 10 {
        lemma_digit_char(n);
        assert(usize_digits(decimal(n), 1, n) == Ok::<nat, IntErrorKind>(n));
    } else {
        lemma_decimal_digits(n / 10);
        lemma_digit_char(n % 10);
        let prefix = decimal(n / 10);
        let c = digit_char(n % 10);
        assert forall|i: int| 0 <= i < decimal(n).len() implies is_ascii_digit(#[trigger] decimal(n)[i]) by {
            if i < prefix.len() {
                assert(decimal(n)[i] == prefix[i]);
            }
        }
        lemma_digits_push(prefix, c, 0, 0);
        assert((n / 10) * 10 + n % 10 == n);
    }
}

/// A number written in decimal reads back as itself with `str::parse::<usize>`.
pub proof fn law_decimal_reads_back(n: nat)
    requires
        n <= usize::MAX,
    ensures
        spec_usize_from_str(decimal(n)) == Ok::<nat, IntErrorKind>(n),
{
    lemma_decimal_digits(n);
    assert(is_ascii_digit(decimal(n)[0]));
}

/// Each line followed by a line feed.
pub open spec fn lines_text(ls: Seq<Seq<char>>) -> Seq<char>
    decreases ls.len(),
{
    if ls.len() == 0 {
        Seq::<char>::empty()
    } else {
        lines_text(ls.drop_last()) + ls.last() + "\n"@
    }
}

pub proof fn lemma_lines_text_append(a: Seq<Seq<char>>, b: Seq<Seq<char>>)
    ensures
        lines_text(a + b) == lines_text(a) + lines_text(b),
    decreases b.len(),
{
    if b.len() == 0 {
        assert(a + b =~= a);
        assert(lines_text(a) + lines_text(b) =~= lines_text(a));
    } else {
        lemma_lines_text_append(a, b.drop_last());
        assert((a + b).drop_last() =~= a + b.drop_last());
        assert((a + b).last() == b.last());
        assert(lines_text(a) + lines_text(b.drop_last()) + b.last() + "\n"@ =~= lines_text(a) + (lines_text(
            b.drop_last(),
        ) + b.last() + "\n"@));
    }
}

/// Text written line by line reads back as those lines, when no line holds a line feed or
/// ends with a carriage return.
pub proof fn lemma_lines_text_lines(ls: Seq<Seq<char>>)
    requires
        forall|i: int| 0 <= i < ls.len() ==> !(#[trigger] ls[i]).contains('\n'),
        forall|i: int| 0 <= i < ls.len() ==> (#[trigger] ls[i]).len() == 0 || ls[i].last() != '\r',
    ensures
        spec_lines(lines_text(ls)) == ls,
{
    lemma_lines_text_fold(ls);
    assert forall|i: int| 0 <= i < ls.len() implies strip_cr(#[trigger] ls[i]) == ls[i] by {}
    assert(ls.map_values(|l: Seq<char>| strip_cr(l)) =~= ls);
}

proof fn lemma_lines_text_fold(ls: Seq<Seq<char>>)
    requires
        forall|i: int| 0 <= i < ls.len() ==> !(#[trigger] ls[i]).contains('\n'),
    ensures
        split_fold(lines_text(ls), '\n') == (ls, Seq::<char>::empty()),
    decreases ls.len(),
{
    reveal_strlit("\n");
    if ls.len() == 0 {
        assert(ls =~= Seq::<Seq<char>>::empty());
    } else {
        let init = ls.drop_last();
        assert forall|i: int| 0 <= i < init.len() implies !(#[trigger] init[i]).contains('\n') by {
            assert(init[i] == ls[i]);
        }
        lemma_lines_text_fold(init);
        let l = ls.last();
        assert(!l.contains('\n')) by {
            assert(ls[ls.len() - 1] == l);
        }
        let prev = lines_text(init);
        lemma_split_fold_plain(prev, l, '\n');
        assert(Seq::<char>::empty() + l =~= l);
        assert(prev + l + "\n"@ =~= (prev + l).push('\n'));
        lemma_split_fold_sep(prev + l, '\n');
        assert(init.push(l) =~= ls);
    }
}

/// `p` stands somewhere in `t`, as a run of consecutive characters.
pub open spec fn has_infix(t: Seq<char>, p: Seq<char>) -> bool {
    exists|i: int| 0 <= i && i + p.len() <= t.len() && #[trigger] t.subrange(i, i + p.len()) == p
}

pub proof fn lemma_infix_self(p: Seq<char>)
    ensures
        has_infix(p, p),
{
    let z: int = 0;
    assert(p.subrange(z, z + p.len()) =~= p);
}

/// What stands in `b` stands in `a + b` and in `b + c`.
pub proof fn lemma_infix_extend(a: Seq<char>, b: Seq<char>, c: Seq<char>, p: Seq<char>)
    requires
        has_infix(b, p),
    ensures
        has_infix(a + b, p),
        has_infix(b + c, p),
        has_infix(a + b + c, p),
{
    let i = choose|i: int| 0 <= i && i + p.len() <= b.len() && #[trigger] b.subrange(i, i + p.len()) == p;
    assert((a + b).subrange(a.len() + i, a.len() + i + p.len()) =~= b.subrange(i, i + p.len()));
    assert((b + c).subrange(i, i + p.len()) =~= b.subrange(i, i + p.len()));
    assert((a + b + c).subrange(a.len() + i, a.len() + i + p.len()) =~= b.subrange(i, i + p.len()));
}

} // verus!
