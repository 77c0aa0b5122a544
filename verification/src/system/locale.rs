// Hostname, locale, keymap and timezone as a system's files state them.

use vstd::prelude::*;

use crate::text::{chars_of, lines_of, spec_lines, str_eq, string_of_range, trim, trim_str};

verus! {

/// A file's text trimmed, when anything is left.
pub open spec fn trimmed_value(contents: Option<String>) -> Option<Seq<char>> {
    match contents {
        Some(c) => if trim(c@).len() == 0 {
            None
        } else {
            Some(trim(c@))
        },
        None => None,
    }
}

/// The hostname that `/etc/hostname` below a root holds, given that file's text when it
/// could be read.
pub fn read_hostname_from_root(contents: Option<String>) -> (r: Option<String>)
    ensures
        crate::config::types::opt_view(r) == trimmed_value(contents),
{
    match contents {
        Some(c) => {
            let t = trim_str(c.as_str());
            if t.as_str().is_empty() {
                None
            } else {
                Some(t)
            }
        },
        None => None,
    }
}

/// The first `=` of a line, if any.
pub open spec fn eq_index(l: Seq<char>) -> Option<int>
    decreases l.len(),
{
    if l.len() == 0 {
        None
    } else if l[0] == '=' {
        Some(0)
    } else {
        match eq_index(l.drop_first()) {
            Some(i) => Some(i + 1),
            None => None,
        }
    }
}

/// The value a `<key>=<value>` line gives `key`, trimmed, when it is not blank.
pub open spec fn line_value(l: Seq<char>, key: Seq<char>) -> Option<Seq<char>> {
    match eq_index(l) {
        None => None,
        Some(i) => if trim(l.take(i)) == key && trim(l.skip(i + 1)).len() > 0 {
            Some(trim(l.skip(i + 1)))
        } else {
            None
        },
    }
}

/// The first line that gives `key` a value.
pub open spec fn key_value(ls: Seq<Seq<char>>, key: Seq<char>) -> Option<Seq<char>>
    decreases ls.len(),
{
    if ls.len() == 0 {
        None
    } else {
        match line_value(ls[0], key) {
            Some(v) => Some(v),
            None => key_value(ls.drop_first(), key),
        }
    }
}

proof fn lemma_eq_index(l: Seq<char>)
    ensures
        eq_index(l) matches Some(i) ==> 0 <= i < l.len() && l[i] == '=' && forall|j: int|
            0 <= j < i ==> l[j] != '=',
        eq_index(l) is None ==> forall|j: int| 0 <= j < l.len() ==> l[j] != '=',
    decreases l.len(),
{
    if l.len() > 0 {
        lemma_eq_index(l.drop_first());
        if l[0] != '=' {
            assert forall|j: int| 0 < j < l.len() implies l[j] == l.drop_first()[j - 1] by {}
        }
    }
}

fn line_value_exec(line: &str, key: &str) -> (r: Option<String>)
    ensures
        crate::config::types::opt_view(r) == line_value(line@, key@),
{
    let v = chars_of(line);
    proof {
        lemma_eq_index(line@);
    }
    let mut i: usize = 0;
    while i < v.len() && v[i] != '='
        invariant
            i <= v.len(),
            v@ == line@,
            forall|j: int| 0 <= j < i ==> v@[j] != '=',
        decreases v.len() - i,
    {
        i += 1;
    }
    if i == v.len() {
        return None;
    }
    proof {
        match eq_index(line@) {
            Some(k) => {
                assert(k == i as int);
            },
            None => {},
        }
    }
    let candidate = string_of_range(&v, 0, i);
    let value = string_of_range(&v, i + 1, v.len());
    assert(candidate@ =~= line@.take(i as int));
    assert(value@ =~= line@.skip(i + 1));
    let c = trim_str(candidate.as_str());
    let t = trim_str(value.as_str());
    if str_eq(c.as_str(), key) && !t.as_str().is_empty() {
        Some(t)
    } else {
        None
    }
}

/// The value of `key` in a `KEY=value` file's text, when readable.
pub open spec fn file_key_value(contents: Option<String>, key: Seq<char>) -> Option<Seq<char>> {
    match contents {
        Some(c) => key_value(spec_lines(c@), key),
        None => None,
    }
}

fn read_key_value(contents: Option<String>, key: &str) -> (r: Option<String>)
    ensures
        crate::config::types::opt_view(r) == file_key_value(contents, key@),
{
    let ghost goal = file_key_value(contents, key@);
    let text = match contents {
        Some(c) => c,
        None => {
            return None;
        },
    };
    let lines = lines_of(text.as_str());
    let ghost ls = lines@.map_values(|x: String| x@);
    let mut i: usize = 0;
    assert(ls.skip(0) =~= ls);
    while i < lines.len()
        invariant
            i <= lines.len(),
            ls == lines@.map_values(|x: String| x@),
            ls == spec_lines(text@),
            goal == key_value(ls, key@),
            goal == file_key_value(contents, key@),
            key_value(ls, key@) == key_value(ls.skip(i as int), key@),
        decreases lines.len() - i,
    {
        assert(ls.skip(i as int)[0] == lines@[i as int]@);
        assert(ls.skip(i as int).drop_first() =~= ls.skip(i + 1));
        match line_value_exec(lines[i].as_str(), key) {
            Some(v) => {
                assert(line_value(ls.skip(i as int)[0], key@) == Some(v@));
                assert(key_value(ls.skip(i as int), key@) == Some(v@));
                return Some(v);
            },
            None => {},
        }
        i += 1;
    }
    None
}

/// `LANG` of `/etc/locale.conf`, given that file's text when it could be read.
pub fn read_locale(contents: Option<String>) -> (r: Option<String>)
    ensures
        crate::config::types::opt_view(r) == file_key_value(contents, "LANG"@),
{
    read_key_value(contents, "LANG")
}

/// `KEYMAP` of `/etc/vconsole.conf`, given that file's text when it could be read.
pub fn read_keymap(contents: Option<String>) -> (r: Option<String>)
    ensures
        crate::config::types::opt_view(r) == file_key_value(contents, "KEYMAP"@),
{
    read_key_value(contents, "KEYMAP")
}

pub open spec fn occurs_at(s: Seq<char>, p: Seq<char>, i: int) -> bool {
    0 <= i && i + p.len() <= s.len() && s.subrange(i, i + p.len()) == p
}

/// The last position at or before `i` where `p` occurs in `s`.
pub open spec fn last_at(s: Seq<char>, p: Seq<char>, i: int) -> Option<int>
    decreases i + 1,
{
    if i < 0 {
        None
    } else if occurs_at(s, p, i) {
        Some(i)
    } else {
        last_at(s, p, i - 1)
    }
}

/// The timezone a `/etc/localtime` link names: what follows the last
/// `/usr/share/zoneinfo/` in its target, when that is not empty.
pub open spec fn spec_timezone_of(target: Seq<char>) -> Option<Seq<char>> {
    let p = "/usr/share/zoneinfo/"@;
    match last_at(target, p, target.len() - p.len()) {
        None => None,
        Some(i) => if i + p.len() < target.len() {
            Some(target.skip(i + p.len()))
        } else {
            None
        },
    }
}

fn occurs_at_exec(v: &Vec<char>, w: &Vec<char>, i: usize) -> (b: bool)
    requires
        i + w.len() <= v.len(),
    ensures
        b == occurs_at(v@, w@, i as int),
{
    let mut k: usize = 0;
    while k < w.len()
        invariant
            k <= w.len(),
            i + w.len() <= v.len(),
            forall|j: int| 0 <= j < k ==> v@[i + j] == w@[j],
        decreases w.len() - k,
    {
        if v[i + k] != w[k] {
            assert(v@.subrange(i as int, i + w.len())[k as int] != w@[k as int]);
            return false;
        }
        k += 1;
    }
    assert(v@.subrange(i as int, i + w.len()) =~= w@);
    true
}

/// The timezone that a `/etc/localtime` link with target `target` names.
pub fn timezone_from_link(target: &str) -> (r: Option<String>)
    ensures
        crate::config::types::opt_view(r) == spec_timezone_of(target@),
{
    let v = chars_of(target);
    let w = chars_of("/usr/share/zoneinfo/");
    if w.len() > v.len() {
        proof {
            assert(last_at(target@, w@, target@.len() - w@.len()) is None);
        }
        return None;
    }
    let mut i: usize = v.len() - w.len();
    loop
        invariant
            i + w.len() <= v.len(),
            v@ == target@,
            w@ == "/usr/share/zoneinfo/"@,
            last_at(target@, w@, target@.len() - w@.len()) == last_at(target@, w@, i as int),
        decreases i,
    {
        if occurs_at_exec(&v, &w, i) {
            let start = i + w.len();
            if start < v.len() {
                let tz = string_of_range(&v, start, v.len());
                assert(tz@ =~= target@.skip(start as int));
                return Some(tz);
            }
            return None;
        }
        if i == 0 {
            assert(last_at(target@, w@, -1) is None);
            return None;
        }
        i -= 1;
    }
}

} // verus!
