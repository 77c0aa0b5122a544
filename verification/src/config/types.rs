// Typed configuration structs and their construction from loaded domain values.

use vstd::prelude::*;

use crate::strmap::{spec_from_pairs, spec_get, spec_remove, StrMap};
use crate::text::{decimal, push_decimal, push_str, string_from, str_eq};

verus! {

/// A value that a configuration file produced for a domain or a field.
#[derive(Debug)]
pub enum DomainValue {
    Boolean(bool),
    Integer(i64),
    String(String),
    List(Vec<DomainValue>),
    Table(Vec<(String, DomainValue)>),
}

/// The table entries of a domain value, keys as character sequences.
pub open spec fn table_pairs(entries: Seq<(String, DomainValue)>) -> Seq<(Seq<char>, DomainValue)> {
    entries.map_values(|p: (String, DomainValue)| (p.0@, p.1))
}

pub open spec fn opt_view(o: Option<String>) -> Option<Seq<char>> {
    match o {
        Some(s) => Some(s@),
        None => None,
    }
}

pub open spec fn strings_view(v: Seq<String>) -> Seq<Seq<char>> {
    v.map_values(|s: String| s@)
}

/// `<file>: domain `<domain>` must be a table`
pub open spec fn msg_not_table(file: Seq<char>, domain: Seq<char>) -> Seq<char> {
    file + ": domain `"@ + domain + "` must be a table"@
}

/// `<file>: unknown field `<domain>.<field>``
pub open spec fn msg_unknown_field(file: Seq<char>, domain: Seq<char>, field: Seq<char>) -> Seq<char> {
    file + ": unknown field `"@ + domain + "."@ + field + "`"@
}

/// `<file>: `<path>` must be <what>`
pub open spec fn msg_must_be(file: Seq<char>, path: Seq<char>, what: Seq<char>) -> Seq<char> {
    file + ": `"@ + path + "` must be "@ + what
}

/// `<file>: missing required field `<path>``
pub open spec fn msg_missing(file: Seq<char>, path: Seq<char>) -> Seq<char> {
    file + ": missing required field `"@ + path + "`"@
}

/// `<file>: unknown top-level domain `<domain>``
pub open spec fn msg_unknown_domain(file: Seq<char>, domain: Seq<char>) -> Seq<char> {
    file + ": unknown top-level domain `"@ + domain + "`"@
}

/// `<prefix>.<key>`
pub open spec fn field_path(prefix: Seq<char>, key: Seq<char>) -> Seq<char> {
    prefix + "."@ + key
}

/// `<path>[<index + 1>]`
pub open spec fn item_path(path: Seq<char>, index: nat) -> Seq<char> {
    path + "["@ + decimal(index + 1) + "]"@
}

/// Decimal rendering of a signed integer, as `i64::to_string`.
pub open spec fn signed_decimal(i: int) -> Seq<char> {
    if i < 0 {
        seq!['-'] + decimal((-i) as nat)
    } else {
        decimal(i as nat)
    }
}

/// A domain value as a table: its entries collected by key, a later key replacing an
/// earlier one, or the error for any other kind of value.
pub open spec fn spec_into_table(v: DomainValue, file: Seq<char>, domain: Seq<char>) -> Result<
    Seq<(Seq<char>, DomainValue)>,
    Seq<char>,
> {
    match v {
        DomainValue::Table(entries) => Ok(spec_from_pairs(table_pairs(entries@))),
        _ => Err(msg_not_table(file, domain)),
    }
}

impl DomainValue {
    /// The entries of a table value, in key order, one per key; any other value is an error.
    pub fn into_table(self, file: &str, domain: &str) -> (r: Result<StrMap<DomainValue>, String>)
        ensures
            r matches Ok(m) ==> m.wf() && spec_into_table(self, file@, domain@) == Ok::<
                Seq<(Seq<char>, DomainValue)>,
                Seq<char>,
            >(m@),
            r matches Err(e) ==> spec_into_table(self, file@, domain@) == Err::<
                Seq<(Seq<char>, DomainValue)>,
                Seq<char>,
            >(e@),
    {
        match self {
            DomainValue::Table(entries) => Ok(StrMap::from_pairs(entries)),
            _ => {
                let mut s = string_from(file);
                push_str(&mut s, ": domain `");
                push_str(&mut s, domain);
                push_str(&mut s, "` must be a table");
                Err(s)
            },
        }
    }
}

/// The first key, in order, that `allowed` does not hold.
pub open spec fn first_unknown(keys: Seq<Seq<char>>, allowed: Seq<Seq<char>>) -> Option<Seq<char>>
    decreases keys.len(),
{
    if keys.len() == 0 {
        None
    } else if !allowed.contains(keys[0]) {
        Some(keys[0])
    } else {
        first_unknown(keys.drop_first(), allowed)
    }
}

pub open spec fn strs_view(s: Seq<&str>) -> Seq<Seq<char>> {
    s.map_values(|x: &str| x@)
}

fn str_in(value: &str, allowed: &[&str]) -> (r: bool)
    ensures
        r == strs_view(allowed@).contains(value@),
{
    let mut i: usize = 0;
    while i < allowed.len()
        invariant
            i <= allowed@.len(),
            forall|j: int| 0 <= j < i ==> allowed@[j]@ != value@,
        decreases allowed.len() - i,
    {
        if str_eq(allowed[i], value) {
            assert(strs_view(allowed@)[i as int] == value@);
            return true;
        }
        i += 1;
    }
    proof {
        if strs_view(allowed@).contains(value@) {
            let j = choose|j: int|
                0 <= j < strs_view(allowed@).len() && strs_view(allowed@)[j] == value@;
            assert(allowed@[j]@ == value@);
        }
    }
    false
}

fn reject_unknown_fields(file: &str, domain: &str, fields: &StrMap<DomainValue>, allowed: &[&str]) -> (r:
    Result<(), String>)
    ensures
        r is Ok <==> first_unknown(crate::strmap::keys_of(fields@), strs_view(allowed@)) is None,
        r matches Err(e) ==> e@ == msg_unknown_field(
            file@,
            domain@,
            first_unknown(crate::strmap::keys_of(fields@), strs_view(allowed@))->0,
        ),
{
    let ghost keys = crate::strmap::keys_of(fields@);
    let mut i: usize = 0;
    assert(keys.skip(0) =~= keys);
    while i < fields.len()
        invariant
            i <= fields@.len(),
            keys == crate::strmap::keys_of(fields@),
            first_unknown(keys.skip(i as int), strs_view(allowed@)) == first_unknown(
                keys,
                strs_view(allowed@),
            ),
        decreases fields@.len() - i,
    {
        let key = fields.key_at(i);
        assert(keys.skip(i as int)[0] == key@);
        if !str_in(key.as_str(), allowed) {
            let mut s = string_from(file);
            push_str(&mut s, ": unknown field `");
            push_str(&mut s, domain);
            push_str(&mut s, ".");
            push_str(&mut s, key.as_str());
            push_str(&mut s, "`");
            return Err(s);
        }
        assert(keys.skip(i as int).drop_first() =~= keys.skip(i + 1));
        i += 1;
    }
    assert(keys.skip(i as int) =~= Seq::<Seq<char>>::empty());
    Ok(())
}

pub(crate) fn join_path(prefix: &str, key: &str) -> (p: String)
    ensures
        p@ == field_path(prefix@, key@),
{
    let mut p = string_from(prefix);
    push_str(&mut p, ".");
    push_str(&mut p, key);
    p
}

pub(crate) fn indexed_path(path: &str, index: usize) -> (p: String)
    requires
        index < usize::MAX,
    ensures
        p@ == item_path(path@, index as nat),
{
    let mut p = string_from(path);
    push_str(&mut p, "[");
    push_decimal(&mut p, (index + 1) as u128);
    push_str(&mut p, "]");
    p
}

fn must_be(file: &str, path: &str, what: &str) -> (e: String)
    ensures
        e@ == msg_must_be(file@, path@, what@),
{
    let mut s = string_from(file);
    push_str(&mut s, ": `");
    push_str(&mut s, path);
    push_str(&mut s, "` must be ");
    push_str(&mut s, what);
    s
}

/// A string field: absent, a string, or the error for another kind of value.
pub open spec fn spec_opt_string(file: Seq<char>, path: Seq<char>, v: Option<DomainValue>) -> Result<
    Option<Seq<char>>,
    Seq<char>,
> {
    match v {
        None => Ok(None),
        Some(DomainValue::String(s)) => Ok(Some(s@)),
        Some(_) => Err(msg_must_be(file, path, "a string"@)),
    }
}

pub open spec fn spec_req_string(file: Seq<char>, path: Seq<char>, v: Option<DomainValue>) -> Result<
    Seq<char>,
    Seq<char>,
> {
    match v {
        None => Err(msg_missing(file, path)),
        Some(DomainValue::String(s)) => Ok(s@),
        Some(_) => Err(msg_must_be(file, path, "a string"@)),
    }
}

pub open spec fn spec_opt_string_or_integer(
    file: Seq<char>,
    path: Seq<char>,
    v: Option<DomainValue>,
) -> Result<Option<Seq<char>>, Seq<char>> {
    match v {
        None => Ok(None),
        Some(DomainValue::String(s)) => Ok(Some(s@)),
        Some(DomainValue::Integer(i)) => Ok(Some(signed_decimal(i as int))),
        Some(_) => Err(msg_must_be(file, path, "a string or integer"@)),
    }
}

pub open spec fn spec_opt_bool(file: Seq<char>, path: Seq<char>, v: Option<DomainValue>) -> Result<
    Option<bool>,
    Seq<char>,
> {
    match v {
        None => Ok(None),
        Some(DomainValue::Boolean(b)) => Ok(Some(b)),
        Some(_) => Err(msg_must_be(file, path, "a boolean"@)),
    }
}

/// The strings of a list, or `None` when an item is not a string.
pub open spec fn spec_string_items(vals: Seq<DomainValue>) -> Option<Seq<Seq<char>>>
    decreases vals.len(),
{
    if vals.len() == 0 {
        Some(seq![])
    } else {
        match spec_string_items(vals.drop_last()) {
            None => None,
            Some(s) => match vals.last() {
                DomainValue::String(x) => Some(s.push(x@)),
                _ => None,
            },
        }
    }
}

pub open spec fn spec_opt_list(file: Seq<char>, path: Seq<char>, v: Option<DomainValue>) -> Result<
    Seq<Seq<char>>,
    Seq<char>,
> {
    match v {
        None => Ok(seq![]),
        Some(DomainValue::List(values)) => match spec_string_items(values@) {
            Some(s) => Ok(s),
            None => Err(msg_must_be(file, path, "a list of strings"@)),
        },
        Some(_) => Err(msg_must_be(file, path, "a list of strings"@)),
    }
}

/// The boolean entries of a table, or the key of the first entry that is not a boolean.
pub open spec fn spec_bool_entries(vals: Seq<(String, DomainValue)>) -> Result<
    Seq<(Seq<char>, bool)>,
    Seq<char>,
>
    decreases vals.len(),
{
    if vals.len() == 0 {
        Ok(seq![])
    } else {
        match spec_bool_entries(vals.drop_last()) {
            Err(k) => Err(k),
            Ok(s) => match vals.last().1 {
                DomainValue::Boolean(b) => Ok(s.push((vals.last().0@, b))),
                _ => Err(vals.last().0@),
            },
        }
    }
}

/// The string entries of a table, or the key of the first entry that is not a string.
pub open spec fn spec_string_entries(vals: Seq<(String, DomainValue)>) -> Result<
    Seq<(Seq<char>, Seq<char>)>,
    Seq<char>,
>
    decreases vals.len(),
{
    if vals.len() == 0 {
        Ok(seq![])
    } else {
        match spec_string_entries(vals.drop_last()) {
            Err(k) => Err(k),
            Ok(s) => match vals.last().1 {
                DomainValue::String(x) => Ok(s.push((vals.last().0@, x@))),
                _ => Err(vals.last().0@),
            },
        }
    }
}

pub open spec fn spec_opt_bool_map(file: Seq<char>, path: Seq<char>, v: Option<DomainValue>) -> Result<
    Seq<(Seq<char>, bool)>,
    Seq<char>,
> {
    match v {
        None => Ok(seq![]),
        Some(DomainValue::Table(values)) => match spec_bool_entries(values@) {
            Ok(s) => Ok(spec_from_pairs(s)),
            Err(k) => Err(msg_must_be(file, field_path(path, k), "a boolean"@)),
        },
        Some(_) => Err(msg_must_be(file, path, "a table"@)),
    }
}

pub open spec fn spec_opt_string_map(file: Seq<char>, path: Seq<char>, v: Option<DomainValue>) -> Result<
    Seq<(Seq<char>, Seq<char>)>,
    Seq<char>,
> {
    match v {
        None => Ok(seq![]),
        Some(DomainValue::Table(values)) => match spec_string_entries(values@) {
            Ok(s) => Ok(spec_from_pairs(s)),
            Err(k) => Err(msg_must_be(file, field_path(path, k), "a string"@)),
        },
        Some(_) => Err(msg_must_be(file, path, "a table"@)),
    }
}

/// Removes the field `key` of a table, the value that was there handed back.
fn take_field(fields: &mut StrMap<DomainValue>, key: &str) -> (r: Option<DomainValue>)
    ensures
        r == spec_get(old(fields)@, key@),
        final(fields)@ == spec_remove(old(fields)@, key@),
        old(fields).wf() ==> final(fields).wf(),
{
    fields.remove(key)
}

fn take_optional_string(file: &str, prefix: &str, key: &str, fields: &mut StrMap<DomainValue>) -> (r:
    Result<Option<String>, String>)
    ensures
        final(fields)@ == spec_remove(old(fields)@, key@),
        old(fields).wf() ==> final(fields).wf(),
        spec_opt_string(file@, field_path(prefix@, key@), spec_get(old(fields)@, key@)) == match r {
            Ok(o) => Ok::<Option<Seq<char>>, Seq<char>>(opt_view(o)),
            Err(e) => Err(e@),
        },
{
    match take_field(fields, key) {
        Some(DomainValue::String(value)) => Ok(Some(value)),
        Some(_) => {
            let path = join_path(prefix, key);
            Err(must_be(file, path.as_str(), "a string"))
        },
        None => Ok(None),
    }
}

fn take_required_string(file: &str, prefix: &str, key: &str, fields: &mut StrMap<DomainValue>) -> (r:
    Result<String, String>)
    ensures
        final(fields)@ == spec_remove(old(fields)@, key@),
        old(fields).wf() ==> final(fields).wf(),
        spec_req_string(file@, field_path(prefix@, key@), spec_get(old(fields)@, key@)) == match r {
            Ok(s) => Ok::<Seq<char>, Seq<char>>(s@),
            Err(e) => Err(e@),
        },
{
    match take_field(fields, key) {
        Some(DomainValue::String(value)) => Ok(value),
        Some(_) => {
            let path = join_path(prefix, key);
            Err(must_be(file, path.as_str(), "a string"))
        },
        None => {
            let path = join_path(prefix, key);
            let mut s = string_from(file);
            push_str(&mut s, ": missing required field `");
            push_str(&mut s, path.as_str());
            push_str(&mut s, "`");
            Err(s)
        },
    }
}

fn signed_decimal_string(i: i64) -> (s: String)
    ensures
        s@ == signed_decimal(i as int),
{
    let mut s = String::new();
    if i < 0 {
        crate::text::push_char(&mut s, '-');
        let m = (0i128 - (i as i128)) as u128;
        push_decimal(&mut s, m);
    } else {
        push_decimal(&mut s, i as u128);
    }
    s
}

fn take_optional_string_or_integer(
    file: &str,
    prefix: &str,
    key: &str,
    fields: &mut StrMap<DomainValue>,
) -> (r: Result<Option<String>, String>)
    ensures
        final(fields)@ == spec_remove(old(fields)@, key@),
        old(fields).wf() ==> final(fields).wf(),
        spec_opt_string_or_integer(file@, field_path(prefix@, key@), spec_get(old(fields)@, key@))
            == match r {
            Ok(o) => Ok::<Option<Seq<char>>, Seq<char>>(opt_view(o)),
            Err(e) => Err(e@),
        },
{
    match take_field(fields, key) {
        Some(DomainValue::String(value)) => Ok(Some(value)),
        Some(DomainValue::Integer(value)) => Ok(Some(signed_decimal_string(value))),
        Some(_) => {
            let path = join_path(prefix, key);
            Err(must_be(file, path.as_str(), "a string or integer"))
        },
        None => Ok(None),
    }
}

fn take_optional_bool(file: &str, prefix: &str, key: &str, fields: &mut StrMap<DomainValue>) -> (r:
    Result<Option<bool>, String>)
    ensures
        final(fields)@ == spec_remove(old(fields)@, key@),
        old(fields).wf() ==> final(fields).wf(),
        spec_opt_bool(file@, field_path(prefix@, key@), spec_get(old(fields)@, key@)) == match r {
            Ok(o) => Ok::<Option<bool>, Seq<char>>(o),
            Err(e) => Err(e@),
        },
{
    match take_field(fields, key) {
        Some(DomainValue::Boolean(value)) => Ok(Some(value)),
        Some(_) => {
            let path = join_path(prefix, key);
            Err(must_be(file, path.as_str(), "a boolean"))
        },
        None => Ok(None),
    }
}

proof fn lemma_items_prefix_none(vals: Seq<DomainValue>, n: int)
    requires
        0 <= n <= vals.len(),
        spec_string_items(vals.take(n)) is None,
    ensures
        spec_string_items(vals) is None,
    decreases vals.len() - n,
{
    if n < vals.len() {
        assert(vals.take(n + 1).drop_last() =~= vals.take(n));
        lemma_items_prefix_none(vals, n + 1);
    } else {
        assert(vals.take(n) =~= vals);
    }
}

proof fn lemma_bool_prefix_err(vals: Seq<(String, DomainValue)>, n: int, k: Seq<char>)
    requires
        0 <= n <= vals.len(),
        spec_bool_entries(vals.take(n)) == Err::<Seq<(Seq<char>, bool)>, Seq<char>>(k),
    ensures
        spec_bool_entries(vals) == Err::<Seq<(Seq<char>, bool)>, Seq<char>>(k),
    decreases vals.len() - n,
{
    if n < vals.len() {
        assert(vals.take(n + 1).drop_last() =~= vals.take(n));
        lemma_bool_prefix_err(vals, n + 1, k);
    } else {
        assert(vals.take(n) =~= vals);
    }
}

proof fn lemma_string_prefix_err(vals: Seq<(String, DomainValue)>, n: int, k: Seq<char>)
    requires
        0 <= n <= vals.len(),
        spec_string_entries(vals.take(n)) == Err::<Seq<(Seq<char>, Seq<char>)>, Seq<char>>(k),
    ensures
        spec_string_entries(vals) == Err::<Seq<(Seq<char>, Seq<char>)>, Seq<char>>(k),
    decreases vals.len() - n,
{
    if n < vals.len() {
        assert(vals.take(n + 1).drop_last() =~= vals.take(n));
        lemma_string_prefix_err(vals, n + 1, k);
    } else {
        assert(vals.take(n) =~= vals);
    }
}

/// The strings of a list value, or `None` when an item is another kind of value.
fn string_items(values: Vec<DomainValue>) -> (r: Option<Vec<String>>)
    ensures
        spec_string_items(values@) == match r {
            Some(v) => Some(strings_view(v@)),
            None => None::<Seq<Seq<char>>>,
        },
{
    let ghost vals = values@;
    let mut out: Vec<String> = Vec::new();
    assert(vals.take(0) =~= Seq::<DomainValue>::empty());
    assert(strings_view(out@) =~= Seq::<Seq<char>>::empty());
    for value in it: values.into_iter()
        invariant
            it.seq() == vals,
            spec_string_items(vals.take(it.index() as int)) == Some(strings_view(out@)),
    {
        let ghost idx = it.index();
        assert(vals.take(idx + 1).drop_last() =~= vals.take(idx as int));
        assert(vals.take(idx + 1).last() == value);
        match value {
            DomainValue::String(s) => {
                out.push(s);
                assert(strings_view(out@) =~= strings_view(out@.drop_last()).push(out@.last()@));
            },
            _ => {
                proof {
                    lemma_items_prefix_none(vals, idx + 1);
                }
                return None;
            },
        }
    }
    assert(vals.take(vals.len() as int) =~= vals);
    Some(out)
}

fn take_optional_list(file: &str, prefix: &str, key: &str, fields: &mut StrMap<DomainValue>) -> (r:
    Result<Vec<String>, String>)
    ensures
        final(fields)@ == spec_remove(old(fields)@, key@),
        old(fields).wf() ==> final(fields).wf(),
        spec_opt_list(file@, field_path(prefix@, key@), spec_get(old(fields)@, key@)) == match r {
            Ok(v) => Ok::<Seq<Seq<char>>, Seq<char>>(strings_view(v@)),
            Err(e) => Err(e@),
        },
{
    match take_field(fields, key) {
        Some(DomainValue::List(values)) => match string_items(values) {
            Some(v) => Ok(v),
            None => {
                let path = join_path(prefix, key);
                Err(must_be(file, path.as_str(), "a list of strings"))
            },
        },
        Some(_) => {
            let path = join_path(prefix, key);
            Err(must_be(file, path.as_str(), "a list of strings"))
        },
        None => {
            let v: Vec<String> = Vec::new();
            assert(strings_view(v@) =~= Seq::<Seq<char>>::empty());
            Ok(v)
        },
    }
}

fn bool_entries(values: Vec<(String, DomainValue)>) -> (r: Result<Vec<(String, bool)>, String>)
    ensures
        spec_bool_entries(values@) == match r {
            Ok(v) => Ok::<Seq<(Seq<char>, bool)>, Seq<char>>(
                v@.map_values(|p: (String, bool)| (p.0@, p.1)),
            ),
            Err(k) => Err(k@),
        },
{
    let ghost vals = values@;
    let mut out: Vec<(String, bool)> = Vec::new();
    assert(vals.take(0) =~= Seq::<(String, DomainValue)>::empty());
    assert(out@.map_values(|p: (String, bool)| (p.0@, p.1)) =~= Seq::<(Seq<char>, bool)>::empty());
    for entry in it: values.into_iter()
        invariant
            it.seq() == vals,
            spec_bool_entries(vals.take(it.index() as int)) == Ok::<Seq<(Seq<char>, bool)>, Seq<char>>(
                out@.map_values(|p: (String, bool)| (p.0@, p.1)),
            ),
    {
        let ghost idx = it.index();
        assert(vals.take(idx + 1).drop_last() =~= vals.take(idx as int));
        assert(vals.take(idx + 1).last() == entry);
        let ghost out0 = out@;
        let (k, v) = entry;
        match v {
            DomainValue::Boolean(b) => {
                out.push((k, b));
                assert(out@.drop_last() =~= out0);
                assert(out@.map_values(|p: (String, bool)| (p.0@, p.1)) =~= out0.map_values(
                    |p: (String, bool)| (p.0@, p.1),
                ).push((k@, b)));
            },
            _ => {
                proof {
                    lemma_bool_prefix_err(vals, idx + 1, k@);
                }
                return Err(k);
            },
        }
    }
    assert(vals.take(vals.len() as int) =~= vals);
    Ok(out)
}

fn string_entries(values: Vec<(String, DomainValue)>) -> (r: Result<Vec<(String, String)>, String>)
    ensures
        spec_string_entries(values@) == match r {
            Ok(v) => Ok::<Seq<(Seq<char>, Seq<char>)>, Seq<char>>(
                v@.map_values(|p: (String, String)| (p.0@, p.1@)),
            ),
            Err(k) => Err(k@),
        },
{
    let ghost vals = values@;
    let mut out: Vec<(String, String)> = Vec::new();
    assert(vals.take(0) =~= Seq::<(String, DomainValue)>::empty());
    assert(out@.map_values(|p: (String, String)| (p.0@, p.1@)) =~= Seq::<(Seq<char>, Seq<char>)>::empty());
    for entry in it: values.into_iter()
        invariant
            it.seq() == vals,
            spec_string_entries(vals.take(it.index() as int)) == Ok::<
                Seq<(Seq<char>, Seq<char>)>,
                Seq<char>,
            >(out@.map_values(|p: (String, String)| (p.0@, p.1@))),
    {
        let ghost idx = it.index();
        assert(vals.take(idx + 1).drop_last() =~= vals.take(idx as int));
        assert(vals.take(idx + 1).last() == entry);
        let ghost out0 = out@;
        let (k, v) = entry;
        match v {
            DomainValue::String(x) => {
                let ghost xv = x@;
                out.push((k, x));
                assert(out@.drop_last() =~= out0);
                assert(out@.map_values(|p: (String, String)| (p.0@, p.1@)) =~= out0.map_values(
                    |p: (String, String)| (p.0@, p.1@),
                ).push((k@, xv)));
            },
            _ => {
                proof {
                    lemma_string_prefix_err(vals, idx + 1, k@);
                }
                return Err(k);
            },
        }
    }
    assert(vals.take(vals.len() as int) =~= vals);
    Ok(out)
}

/// The values of a string-keyed map whose values are strings.
pub open spec fn string_map_view(m: Seq<(Seq<char>, String)>) -> Seq<(Seq<char>, Seq<char>)> {
    crate::strmap::view_entries(m)
}

fn take_optional_bool_map(file: &str, prefix: &str, key: &str, fields: &mut StrMap<DomainValue>) -> (r:
    Result<StrMap<bool>, String>)
    ensures
        final(fields)@ == spec_remove(old(fields)@, key@),
        old(fields).wf() ==> final(fields).wf(),
        r matches Ok(m) ==> m.wf(),
        spec_opt_bool_map(file@, field_path(prefix@, key@), spec_get(old(fields)@, key@)) == match r {
            Ok(m) => Ok::<Seq<(Seq<char>, bool)>, Seq<char>>(m@),
            Err(e) => Err(e@),
        },
{
    match take_field(fields, key) {
        Some(DomainValue::Table(values)) => match bool_entries(values) {
            Ok(v) => Ok(StrMap::from_pairs(v)),
            Err(k) => {
                let path = join_path(prefix, key);
                let item = join_path(path.as_str(), k.as_str());
                Err(must_be(file, item.as_str(), "a boolean"))
            },
        },
        Some(_) => {
            let path = join_path(prefix, key);
            Err(must_be(file, path.as_str(), "a table"))
        },
        None => Ok(StrMap::new()),
    }
}

fn string_pairs_to_map(v: Vec<(String, String)>) -> (m: StrMap<String>)
    ensures
        m.wf(),
        string_map_view(m@) == spec_from_pairs(v@.map_values(|p: (String, String)| (p.0@, p.1@))),
{
    let ghost p = v@.map_values(|p: (String, String)| (p.0@, p.1));
    let m = StrMap::from_pairs(v);
    proof {
        crate::strmap::lemma_from_pairs_view_entries(p);
        assert(crate::strmap::view_entries(p) =~= v@.map_values(|p: (String, String)| (p.0@, p.1@)));
    }
    m
}

fn take_optional_string_map(file: &str, prefix: &str, key: &str, fields: &mut StrMap<DomainValue>) -> (r:
    Result<StrMap<String>, String>)
    ensures
        final(fields)@ == spec_remove(old(fields)@, key@),
        old(fields).wf() ==> final(fields).wf(),
        r matches Ok(m) ==> m.wf(),
        spec_opt_string_map(file@, field_path(prefix@, key@), spec_get(old(fields)@, key@)) == match r {
            Ok(m) => Ok::<Seq<(Seq<char>, Seq<char>)>, Seq<char>>(string_map_view(m@)),
            Err(e) => Err(e@),
        },
{
    match take_field(fields, key) {
        Some(DomainValue::Table(values)) => match string_entries(values) {
            Ok(v) => Ok(string_pairs_to_map(v)),
            Err(k) => {
                let path = join_path(prefix, key);
                let item = join_path(path.as_str(), k.as_str());
                Err(must_be(file, item.as_str(), "a string"))
            },
        },
        Some(_) => {
            let path = join_path(prefix, key);
            Err(must_be(file, path.as_str(), "a table"))
        },
        None => {
            let m = StrMap::new();
            assert(string_map_view(m@) =~= Seq::<(Seq<char>, Seq<char>)>::empty());
            Ok(m)
        },
    }
}

} // verus!

verus! {

pub proof fn lemma_remove_get_other<V>(e: Seq<(Seq<char>, V)>, k1: Seq<char>, k2: Seq<char>)
    requires
        k1 != k2,
    ensures
        spec_get(spec_remove(e, k1), k2) == spec_get(e, k2),
    decreases e.len(),
{
    if e.len() > 0 {
        if e[0].0 == k1 {
        } else {
            lemma_remove_get_other(e.drop_first(), k1, k2);
            let r = seq![e[0]] + spec_remove(e.drop_first(), k1);
            assert(spec_remove(e, k1) == r);
            assert(r.drop_first() =~= spec_remove(e.drop_first(), k1));
            assert(spec_get(r, k2) == if r[0].0 == k2 {
                Some(r[0].1)
            } else {
                spec_get(r.drop_first(), k2)
            });
        }
    }
}

pub struct SystemView {
    pub hostname: Seq<char>,
    pub timezone: Option<Seq<char>>,
    pub locale: Option<Seq<char>>,
    pub keymap: Option<Seq<char>>,
}

#[derive(Debug, Clone)]
pub struct SystemConfig {
    pub hostname: String,
    pub timezone: Option<String>,
    pub locale: Option<String>,
    pub keymap: Option<String>,
}

impl View for SystemConfig {
    type V = SystemView;

    open spec fn view(&self) -> SystemView {
        SystemView {
            hostname: self.hostname@,
            timezone: opt_view(self.timezone),
            locale: opt_view(self.locale),
            keymap: opt_view(self.keymap),
        }
    }
}

pub open spec fn spec_system_from(v: DomainValue, file: Seq<char>) -> Result<SystemView, Seq<char>> {
    let d = "system"@;
    match spec_into_table(v, file, d) {
        Err(e) => Err(e),
        Ok(t) => match first_unknown(
            crate::strmap::keys_of(t),
            seq!["hostname"@, "timezone"@, "locale"@, "keymap"@],
        ) {
            Some(k) => Err(msg_unknown_field(file, d, k)),
            None => match spec_req_string(file, field_path(d, "hostname"@), spec_get(t, "hostname"@)) {
                Err(e) => Err(e),
                Ok(hostname) => match spec_opt_string(
                    file,
                    field_path(d, "timezone"@),
                    spec_get(t, "timezone"@),
                ) {
                    Err(e) => Err(e),
                    Ok(timezone) => match spec_opt_string(
                        file,
                        field_path(d, "locale"@),
                        spec_get(t, "locale"@),
                    ) {
                        Err(e) => Err(e),
                        Ok(locale) => match spec_opt_string(
                            file,
                            field_path(d, "keymap"@),
                            spec_get(t, "keymap"@),
                        ) {
                            Err(e) => Err(e),
                            Ok(keymap) => Ok(SystemView { hostname, timezone, locale, keymap }),
                        },
                    },
                },
            },
        },
    }
}

pub open spec fn result_view<T: View>(r: Result<T, String>) -> Result<T::V, Seq<char>> {
    match r {
        Ok(t) => Ok(t@),
        Err(e) => Err(e@),
    }
}

impl SystemConfig {
    fn from_value(value: DomainValue, file: &str) -> (r: Result<Self, String>)
        ensures
            result_view(r) == spec_system_from(value, file@),
    {
        proof {
            reveal_strlit("hostname");
            reveal_strlit("timezone");
            reveal_strlit("locale");
            reveal_strlit("keymap");
            assert("hostname"@[0] != "timezone"@[0]);
            assert("locale"@[0] != "keymap"@[0]);
        }
        let mut fields = value.into_table(file, "system")?;
        let ghost t = fields@;
        let allowed: [&str; 4] = ["hostname", "timezone", "locale", "keymap"];
        assert(strs_view(allowed@) =~= seq!["hostname"@, "timezone"@, "locale"@, "keymap"@]);
        reject_unknown_fields(file, "system", &fields, &allowed)?;
        let hostname = take_required_string(file, "system", "hostname", &mut fields)?;
        proof {
            lemma_remove_get_other(t, "hostname"@, "timezone"@);
            lemma_remove_get_other(t, "hostname"@, "locale"@);
            lemma_remove_get_other(t, "hostname"@, "keymap"@);
        }
        let ghost t1 = fields@;
        let timezone = take_optional_string(file, "system", "timezone", &mut fields)?;
        proof {
            lemma_remove_get_other(t1, "timezone"@, "locale"@);
            lemma_remove_get_other(t1, "timezone"@, "keymap"@);
        }
        let ghost t2 = fields@;
        let locale = take_optional_string(file, "system", "locale", &mut fields)?;
        proof {
            lemma_remove_get_other(t2, "locale"@, "keymap"@);
        }
        let keymap = take_optional_string(file, "system", "keymap", &mut fields)?;
        Ok(SystemConfig { hostname, timezone, locale, keymap })
    }
}

} // verus!

verus! {

/// Each item of a list turned into a `T` by `f` (given its position), or the first error.
pub open spec fn spec_items<T>(
    vals: Seq<DomainValue>,
    f: spec_fn(nat, DomainValue) -> Result<T, Seq<char>>,
) -> Result<Seq<T>, Seq<char>>
    decreases vals.len(),
{
    if vals.len() == 0 {
        Ok(seq![])
    } else {
        match spec_items(vals.drop_last(), f) {
            Err(e) => Err(e),
            Ok(s) => match f((vals.len() - 1) as nat, vals.last()) {
                Err(e) => Err(e),
                Ok(x) => Ok(s.push(x)),
            },
        }
    }
}

pub proof fn lemma_items_prefix_err<T>(
    vals: Seq<DomainValue>,
    f: spec_fn(nat, DomainValue) -> Result<T, Seq<char>>,
    n: int,
    e: Seq<char>,
)
    requires
        0 <= n <= vals.len(),
        spec_items(vals.take(n), f) == Err::<Seq<T>, Seq<char>>(e),
    ensures
        spec_items(vals, f) == Err::<Seq<T>, Seq<char>>(e),
    decreases vals.len() - n,
{
    if n < vals.len() {
        assert(vals.take(n + 1).drop_last() =~= vals.take(n));
        lemma_items_prefix_err(vals, f, n + 1, e);
    } else {
        assert(vals.take(n) =~= vals);
    }
}

pub open spec fn views_of<T: View>(v: Seq<T>) -> Seq<T::V> {
    v.map_values(|x: T| x@)
}

pub open spec fn result_seq_view<T: View>(r: Result<Vec<T>, String>) -> Result<Seq<T::V>, Seq<char>> {
    match r {
        Ok(v) => Ok(views_of(v@)),
        Err(e) => Err(e@),
    }
}

pub struct PackagesView {
    pub pacman: Seq<Seq<char>>,
    pub aur: Seq<Seq<char>>,
    pub nix: Seq<Seq<char>>,
}

#[derive(Debug, Clone)]
pub struct PackagesConfig {
    pub pacman: Vec<String>,
    pub aur: Vec<String>,
    pub nix: Vec<String>,
}

impl View for PackagesConfig {
    type V = PackagesView;

    open spec fn view(&self) -> PackagesView {
        PackagesView {
            pacman: strings_view(self.pacman@),
            aur: strings_view(self.aur@),
            nix: strings_view(self.nix@),
        }
    }
}

pub open spec fn spec_packages_from(v: DomainValue, file: Seq<char>) -> Result<PackagesView, Seq<char>> {
    let d = "packages"@;
    match spec_into_table(v, file, d) {
        Err(e) => Err(e),
        Ok(t) => match first_unknown(crate::strmap::keys_of(t), seq!["pacman"@, "aur"@, "nix"@]) {
            Some(k) => Err(msg_unknown_field(file, d, k)),
            None => match spec_opt_list(file, field_path(d, "pacman"@), spec_get(t, "pacman"@)) {
                Err(e) => Err(e),
                Ok(pacman) => match spec_opt_list(file, field_path(d, "aur"@), spec_get(t, "aur"@)) {
                    Err(e) => Err(e),
                    Ok(aur) => match spec_opt_list(file, field_path(d, "nix"@), spec_get(t, "nix"@)) {
                        Err(e) => Err(e),
                        Ok(nix) => Ok(PackagesView { pacman, aur, nix }),
                    },
                },
            },
        },
    }
}

impl PackagesConfig {
    pub fn empty() -> (p: Self)
        ensures
            p@.pacman.len() == 0,
            p@.aur.len() == 0,
            p@.nix.len() == 0,
    {
        PackagesConfig { pacman: Vec::new(), aur: Vec::new(), nix: Vec::new() }
    }

    fn from_value(value: DomainValue, file: &str) -> (r: Result<Self, String>)
        ensures
            result_view(r) == spec_packages_from(value, file@),
    {
        proof {
            reveal_strlit("pacman");
            reveal_strlit("aur");
            reveal_strlit("nix");
            assert("aur"@[0] != "nix"@[0]);
        }
        let mut fields = value.into_table(file, "packages")?;
        let ghost t = fields@;
        let allowed: [&str; 3] = ["pacman", "aur", "nix"];
        assert(strs_view(allowed@) =~= seq!["pacman"@, "aur"@, "nix"@]);
        reject_unknown_fields(file, "packages", &fields, &allowed)?;
        let pacman = take_optional_list(file, "packages", "pacman", &mut fields)?;
        proof {
            lemma_remove_get_other(t, "pacman"@, "aur"@);
            lemma_remove_get_other(t, "pacman"@, "nix"@);
        }
        let ghost t1 = fields@;
        let aur = take_optional_list(file, "packages", "aur", &mut fields)?;
        proof {
            lemma_remove_get_other(t1, "aur"@, "nix"@);
        }
        let nix = take_optional_list(file, "packages", "nix", &mut fields)?;
        Ok(PackagesConfig { pacman, aur, nix })
    }
}

pub struct ServicesView {
    pub enable: Seq<Seq<char>>,
    pub disable: Seq<Seq<char>>,
}

#[derive(Debug, Clone)]
pub struct ServicesConfig {
    pub enable: Vec<String>,
    pub disable: Vec<String>,
}

impl View for ServicesConfig {
    type V = ServicesView;

    open spec fn view(&self) -> ServicesView {
        ServicesView { enable: strings_view(self.enable@), disable: strings_view(self.disable@) }
    }
}

pub open spec fn spec_services_from(v: DomainValue, file: Seq<char>) -> Result<ServicesView, Seq<char>> {
    let d = "services"@;
    match spec_into_table(v, file, d) {
        Err(e) => Err(e),
        Ok(t) => match first_unknown(crate::strmap::keys_of(t), seq!["enable"@, "disable"@]) {
            Some(k) => Err(msg_unknown_field(file, d, k)),
            None => match spec_opt_list(file, field_path(d, "enable"@), spec_get(t, "enable"@)) {
                Err(e) => Err(e),
                Ok(enable) => match spec_opt_list(
                    file,
                    field_path(d, "disable"@),
                    spec_get(t, "disable"@),
                ) {
                    Err(e) => Err(e),
                    Ok(disable) => Ok(ServicesView { enable, disable }),
                },
            },
        },
    }
}

impl ServicesConfig {
    pub fn empty() -> (s: Self)
        ensures
            s@.enable.len() == 0,
            s@.disable.len() == 0,
    {
        ServicesConfig { enable: Vec::new(), disable: Vec::new() }
    }

    fn from_value(value: DomainValue, file: &str) -> (r: Result<Self, String>)
        ensures
            result_view(r) == spec_services_from(value, file@),
    {
        proof {
            reveal_strlit("enable");
            reveal_strlit("disable");
        }
        let mut fields = value.into_table(file, "services")?;
        let ghost t = fields@;
        let allowed: [&str; 2] = ["enable", "disable"];
        assert(strs_view(allowed@) =~= seq!["enable"@, "disable"@]);
        reject_unknown_fields(file, "services", &fields, &allowed)?;
        let enable = take_optional_list(file, "services", "enable", &mut fields)?;
        proof {
            lemma_remove_get_other(t, "enable"@, "disable"@);
        }
        let disable = take_optional_list(file, "services", "disable", &mut fields)?;
        Ok(ServicesConfig { enable, disable })
    }
}

pub struct ManagedFileView {
    pub path: Seq<char>,
    pub content: Seq<char>,
    pub mode: Option<Seq<char>>,
}

#[derive(Debug, Clone)]
pub struct ManagedFileConfig {
    pub path: String,
    pub content: String,
    pub mode: Option<String>,
}

impl View for ManagedFileConfig {
    type V = ManagedFileView;

    open spec fn view(&self) -> ManagedFileView {
        ManagedFileView { path: self.path@, content: self.content@, mode: opt_view(self.mode) }
    }
}

pub open spec fn spec_managed_file_from(
    file: Seq<char>,
    path: Seq<char>,
    index: nat,
    v: DomainValue,
) -> Result<ManagedFileView, Seq<char>> {
    let p = item_path(path, index);
    match spec_into_table(v, file, p) {
        Err(e) => Err(e),
        Ok(t) => match first_unknown(
            crate::strmap::keys_of(t),
            seq!["path"@, "content"@, "mode"@],
        ) {
            Some(k) => Err(msg_unknown_field(file, p, k)),
            None => match spec_req_string(file, field_path(p, "path"@), spec_get(t, "path"@)) {
                Err(e) => Err(e),
                Ok(fpath) => match spec_req_string(
                    file,
                    field_path(p, "content"@),
                    spec_get(t, "content"@),
                ) {
                    Err(e) => Err(e),
                    Ok(content) => match spec_opt_string(
                        file,
                        field_path(p, "mode"@),
                        spec_get(t, "mode"@),
                    ) {
                        Err(e) => Err(e),
                        Ok(mode) => Ok(ManagedFileView { path: fpath, content, mode }),
                    },
                },
            },
        },
    }
}

fn managed_file_from_value(file: &str, path: &str, index: usize, value: DomainValue) -> (r: Result<
    ManagedFileConfig,
    String,
>)
    requires
        index < usize::MAX,
    ensures
        result_view(r) == spec_managed_file_from(file@, path@, index as nat, value),
{
    proof {
        reveal_strlit("path");
        reveal_strlit("content");
        reveal_strlit("mode");
        assert("path"@[0] != "mode"@[0]);
    }
    let item = indexed_path(path, index);
    let mut fields = value.into_table(file, item.as_str())?;
    let ghost t = fields@;
    let allowed: [&str; 3] = ["path", "content", "mode"];
    assert(strs_view(allowed@) =~= seq!["path"@, "content"@, "mode"@]);
    reject_unknown_fields(file, item.as_str(), &fields, &allowed)?;
    let fpath = take_required_string(file, item.as_str(), "path", &mut fields)?;
    proof {
        lemma_remove_get_other(t, "path"@, "content"@);
        lemma_remove_get_other(t, "path"@, "mode"@);
    }
    let ghost t1 = fields@;
    let content = take_required_string(file, item.as_str(), "content", &mut fields)?;
    proof {
        lemma_remove_get_other(t1, "content"@, "mode"@);
    }
    let mode = take_optional_string(file, item.as_str(), "mode", &mut fields)?;
    Ok(ManagedFileConfig { path: fpath, content, mode })
}

pub open spec fn spec_opt_managed_files(file: Seq<char>, path: Seq<char>, v: Option<DomainValue>) -> Result<
    Seq<ManagedFileView>,
    Seq<char>,
> {
    match v {
        None => Ok(seq![]),
        Some(DomainValue::List(values)) => spec_items(
            values@,
            |i: nat, x: DomainValue| spec_managed_file_from(file, path, i, x),
        ),
        Some(_) => Err(msg_must_be(file, path, "a list of file tables"@)),
    }
}

fn managed_files_from_list(file: &str, path: &str, values: Vec<DomainValue>) -> (r: Result<
    Vec<ManagedFileConfig>,
    String,
>)
    ensures
        result_seq_view(r) == spec_items(
            values@,
            |i: nat, x: DomainValue| spec_managed_file_from(file@, path@, i, x),
        ),
{
    let ghost vals = values@;
    let ghost f = |i: nat, x: DomainValue| spec_managed_file_from(file@, path@, i, x);
    let mut out: Vec<ManagedFileConfig> = Vec::new();
    let mut index: usize = 0;
    let total = values.len();
    assert(vals.take(0) =~= Seq::<DomainValue>::empty());
    assert(views_of(out@) =~= Seq::<ManagedFileView>::empty());
    for value in it: values.into_iter()
        invariant
            it.seq() == vals,
            index == it.index(),
            index <= vals.len(),
            vals.len() <= usize::MAX,
            f == (|i: nat, x: DomainValue| spec_managed_file_from(file@, path@, i, x)),
            spec_items(vals.take(index as int), f) == Ok::<Seq<ManagedFileView>, Seq<char>>(
                views_of(out@),
            ),
    {
        assert(vals.take(index + 1).drop_last() =~= vals.take(index as int));
        assert(vals.take(index + 1).last() == value);
        let ghost vv = value;
        let res = managed_file_from_value(file, path, index, value);
        assert(result_view(res) == spec_managed_file_from(file@, path@, index as nat, vv));
        assert(f(index as nat, vv) == spec_managed_file_from(file@, path@, index as nat, vv));
        match res {
            Ok(m) => {
                let ghost out0 = out@;
                out.push(m);
                assert(views_of(out@) =~= views_of(out0).push(out@.last()@));
            },
            Err(e) => {
                proof {
                    assert(f(index as nat, vv) == Err::<ManagedFileView, Seq<char>>(e@));
                    assert(spec_items(vals.take(index + 1), f) == Err::<Seq<ManagedFileView>, Seq<char>>(e@));
                    lemma_items_prefix_err(vals, f, index + 1, e@);
                }
                return Err(e);
            },
        }
        index += 1;
    }
    assert(vals.take(vals.len() as int) =~= vals);
    Ok(out)
}

fn take_optional_managed_files(
    file: &str,
    prefix: &str,
    key: &str,
    fields: &mut StrMap<DomainValue>,
) -> (r: Result<Vec<ManagedFileConfig>, String>)
    ensures
        final(fields)@ == spec_remove(old(fields)@, key@),
        old(fields).wf() ==> final(fields).wf(),
        result_seq_view(r) == spec_opt_managed_files(
            file@,
            field_path(prefix@, key@),
            spec_get(old(fields)@, key@),
        ),
{
    let path = join_path(prefix, key);
    match take_field(fields, key) {
        Some(DomainValue::List(values)) => managed_files_from_list(file, path.as_str(), values),
        Some(_) => Err(must_be(file, path.as_str(), "a list of file tables")),
        None => {
            let v: Vec<ManagedFileConfig> = Vec::new();
            assert(views_of(v@) =~= Seq::<ManagedFileView>::empty());
            Ok(v)
        },
    }
}

pub struct FilesView {
    pub managed: Seq<ManagedFileView>,
}

#[derive(Debug, Clone)]
pub struct FilesConfig {
    pub managed: Vec<ManagedFileConfig>,
}

impl View for FilesConfig {
    type V = FilesView;

    open spec fn view(&self) -> FilesView {
        FilesView { managed: views_of(self.managed@) }
    }
}

pub open spec fn spec_files_from(v: DomainValue, file: Seq<char>) -> Result<FilesView, Seq<char>> {
    let d = "files"@;
    match spec_into_table(v, file, d) {
        Err(e) => Err(e),
        Ok(t) => match first_unknown(crate::strmap::keys_of(t), seq!["managed"@]) {
            Some(k) => Err(msg_unknown_field(file, d, k)),
            None => match spec_opt_managed_files(
                file,
                field_path(d, "managed"@),
                spec_get(t, "managed"@),
            ) {
                Err(e) => Err(e),
                Ok(managed) => Ok(FilesView { managed }),
            },
        },
    }
}

impl FilesConfig {
    fn from_value(value: DomainValue, file: &str) -> (r: Result<Self, String>)
        ensures
            result_view(r) == spec_files_from(value, file@),
    {
        let mut fields = value.into_table(file, "files")?;
        let allowed: [&str; 1] = ["managed"];
        assert(strs_view(allowed@) =~= seq!["managed"@]);
        reject_unknown_fields(file, "files", &fields, &allowed)?;
        let managed = take_optional_managed_files(file, "files", "managed", &mut fields)?;
        Ok(FilesConfig { managed })
    }
}

} // verus!

verus! {

pub struct SubvolumeView {
    pub name: Seq<char>,
    pub mountpoint: Seq<char>,
    pub mount_options: Seq<Seq<char>>,
}

#[derive(Debug, Clone)]
pub struct StorageSubvolumeConfig {
    pub name: String,
    pub mountpoint: String,
    pub mount_options: Vec<String>,
}

impl View for StorageSubvolumeConfig {
    type V = SubvolumeView;

    open spec fn view(&self) -> SubvolumeView {
        SubvolumeView {
            name: self.name@,
            mountpoint: self.mountpoint@,
            mount_options: strings_view(self.mount_options@),
        }
    }
}

pub open spec fn spec_subvolume_from(file: Seq<char>, path: Seq<char>, index: nat, v: DomainValue) -> Result<
    SubvolumeView,
    Seq<char>,
> {
    let p = item_path(path, index);
    match spec_into_table(v, file, p) {
        Err(e) => Err(e),
        Ok(t) => match first_unknown(
            crate::strmap::keys_of(t),
            seq!["name"@, "mountpoint"@, "mount_options"@],
        ) {
            Some(k) => Err(msg_unknown_field(file, p, k)),
            None => match spec_req_string(file, field_path(p, "name"@), spec_get(t, "name"@)) {
                Err(e) => Err(e),
                Ok(name) => match spec_req_string(
                    file,
                    field_path(p, "mountpoint"@),
                    spec_get(t, "mountpoint"@),
                ) {
                    Err(e) => Err(e),
                    Ok(mountpoint) => match spec_opt_list(
                        file,
                        field_path(p, "mount_options"@),
                        spec_get(t, "mount_options"@),
                    ) {
                        Err(e) => Err(e),
                        Ok(mount_options) => Ok(SubvolumeView { name, mountpoint, mount_options }),
                    },
                },
            },
        },
    }
}

impl StorageSubvolumeConfig {
    fn from_value(value: DomainValue, file: &str, path: &str, index: usize) -> (r: Result<Self, String>)
        requires
            index < usize::MAX,
        ensures
            result_view(r) == spec_subvolume_from(file@, path@, index as nat, value),
    {
        proof {
            reveal_strlit("name");
            reveal_strlit("mountpoint");
            reveal_strlit("mount_options");
        }
        let item = indexed_path(path, index);
        let mut fields = value.into_table(file, item.as_str())?;
        let ghost t = fields@;
        let allowed: [&str; 3] = ["name", "mountpoint", "mount_options"];
        assert(strs_view(allowed@) =~= seq!["name"@, "mountpoint"@, "mount_options"@]);
        reject_unknown_fields(file, item.as_str(), &fields, &allowed)?;
        let name = take_required_string(file, item.as_str(), "name", &mut fields)?;
        proof {
            lemma_remove_get_other(t, "name"@, "mountpoint"@);
            lemma_remove_get_other(t, "name"@, "mount_options"@);
        }
        let ghost t1 = fields@;
        let mountpoint = take_required_string(file, item.as_str(), "mountpoint", &mut fields)?;
        proof {
            lemma_remove_get_other(t1, "mountpoint"@, "mount_options"@);
        }
        let mount_options = take_optional_list(file, item.as_str(), "mount_options", &mut fields)?;
        Ok(StorageSubvolumeConfig { name, mountpoint, mount_options })
    }
}

pub open spec fn spec_opt_subvolumes(file: Seq<char>, path: Seq<char>, v: Option<DomainValue>) -> Result<
    Seq<SubvolumeView>,
    Seq<char>,
> {
    match v {
        None => Ok(seq![]),
        Some(DomainValue::List(values)) => spec_items(
            values@,
            |i: nat, x: DomainValue| spec_subvolume_from(file, path, i, x),
        ),
        Some(_) => Err(msg_must_be(file, path, "a list of Btrfs subvolume tables"@)),
    }
}

fn subvolumes_from_list(file: &str, path: &str, values: Vec<DomainValue>) -> (r: Result<
    Vec<StorageSubvolumeConfig>,
    String,
>)
    ensures
        result_seq_view(r) == spec_items(
            values@,
            |i: nat, x: DomainValue| spec_subvolume_from(file@, path@, i, x),
        ),
{
    let ghost vals = values@;
    let ghost f = |i: nat, x: DomainValue| spec_subvolume_from(file@, path@, i, x);
    let mut out: Vec<StorageSubvolumeConfig> = Vec::new();
    let mut index: usize = 0;
    let total = values.len();
    assert(vals.take(0) =~= Seq::<DomainValue>::empty());
    assert(views_of(out@) =~= Seq::<SubvolumeView>::empty());
    for value in it: values.into_iter()
        invariant
            it.seq() == vals,
            index == it.index(),
            index <= vals.len(),
            vals.len() <= usize::MAX,
            f == (|i: nat, x: DomainValue| spec_subvolume_from(file@, path@, i, x)),
            spec_items(vals.take(index as int), f) == Ok::<Seq<SubvolumeView>, Seq<char>>(
                views_of(out@),
            ),
    {
        assert(vals.take(index + 1).drop_last() =~= vals.take(index as int));
        assert(vals.take(index + 1).last() == value);
        let ghost vv = value;
        let res = StorageSubvolumeConfig::from_value(value, file, path, index);
        match res {
            Ok(m) => {
                let ghost out0 = out@;
                out.push(m);
                assert(views_of(out@) =~= views_of(out0).push(out@.last()@));
            },
            Err(e) => {
                proof {
                    assert(f(index as nat, vv) == Err::<SubvolumeView, Seq<char>>(e@));
                    lemma_items_prefix_err(vals, f, index + 1, e@);
                }
                return Err(e);
            },
        }
        index += 1;
    }
    assert(vals.take(vals.len() as int) =~= vals);
    Ok(out)
}

fn take_optional_storage_subvolumes(
    file: &str,
    prefix: &str,
    key: &str,
    fields: &mut StrMap<DomainValue>,
) -> (r: Result<Vec<StorageSubvolumeConfig>, String>)
    ensures
        final(fields)@ == spec_remove(old(fields)@, key@),
        old(fields).wf() ==> final(fields).wf(),
        result_seq_view(r) == spec_opt_subvolumes(
            file@,
            field_path(prefix@, key@),
            spec_get(old(fields)@, key@),
        ),
{
    let path = join_path(prefix, key);
    match take_field(fields, key) {
        Some(DomainValue::List(values)) => subvolumes_from_list(file, path.as_str(), values),
        Some(_) => Err(must_be(file, path.as_str(), "a list of Btrfs subvolume tables")),
        None => {
            let v: Vec<StorageSubvolumeConfig> = Vec::new();
            assert(views_of(v@) =~= Seq::<SubvolumeView>::empty());
            Ok(v)
        },
    }
}

pub struct PartitionView {
    pub disk: Seq<char>,
    pub number: Option<Seq<char>>,
    pub label: Option<Seq<char>>,
    pub mountpoint: Option<Seq<char>>,
    pub filesystem: Seq<char>,
    pub size: Option<Seq<char>>,
    pub flags: Seq<Seq<char>>,
    pub format: bool,
    pub mount_options: Seq<Seq<char>>,
    pub subvolumes: Seq<SubvolumeView>,
}

#[derive(Debug, Clone)]
pub struct StoragePartitionConfig {
    pub disk: String,
    pub number: Option<String>,
    pub label: Option<String>,
    pub mountpoint: Option<String>,
    pub filesystem: String,
    pub size: Option<String>,
    pub flags: Vec<String>,
    pub format: bool,
    pub mount_options: Vec<String>,
    pub subvolumes: Vec<StorageSubvolumeConfig>,
}

impl View for StoragePartitionConfig {
    type V = PartitionView;

    open spec fn view(&self) -> PartitionView {
        PartitionView {
            disk: self.disk@,
            number: opt_view(self.number),
            label: opt_view(self.label),
            mountpoint: opt_view(self.mountpoint),
            filesystem: self.filesystem@,
            size: opt_view(self.size),
            flags: strings_view(self.flags@),
            format: self.format,
            mount_options: strings_view(self.mount_options@),
            subvolumes: views_of(self.subvolumes@),
        }
    }
}

pub open spec fn partition_keys() -> Seq<Seq<char>> {
    seq![
        "disk"@,
        "number"@,
        "label"@,
        "mountpoint"@,
        "filesystem"@,
        "size"@,
        "flags"@,
        "format"@,
        "mount_options"@,
        "subvolumes"@,
    ]
}

pub open spec fn spec_partition_fields(file: Seq<char>, p: Seq<char>, t: Seq<(Seq<char>, DomainValue)>) -> Result<
    PartitionView,
    Seq<char>,
> {
    match spec_req_string(file, field_path(p, "disk"@), spec_get(t, "disk"@)) {
        Err(e) => Err(e),
        Ok(disk) => match spec_opt_string_or_integer(
            file,
            field_path(p, "number"@),
            spec_get(t, "number"@),
        ) {
            Err(e) => Err(e),
            Ok(number) => match spec_opt_string(file, field_path(p, "label"@), spec_get(t, "label"@)) {
                Err(e) => Err(e),
                Ok(label) => match spec_opt_string(
                    file,
                    field_path(p, "mountpoint"@),
                    spec_get(t, "mountpoint"@),
                ) {
                    Err(e) => Err(e),
                    Ok(mountpoint) => match spec_req_string(
                        file,
                        field_path(p, "filesystem"@),
                        spec_get(t, "filesystem"@),
                    ) {
                        Err(e) => Err(e),
                        Ok(filesystem) => match spec_opt_string(
                            file,
                            field_path(p, "size"@),
                            spec_get(t, "size"@),
                        ) {
                            Err(e) => Err(e),
                            Ok(size) => match spec_opt_list(
                                file,
                                field_path(p, "flags"@),
                                spec_get(t, "flags"@),
                            ) {
                                Err(e) => Err(e),
                                Ok(flags) => match spec_opt_bool(
                                    file,
                                    field_path(p, "format"@),
                                    spec_get(t, "format"@),
                                ) {
                                    Err(e) => Err(e),
                                    Ok(format) => match spec_opt_list(
                                        file,
                                        field_path(p, "mount_options"@),
                                        spec_get(t, "mount_options"@),
                                    ) {
                                        Err(e) => Err(e),
                                        Ok(mount_options) => match spec_opt_subvolumes(
                                            file,
                                            field_path(p, "subvolumes"@),
                                            spec_get(t, "subvolumes"@),
                                        ) {
                                            Err(e) => Err(e),
                                            Ok(subvolumes) => Ok(
                                                PartitionView {
                                                    disk,
                                                    number,
                                                    label,
                                                    mountpoint,
                                                    filesystem,
                                                    size,
                                                    flags,
                                                    format: match format {
                                                        Some(b) => b,
                                                        None => true,
                                                    },
                                                    mount_options,
                                                    subvolumes,
                                                },
                                            ),
                                        },
                                    },
                                },
                            },
                        },
                    },
                },
            },
        },
    }
}

pub open spec fn spec_partition_from(file: Seq<char>, path: Seq<char>, index: nat, v: DomainValue) -> Result<
    PartitionView,
    Seq<char>,
> {
    let p = item_path(path, index);
    match spec_into_table(v, file, p) {
        Err(e) => Err(e),
        Ok(t) => match first_unknown(crate::strmap::keys_of(t), partition_keys()) {
            Some(k) => Err(msg_unknown_field(file, p, k)),
            None => spec_partition_fields(file, p, t),
        },
    }
}

proof fn lemma_partition_keys_distinct()
    ensures
        forall|i: int, j: int|
            0 <= i < j < partition_keys().len() ==> #[trigger] partition_keys()[i]
                != #[trigger] partition_keys()[j],
{
    reveal_strlit("disk");
    reveal_strlit("number");
    reveal_strlit("label");
    reveal_strlit("mountpoint");
    reveal_strlit("filesystem");
    reveal_strlit("size");
    reveal_strlit("flags");
    reveal_strlit("format");
    reveal_strlit("mount_options");
    reveal_strlit("subvolumes");
    assert("disk"@[0] != "size"@[0]);
    assert("number"@[0] != "format"@[0]);
    assert("label"@[0] != "flags"@[0]);
    assert("mountpoint"@[0] != "filesystem"@[0]);
    assert("mountpoint"@[0] != "subvolumes"@[0]);
    assert("filesystem"@[0] != "subvolumes"@[0]);
    let k = partition_keys();
    assert forall|i: int, j: int| 0 <= i < j < k.len() implies #[trigger] k[i] != #[trigger] k[j] by {
        assert(k[i].len() != k[j].len() || k[i][0] != k[j][0]);
    }
}

/// Removing a key that the later keys of a list all differ from leaves their values.
proof fn lemma_remove_keeps_later<V>(t: Seq<(Seq<char>, V)>, keys: Seq<Seq<char>>, i: int)
    requires
        0 <= i < keys.len(),
        forall|a: int, b: int| 0 <= a < b < keys.len() ==> #[trigger] keys[a] != #[trigger] keys[b],
    ensures
        forall|j: int|
            i < j < keys.len() ==> spec_get(spec_remove(t, keys[i]), #[trigger] keys[j]) == spec_get(
                t,
                keys[j],
            ),
{
    assert forall|j: int| i < j < keys.len() implies spec_get(
        spec_remove(t, keys[i]),
        #[trigger] keys[j],
    ) == spec_get(t, keys[j]) by {
        lemma_remove_get_other(t, keys[i], keys[j]);
    }
}

impl StoragePartitionConfig {
    fn from_value(value: DomainValue, file: &str, path: &str, index: usize) -> (r: Result<Self, String>)
        requires
            index < usize::MAX,
        ensures
            result_view(r) == spec_partition_from(file@, path@, index as nat, value),
    {
        let ghost keys = partition_keys();
        proof {
            lemma_partition_keys_distinct();
        }
        let item = indexed_path(path, index);
        let p = item.as_str();
        let mut fields = value.into_table(file, p)?;
        let ghost t = fields@;
        let allowed: [&str; 10] = [
            "disk",
            "number",
            "label",
            "mountpoint",
            "filesystem",
            "size",
            "flags",
            "format",
            "mount_options",
            "subvolumes",
        ];
        assert(strs_view(allowed@) =~= partition_keys());
        reject_unknown_fields(file, p, &fields, &allowed)?;
        let disk = take_required_string(file, p, "disk", &mut fields)?;
        proof { lemma_remove_keeps_later(t, keys, 0); }
        let ghost t1 = fields@;
        let number = take_optional_string_or_integer(file, p, "number", &mut fields)?;
        proof { lemma_remove_keeps_later(t1, keys, 1); }
        let ghost t2 = fields@;
        let label = take_optional_string(file, p, "label", &mut fields)?;
        proof { lemma_remove_keeps_later(t2, keys, 2); }
        let ghost t3 = fields@;
        let mountpoint = take_optional_string(file, p, "mountpoint", &mut fields)?;
        proof { lemma_remove_keeps_later(t3, keys, 3); }
        let ghost t4 = fields@;
        let filesystem = take_required_string(file, p, "filesystem", &mut fields)?;
        proof { lemma_remove_keeps_later(t4, keys, 4); }
        let ghost t5 = fields@;
        let size = take_optional_string(file, p, "size", &mut fields)?;
        proof { lemma_remove_keeps_later(t5, keys, 5); }
        let ghost t6 = fields@;
        let flags = take_optional_list(file, p, "flags", &mut fields)?;
        proof { lemma_remove_keeps_later(t6, keys, 6); }
        let ghost t7 = fields@;
        let format = take_optional_bool(file, p, "format", &mut fields)?;
        proof { lemma_remove_keeps_later(t7, keys, 7); }
        let ghost t8 = fields@;
        let mount_options = take_optional_list(file, p, "mount_options", &mut fields)?;
        proof { lemma_remove_keeps_later(t8, keys, 8); }
        let subvolumes = take_optional_storage_subvolumes(file, p, "subvolumes", &mut fields)?;
        let format = match format {
            Some(b) => b,
            None => true,
        };
        Ok(StoragePartitionConfig {
            disk,
            number,
            label,
            mountpoint,
            filesystem,
            size,
            flags,
            format,
            mount_options,
            subvolumes,
        })
    }
}

} // verus!

verus! {

pub open spec fn spec_opt_partitions(file: Seq<char>, path: Seq<char>, v: Option<DomainValue>) -> Result<
    Seq<PartitionView>,
    Seq<char>,
> {
    match v {
        None => Ok(seq![]),
        Some(DomainValue::List(values)) => spec_items(
            values@,
            |i: nat, x: DomainValue| spec_partition_from(file, path, i, x),
        ),
        Some(_) => Err(msg_must_be(file, path, "a list of partition tables"@)),
    }
}

fn partitions_from_list(file: &str, path: &str, values: Vec<DomainValue>) -> (r: Result<
    Vec<StoragePartitionConfig>,
    String,
>)
    ensures
        result_seq_view(r) == spec_items(
            values@,
            |i: nat, x: DomainValue| spec_partition_from(file@, path@, i, x),
        ),
{
    let ghost vals = values@;
    let ghost f = |i: nat, x: DomainValue| spec_partition_from(file@, path@, i, x);
    let mut out: Vec<StoragePartitionConfig> = Vec::new();
    let mut index: usize = 0;
    let total = values.len();
    assert(vals.take(0) =~= Seq::<DomainValue>::empty());
    assert(views_of(out@) =~= Seq::<PartitionView>::empty());
    for value in it: values.into_iter()
        invariant
            it.seq() == vals,
            index == it.index(),
            index <= vals.len(),
            vals.len() <= usize::MAX,
            f == (|i: nat, x: DomainValue| spec_partition_from(file@, path@, i, x)),
            spec_items(vals.take(index as int), f) == Ok::<Seq<PartitionView>, Seq<char>>(
                views_of(out@),
            ),
    {
        assert(vals.take(index + 1).drop_last() =~= vals.take(index as int));
        assert(vals.take(index + 1).last() == value);
        let ghost vv = value;
        let res = StoragePartitionConfig::from_value(value, file, path, index);
        match res {
            Ok(m) => {
                let ghost out0 = out@;
                out.push(m);
                assert(views_of(out@) =~= views_of(out0).push(out@.last()@));
            },
            Err(e) => {
                proof {
                    assert(f(index as nat, vv) == Err::<PartitionView, Seq<char>>(e@));
                    lemma_items_prefix_err(vals, f, index + 1, e@);
                }
                return Err(e);
            },
        }
        index += 1;
    }
    assert(vals.take(vals.len() as int) =~= vals);
    Ok(out)
}

fn take_optional_storage_partitions(
    file: &str,
    prefix: &str,
    key: &str,
    fields: &mut StrMap<DomainValue>,
) -> (r: Result<Vec<StoragePartitionConfig>, String>)
    ensures
        final(fields)@ == spec_remove(old(fields)@, key@),
        old(fields).wf() ==> final(fields).wf(),
        result_seq_view(r) == spec_opt_partitions(
            file@,
            field_path(prefix@, key@),
            spec_get(old(fields)@, key@),
        ),
{
    let path = join_path(prefix, key);
    match take_field(fields, key) {
        Some(DomainValue::List(values)) => partitions_from_list(file, path.as_str(), values),
        Some(_) => Err(must_be(file, path.as_str(), "a list of partition tables")),
        None => {
            let v: Vec<StoragePartitionConfig> = Vec::new();
            assert(views_of(v@) =~= Seq::<PartitionView>::empty());
            Ok(v)
        },
    }
}

pub struct StorageView {
    pub layout: Seq<char>,
    pub disk: Option<Seq<char>>,
    pub target: Seq<char>,
    pub efi_filesystem: Option<Seq<char>>,
    pub root_filesystem: Option<Seq<char>>,
    pub partitions: Seq<PartitionView>,
}

#[derive(Debug, Clone)]
pub struct StorageConfig {
    pub layout: String,
    pub disk: Option<String>,
    pub target: String,
    pub efi_filesystem: Option<String>,
    pub root_filesystem: Option<String>,
    pub partitions: Vec<StoragePartitionConfig>,
}

impl View for StorageConfig {
    type V = StorageView;

    open spec fn view(&self) -> StorageView {
        StorageView {
            layout: self.layout@,
            disk: opt_view(self.disk),
            target: self.target@,
            efi_filesystem: opt_view(self.efi_filesystem),
            root_filesystem: opt_view(self.root_filesystem),
            partitions: views_of(self.partitions@),
        }
    }
}

pub open spec fn storage_keys() -> Seq<Seq<char>> {
    seq!["layout"@, "disk"@, "target"@, "efi_filesystem"@, "root_filesystem"@, "partitions"@]
}

pub open spec fn or_default(o: Option<Seq<char>>, d: Seq<char>) -> Seq<char> {
    match o {
        Some(s) => s,
        None => d,
    }
}

pub open spec fn spec_storage_from(v: DomainValue, file: Seq<char>) -> Result<StorageView, Seq<char>> {
    let d = "storage"@;
    match spec_into_table(v, file, d) {
        Err(e) => Err(e),
        Ok(t) => match first_unknown(crate::strmap::keys_of(t), storage_keys()) {
            Some(k) => Err(msg_unknown_field(file, d, k)),
            None => match spec_opt_string(file, field_path(d, "layout"@), spec_get(t, "layout"@)) {
                Err(e) => Err(e),
                Ok(layout) => match spec_opt_string(
                    file,
                    field_path(d, "disk"@),
                    spec_get(t, "disk"@),
                ) {
                    Err(e) => Err(e),
                    Ok(disk) => match spec_opt_string(
                        file,
                        field_path(d, "target"@),
                        spec_get(t, "target"@),
                    ) {
                        Err(e) => Err(e),
                        Ok(target) => match spec_opt_string(
                            file,
                            field_path(d, "efi_filesystem"@),
                            spec_get(t, "efi_filesystem"@),
                        ) {
                            Err(e) => Err(e),
                            Ok(efi) => match spec_opt_string(
                                file,
                                field_path(d, "root_filesystem"@),
                                spec_get(t, "root_filesystem"@),
                            ) {
                                Err(e) => Err(e),
                                Ok(root) => match spec_opt_partitions(
                                    file,
                                    field_path(d, "partitions"@),
                                    spec_get(t, "partitions"@),
                                ) {
                                    Err(e) => Err(e),
                                    Ok(partitions) => Ok(
                                        StorageView {
                                            layout: or_default(layout, "whole_disk"@),
                                            disk,
                                            target: or_default(target, "/mnt"@),
                                            efi_filesystem: Some(or_default(efi, "fat32"@)),
                                            root_filesystem: Some(or_default(root, "ext4"@)),
                                            partitions,
                                        },
                                    ),
                                },
                            },
                        },
                    },
                },
            },
        },
    }
}

fn unwrap_or_str(o: Option<String>, d: &str) -> (s: String)
    ensures
        s@ == or_default(opt_view(o), d@),
{
    match o {
        Some(s) => s,
        None => string_from(d),
    }
}

impl StorageConfig {
    fn from_value(value: DomainValue, file: &str) -> (r: Result<Self, String>)
        ensures
            result_view(r) == spec_storage_from(value, file@),
    {
        let ghost keys = storage_keys();
        proof {
            reveal_strlit("layout");
            reveal_strlit("disk");
            reveal_strlit("target");
            reveal_strlit("efi_filesystem");
            reveal_strlit("root_filesystem");
            reveal_strlit("partitions");
            assert("layout"@[0] != "target"@[0]);
            assert forall|i: int, j: int| 0 <= i < j < keys.len() implies #[trigger] keys[i]
                != #[trigger] keys[j] by {
                assert(keys[i].len() != keys[j].len() || keys[i][0] != keys[j][0]);
            }
        }
        let mut fields = value.into_table(file, "storage")?;
        let ghost t = fields@;
        let allowed: [&str; 6] = [
            "layout",
            "disk",
            "target",
            "efi_filesystem",
            "root_filesystem",
            "partitions",
        ];
        assert(strs_view(allowed@) =~= storage_keys());
        reject_unknown_fields(file, "storage", &fields, &allowed)?;
        let layout = take_optional_string(file, "storage", "layout", &mut fields)?;
        proof { lemma_remove_keeps_later(t, keys, 0); }
        let ghost t1 = fields@;
        let disk = take_optional_string(file, "storage", "disk", &mut fields)?;
        proof { lemma_remove_keeps_later(t1, keys, 1); }
        let ghost t2 = fields@;
        let target = take_optional_string(file, "storage", "target", &mut fields)?;
        proof { lemma_remove_keeps_later(t2, keys, 2); }
        let ghost t3 = fields@;
        let efi = take_optional_string(file, "storage", "efi_filesystem", &mut fields)?;
        proof { lemma_remove_keeps_later(t3, keys, 3); }
        let ghost t4 = fields@;
        let root = take_optional_string(file, "storage", "root_filesystem", &mut fields)?;
        proof { lemma_remove_keeps_later(t4, keys, 4); }
        let partitions = take_optional_storage_partitions(file, "storage", "partitions", &mut fields)?;
        Ok(StorageConfig {
            layout: unwrap_or_str(layout, "whole_disk"),
            disk,
            target: unwrap_or_str(target, "/mnt"),
            efi_filesystem: Some(unwrap_or_str(efi, "fat32")),
            root_filesystem: Some(unwrap_or_str(root, "ext4")),
            partitions,
        })
    }
}

pub struct WorkspaceView {
    pub path: Seq<char>,
    pub backend: Seq<char>,
    pub languages: Seq<(Seq<char>, bool)>,
    pub packages: Seq<Seq<char>>,
    pub services: Seq<(Seq<char>, bool)>,
    pub tasks: Seq<(Seq<char>, Seq<char>)>,
}

#[derive(Debug)]
pub struct WorkspaceConfig {
    pub path: String,
    pub backend: String,
    pub languages: StrMap<bool>,
    pub packages: Vec<String>,
    pub services: StrMap<bool>,
    pub tasks: StrMap<String>,
}

impl View for WorkspaceConfig {
    type V = WorkspaceView;

    open spec fn view(&self) -> WorkspaceView {
        WorkspaceView {
            path: self.path@,
            backend: self.backend@,
            languages: self.languages@,
            packages: strings_view(self.packages@),
            services: self.services@,
            tasks: string_map_view(self.tasks@),
        }
    }
}

pub open spec fn workspace_keys() -> Seq<Seq<char>> {
    seq!["path"@, "backend"@, "languages"@, "packages"@, "services"@, "tasks"@]
}

/// `workspaces.<name>`
pub open spec fn workspace_domain(name: Seq<char>) -> Seq<char> {
    "workspaces."@ + name
}

pub open spec fn spec_workspace_from(v: DomainValue, file: Seq<char>, name: Seq<char>) -> Result<
    WorkspaceView,
    Seq<char>,
> {
    let d = workspace_domain(name);
    match spec_into_table(v, file, d) {
        Err(e) => Err(e),
        Ok(t) => match first_unknown(crate::strmap::keys_of(t), workspace_keys()) {
            Some(k) => Err(msg_unknown_field(file, d, k)),
            None => match spec_req_string(file, field_path(d, "path"@), spec_get(t, "path"@)) {
                Err(e) => Err(e),
                Ok(path) => match spec_opt_string(
                    file,
                    field_path(d, "backend"@),
                    spec_get(t, "backend"@),
                ) {
                    Err(e) => Err(e),
                    Ok(backend) => match spec_opt_bool_map(
                        file,
                        field_path(d, "languages"@),
                        spec_get(t, "languages"@),
                    ) {
                        Err(e) => Err(e),
                        Ok(languages) => match spec_opt_list(
                            file,
                            field_path(d, "packages"@),
                            spec_get(t, "packages"@),
                        ) {
                            Err(e) => Err(e),
                            Ok(packages) => match spec_opt_bool_map(
                                file,
                                field_path(d, "services"@),
                                spec_get(t, "services"@),
                            ) {
                                Err(e) => Err(e),
                                Ok(services) => match spec_opt_string_map(
                                    file,
                                    field_path(d, "tasks"@),
                                    spec_get(t, "tasks"@),
                                ) {
                                    Err(e) => Err(e),
                                    Ok(tasks) => Ok(
                                        WorkspaceView {
                                            path,
                                            backend: or_default(backend, "devenv"@),
                                            languages,
                                            packages,
                                            services,
                                            tasks,
                                        },
                                    ),
                                },
                            },
                        },
                    },
                },
            },
        },
    }
}

impl WorkspaceConfig {
    /// A workspace with the given path and backend and nothing else declared.
    pub fn new(path: String, backend: String) -> (w: Self)
        ensures
            w@.path == path@,
            w@.backend == backend@,
            w@.languages.len() == 0,
            w@.packages.len() == 0,
            w@.services.len() == 0,
            w@.tasks.len() == 0,
    {
        let w = WorkspaceConfig {
            path,
            backend,
            languages: StrMap::new(),
            packages: Vec::new(),
            services: StrMap::new(),
            tasks: StrMap::new(),
        };
        assert(w@.tasks =~= Seq::<(Seq<char>, Seq<char>)>::empty());
        w
    }

    fn from_value(value: DomainValue, file: &str, name: &str) -> (r: Result<Self, String>)
        ensures
            result_view(r) == spec_workspace_from(value, file@, name@),
    {
        let ghost keys = workspace_keys();
        proof {
            reveal_strlit("path");
            reveal_strlit("backend");
            reveal_strlit("languages");
            reveal_strlit("packages");
            reveal_strlit("services");
            reveal_strlit("tasks");
            assert("packages"@[0] != "services"@[0]);
            assert forall|i: int, j: int| 0 <= i < j < keys.len() implies #[trigger] keys[i]
                != #[trigger] keys[j] by {
                assert(keys[i].len() != keys[j].len() || keys[i][0] != keys[j][0]);
            }
        }
        let mut domain = string_from("workspaces.");
        push_str(&mut domain, name);
        let d = domain.as_str();
        let mut fields = value.into_table(file, d)?;
        let ghost t = fields@;
        let allowed: [&str; 6] = ["path", "backend", "languages", "packages", "services", "tasks"];
        assert(strs_view(allowed@) =~= workspace_keys());
        reject_unknown_fields(file, d, &fields, &allowed)?;
        let path = take_required_string(file, d, "path", &mut fields)?;
        proof { lemma_remove_keeps_later(t, keys, 0); }
        let ghost t1 = fields@;
        let backend = take_optional_string(file, d, "backend", &mut fields)?;
        proof { lemma_remove_keeps_later(t1, keys, 1); }
        let ghost t2 = fields@;
        let languages = take_optional_bool_map(file, d, "languages", &mut fields)?;
        proof { lemma_remove_keeps_later(t2, keys, 2); }
        let ghost t3 = fields@;
        let packages = take_optional_list(file, d, "packages", &mut fields)?;
        proof { lemma_remove_keeps_later(t3, keys, 3); }
        let ghost t4 = fields@;
        let services = take_optional_bool_map(file, d, "services", &mut fields)?;
        proof { lemma_remove_keeps_later(t4, keys, 4); }
        let tasks = take_optional_string_map(file, d, "tasks", &mut fields)?;
        Ok(WorkspaceConfig {
            path,
            backend: unwrap_or_str(backend, "devenv"),
            languages,
            packages,
            services,
            tasks,
        })
    }
}

pub struct WorkspacesView {
    pub entries: Seq<(Seq<char>, WorkspaceView)>,
}

#[derive(Debug)]
pub struct WorkspacesConfig {
    pub entries: StrMap<WorkspaceConfig>,
}

impl View for WorkspacesConfig {
    type V = WorkspacesView;

    open spec fn view(&self) -> WorkspacesView {
        WorkspacesView { entries: crate::strmap::view_entries(self.entries@) }
    }
}

/// Each named workspace table read in turn, or the first error.
pub open spec fn spec_workspace_items(file: Seq<char>, t: Seq<(Seq<char>, DomainValue)>) -> Result<
    Seq<(Seq<char>, WorkspaceView)>,
    Seq<char>,
>
    decreases t.len(),
{
    if t.len() == 0 {
        Ok(seq![])
    } else {
        match spec_workspace_items(file, t.drop_last()) {
            Err(e) => Err(e),
            Ok(s) => match spec_workspace_from(t.last().1, file, t.last().0) {
                Err(e) => Err(e),
                Ok(w) => Ok(s.push((t.last().0, w))),
            },
        }
    }
}

pub open spec fn spec_workspaces_from(v: DomainValue, file: Seq<char>) -> Result<WorkspacesView, Seq<char>> {
    match spec_into_table(v, file, "workspaces"@) {
        Err(e) => Err(e),
        Ok(t) => match spec_workspace_items(file, t) {
            Err(e) => Err(e),
            Ok(items) => Ok(WorkspacesView { entries: spec_from_pairs(items) }),
        },
    }
}

proof fn lemma_workspace_items_prefix_err(
    file: Seq<char>,
    t: Seq<(Seq<char>, DomainValue)>,
    n: int,
    e: Seq<char>,
)
    requires
        0 <= n <= t.len(),
        spec_workspace_items(file, t.take(n)) == Err::<Seq<(Seq<char>, WorkspaceView)>, Seq<char>>(e),
    ensures
        spec_workspace_items(file, t) == Err::<Seq<(Seq<char>, WorkspaceView)>, Seq<char>>(e),
    decreases t.len() - n,
{
    if n < t.len() {
        assert(t.take(n + 1).drop_last() =~= t.take(n));
        lemma_workspace_items_prefix_err(file, t, n + 1, e);
    } else {
        assert(t.take(n) =~= t);
    }
}

impl WorkspacesConfig {
    fn from_value(value: DomainValue, file: &str) -> (r: Result<Self, String>)
        ensures
            result_view(r) == spec_workspaces_from(value, file@),
    {
        let ghost vin = value;
        let table = value.into_table(file, "workspaces")?;
        let ghost t = table@;
        assert(spec_into_table(vin, file@, "workspaces"@) == Ok::<Seq<(Seq<char>, DomainValue)>, Seq<char>>(t));
        let entries = table.into_entries();
        let ghost ev = entries@;
        assert(ev.map_values(|p: (String, DomainValue)| (p.0@, p.1)) == t);
        let mut workspaces: StrMap<WorkspaceConfig> = StrMap::new();
        let ghost mut items: Seq<(Seq<char>, WorkspaceView)> = seq![];
        assert(t.take(0) =~= Seq::<(Seq<char>, DomainValue)>::empty());
        assert(crate::strmap::view_entries(workspaces@) =~= Seq::<(Seq<char>, WorkspaceView)>::empty());
        for entry in it: entries.into_iter()
            invariant
                it.seq() == ev,
                ev.map_values(|p: (String, DomainValue)| (p.0@, p.1)) == t,
                vin == value,
                spec_into_table(vin, file@, "workspaces"@) == Ok::<Seq<(Seq<char>, DomainValue)>, Seq<char>>(t),
                spec_workspace_items(file@, t.take(it.index() as int)) == Ok::<
                    Seq<(Seq<char>, WorkspaceView)>,
                    Seq<char>,
                >(items),
                crate::strmap::view_entries(workspaces@) == spec_from_pairs(items),
        {
            let ghost idx = it.index();
            assert(t.take(idx + 1).drop_last() =~= t.take(idx as int));
            assert(t.take(idx + 1).last() == (entry.0@, entry.1));
            let (name, v) = entry;
            let ghost nv = name@;
            let ghost vv = v;
            match WorkspaceConfig::from_value(v, file, name.as_str()) {
                Ok(w) => {
                    let ghost wv = w@;
                    let ghost before = workspaces@;
                    workspaces.insert(name, w);
                    proof {
                        crate::strmap::lemma_insert_view_entries(before, nv, w);
                        let items0 = items;
                        items = items.push((nv, wv));
                        assert(items.drop_last() =~= items0);
                    }
                },
                Err(e) => {
                    proof {
                        assert(spec_workspace_from(vv, file@, nv) == Err::<WorkspaceView, Seq<char>>(e@));
                        assert(spec_workspace_items(file@, t.take(idx + 1)) == Err::<
                            Seq<(Seq<char>, WorkspaceView)>,
                            Seq<char>,
                        >(e@));
                        lemma_workspace_items_prefix_err(file@, t, idx + 1, e@);
                        assert(spec_into_table(value, file@, "workspaces"@) == Ok::<
                            Seq<(Seq<char>, DomainValue)>,
                            Seq<char>,
                        >(t));
                    }
                    return Err(e);
                },
            }
        }
        assert(t.take(t.len() as int) =~= t);
        Ok(WorkspacesConfig { entries: workspaces })
    }
}

} // verus!

verus! {

pub struct ConfigView {
    pub system: Option<SystemView>,
    pub packages: Option<PackagesView>,
    pub services: Option<ServicesView>,
    pub storage: Option<StorageView>,
    pub files: Option<FilesView>,
    pub workspaces: Option<WorkspacesView>,
}

pub open spec fn opt_v<T: View>(o: Option<T>) -> Option<T::V> {
    match o {
        Some(t) => Some(t@),
        None => None,
    }
}

/// The whole configuration: one optional value per top-level domain.
#[derive(Debug)]
pub struct BasaltConfig {
    pub system: Option<SystemConfig>,
    pub packages: Option<PackagesConfig>,
    pub services: Option<ServicesConfig>,
    pub storage: Option<StorageConfig>,
    pub files: Option<FilesConfig>,
    pub workspaces: Option<WorkspacesConfig>,
}

impl View for BasaltConfig {
    type V = ConfigView;

    open spec fn view(&self) -> ConfigView {
        ConfigView {
            system: opt_v(self.system),
            packages: opt_v(self.packages),
            services: opt_v(self.services),
            storage: opt_v(self.storage),
            files: opt_v(self.files),
            workspaces: opt_v(self.workspaces),
        }
    }
}

impl Default for BasaltConfig {
    fn default() -> (c: Self)
        ensures
            c.system is None,
            c.packages is None,
            c.services is None,
            c.storage is None,
            c.files is None,
            c.workspaces is None,
    {
        BasaltConfig {
            system: None,
            packages: None,
            services: None,
            storage: None,
            files: None,
            workspaces: None,
        }
    }
}

/// Whether the configuration already holds `domain`.
pub open spec fn spec_has_domain(c: ConfigView, domain: Seq<char>) -> bool {
    if domain == "system"@ {
        c.system is Some
    } else if domain == "packages"@ {
        c.packages is Some
    } else if domain == "services"@ {
        c.services is Some
    } else if domain == "storage"@ {
        c.storage is Some
    } else if domain == "files"@ {
        c.files is Some
    } else if domain == "workspaces"@ {
        c.workspaces is Some
    } else {
        false
    }
}

/// The configuration after reading `value` as the top-level domain `domain`.
pub open spec fn spec_insert_domain(c: ConfigView, domain: Seq<char>, value: DomainValue, file: Seq<char>) -> Result<
    ConfigView,
    Seq<char>,
> {
    if domain == "system"@ {
        match spec_system_from(value, file) {
            Ok(s) => Ok(ConfigView { system: Some(s), ..c }),
            Err(e) => Err(e),
        }
    } else if domain == "packages"@ {
        match spec_packages_from(value, file) {
            Ok(s) => Ok(ConfigView { packages: Some(s), ..c }),
            Err(e) => Err(e),
        }
    } else if domain == "services"@ {
        match spec_services_from(value, file) {
            Ok(s) => Ok(ConfigView { services: Some(s), ..c }),
            Err(e) => Err(e),
        }
    } else if domain == "storage"@ {
        match spec_storage_from(value, file) {
            Ok(s) => Ok(ConfigView { storage: Some(s), ..c }),
            Err(e) => Err(e),
        }
    } else if domain == "files"@ {
        match spec_files_from(value, file) {
            Ok(s) => Ok(ConfigView { files: Some(s), ..c }),
            Err(e) => Err(e),
        }
    } else if domain == "workspaces"@ {
        match spec_workspaces_from(value, file) {
            Ok(s) => Ok(ConfigView { workspaces: Some(s), ..c }),
            Err(e) => Err(e),
        }
    } else {
        Err(msg_unknown_domain(file, domain))
    }
}

pub open spec fn count_some(c: ConfigView) -> nat {
    (if c.system is Some { 1nat } else { 0nat }) + (if c.packages is Some { 1nat } else { 0nat }) + (
    if c.services is Some { 1nat } else { 0nat }) + (if c.storage is Some { 1nat } else { 0nat }) + (
    if c.files is Some { 1nat } else { 0nat }) + (if c.workspaces is Some { 1nat } else { 0nat })
}

pub open spec fn spec_package_count(c: ConfigView) -> int {
    match c.packages {
        Some(p) => (p.pacman.len() + p.aur.len() + p.nix.len()) as int,
        None => 0,
    }
}

impl BasaltConfig {
    pub fn has_domain(&self, domain: &str) -> (b: bool)
        ensures
            b == spec_has_domain(self@, domain@),
    {
        if str_eq(domain, "system") {
            self.system.is_some()
        } else if str_eq(domain, "packages") {
            self.packages.is_some()
        } else if str_eq(domain, "services") {
            self.services.is_some()
        } else if str_eq(domain, "storage") {
            self.storage.is_some()
        } else if str_eq(domain, "files") {
            self.files.is_some()
        } else if str_eq(domain, "workspaces") {
            self.workspaces.is_some()
        } else {
            false
        }
    }

    /// Reads `value` as the top-level domain `domain`; on an error the configuration is
    /// left as it was.
    pub fn insert_domain(&mut self, domain: String, value: DomainValue, file: &str) -> (r: Result<
        (),
        String,
    >)
        ensures
            match r {
                Ok(()) => spec_insert_domain(old(self)@, domain@, value, file@) == Ok::<
                    ConfigView,
                    Seq<char>,
                >(final(self)@),
                Err(e) => spec_insert_domain(old(self)@, domain@, value, file@) == Err::<
                    ConfigView,
                    Seq<char>,
                >(e@) && final(self)@ == old(self)@,
            },
    {
        let d = domain.as_str();
        if str_eq(d, "system") {
            let s = SystemConfig::from_value(value, file)?;
            self.system = Some(s);
            Ok(())
        } else if str_eq(d, "packages") {
            let s = PackagesConfig::from_value(value, file)?;
            self.packages = Some(s);
            Ok(())
        } else if str_eq(d, "services") {
            let s = ServicesConfig::from_value(value, file)?;
            self.services = Some(s);
            Ok(())
        } else if str_eq(d, "storage") {
            let s = StorageConfig::from_value(value, file)?;
            self.storage = Some(s);
            Ok(())
        } else if str_eq(d, "files") {
            let s = FilesConfig::from_value(value, file)?;
            self.files = Some(s);
            Ok(())
        } else if str_eq(d, "workspaces") {
            let s = WorkspacesConfig::from_value(value, file)?;
            self.workspaces = Some(s);
            Ok(())
        } else {
            let mut e = string_from(file);
            push_str(&mut e, ": unknown top-level domain `");
            push_str(&mut e, d);
            push_str(&mut e, "`");
            Err(e)
        }
    }

    /// The number of top-level domains present.
    pub fn domain_count(&self) -> (n: usize)
        ensures
            n == count_some(self@),
    {
        let mut n: usize = 0;
        if self.system.is_some() {
            n += 1;
        }
        if self.packages.is_some() {
            n += 1;
        }
        if self.services.is_some() {
            n += 1;
        }
        if self.storage.is_some() {
            n += 1;
        }
        if self.files.is_some() {
            n += 1;
        }
        if self.workspaces.is_some() {
            n += 1;
        }
        n
    }

    /// Package declarations over all backends.
    pub fn package_count(&self) -> (n: usize)
        requires
            spec_package_count(self@) <= usize::MAX,
        ensures
            n == spec_package_count(self@),
    {
        match &self.packages {
            Some(p) => p.pacman.len() + p.aur.len() + p.nix.len(),
            None => 0,
        }
    }

    /// Services declared for enabling.
    pub fn service_count(&self) -> (n: usize)
        ensures
            n == match self@.services {
                Some(s) => s.enable.len(),
                None => 0,
            },
    {
        match &self.services {
            Some(s) => s.enable.len(),
            None => 0,
        }
    }

    /// Workspaces declared.
    pub fn workspace_count(&self) -> (n: usize)
        ensures
            n == match self@.workspaces {
                Some(w) => w.entries.len(),
                None => 0,
            },
    {
        match &self.workspaces {
            Some(w) => w.entries.len(),
            None => 0,
        }
    }
}

/// Reading a domain into a configuration makes that domain present and leaves the
/// presence of every other domain as it was.
pub proof fn law_insert_domain_then_present(c: ConfigView, domain: Seq<char>, value: DomainValue, file: Seq<char>)
    requires
        spec_insert_domain(c, domain, value, file) is Ok,
    ensures
        spec_has_domain(spec_insert_domain(c, domain, value, file)->Ok_0, domain),
        forall|other: Seq<char>|
            other != domain ==> spec_has_domain(spec_insert_domain(c, domain, value, file)->Ok_0, other)
                == spec_has_domain(c, other),
{
}

} // verus!
