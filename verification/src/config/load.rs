// Assembling a configuration from the domains that each configuration file returned.

use vstd::prelude::*;

use super::types::{
    spec_has_domain, spec_insert_domain, strings_view, table_pairs, BasaltConfig, ConfigView,
    DomainValue,
};
use super::validate::spec_validate;
use crate::strmap::{spec_from_pairs, StrMap};
use crate::text::{cat2, cat3, chars_of, push_char, push_str, string_from};

verus! {

/// One configuration file: its path as shown in messages, and the top-level domains it
/// returned in key order, or the error that loading it gave.
pub struct ConfigFile {
    pub path: String,
    pub domains: Result<Vec<(String, DomainValue)>, String>,
}

/// What was found at a configuration path.
pub enum ConfigListing {
    Missing,
    NotADirectory,
    /// The directory could not be listed; the message says why.
    Unreadable(String),
    /// The entry files, in the order they are read.
    Files(Vec<ConfigFile>),
}

pub open spec fn file_domains(f: ConfigFile) -> Result<Seq<(Seq<char>, DomainValue)>, Seq<char>> {
    match f.domains {
        Ok(d) => Ok(table_pairs(d@)),
        Err(e) => Err(e@),
    }
}

pub open spec fn empty_config() -> ConfigView {
    ConfigView {
        system: None,
        packages: None,
        services: None,
        storage: None,
        files: None,
        workspaces: None,
    }
}

/// One domain of a file: refused when an earlier file gave it, else read into the
/// configuration, or its error recorded.
pub open spec fn merge_domain(
    st: (ConfigView, Seq<Seq<char>>),
    file: Seq<char>,
    d: (Seq<char>, DomainValue),
) -> (ConfigView, Seq<Seq<char>>) {
    if spec_has_domain(st.0, d.0) {
        (st.0, st.1.push(file + ": duplicate top-level domain `"@ + d.0 + "`"@))
    } else {
        match spec_insert_domain(st.0, d.0, d.1, file) {
            Ok(c) => (c, st.1),
            Err(e) => (st.0, st.1.push(e)),
        }
    }
}

pub open spec fn merge_domains(
    st: (ConfigView, Seq<Seq<char>>),
    file: Seq<char>,
    ds: Seq<(Seq<char>, DomainValue)>,
) -> (ConfigView, Seq<Seq<char>>)
    decreases ds.len(),
{
    if ds.len() == 0 {
        st
    } else {
        merge_domain(merge_domains(st, file, ds.drop_last()), file, ds.last())
    }
}

pub open spec fn merge_files(fs: Seq<ConfigFile>) -> (ConfigView, Seq<Seq<char>>)
    decreases fs.len(),
{
    if fs.len() == 0 {
        (empty_config(), Seq::<Seq<char>>::empty())
    } else {
        let st = merge_files(fs.drop_last());
        let f = fs.last();
        match file_domains(f) {
            Ok(ds) => merge_domains(st, f.path@, ds),
            Err(e) => (st.0, st.1.push(e)),
        }
    }
}

/// The configuration a directory holds, or every error found: loading errors first; the
/// validation errors only when loading gave none.
pub open spec fn spec_validate_config_dir(path: Seq<char>, listing: ConfigListing) -> Result<
    ConfigView,
    Seq<Seq<char>>,
> {
    match listing {
        ConfigListing::Missing => Err(seq![path + ": config directory does not exist"@]),
        ConfigListing::NotADirectory => Err(seq![path + ": config path is not a directory"@]),
        ConfigListing::Unreadable(e) => Err(seq![e@]),
        ConfigListing::Files(fs) => if fs@.len() == 0 {
            Err(seq![path + ": no .lua config files found"@])
        } else {
            let (c, errs) = merge_files(fs@);
            if errs.len() > 0 {
                Err(errs)
            } else if spec_validate(c).len() > 0 {
                Err(spec_validate(c))
            } else {
                Ok(c)
            }
        },
    }
}

fn push_error(errors: &mut Vec<String>, e: String)
    ensures
        strings_view(final(errors)@) == strings_view(old(errors)@).push(e@),
{
    let ghost ev = e@;
    errors.push(e);
    assert(strings_view(errors@) =~= strings_view(old(errors)@).push(ev));
}

fn merge_file_domains(
    config: &mut BasaltConfig,
    errors: &mut Vec<String>,
    file: &str,
    domains: Vec<(String, DomainValue)>,
)
    ensures
        merge_domains((old(config)@, strings_view(old(errors)@)), file@, table_pairs(domains@)) == (
        final(config)@, strings_view(final(errors)@)),
{
    let ghost ds = table_pairs(domains@);
    let ghost st0 = (config@, strings_view(errors@));
    assert(ds.take(0) =~= Seq::<(Seq<char>, DomainValue)>::empty());
    for entry in it: domains.into_iter()
        invariant
            ds == table_pairs(it.seq()),
            merge_domains(st0, file@, ds.take(it.index() as int)) == (config@, strings_view(
                errors@,
            )),
    {
        let ghost idx = it.index();
        assert(ds.take(idx + 1).drop_last() =~= ds.take(idx as int));
        assert(ds.take(idx + 1).last() == (entry.0@, entry.1));
        let (domain, value) = entry;
        if config.has_domain(domain.as_str()) {
            let mut e = string_from(file);
            push_str(&mut e, ": duplicate top-level domain `");
            push_str(&mut e, domain.as_str());
            push_str(&mut e, "`");
            push_error(errors, e);
        } else {
            match config.insert_domain(domain, value, file) {
                Ok(()) => {},
                Err(e) => push_error(errors, e),
            }
        }
    }
    assert(ds.take(ds.len() as int) =~= ds);
}

/// Reads the configuration that `listing` found at `path`: each file's domains merged in
/// turn, then, when nothing failed to load, the merged configuration validated.
pub fn validate_config_dir(path: &str, listing: ConfigListing) -> (r: Result<BasaltConfig, Vec<String>>)
    ensures
        match r {
            Ok(c) => spec_validate_config_dir(path@, listing) == Ok::<ConfigView, Seq<Seq<char>>>(c@),
            Err(es) => spec_validate_config_dir(path@, listing) == Err::<
                ConfigView,
                Seq<Seq<char>>,
            >(strings_view(es@)),
        },
{
    let ghost l0 = listing;
    let files = match listing {
        ConfigListing::Missing => {
            let e = cat2(path, ": config directory does not exist");
            let v = vec![e];
            assert(strings_view(v@) =~= seq![e@]);
            return Err(v);
        },
        ConfigListing::NotADirectory => {
            let e = cat2(path, ": config path is not a directory");
            let v = vec![e];
            assert(strings_view(v@) =~= seq![e@]);
            return Err(v);
        },
        ConfigListing::Unreadable(e) => {
            let ghost ev = e@;
            let v = vec![e];
            assert(strings_view(v@) =~= seq![ev]);
            return Err(v);
        },
        ConfigListing::Files(files) => files,
    };
    if files.len() == 0 {
        let e = cat2(path, ": no .lua config files found");
        let v = vec![e];
        assert(strings_view(v@) =~= seq![e@]);
        return Err(v);
    }
    let ghost fs = files@;
    let mut config = BasaltConfig::default();
    let mut errors: Vec<String> = Vec::new();
    assert(fs.take(0) =~= Seq::<ConfigFile>::empty());
    assert(config@ == empty_config());
    assert(strings_view(errors@) =~= Seq::<Seq<char>>::empty());
    for file in it: files.into_iter()
        invariant
            it.seq() == fs,
            merge_files(fs.take(it.index() as int)) == (config@, strings_view(errors@)),
    {
        let ghost idx = it.index();
        assert(fs.take(idx + 1).drop_last() =~= fs.take(idx as int));
        assert(fs.take(idx + 1).last() == file);
        let ConfigFile { path: file_path, domains } = file;
        match domains {
            Ok(domains) => merge_file_domains(&mut config, &mut errors, file_path.as_str(), domains),
            Err(e) => push_error(&mut errors, e),
        }
    }
    assert(fs.take(fs.len() as int) =~= fs);
    if errors.len() > 0 {
        return Err(errors);
    }
    let problems = super::validate::validate(&config);
    if problems.len() > 0 {
        Err(problems)
    } else {
        Ok(config)
    }
}

/// What evaluating a configuration file gave: its top-level domains collected by name (a
/// later entry replacing an earlier one), or the error for any other value.
pub fn config_root_domains(path: &str, root: DomainValue) -> (r: Result<Vec<(String, DomainValue)>, String>)
    ensures
        match root {
            DomainValue::Table(entries) => r matches Ok(d) && table_pairs(d@) == spec_from_pairs(
                table_pairs(entries@),
            ),
            _ => r matches Err(e) && e@ == path@ + ": config file must return a table"@,
        },
{
    match root {
        DomainValue::Table(entries) => {
            let m = StrMap::from_pairs(entries);
            let d = m.into_entries();
            Ok(d)
        },
        _ => Err(cat2(path, ": config file must return a table")),
    }
}

/// A `require` module name whose dot-separated segments are non-empty and hold no path
/// separator.
/// A directory entry named `name` has the `.lua` extension: it ends in `.lua` after a
/// non-empty stem (so `.lua` alone has none).
pub open spec fn is_lua_name(name: Seq<char>) -> bool {
    name.len() > 4 && crate::text::seq_ends_with(name, ".lua"@)
}

/// `x` is one of `names` and has the `.lua` extension.
pub open spec fn lua_entry(names: Seq<Seq<char>>, x: Seq<char>) -> bool {
    names.contains(x) && is_lua_name(x)
}

/// The configuration files to evaluate, by the names of a configuration directory's
/// entries: `init.lua` alone when it is a file (entrypoint mode), else every `.lua` entry
/// (legacy merge mode), each once, in increasing order.
pub fn config_entry_names(init_is_file: bool, names: &Vec<String>) -> (r: Vec<String>)
    ensures
        init_is_file ==> strings_view(r@) == seq!["init.lua"@],
        !init_is_file ==> forall|i: int, j: int|
            0 <= i < j < r@.len() ==> crate::strmap::seq_lt(#[trigger] r@[i]@, #[trigger] r@[j]@),
        !init_is_file ==> forall|x: Seq<char>|
            #[trigger] strings_view(r@).contains(x) <==> lua_entry(strings_view(names@), x),
{
    if init_is_file {
        let r = vec![string_from("init.lua")];
        assert(strings_view(r@) =~= seq!["init.lua"@]);
        return r;
    }
    let ghost nv = strings_view(names@);
    let mut set = crate::strmap::StrSet::new();
    let mut i: usize = 0;
    while i < names.len()
        invariant
            i <= names.len(),
            nv == strings_view(names@),
            set.wf(),
            forall|t: Seq<char>| #[trigger] set.has(t) <==> (nv.take(i as int).contains(t) && is_lua_name(t)),
        decreases names.len() - i,
    {
        let name = names[i].as_str();
        let lua = chars_of(name).len() > 4 && crate::text::ends_with(name, ".lua");
        let ghost before = set;
        assert(lua == is_lua_name(name@));
        if lua {
            set.insert(string_from(name));
        }
        assert(forall|t: Seq<char>| #[trigger] set.has(t) <==> (before.has(t) || (lua && t == name@)));
        let ghost prev = nv.take(i as int);
        let ghost next = nv.take(i + 1);
        assert(next =~= prev.push(name@));
        assert forall|t: Seq<char>| set.has(t) <==> (next.contains(t) && is_lua_name(t)) by {
            assert(before.has(t) <==> (prev.contains(t) && is_lua_name(t)));
            if next.contains(t) && t != name@ {
                let k = choose|k: int| 0 <= k < next.len() && next[k] == t;
                assert(prev[k] == t);
            }
            if prev.contains(t) {
                let k = choose|k: int| 0 <= k < prev.len() && prev[k] == t;
                assert(next[k] == t);
            }
            if t == name@ {
                assert(next[i as int] == t);
            }
        }
        i += 1;
    }
    assert(nv.take(names.len() as int) =~= nv);
    proof {
        set.lemma_sorted();
    }
    let mut r: Vec<String> = Vec::new();
    let mut k: usize = 0;
    while k < set.len()
        invariant
            k <= set@.len(),
            r@.len() == k,
            forall|j: int| 0 <= j < k ==> #[trigger] r@[j]@ == set@[j],
        decreases set@.len() - k,
    {
        r.push(set.at(k).clone());
        k += 1;
    }
    assert(strings_view(r@) =~= set@);
    assert forall|x: Seq<char>|
        #[trigger] strings_view(r@).contains(x) <==> lua_entry(strings_view(names@), x) by {
        assert(set.has(x) <==> (nv.take(names.len() as int).contains(x) && is_lua_name(x)));
        assert(strings_view(r@).contains(x) == set@.contains(x));
    }
    r
}

/// `x` placed among `s` (ordered by index) before the first entry with a larger index, as
/// a stable sort by index places it.
pub open spec fn insert_by_index(s: Seq<(i64, DomainValue)>, x: (i64, DomainValue)) -> Seq<(i64, DomainValue)>
    decreases s.len(),
{
    if s.len() == 0 {
        seq![x]
    } else if x.0 < s[0].0 {
        seq![x] + s
    } else {
        seq![s[0]] + insert_by_index(s.drop_first(), x)
    }
}

/// The entries of `s` in increasing order of index, entries with equal indices kept in
/// their order (a stable sort by index).
pub open spec fn sort_by_index(s: Seq<(i64, DomainValue)>) -> Seq<(i64, DomainValue)>
    decreases s.len(),
{
    if s.len() == 0 {
        s
    } else {
        insert_by_index(sort_by_index(s.drop_last()), s.last())
    }
}

proof fn lemma_insert_by_index_at(s: Seq<(i64, DomainValue)>, x: (i64, DomainValue), pos: int)
    requires
        0 <= pos <= s.len(),
        forall|j: int| 0 <= j < pos ==> !(x.0 < #[trigger] s[j].0),
        pos < s.len() ==> x.0 < s[pos].0,
    ensures
        insert_by_index(s, x) == s.insert(pos, x),
    decreases s.len(),
{
    if s.len() == 0 {
        assert(s.insert(pos, x) =~= seq![x]);
    } else if x.0 < s[0].0 {
        assert(pos == 0);
        assert(s.insert(0, x) =~= seq![x] + s);
    } else {
        assert(pos > 0);
        let t = s.drop_first();
        assert forall|j: int| 0 <= j < pos - 1 implies !(x.0 < #[trigger] t[j].0) by {
            assert(t[j] == s[j + 1]);
        }
        lemma_insert_by_index_at(t, x, pos - 1);
        assert(s.insert(pos, x) =~= seq![s[0]] + t.insert(pos - 1, x));
    }
}

/// The domain value of a Lua table whose string-keyed fields are `keyed` and whose
/// integer-indexed values are `list`, both as read from the table: a table of the fields in
/// key order, a list of the values in index order, or, for a table that mixes the two, the
/// error naming `file` and the table's place `lua_path` in the configuration.
pub fn lua_table_value(
    file: &str,
    lua_path: &str,
    keyed: Vec<(String, DomainValue)>,
    list: Vec<(i64, DomainValue)>,
) -> (r: Result<DomainValue, String>)
    ensures
        keyed@.len() > 0 && list@.len() > 0 ==> (r matches Err(e) && e@ == file@ + ": table `"@ + lua_path@
            + "` cannot mix keyed fields and list values"@),
        keyed@.len() == 0 ==> (r matches Ok(DomainValue::List(vs)) && vs@ == sort_by_index(list@).map_values(
            |p: (i64, DomainValue)| p.1,
        )),
        keyed@.len() > 0 && list@.len() == 0 ==> (r matches Ok(DomainValue::Table(es)) && table_pairs(es@)
            == spec_from_pairs(table_pairs(keyed@))),
{
    if keyed.len() > 0 && list.len() > 0 {
        let mut e = string_from(file);
        push_str(&mut e, ": table `");
        push_str(&mut e, lua_path);
        push_str(&mut e, "` cannot mix keyed fields and list values");
        return Err(e);
    }
    if keyed.len() > 0 {
        let ghost kv = table_pairs(keyed@);
        assert(keyed@.map_values(|p: (String, DomainValue)| (p.0@, p.1)) =~= kv);
        let m = StrMap::from_pairs(keyed);
        let es = m.into_entries();
        assert(table_pairs(es@) =~= es@.map_values(|p: (String, DomainValue)| (p.0@, p.1)));
        return Ok(DomainValue::Table(es));
    }
    let ghost orig = list@;
    let n = list.len();
    let mut items = list;
    let mut sorted: Vec<(i64, DomainValue)> = Vec::new();
    let mut i: usize = 0;
    assert(orig.skip(0) =~= orig);
    assert(orig.take(0) =~= Seq::<(i64, DomainValue)>::empty());
    while i < n
        invariant
            i <= n == orig.len(),
            items@ == orig.skip(i as int),
            sorted@ == sort_by_index(orig.take(i as int)),
        decreases n - i,
    {
        assert(items@.len() > 0);
        let x = items.remove(0);
        assert(x == orig[i as int]);
        assert(items@ =~= orig.skip(i + 1));
        let mut pos: usize = 0;
        while pos < sorted.len() && !(x.0 < sorted[pos].0)
            invariant
                pos <= sorted@.len(),
                forall|j: int| 0 <= j < pos ==> !(x.0 < #[trigger] sorted@[j].0),
            decreases sorted@.len() - pos,
        {
            pos += 1;
        }
        proof {
            lemma_insert_by_index_at(sorted@, x, pos as int);
            assert(orig.take(i + 1).drop_last() =~= orig.take(i as int));
            assert(orig.take(i + 1).last() == x);
        }
        sorted.insert(pos, x);
        i += 1;
    }
    assert(orig.take(n as int) =~= orig);
    let ghost target = sort_by_index(orig).map_values(|p: (i64, DomainValue)| p.1);
    let ghost all = sorted@;
    let m = sorted.len();
    let mut values: Vec<DomainValue> = Vec::new();
    let mut k: usize = 0;
    while k < m
        invariant
            k <= m == all.len(),
            target == all.map_values(|p: (i64, DomainValue)| p.1),
            sorted@ == all.skip(k as int),
            values@ == target.take(k as int),
        decreases m - k,
    {
        let p = sorted.remove(0);
        assert(p == all[k as int]);
        assert(sorted@ =~= all.skip(k + 1));
        values.push(p.1);
        assert(values@ =~= target.take(k + 1));
        k += 1;
    }
    assert(values@ =~= target);
    Ok(DomainValue::List(values))
}

/// Entries in order of nondecreasing index.
pub open spec fn index_sorted(s: Seq<(i64, DomainValue)>) -> bool {
    forall|i: int, j: int| 0 <= i < j < s.len() ==> #[trigger] s[i].0 <= #[trigger] s[j].0
}

proof fn lemma_insert_by_index_props(s: Seq<(i64, DomainValue)>, x: (i64, DomainValue))
    ensures
        insert_by_index(s, x).to_multiset() == s.to_multiset().insert(x),
        index_sorted(s) ==> index_sorted(insert_by_index(s, x)),
        forall|k: int|
            0 <= k < insert_by_index(s, x).len() ==> #[trigger] insert_by_index(s, x)[k] == x || s.contains(
                insert_by_index(s, x)[k],
            ),
    decreases s.len(),
{
    broadcast use vstd::seq_lib::to_multiset_insert;

    if s.len() == 0 {
        assert(seq![x] =~= s.insert(0, x));
    } else if x.0 < s[0].0 {
        assert(seq![x] + s =~= s.insert(0, x));
        let r = seq![x] + s;
        assert forall|k: int| 0 <= k < r.len() implies #[trigger] r[k] == x || s.contains(r[k]) by {
            if k > 0 {
                assert(r[k] == s[k - 1]);
            }
        }
        if index_sorted(s) {
            assert forall|i: int, j: int| 0 <= i < j < r.len() implies #[trigger] r[i].0 <= #[trigger] r[j].0 by {
                if i > 0 {
                    assert(r[i] == s[i - 1] && r[j] == s[j - 1]);
                } else {
                    assert(r[j] == s[j - 1]);
                    assert(s[0].0 <= s[j - 1].0);
                }
            }
        }
    } else {
        let t = s.drop_first();
        lemma_insert_by_index_props(t, x);
        let u = insert_by_index(t, x);
        let r = seq![s[0]] + u;
        assert(r =~= u.insert(0, s[0]));
        assert(s =~= t.insert(0, s[0]));
        assert(u.to_multiset() == t.to_multiset().insert(x));
        assert(r.to_multiset() == u.to_multiset().insert(s[0]));
        assert(s.to_multiset() == t.to_multiset().insert(s[0]));
        assert(r.to_multiset() =~= s.to_multiset().insert(x)) by {
            broadcast use vstd::multiset::group_multiset_axioms;
        }
        assert forall|k: int| 0 <= k < r.len() implies #[trigger] r[k] == x || s.contains(r[k]) by {
            if k == 0 {
                assert(s[0] == r[0]);
            } else {
                assert(r[k] == u[k - 1]);
                if u[k - 1] != x {
                    let m = choose|m: int| 0 <= m < t.len() && t[m] == u[k - 1];
                    assert(s[m + 1] == t[m]);
                }
            }
        }
        if index_sorted(s) {
            assert(index_sorted(t)) by {
                assert forall|i: int, j: int| 0 <= i < j < t.len() implies #[trigger] t[i].0 <= #[trigger] t[j].0 by {
                    assert(t[i] == s[i + 1] && t[j] == s[j + 1]);
                }
            }
            assert forall|i: int, j: int| 0 <= i < j < r.len() implies #[trigger] r[i].0 <= #[trigger] r[j].0 by {
                if i > 0 {
                    assert(r[i] == u[i - 1] && r[j] == u[j - 1]);
                } else {
                    assert(r[j] == u[j - 1]);
                    if u[j - 1] != x {
                        let m = choose|m: int| 0 <= m < t.len() && t[m] == u[j - 1];
                        assert(s[m + 1] == t[m]);
                        assert(s[0].0 <= s[m + 1].0);
                    }
                }
            }
        }
    }
}

/// A stable sort by index: the result holds the same entries, in nondecreasing index order.
pub proof fn law_sort_by_index_sorts(s: Seq<(i64, DomainValue)>)
    ensures
        sort_by_index(s).to_multiset() == s.to_multiset(),
        index_sorted(sort_by_index(s)),
    decreases s.len(),
{
    broadcast use vstd::seq_lib::to_multiset_build;

    if s.len() > 0 {
        law_sort_by_index_sorts(s.drop_last());
        lemma_insert_by_index_props(sort_by_index(s.drop_last()), s.last());
        assert(s =~= s.drop_last().push(s.last()));
    }
}

pub open spec fn valid_module_name(m: Seq<char>) -> bool {
    &&& m.len() > 0
    &&& m[0] != '.'
    &&& m.last() != '.'
    &&& forall|i: int| 0 <= i < m.len() ==> #[trigger] m[i] != '/' && m[i] != '\\'
    &&& forall|i: int| 0 <= i < m.len() - 1 ==> !(#[trigger] m[i] == '.' && m[i + 1] == '.')
}

/// Dots turned into path separators.
pub open spec fn dots_to_slashes(m: Seq<char>) -> Seq<char> {
    m.map_values(|c: char| if c == '.' { '/' } else { c })
}

/// The file below the configuration directory that module `module` names:
/// `a.b` is `a/b.lua`.
pub fn module_relative_path(module: &str) -> (r: Result<String, String>)
    ensures
        module@.len() == 0 ==> (r matches Err(e) && e@ == "empty module name"@),
        module@.len() > 0 && !valid_module_name(module@) ==> (r matches Err(e) && e@
            == "unsupported module name `"@ + module@ + "`"@),
        valid_module_name(module@) ==> (r matches Ok(p) && p@ == dots_to_slashes(module@)
            + ".lua"@),
{
    let v = chars_of(module);
    let n = v.len();
    if n == 0 {
        return Err(string_from("empty module name"));
    }
    let mut out = String::new();
    let mut ok = v[0] != '.' && v[n - 1] != '.';
    let mut i: usize = 0;
    while i < n
        invariant
            i <= n,
            n == v.len(),
            v@ == module@,
            n > 0,
            ok ==> out@ == dots_to_slashes(v@.take(i as int)),
            ok ==> v@[0] != '.' && v@[n - 1] != '.',
            ok ==> forall|j: int| 0 <= j < i ==> #[trigger] v@[j] != '/' && v@[j] != '\\',
            ok ==> forall|j: int| 0 <= j < i && j + 1 < n ==> !(#[trigger] v@[j] == '.' && v@[j
                + 1] == '.'),
            !ok ==> !valid_module_name(module@),
        decreases n - i,
    {
        let c = v[i];
        if c == '/' || c == '\\' || (c == '.' && i + 1 < n && v[i + 1] == '.') {
            ok = false;
        }
        if ok {
            let ghost o0 = out@;
            if c == '.' {
                push_char(&mut out, '/');
            } else {
                push_char(&mut out, c);
            }
            assert(v@.take(i + 1) =~= v@.take(i as int).push(c));
            assert(dots_to_slashes(v@.take(i + 1)) =~= o0.push(if c == '.' { '/' } else { c }));
        }
        i += 1;
    }
    if !ok {
        return Err(cat3("unsupported module name `", module, "`"));
    }
    assert(v@.take(n as int) =~= v@);
    push_str(&mut out, ".lua");
    Ok(out)
}

/// A domain that an earlier file already gave is refused with one error naming the file
/// and the domain, and the configuration is left as it was.
pub proof fn law_duplicate_domain_refused(
    st: (ConfigView, Seq<Seq<char>>),
    file: Seq<char>,
    d: (Seq<char>, DomainValue),
)
    requires
        spec_has_domain(st.0, d.0),
    ensures
        merge_domain(st, file, d) == (st.0, st.1.push(file + ": duplicate top-level domain `"@ + d.0 + "`"@)),
{
}

proof fn lemma_merge_domains_keeps_errors(st: (ConfigView, Seq<Seq<char>>), file: Seq<char>, ds: Seq<(Seq<char>, DomainValue)>)
    ensures
        merge_domains(st, file, ds).1.len() >= st.1.len(),
        merge_domains(st, file, ds).1.take(st.1.len() as int) == st.1,
    decreases ds.len(),
{
    if ds.len() > 0 {
        lemma_merge_domains_keeps_errors(st, file, ds.drop_last());
        let mid = merge_domains(st, file, ds.drop_last());
        let next = merge_domain(mid, file, ds.last());
        assert(next.1 == mid.1 || next.1 == mid.1.push(next.1.last()));
        assert(next.1.take(st.1.len() as int) =~= mid.1.take(st.1.len() as int));
    }
}

/// Reading more files never takes back an error: the errors after the first `k` files
/// begin the errors after all of them, so a load that failed part way fails in the end.
pub proof fn law_load_errors_persist(fs: Seq<ConfigFile>, k: int)
    requires
        0 <= k <= fs.len(),
    ensures
        merge_files(fs.take(k)).1.len() <= merge_files(fs).1.len(),
        merge_files(fs).1.take(merge_files(fs.take(k)).1.len() as int) == merge_files(fs.take(k)).1,
    decreases fs.len() - k,
{
    if k == fs.len() {
        assert(fs.take(k) =~= fs);
    } else {
        law_load_errors_persist(fs, k + 1);
        let pre = fs.take(k + 1);
        assert(pre.drop_last() =~= fs.take(k));
        let st = merge_files(fs.take(k));
        match file_domains(pre.last()) {
            Ok(ds) => {
                lemma_merge_domains_keeps_errors(st, pre.last().path@, ds);
            },
            Err(e) => {
                assert(st.1.push(e).take(st.1.len() as int) =~= st.1);
            },
        }
        let mid = merge_files(pre).1;
        let all = merge_files(fs).1;
        assert(all.take(st.1.len() as int) =~= all.take(mid.len() as int).take(st.1.len() as int));
    }
}

} // verus!
