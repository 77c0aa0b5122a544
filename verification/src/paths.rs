// Relative paths that must stay below a root directory, and the root directory itself.

use vstd::prelude::*;

use crate::text::{split_on, split_str, starts_with_char, str_eq};

verus! {

/// A relative path whose components are all plain names: no leading `/`, no leading `.`
/// component and no `..` component (inner `.` and empty components are dropped, as
/// `Path::components` drops them).
pub open spec fn plain_relative(p: Seq<char>) -> bool {
    let segs = split_on(p, '/');
    &&& !(p.len() > 0 && p[0] == '/')
    &&& segs[0] != "."@
    &&& !segs.contains(".."@)
}

pub fn is_plain_relative(p: &str) -> (b: bool)
    ensures
        b == plain_relative(p@),
{
    let segs = split_str(p, '/');
    let ghost sv = segs@.map_values(|x: String| x@);
    proof {
        assert(split_on(p@, '/').len() > 0);
    }
    if starts_with_char(p, '/') || str_eq(segs[0].as_str(), ".") {
        return false;
    }
    let mut i: usize = 0;
    while i < segs.len()
        invariant
            i <= segs.len(),
            sv == segs@.map_values(|x: String| x@),
            sv == split_on(p@, '/'),
            !(p@.len() > 0 && p@[0] == '/'),
            sv[0] != "."@,
            forall|j: int| 0 <= j < i ==> #[trigger] sv[j] != ".."@,
        decreases segs.len() - i,
    {
        assert(sv[i as int] == segs@[i as int]@);
        if str_eq(segs[i].as_str(), "..") {
            assert(sv.contains(".."@));
            return false;
        }
        i += 1;
    }
    true
}

/// A path that names the root directory: a `/` and then only `/` and `.` components.
pub open spec fn root_path(p: Seq<char>) -> bool {
    let segs = split_on(p, '/');
    &&& p.len() > 0
    &&& p[0] == '/'
    &&& forall|i: int| 0 <= i < segs.len() ==> (#[trigger] segs[i]).len() == 0 || segs[i] == "."@
}

/// Whether `p` names the root directory, as comparing `Path`s with `Path::new("/")` says.
pub fn is_root_path(p: &str) -> (b: bool)
    ensures
        b == root_path(p@),
{
    if !starts_with_char(p, '/') {
        return false;
    }
    let segs = split_str(p, '/');
    let ghost sv = segs@.map_values(|x: String| x@);
    let mut i: usize = 0;
    while i < segs.len()
        invariant
            i <= segs.len(),
            sv == segs@.map_values(|x: String| x@),
            sv == split_on(p@, '/'),
            p@.len() > 0 && p@[0] == '/',
            forall|j: int| 0 <= j < i ==> (#[trigger] sv[j]).len() == 0 || sv[j] == "."@,
        decreases segs.len() - i,
    {
        assert(sv[i as int] == segs@[i as int]@);
        let s = segs[i].as_str();
        if !(s.is_empty() || str_eq(s, ".")) {
            return false;
        }
        i += 1;
    }
    true
}

/// `base` joined with the relative path `rest`, as `Path::join` joins them: a `/` goes
/// between them unless `base` is empty or already ends in `/`.
pub open spec fn spec_join(base: Seq<char>, rest: Seq<char>) -> Seq<char> {
    if base.len() == 0 || base.last() == '/' {
        base + rest
    } else {
        base + "/"@ + rest
    }
}

pub fn join_path(base: &str, rest: &str) -> (s: String)
    ensures
        s@ == spec_join(base@, rest@),
{
    let v = crate::text::chars_of(base);
    if v.len() == 0 || v[v.len() - 1] == '/' {
        proof {
            if v.len() > 0 {
                assert(base@.last() == v@[v.len() - 1]);
            }
        }
        crate::text::cat2(base, rest)
    } else {
        proof {
            assert(base@.last() == v@[v.len() - 1]);
        }
        crate::text::cat3(base, "/", rest)
    }
}

/// The pieces that name something: empty pieces and `.` dropped, as `Path::components`
/// drops them.
pub open spec fn plain_components(segs: Seq<Seq<char>>) -> Seq<Seq<char>>
    decreases segs.len(),
{
    if segs.len() == 0 {
        segs
    } else {
        plain_components(segs.drop_last()) + if segs.last().len() == 0 || segs.last() == "."@ {
            Seq::<Seq<char>>::empty()
        } else {
            seq![segs.last()]
        }
    }
}

/// The components of path `p`, as `Path::components` gives them: `/` for the root of an
/// absolute path, `.` for a relative path that starts with it, then the plain pieces.
pub open spec fn path_components(p: Seq<char>) -> Seq<Seq<char>> {
    let segs = split_on(p, '/');
    if p.len() > 0 && p[0] == '/' {
        seq!["/"@] + plain_components(segs)
    } else if segs[0] == "."@ {
        seq!["."@] + plain_components(segs.drop_first())
    } else {
        plain_components(segs)
    }
}

/// Whether path `p` starts with path `base`, component by component, as
/// `Path::starts_with` says.
pub open spec fn spec_path_starts_with(p: Seq<char>, base: Seq<char>) -> bool {
    let a = path_components(base);
    let b = path_components(p);
    a.len() <= b.len() && b.take(a.len() as int) == a
}

fn plain_components_of(segs: &Vec<String>, from: usize) -> (r: Vec<String>)
    requires
        from <= segs@.len(),
    ensures
        r@.map_values(|x: String| x@) == plain_components(segs@.map_values(|x: String| x@).skip(from as int)),
{
    let ghost sv = segs@.map_values(|x: String| x@).skip(from as int);
    let mut r: Vec<String> = Vec::new();
    let mut i: usize = from;
    assert(sv.take(0) =~= Seq::<Seq<char>>::empty());
    while i < segs.len()
        invariant
            from <= i <= segs@.len(),
            sv == segs@.map_values(|x: String| x@).skip(from as int),
            r@.map_values(|x: String| x@) == plain_components(sv.take(i - from)),
        decreases segs@.len() - i,
    {
        let ghost r0 = r@.map_values(|x: String| x@);
        let seg = segs[i].as_str();
        assert(sv.take(i - from + 1).drop_last() =~= sv.take(i - from));
        assert(sv.take(i - from + 1).last() == seg@);
        proof {
            reveal_strlit("");
        }
        let skip = str_eq(seg, "") || str_eq(seg, ".");
        proof {
            assert(""@.len() == 0);
            if seg@.len() == 0 {
                assert(seg@ =~= ""@);
            }
        }
        assert(skip == (seg@.len() == 0 || seg@ == "."@));
        assert(plain_components(sv.take(i - from + 1)) == plain_components(sv.take(i - from)) + if seg@.len() == 0
            || seg@ == "."@ {
            Seq::<Seq<char>>::empty()
        } else {
            seq![seg@]
        });
        if !skip {
            r.push(segs[i].clone());
            assert(r@.map_values(|x: String| x@) =~= r0 + seq![seg@]);
        } else {

            assert(r@.map_values(|x: String| x@) =~= r0 + Seq::<Seq<char>>::empty());
        }
        i += 1;
    }
    assert(sv.take(segs@.len() - from) =~= sv);
    r
}

fn components_of(p: &str) -> (r: Vec<String>)
    ensures
        r@.map_values(|x: String| x@) == path_components(p@),
{
    let segs = split_str(p, '/');
    let ghost sv = segs@.map_values(|x: String| x@);
    proof {
        assert(split_on(p@, '/').len() > 0);
        assert(sv.skip(0) =~= sv);
        assert(sv.skip(1) =~= sv.drop_first());
    }
    if starts_with_char(p, '/') {
        let mut r = vec![crate::text::string_from("/")];
        let rest = plain_components_of(&segs, 0);
        let ghost r0 = r@.map_values(|x: String| x@);
        let mut rest = rest;
        r.append(&mut rest);
        proof {
            reveal_strlit("/");
        }
        assert(r@.map_values(|x: String| x@) =~= path_components(p@));
        r
    } else if str_eq(segs[0].as_str(), ".") {
        let mut r = vec![crate::text::string_from(".")];
        let mut rest = plain_components_of(&segs, 1);
        r.append(&mut rest);
        assert(r@.map_values(|x: String| x@) =~= path_components(p@));
        r
    } else {
        plain_components_of(&segs, 0)
    }
}

/// Whether path `p` starts with path `base`, component by component.
pub fn path_starts_with(p: &str, base: &str) -> (b: bool)
    ensures
        b == spec_path_starts_with(p@, base@),
{
    let a = components_of(base);
    let c = components_of(p);
    let ghost av = a@.map_values(|x: String| x@);
    let ghost cv = c@.map_values(|x: String| x@);
    assert(av.len() == a@.len() && cv.len() == c@.len());
    if a.len() > c.len() {
        return false;
    }
    let mut i: usize = 0;
    while i < a.len()
        invariant
            i <= a@.len() <= c@.len(),
            av == a@.map_values(|x: String| x@),
            cv == c@.map_values(|x: String| x@),
            av == path_components(base@),
            cv == path_components(p@),
            forall|j: int| 0 <= j < i ==> #[trigger] cv[j] == av[j],
        decreases a@.len() - i,
    {
        if !str_eq(c[i].as_str(), a[i].as_str()) {
            assert(cv.take(av.len() as int)[i as int] != av[i as int]);
            return false;
        }
        i += 1;
    }
    assert(cv.take(av.len() as int) =~= av);
    true
}

} // verus!
