// The backup manifest: what was backed up before an apply, and how to undo it.

use vstd::prelude::*;

use crate::paths::{is_plain_relative, plain_relative};
use crate::text::{
    cat2, cat3, chars_of, contains_char, decimal, is_blank, lines_of, push_char, push_decimal,
    push_str, spec_lines, split_on, split_str, str_eq, string_from, all_ws,
};

verus! {

pub const BACKUP_MANIFEST: &'static str = "backup-manifest.tsv";

/// What a target was before it was changed.
#[derive(Debug, Clone, Copy, PartialEq, Eq, Structural)]
pub enum BackupKind {
    Missing,
    File,
    Symlink,
}

pub open spec fn kind_str(k: BackupKind) -> Seq<char> {
    match k {
        BackupKind::Missing => "missing"@,
        BackupKind::File => "file"@,
        BackupKind::Symlink => "symlink"@,
    }
}

pub open spec fn spec_parse_kind(v: Seq<char>) -> Result<BackupKind, Seq<char>> {
    if v == "missing"@ {
        Ok(BackupKind::Missing)
    } else if v == "file"@ {
        Ok(BackupKind::File)
    } else if v == "symlink"@ {
        Ok(BackupKind::Symlink)
    } else {
        Err("unknown backup kind `"@ + v + "`"@)
    }
}

impl BackupKind {
    pub fn as_str(self) -> (s: &'static str)
        ensures
            s@ == kind_str(self),
    {
        match self {
            BackupKind::Missing => "missing",
            BackupKind::File => "file",
            BackupKind::Symlink => "symlink",
        }
    }

    pub fn parse(value: &str) -> (r: Result<Self, String>)
        ensures
            match r {
                Ok(k) => spec_parse_kind(value@) == Ok::<BackupKind, Seq<char>>(k),
                Err(e) => spec_parse_kind(value@) == Err::<BackupKind, Seq<char>>(e@),
            },
    {
        if str_eq(value, "missing") {
            Ok(BackupKind::Missing)
        } else if str_eq(value, "file") {
            Ok(BackupKind::File)
        } else if str_eq(value, "symlink") {
            Ok(BackupKind::Symlink)
        } else {
            Err(cat3("unknown backup kind `", value, "`"))
        }
    }
}

/// One backed-up target: its path below the root, what it was, and where its backup is.
#[derive(Debug)]
pub struct BackupManifestEntry {
    pub relative_path: String,
    pub kind: BackupKind,
    pub backup_name: Option<String>,
}

pub struct EntryView {
    pub relative_path: Seq<char>,
    pub kind: BackupKind,
    pub backup_name: Option<Seq<char>>,
}

impl View for BackupManifestEntry {
    type V = EntryView;

    open spec fn view(&self) -> EntryView {
        EntryView {
            relative_path: self.relative_path@,
            kind: self.kind,
            backup_name: crate::config::types::opt_view(self.backup_name),
        }
    }
}

/// What a restore did: targets put back, and targets removed.
#[derive(Debug)]
pub struct RestoreSummary {
    pub restored: Vec<String>,
    pub removed: Vec<String>,
}

/// A path below the target root: not empty, and only plain components.
pub fn validate_relative_path(relative_path: &str) -> (r: Result<(), String>)
    ensures
        r is Ok <==> (relative_path@.len() > 0 && plain_relative(relative_path@)),
        r matches Err(e) ==> e@ == "backup path `"@ + relative_path@
            + "` must stay inside the target root"@,
{
    if relative_path.is_empty() || !is_plain_relative(relative_path) {
        return Err(cat3("backup path `", relative_path, "` must stay inside the target root"));
    }
    Ok(())
}

/// Slashes replaced by `__`.
pub open spec fn spec_backup_name(p: Seq<char>) -> Seq<char>
    decreases p.len(),
{
    if p.len() == 0 {
        Seq::<char>::empty()
    } else {
        spec_backup_name(p.drop_last()) + if p.last() == '/' {
            "__"@
        } else {
            seq![p.last()]
        }
    }
}

/// The name a target's backup file gets: its relative path with `/` replaced by `__`.
pub fn backup_name(relative_path: &str) -> (name: String)
    ensures
        name@ == spec_backup_name(relative_path@),
{
    let v = chars_of(relative_path);
    let mut out = String::new();
    let mut i: usize = 0;
    assert(v@.take(0) =~= Seq::<char>::empty());
    while i < v.len()
        invariant
            i <= v.len(),
            v@ == relative_path@,
            out@ == spec_backup_name(v@.take(i as int)),
        decreases v.len() - i,
    {
        assert(v@.take(i + 1).drop_last() =~= v@.take(i as int));
        assert(v@.take(i + 1).last() == v[i as int]);
        let ghost o0 = out@;
        if v[i] == '/' {
            push_str(&mut out, "__");
        } else {
            push_char(&mut out, v[i]);
            assert(out@ =~= o0 + seq![v@[i as int]]);
        }
        i += 1;
    }
    assert(v@.take(v.len() as int) =~= v@);
    out
}

/// The backup file an entry names, or the error for an entry that names none.
pub fn required_backup_name(entry: &BackupManifestEntry) -> (r: Result<&str, String>)
    ensures
        match entry.backup_name {
            Some(n) => r matches Ok(s) && s@ == n@,
            None => r matches Err(e) && e@ == "backup entry `"@ + entry.relative_path@
                + "` has no backup file"@,
        },
{
    match &entry.backup_name {
        Some(name) => Ok(name.as_str()),
        None => Err(cat3("backup entry `", entry.relative_path.as_str(), "` has no backup file")),
    }
}

/// The manifest line of an entry: path, kind and backup name (`-` for none), separated by
/// tabs, refused when the path or the name holds a tab.
pub open spec fn spec_manifest_line(e: EntryView) -> Result<Seq<char>, Seq<char>> {
    let name = match e.backup_name {
        Some(n) => n,
        None => "-"@,
    };
    if e.relative_path.contains('\t') {
        Err("backup manifest path cannot contain tabs: "@ + e.relative_path)
    } else if name.contains('\t') {
        Err("backup manifest backup name cannot contain tabs: "@ + name)
    } else {
        Ok(e.relative_path + "\t"@ + kind_str(e.kind) + "\t"@ + name + "\n"@)
    }
}

pub fn manifest_line(entry: &BackupManifestEntry) -> (r: Result<String, String>)
    ensures
        match r {
            Ok(l) => spec_manifest_line(entry@) == Ok::<Seq<char>, Seq<char>>(l@),
            Err(e) => spec_manifest_line(entry@) == Err::<Seq<char>, Seq<char>>(e@),
        },
{
    if contains_char(entry.relative_path.as_str(), '\t') {
        return Err(cat2("backup manifest path cannot contain tabs: ", entry.relative_path.as_str()));
    }
    let name: &str = match &entry.backup_name {
        Some(n) => n.as_str(),
        None => "-",
    };
    if contains_char(name, '\t') {
        return Err(cat2("backup manifest backup name cannot contain tabs: ", name));
    }
    let mut line = cat3(entry.relative_path.as_str(), "\t", entry.kind.as_str());
    push_str(&mut line, "\t");
    push_str(&mut line, name);
    push_str(&mut line, "\n");
    Ok(line)
}

/// One manifest line read back, at 1-based line `number` of the manifest at `path`.
pub open spec fn spec_parse_line(path: Seq<char>, number: nat, line: Seq<char>) -> Result<EntryView, Seq<char>> {
    let parts = split_on(line, '\t');
    if parts.len() != 3 {
        Err(path + ":"@ + decimal(number) + ": expected relative_path, kind, backup_name"@)
    } else {
        match spec_parse_kind(parts[1]) {
            Err(e) => Err(e),
            Ok(k) => Ok(
                EntryView {
                    relative_path: parts[0],
                    kind: k,
                    backup_name: if parts[2] == "-"@ {
                        None
                    } else {
                        Some(parts[2])
                    },
                },
            ),
        }
    }
}

/// The entries of the manifest lines `ls` from line `i` (0-based) on; blank lines
/// skipped, the first bad line ending it.
pub open spec fn spec_parse_lines(path: Seq<char>, ls: Seq<Seq<char>>, i: nat) -> Result<Seq<EntryView>, Seq<char>>
    decreases ls.len() - i,
{
    if i >= ls.len() {
        Ok(Seq::<EntryView>::empty())
    } else if all_ws(ls[i as int]) {
        spec_parse_lines(path, ls, i + 1)
    } else {
        match spec_parse_line(path, i + 1, ls[i as int]) {
            Err(e) => Err(e),
            Ok(e) => match spec_parse_lines(path, ls, i + 1) {
                Err(x) => Err(x),
                Ok(rest) => Ok(seq![e] + rest),
            },
        }
    }
}

/// The entries of a backup manifest whose text is `contents`; `path` is shown in errors.
pub open spec fn spec_parse_manifest(path: Seq<char>, contents: Seq<char>) -> Result<Seq<EntryView>, Seq<char>> {
    spec_parse_lines(path, spec_lines(contents), 0)
}

fn parse_line(path: &str, number: usize, line: &str) -> (r: Result<BackupManifestEntry, String>)
    ensures
        match r {
            Ok(e) => spec_parse_line(path@, number as nat, line@) == Ok::<EntryView, Seq<char>>(e@),
            Err(e) => spec_parse_line(path@, number as nat, line@) == Err::<EntryView, Seq<char>>(e@),
        },
{
    let parts = split_str(line, '\t');
    let ghost pv = parts@.map_values(|x: String| x@);
    if parts.len() != 3 {
        let mut e = cat2(path, ":");
        push_decimal(&mut e, number as u128);
        push_str(&mut e, ": expected relative_path, kind, backup_name");
        return Err(e);
    }
    assert(pv[0] == parts@[0]@ && pv[1] == parts@[1]@ && pv[2] == parts@[2]@);
    let kind = match BackupKind::parse(parts[1].as_str()) {
        Ok(k) => k,
        Err(e) => {
            return Err(e);
        },
    };
    let backup_name = if str_eq(parts[2].as_str(), "-") {
        None
    } else {
        Some(parts[2].clone())
    };
    Ok(BackupManifestEntry { relative_path: parts[0].clone(), kind, backup_name })
}

/// The entries of a backup manifest, given its text; `path` is shown in errors.
pub fn parse_backup_manifest(path: &str, contents: &str) -> (r: Result<Vec<BackupManifestEntry>, String>)
    ensures
        match r {
            Ok(es) => spec_parse_manifest(path@, contents@) == Ok::<Seq<EntryView>, Seq<char>>(
                crate::config::types::views_of(es@),
            ),
            Err(e) => spec_parse_manifest(path@, contents@) == Err::<Seq<EntryView>, Seq<char>>(e@),
        },
{
    let lines = lines_of(contents);
    let ghost ls = lines@.map_values(|x: String| x@);
    let mut entries: Vec<BackupManifestEntry> = Vec::new();
    let mut i: usize = 0;
    assert(crate::config::types::views_of(entries@) =~= Seq::<EntryView>::empty());
    assert(Seq::<EntryView>::empty() + Seq::<EntryView>::empty() =~= Seq::<EntryView>::empty());
    while i < lines.len()
        invariant
            i <= lines.len(),
            ls == lines@.map_values(|x: String| x@),
            ls == spec_lines(contents@),
            match spec_parse_lines(path@, ls, i as nat) {
                Ok(rest) => spec_parse_manifest(path@, contents@) == Ok::<Seq<EntryView>, Seq<char>>(
                    crate::config::types::views_of(entries@) + rest,
                ),
                Err(x) => spec_parse_manifest(path@, contents@) == Err::<Seq<EntryView>, Seq<char>>(x),
            },
        decreases lines.len() - i,
    {
        assert(ls[i as int] == lines@[i as int]@);
        if !is_blank(lines[i].as_str()) {
            match parse_line(path, i + 1, lines[i].as_str()) {
                Err(e) => {
                    return Err(e);
                },
                Ok(entry) => {
                    let ghost e0 = crate::config::types::views_of(entries@);
                    let ghost ev = entry@;
                    entries.push(entry);
                    assert(crate::config::types::views_of(entries@) =~= e0.push(ev));
                    proof {
                        match spec_parse_lines(path@, ls, (i + 1) as nat) {
                            Ok(rest) => {
                                assert(e0 + (seq![ev] + rest) =~= e0.push(ev) + rest);
                            },
                            Err(x) => {},
                        }
                    }
                },
            }
        }
        i += 1;
    }
    assert(crate::config::types::views_of(entries@) + Seq::<EntryView>::empty()
        =~= crate::config::types::views_of(entries@));
    Ok(entries)
}

/// What restoring one manifest entry does.
#[derive(Debug)]
pub enum RestoreStep {
    /// Remove what now stands at the path: nothing stood there before.
    Remove { relative_path: String },
    /// Put the backed-up file back.
    CopyBack { relative_path: String, backup_name: String },
    /// Recreate the link whose target the backup file holds.
    Relink { relative_path: String, backup_name: String },
}

pub enum StepView {
    Remove(Seq<char>),
    CopyBack(Seq<char>, Seq<char>),
    Relink(Seq<char>, Seq<char>),
}

impl View for RestoreStep {
    type V = StepView;

    open spec fn view(&self) -> StepView {
        match self {
            RestoreStep::Remove { relative_path } => StepView::Remove(relative_path@),
            RestoreStep::CopyBack { relative_path, backup_name } => StepView::CopyBack(
                relative_path@,
                backup_name@,
            ),
            RestoreStep::Relink { relative_path, backup_name } => StepView::Relink(
                relative_path@,
                backup_name@,
            ),
        }
    }
}

/// The step that restores entry `e`, or why it cannot be restored.
pub open spec fn spec_restore_step(e: EntryView) -> Result<StepView, Seq<char>> {
    if !(e.relative_path.len() > 0 && plain_relative(e.relative_path)) {
        Err("backup path `"@ + e.relative_path + "` must stay inside the target root"@)
    } else {
        match e.kind {
            BackupKind::Missing => Ok(StepView::Remove(e.relative_path)),
            BackupKind::File => match e.backup_name {
                Some(n) => Ok(StepView::CopyBack(e.relative_path, n)),
                None => Err("backup entry `"@ + e.relative_path + "` has no backup file"@),
            },
            BackupKind::Symlink => match e.backup_name {
                Some(n) => Ok(StepView::Relink(e.relative_path, n)),
                None => Err("backup entry `"@ + e.relative_path + "` has no backup file"@),
            },
        }
    }
}

/// The step that restores `entry`, or why it cannot be restored.
pub fn restore_step(entry: &BackupManifestEntry) -> (r: Result<RestoreStep, String>)
    ensures
        match r {
            Ok(step) => spec_restore_step(entry@) == Ok::<StepView, Seq<char>>(step@),
            Err(e) => spec_restore_step(entry@) == Err::<StepView, Seq<char>>(e@),
        },
        !(entry.relative_path@.len() > 0 && plain_relative(entry.relative_path@)) ==> (r matches Err(
            e,
        ) && e@ == "backup path `"@ + entry.relative_path@ + "` must stay inside the target root"@),
        entry.relative_path@.len() > 0 && plain_relative(entry.relative_path@) ==> match entry.kind {
            BackupKind::Missing => r matches Ok(RestoreStep::Remove { relative_path }) && relative_path@
                == entry.relative_path@,
            BackupKind::File => match entry.backup_name {
                Some(n) => r matches Ok(RestoreStep::CopyBack { relative_path, backup_name })
                    && relative_path@ == entry.relative_path@ && backup_name@ == n@,
                None => r matches Err(e) && e@ == "backup entry `"@ + entry.relative_path@
                    + "` has no backup file"@,
            },
            BackupKind::Symlink => match entry.backup_name {
                Some(n) => r matches Ok(RestoreStep::Relink { relative_path, backup_name })
                    && relative_path@ == entry.relative_path@ && backup_name@ == n@,
                None => r matches Err(e) && e@ == "backup entry `"@ + entry.relative_path@
                    + "` has no backup file"@,
            },
        },
{
    match validate_relative_path(entry.relative_path.as_str()) {
        Err(e) => {
            return Err(e);
        },
        Ok(()) => {},
    }
    let relative_path = entry.relative_path.clone();
    match entry.kind {
        BackupKind::Missing => Ok(RestoreStep::Remove { relative_path }),
        BackupKind::File => match required_backup_name(entry) {
            Ok(name) => Ok(RestoreStep::CopyBack { relative_path, backup_name: string_from(name) }),
            Err(e) => Err(e),
        },
        BackupKind::Symlink => match required_backup_name(entry) {
            Ok(name) => Ok(RestoreStep::Relink { relative_path, backup_name: string_from(name) }),
            Err(e) => Err(e),
        },
    }
}

/// Each backup kind reads back from its own name.
pub proof fn law_backup_kind_roundtrip(k: BackupKind)
    ensures
        spec_parse_kind(kind_str(k)) == Ok::<BackupKind, Seq<char>>(k),
{
    reveal_strlit("missing");
    reveal_strlit("file");
    reveal_strlit("symlink");
    assert("missing"@ != "file"@) by {
        assert("missing"@.len() != "file"@.len());
    }
    assert("symlink"@ != "file"@) by {
        assert("symlink"@.len() != "file"@.len());
    }
    assert("symlink"@ != "missing"@) by {
        assert("symlink"@[0] != "missing"@[0]);
    }
}

pub open spec fn name_field(e: EntryView) -> Seq<char> {
    match e.backup_name {
        Some(n) => n,
        None => "-"@,
    }
}

/// A manifest line without its line end.
pub open spec fn manifest_body(e: EntryView) -> Seq<char> {
    e.relative_path + "\t"@ + kind_str(e.kind) + "\t"@ + name_field(e)
}

/// The manifest text that writing the entries' lines in order produces.
pub open spec fn manifest_text(es: Seq<EntryView>) -> Seq<char>
    decreases es.len(),
{
    if es.len() == 0 {
        Seq::<char>::empty()
    } else {
        manifest_text(es.drop_last()) + manifest_body(es.last()) + "\n"@
    }
}

/// An entry whose line reads back as itself: no tab or line end in its fields, and no
/// backup name that reads as the `-` placeholder.
pub open spec fn round_trips(e: EntryView) -> bool {
    &&& !e.relative_path.contains('\t')
    &&& !e.relative_path.contains('\n')
    &&& match e.backup_name {
        Some(n) => !n.contains('\t') && !n.contains('\n') && !n.contains('\r') && n != "-"@,
        None => true,
    }
}

proof fn lemma_kind_str_plain(k: BackupKind)
    ensures
        !kind_str(k).contains('\t'),
        !kind_str(k).contains('\n'),
        kind_str(k).len() > 0,
        !crate::text::is_ws(kind_str(k)[0]),
{
    reveal_strlit("missing");
    reveal_strlit("file");
    reveal_strlit("symlink");
}

proof fn lemma_no_char_concat(a: Seq<char>, b: Seq<char>, c: char)
    requires
        !a.contains(c),
        !b.contains(c),
    ensures
        !(a + b).contains(c),
{
    if (a + b).contains(c) {
        let k = choose|k: int| 0 <= k < (a + b).len() && (a + b)[k] == c;
        if k < a.len() {
            assert(a[k] == c);
        } else {
            assert(b[k - a.len()] == c);
        }
    }
}

proof fn lemma_body_split(e: EntryView)
    requires
        round_trips(e),
    ensures
        split_on(manifest_body(e), '\t') == seq![e.relative_path, kind_str(e.kind), name_field(e)],
        !manifest_body(e).contains('\n'),
        manifest_body(e).len() > 0,
        manifest_body(e).last() != '\r',
        !crate::text::all_ws(manifest_body(e)),
{
    reveal_strlit("\t");
    reveal_strlit("-");
    lemma_kind_str_plain(e.kind);
    let a = e.relative_path;
    let k = kind_str(e.kind);
    let n = name_field(e);
    assert(!n.contains('\t') && !n.contains('\n')) by {
        if e.backup_name is None {
            assert(n =~= seq!['-']);
        }
    }
    let t = "\t"@;
    assert(t =~= seq!['\t']);
    crate::text::lemma_split_fold_plain(Seq::<char>::empty(), a, '\t');
    assert(Seq::<char>::empty() + a =~= a);
    crate::text::lemma_split_fold_sep(a, '\t');
    assert(a + t =~= a.push('\t'));
    crate::text::lemma_split_fold_plain(a + t, k, '\t');
    crate::text::lemma_split_fold_sep(a + t + k, '\t');
    assert(a + t + k + t =~= (a + t + k).push('\t'));
    crate::text::lemma_split_fold_plain(a + t + k + t, n, '\t');
    assert(Seq::<char>::empty() + k =~= k);
    assert(Seq::<char>::empty() + n =~= n);
    assert(split_on(manifest_body(e), '\t') =~= seq![a, k, n]);
    let body = manifest_body(e);
    assert(!t.contains('\n')) by {
        if t.contains('\n') {
            let j = choose|j: int| 0 <= j < t.len() && t[j] == '\n';
            assert(t[j] == '\t');
        }
    }
    lemma_no_char_concat(a, t, '\n');
    lemma_no_char_concat(a + t, k, '\n');
    lemma_no_char_concat(a + t + k, t, '\n');
    lemma_no_char_concat(a + t + k + t, n, '\n');
    assert(body[a.len() as int + 1] == k[0]);
    assert(!crate::text::is_ws(body[a.len() as int + 1]));
    if n.len() > 0 {
        assert(body.last() == n.last());
        if e.backup_name is Some {
            assert(n.last() != '\r') by {
                assert(n[n.len() - 1] == n.last());
            }
        } else {
            assert(n =~= seq!['-']);
        }
    } else {
        assert(body.last() == '\t');
    }
}

proof fn lemma_text_split(es: Seq<EntryView>)
    requires
        forall|i: int| 0 <= i < es.len() ==> round_trips(#[trigger] es[i]),
    ensures
        crate::text::split_fold(manifest_text(es), '\n') == (
            es.map_values(|e: EntryView| manifest_body(e)),
            Seq::<char>::empty(),
        ),
    decreases es.len(),
{
    reveal_strlit("\n");
    if es.len() == 0 {
        assert(es.map_values(|e: EntryView| manifest_body(e)) =~= Seq::<Seq<char>>::empty());
    } else {
        let init = es.drop_last();
        assert forall|i: int| 0 <= i < init.len() implies round_trips(#[trigger] init[i]) by {
            assert(init[i] == es[i]);
        }
        lemma_text_split(init);
        let e = es.last();
        assert(round_trips(e)) by {
            assert(es[es.len() - 1] == e);
        }
        lemma_body_split(e);
        let prev = manifest_text(init);
        crate::text::lemma_split_fold_plain(prev, manifest_body(e), '\n');
        assert(Seq::<char>::empty() + manifest_body(e) =~= manifest_body(e));
        assert(prev + manifest_body(e) + "\n"@ =~= (prev + manifest_body(e)).push('\n'));
        crate::text::lemma_split_fold_sep(prev + manifest_body(e), '\n');
        assert(es.map_values(|e: EntryView| manifest_body(e)) =~= init.map_values(
            |e: EntryView| manifest_body(e),
        ).push(manifest_body(e)));
    }
}

proof fn lemma_parse_from(path: Seq<char>, es: Seq<EntryView>, i: nat)
    requires
        i <= es.len(),
        forall|j: int| 0 <= j < es.len() ==> round_trips(#[trigger] es[j]),
    ensures
        spec_parse_lines(path, es.map_values(|e: EntryView| manifest_body(e)), i) == Ok::<
            Seq<EntryView>,
            Seq<char>,
        >(es.skip(i as int)),
    decreases es.len() - i,
{
    let ls = es.map_values(|e: EntryView| manifest_body(e));
    if i == es.len() {
        assert(es.skip(i as int) =~= Seq::<EntryView>::empty());
    } else {
        lemma_parse_from(path, es, i + 1);
        let e = es[i as int];
        assert(round_trips(e));
        lemma_body_split(e);
        law_backup_kind_roundtrip(e.kind);
        reveal_strlit("-");
        assert(ls[i as int] == manifest_body(e));
        assert(name_field(e) == "-"@ <==> e.backup_name is None) by {
            if e.backup_name is None {
                assert(name_field(e) == "-"@);
            }
        }
        assert(spec_parse_line(path, i + 1, ls[i as int]) == Ok::<EntryView, Seq<char>>(e));
        assert(seq![e] + es.skip(i as int + 1) =~= es.skip(i as int));
    }
}

/// A manifest made of the entries' lines, written in order, reads back as exactly
/// those entries, whenever each entry's line can hold it.
pub proof fn law_backup_manifest_roundtrip(path: Seq<char>, es: Seq<EntryView>)
    requires
        forall|i: int| 0 <= i < es.len() ==> round_trips(#[trigger] es[i]),
    ensures
        forall|i: int|
            0 <= i < es.len() ==> spec_manifest_line(#[trigger] es[i]) == Ok::<Seq<char>, Seq<char>>(
                manifest_body(es[i]) + "\n"@,
            ),
        spec_parse_manifest(path, manifest_text(es)) == Ok::<Seq<EntryView>, Seq<char>>(es),
{
    assert forall|i: int| 0 <= i < es.len() implies spec_manifest_line(#[trigger] es[i]) == Ok::<
        Seq<char>,
        Seq<char>,
    >(manifest_body(es[i]) + "\n"@) by {
        let e = es[i];
        assert(round_trips(e));
        reveal_strlit("-");
        if e.backup_name is None {
            assert(name_field(e) =~= seq!['-']);
        }
    }
    lemma_text_split(es);
    let bodies = es.map_values(|e: EntryView| manifest_body(e));
    assert forall|i: int| 0 <= i < bodies.len() implies crate::text::strip_cr(#[trigger] bodies[i])
        == bodies[i] by {
        lemma_body_split(es[i]);
    }
    assert(bodies.map_values(|l: Seq<char>| crate::text::strip_cr(l)) =~= bodies);
    assert(crate::text::spec_lines(manifest_text(es)) == bodies);
    lemma_parse_from(path, es, 0);
    assert(es.skip(0) =~= es);
}

// --- what a restore gives back ---------------------------------------------------------

/// What stands at a path below the root: a file with its content, or a link with its target.
pub enum Node {
    File(Seq<char>),
    Link(Seq<char>),
}

/// The text a node's backup file holds: a file's content, or a link's target.
pub open spec fn node_text(n: Node) -> Seq<char> {
    match n {
        Node::File(c) => c,
        Node::Link(t) => t,
    }
}

/// The manifest entry that backing up path `p` of the tree `fs` records.
pub open spec fn backup_entry(fs: Map<Seq<char>, Node>, p: Seq<char>) -> EntryView {
    if fs.dom().contains(p) {
        EntryView {
            relative_path: p,
            kind: match fs[p] {
                Node::File(_) => BackupKind::File,
                Node::Link(_) => BackupKind::Symlink,
            },
            backup_name: Some(spec_backup_name(p)),
        }
    } else {
        EntryView { relative_path: p, kind: BackupKind::Missing, backup_name: None }
    }
}

/// The backup files, by name, that backing up paths `ps` of `fs` in turn writes.
pub open spec fn backup_store(fs: Map<Seq<char>, Node>, ps: Seq<Seq<char>>) -> Map<Seq<char>, Seq<char>>
    decreases ps.len(),
{
    if ps.len() == 0 {
        Map::empty()
    } else {
        let p = ps.last();
        let st = backup_store(fs, ps.drop_last());
        if fs.dom().contains(p) {
            st.insert(spec_backup_name(p), node_text(fs[p]))
        } else {
            st
        }
    }
}

/// The tree after one restore step, reading backup files from `store`; a link's target is
/// read back trimmed.
pub open spec fn apply_step(fs: Map<Seq<char>, Node>, store: Map<Seq<char>, Seq<char>>, s: StepView) -> Map<
    Seq<char>,
    Node,
> {
    match s {
        StepView::Remove(p) => fs.remove(p),
        StepView::CopyBack(p, n) => fs.insert(p, Node::File(store[n])),
        StepView::Relink(p, n) => fs.insert(p, Node::Link(crate::text::trim(store[n]))),
    }
}

/// Restoring entries `es` in turn to the tree `fs`, or the first entry's error.
pub open spec fn restore_all(fs: Map<Seq<char>, Node>, store: Map<Seq<char>, Seq<char>>, es: Seq<EntryView>) -> Result<
    Map<Seq<char>, Node>,
    Seq<char>,
>
    decreases es.len(),
{
    if es.len() == 0 {
        Ok(fs)
    } else {
        match restore_all(fs, store, es.drop_last()) {
            Err(e) => Err(e),
            Ok(f) => match spec_restore_step(es.last()) {
                Err(e) => Err(e),
                Ok(st) => Ok(apply_step(f, store, st)),
            },
        }
    }
}

/// Path `p` stands the same in both trees.
pub open spec fn same_at(a: Map<Seq<char>, Node>, b: Map<Seq<char>, Node>, p: Seq<char>) -> bool {
    a.dom().contains(p) == b.dom().contains(p) && (a.dom().contains(p) ==> a[p] == b[p])
}

pub open spec fn backup_entries(fs: Map<Seq<char>, Node>, ps: Seq<Seq<char>>) -> Seq<EntryView> {
    ps.map_values(|p: Seq<char>| backup_entry(fs, p))
}

proof fn lemma_store_has(fs: Map<Seq<char>, Node>, ps: Seq<Seq<char>>, i: int)
    requires
        0 <= i < ps.len(),
        fs.dom().contains(ps[i]),
        forall|a: int, b: int| 0 <= a < b < ps.len() ==> spec_backup_name(ps[a]) != spec_backup_name(ps[b]),
    ensures
        backup_store(fs, ps).dom().contains(spec_backup_name(ps[i])),
        backup_store(fs, ps)[spec_backup_name(ps[i])] == node_text(fs[ps[i]]),
    decreases ps.len(),
{
    let init = ps.drop_last();
    if i < ps.len() - 1 {
        assert(init[i] == ps[i]);
        assert forall|a: int, b: int| 0 <= a < b < init.len() implies spec_backup_name(init[a]) != spec_backup_name(
            init[b],
        ) by {
            assert(init[a] == ps[a] && init[b] == ps[b]);
        }
        lemma_store_has(fs, init, i);
        assert(spec_backup_name(ps[i]) != spec_backup_name(ps.last()));
    }
}

/// Restoring the backup of paths `ps` taken from tree `before` gives back, whatever was
/// written since (tree `after`), each backed-up path as it stood: the same file or link,
/// or nothing where nothing stood; every other path stays as it is in `after`. It holds
/// for plain relative paths whose backup names differ and links whose targets have no
/// whitespace at either end.
pub proof fn law_restore_undoes_writes(before: Map<Seq<char>, Node>, after: Map<Seq<char>, Node>, ps: Seq<Seq<char>>)
    requires
        forall|i: int| 0 <= i < ps.len() ==> (#[trigger] ps[i]).len() > 0 && plain_relative(ps[i]),
        forall|a: int, b: int| 0 <= a < b < ps.len() ==> spec_backup_name(ps[a]) != spec_backup_name(ps[b]),
        forall|i: int|
            0 <= i < ps.len() && before.dom().contains(#[trigger] ps[i]) ==> (before[ps[i]] matches Node::Link(t)
                ==> crate::text::trim(t) == t),
    ensures
        restore_all(after, backup_store(before, ps), backup_entries(before, ps)) is Ok,
        forall|i: int|
            0 <= i < ps.len() ==> same_at(
                restore_all(after, backup_store(before, ps), backup_entries(before, ps))->Ok_0,
                before,
                #[trigger] ps[i],
            ),
        forall|q: Seq<char>|
            !ps.contains(q) ==> same_at(
                #[trigger] restore_all(after, backup_store(before, ps), backup_entries(before, ps))->Ok_0,
                after,
                q,
            ),
{
    lemma_restore_prefix(before, after, ps, ps.len() as int);
    assert(backup_entries(before, ps).take(ps.len() as int) =~= backup_entries(before, ps));
    assert(ps.take(ps.len() as int) =~= ps);
}

proof fn lemma_restore_prefix(before: Map<Seq<char>, Node>, after: Map<Seq<char>, Node>, ps: Seq<Seq<char>>, k: int)
    requires
        0 <= k <= ps.len(),
        forall|i: int| 0 <= i < ps.len() ==> (#[trigger] ps[i]).len() > 0 && plain_relative(ps[i]),
        forall|a: int, b: int| 0 <= a < b < ps.len() ==> spec_backup_name(ps[a]) != spec_backup_name(ps[b]),
        forall|i: int|
            0 <= i < ps.len() && before.dom().contains(#[trigger] ps[i]) ==> (before[ps[i]] matches Node::Link(t)
                ==> crate::text::trim(t) == t),
    ensures
        restore_all(after, backup_store(before, ps), backup_entries(before, ps).take(k)) is Ok,
        forall|i: int|
            0 <= i < k ==> same_at(
                restore_all(after, backup_store(before, ps), backup_entries(before, ps).take(k))->Ok_0,
                before,
                #[trigger] ps[i],
            ),
        forall|q: Seq<char>|
            !ps.take(k).contains(q) ==> same_at(
                #[trigger] restore_all(after, backup_store(before, ps), backup_entries(before, ps).take(k))->Ok_0,
                after,
                q,
            ),
    decreases k,
{
    let store = backup_store(before, ps);
    let es = backup_entries(before, ps);
    if k == 0 {
        assert(es.take(0) =~= Seq::<EntryView>::empty());
        assert forall|q: Seq<char>| !ps.take(0).contains(q) implies same_at(
            #[trigger] restore_all(after, store, es.take(0))->Ok_0,
            after,
            q,
        ) by {}
    } else {
        lemma_restore_prefix(before, after, ps, k - 1);
        let p = ps[k - 1];
        assert(es.take(k).drop_last() =~= es.take(k - 1));
        assert(es.take(k).last() == backup_entry(before, p));
        let prev = restore_all(after, store, es.take(k - 1))->Ok_0;
        let e = backup_entry(before, p);
        assert(p.len() > 0 && plain_relative(p));
        let st = spec_restore_step(e)->Ok_0;
        let next = apply_step(prev, store, st);
        assert(restore_all(after, store, es.take(k)) == Ok::<Map<Seq<char>, Node>, Seq<char>>(next));
        if before.dom().contains(p) {
            lemma_store_has(before, ps, k - 1);
        }
        assert(same_at(next, before, p)) by {
            if before.dom().contains(p) {
                match before[p] {
                    Node::File(c) => {},
                    Node::Link(t) => {},
                }
            }
        }
        assert forall|i: int| 0 <= i < k implies same_at(next, before, #[trigger] ps[i]) by {
            if i < k - 1 {
                assert(ps[i] != p) by {
                    if ps[i] == p {
                        assert(spec_backup_name(ps[i]) == spec_backup_name(ps[k - 1]));
                    }
                }
                assert(same_at(prev, before, ps[i]));
            }
        }
        assert forall|q: Seq<char>| !ps.take(k).contains(q) implies same_at(
            #[trigger] restore_all(after, store, es.take(k))->Ok_0,
            after,
            q,
        ) by {
            let pk = ps.take(k);
            let pk1 = ps.take(k - 1);
            assert(pk[k - 1] == p);
            assert(q != p);
            if pk1.contains(q) {
                let j = choose|j: int| 0 <= j < pk1.len() && pk1[j] == q;
                assert(pk[j] == q);
            }
            assert(same_at(prev, after, q));
        }
    }
}

} // verus!
