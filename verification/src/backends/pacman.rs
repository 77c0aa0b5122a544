// pacman package queries, package operations and their log.

use vstd::prelude::*;

use crate::config::types::views_of;
use crate::process::command::CommandOutput;
use crate::strmap::StrSet;
use crate::text::{lines_of, push_str, spec_lines, string_from, trim, trim_str};

verus! {

#[derive(Debug, Clone, Copy, PartialEq, Eq, Structural)]
pub enum PackageBackend {
    Pacman,
    Aur,
    Nix,
}

pub open spec fn backend_str(b: PackageBackend) -> Seq<char> {
    match b {
        PackageBackend::Pacman => "pacman"@,
        PackageBackend::Aur => "aur"@,
        PackageBackend::Nix => "nix"@,
    }
}

impl PackageBackend {
    pub fn as_str(self) -> (s: &'static str)
        ensures
            s@ == backend_str(self),
    {
        match self {
            PackageBackend::Pacman => "pacman",
            PackageBackend::Aur => "aur",
            PackageBackend::Nix => "nix",
        }
    }
}

#[derive(Debug, Clone, Copy, PartialEq, Eq, Structural)]
pub enum PackageAction {
    EnsureInstalled,
}

pub open spec fn package_action_str(a: PackageAction) -> Seq<char> {
    match a {
        PackageAction::EnsureInstalled => "ensure-installed"@,
    }
}

impl PackageAction {
    pub fn as_str(self) -> (s: &'static str)
        ensures
            s@ == package_action_str(self),
    {
        match self {
            PackageAction::EnsureInstalled => "ensure-installed",
        }
    }
}

/// One package change to carry out.
#[derive(Debug)]
pub struct PackageOperation {
    pub backend: PackageBackend,
    pub action: PackageAction,
    pub package: String,
}

pub struct PackageOperationView {
    pub backend: PackageBackend,
    pub action: PackageAction,
    pub package: Seq<char>,
}

impl View for PackageOperation {
    type V = PackageOperationView;

    open spec fn view(&self) -> PackageOperationView {
        PackageOperationView { backend: self.backend, action: self.action, package: self.package@ }
    }
}

/// Something that installs packages.
pub trait PackageExecutor {
    fn ensure_installed(&mut self, backend: PackageBackend, package: &str) -> Result<(), String>;
}

/// An executor that only records what it was asked to do.
#[derive(Debug)]
pub struct RecordingPackageExecutor {
    operations: Vec<PackageOperation>,
}

impl RecordingPackageExecutor {
    pub closed spec fn recorded(&self) -> Seq<PackageOperationView> {
        views_of(self.operations@)
    }

    pub fn new() -> (e: Self)
        ensures
            e.recorded() == Seq::<PackageOperationView>::empty(),
    {
        let e = RecordingPackageExecutor { operations: Vec::new() };
        assert(views_of(e.operations@) =~= Seq::<PackageOperationView>::empty());
        e
    }

    /// The operations recorded, in the order they were asked for.
    pub fn operations(&self) -> (ops: &[PackageOperation])
        ensures
            views_of(ops@) == self.recorded(),
    {
        self.operations.as_slice()
    }
}

impl Default for RecordingPackageExecutor {
    fn default() -> (e: Self)
        ensures
            e.recorded() == Seq::<PackageOperationView>::empty(),
    {
        RecordingPackageExecutor::new()
    }
}

impl PackageExecutor for RecordingPackageExecutor {
    fn ensure_installed(&mut self, backend: PackageBackend, package: &str) -> (r: Result<(), String>)
        ensures
            r is Ok,
            final(self).recorded() == old(self).recorded().push(
                PackageOperationView {
                    backend,
                    action: PackageAction::EnsureInstalled,
                    package: package@,
                },
            ),
    {
        let ghost r0 = views_of(self.operations@);
        let op = PackageOperation {
            backend,
            action: PackageAction::EnsureInstalled,
            package: string_from(package),
        };
        let ghost ov = op@;
        self.operations.push(op);
        assert(views_of(self.operations@) =~= r0.push(ov));
        Ok(())
    }
}

/// `<backend> <action> <package>` per operation.
pub open spec fn operations_log(ops: Seq<PackageOperationView>) -> Seq<char>
    decreases ops.len(),
{
    if ops.len() == 0 {
        Seq::<char>::empty()
    } else {
        let o = ops.last();
        operations_log(ops.drop_last()) + backend_str(o.backend) + " "@ + package_action_str(o.action)
            + " "@ + o.package + "\n"@
    }
}

/// The text of the package operations log.
pub fn render_package_operations_log(operations: &[PackageOperation]) -> (out: String)
    ensures
        out@ == operations_log(views_of(operations@)),
{
    let ghost ops = views_of(operations@);
    let mut out = String::new();
    let mut i: usize = 0;
    assert(ops.take(0) =~= Seq::<PackageOperationView>::empty());
    while i < operations.len()
        invariant
            i <= operations.len(),
            ops == views_of(operations@),
            out@ == operations_log(ops.take(i as int)),
        decreases operations.len() - i,
    {
        assert(ops.take(i + 1).drop_last() =~= ops.take(i as int));
        assert(ops.take(i + 1).last() == operations@[i as int]@);
        let op = &operations[i];
        push_str(&mut out, op.backend.as_str());
        push_str(&mut out, " ");
        push_str(&mut out, op.action.as_str());
        push_str(&mut out, " ");
        push_str(&mut out, op.package.as_str());
        push_str(&mut out, "\n");
        assert(out@ =~= operations_log(ops.take(i + 1)));
        i += 1;
    }
    assert(ops.take(operations.len() as int) =~= ops);
    out
}

/// The package names listed one per line, blank lines skipped.
pub open spec fn listed_names(ls: Seq<Seq<char>>) -> Seq<Seq<char>>
    decreases ls.len(),
{
    if ls.len() == 0 {
        Seq::<Seq<char>>::empty()
    } else {
        listed_names(ls.drop_last()) + if trim(ls.last()).len() == 0 {
            Seq::<Seq<char>>::empty()
        } else {
            seq![trim(ls.last())]
        }
    }
}

/// The installed packages that `pacman -Qq` listed, or none when the query failed.
pub fn read_installed_packages(output: Result<CommandOutput, String>) -> (installed: StrSet)
    ensures
        installed.wf(),
        forall|p: Seq<char>| #[trigger] installed.has(p) <==> match output {
            Ok(o) => o.status_code == Some(0i32) && listed_names(spec_lines(o.stdout@)).contains(p),
            Err(_) => false,
        },
{
    let mut installed = StrSet::new();
    let out = match output {
        Ok(o) => o,
        Err(_) => {
            return installed;
        },
    };
    if !out.succeeded() {
        return installed;
    }
    let lines = lines_of(out.stdout.as_str());
    let ghost ls = lines@.map_values(|x: String| x@);
    let mut i: usize = 0;
    assert(ls.take(0) =~= Seq::<Seq<char>>::empty());
    while i < lines.len()
        invariant
            i <= lines.len(),
            ls == lines@.map_values(|x: String| x@),
            installed.wf(),
            forall|p: Seq<char>| #[trigger] installed.has(p) <==> listed_names(ls.take(i as int)).contains(p),
        decreases lines.len() - i,
    {
        assert(ls.take(i + 1).drop_last() =~= ls.take(i as int));
        assert(ls.take(i + 1).last() == lines@[i as int]@);
        let name = trim_str(lines[i].as_str());
        let ghost prev = listed_names(ls.take(i as int));
        if name.as_str().len() > 0 || !name.as_str().is_empty() {
            let ghost nv = name@;
            let ghost before = installed;
            assert(forall|p: Seq<char>| #[trigger] before.has(p) <==> prev.contains(p));
            installed.insert(name);
            assert(listed_names(ls.take(i + 1)) =~= prev + seq![nv]);
            assert(listed_names(ls.take(i + 1)) =~= prev.push(nv));
            assert forall|p: Seq<char>| #[trigger] installed.has(p) <==> listed_names(ls.take(i + 1)).contains(p) by {
                crate::text::lemma_contains_push(prev, nv, p);
                assert(before.has(p) <==> prev.contains(p));
            }
        } else {
            assert(listed_names(ls.take(i + 1)) =~= prev);
        }
        i += 1;
    }
    assert(ls.take(lines.len() as int) =~= ls);
    installed
}

/// How resolving a backend's install transaction came out.
#[derive(Debug)]
pub struct PackageTransaction {
    pub status: String,
    pub message: String,
}

impl PackageTransaction {
    /// A transaction that was not resolved, and why.
    pub fn skipped(message: &str) -> (t: Self)
        ensures
            t.status@ == "skipped"@,
            t.message@ == message@,
    {
        PackageTransaction { status: string_from("skipped"), message: string_from(message) }
    }
}

/// How many of `packages` are not blank.
pub open spec fn requested_count(packages: Seq<Seq<char>>) -> nat
    decreases packages.len(),
{
    if packages.len() == 0 {
        0
    } else {
        requested_count(packages.drop_last()) + if trim(packages.last()).len() == 0 {
            0nat
        } else {
            1nat
        }
    }
}

/// Whether any of `packages` is not blank.
pub fn any_requested(packages: &Vec<String>) -> (b: bool)
    ensures
        b == (requested_count(crate::config::types::strings_view(packages@)) > 0),
{
    let ghost ps = crate::config::types::strings_view(packages@);
    let mut any = false;
    let mut i: usize = 0;
    assert(ps.take(0) =~= Seq::<Seq<char>>::empty());
    while i < packages.len()
        invariant
            i <= packages.len(),
            ps == crate::config::types::strings_view(packages@),
            any == (requested_count(ps.take(i as int)) > 0),
        decreases packages.len() - i,
    {
        assert(ps.take(i + 1).drop_last() =~= ps.take(i as int));
        assert(ps.take(i + 1).last() == packages@[i as int]@);
        let t = trim_str(packages[i].as_str());
        if !t.as_str().is_empty() {
            any = true;
        }
        i += 1;
    }
    assert(ps.take(packages.len() as int) =~= ps);
    any
}

/// Resolves the pacman install transaction for `packages`; no pacman resolution runs
/// here, so it is skipped, with a message that says whether anything was requested.
pub fn resolve_pacman_install_transaction(packages: &Vec<String>) -> (r: Result<PackageTransaction, String>)
    ensures
        r matches Ok(t) && t.status@ == "skipped"@ && t.message@ == if requested_count(
            crate::config::types::strings_view(packages@),
        ) == 0 {
            "no pacman packages requested"@
        } else {
            "pacman transaction resolution is not implemented yet"@
        },
{
    if !any_requested(packages) {
        return Ok(PackageTransaction::skipped("no pacman packages requested"));
    }
    Ok(PackageTransaction::skipped("pacman transaction resolution is not implemented yet"))
}

} // verus!
