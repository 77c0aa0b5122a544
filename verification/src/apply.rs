// Apply pipeline decisions: executor modes, planned actions, and the policies that
// guard a real apply.

use vstd::prelude::*;

use crate::backends::pacman::{
    PackageAction, PackageBackend, PackageExecutor, PackageOperationView, RecordingPackageExecutor,
};
use crate::config::types::{strings_view, views_of, BasaltConfig, ConfigView};
use crate::paths::{is_plain_relative, is_root_path, plain_relative, root_path};
use crate::planning::action::{plan_actions, spec_has_action, spec_plan_actions, Action, ActionView};
use crate::state::db::{PackageIntent, ServiceIntent, StateDbArtifacts};
use crate::state::store::CurrentState;
use crate::system::services::{
    RecordingServiceExecutor, ServiceAction, ServiceExecutor, ServiceOperationView,
};
use crate::text::{
    cat2, cat3, push_str, seq_starts_with, str_eq, string_from, strip_prefix, trim,
    trim_start_char, trim_start_matches, trim_str,
};

verus! {

/// How service changes are carried out: recorded only, or run on the host.
#[derive(Debug, Clone, Copy, PartialEq, Eq, Structural)]
pub enum ServiceExecutorMode {
    Record,
    Host,
}

/// How package changes are carried out: recorded only, or run on the host.
#[derive(Debug, Clone, Copy, PartialEq, Eq, Structural)]
pub enum PackageExecutorMode {
    Record,
    Host,
}

pub open spec fn spec_parse_package_mode(value: Seq<char>) -> Result<PackageExecutorMode, Seq<char>> {
    if value == "record"@ {
        Ok(PackageExecutorMode::Record)
    } else if value == "host"@ {
        Ok(PackageExecutorMode::Host)
    } else {
        Err("unknown package executor `"@ + value + "`; expected `record` or `host`"@)
    }
}

pub open spec fn spec_parse_service_mode(value: Seq<char>) -> Result<ServiceExecutorMode, Seq<char>> {
    if value == "record"@ {
        Ok(ServiceExecutorMode::Record)
    } else if value == "host"@ {
        Ok(ServiceExecutorMode::Host)
    } else {
        Err("unknown service executor `"@ + value + "`; expected `record` or `host`"@)
    }
}

impl PackageExecutorMode {
    /// `record` or `host`.
    pub fn parse(value: &str) -> (r: Result<Self, String>)
        ensures
            match r {
                Ok(m) => spec_parse_package_mode(value@) == Ok::<PackageExecutorMode, Seq<char>>(m),
                Err(e) => spec_parse_package_mode(value@) == Err::<PackageExecutorMode, Seq<char>>(e@),
            },
    {
        if str_eq(value, "record") {
            Ok(PackageExecutorMode::Record)
        } else if str_eq(value, "host") {
            Ok(PackageExecutorMode::Host)
        } else {
            Err(cat3("unknown package executor `", value, "`; expected `record` or `host`"))
        }
    }
}

impl ServiceExecutorMode {
    /// `record` or `host`.
    pub fn parse(value: &str) -> (r: Result<Self, String>)
        ensures
            match r {
                Ok(m) => spec_parse_service_mode(value@) == Ok::<ServiceExecutorMode, Seq<char>>(m),
                Err(e) => spec_parse_service_mode(value@) == Err::<ServiceExecutorMode, Seq<char>>(e@),
            },
    {
        if str_eq(value, "record") {
            Ok(ServiceExecutorMode::Record)
        } else if str_eq(value, "host") {
            Ok(ServiceExecutorMode::Host)
        } else {
            Err(cat3("unknown service executor `", value, "`; expected `record` or `host`"))
        }
    }
}

/// The actions a dry run reports: the plan for `config` against `current`.
pub fn dry_run_actions(config: &BasaltConfig, current: &CurrentState) -> (actions: Vec<Action>)
    ensures
        crate::config::types::views_of(actions@) == spec_plan_actions(config@, current@),
{
    plan_actions(config, current)
}


/// Whether an action with id `id` is planned.
pub fn has_action(actions: &[Action], id: &str) -> (b: bool)
    ensures
        b == spec_has_action(views_of(actions@), id@),
{
    let ghost acts = views_of(actions@);
    let mut i: usize = 0;
    while i < actions.len()
        invariant
            i <= actions.len(),
            acts == views_of(actions@),
            forall|j: int| 0 <= j < i ==> #[trigger] acts[j].id != id@,
        decreases actions.len() - i,
    {
        assert(acts[i as int] == actions@[i as int]@);
        if str_eq(actions[i].id.as_str(), id) {
            assert(acts[i as int].id == id@);
            return true;
        }
        i += 1;
    }
    false
}

/// The path below the target root that a managed file's path names: trimmed, leading
/// slashes dropped, and refused unless only plain components remain.
pub open spec fn spec_managed_relative(path: Seq<char>) -> Result<Seq<char>, Seq<char>> {
    let p = trim(path);
    if p.len() == 0 {
        Err("managed file path cannot be empty"@)
    } else if !plain_relative(trim_start_char(p, '/')) {
        Err("managed file path `"@ + p + "` must stay inside the target root"@)
    } else {
        Ok(trim_start_char(p, '/'))
    }
}

pub fn managed_file_relative_path(path: &str) -> (r: Result<String, String>)
    ensures
        match r {
            Ok(p) => spec_managed_relative(path@) == Ok::<Seq<char>, Seq<char>>(p@),
            Err(e) => spec_managed_relative(path@) == Err::<Seq<char>, Seq<char>>(e@),
        },
{
    let trimmed = trim_str(path);
    if trimmed.as_str().is_empty() {
        return Err(string_from("managed file path cannot be empty"));
    }
    let relative = trim_start_matches(trimmed.as_str(), '/');
    if !is_plain_relative(relative.as_str()) {
        return Err(cat3("managed file path `", trimmed.as_str(), "` must stay inside the target root"));
    }
    Ok(relative)
}

/// Whether some planned action is of domain `packages`.
pub open spec fn touches_packages(acts: Seq<ActionView>) -> bool {
    exists|i: int| 0 <= i < acts.len() && #[trigger] acts[i].domain == "packages"@
}

/// Whether some planned action installs an AUR or Nix package.
pub open spec fn touches_aur_or_nix(acts: Seq<ActionView>) -> bool {
    exists|i: int|
        0 <= i < acts.len() && (seq_starts_with(#[trigger] acts[i].id, "packages.aur."@)
            || seq_starts_with(acts[i].id, "packages.nix."@))
}

/// Whether the package executor may run for these actions on this root.
pub open spec fn spec_package_policy(acts: Seq<ActionView>, root_dir: Seq<char>, mode: PackageExecutorMode) -> Result<
    (),
    Seq<char>,
> {
    if mode == PackageExecutorMode::Record || !touches_packages(acts) {
        Ok(())
    } else if !root_path(root_dir) {
        Err("`--package-executor host` requires `--root /`"@)
    } else if touches_aur_or_nix(acts) {
        Err(
            "`--package-executor host` currently supports pacman packages only; AUR and Nix host execution are not implemented yet"@,
        )
    } else {
        Ok(())
    }
}

pub fn validate_package_executor_policy(actions: &[Action], root_dir: &str, mode: PackageExecutorMode) -> (r:
    Result<(), String>)
    ensures
        match r {
            Ok(()) => spec_package_policy(views_of(actions@), root_dir@, mode) == Ok::<(), Seq<char>>(()),
            Err(e) => spec_package_policy(views_of(actions@), root_dir@, mode) == Err::<(), Seq<char>>(e@),
        },
{
    let ghost acts = views_of(actions@);
    if mode == PackageExecutorMode::Record {
        return Ok(());
    }
    let mut packages = false;
    let mut other_backend = false;
    let mut i: usize = 0;
    while i < actions.len()
        invariant
            i <= actions.len(),
            acts == views_of(actions@),
            packages == exists|j: int| 0 <= j < i && #[trigger] acts[j].domain == "packages"@,
            other_backend == exists|j: int|
                0 <= j < i && (seq_starts_with(#[trigger] acts[j].id, "packages.aur."@)
                    || seq_starts_with(acts[j].id, "packages.nix."@)),
        decreases actions.len() - i,
    {
        let a = &actions[i];
        assert(acts[i as int] == a@);
        let is_package = str_eq(a.domain.as_str(), "packages");
        let is_other = crate::text::starts_with(a.id.as_str(), "packages.aur.")
            || crate::text::starts_with(a.id.as_str(), "packages.nix.");
        proof {
            assert(is_package == (acts[i as int].domain == "packages"@));
            assert(is_other == (seq_starts_with(acts[i as int].id, "packages.aur."@) || seq_starts_with(
                acts[i as int].id,
                "packages.nix."@,
            )));
        }
        packages = packages || is_package;
        other_backend = other_backend || is_other;
        i += 1;
    }
    if !packages {
        return Ok(());
    }
    if !is_root_path(root_dir) {
        return Err(string_from("`--package-executor host` requires `--root /`"));
    }
    if other_backend {
        return Err(
            string_from(
                "`--package-executor host` currently supports pacman packages only; AUR and Nix host execution are not implemented yet",
            ),
        );
    }
    Ok(())
}

/// Domains a real apply has executors for.
pub open spec fn supported_domain(d: Seq<char>) -> bool {
    d == "system"@ || d == "files"@ || d == "services"@ || d == "packages"@
}

/// The ids of the actions a real apply cannot carry out.
pub open spec fn unsupported_ids(acts: Seq<ActionView>) -> Seq<Seq<char>>
    decreases acts.len(),
{
    if acts.len() == 0 {
        Seq::<Seq<char>>::empty()
    } else {
        unsupported_ids(acts.drop_last()) + if supported_domain(acts.last().domain) {
            Seq::<Seq<char>>::empty()
        } else {
            seq![acts.last().id]
        }
    }
}

pub open spec fn id_lines(ids: Seq<Seq<char>>) -> Seq<char>
    decreases ids.len(),
{
    if ids.len() == 0 {
        Seq::<char>::empty()
    } else {
        id_lines(ids.drop_last()) + "\n- "@ + ids.last()
    }
}

/// Whether a real apply may start: host services need the real root, the package
/// policy must hold, and every action must have an executor.
pub open spec fn spec_apply_precheck(
    acts: Seq<ActionView>,
    root_dir: Seq<char>,
    package_executor: PackageExecutorMode,
    service_executor: ServiceExecutorMode,
) -> Result<(), Seq<char>> {
    if service_executor == ServiceExecutorMode::Host && !root_path(root_dir) {
        Err("`--service-executor host` requires `--root /`"@)
    } else {
        match spec_package_policy(acts, root_dir, package_executor) {
            Err(e) => Err(e),
            Ok(()) => if unsupported_ids(acts).len() > 0 {
                Err(
                    "real apply has no executor for these actions yet:"@ + id_lines(
                        unsupported_ids(acts),
                    ) + "\nRun `basalt apply --dry-run` for the full plan."@,
                )
            } else {
                Ok(())
            },
        }
    }
}

pub fn check_apply_plan(
    actions: &[Action],
    root_dir: &str,
    package_executor: PackageExecutorMode,
    service_executor: ServiceExecutorMode,
) -> (r: Result<(), String>)
    ensures
        match r {
            Ok(()) => spec_apply_precheck(views_of(actions@), root_dir@, package_executor, service_executor)
                == Ok::<(), Seq<char>>(()),
            Err(e) => spec_apply_precheck(views_of(actions@), root_dir@, package_executor, service_executor)
                == Err::<(), Seq<char>>(e@),
        },
{
    if service_executor == ServiceExecutorMode::Host && !is_root_path(root_dir) {
        return Err(string_from("`--service-executor host` requires `--root /`"));
    }
    match validate_package_executor_policy(actions, root_dir, package_executor) {
        Err(e) => {
            return Err(e);
        },
        Ok(()) => {},
    }
    let ghost acts = views_of(actions@);
    let mut lines = String::new();
    let mut any = false;
    let mut i: usize = 0;
    assert(acts.take(0) =~= Seq::<ActionView>::empty());
    while i < actions.len()
        invariant
            i <= actions.len(),
            acts == views_of(actions@),
            lines@ == id_lines(unsupported_ids(acts.take(i as int))),
            any == (unsupported_ids(acts.take(i as int)).len() > 0),
        decreases actions.len() - i,
    {
        assert(acts.take(i + 1).drop_last() =~= acts.take(i as int));
        assert(acts.take(i + 1).last() == actions@[i as int]@);
        let d = actions[i].domain.as_str();
        if !(str_eq(d, "system") || str_eq(d, "files") || str_eq(d, "services") || str_eq(d, "packages")) {
            let ghost l0 = lines@;
            push_str(&mut lines, "\n- ");
            push_str(&mut lines, actions[i].id.as_str());
            any = true;
            proof {
                let ids0 = unsupported_ids(acts.take(i as int));
                let ids1 = unsupported_ids(acts.take(i + 1));
                assert(ids1 =~= ids0.push(actions@[i as int].id@));
                assert(ids1.drop_last() =~= ids0);
                assert(id_lines(ids1) == id_lines(ids0) + "\n- "@ + actions@[i as int].id@);
                assert(lines@ =~= l0 + "\n- "@ + actions@[i as int].id@);
            }
        } else {
            assert(unsupported_ids(acts.take(i + 1)) =~= unsupported_ids(acts.take(i as int)));
        }
        i += 1;
    }
    assert(acts.take(actions.len() as int) =~= acts);
    if any {
        let mut message = string_from("real apply has no executor for these actions yet:");
        push_str(&mut message, lines.as_str());
        push_str(&mut message, "\nRun `basalt apply --dry-run` for the full plan.");
        return Err(message);
    }
    Ok(())
}

pub open spec fn backend_of(id: Seq<char>) -> Option<(PackageBackend, Seq<char>)> {
    if seq_starts_with(id, "packages.pacman."@) {
        Some((PackageBackend::Pacman, id.skip(16)))
    } else if seq_starts_with(id, "packages.aur."@) {
        Some((PackageBackend::Aur, id.skip(13)))
    } else if seq_starts_with(id, "packages.nix."@) {
        Some((PackageBackend::Nix, id.skip(13)))
    } else {
        None
    }
}

/// The package operations that the planned actions ask for, in order.
pub open spec fn package_ops(acts: Seq<ActionView>) -> Seq<PackageOperationView>
    decreases acts.len(),
{
    if acts.len() == 0 {
        Seq::<PackageOperationView>::empty()
    } else {
        package_ops(acts.drop_last()) + match backend_of(acts.last().id) {
            Some((b, p)) => seq![
                PackageOperationView { backend: b, action: PackageAction::EnsureInstalled, package: p },
            ],
            None => Seq::<PackageOperationView>::empty(),
        }
    }
}

/// Hands each package action to the recording executor, in order.
pub fn apply_package_actions(actions: &[Action], executor: &mut RecordingPackageExecutor) -> (r: Result<
    (),
    String,
>)
    ensures
        r is Ok,
        final(executor).recorded() == old(executor).recorded() + package_ops(views_of(actions@)),
{
    let ghost acts = views_of(actions@);
    let ghost r0 = executor.recorded();
    let mut i: usize = 0;
    assert(r0 + package_ops(acts.take(0)) =~= r0);
    while i < actions.len()
        invariant
            i <= actions.len(),
            acts == views_of(actions@),
            executor.recorded() == r0 + package_ops(acts.take(i as int)),
        decreases actions.len() - i,
    {
        assert(acts.take(i + 1).drop_last() =~= acts.take(i as int));
        assert(acts.take(i + 1).last() == actions@[i as int]@);
        proof {
            reveal_strlit("packages.pacman.");
            reveal_strlit("packages.aur.");
            reveal_strlit("packages.nix.");
        }
        let id = actions[i].id.as_str();
        assert(package_ops(acts.take(i + 1)) == package_ops(acts.take(i as int)) + match backend_of(id@) {
            Some((b, p)) => seq![
                PackageOperationView { backend: b, action: PackageAction::EnsureInstalled, package: p },
            ],
            None => Seq::<PackageOperationView>::empty(),
        });
        if let Some(package) = strip_prefix(id, "packages.pacman.") {
            assert(backend_of(id@) == Some((PackageBackend::Pacman, package@)));
            let _ = executor.ensure_installed(PackageBackend::Pacman, package.as_str());
        } else if let Some(package) = strip_prefix(id, "packages.aur.") {
            assert(backend_of(id@) == Some((PackageBackend::Aur, package@)));
            let _ = executor.ensure_installed(PackageBackend::Aur, package.as_str());
        } else if let Some(package) = strip_prefix(id, "packages.nix.") {
            assert(backend_of(id@) == Some((PackageBackend::Nix, package@)));
            let _ = executor.ensure_installed(PackageBackend::Nix, package.as_str());
        } else {
            assert(backend_of(id@) is None);
        }
        assert(executor.recorded() =~= r0 + package_ops(acts.take(i + 1)));
        i += 1;
    }
    assert(acts.take(actions.len() as int) =~= acts);
    Ok(())
}

pub open spec fn service_of(id: Seq<char>) -> Option<(ServiceAction, Seq<char>)> {
    if seq_starts_with(id, "services.enable."@) {
        Some((ServiceAction::Enable, id.skip(16)))
    } else if seq_starts_with(id, "services.disable."@) {
        Some((ServiceAction::Disable, id.skip(17)))
    } else {
        None
    }
}

/// The service operations that the planned actions ask for, in order.
pub open spec fn service_ops(acts: Seq<ActionView>) -> Seq<ServiceOperationView>
    decreases acts.len(),
{
    if acts.len() == 0 {
        Seq::<ServiceOperationView>::empty()
    } else {
        service_ops(acts.drop_last()) + match service_of(acts.last().id) {
            Some((a, s)) => seq![ServiceOperationView { action: a, service: s }],
            None => Seq::<ServiceOperationView>::empty(),
        }
    }
}

/// The service operations of the plan, recorded in order.
pub fn record_service_operations(actions: &[Action]) -> (executor: RecordingServiceExecutor)
    ensures
        executor.recorded() == service_ops(views_of(actions@)),
{
    let ghost acts = views_of(actions@);
    let mut executor = RecordingServiceExecutor::new();
    let mut i: usize = 0;
    assert(acts.take(0) =~= Seq::<ActionView>::empty());
    while i < actions.len()
        invariant
            i <= actions.len(),
            acts == views_of(actions@),
            executor.recorded() == service_ops(acts.take(i as int)),
        decreases actions.len() - i,
    {
        assert(acts.take(i + 1).drop_last() =~= acts.take(i as int));
        assert(acts.take(i + 1).last() == actions@[i as int]@);
        proof {
            reveal_strlit("services.enable.");
            reveal_strlit("services.disable.");
        }
        let id = actions[i].id.as_str();
        if let Some(service) = strip_prefix(id, "services.enable.") {
            assert(service_of(id@) == Some((ServiceAction::Enable, service@)));
            let _ = executor.enable(service.as_str());
        } else if let Some(service) = strip_prefix(id, "services.disable.") {
            assert(service_of(id@) == Some((ServiceAction::Disable, service@)));
            let _ = executor.disable(service.as_str());
        } else {
            assert(service_of(id@) is None);
        }
        assert(executor.recorded() =~= service_ops(acts.take(i + 1)));
        i += 1;
    }
    assert(acts.take(actions.len() as int) =~= acts);
    executor
}

/// The ids after `prefix` of the actions whose ids start with it, in order.
pub open spec fn ids_after(acts: Seq<ActionView>, prefix: Seq<char>) -> Seq<Seq<char>>
    decreases acts.len(),
{
    if acts.len() == 0 {
        Seq::<Seq<char>>::empty()
    } else {
        ids_after(acts.drop_last(), prefix) + if seq_starts_with(acts.last().id, prefix) {
            seq![acts.last().id.skip(prefix.len() as int)]
        } else {
            Seq::<Seq<char>>::empty()
        }
    }
}

/// The packages that the actions for one backend name.
pub fn packages_for_backend(actions: &[Action], prefix: &str) -> (packages: Vec<String>)
    ensures
        strings_view(packages@) == ids_after(views_of(actions@), prefix@),
{
    let ghost acts = views_of(actions@);
    let mut packages: Vec<String> = Vec::new();
    let mut i: usize = 0;
    assert(acts.take(0) =~= Seq::<ActionView>::empty());
    assert(strings_view(packages@) =~= Seq::<Seq<char>>::empty());
    while i < actions.len()
        invariant
            i <= actions.len(),
            acts == views_of(actions@),
            strings_view(packages@) == ids_after(acts.take(i as int), prefix@),
        decreases actions.len() - i,
    {
        assert(acts.take(i + 1).drop_last() =~= acts.take(i as int));
        assert(acts.take(i + 1).last() == actions@[i as int]@);
        let ghost p0 = packages@;
        match strip_prefix(actions[i].id.as_str(), prefix) {
            Some(rest) => {
                let ghost rv = rest@;
                packages.push(rest);
                assert(strings_view(packages@) =~= strings_view(p0).push(rv));
            },
            None => {},
        }
        assert(strings_view(packages@) =~= ids_after(acts.take(i + 1), prefix@));
        i += 1;
    }
    assert(acts.take(actions.len() as int) =~= acts);
    packages
}

pub struct IntentView {
    pub backend: PackageBackend,
    pub package: Seq<char>,
}

pub open spec fn intents_for(b: PackageBackend, ps: Seq<Seq<char>>) -> Seq<IntentView> {
    ps.map_values(|p: Seq<char>| IntentView { backend: b, package: p })
}

/// The declared packages, pacman first, then AUR, then Nix.
pub open spec fn spec_package_intent(c: ConfigView) -> Seq<IntentView> {
    match c.packages {
        Some(p) => intents_for(PackageBackend::Pacman, p.pacman) + intents_for(
            PackageBackend::Aur,
            p.aur,
        ) + intents_for(PackageBackend::Nix, p.nix),
        None => Seq::<IntentView>::empty(),
    }
}

pub open spec fn intent_views(v: Seq<PackageIntent>) -> Seq<IntentView> {
    v.map_values(|i: PackageIntent| IntentView { backend: i.backend, package: i.package@ })
}

fn push_intents(intent: &mut Vec<PackageIntent>, backend: PackageBackend, packages: &Vec<String>)
    ensures
        intent_views(final(intent)@) == intent_views(old(intent)@) + intents_for(
            backend,
            strings_view(packages@),
        ),
{
    let ghost i0 = intent_views(intent@);
    let ghost ps = strings_view(packages@);
    let mut i: usize = 0;
    assert(i0 + intents_for(backend, ps.take(0)) =~= i0);
    while i < packages.len()
        invariant
            i <= packages.len(),
            ps == strings_view(packages@),
            intent_views(intent@) == i0 + intents_for(backend, ps.take(i as int)),
        decreases packages.len() - i,
    {
        let ghost b0 = intent_views(intent@);
        let p = packages[i].clone();
        assert(p@ == ps[i as int]);
        intent.push(PackageIntent { backend, package: p });
        assert(intent_views(intent@) =~= b0.push(IntentView { backend, package: ps[i as int] }));
        assert(intents_for(backend, ps.take(i + 1)) =~= intents_for(backend, ps.take(i as int)).push(
            IntentView { backend, package: ps[i as int] },
        ));
        i += 1;
    }
    assert(ps.take(packages.len() as int) =~= ps);
}

/// The package intent of a configuration.
pub fn package_intent_from_config(config: &BasaltConfig) -> (intent: Vec<PackageIntent>)
    ensures
        intent_views(intent@) == spec_package_intent(config@),
{
    let mut intent: Vec<PackageIntent> = Vec::new();
    assert(intent_views(intent@) =~= Seq::<IntentView>::empty());
    if let Some(packages) = &config.packages {
        push_intents(&mut intent, PackageBackend::Pacman, &packages.pacman);
        push_intents(&mut intent, PackageBackend::Aur, &packages.aur);
        push_intents(&mut intent, PackageBackend::Nix, &packages.nix);
        assert(intent_views(intent@) =~= spec_package_intent(config@));
    }
    intent
}

pub open spec fn service_intents(action: Seq<char>, ss: Seq<Seq<char>>) -> Seq<(Seq<char>, Seq<char>)> {
    ss.map_values(|s: Seq<char>| (action, s))
}

/// The declared service changes: enables first, then disables.
pub open spec fn spec_service_intent(c: ConfigView) -> Seq<(Seq<char>, Seq<char>)> {
    match c.services {
        Some(s) => service_intents("enable"@, s.enable) + service_intents("disable"@, s.disable),
        None => Seq::<(Seq<char>, Seq<char>)>::empty(),
    }
}

pub open spec fn service_intent_views(v: Seq<ServiceIntent>) -> Seq<(Seq<char>, Seq<char>)> {
    v.map_values(|i: ServiceIntent| (i.action@, i.service@))
}

fn push_service_intents(intent: &mut Vec<ServiceIntent>, action: &str, services: &Vec<String>)
    ensures
        service_intent_views(final(intent)@) == service_intent_views(old(intent)@) + service_intents(
            action@,
            strings_view(services@),
        ),
{
    let ghost i0 = service_intent_views(intent@);
    let ghost ss = strings_view(services@);
    let mut i: usize = 0;
    assert(i0 + service_intents(action@, ss.take(0)) =~= i0);
    while i < services.len()
        invariant
            i <= services.len(),
            ss == strings_view(services@),
            service_intent_views(intent@) == i0 + service_intents(action@, ss.take(i as int)),
        decreases services.len() - i,
    {
        let ghost b0 = service_intent_views(intent@);
        let s = services[i].clone();
        assert(s@ == ss[i as int]);
        intent.push(ServiceIntent { action: string_from(action), service: s });
        assert(service_intent_views(intent@) =~= b0.push((action@, ss[i as int])));
        assert(service_intents(action@, ss.take(i + 1)) =~= service_intents(action@, ss.take(i as int)).push(
            (action@, ss[i as int]),
        ));
        i += 1;
    }
    assert(ss.take(services.len() as int) =~= ss);
}

/// The service intent of a configuration.
pub fn service_intent_from_config(config: &BasaltConfig) -> (intent: Vec<ServiceIntent>)
    ensures
        service_intent_views(intent@) == spec_service_intent(config@),
{
    let mut intent: Vec<ServiceIntent> = Vec::new();
    assert(service_intent_views(intent@) =~= Seq::<(Seq<char>, Seq<char>)>::empty());
    if let Some(services) = &config.services {
        push_service_intents(&mut intent, "enable", &services.enable);
        push_service_intents(&mut intent, "disable", &services.disable);
        assert(service_intent_views(intent@) =~= spec_service_intent(config@));
    }
    intent
}

/// A change a real apply makes below the target root.
#[derive(Debug, Clone)]
pub enum PlannedWrite {
    /// Write `contents` to `relative_path`, then set its permission bits when `mode` is given.
    File { relative_path: String, contents: String, mode: Option<String> },
    /// Point `etc/localtime` at the zone file of `timezone`.
    TimezoneLink { timezone: String },
}

pub enum WriteView {
    File { relative_path: Seq<char>, contents: Seq<char>, mode: Option<Seq<char>> },
    TimezoneLink { timezone: Seq<char> },
}

impl View for PlannedWrite {
    type V = WriteView;

    open spec fn view(&self) -> WriteView {
        match self {
            PlannedWrite::File { relative_path, contents, mode } => WriteView::File {
                relative_path: relative_path@,
                contents: contents@,
                mode: crate::config::types::opt_view(*mode),
            },
            PlannedWrite::TimezoneLink { timezone } => WriteView::TimezoneLink { timezone: timezone@ },
        }
    }
}

/// The writes of a real apply, in order, and the error that stops it, if any: the
/// writes before the error are made, none after it.
#[derive(Debug, Clone)]
pub struct WritePlan {
    pub writes: Vec<PlannedWrite>,
    pub error: Option<String>,
}

pub open spec fn write_if(b: bool, w: WriteView) -> Seq<WriteView> {
    if b {
        seq![w]
    } else {
        Seq::<WriteView>::empty()
    }
}

pub open spec fn file_write(path: Seq<char>, contents: Seq<char>) -> WriteView {
    WriteView::File { relative_path: path, contents, mode: None }
}

/// Hostname, locale, keymap, then time zone, each where the plan has its action.
pub open spec fn system_writes(c: ConfigView, acts: Seq<ActionView>) -> Seq<WriteView> {
    match c.system {
        None => Seq::<WriteView>::empty(),
        Some(s) => write_if(
            spec_has_action(acts, "system.hostname"@),
            file_write("etc/hostname"@, s.hostname + "\n"@),
        ) + write_if(
            spec_has_action(acts, "system.locale"@),
            file_write("etc/locale.conf"@, "LANG="@ + s.locale.unwrap() + "\n"@),
        ) + write_if(
            spec_has_action(acts, "system.keymap"@),
            file_write("etc/vconsole.conf"@, "KEYMAP="@ + s.keymap.unwrap() + "\n"@),
        ) + write_if(
            spec_has_action(acts, "system.timezone"@),
            WriteView::TimezoneLink { timezone: s.timezone.unwrap() },
        ),
    }
}

/// The managed files that the plan changes, in declaration order; the first path
/// that leaves the target root stops the list.
pub open spec fn managed_writes(files: Seq<crate::config::types::ManagedFileView>, acts: Seq<ActionView>) -> (
    Seq<WriteView>,
    Option<Seq<char>>,
)
    decreases files.len(),
{
    if files.len() == 0 {
        (Seq::<WriteView>::empty(), None)
    } else {
        let (ws, err) = managed_writes(files.drop_last(), acts);
        let f = files.last();
        if err is Some {
            (ws, err)
        } else {
            match spec_managed_relative(f.path) {
                Err(e) => (ws, Some(e)),
                Ok(r) => if spec_has_action(acts, "files.managed."@ + r) {
                    (
                        ws.push(WriteView::File { relative_path: r, contents: f.content, mode: f.mode }),
                        None,
                    )
                } else {
                    (ws, None)
                },
            }
        }
    }
}

proof fn lemma_managed_error_stays(
    fs: Seq<crate::config::types::ManagedFileView>,
    acts: Seq<ActionView>,
    k: int,
    n: int,
)
    requires
        0 <= k <= n <= fs.len(),
        managed_writes(fs.take(k), acts).1 is Some,
    ensures
        managed_writes(fs.take(n), acts) == managed_writes(fs.take(k), acts),
    decreases n - k,
{
    if n > k {
        lemma_managed_error_stays(fs, acts, k, n - 1);
        assert(fs.take(n).drop_last() =~= fs.take(n - 1));
    }
}

pub open spec fn spec_write_plan(c: ConfigView, acts: Seq<ActionView>) -> (Seq<WriteView>, Option<Seq<char>>) {
    match c.files {
        None => (system_writes(c, acts), None),
        Some(f) => {
            let (ws, err) = managed_writes(f.managed, acts);
            (system_writes(c, acts) + ws, err)
        },
    }
}

/// Locale, keymap and time zone actions come only with their configured values.
pub open spec fn system_actions_have_values(c: ConfigView, acts: Seq<ActionView>) -> bool {
    c.system matches Some(s) ==> {
        &&& spec_has_action(acts, "system.locale"@) ==> s.locale is Some
        &&& spec_has_action(acts, "system.keymap"@) ==> s.keymap is Some
        &&& spec_has_action(acts, "system.timezone"@) ==> s.timezone is Some
    }
}

fn push_file_write(writes: &mut Vec<PlannedWrite>, path: &str, contents: String)
    ensures
        views_of(final(writes)@) == views_of(old(writes)@).push(file_write(path@, contents@)),
{
    let ghost w0 = views_of(writes@);
    writes.push(PlannedWrite::File { relative_path: string_from(path), contents, mode: None });
    assert(views_of(writes@) =~= w0.push(file_write(path@, contents@)));
}

fn plan_system_writes(config: &BasaltConfig, actions: &[Action]) -> (writes: Vec<PlannedWrite>)
    requires
        system_actions_have_values(config@, views_of(actions@)),
    ensures
        views_of(writes@) == system_writes(config@, views_of(actions@)),
{
    let ghost acts = views_of(actions@);
    let mut writes: Vec<PlannedWrite> = Vec::new();
    let ghost w0 = views_of(writes@);
    assert(w0 =~= Seq::<WriteView>::empty());
    if let Some(system) = &config.system {
        let ghost sv = system@;
        let h = has_action(actions, "system.hostname");
        assert(h == spec_has_action(acts, "system.hostname"@));
        if h {
            push_file_write(&mut writes, "etc/hostname", cat2(system.hostname.as_str(), "\n"));
        }
        let ghost w1 = views_of(writes@);
        assert(w1 =~= w0 + write_if(h, file_write("etc/hostname"@, sv.hostname + "\n"@)));
        let l = has_action(actions, "system.locale");
        assert(l == spec_has_action(acts, "system.locale"@));
        if l {
            let locale = system.locale.as_ref().unwrap();
            push_file_write(&mut writes, "etc/locale.conf", cat3("LANG=", locale.as_str(), "\n"));
        }
        let ghost w2 = views_of(writes@);
        assert(w2 =~= w1 + write_if(
            l,
            file_write("etc/locale.conf"@, "LANG="@ + sv.locale.unwrap() + "\n"@),
        ));
        let k = has_action(actions, "system.keymap");
        assert(k == spec_has_action(acts, "system.keymap"@));
        if k {
            let keymap = system.keymap.as_ref().unwrap();
            push_file_write(&mut writes, "etc/vconsole.conf", cat3("KEYMAP=", keymap.as_str(), "\n"));
        }
        let ghost w3 = views_of(writes@);
        assert(w3 =~= w2 + write_if(
            k,
            file_write("etc/vconsole.conf"@, "KEYMAP="@ + sv.keymap.unwrap() + "\n"@),
        ));
        let t = has_action(actions, "system.timezone");
        assert(t == spec_has_action(acts, "system.timezone"@));
        if t {
            let timezone = system.timezone.as_ref().unwrap();
            writes.push(PlannedWrite::TimezoneLink { timezone: timezone.clone() });
        }
        assert(views_of(writes@) =~= w3 + write_if(
            t,
            WriteView::TimezoneLink { timezone: sv.timezone.unwrap() },
        ));
    }
    writes
}

/// What a real apply writes below the target root for `config`, given its planned
/// actions, and the managed-file path error that stops it part way, if any.
pub fn plan_file_writes(config: &BasaltConfig, actions: &[Action]) -> (plan: WritePlan)
    requires
        system_actions_have_values(config@, views_of(actions@)),
    ensures
        (views_of(plan.writes@), crate::config::types::opt_view(plan.error)) == spec_write_plan(config@, views_of(actions@)),
{
    let ghost acts = views_of(actions@);
    let mut writes = plan_system_writes(config, actions);
    let ghost sys = views_of(writes@);
    if let Some(files) = &config.files {
        let ghost fs = files@.managed;
        assert(config@.files == Some(files@));
        let mut i: usize = 0;
        assert(fs.take(0) =~= Seq::<crate::config::types::ManagedFileView>::empty());
        assert(sys + managed_writes(fs.take(0), acts).0 =~= sys);
        while i < files.managed.len()
            invariant
                i <= files.managed.len(),
                fs == files@.managed,
                fs.len() == files.managed@.len(),
                config@.files == Some(files@),
                sys == system_writes(config@, acts),
                acts == views_of(actions@),
                managed_writes(fs.take(i as int), acts).1 is None,
                views_of(writes@) == sys + managed_writes(fs.take(i as int), acts).0,
            decreases files.managed.len() - i,
        {
            let file = &files.managed[i];
            let ghost fv = file@;
            assert(fs.take(i + 1).drop_last() =~= fs.take(i as int));
            assert(fs.take(i + 1).last() == fv);
            let ghost w0 = views_of(writes@);
            match managed_file_relative_path(file.path.as_str()) {
                Err(e) => {
                    proof {
                        assert(managed_writes(fs.take(i + 1), acts) == (w0.subrange(sys.len() as int, w0.len() as int), Some(e@))) by {
                            assert(w0.subrange(sys.len() as int, w0.len() as int) =~= managed_writes(fs.take(i as int), acts).0);
                        }
                        lemma_managed_error_stays(fs, acts, i as int + 1, fs.len() as int);
                        assert(fs.take(fs.len() as int) =~= fs);
                        assert(w0 =~= sys + w0.subrange(sys.len() as int, w0.len() as int));
                        assert(config@.files == Some(files@));
                        assert(managed_writes(fs, acts) == (w0.subrange(sys.len() as int, w0.len() as int), Some(e@)));
                        assert(sys == system_writes(config@, acts));
                        assert(spec_write_plan(config@, acts) == (w0, Some(e@)));
                    }
                    return WritePlan { writes, error: Some(e) };
                },
                Ok(relative) => {
                    let id = cat2("files.managed.", relative.as_str());
                    if has_action(actions, id.as_str()) {
                        let mode = match &file.mode {
                            Some(m) => Some(m.clone()),
                            None => None,
                        };
                        writes.push(
                            PlannedWrite::File { relative_path: relative, contents: file.content.clone(), mode },
                        );
                        assert(views_of(writes@) =~= w0.push(
                            WriteView::File { relative_path: relative@, contents: fv.content, mode: fv.mode },
                        ));
                    }
                    assert(views_of(writes@) =~= sys + managed_writes(fs.take(i + 1), acts).0);
                },
            }
            i += 1;
        }
        assert(fs.take(files.managed.len() as int) =~= fs);
    }
    WritePlan { writes, error: None }
}

/// The permission bits a managed file's `mode` names, read as octal.
pub open spec fn spec_file_mode(mode: Seq<char>, target: Seq<char>) -> Result<nat, Seq<char>> {
    match crate::text::spec_u32_from_octal(mode) {
        Ok(bits) => Ok(bits),
        Err(k) => Err(
            "invalid mode `"@ + mode + "` for "@ + target + ": "@ + crate::text::int_error_text(k),
        ),
    }
}

/// Reads a managed file's `mode`; `target` names the file in the error.
pub fn file_mode_bits(mode: &str, target: &str) -> (r: Result<u32, String>)
    ensures
        match r {
            Ok(bits) => spec_file_mode(mode@, target@) == Ok::<nat, Seq<char>>(bits as nat),
            Err(e) => spec_file_mode(mode@, target@) == Err::<nat, Seq<char>>(e@),
        },
{
    match crate::text::u32_from_octal_str(mode) {
        Ok(bits) => Ok(bits),
        Err(k) => {
            let mut message = cat3("invalid mode `", mode, "` for ");
            push_str(&mut message, target);
            push_str(&mut message, ": ");
            push_str(&mut message, k.message());
            Err(message)
        },
    }
}

/// The artifacts every run indexes: its record's paths, the declared package and service
/// intent, and the host's packages and services as they were before it, which a run that
/// changes nothing also leaves after it.
pub fn run_artifacts(
    run_json_path: String,
    latest_json_path: String,
    config: &BasaltConfig,
    current: &CurrentState,
) -> (a: StateDbArtifacts)
    ensures
        a.run_json_path@ == run_json_path@,
        a.latest_json_path@ == latest_json_path@,
        intent_views(a.package_intent@) == spec_package_intent(config@),
        service_intent_views(a.service_intent@) == spec_service_intent(config@),
        a.pacman_snapshot_before matches Some(s) && s@ == current@.pacman_packages,
        a.pacman_snapshot_after matches Some(s) && s@ == current@.pacman_packages,
        a.enabled_services_before matches Some(s) && s@ == current@.enabled_services,
        a.enabled_services_after matches Some(s) && s@ == current@.enabled_services,
        a.package_operations_path is None,
        a.service_operations_path is None,
        a.backup_dir is None,
        a.pacman_transaction is None,
        a.aur_transaction is None,
        a.nix_transaction is None,
{
    let mut a = StateDbArtifacts::new(run_json_path, latest_json_path);
    a.package_intent = package_intent_from_config(config);
    a.service_intent = service_intent_from_config(config);
    a.pacman_snapshot_before = Some(current.pacman_packages.clone_set());
    a.pacman_snapshot_after = Some(current.pacman_packages.clone_set());
    a.enabled_services_before = Some(current.enabled_services.clone_set());
    a.enabled_services_after = Some(current.enabled_services.clone_set());
    a
}

/// What a finished real apply reports: its actions, the files it wrote, and where its
/// logs, backups and record went.
#[derive(Debug)]
pub struct ApplySummary {
    pub actions: Vec<Action>,
    pub written_files: Vec<String>,
    pub package_operations_path: Option<String>,
    pub service_operations_path: Option<String>,
    pub backup_dir: String,
    pub run_path: String,
    pub latest_path: String,
}

/// Whether every file write in `ws` names a plain relative path.
pub open spec fn writes_inside_root(ws: Seq<WriteView>) -> bool {
    forall|i: int|
        0 <= i < ws.len() ==> (#[trigger] ws[i] matches WriteView::File { relative_path, .. } ==> plain_relative(
            relative_path,
        ))
}

proof fn lemma_inside_concat(a: Seq<WriteView>, b: Seq<WriteView>)
    requires
        writes_inside_root(a),
        writes_inside_root(b),
    ensures
        writes_inside_root(a + b),
{
    assert forall|i: int| 0 <= i < (a + b).len() implies (#[trigger] (a + b)[i] matches WriteView::File {
        relative_path,
        ..
    } ==> plain_relative(relative_path)) by {
        if i < a.len() {
            assert((a + b)[i] == a[i]);
        } else {
            assert((a + b)[i] == b[i - a.len()]);
        }
    }
}

/// `dir/name` is a plain relative path when neither part holds a `/` and `dir` is a
/// name other than `.` and `..`.
proof fn lemma_two_part_plain(dir: Seq<char>, name: Seq<char>)
    requires
        dir.len() > 0,
        dir[0] != '/',
        !dir.contains('/'),
        !name.contains('/'),
        dir != "."@,
        dir != ".."@,
        name != ".."@,
    ensures
        plain_relative(dir + "/"@ + name),
{
    reveal_strlit("/");
    let p = dir + "/"@ + name;
    crate::text::lemma_split_fold_plain(Seq::<char>::empty(), dir, '/');
    assert(Seq::<char>::empty() + dir =~= dir);
    crate::text::lemma_split_fold_sep(dir, '/');
    assert(dir + "/"@ =~= dir.push('/'));
    crate::text::lemma_split_fold_plain(dir + "/"@, name, '/');
    assert(Seq::<char>::empty() + name =~= name);
    let segs = crate::text::split_on(p, '/');
    assert(segs =~= seq![dir, name]);
    assert(p[0] == dir[0]);
    assert(!segs.contains(".."@)) by {
        if segs.contains(".."@) {
            let k = choose|k: int| 0 <= k < segs.len() && segs[k] == ".."@;
            assert(k == 0 || k == 1);
        }
    }
}

proof fn lemma_system_writes_inside(c: ConfigView, acts: Seq<ActionView>)
    ensures
        writes_inside_root(system_writes(c, acts)),
{
    if let Some(s) = c.system {
        reveal_strlit("etc/hostname");
        reveal_strlit("etc/locale.conf");
        reveal_strlit("etc/vconsole.conf");
        reveal_strlit("etc");
        reveal_strlit("hostname");
        reveal_strlit("locale.conf");
        reveal_strlit("vconsole.conf");
        reveal_strlit("/");
        reveal_strlit(".");
        reveal_strlit("..");
        assert("etc/hostname"@ =~= "etc"@ + "/"@ + "hostname"@);
        assert("etc/locale.conf"@ =~= "etc"@ + "/"@ + "locale.conf"@);
        assert("etc/vconsole.conf"@ =~= "etc"@ + "/"@ + "vconsole.conf"@);
        assert(!"etc"@.contains('/')) by {
            if "etc"@.contains('/') {
                let k = choose|k: int| 0 <= k < 3 && "etc"@[k] == '/';
            }
        }
        assert(!"hostname"@.contains('/')) by {
            if "hostname"@.contains('/') {
                let k = choose|k: int| 0 <= k < 8 && "hostname"@[k] == '/';
            }
        }
        assert(!"locale.conf"@.contains('/')) by {
            if "locale.conf"@.contains('/') {
                let k = choose|k: int| 0 <= k < 11 && "locale.conf"@[k] == '/';
            }
        }
        assert(!"vconsole.conf"@.contains('/')) by {
            if "vconsole.conf"@.contains('/') {
                let k = choose|k: int| 0 <= k < 13 && "vconsole.conf"@[k] == '/';
            }
        }
        assert("etc"@ != "."@ && "etc"@ != ".."@);
        assert("hostname"@ != ".."@ && "locale.conf"@ != ".."@ && "vconsole.conf"@ != ".."@);
        lemma_two_part_plain("etc"@, "hostname"@);
        lemma_two_part_plain("etc"@, "locale.conf"@);
        lemma_two_part_plain("etc"@, "vconsole.conf"@);
        let a = write_if(
            spec_has_action(acts, "system.hostname"@),
            file_write("etc/hostname"@, s.hostname + "\n"@),
        );
        let b = write_if(
            spec_has_action(acts, "system.locale"@),
            file_write("etc/locale.conf"@, "LANG="@ + s.locale.unwrap() + "\n"@),
        );
        let k = write_if(
            spec_has_action(acts, "system.keymap"@),
            file_write("etc/vconsole.conf"@, "KEYMAP="@ + s.keymap.unwrap() + "\n"@),
        );
        let t = write_if(
            spec_has_action(acts, "system.timezone"@),
            WriteView::TimezoneLink { timezone: s.timezone.unwrap() },
        );
        assert(writes_inside_root(a));
        assert(writes_inside_root(b));
        assert(writes_inside_root(k));
        assert(writes_inside_root(t));
        lemma_inside_concat(a, b);
        lemma_inside_concat(a + b, k);
        lemma_inside_concat(a + b + k, t);
    }
}

proof fn lemma_managed_writes_inside(files: Seq<crate::config::types::ManagedFileView>, acts: Seq<ActionView>)
    ensures
        writes_inside_root(managed_writes(files, acts).0),
    decreases files.len(),
{
    if files.len() > 0 {
        lemma_managed_writes_inside(files.drop_last(), acts);
        let ws = managed_writes(files.drop_last(), acts).0;
        let f = files.last();
        if let Ok(r) = spec_managed_relative(f.path) {
            let w = WriteView::File { relative_path: r, contents: f.content, mode: f.mode };
            assert(plain_relative(r));
            assert(ws.push(w) =~= ws + seq![w]);
            lemma_inside_concat(ws, seq![w]);
        }
    }
}

/// Every file a real apply writes lies below the target root: its path is relative and
/// no component of it climbs out.
pub proof fn law_writes_stay_inside_root(c: ConfigView, acts: Seq<ActionView>)
    ensures
        writes_inside_root(spec_write_plan(c, acts).0),
{
    lemma_system_writes_inside(c, acts);
    if let Some(f) = c.files {
        lemma_managed_writes_inside(f.managed, acts);
        lemma_inside_concat(system_writes(c, acts), managed_writes(f.managed, acts).0);
    }
}

/// The host package executor runs a plan only on the real root and only when it holds no
/// AUR or Nix package: with host execution and some package action, the policy refuses a
/// root other than `/`, and on `/` it refuses exactly the plans with an action whose id
/// starts with `packages.aur.` or `packages.nix.`, saying which backends it supports.
/// Recording never refuses, nor does a plan without package actions.
pub proof fn law_host_package_policy(acts: Seq<ActionView>, root_dir: Seq<char>)
    ensures
        spec_package_policy(acts, root_dir, PackageExecutorMode::Record) is Ok,
        (forall|i: int| 0 <= i < acts.len() ==> #[trigger] acts[i].domain != "packages"@) ==> spec_package_policy(
            acts,
            root_dir,
            PackageExecutorMode::Host,
        ) is Ok,
        (exists|i: int| 0 <= i < acts.len() && #[trigger] acts[i].domain == "packages"@) ==> (spec_package_policy(
            acts,
            root_dir,
            PackageExecutorMode::Host,
        ) is Ok <==> (root_path(root_dir) && forall|i: int|
            0 <= i < acts.len() ==> !seq_starts_with(#[trigger] acts[i].id, "packages.aur."@) && !seq_starts_with(
                acts[i].id,
                "packages.nix."@,
            ))),
        (exists|i: int| 0 <= i < acts.len() && #[trigger] acts[i].domain == "packages"@) && root_path(root_dir) && (
        exists|i: int| 0 <= i < acts.len() && seq_starts_with(#[trigger] acts[i].id, "packages.aur."@))
            ==> spec_package_policy(acts, root_dir, PackageExecutorMode::Host) == Err::<(), Seq<char>>(
            "`--package-executor host` currently supports pacman packages only; AUR and Nix host execution are not implemented yet"@,
        ),
{
}

} // verus!
