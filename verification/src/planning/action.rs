// Typed dry-run/apply actions.

use vstd::prelude::*;

use crate::config::types::{
    opt_view, strings_view, views_of, BasaltConfig, ConfigView, ManagedFileConfig,
    ManagedFileView, SystemView,
};
use crate::state::store::{CurrentState, CurrentView};
use crate::text::{
    cat2, cat3, push_str, seq_starts_with, str_eq, string_from, trim_start_char, trim_start_matches,
};

verus! {

#[derive(Debug, Clone, Copy, PartialEq, Eq, Structural)]
pub enum Risk {
    Low,
    Medium,
    High,
}

pub open spec fn risk_str(r: Risk) -> Seq<char> {
    match r {
        Risk::Low => "low"@,
        Risk::Medium => "medium"@,
        Risk::High => "high"@,
    }
}

impl Risk {
    pub fn as_str(self) -> (s: &'static str)
        ensures
            s@ == risk_str(self),
    {
        match self {
            Risk::Low => "low",
            Risk::Medium => "medium",
            Risk::High => "high",
        }
    }
}

/// One change that applying a configuration would make.
#[derive(Debug)]
pub struct Action {
    pub id: String,
    pub domain: String,
    pub description: String,
    pub risk: Risk,
}

pub struct ActionView {
    pub id: Seq<char>,
    pub domain: Seq<char>,
    pub description: Seq<char>,
    pub risk: Risk,
}

impl View for Action {
    type V = ActionView;

    open spec fn view(&self) -> ActionView {
        ActionView {
            id: self.id@,
            domain: self.domain@,
            description: self.description@,
            risk: self.risk,
        }
    }
}

pub open spec fn act(id: Seq<char>, domain: Seq<char>, description: Seq<char>, risk: Risk) -> ActionView {
    ActionView { id, domain, description, risk }
}

pub open spec fn no_actions() -> Seq<ActionView> {
    Seq::<ActionView>::empty()
}

/// The action for an optional system setting: one when a value is declared and the host
/// does not already have it.
pub open spec fn setting_action(
    id: Seq<char>,
    what: Seq<char>,
    want: Option<Seq<char>>,
    have: Option<Seq<char>>,
) -> Seq<ActionView> {
    match want {
        Some(v) => if have == Some(v) {
            no_actions()
        } else {
            seq![act(id, "system"@, what + v + "`"@, Risk::Low)]
        },
        None => no_actions(),
    }
}

/// Hostname when it differs, then each optional system setting that is declared and that
/// the host does not already have.
pub open spec fn system_actions(sys: SystemView, cur: CurrentView) -> Seq<ActionView> {
    (if cur.hostname != Some(sys.hostname) {
        seq![
            act(
                "system.hostname"@,
                "system"@,
                "set hostname to `"@ + sys.hostname + "`"@,
                Risk::Medium,
            ),
        ]
    } else {
        no_actions()
    }) + setting_action("system.timezone"@, "set timezone to `"@, sys.timezone, cur.timezone)
        + setting_action("system.locale"@, "set locale to `"@, sys.locale, cur.locale)
        + setting_action("system.keymap"@, "set keymap to `"@, sys.keymap, cur.keymap)
}

/// Pacman packages that are not installed yet.
pub open spec fn pacman_actions(pkgs: Seq<Seq<char>>, installed: Seq<Seq<char>>) -> Seq<ActionView>
    decreases pkgs.len(),
{
    if pkgs.len() == 0 {
        no_actions()
    } else {
        let p = pkgs.last();
        pacman_actions(pkgs.drop_last(), installed) + if installed.contains(p) {
            no_actions()
        } else {
            seq![
                act(
                    "packages.pacman."@ + p,
                    "packages"@,
                    "ensure pacman package `"@ + p + "` is installed"@,
                    Risk::High,
                ),
            ]
        }
    }
}

/// One action per package of a backend whose installed state is not read.
pub open spec fn backend_actions(pkgs: Seq<Seq<char>>, id_prefix: Seq<char>, label: Seq<char>, risk: Risk) -> Seq<ActionView>
    decreases pkgs.len(),
{
    if pkgs.len() == 0 {
        no_actions()
    } else {
        let p = pkgs.last();
        backend_actions(pkgs.drop_last(), id_prefix, label, risk) + seq![
            act(
                id_prefix + p,
                "packages"@,
                "ensure "@ + label + " package `"@ + p + "` is installed"@,
                risk,
            ),
        ]
    }
}

/// Services to enable that are not enabled yet.
pub open spec fn enable_actions(svcs: Seq<Seq<char>>, enabled: Seq<Seq<char>>) -> Seq<ActionView>
    decreases svcs.len(),
{
    if svcs.len() == 0 {
        no_actions()
    } else {
        let s = svcs.last();
        enable_actions(svcs.drop_last(), enabled) + if enabled.contains(s) {
            no_actions()
        } else {
            seq![
                act(
                    "services.enable."@ + s,
                    "services"@,
                    "enable service `"@ + s + "`"@,
                    Risk::Medium,
                ),
            ]
        }
    }
}

pub open spec fn disable_actions(svcs: Seq<Seq<char>>) -> Seq<ActionView>
    decreases svcs.len(),
{
    if svcs.len() == 0 {
        no_actions()
    } else {
        let s = svcs.last();
        disable_actions(svcs.drop_last()) + seq![
            act("services.disable."@ + s, "services"@, "disable service `"@ + s + "`"@, Risk::High),
        ]
    }
}

/// Managed files whose content on the host (by `have`, path to content) is not the declared one.
pub open spec fn file_actions(ms: Seq<ManagedFileView>, have: Seq<(Seq<char>, Seq<char>)>) -> Seq<ActionView>
    decreases ms.len(),
{
    if ms.len() == 0 {
        no_actions()
    } else {
        let m = ms.last();
        file_actions(ms.drop_last(), have) + if crate::strmap::spec_get(have, m.path) == Some(m.content) {
            no_actions()
        } else {
            seq![
                act(
                    "files.managed."@ + trim_start_char(m.path, '/'),
                    "files"@,
                    "write managed file `"@ + m.path + "`"@,
                    Risk::Medium,
                ),
            ]
        }
    }
}

/// The actions that bring the host described by `cur` to configuration `c`: system
/// settings, then packages, services and managed files, each in declaration order, each
/// left out where the host already has what is declared (packages of the AUR and Nix
/// backends and services to disable, whose state is not read, are always planned).
pub open spec fn spec_plan_actions(c: ConfigView, cur: CurrentView) -> Seq<ActionView> {
    (match c.system {
        Some(sys) => system_actions(sys, cur),
        None => no_actions(),
    }) + match c.packages {
        Some(p) => pacman_actions(p.pacman, cur.pacman_packages) + backend_actions(
            p.aur,
            "packages.aur."@,
            "AUR"@,
            Risk::Medium,
        ) + backend_actions(p.nix, "packages.nix."@, "Nix"@, Risk::Low),
        None => no_actions(),
    } + match c.services {
        Some(s) => enable_actions(s.enable, cur.enabled_services) + disable_actions(s.disable),
        None => no_actions(),
    } + match c.files {
        Some(f) => file_actions(f.managed, cur.managed_files),
        None => no_actions(),
    }
}

fn new_action(id: String, domain: &str, description: String, risk: Risk) -> (a: Action)
    ensures
        a@ == act(id@, domain@, description@, risk),
{
    Action { id, domain: string_from(domain), description, risk }
}

fn push_action(actions: &mut Vec<Action>, a: Action)
    ensures
        views_of(final(actions)@) == views_of(old(actions)@) + seq![a@],
{
    let ghost av = a@;
    actions.push(a);
    assert(views_of(actions@) =~= views_of(old(actions)@) + seq![av]);
}

/// Whether the host already has setting value `v`.
fn has_value(have: &Option<String>, v: &str) -> (r: bool)
    ensures
        r == (opt_view(*have) == Some(v@)),
{
    match have {
        Some(h) => str_eq(h.as_str(), v),
        None => false,
    }
}

fn plan_system(actions: &mut Vec<Action>, config: &BasaltConfig, current: &CurrentState)
    requires
        old(actions)@.len() == 0,
    ensures
        views_of(final(actions)@) == match config@.system {
            Some(sys) => system_actions(sys, current@),
            None => no_actions(),
        },
{
    assert(views_of(actions@) =~= no_actions());
    let system = match &config.system {
        Some(system) => system,
        None => {
            return;
        },
    };
    let same_host = match &current.hostname {
        Some(h) => str_eq(h.as_str(), system.hostname.as_str()),
        None => false,
    };
    if !same_host {
        push_action(
            actions,
            new_action(
                string_from("system.hostname"),
                "system",
                cat3("set hostname to `", system.hostname.as_str(), "`"),
                Risk::Medium,
            ),
        );
    }
    let ghost a1 = views_of(actions@);
    if let Some(timezone) = &system.timezone {
        if !has_value(&current.timezone, timezone.as_str()) {
            push_action(
                actions,
                new_action(
                    string_from("system.timezone"),
                    "system",
                    cat3("set timezone to `", timezone.as_str(), "`"),
                    Risk::Low,
                ),
            );
        }
    }
    let ghost a2 = views_of(actions@);
    if let Some(locale) = &system.locale {
        if !has_value(&current.locale, locale.as_str()) {
            push_action(
                actions,
                new_action(
                    string_from("system.locale"),
                    "system",
                    cat3("set locale to `", locale.as_str(), "`"),
                    Risk::Low,
                ),
            );
        }
    }
    let ghost a3 = views_of(actions@);
    if let Some(keymap) = &system.keymap {
        if !has_value(&current.keymap, keymap.as_str()) {
            push_action(
                actions,
                new_action(
                    string_from("system.keymap"),
                    "system",
                    cat3("set keymap to `", keymap.as_str(), "`"),
                    Risk::Low,
                ),
            );
        }
    }
    assert(views_of(actions@) =~= a1 + a2.skip(a1.len() as int) + a3.skip(a2.len() as int)
        + views_of(actions@).skip(a3.len() as int));
    assert(a1 =~= if current@.hostname != Some(system@.hostname) {
        seq![
            act(
                "system.hostname"@,
                "system"@,
                "set hostname to `"@ + system@.hostname + "`"@,
                Risk::Medium,
            ),
        ]
    } else {
        no_actions()
    });
}

fn plan_pacman(actions: &mut Vec<Action>, packages: &Vec<String>, installed: &crate::strmap::StrSet)
    ensures
        views_of(final(actions)@) == views_of(old(actions)@) + pacman_actions(
            strings_view(packages@),
            installed@,
        ),
{
    let ghost a0 = views_of(actions@);
    let ghost ps = strings_view(packages@);
    let mut i: usize = 0;
    assert(a0 + pacman_actions(ps.take(0), installed@) =~= a0);
    while i < packages.len()
        invariant
            i <= packages.len(),
            ps == strings_view(packages@),
            views_of(actions@) == a0 + pacman_actions(ps.take(i as int), installed@),
        decreases packages.len() - i,
    {
        assert(ps.take(i + 1).drop_last() =~= ps.take(i as int));
        let p = packages[i].as_str();
        assert(ps.take(i + 1).last() == p@);
        if !installed.contains(p) {
            push_action(
                actions,
                new_action(
                    cat2("packages.pacman.", p),
                    "packages",
                    cat3("ensure pacman package `", p, "` is installed"),
                    Risk::High,
                ),
            );
        }
        assert(views_of(actions@) =~= a0 + pacman_actions(ps.take(i + 1), installed@));
        i += 1;
    }
    assert(ps.take(packages.len() as int) =~= ps);
}

fn plan_backend(
    actions: &mut Vec<Action>,
    packages: &Vec<String>,
    id_prefix: &str,
    label: &str,
    risk: Risk,
)
    ensures
        views_of(final(actions)@) == views_of(old(actions)@) + backend_actions(
            strings_view(packages@),
            id_prefix@,
            label@,
            risk,
        ),
{
    let ghost a0 = views_of(actions@);
    let ghost ps = strings_view(packages@);
    let mut i: usize = 0;
    assert(a0 + backend_actions(ps.take(0), id_prefix@, label@, risk) =~= a0);
    while i < packages.len()
        invariant
            i <= packages.len(),
            ps == strings_view(packages@),
            views_of(actions@) == a0 + backend_actions(ps.take(i as int), id_prefix@, label@, risk),
        decreases packages.len() - i,
    {
        assert(ps.take(i + 1).drop_last() =~= ps.take(i as int));
        let p = packages[i].as_str();
        assert(ps.take(i + 1).last() == p@);
        let mut description = cat3("ensure ", label, " package `");
        push_str(&mut description, p);
        push_str(&mut description, "` is installed");
        push_action(actions, new_action(cat2(id_prefix, p), "packages", description, risk));
        assert(views_of(actions@) =~= a0 + backend_actions(ps.take(i + 1), id_prefix@, label@, risk));
        i += 1;
    }
    assert(ps.take(packages.len() as int) =~= ps);
}

fn plan_enable(actions: &mut Vec<Action>, services: &Vec<String>, enabled: &crate::strmap::StrSet)
    ensures
        views_of(final(actions)@) == views_of(old(actions)@) + enable_actions(
            strings_view(services@),
            enabled@,
        ),
{
    let ghost a0 = views_of(actions@);
    let ghost ss = strings_view(services@);
    let mut i: usize = 0;
    assert(a0 + enable_actions(ss.take(0), enabled@) =~= a0);
    while i < services.len()
        invariant
            i <= services.len(),
            ss == strings_view(services@),
            views_of(actions@) == a0 + enable_actions(ss.take(i as int), enabled@),
        decreases services.len() - i,
    {
        assert(ss.take(i + 1).drop_last() =~= ss.take(i as int));
        let s = services[i].as_str();
        assert(ss.take(i + 1).last() == s@);
        if !enabled.contains(s) {
            push_action(
                actions,
                new_action(
                    cat2("services.enable.", s),
                    "services",
                    cat3("enable service `", s, "`"),
                    Risk::Medium,
                ),
            );
        }
        assert(views_of(actions@) =~= a0 + enable_actions(ss.take(i + 1), enabled@));
        i += 1;
    }
    assert(ss.take(services.len() as int) =~= ss);
}

fn plan_disable(actions: &mut Vec<Action>, services: &Vec<String>)
    ensures
        views_of(final(actions)@) == views_of(old(actions)@) + disable_actions(
            strings_view(services@),
        ),
{
    let ghost a0 = views_of(actions@);
    let ghost ss = strings_view(services@);
    let mut i: usize = 0;
    assert(a0 + disable_actions(ss.take(0)) =~= a0);
    while i < services.len()
        invariant
            i <= services.len(),
            ss == strings_view(services@),
            views_of(actions@) == a0 + disable_actions(ss.take(i as int)),
        decreases services.len() - i,
    {
        assert(ss.take(i + 1).drop_last() =~= ss.take(i as int));
        let s = services[i].as_str();
        assert(ss.take(i + 1).last() == s@);
        push_action(
            actions,
            new_action(
                cat2("services.disable.", s),
                "services",
                cat3("disable service `", s, "`"),
                Risk::High,
            ),
        );
        assert(views_of(actions@) =~= a0 + disable_actions(ss.take(i + 1)));
        i += 1;
    }
    assert(ss.take(services.len() as int) =~= ss);
}

fn plan_files(actions: &mut Vec<Action>, managed: &Vec<ManagedFileConfig>, have: &crate::strmap::StrMap<String>)
    ensures
        views_of(final(actions)@) == views_of(old(actions)@) + file_actions(
            views_of(managed@),
            crate::config::types::string_map_view(have@),
        ),
{
    let ghost a0 = views_of(actions@);
    let ghost ms = views_of(managed@);
    let ghost hv = crate::config::types::string_map_view(have@);
    let mut i: usize = 0;
    assert(a0 + file_actions(ms.take(0), hv) =~= a0);
    while i < managed.len()
        invariant
            i <= managed.len(),
            ms == views_of(managed@),
            hv == crate::config::types::string_map_view(have@),
            views_of(actions@) == a0 + file_actions(ms.take(i as int), hv),
        decreases managed.len() - i,
    {
        assert(ms.take(i + 1).drop_last() =~= ms.take(i as int));
        let path = managed[i].path.as_str();
        assert(ms.take(i + 1).last() == managed@[i as int]@);
        let same = match have.get(path) {
            Some(content) => str_eq(content.as_str(), managed[i].content.as_str()),
            None => false,
        };
        proof {
            crate::strmap::lemma_get_view_entries(have@, path@);
        }
        if !same {
            let relative = trim_start_matches(path, '/');
            push_action(
                actions,
                new_action(
                    cat2("files.managed.", relative.as_str()),
                    "files",
                    cat3("write managed file `", path, "`"),
                    Risk::Medium,
                ),
            );
        }
        assert(views_of(actions@) =~= a0 + file_actions(ms.take(i + 1), hv));
        i += 1;
    }
    assert(ms.take(managed.len() as int) =~= ms);
}

/// The actions that applying `config` to the host described by `current` would take.
pub fn plan_actions(config: &BasaltConfig, current: &CurrentState) -> (actions: Vec<Action>)
    ensures
        views_of(actions@) == spec_plan_actions(config@, current@),
{
    let mut actions: Vec<Action> = Vec::new();
    plan_system(&mut actions, config, current);
    let ghost a1 = views_of(actions@);
    match &config.packages {
        Some(packages) => {
            plan_pacman(&mut actions, &packages.pacman, &current.pacman_packages);
            plan_backend(&mut actions, &packages.aur, "packages.aur.", "AUR", Risk::Medium);
            plan_backend(&mut actions, &packages.nix, "packages.nix.", "Nix", Risk::Low);
        },
        None => {},
    }
    let ghost a2 = views_of(actions@);
    match &config.services {
        Some(services) => {
            plan_enable(&mut actions, &services.enable, &current.enabled_services);
            plan_disable(&mut actions, &services.disable);
        },
        None => {},
    }
    let ghost a3 = views_of(actions@);
    match &config.files {
        Some(files) => plan_files(&mut actions, &files.managed, &current.managed_files),
        None => {},
    }
    assert(views_of(actions@) =~= a1 + a2.skip(a1.len() as int) + a3.skip(a2.len() as int)
        + views_of(actions@).skip(a3.len() as int));
    actions
}

/// Whether some action has id `id`.
pub open spec fn spec_has_action(acts: Seq<ActionView>, id: Seq<char>) -> bool {
    exists|i: int| 0 <= i < acts.len() && #[trigger] acts[i].id == id
}

/// Whether every action's id starts with `prefix`.
pub open spec fn ids_start_with(acts: Seq<ActionView>, prefix: Seq<char>) -> bool {
    forall|i: int| 0 <= i < acts.len() ==> seq_starts_with(#[trigger] acts[i].id, prefix)
}

proof fn lemma_has_concat(a: Seq<ActionView>, b: Seq<ActionView>, id: Seq<char>)
    ensures
        spec_has_action(a + b, id) == (spec_has_action(a, id) || spec_has_action(b, id)),
{
    if spec_has_action(a + b, id) {
        let i = choose|i: int| 0 <= i < (a + b).len() && #[trigger] (a + b)[i].id == id;
        if i < a.len() {
            assert(a[i].id == id);
        } else {
            assert(b[i - a.len()].id == id);
        }
    }
    if spec_has_action(a, id) {
        let i = choose|i: int| 0 <= i < a.len() && #[trigger] a[i].id == id;
        assert((a + b)[i].id == id);
    }
    if spec_has_action(b, id) {
        let i = choose|i: int| 0 <= i < b.len() && #[trigger] b[i].id == id;
        assert((a + b)[a.len() + i].id == id);
    }
}

proof fn lemma_starts_concat(a: Seq<ActionView>, b: Seq<ActionView>, prefix: Seq<char>)
    requires
        ids_start_with(a, prefix),
        ids_start_with(b, prefix),
    ensures
        ids_start_with(a + b, prefix),
{
    assert forall|i: int| 0 <= i < (a + b).len() implies seq_starts_with(#[trigger] (a + b)[i].id, prefix) by {
        if i < a.len() {
            assert((a + b)[i] == a[i]);
        } else {
            assert((a + b)[i] == b[i - a.len()]);
        }
    }
}

/// No action whose id starts with `prefix` has an id that differs from `prefix` at `k`.
proof fn lemma_prefix_excludes(acts: Seq<ActionView>, prefix: Seq<char>, id: Seq<char>, k: int)
    requires
        ids_start_with(acts, prefix),
        0 <= k < prefix.len(),
        k < id.len(),
        prefix[k] != id[k],
    ensures
        !spec_has_action(acts, id),
{
    if spec_has_action(acts, id) {
        let i = choose|i: int| 0 <= i < acts.len() && #[trigger] acts[i].id == id;
        assert(seq_starts_with(acts[i].id, prefix));
        assert(acts[i].id.take(prefix.len() as int)[k] == id[k]);
    }
}

proof fn lemma_pacman_starts(pkgs: Seq<Seq<char>>, installed: Seq<Seq<char>>)
    ensures
        ids_start_with(pacman_actions(pkgs, installed), "packages.pacman."@),
    decreases pkgs.len(),
{
    if pkgs.len() > 0 {
        lemma_pacman_starts(pkgs.drop_last(), installed);
        let p = pkgs.last();
        let id = "packages.pacman."@ + p;
        assert(id.take("packages.pacman."@.len() as int) =~= "packages.pacman."@);
        lemma_starts_concat(
            pacman_actions(pkgs.drop_last(), installed),
            if installed.contains(p) {
                no_actions()
            } else {
                seq![
                    act(id, "packages"@, "ensure pacman package `"@ + p + "` is installed"@, Risk::High),
                ]
            },
            "packages.pacman."@,
        );
    }
}

proof fn lemma_backend_starts(pkgs: Seq<Seq<char>>, id_prefix: Seq<char>, label: Seq<char>, risk: Risk)
    ensures
        ids_start_with(backend_actions(pkgs, id_prefix, label, risk), id_prefix),
    decreases pkgs.len(),
{
    if pkgs.len() > 0 {
        lemma_backend_starts(pkgs.drop_last(), id_prefix, label, risk);
        let p = pkgs.last();
        assert((id_prefix + p).take(id_prefix.len() as int) =~= id_prefix);
        lemma_starts_concat(
            backend_actions(pkgs.drop_last(), id_prefix, label, risk),
            seq![
                act(
                    id_prefix + p,
                    "packages"@,
                    "ensure "@ + label + " package `"@ + p + "` is installed"@,
                    risk,
                ),
            ],
            id_prefix,
        );
    }
}

proof fn lemma_enable_starts(svcs: Seq<Seq<char>>, enabled: Seq<Seq<char>>)
    ensures
        ids_start_with(enable_actions(svcs, enabled), "services.enable."@),
    decreases svcs.len(),
{
    if svcs.len() > 0 {
        lemma_enable_starts(svcs.drop_last(), enabled);
        let s = svcs.last();
        let id = "services.enable."@ + s;
        assert(id.take("services.enable."@.len() as int) =~= "services.enable."@);
        lemma_starts_concat(
            enable_actions(svcs.drop_last(), enabled),
            if enabled.contains(s) {
                no_actions()
            } else {
                seq![act(id, "services"@, "enable service `"@ + s + "`"@, Risk::Medium)]
            },
            "services.enable."@,
        );
    }
}

proof fn lemma_disable_starts(svcs: Seq<Seq<char>>)
    ensures
        ids_start_with(disable_actions(svcs), "services.disable."@),
    decreases svcs.len(),
{
    if svcs.len() > 0 {
        lemma_disable_starts(svcs.drop_last());
        let s = svcs.last();
        let id = "services.disable."@ + s;
        assert(id.take("services.disable."@.len() as int) =~= "services.disable."@);
        lemma_starts_concat(
            disable_actions(svcs.drop_last()),
            seq![act(id, "services"@, "disable service `"@ + s + "`"@, Risk::High)],
            "services.disable."@,
        );
    }
}

proof fn lemma_file_starts(ms: Seq<ManagedFileView>, have: Seq<(Seq<char>, Seq<char>)>)
    ensures
        ids_start_with(file_actions(ms, have), "files.managed."@),
    decreases ms.len(),
{
    if ms.len() > 0 {
        lemma_file_starts(ms.drop_last(), have);
        let m = ms.last();
        let id = "files.managed."@ + trim_start_char(m.path, '/');
        assert(id.take("files.managed."@.len() as int) =~= "files.managed."@);
        lemma_starts_concat(
            file_actions(ms.drop_last(), have),
            seq![act(id, "files"@, "write managed file `"@ + m.path + "`"@, Risk::Medium)],
            "files.managed."@,
        );
        lemma_starts_concat(file_actions(ms.drop_last(), have), no_actions(), "files.managed."@);
    }
}

proof fn lemma_system_starts(sys: SystemView, cur: CurrentView)
    ensures
        ids_start_with(system_actions(sys, cur), "system."@),
{
    reveal_strlit("system.");
    reveal_strlit("system.hostname");
    reveal_strlit("system.timezone");
    reveal_strlit("system.locale");
    reveal_strlit("system.keymap");
    assert("system.hostname"@.take(7) =~= "system."@);
    assert("system.timezone"@.take(7) =~= "system."@);
    assert("system.locale"@.take(7) =~= "system."@);
    assert("system.keymap"@.take(7) =~= "system."@);
}

/// The plan's parts, with the prefix every id of each part starts with.
proof fn lemma_plan_parts(c: ConfigView, cur: CurrentView)
    ensures
        ids_start_with(
            match c.system {
                Some(sys) => system_actions(sys, cur),
                None => no_actions(),
            },
            "system."@,
        ),
        c.packages matches Some(p) ==> ids_start_with(pacman_actions(p.pacman, cur.pacman_packages), "packages.pacman."@)
            && ids_start_with(backend_actions(p.aur, "packages.aur."@, "AUR"@, Risk::Medium), "packages.aur."@)
            && ids_start_with(backend_actions(p.nix, "packages.nix."@, "Nix"@, Risk::Low), "packages.nix."@),
        c.services matches Some(s) ==> ids_start_with(enable_actions(s.enable, cur.enabled_services), "services.enable."@)
            && ids_start_with(disable_actions(s.disable), "services.disable."@),
        c.files matches Some(f) ==> ids_start_with(file_actions(f.managed, cur.managed_files), "files.managed."@),
{
    if let Some(sys) = c.system {
        lemma_system_starts(sys, cur);
    }
    if let Some(p) = c.packages {
        lemma_pacman_starts(p.pacman, cur.pacman_packages);
        lemma_backend_starts(p.aur, "packages.aur."@, "AUR"@, Risk::Medium);
        lemma_backend_starts(p.nix, "packages.nix."@, "Nix"@, Risk::Low);
    }
    if let Some(s) = c.services {
        lemma_enable_starts(s.enable, cur.enabled_services);
        lemma_disable_starts(s.disable);
    }
    if let Some(f) = c.files {
        lemma_file_starts(f.managed, cur.managed_files);
    }
}

/// The plan has a hostname action exactly when the host's name is not the declared one.
pub proof fn law_hostname_action_iff_differs(c: ConfigView, cur: CurrentView)
    ensures
        spec_has_action(spec_plan_actions(c, cur), "system.hostname"@) == (c.system matches Some(s)
            && cur.hostname != Some(s.hostname)),
{
    reveal_strlit("system.hostname");
    reveal_strlit("system.timezone");
    reveal_strlit("system.locale");
    reveal_strlit("system.keymap");
    reveal_strlit("packages.pacman.");
    reveal_strlit("packages.aur.");
    reveal_strlit("packages.nix.");
    reveal_strlit("services.enable.");
    reveal_strlit("services.disable.");
    reveal_strlit("files.managed.");
    let id = "system.hostname"@;
    lemma_plan_parts(c, cur);
    let sys_part = match c.system {
        Some(sys) => system_actions(sys, cur),
        None => no_actions(),
    };
    let pkg_part = match c.packages {
        Some(p) => pacman_actions(p.pacman, cur.pacman_packages) + backend_actions(
            p.aur,
            "packages.aur."@,
            "AUR"@,
            Risk::Medium,
        ) + backend_actions(p.nix, "packages.nix."@, "Nix"@, Risk::Low),
        None => no_actions(),
    };
    let svc_part = match c.services {
        Some(s) => enable_actions(s.enable, cur.enabled_services) + disable_actions(s.disable),
        None => no_actions(),
    };
    let file_part = match c.files {
        Some(f) => file_actions(f.managed, cur.managed_files),
        None => no_actions(),
    };
    lemma_has_concat(sys_part + pkg_part + svc_part, file_part, id);
    lemma_has_concat(sys_part + pkg_part, svc_part, id);
    lemma_has_concat(sys_part, pkg_part, id);
    if let Some(p) = c.packages {
        lemma_has_concat(
            pacman_actions(p.pacman, cur.pacman_packages) + backend_actions(p.aur, "packages.aur."@, "AUR"@, Risk::Medium),
            backend_actions(p.nix, "packages.nix."@, "Nix"@, Risk::Low),
            id,
        );
        lemma_has_concat(
            pacman_actions(p.pacman, cur.pacman_packages),
            backend_actions(p.aur, "packages.aur."@, "AUR"@, Risk::Medium),
            id,
        );
        lemma_prefix_excludes(pacman_actions(p.pacman, cur.pacman_packages), "packages.pacman."@, id, 0);
        lemma_prefix_excludes(backend_actions(p.aur, "packages.aur."@, "AUR"@, Risk::Medium), "packages.aur."@, id, 0);
        lemma_prefix_excludes(backend_actions(p.nix, "packages.nix."@, "Nix"@, Risk::Low), "packages.nix."@, id, 0);
    }
    if let Some(s) = c.services {
        lemma_has_concat(enable_actions(s.enable, cur.enabled_services), disable_actions(s.disable), id);
        lemma_prefix_excludes(enable_actions(s.enable, cur.enabled_services), "services.enable."@, id, 1);
        lemma_prefix_excludes(disable_actions(s.disable), "services.disable."@, id, 1);
    }
    if let Some(f) = c.files {
        lemma_prefix_excludes(file_actions(f.managed, cur.managed_files), "files.managed."@, id, 0);
    }
    if let Some(sys) = c.system {
        let first = if cur.hostname != Some(sys.hostname) {
            seq![
                act(
                    "system.hostname"@,
                    "system"@,
                    "set hostname to `"@ + sys.hostname + "`"@,
                    Risk::Medium,
                ),
            ]
        } else {
            no_actions()
        };
        let tz = setting_action("system.timezone"@, "set timezone to `"@, sys.timezone, cur.timezone);
        let lc = setting_action("system.locale"@, "set locale to `"@, sys.locale, cur.locale);
        let km = setting_action("system.keymap"@, "set keymap to `"@, sys.keymap, cur.keymap);
        assert(system_actions(sys, cur) == first + tz + lc + km);
        lemma_has_concat(first + tz + lc, km, id);
        lemma_has_concat(first + tz, lc, id);
        lemma_has_concat(first, tz, id);
        assert(!spec_has_action(tz, id)) by {
            if spec_has_action(tz, id) {
                assert(tz[0].id[7] != id[7]);
            }
        }
        assert(!spec_has_action(lc, id)) by {
            if spec_has_action(lc, id) {
                assert(lc[0].id[7] != id[7]);
            }
        }
        assert(!spec_has_action(km, id)) by {
            if spec_has_action(km, id) {
                assert(km[0].id[7] != id[7]);
            }
        }
        if cur.hostname != Some(sys.hostname) {
            assert(first[0].id == id);
        }
    }
}

proof fn lemma_pacman_has(pkgs: Seq<Seq<char>>, installed: Seq<Seq<char>>, p: Seq<char>)
    ensures
        spec_has_action(pacman_actions(pkgs, installed), "packages.pacman."@ + p) == (pkgs.contains(p)
            && !installed.contains(p)),
    decreases pkgs.len(),
{
    let pre = "packages.pacman."@;
    let id = pre + p;
    if pkgs.len() == 0 {
    } else {
        let q = pkgs.last();
        lemma_pacman_has(pkgs.drop_last(), installed, p);
        let tail = if installed.contains(q) {
            no_actions()
        } else {
            seq![act(pre + q, "packages"@, "ensure pacman package `"@ + q + "` is installed"@, Risk::High)]
        };
        lemma_has_concat(pacman_actions(pkgs.drop_last(), installed), tail, id);
        assert((pre + q == id) == (q == p)) by {
            if pre + q == id {
                assert((pre + q).skip(pre.len() as int) =~= q);
                assert(id.skip(pre.len() as int) =~= p);
            }
        }
        assert(pkgs.contains(p) == (pkgs.drop_last().contains(p) || q == p)) by {
            if pkgs.contains(p) {
                let k = choose|k: int| 0 <= k < pkgs.len() && pkgs[k] == p;
                if k < pkgs.len() - 1 {
                    assert(pkgs.drop_last()[k] == p);
                }
            }
            if pkgs.drop_last().contains(p) {
                let k = choose|k: int| 0 <= k < pkgs.drop_last().len() && pkgs.drop_last()[k] == p;
                assert(pkgs[k] == p);
            }
            if q == p {
                assert(pkgs[pkgs.len() - 1] == p);
            }
        }
        if spec_has_action(tail, id) {
            assert(tail[0].id == id);
        }
        if q == p && !installed.contains(q) {
            assert(tail[0].id == id);
        }
    }
}

/// The plan installs a pacman package exactly when it is declared and not installed yet.
pub proof fn law_pacman_action_iff_missing(c: ConfigView, cur: CurrentView, p: Seq<char>)
    ensures
        spec_has_action(spec_plan_actions(c, cur), "packages.pacman."@ + p) == (c.packages matches Some(pk)
            && pk.pacman.contains(p) && !cur.pacman_packages.contains(p)),
{
    reveal_strlit("system.");
    reveal_strlit("packages.pacman.");
    reveal_strlit("packages.aur.");
    reveal_strlit("packages.nix.");
    reveal_strlit("services.enable.");
    reveal_strlit("services.disable.");
    reveal_strlit("files.managed.");
    let id = "packages.pacman."@ + p;
    assert(id[0] == 'p' && id[9] == 'p');
    lemma_plan_parts(c, cur);
    let sys_part = match c.system {
        Some(sys) => system_actions(sys, cur),
        None => no_actions(),
    };
    let pkg_part = match c.packages {
        Some(pk) => pacman_actions(pk.pacman, cur.pacman_packages) + backend_actions(
            pk.aur,
            "packages.aur."@,
            "AUR"@,
            Risk::Medium,
        ) + backend_actions(pk.nix, "packages.nix."@, "Nix"@, Risk::Low),
        None => no_actions(),
    };
    let svc_part = match c.services {
        Some(s) => enable_actions(s.enable, cur.enabled_services) + disable_actions(s.disable),
        None => no_actions(),
    };
    let file_part = match c.files {
        Some(f) => file_actions(f.managed, cur.managed_files),
        None => no_actions(),
    };
    lemma_has_concat(sys_part + pkg_part + svc_part, file_part, id);
    lemma_has_concat(sys_part + pkg_part, svc_part, id);
    lemma_has_concat(sys_part, pkg_part, id);
    lemma_prefix_excludes(sys_part, "system."@, id, 0);
    if let Some(pk) = c.packages {
        lemma_has_concat(
            pacman_actions(pk.pacman, cur.pacman_packages) + backend_actions(pk.aur, "packages.aur."@, "AUR"@, Risk::Medium),
            backend_actions(pk.nix, "packages.nix."@, "Nix"@, Risk::Low),
            id,
        );
        lemma_has_concat(
            pacman_actions(pk.pacman, cur.pacman_packages),
            backend_actions(pk.aur, "packages.aur."@, "AUR"@, Risk::Medium),
            id,
        );
        lemma_prefix_excludes(backend_actions(pk.aur, "packages.aur."@, "AUR"@, Risk::Medium), "packages.aur."@, id, 9);
        lemma_prefix_excludes(backend_actions(pk.nix, "packages.nix."@, "Nix"@, Risk::Low), "packages.nix."@, id, 9);
        lemma_pacman_has(pk.pacman, cur.pacman_packages, p);
    }
    if let Some(s) = c.services {
        lemma_has_concat(enable_actions(s.enable, cur.enabled_services), disable_actions(s.disable), id);
        lemma_prefix_excludes(enable_actions(s.enable, cur.enabled_services), "services.enable."@, id, 0);
        lemma_prefix_excludes(disable_actions(s.disable), "services.disable."@, id, 0);
    }
    if let Some(f) = c.files {
        lemma_prefix_excludes(file_actions(f.managed, cur.managed_files), "files.managed."@, id, 0);
    }
}

proof fn lemma_enable_has(svcs: Seq<Seq<char>>, enabled: Seq<Seq<char>>, s: Seq<char>)
    ensures
        spec_has_action(enable_actions(svcs, enabled), "services.enable."@ + s) == (svcs.contains(s)
            && !enabled.contains(s)),
    decreases svcs.len(),
{
    let pre = "services.enable."@;
    let id = pre + s;
    if svcs.len() > 0 {
        let q = svcs.last();
        lemma_enable_has(svcs.drop_last(), enabled, s);
        let tail = if enabled.contains(q) {
            no_actions()
        } else {
            seq![act(pre + q, "services"@, "enable service `"@ + q + "`"@, Risk::Medium)]
        };
        lemma_has_concat(enable_actions(svcs.drop_last(), enabled), tail, id);
        assert((pre + q == id) == (q == s)) by {
            if pre + q == id {
                assert((pre + q).skip(pre.len() as int) =~= q);
                assert(id.skip(pre.len() as int) =~= s);
            }
        }
        assert(svcs.contains(s) == (svcs.drop_last().contains(s) || q == s)) by {
            if svcs.contains(s) {
                let k = choose|k: int| 0 <= k < svcs.len() && svcs[k] == s;
                if k < svcs.len() - 1 {
                    assert(svcs.drop_last()[k] == s);
                }
            }
            if svcs.drop_last().contains(s) {
                let k = choose|k: int| 0 <= k < svcs.drop_last().len() && svcs.drop_last()[k] == s;
                assert(svcs[k] == s);
            }
            if q == s {
                assert(svcs[svcs.len() - 1] == s);
            }
        }
        if spec_has_action(tail, id) {
            assert(tail[0].id == id);
        }
        if q == s && !enabled.contains(q) {
            assert(tail[0].id == id);
        }
    }
}

/// The plan enables a service exactly when it is declared for enabling and not enabled yet.
pub proof fn law_enable_action_iff_disabled(c: ConfigView, cur: CurrentView, s: Seq<char>)
    ensures
        spec_has_action(spec_plan_actions(c, cur), "services.enable."@ + s) == (c.services matches Some(sv)
            && sv.enable.contains(s) && !cur.enabled_services.contains(s)),
{
    reveal_strlit("system.");
    reveal_strlit("packages.pacman.");
    reveal_strlit("packages.aur.");
    reveal_strlit("packages.nix.");
    reveal_strlit("services.enable.");
    reveal_strlit("services.disable.");
    reveal_strlit("files.managed.");
    let id = "services.enable."@ + s;
    assert(id[0] == 's' && id[1] == 'e' && id[9] == 'e');
    lemma_plan_parts(c, cur);
    let sys_part = match c.system {
        Some(sys) => system_actions(sys, cur),
        None => no_actions(),
    };
    let pkg_part = match c.packages {
        Some(pk) => pacman_actions(pk.pacman, cur.pacman_packages) + backend_actions(
            pk.aur,
            "packages.aur."@,
            "AUR"@,
            Risk::Medium,
        ) + backend_actions(pk.nix, "packages.nix."@, "Nix"@, Risk::Low),
        None => no_actions(),
    };
    let svc_part = match c.services {
        Some(sv) => enable_actions(sv.enable, cur.enabled_services) + disable_actions(sv.disable),
        None => no_actions(),
    };
    let file_part = match c.files {
        Some(f) => file_actions(f.managed, cur.managed_files),
        None => no_actions(),
    };
    lemma_has_concat(sys_part + pkg_part + svc_part, file_part, id);
    lemma_has_concat(sys_part + pkg_part, svc_part, id);
    lemma_has_concat(sys_part, pkg_part, id);
    lemma_prefix_excludes(sys_part, "system."@, id, 1);
    if let Some(pk) = c.packages {
        lemma_has_concat(
            pacman_actions(pk.pacman, cur.pacman_packages) + backend_actions(pk.aur, "packages.aur."@, "AUR"@, Risk::Medium),
            backend_actions(pk.nix, "packages.nix."@, "Nix"@, Risk::Low),
            id,
        );
        lemma_has_concat(
            pacman_actions(pk.pacman, cur.pacman_packages),
            backend_actions(pk.aur, "packages.aur."@, "AUR"@, Risk::Medium),
            id,
        );
        lemma_prefix_excludes(pacman_actions(pk.pacman, cur.pacman_packages), "packages.pacman."@, id, 0);
        lemma_prefix_excludes(backend_actions(pk.aur, "packages.aur."@, "AUR"@, Risk::Medium), "packages.aur."@, id, 0);
        lemma_prefix_excludes(backend_actions(pk.nix, "packages.nix."@, "Nix"@, Risk::Low), "packages.nix."@, id, 0);
    }
    if let Some(sv) = c.services {
        lemma_has_concat(enable_actions(sv.enable, cur.enabled_services), disable_actions(sv.disable), id);
        lemma_prefix_excludes(disable_actions(sv.disable), "services.disable."@, id, 9);
        lemma_enable_has(sv.enable, cur.enabled_services, s);
    }
    if let Some(f) = c.files {
        lemma_prefix_excludes(file_actions(f.managed, cur.managed_files), "files.managed."@, id, 0);
    }
}

/// The plan's system settings, packages, services and managed-file parts.
pub open spec fn plan_sys_part(c: ConfigView, cur: CurrentView) -> Seq<ActionView> {
    match c.system {
        Some(sys) => system_actions(sys, cur),
        None => no_actions(),
    }
}

pub open spec fn plan_pkg_part(c: ConfigView, cur: CurrentView) -> Seq<ActionView> {
    match c.packages {
        Some(p) => pacman_actions(p.pacman, cur.pacman_packages) + backend_actions(
            p.aur,
            "packages.aur."@,
            "AUR"@,
            Risk::Medium,
        ) + backend_actions(p.nix, "packages.nix."@, "Nix"@, Risk::Low),
        None => no_actions(),
    }
}

pub open spec fn plan_svc_part(c: ConfigView, cur: CurrentView) -> Seq<ActionView> {
    match c.services {
        Some(s) => enable_actions(s.enable, cur.enabled_services) + disable_actions(s.disable),
        None => no_actions(),
    }
}

pub open spec fn plan_file_part(c: ConfigView, cur: CurrentView) -> Seq<ActionView> {
    match c.files {
        Some(f) => file_actions(f.managed, cur.managed_files),
        None => no_actions(),
    }
}

proof fn lemma_plan_split(c: ConfigView, cur: CurrentView, id: Seq<char>)
    ensures
        spec_plan_actions(c, cur) == plan_sys_part(c, cur) + plan_pkg_part(c, cur) + plan_svc_part(c, cur)
            + plan_file_part(c, cur),
        spec_has_action(spec_plan_actions(c, cur), id) == (spec_has_action(plan_sys_part(c, cur), id)
            || spec_has_action(plan_pkg_part(c, cur), id) || spec_has_action(plan_svc_part(c, cur), id)
            || spec_has_action(plan_file_part(c, cur), id)),
{
    let a = plan_sys_part(c, cur);
    let b = plan_pkg_part(c, cur);
    let d = plan_svc_part(c, cur);
    let e = plan_file_part(c, cur);
    lemma_has_concat(a + b + d, e, id);
    lemma_has_concat(a + b, d, id);
    lemma_has_concat(a, b, id);
}

/// The package and service parts hold no id that starts with `s`, `y` or with `f`.
proof fn lemma_pkg_svc_exclude(c: ConfigView, cur: CurrentView, id: Seq<char>)
    requires
        id.len() > 1,
        id[0] == 'f' || (id[0] == 's' && id[1] == 'y'),
    ensures
        !spec_has_action(plan_pkg_part(c, cur), id),
        !spec_has_action(plan_svc_part(c, cur), id),
{
    reveal_strlit("packages.pacman.");
    reveal_strlit("packages.aur.");
    reveal_strlit("packages.nix.");
    reveal_strlit("services.enable.");
    reveal_strlit("services.disable.");
    lemma_plan_parts(c, cur);
    if let Some(pk) = c.packages {
        lemma_has_concat(
            pacman_actions(pk.pacman, cur.pacman_packages) + backend_actions(pk.aur, "packages.aur."@, "AUR"@, Risk::Medium),
            backend_actions(pk.nix, "packages.nix."@, "Nix"@, Risk::Low),
            id,
        );
        lemma_has_concat(
            pacman_actions(pk.pacman, cur.pacman_packages),
            backend_actions(pk.aur, "packages.aur."@, "AUR"@, Risk::Medium),
            id,
        );
        lemma_prefix_excludes(pacman_actions(pk.pacman, cur.pacman_packages), "packages.pacman."@, id, 0);
        lemma_prefix_excludes(backend_actions(pk.aur, "packages.aur."@, "AUR"@, Risk::Medium), "packages.aur."@, id, 0);
        lemma_prefix_excludes(backend_actions(pk.nix, "packages.nix."@, "Nix"@, Risk::Low), "packages.nix."@, id, 0);
    }
    if let Some(sv) = c.services {
        lemma_has_concat(enable_actions(sv.enable, cur.enabled_services), disable_actions(sv.disable), id);
        if id[0] == 'f' {
            lemma_prefix_excludes(enable_actions(sv.enable, cur.enabled_services), "services.enable."@, id, 0);
            lemma_prefix_excludes(disable_actions(sv.disable), "services.disable."@, id, 0);
        } else {
            lemma_prefix_excludes(enable_actions(sv.enable, cur.enabled_services), "services.enable."@, id, 1);
            lemma_prefix_excludes(disable_actions(sv.disable), "services.disable."@, id, 1);
        }
    }
}

proof fn lemma_setting_has(id: Seq<char>, what: Seq<char>, want: Option<Seq<char>>, have: Option<Seq<char>>, other: Seq<char>)
    ensures
        spec_has_action(setting_action(id, what, want, have), other) == (other == id && (want matches Some(v)
            && have != Some(v))),
{
    let a = setting_action(id, what, want, have);
    if spec_has_action(a, other) {
        assert(a[0].id == other);
    }
    if want matches Some(v) && have != Some(v) && other == id {
        assert(a[0].id == other);
    }
}

/// The plan sets the timezone, the locale or the keymap exactly when a value is declared
/// and the host does not already have it.
pub proof fn law_setting_actions_iff_differ(c: ConfigView, cur: CurrentView)
    ensures
        spec_has_action(spec_plan_actions(c, cur), "system.timezone"@) == (c.system matches Some(s)
            && s.timezone matches Some(v) && cur.timezone != Some(v)),
        spec_has_action(spec_plan_actions(c, cur), "system.locale"@) == (c.system matches Some(s)
            && s.locale matches Some(v) && cur.locale != Some(v)),
        spec_has_action(spec_plan_actions(c, cur), "system.keymap"@) == (c.system matches Some(s)
            && s.keymap matches Some(v) && cur.keymap != Some(v)),
{
    reveal_strlit("system.hostname");
    reveal_strlit("system.timezone");
    reveal_strlit("system.locale");
    reveal_strlit("system.keymap");
    reveal_strlit("files.managed.");
    let ids = seq!["system.timezone"@, "system.locale"@, "system.keymap"@];
    assert forall|j: int| 0 <= j < 3 implies {
        let id = #[trigger] ids[j];
        spec_has_action(spec_plan_actions(c, cur), id) == spec_has_action(plan_sys_part(c, cur), id)
    } by {
        let id = ids[j];
        lemma_plan_split(c, cur, id);
        lemma_pkg_svc_exclude(c, cur, id);
        lemma_plan_parts(c, cur);
        if let Some(f) = c.files {
            lemma_prefix_excludes(file_actions(f.managed, cur.managed_files), "files.managed."@, id, 0);
        }
    }
    assert(ids[0] == "system.timezone"@);
    assert(ids[1] == "system.locale"@);
    assert(ids[2] == "system.keymap"@);
    if let Some(sys) = c.system {
        let first = if cur.hostname != Some(sys.hostname) {
            seq![
                act(
                    "system.hostname"@,
                    "system"@,
                    "set hostname to `"@ + sys.hostname + "`"@,
                    Risk::Medium,
                ),
            ]
        } else {
            no_actions()
        };
        let tz = setting_action("system.timezone"@, "set timezone to `"@, sys.timezone, cur.timezone);
        let lc = setting_action("system.locale"@, "set locale to `"@, sys.locale, cur.locale);
        let km = setting_action("system.keymap"@, "set keymap to `"@, sys.keymap, cur.keymap);
        assert(system_actions(sys, cur) == first + tz + lc + km);
        assert forall|j: int| 0 <= j < 3 implies {
            let id = #[trigger] ids[j];
            spec_has_action(system_actions(sys, cur), id) == (spec_has_action(tz, id) || spec_has_action(lc, id)
                || spec_has_action(km, id))
        } by {
            let id = ids[j];
            lemma_has_concat(first + tz + lc, km, id);
            lemma_has_concat(first + tz, lc, id);
            lemma_has_concat(first, tz, id);
            if spec_has_action(first, id) {
                assert(first[0].id[7] != id[7]);
            }
        }
        assert("system.timezone"@ != "system.locale"@ && "system.timezone"@ != "system.keymap"@
            && "system.locale"@ != "system.keymap"@) by {
            assert("system.timezone"@[7] != "system.locale"@[7]);
            assert("system.timezone"@[7] != "system.keymap"@[7]);
            assert("system.locale"@[7] != "system.keymap"@[7]);
        }
        lemma_setting_has("system.timezone"@, "set timezone to `"@, sys.timezone, cur.timezone, "system.timezone"@);
        lemma_setting_has("system.timezone"@, "set timezone to `"@, sys.timezone, cur.timezone, "system.locale"@);
        lemma_setting_has("system.timezone"@, "set timezone to `"@, sys.timezone, cur.timezone, "system.keymap"@);
        lemma_setting_has("system.locale"@, "set locale to `"@, sys.locale, cur.locale, "system.timezone"@);
        lemma_setting_has("system.locale"@, "set locale to `"@, sys.locale, cur.locale, "system.locale"@);
        lemma_setting_has("system.locale"@, "set locale to `"@, sys.locale, cur.locale, "system.keymap"@);
        lemma_setting_has("system.keymap"@, "set keymap to `"@, sys.keymap, cur.keymap, "system.timezone"@);
        lemma_setting_has("system.keymap"@, "set keymap to `"@, sys.keymap, cur.keymap, "system.locale"@);
        lemma_setting_has("system.keymap"@, "set keymap to `"@, sys.keymap, cur.keymap, "system.keymap"@);
    }
}

/// The id of the action that writes managed file `m`.
pub open spec fn file_action_id(m: ManagedFileView) -> Seq<char> {
    "files.managed."@ + trim_start_char(m.path, '/')
}

/// Whether the host's content of `m.path` (by `have`) is not the declared one.
pub open spec fn file_differs(m: ManagedFileView, have: Seq<(Seq<char>, Seq<char>)>) -> bool {
    crate::strmap::spec_get(have, m.path) != Some(m.content)
}

proof fn lemma_file_has(ms: Seq<ManagedFileView>, have: Seq<(Seq<char>, Seq<char>)>, id: Seq<char>)
    ensures
        spec_has_action(file_actions(ms, have), id) == exists|i: int|
            0 <= i < ms.len() && file_action_id(#[trigger] ms[i]) == id && file_differs(ms[i], have),
    decreases ms.len(),
{
    if ms.len() > 0 {
        let m = ms.last();
        let init = ms.drop_last();
        lemma_file_has(init, have, id);
        let tail = if crate::strmap::spec_get(have, m.path) == Some(m.content) {
            no_actions()
        } else {
            seq![act(file_action_id(m), "files"@, "write managed file `"@ + m.path + "`"@, Risk::Medium)]
        };
        assert(file_actions(ms, have) == file_actions(init, have) + tail);
        lemma_has_concat(file_actions(init, have), tail, id);
        if spec_has_action(tail, id) {
            assert(tail[0].id == id);
            assert(ms[ms.len() - 1] == m);
        }
        if exists|i: int| 0 <= i < ms.len() && file_action_id(#[trigger] ms[i]) == id && file_differs(ms[i], have) {
            let i = choose|i: int| 0 <= i < ms.len() && file_action_id(#[trigger] ms[i]) == id && file_differs(ms[i], have);
            if i < ms.len() - 1 {
                assert(init[i] == ms[i]);
            } else {
                assert(tail[0].id == id);
            }
        }
        if exists|i: int| 0 <= i < init.len() && file_action_id(#[trigger] init[i]) == id && file_differs(init[i], have) {
            let i = choose|i: int| 0 <= i < init.len() && file_action_id(#[trigger] init[i]) == id && file_differs(init[i], have);
            assert(ms[i] == init[i]);
        }
    }
}

/// The plan writes a managed file exactly when some declared file with that id has, on
/// the host, content other than the declared one: a file whose content already matches
/// is not written again.
pub proof fn law_file_action_iff_content_differs(c: ConfigView, cur: CurrentView, id: Seq<char>)
    ensures
        (spec_has_action(spec_plan_actions(c, cur), id) && seq_starts_with(id, "files.managed."@)) == (c.files matches Some(
            f,
        ) && exists|i: int|
            0 <= i < f.managed.len() && file_action_id(#[trigger] f.managed[i]) == id && file_differs(
                f.managed[i],
                cur.managed_files,
            )),
{
    reveal_strlit("files.managed.");
    reveal_strlit("system.");
    lemma_plan_split(c, cur, id);
    if seq_starts_with(id, "files.managed."@) {
        assert(id[0] == "files.managed."@[0]);
        assert(id[1] == "files.managed."@[1]);
        lemma_pkg_svc_exclude(c, cur, id);
        lemma_plan_parts(c, cur);
        lemma_prefix_excludes(plan_sys_part(c, cur), "system."@, id, 0);
        if let Some(f) = c.files {
            lemma_file_has(f.managed, cur.managed_files, id);
        }
    } else if let Some(f) = c.files {
        lemma_file_has(f.managed, cur.managed_files, id);
        if exists|i: int|
            0 <= i < f.managed.len() && file_action_id(#[trigger] f.managed[i]) == id && file_differs(
                f.managed[i],
                cur.managed_files,
            ) {
            let i = choose|i: int|
                0 <= i < f.managed.len() && file_action_id(#[trigger] f.managed[i]) == id && file_differs(
                    f.managed[i],
                    cur.managed_files,
                );
            assert(id.take(14) =~= "files.managed."@);
        }
    }
}

proof fn lemma_contains_concat(a: Seq<ActionView>, b: Seq<ActionView>, x: ActionView)
    ensures
        (a + b).contains(x) == (a.contains(x) || b.contains(x)),
{
    if (a + b).contains(x) {
        let k = choose|k: int| 0 <= k < (a + b).len() && (a + b)[k] == x;
        if k >= a.len() {
            assert(b[k - a.len()] == x);
        }
    }
    if a.contains(x) {
        let k = choose|k: int| 0 <= k < a.len() && a[k] == x;
        assert((a + b)[k] == x);
    }
    if b.contains(x) {
        let k = choose|k: int| 0 <= k < b.len() && b[k] == x;
        assert((a + b)[a.len() + k] == x);
    }
}

pub open spec fn seq_subset(a: Seq<Seq<char>>, b: Seq<Seq<char>>) -> bool {
    forall|x: Seq<char>| a.contains(x) ==> b.contains(x)
}

proof fn lemma_pacman_mono(pkgs: Seq<Seq<char>>, i1: Seq<Seq<char>>, i2: Seq<Seq<char>>, x: ActionView)
    requires
        seq_subset(i1, i2),
        pacman_actions(pkgs, i2).contains(x),
    ensures
        pacman_actions(pkgs, i1).contains(x),
    decreases pkgs.len(),
{
    let p = pkgs.last();
    let mk = |inst: Seq<Seq<char>>| if inst.contains(p) {
        no_actions()
    } else {
        seq![act("packages.pacman."@ + p, "packages"@, "ensure pacman package `"@ + p + "` is installed"@, Risk::High)]
    };
    lemma_contains_concat(pacman_actions(pkgs.drop_last(), i2), mk(i2), x);
    lemma_contains_concat(pacman_actions(pkgs.drop_last(), i1), mk(i1), x);
    if pacman_actions(pkgs.drop_last(), i2).contains(x) {
        lemma_pacman_mono(pkgs.drop_last(), i1, i2, x);
    }
}

proof fn lemma_enable_mono(svcs: Seq<Seq<char>>, e1: Seq<Seq<char>>, e2: Seq<Seq<char>>, x: ActionView)
    requires
        seq_subset(e1, e2),
        enable_actions(svcs, e2).contains(x),
    ensures
        enable_actions(svcs, e1).contains(x),
    decreases svcs.len(),
{
    let s = svcs.last();
    let mk = |en: Seq<Seq<char>>| if en.contains(s) {
        no_actions()
    } else {
        seq![act("services.enable."@ + s, "services"@, "enable service `"@ + s + "`"@, Risk::Medium)]
    };
    lemma_contains_concat(enable_actions(svcs.drop_last(), e2), mk(e2), x);
    lemma_contains_concat(enable_actions(svcs.drop_last(), e1), mk(e1), x);
    if enable_actions(svcs.drop_last(), e2).contains(x) {
        lemma_enable_mono(svcs.drop_last(), e1, e2, x);
    }
}

/// `f` places the entries of `a`, in order, at increasing positions of `b`.
pub open spec fn embeds(f: spec_fn(int) -> int, a: Seq<ActionView>, b: Seq<ActionView>) -> bool {
    &&& forall|i: int| 0 <= i < a.len() ==> 0 <= #[trigger] f(i) < b.len() && a[i] == b[f(i)]
    &&& forall|i: int, j: int| 0 <= i < j < a.len() ==> #[trigger] f(i) < #[trigger] f(j)
}

/// `a` is a subsequence of `b`: `b` with some entries left out.
pub open spec fn is_subseq(a: Seq<ActionView>, b: Seq<ActionView>) -> bool {
    exists|f: spec_fn(int) -> int| #[trigger] embeds(f, a, b)
}

proof fn lemma_subseq_refl(a: Seq<ActionView>)
    ensures
        is_subseq(a, a),
{
    let f = |i: int| i;
    assert(embeds(f, a, a));
}

proof fn lemma_subseq_empty(b: Seq<ActionView>)
    ensures
        is_subseq(Seq::<ActionView>::empty(), b),
{
    let f = |i: int| i;
    assert(embeds(f, Seq::<ActionView>::empty(), b));
}

proof fn lemma_subseq_concat(a1: Seq<ActionView>, b1: Seq<ActionView>, a2: Seq<ActionView>, b2: Seq<ActionView>)
    requires
        is_subseq(a1, b1),
        is_subseq(a2, b2),
    ensures
        is_subseq(a1 + a2, b1 + b2),
{
    let f1 = choose|f: spec_fn(int) -> int| #[trigger] embeds(f, a1, b1);
    let f2 = choose|f: spec_fn(int) -> int| #[trigger] embeds(f, a2, b2);
    let n1 = a1.len() as int;
    let m1 = b1.len() as int;
    let f = |i: int| if i < n1 {
        f1(i)
    } else {
        m1 + f2(i - n1)
    };
    let a = a1 + a2;
    let b = b1 + b2;
    assert forall|i: int| 0 <= i < a.len() implies 0 <= #[trigger] f(i) < b.len() && a[i] == b[f(i)] by {
        if i < n1 {
            assert(0 <= f1(i) < m1 && a1[i] == b1[f1(i)]);
        } else {
            assert(0 <= f2(i - n1) < b2.len() && a2[i - n1] == b2[f2(i - n1)]);
        }
    }
    assert forall|i: int, j: int| 0 <= i < j < a.len() implies #[trigger] f(i) < #[trigger] f(j) by {
        if j < n1 {
            assert(f1(i) < f1(j));
        } else if i < n1 {
            assert(0 <= f1(i) < m1);
            assert(0 <= f2(j - n1));
        } else {
            assert(f2(i - n1) < f2(j - n1));
        }
    }
    assert(embeds(f, a, b));
}

proof fn lemma_pacman_subseq(pkgs: Seq<Seq<char>>, i1: Seq<Seq<char>>, i2: Seq<Seq<char>>)
    requires
        seq_subset(i1, i2),
    ensures
        is_subseq(pacman_actions(pkgs, i2), pacman_actions(pkgs, i1)),
    decreases pkgs.len(),
{
    if pkgs.len() == 0 {
        lemma_subseq_refl(no_actions());
    } else {
        let p = pkgs.last();
        lemma_pacman_subseq(pkgs.drop_last(), i1, i2);
        let one = seq![act("packages.pacman."@ + p, "packages"@, "ensure pacman package `"@ + p + "` is installed"@, Risk::High)];
        let t1 = if i1.contains(p) { no_actions() } else { one };
        let t2 = if i2.contains(p) { no_actions() } else { one };
        if i2.contains(p) {
            lemma_subseq_empty(t1);
        } else {
            assert(!i1.contains(p));
            lemma_subseq_refl(one);
        }
        lemma_subseq_concat(pacman_actions(pkgs.drop_last(), i2), pacman_actions(pkgs.drop_last(), i1), t2, t1);
    }
}

proof fn lemma_enable_subseq(svcs: Seq<Seq<char>>, e1: Seq<Seq<char>>, e2: Seq<Seq<char>>)
    requires
        seq_subset(e1, e2),
    ensures
        is_subseq(enable_actions(svcs, e2), enable_actions(svcs, e1)),
    decreases svcs.len(),
{
    if svcs.len() == 0 {
        lemma_subseq_refl(no_actions());
    } else {
        let s = svcs.last();
        lemma_enable_subseq(svcs.drop_last(), e1, e2);
        let one = seq![act("services.enable."@ + s, "services"@, "enable service `"@ + s + "`"@, Risk::Medium)];
        let t1 = if e1.contains(s) { no_actions() } else { one };
        let t2 = if e2.contains(s) { no_actions() } else { one };
        if e2.contains(s) {
            lemma_subseq_empty(t1);
        } else {
            assert(!e1.contains(s));
            lemma_subseq_refl(one);
        }
        lemma_subseq_concat(enable_actions(svcs.drop_last(), e2), enable_actions(svcs.drop_last(), e1), t2, t1);
    }
}

/// The plan for the host with more installed is a subsequence of the plan for the host
/// with less.
proof fn lemma_plan_subseq(c: ConfigView, cur1: CurrentView, cur2: CurrentView)
    requires
        cur2 == (CurrentView {
            pacman_packages: cur2.pacman_packages,
            enabled_services: cur2.enabled_services,
            ..cur1
        }),
        seq_subset(cur1.pacman_packages, cur2.pacman_packages),
        seq_subset(cur1.enabled_services, cur2.enabled_services),
    ensures
        is_subseq(spec_plan_actions(c, cur2), spec_plan_actions(c, cur1)),
{
    lemma_plan_split(c, cur1, seq![]);
    lemma_plan_split(c, cur2, seq![]);
    let (a1, b1, d1, e1) = (plan_sys_part(c, cur1), plan_pkg_part(c, cur1), plan_svc_part(c, cur1), plan_file_part(c, cur1));
    let (a2, b2, d2, e2) = (plan_sys_part(c, cur2), plan_pkg_part(c, cur2), plan_svc_part(c, cur2), plan_file_part(c, cur2));
    assert(a1 == a2);
    assert(e1 == e2);
    lemma_subseq_refl(a1);
    lemma_subseq_refl(e1);
    match c.packages {
        Some(pk) => {
            let aur = backend_actions(pk.aur, "packages.aur."@, "AUR"@, Risk::Medium);
            let nix = backend_actions(pk.nix, "packages.nix."@, "Nix"@, Risk::Low);
            lemma_pacman_subseq(pk.pacman, cur1.pacman_packages, cur2.pacman_packages);
            lemma_subseq_refl(aur);
            lemma_subseq_refl(nix);
            lemma_subseq_concat(
                pacman_actions(pk.pacman, cur2.pacman_packages),
                pacman_actions(pk.pacman, cur1.pacman_packages),
                aur,
                aur,
            );
            lemma_subseq_concat(
                pacman_actions(pk.pacman, cur2.pacman_packages) + aur,
                pacman_actions(pk.pacman, cur1.pacman_packages) + aur,
                nix,
                nix,
            );
        },
        None => {
            lemma_subseq_refl(b1);
        },
    }
    match c.services {
        Some(sv) => {
            let dis = disable_actions(sv.disable);
            lemma_enable_subseq(sv.enable, cur1.enabled_services, cur2.enabled_services);
            lemma_subseq_refl(dis);
            lemma_subseq_concat(
                enable_actions(sv.enable, cur2.enabled_services),
                enable_actions(sv.enable, cur1.enabled_services),
                dis,
                dis,
            );
        },
        None => {
            lemma_subseq_refl(d1);
        },
    }
    lemma_subseq_concat(a2, a1, b2, b1);
    lemma_subseq_concat(a2 + b2, a1 + b1, d2, d1);
    lemma_subseq_concat(a2 + b2 + d2, a1 + b1 + d1, e2, e1);
}

/// Knowing that more packages are installed or more services enabled never adds an
/// action: the plan for the host with more is the plan for the host with less with some
/// actions left out, so every action it holds is planned for the host with less.
pub proof fn law_more_installed_never_adds(c: ConfigView, cur1: CurrentView, cur2: CurrentView)
    requires
        cur2 == (CurrentView {
            pacman_packages: cur2.pacman_packages,
            enabled_services: cur2.enabled_services,
            ..cur1
        }),
        seq_subset(cur1.pacman_packages, cur2.pacman_packages),
        seq_subset(cur1.enabled_services, cur2.enabled_services),
    ensures
        is_subseq(spec_plan_actions(c, cur2), spec_plan_actions(c, cur1)),
        forall|x: ActionView|
            spec_plan_actions(c, cur2).contains(x) ==> #[trigger] spec_plan_actions(c, cur1).contains(x),
{
    lemma_plan_subseq(c, cur1, cur2);
    assert forall|x: ActionView| spec_plan_actions(c, cur2).contains(x) implies #[trigger] spec_plan_actions(
        c,
        cur1,
    ).contains(x) by {
        lemma_plan_split(c, cur1, x.id);
        lemma_plan_split(c, cur2, x.id);
        let (a1, b1, d1, e1) = (plan_sys_part(c, cur1), plan_pkg_part(c, cur1), plan_svc_part(c, cur1), plan_file_part(c, cur1));
        let (a2, b2, d2, e2) = (plan_sys_part(c, cur2), plan_pkg_part(c, cur2), plan_svc_part(c, cur2), plan_file_part(c, cur2));
        assert(a1 == a2);
        assert(e1 == e2);
        lemma_contains_concat(a2 + b2 + d2, e2, x);
        lemma_contains_concat(a2 + b2, d2, x);
        lemma_contains_concat(a2, b2, x);
        lemma_contains_concat(a1 + b1 + d1, e1, x);
        lemma_contains_concat(a1 + b1, d1, x);
        lemma_contains_concat(a1, b1, x);
        if let Some(pk) = c.packages {
            let aur = backend_actions(pk.aur, "packages.aur."@, "AUR"@, Risk::Medium);
            let nix = backend_actions(pk.nix, "packages.nix."@, "Nix"@, Risk::Low);
            lemma_contains_concat(pacman_actions(pk.pacman, cur2.pacman_packages) + aur, nix, x);
            lemma_contains_concat(pacman_actions(pk.pacman, cur2.pacman_packages), aur, x);
            lemma_contains_concat(pacman_actions(pk.pacman, cur1.pacman_packages) + aur, nix, x);
            lemma_contains_concat(pacman_actions(pk.pacman, cur1.pacman_packages), aur, x);
            if pacman_actions(pk.pacman, cur2.pacman_packages).contains(x) {
                lemma_pacman_mono(pk.pacman, cur1.pacman_packages, cur2.pacman_packages, x);
            }
        }
        if let Some(sv) = c.services {
            let dis = disable_actions(sv.disable);
            lemma_contains_concat(enable_actions(sv.enable, cur2.enabled_services), dis, x);
            lemma_contains_concat(enable_actions(sv.enable, cur1.enabled_services), dis, x);
            if enable_actions(sv.enable, cur2.enabled_services).contains(x) {
                lemma_enable_mono(sv.enable, cur1.enabled_services, cur2.enabled_services, x);
            }
        }
    }
}

} // verus!
