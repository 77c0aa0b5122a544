// Human-readable plan reports.

use vstd::prelude::*;

use super::action::{risk_str, Action, ActionView};
use crate::config::types::{
    opt_view, strings_view, views_of, BasaltConfig, ConfigView, ManagedFileConfig,
    ManagedFileView, PackagesView, ServicesView, SystemView,
};
use crate::state::store::{CurrentState, CurrentView};
use crate::strmap::{spec_get, StrMap, StrSet};
use crate::text::{push_char, push_str, str_eq};

verus! {

/// The lines that describe one action.
pub open spec fn action_block(a: ActionView) -> Seq<char> {
    "  - id: "@ + a.id + "\n    domain: "@ + a.domain + "\n    risk: "@ + risk_str(a.risk)
        + "\n    plan: "@ + a.description + "\n"@
}

pub open spec fn action_blocks(acts: Seq<ActionView>) -> Seq<char>
    decreases acts.len(),
{
    if acts.len() == 0 {
        Seq::<char>::empty()
    } else {
        action_blocks(acts.drop_last()) + action_block(acts.last())
    }
}

pub open spec fn spec_render_dry_run(acts: Seq<ActionView>) -> Seq<char> {
    "Basalt apply dry-run\n\nNo changes will be made.\n\nactions:\n"@ + if acts.len() == 0 {
        "  none\n"@
    } else {
        action_blocks(acts)
    }
}

pub open spec fn spec_render_check(acts: Seq<ActionView>) -> Seq<char> {
    "Basalt apply check\n\n"@ + if acts.len() == 0 {
        "No changes needed.\n"@
    } else {
        "Pending action(s):\n"@ + action_blocks(acts)
    }
}

fn push_action_blocks(out: &mut String, actions: &[Action])
    ensures
        final(out)@ == old(out)@ + action_blocks(views_of(actions@)),
{
    let ghost o0 = out@;
    let ghost acts = views_of(actions@);
    let mut i: usize = 0;
    assert(o0 + action_blocks(acts.take(0)) =~= o0);
    while i < actions.len()
        invariant
            i <= actions.len(),
            acts == views_of(actions@),
            out@ == o0 + action_blocks(acts.take(i as int)),
        decreases actions.len() - i,
    {
        assert(acts.take(i + 1).drop_last() =~= acts.take(i as int));
        let action = &actions[i];
        assert(acts.take(i + 1).last() == action@);
        push_str(out, "  - id: ");
        push_str(out, action.id.as_str());
        push_str(out, "\n    domain: ");
        push_str(out, action.domain.as_str());
        push_str(out, "\n    risk: ");
        push_str(out, action.risk.as_str());
        push_str(out, "\n    plan: ");
        push_str(out, action.description.as_str());
        push_str(out, "\n");
        assert(out@ =~= o0 + action_blocks(acts.take(i + 1)));
        i += 1;
    }
    assert(acts.take(actions.len() as int) =~= acts);
}

/// The dry-run report: every planned action, or `none`.
pub fn render_dry_run(actions: &[Action]) -> (out: String)
    ensures
        out@ == spec_render_dry_run(views_of(actions@)),
{
    let mut out = String::new();
    push_str(&mut out, "Basalt apply dry-run\n\nNo changes will be made.\n\nactions:\n");
    if actions.len() == 0 {
        push_str(&mut out, "  none\n");
    } else {
        push_action_blocks(&mut out, actions);
    }
    assert(out@ =~= spec_render_dry_run(views_of(actions@)));
    out
}

/// The check report: pending actions, or that nothing needs to change.
pub fn render_check(actions: &[Action]) -> (out: String)
    ensures
        out@ == spec_render_check(views_of(actions@)),
{
    let mut out = String::new();
    push_str(&mut out, "Basalt apply check\n\n");
    if actions.len() == 0 {
        push_str(&mut out, "No changes needed.\n");
    } else {
        push_str(&mut out, "Pending action(s):\n");
        push_action_blocks(&mut out, actions);
    }
    assert(out@ =~= spec_render_check(views_of(actions@)));
    out
}

/// `  <marker> <key>: <value>`
pub open spec fn status_line(marker: Seq<char>, key: Seq<char>, value: Seq<char>) -> Seq<char> {
    "  "@ + marker + " "@ + key + ": "@ + value + "\n"@
}

pub open spec fn hostname_line(desired: Seq<char>, current: Option<Seq<char>>) -> Seq<char> {
    if current == Some(desired) {
        status_line("="@, "hostname"@, desired)
    } else {
        status_line(
            "+"@,
            "hostname"@,
            desired + " (current: "@ + match current {
                Some(h) => h,
                None => "unknown"@,
            } + ")"@,
        )
    }
}

pub open spec fn optional_status(key: Seq<char>, desired: Option<Seq<char>>, current: Option<Seq<char>>) -> Seq<char> {
    match desired {
        None => status_line("="@, key, "unset"@),
        Some(d) => status_line(
            if current == Some(d) {
                "="@
            } else {
                "+"@
            },
            key,
            d,
        ),
    }
}

pub open spec fn system_section(sys: Option<SystemView>, cur: CurrentView) -> Seq<char> {
    "system:\n"@ + match sys {
        Some(s) => hostname_line(s.hostname, cur.hostname) + optional_status(
            "timezone"@,
            s.timezone,
            cur.timezone,
        ) + optional_status("locale"@, s.locale, cur.locale) + optional_status(
            "keymap"@,
            s.keymap,
            cur.keymap,
        ),
        None => "  none\n"@,
    }
}

/// How a list entry is marked: `+` for a change, `=` for what already holds.
pub enum ListKind {
    /// Always a change.
    Plain,
    /// Unchanged when the entry is in the current set.
    Present,
    /// Unchanged when the entry, or its `.service` unit, is enabled.
    Enabled,
    /// A change when the entry, or its `.service` unit, is enabled.
    Disabled,
}

pub open spec fn entry_marker(kind: ListKind, v: Seq<char>, current: Seq<Seq<char>>) -> Seq<char> {
    let unit_on = current.contains(v) || current.contains(v + ".service"@);
    match kind {
        ListKind::Plain => "+"@,
        ListKind::Present => if current.contains(v) {
            "="@
        } else {
            "+"@
        },
        ListKind::Enabled => if unit_on {
            "="@
        } else {
            "+"@
        },
        ListKind::Disabled => if unit_on {
            "+"@
        } else {
            "="@
        },
    }
}

pub open spec fn list_entries(kind: ListKind, values: Seq<Seq<char>>, current: Seq<Seq<char>>) -> Seq<char>
    decreases values.len(),
{
    if values.len() == 0 {
        Seq::<char>::empty()
    } else {
        list_entries(kind, values.drop_last(), current) + "    "@ + entry_marker(
            kind,
            values.last(),
            current,
        ) + " "@ + values.last() + "\n"@
    }
}

/// `  <key>:` and its entries, or `none`.
pub open spec fn list_block(kind: ListKind, key: Seq<char>, values: Seq<Seq<char>>, current: Seq<Seq<char>>) -> Seq<char> {
    "  "@ + key + ":\n"@ + if values.len() == 0 {
        "    none\n"@
    } else {
        list_entries(kind, values, current)
    }
}

pub open spec fn packages_section(p: Option<PackagesView>, cur: CurrentView) -> Seq<char> {
    "packages:\n"@ + match p {
        Some(p) => list_block(ListKind::Present, "pacman"@, p.pacman, cur.pacman_packages)
            + list_block(ListKind::Plain, "aur"@, p.aur, seq![]) + list_block(
            ListKind::Plain,
            "nix"@,
            p.nix,
            seq![],
        ),
        None => "  none\n"@,
    }
}

pub open spec fn services_section(s: Option<ServicesView>, cur: CurrentView) -> Seq<char> {
    "services:\n"@ + match s {
        Some(s) => list_block(ListKind::Enabled, "enable"@, s.enable, cur.enabled_services)
            + list_block(ListKind::Disabled, "disable"@, s.disable, cur.enabled_services),
        None => "  none\n"@,
    }
}

pub open spec fn file_line(m: ManagedFileView, current: Seq<(Seq<char>, Seq<char>)>) -> Seq<char> {
    "    "@ + (if spec_get(current, m.path) == Some(m.content) {
        "="@
    } else {
        "+"@
    }) + " "@ + m.path + match m.mode {
        Some(mode) => " mode="@ + mode,
        None => Seq::<char>::empty(),
    } + "\n"@
}

pub open spec fn file_lines(ms: Seq<ManagedFileView>, current: Seq<(Seq<char>, Seq<char>)>) -> Seq<char>
    decreases ms.len(),
{
    if ms.len() == 0 {
        Seq::<char>::empty()
    } else {
        file_lines(ms.drop_last(), current) + file_line(ms.last(), current)
    }
}

pub open spec fn files_section(f: Option<Seq<ManagedFileView>>, cur: CurrentView) -> Seq<char> {
    "files:\n"@ + match f {
        Some(ms) => if ms.len() == 0 {
            "  managed:\n    none\n"@
        } else {
            "  managed:\n"@ + file_lines(ms, cur.managed_files)
        },
        None => "  none\n"@,
    }
}

/// The diff report of configuration `c` against the host described by `cur`.
pub open spec fn spec_render_diff(c: ConfigView, cur: CurrentView) -> Seq<char> {
    "Basalt diff plan\n\n"@ + system_section(c.system, cur) + "\n"@ + packages_section(
        c.packages,
        cur,
    ) + "\n"@ + services_section(c.services, cur) + "\n"@ + files_section(
        match c.files {
            Some(f) => Some(f.managed),
            None => None,
        },
        cur,
    )
}

fn push_status(out: &mut String, marker: &str, key: &str, value: &str)
    ensures
        final(out)@ == old(out)@ + status_line(marker@, key@, value@),
{
    push_str(out, "  ");
    push_str(out, marker);
    push_str(out, " ");
    push_str(out, key);
    push_str(out, ": ");
    push_str(out, value);
    push_str(out, "\n");
    assert(out@ =~= old(out)@ + status_line(marker@, key@, value@));
}

fn push_optional_system_status(out: &mut String, key: &str, desired: &Option<String>, current: &Option<String>)
    ensures
        final(out)@ == old(out)@ + optional_status(key@, opt_view(*desired), opt_view(*current)),
{
    match desired {
        None => push_status(out, "=", key, "unset"),
        Some(d) => {
            let same = match current {
                Some(c) => str_eq(c.as_str(), d.as_str()),
                None => false,
            };
            let marker = if same {
                "="
            } else {
                "+"
            };
            push_status(out, marker, key, d.as_str());
        },
    }
}

fn render_system(config: &BasaltConfig, current: &CurrentState, out: &mut String)
    ensures
        final(out)@ == old(out)@ + system_section(config@.system, current@),
{
    push_str(out, "system:\n");
    let ghost o1 = out@;
    match &config.system {
        Some(system) => {
            let same = match &current.hostname {
                Some(h) => str_eq(h.as_str(), system.hostname.as_str()),
                None => false,
            };
            if same {
                push_status(out, "=", "hostname", system.hostname.as_str());
            } else {
                let mut value = crate::text::cat2(system.hostname.as_str(), " (current: ");
                match &current.hostname {
                    Some(h) => push_str(&mut value, h.as_str()),
                    None => push_str(&mut value, "unknown"),
                }
                push_str(&mut value, ")");
                push_status(out, "+", "hostname", value.as_str());
            }
            let ghost o2 = out@;
            push_optional_system_status(out, "timezone", &system.timezone, &current.timezone);
            let ghost o3 = out@;
            push_optional_system_status(out, "locale", &system.locale, &current.locale);
            let ghost o4 = out@;
            push_optional_system_status(out, "keymap", &system.keymap, &current.keymap);
            assert(o2 =~= o1 + hostname_line(system@.hostname, current@.hostname));
            assert(out@ =~= o1 + (o2.skip(o1.len() as int) + o3.skip(o2.len() as int) + o4.skip(
                o3.len() as int,
            ) + out@.skip(o4.len() as int)));
        },
        None => push_str(out, "  none\n"),
    }
    assert(out@ =~= old(out)@ + system_section(config@.system, current@));
}

fn entry_marker_exec(kind: &ListKind, value: &str, current: &StrSet) -> (m: &'static str)
    ensures
        m@ == entry_marker(*kind, value@, current@),
{
    match kind {
        ListKind::Plain => "+",
        ListKind::Present => if current.contains(value) {
            "="
        } else {
            "+"
        },
        ListKind::Enabled | ListKind::Disabled => {
            let unit = crate::text::cat2(value, ".service");
            let on = current.contains(value) || current.contains(unit.as_str());
            match kind {
                ListKind::Enabled => if on {
                    "="
                } else {
                    "+"
                },
                _ => if on {
                    "+"
                } else {
                    "="
                },
            }
        },
    }
}

fn push_entries(out: &mut String, kind: &ListKind, key: &str, values: &Vec<String>, current: &StrSet)
    ensures
        final(out)@ == old(out)@ + list_block(*kind, key@, strings_view(values@), current@),
{
    let ghost o0 = out@;
    push_str(out, "  ");
    push_str(out, key);
    push_str(out, ":\n");
    if values.len() == 0 {
        push_str(out, "    none\n");
        assert(out@ =~= o0 + list_block(*kind, key@, strings_view(values@), current@));
        return;
    }
    let ghost o1 = out@;
    let ghost vs = strings_view(values@);
    let mut i: usize = 0;
    assert(o1 + list_entries(*kind, vs.take(0), current@) =~= o1);
    while i < values.len()
        invariant
            i <= values.len(),
            vs == strings_view(values@),
            out@ == o1 + list_entries(*kind, vs.take(i as int), current@),
        decreases values.len() - i,
    {
        assert(vs.take(i + 1).drop_last() =~= vs.take(i as int));
        let v = values[i].as_str();
        assert(vs.take(i + 1).last() == v@);
        let marker = entry_marker_exec(kind, v, current);
        push_str(out, "    ");
        push_str(out, marker);
        push_str(out, " ");
        push_str(out, v);
        push_str(out, "\n");
        assert(out@ =~= o1 + list_entries(*kind, vs.take(i + 1), current@));
        i += 1;
    }
    assert(vs.take(values.len() as int) =~= vs);
    assert(out@ =~= o0 + list_block(*kind, key@, strings_view(values@), current@));
}

fn push_list(out: &mut String, key: &str, values: &Vec<String>)
    ensures
        final(out)@ == old(out)@ + list_block(ListKind::Plain, key@, strings_view(values@), seq![]),
{
    let none = StrSet::new();
    push_entries(out, &ListKind::Plain, key, values, &none);
    assert forall|vs: Seq<Seq<char>>| list_entries(ListKind::Plain, vs, none@) == list_entries(
        ListKind::Plain,
        vs,
        seq![],
    ) by {
        lemma_plain_entries(vs, none@, seq![]);
    }
}

proof fn lemma_plain_entries(vs: Seq<Seq<char>>, a: Seq<Seq<char>>, b: Seq<Seq<char>>)
    ensures
        list_entries(ListKind::Plain, vs, a) == list_entries(ListKind::Plain, vs, b),
    decreases vs.len(),
{
    if vs.len() > 0 {
        lemma_plain_entries(vs.drop_last(), a, b);
    }
}

fn push_package_list(out: &mut String, key: &str, values: &Vec<String>, current: &StrSet)
    ensures
        final(out)@ == old(out)@ + list_block(ListKind::Present, key@, strings_view(values@), current@),
{
    push_entries(out, &ListKind::Present, key, values, current);
}

fn push_service_list(out: &mut String, key: &str, values: &Vec<String>, current: &StrSet)
    ensures
        final(out)@ == old(out)@ + list_block(ListKind::Enabled, key@, strings_view(values@), current@),
{
    push_entries(out, &ListKind::Enabled, key, values, current);
}

fn push_service_disable_list(out: &mut String, key: &str, values: &Vec<String>, current: &StrSet)
    ensures
        final(out)@ == old(out)@ + list_block(ListKind::Disabled, key@, strings_view(values@), current@),
{
    push_entries(out, &ListKind::Disabled, key, values, current);
}

fn render_packages(config: &BasaltConfig, current: &CurrentState, out: &mut String)
    ensures
        final(out)@ == old(out)@ + packages_section(config@.packages, current@),
{
    push_str(out, "packages:\n");
    let ghost o1 = out@;
    match &config.packages {
        Some(packages) => {
            push_package_list(out, "pacman", &packages.pacman, &current.pacman_packages);
            let ghost o2 = out@;
            push_list(out, "aur", &packages.aur);
            let ghost o3 = out@;
            push_list(out, "nix", &packages.nix);
            assert(out@ =~= o1 + (o2.skip(o1.len() as int) + o3.skip(o2.len() as int) + out@.skip(
                o3.len() as int,
            )));
        },
        None => push_str(out, "  none\n"),
    }
    assert(out@ =~= old(out)@ + packages_section(config@.packages, current@));
}

fn render_services(config: &BasaltConfig, current: &CurrentState, out: &mut String)
    ensures
        final(out)@ == old(out)@ + services_section(config@.services, current@),
{
    push_str(out, "services:\n");
    let ghost o1 = out@;
    match &config.services {
        Some(services) => {
            push_service_list(out, "enable", &services.enable, &current.enabled_services);
            let ghost o2 = out@;
            push_service_disable_list(out, "disable", &services.disable, &current.enabled_services);
            assert(out@ =~= o1 + (o2.skip(o1.len() as int) + out@.skip(o2.len() as int)));
        },
        None => push_str(out, "  none\n"),
    }
    assert(out@ =~= old(out)@ + services_section(config@.services, current@));
}

fn push_file_line(out: &mut String, file: &ManagedFileConfig, current: &StrMap<String>)
    ensures
        final(out)@ == old(out)@ + file_line(file@, crate::config::types::string_map_view(current@)),
{
    let same = match current.get(file.path.as_str()) {
        Some(content) => str_eq(content.as_str(), file.content.as_str()),
        None => false,
    };
    proof {
        crate::strmap::lemma_get_view_entries(current@, file.path@);
    }
    let marker = if same {
        "="
    } else {
        "+"
    };
    push_str(out, "    ");
    push_str(out, marker);
    push_str(out, " ");
    push_str(out, file.path.as_str());
    if let Some(mode) = &file.mode {
        push_str(out, " mode=");
        push_str(out, mode.as_str());
    }
    push_str(out, "\n");
    assert(out@ =~= old(out)@ + file_line(file@, crate::config::types::string_map_view(current@)));
}

fn render_files(config: &BasaltConfig, current: &CurrentState, out: &mut String)
    ensures
        final(out)@ == old(out)@ + files_section(
            match config@.files {
                Some(f) => Some(f.managed),
                None => None,
            },
            current@,
        ),
{
    push_str(out, "files:\n");
    match &config.files {
        Some(files) => {
            if files.managed.len() == 0 {
                push_str(out, "  managed:\n    none\n");
            } else {
                push_str(out, "  managed:\n");
                let ghost o1 = out@;
                let ghost ms = views_of(files.managed@);
                let ghost cur = current@.managed_files;
                let mut i: usize = 0;
                assert(o1 + file_lines(ms.take(0), cur) =~= o1);
                while i < files.managed.len()
                    invariant
                        i <= files.managed.len(),
                        ms == views_of(files.managed@),
                        cur == current@.managed_files,
                        out@ == o1 + file_lines(ms.take(i as int), cur),
                    decreases files.managed.len() - i,
                {
                    assert(ms.take(i + 1).drop_last() =~= ms.take(i as int));
                    assert(ms.take(i + 1).last() == files.managed@[i as int]@);
                    push_file_line(out, &files.managed[i], &current.managed_files);
                    assert(out@ =~= o1 + file_lines(ms.take(i + 1), cur));
                    i += 1;
                }
                assert(ms.take(files.managed.len() as int) =~= ms);
            }
        },
        None => push_str(out, "  none\n"),
    }
    assert(out@ =~= old(out)@ + files_section(
        match config@.files {
            Some(f) => Some(f.managed),
            None => None,
        },
        current@,
    ));
}

/// The diff report: each domain of `config` against `current`, `=` marking what already
/// holds and `+` what would change.
pub fn render_diff(config: &BasaltConfig, current: &CurrentState) -> (out: String)
    ensures
        out@ == spec_render_diff(config@, current@),
{
    let mut out = String::new();
    push_str(&mut out, "Basalt diff plan\n\n");
    let ghost o1 = out@;
    render_system(config, current, &mut out);
    push_char(&mut out, '\n');
    let ghost o2 = out@;
    render_packages(config, current, &mut out);
    push_char(&mut out, '\n');
    let ghost o3 = out@;
    render_services(config, current, &mut out);
    push_char(&mut out, '\n');
    let ghost o4 = out@;
    render_files(config, current, &mut out);
    proof {
        reveal_strlit("\n");
    }
    assert(out@ =~= o1 + o2.skip(o1.len() as int) + o3.skip(o2.len() as int) + o4.skip(
        o3.len() as int,
    ) + out@.skip(o4.len() as int));
    out
}

proof fn lemma_entry_in(kind: ListKind, vs: Seq<Seq<char>>, current: Seq<Seq<char>>, k: int)
    requires
        0 <= k < vs.len(),
    ensures
        crate::text::has_infix(
            list_entries(kind, vs, current),
            "    "@ + entry_marker(kind, vs[k], current) + " "@ + vs[k] + "\n"@,
        ),
    decreases vs.len(),
{
    let line = "    "@ + entry_marker(kind, vs[k], current) + " "@ + vs[k] + "\n"@;
    let head = list_entries(kind, vs.drop_last(), current);
    let last = "    "@ + entry_marker(kind, vs.last(), current) + " "@ + vs.last() + "\n"@;
    assert(list_entries(kind, vs, current) =~= head + last);
    if k == vs.len() - 1 {
        crate::text::lemma_infix_self(line);
        crate::text::lemma_infix_extend(head, line, Seq::<char>::empty(), line);
    } else {
        assert(vs.drop_last()[k] == vs[k]);
        lemma_entry_in(kind, vs.drop_last(), current, k);
        crate::text::lemma_infix_extend(Seq::<char>::empty(), head, last, line);
    }
}

/// The line the diff shows for a service to disable: `+` (a pending change) when the
/// service, under its name or as its `.service` unit, is enabled now, and `=` otherwise.
pub open spec fn disable_line(d: Seq<char>, enabled: Seq<Seq<char>>) -> Seq<char> {
    "    "@ + (if enabled.contains(d) || enabled.contains(d + ".service"@) {
        "+"@
    } else {
        "="@
    }) + " "@ + d + "\n"@
}

/// The diff report shows each service to disable with `+` when it, or its `.service`
/// unit, is enabled on the host (disabling it is a change still to make), and with `=`
/// when it is not enabled under either name.
pub proof fn law_diff_disable_marker(c: ConfigView, cur: CurrentView)
    ensures
        c.services matches Some(sv) ==> forall|k: int|
            0 <= k < sv.disable.len() ==> crate::text::has_infix(
                spec_render_diff(c, cur),
                disable_line(#[trigger] sv.disable[k], cur.enabled_services),
            ),
{
    if let Some(sv) = c.services {
        assert forall|k: int| 0 <= k < sv.disable.len() implies crate::text::has_infix(
            spec_render_diff(c, cur),
            disable_line(#[trigger] sv.disable[k], cur.enabled_services),
        ) by {
            let line = disable_line(sv.disable[k], cur.enabled_services);
            let e = Seq::<char>::empty();
            let entries = list_entries(ListKind::Disabled, sv.disable, cur.enabled_services);
            lemma_entry_in(ListKind::Disabled, sv.disable, cur.enabled_services, k);
            assert("    "@ + entry_marker(ListKind::Disabled, sv.disable[k], cur.enabled_services) + " "@
                + sv.disable[k] + "\n"@ == line);
            let lbd = list_block(ListKind::Disabled, "disable"@, sv.disable, cur.enabled_services);
            assert(lbd == "  "@ + "disable"@ + ":\n"@ + entries);
            crate::text::lemma_infix_extend("  "@ + "disable"@ + ":\n"@, entries, e, line);
            let lbe = list_block(ListKind::Enabled, "enable"@, sv.enable, cur.enabled_services);
            crate::text::lemma_infix_extend(lbe, lbd, e, line);
            let svc = services_section(c.services, cur);
            assert(svc == "services:\n"@ + (lbe + lbd));
            crate::text::lemma_infix_extend("services:\n"@, lbe + lbd, e, line);
            let pre = "Basalt diff plan\n\n"@ + system_section(c.system, cur) + "\n"@ + packages_section(
                c.packages,
                cur,
            ) + "\n"@;
            crate::text::lemma_infix_extend(pre, svc, "\n"@, line);
            let files = files_section(
                match c.files {
                    Some(f) => Some(f.managed),
                    None => None,
                },
                cur,
            );
            crate::text::lemma_infix_extend(e, pre + svc + "\n"@, files, line);
            assert(spec_render_diff(c, cur) == pre + svc + "\n"@ + files);
        }
    }
}

/// The line the diff shows for a service to enable: `=` when it, under its name or as its
/// `.service` unit, is enabled now, and `+` (a change still to make) otherwise.
pub open spec fn enable_line(d: Seq<char>, enabled: Seq<Seq<char>>) -> Seq<char> {
    "    "@ + (if enabled.contains(d) || enabled.contains(d + ".service"@) {
        "="@
    } else {
        "+"@
    }) + " "@ + d + "\n"@
}

/// The line the diff shows for a pacman package: `=` when it is installed, `+` otherwise.
pub open spec fn pacman_line(p: Seq<char>, installed: Seq<Seq<char>>) -> Seq<char> {
    "    "@ + (if installed.contains(p) {
        "="@
    } else {
        "+"@
    }) + " "@ + p + "\n"@
}

/// The diff report shows each service to enable with `=` when it, or its `.service` unit,
/// is already enabled and with `+` when it is not, and each pacman package with `=` when
/// it is installed and with `+` when it is not.
pub proof fn law_diff_enable_and_package_markers(c: ConfigView, cur: CurrentView)
    ensures
        c.services matches Some(sv) ==> forall|k: int|
            0 <= k < sv.enable.len() ==> crate::text::has_infix(
                spec_render_diff(c, cur),
                enable_line(#[trigger] sv.enable[k], cur.enabled_services),
            ),
        c.packages matches Some(pk) ==> forall|k: int|
            0 <= k < pk.pacman.len() ==> crate::text::has_infix(
                spec_render_diff(c, cur),
                pacman_line(#[trigger] pk.pacman[k], cur.pacman_packages),
            ),
{
    let e = Seq::<char>::empty();
    let sys = "Basalt diff plan\n\n"@ + system_section(c.system, cur) + "\n"@;
    let pkgs = packages_section(c.packages, cur);
    let svc = services_section(c.services, cur);
    let files = files_section(
        match c.files {
            Some(f) => Some(f.managed),
            None => None,
        },
        cur,
    );
    assert(spec_render_diff(c, cur) == sys + pkgs + "\n"@ + svc + "\n"@ + files);
    if let Some(sv) = c.services {
        assert forall|k: int| 0 <= k < sv.enable.len() implies crate::text::has_infix(
            spec_render_diff(c, cur),
            enable_line(#[trigger] sv.enable[k], cur.enabled_services),
        ) by {
            let line = enable_line(sv.enable[k], cur.enabled_services);
            let entries = list_entries(ListKind::Enabled, sv.enable, cur.enabled_services);
            lemma_entry_in(ListKind::Enabled, sv.enable, cur.enabled_services, k);
            assert("    "@ + entry_marker(ListKind::Enabled, sv.enable[k], cur.enabled_services) + " "@
                + sv.enable[k] + "\n"@ == line);
            let lbe = list_block(ListKind::Enabled, "enable"@, sv.enable, cur.enabled_services);
            assert(lbe == "  "@ + "enable"@ + ":\n"@ + entries);
            crate::text::lemma_infix_extend("  "@ + "enable"@ + ":\n"@, entries, e, line);
            let lbd = list_block(ListKind::Disabled, "disable"@, sv.disable, cur.enabled_services);
            crate::text::lemma_infix_extend(e, lbe, lbd, line);
            assert(svc == "services:\n"@ + (lbe + lbd));
            crate::text::lemma_infix_extend("services:\n"@, lbe + lbd, e, line);
            crate::text::lemma_infix_extend(sys + pkgs + "\n"@, svc, "\n"@, line);
            crate::text::lemma_infix_extend(e, sys + pkgs + "\n"@ + svc + "\n"@, files, line);
        }
    }
    if let Some(pk) = c.packages {
        assert forall|k: int| 0 <= k < pk.pacman.len() implies crate::text::has_infix(
            spec_render_diff(c, cur),
            pacman_line(#[trigger] pk.pacman[k], cur.pacman_packages),
        ) by {
            let line = pacman_line(pk.pacman[k], cur.pacman_packages);
            let entries = list_entries(ListKind::Present, pk.pacman, cur.pacman_packages);
            lemma_entry_in(ListKind::Present, pk.pacman, cur.pacman_packages, k);
            assert("    "@ + entry_marker(ListKind::Present, pk.pacman[k], cur.pacman_packages) + " "@
                + pk.pacman[k] + "\n"@ == line);
            let lbp = list_block(ListKind::Present, "pacman"@, pk.pacman, cur.pacman_packages);
            assert(lbp == "  "@ + "pacman"@ + ":\n"@ + entries);
            crate::text::lemma_infix_extend("  "@ + "pacman"@ + ":\n"@, entries, e, line);
            assert(pkgs == "packages:\n"@ + (lbp + list_block(ListKind::Plain, "aur"@, pk.aur, seq![]) + list_block(
                ListKind::Plain,
                "nix"@,
                pk.nix,
                seq![],
            )));
            crate::text::lemma_infix_extend(e, lbp, list_block(ListKind::Plain, "aur"@, pk.aur, seq![]), line);
            crate::text::lemma_infix_extend(
                e,
                lbp + list_block(ListKind::Plain, "aur"@, pk.aur, seq![]),
                list_block(ListKind::Plain, "nix"@, pk.nix, seq![]),
                line,
            );
            crate::text::lemma_infix_extend(
                "packages:\n"@,
                lbp + list_block(ListKind::Plain, "aur"@, pk.aur, seq![]) + list_block(
                    ListKind::Plain,
                    "nix"@,
                    pk.nix,
                    seq![],
                ),
                e,
                line,
            );
            crate::text::lemma_infix_extend(sys, pkgs, "\n"@, line);
            crate::text::lemma_infix_extend(e, sys + pkgs + "\n"@, svc + "\n"@ + files, line);
            assert(sys + pkgs + "\n"@ + (svc + "\n"@ + files) =~= sys + pkgs + "\n"@ + svc + "\n"@ + files);
        }
    }
}

} // verus!
