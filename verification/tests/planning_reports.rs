use basalt::config::load::{config_root_domains, validate_config_dir, ConfigFile, ConfigListing};
use basalt::config::types::{BasaltConfig, DomainValue};
use basalt::planning::action::{plan_actions, Action, Risk};
use basalt::planning::report::{render_check, render_diff, render_dry_run};
use basalt::state::store::CurrentState;

fn s(v: &str) -> DomainValue {
    DomainValue::String(v.to_string())
}

fn list(items: &[&str]) -> DomainValue {
    DomainValue::List(items.iter().map(|v| s(v)).collect())
}

fn table(entries: Vec<(&str, DomainValue)>) -> DomainValue {
    DomainValue::Table(entries.into_iter().map(|(k, v)| (k.to_string(), v)).collect())
}

fn load(root: DomainValue) -> BasaltConfig {
    let path = "configs/examples/init.lua";
    let file = ConfigFile { path: path.to_string(), domains: config_root_domains(path, root) };
    validate_config_dir("configs/examples", ConfigListing::Files(vec![file])).unwrap()
}

/// The minimal example: a named VM with a base toolchain and NetworkManager.
fn minimal_config() -> BasaltConfig {
    load(table(vec![
        ("system", table(vec![("hostname", s("basalt-vm"))])),
        ("packages", table(vec![("pacman", list(&["base", "base-devel", "git"]))])),
        ("services", table(vec![("enable", list(&["NetworkManager"]))])),
    ]))
}

/// A configuration with every system setting, a managed file and a service to disable.
fn managed_files_config() -> BasaltConfig {
    load(table(vec![
        (
            "system",
            table(vec![
                ("hostname", s("basalt-vm")),
                ("timezone", s("UTC")),
                ("locale", s("en_US.UTF-8")),
                ("keymap", s("us")),
            ]),
        ),
        ("packages", table(vec![("pacman", list(&[]))])),
        ("services", table(vec![("enable", list(&[])), ("disable", list(&["old-example"]))])),
        (
            "files",
            table(vec![(
                "managed",
                DomainValue::List(vec![table(vec![
                    ("path", s("/etc/basalt/motd")),
                    ("content", s("Basalt managed file\n")),
                ])]),
            )]),
        ),
    ]))
}

fn hostname_action() -> Action {
    Action {
        id: "system.hostname".to_string(),
        domain: "system".to_string(),
        description: "set hostname to `basalt-vm`".to_string(),
        risk: Risk::Medium,
    }
}

#[test]
fn plans_actions_for_minimal_config() {
    let config = minimal_config();
    let actions = plan_actions(&config, &CurrentState::default());
    assert!(actions.iter().any(|action| action.id == "system.hostname"));
    assert!(actions.iter().any(|action| action.id == "packages.pacman.base-devel"));
    assert!(actions.iter().any(|action| action.id == "services.enable.NetworkManager"));
}

#[test]
fn skips_actions_that_already_match_current_state() {
    let config = minimal_config();
    let mut current = CurrentState::default();
    current.hostname = Some("basalt-vm".to_string());
    current.pacman_packages.insert("git".to_string());
    current.enabled_services.insert("NetworkManager".to_string());

    let actions = plan_actions(&config, &current);
    assert!(!actions.iter().any(|action| action.id == "system.hostname"));
    assert!(!actions.iter().any(|action| action.id == "packages.pacman.git"));
    assert!(!actions.iter().any(|action| action.id == "services.enable.NetworkManager"));
    assert!(actions.iter().any(|action| action.id == "packages.pacman.base-devel"));
}

#[test]
fn renders_minimal_diff_plan() {
    let config = minimal_config();
    let rendered = render_diff(&config, &CurrentState::default());
    assert!(rendered.contains("Basalt diff plan"));
    assert!(rendered.contains("hostname: basalt-vm"));
    assert!(rendered.contains("+ base-devel"));
    assert!(rendered.contains("+ NetworkManager"));
}

#[test]
fn renders_apply_check_status() {
    let pending = render_check(&[hostname_action()]);
    assert!(pending.contains("Basalt apply check"));
    assert!(pending.contains("Pending action(s)"));
    assert!(pending.contains("system.hostname"));

    let settled = render_check(&[]);
    assert!(settled.contains("No changes needed."));
}

#[test]
fn renders_matching_current_state_markers() {
    let config = minimal_config();
    let mut current = CurrentState::default();
    current.hostname = Some("basalt-vm".to_string());
    current.pacman_packages.insert("git".to_string());
    current.enabled_services.insert("NetworkManager.service".to_string());

    let rendered = render_diff(&config, &current);
    assert!(rendered.contains("= hostname: basalt-vm"));
    assert!(rendered.contains("= git"));
    assert!(rendered.contains("= NetworkManager"));
}

#[test]
fn renders_matching_system_and_file_markers() {
    let config = managed_files_config();
    let mut current = CurrentState::default();
    current.hostname = Some("basalt-vm".to_string());
    current.timezone = Some("UTC".to_string());
    current.locale = Some("en_US.UTF-8".to_string());
    current.keymap = Some("us".to_string());
    current.managed_files.insert("/etc/basalt/motd".to_string(), "Basalt managed file\n".to_string());

    let rendered = render_diff(&config, &current);
    assert!(rendered.contains("= timezone: UTC"));
    assert!(rendered.contains("= locale: en_US.UTF-8"));
    assert!(rendered.contains("= keymap: us"));
    assert!(rendered.contains("= /etc/basalt/motd"));
    assert!(rendered.contains("= old-example"));
}

#[test]
fn renders_dry_run_action_plan() {
    let config = minimal_config();
    let actions = plan_actions(&config, &CurrentState::default());
    let rendered = render_dry_run(&actions);
    assert!(rendered.contains("Basalt apply dry-run"));
    assert!(rendered.contains("No changes will be made."));
    assert!(rendered.contains("id: system.hostname"));
    assert!(rendered.contains("ensure pacman package `git` is installed"));
}

#[test]
fn renders_exact_check_and_dry_run_text() {
    assert_eq!(render_check(&[]), "Basalt apply check\n\nNo changes needed.\n");
    assert_eq!(
        render_check(&[hostname_action()]),
        "Basalt apply check\n\nPending action(s):\n  - id: system.hostname\n    domain: system\n    risk: medium\n    plan: set hostname to `basalt-vm`\n"
    );
    assert_eq!(
        render_dry_run(&[]),
        "Basalt apply dry-run\n\nNo changes will be made.\n\nactions:\n  none\n"
    );
}

#[test]
fn plans_system_packages_services_and_files_in_order() {
    let config = managed_files_config();
    let actions = plan_actions(&config, &CurrentState::default());
    let ids: Vec<&str> = actions.iter().map(|a| a.id.as_str()).collect();
    assert_eq!(
        ids,
        vec![
            "system.hostname",
            "system.timezone",
            "system.locale",
            "system.keymap",
            "services.disable.old-example",
            "files.managed.etc/basalt/motd",
        ]
    );
    assert_eq!(actions[0].risk.as_str(), "medium");
    assert_eq!(actions[4].risk.as_str(), "high");
    assert_eq!(actions[5].description, "write managed file `/etc/basalt/motd`");
}

#[test]
fn plans_every_aur_and_nix_package() {
    let config = load(table(vec![
        ("system", table(vec![("hostname", s("basalt-vm"))])),
        (
            "packages",
            table(vec![("pacman", list(&[])), ("aur", list(&["paru-bin"])), ("nix", list(&["hello"]))]),
        ),
        ("services", table(vec![])),
    ]));
    let mut current = CurrentState::default();
    current.hostname = Some("basalt-vm".to_string());
    let actions = plan_actions(&config, &current);
    let ids: Vec<&str> = actions.iter().map(|a| a.id.as_str()).collect();
    assert_eq!(ids, vec!["packages.aur.paru-bin", "packages.nix.hello"]);
    assert_eq!(actions[0].description, "ensure AUR package `paru-bin` is installed");
    assert_eq!(actions[1].risk, Risk::Low);
}
