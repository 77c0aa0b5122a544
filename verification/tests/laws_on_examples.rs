use basalt::apply::{plan_file_writes, PlannedWrite};
use basalt::config::types::{
    BasaltConfig, DomainValue, FilesConfig, ManagedFileConfig, PackagesConfig, ServicesConfig, SystemConfig,
};
use basalt::paths::is_plain_relative;
use basalt::planning::action::plan_actions;
use basalt::state::store::CurrentState;

fn config() -> BasaltConfig {
    BasaltConfig {
        system: Some(SystemConfig {
            hostname: "basalt-vm".to_string(),
            timezone: Some("UTC".to_string()),
            locale: Some("C.UTF-8".to_string()),
            keymap: None,
        }),
        packages: Some(PackagesConfig {
            pacman: vec!["git".to_string(), "vim".to_string()],
            aur: vec!["git".to_string()],
            nix: vec!["vim".to_string()],
        }),
        services: Some(ServicesConfig {
            enable: vec!["sshd".to_string(), "cups".to_string()],
            disable: vec!["sshd".to_string()],
        }),
        storage: None,
        files: Some(FilesConfig {
            managed: vec![
                ManagedFileConfig { path: "/etc/motd".to_string(), content: "hi\n".to_string(), mode: None },
                ManagedFileConfig {
                    path: "///srv/app/config.toml".to_string(),
                    content: "x = 1\n".to_string(),
                    mode: Some("600".to_string()),
                },
            ],
        }),
        workspaces: None,
    }
}

fn ids(current: &CurrentState) -> Vec<String> {
    plan_actions(&config(), current).into_iter().map(|a| a.id).collect()
}

#[test]
fn hostname_action_iff_name_differs() {
    let mut current = CurrentState::default();
    assert!(ids(&current).contains(&"system.hostname".to_string()));
    current.hostname = Some("other".to_string());
    assert!(ids(&current).contains(&"system.hostname".to_string()));
    current.hostname = Some("basalt-vm".to_string());
    assert!(!ids(&current).contains(&"system.hostname".to_string()));
}

#[test]
fn pacman_action_iff_declared_and_missing() {
    let mut current = CurrentState::default();
    current.pacman_packages.insert("vim".to_string());
    current.pacman_packages.insert("emacs".to_string());
    let ids = ids(&current);
    assert!(ids.contains(&"packages.pacman.git".to_string()));
    assert!(!ids.contains(&"packages.pacman.vim".to_string()));
    assert!(!ids.contains(&"packages.pacman.emacs".to_string()));
    assert!(ids.contains(&"packages.aur.git".to_string()));
    assert!(ids.contains(&"packages.nix.vim".to_string()));
}

#[test]
fn enable_action_iff_declared_and_not_enabled() {
    let mut current = CurrentState::default();
    current.enabled_services.insert("sshd".to_string());
    let ids = ids(&current);
    assert!(!ids.contains(&"services.enable.sshd".to_string()));
    assert!(ids.contains(&"services.enable.cups".to_string()));
    assert!(ids.contains(&"services.disable.sshd".to_string()));
}

#[test]
fn planned_writes_stay_inside_root() {
    let config = config();
    let actions = plan_actions(&config, &CurrentState::default());
    let plan = plan_file_writes(&config, &actions);
    assert!(plan.error.is_none());
    let mut paths = Vec::new();
    for w in &plan.writes {
        if let PlannedWrite::File { relative_path, .. } = w {
            assert!(is_plain_relative(relative_path), "{relative_path}");
            paths.push(relative_path.clone());
        }
    }
    assert_eq!(paths, vec!["etc/hostname", "etc/locale.conf", "etc/motd", "srv/app/config.toml"]);
}

#[test]
fn inserted_domain_is_present_and_others_unchanged() {
    let mut config = BasaltConfig::default();
    assert!(!config.has_domain("system"));
    config
        .insert_domain(
            "system".to_string(),
            DomainValue::Table(vec![("hostname".to_string(), DomainValue::String("h".to_string()))]),
            "s.lua",
        )
        .unwrap();
    assert!(config.has_domain("system"));
    assert!(!config.has_domain("packages"));
    let err = config.insert_domain("gpu".to_string(), DomainValue::Table(Vec::new()), "g.lua").unwrap_err();
    assert_eq!(err, "g.lua: unknown top-level domain `gpu`");
    assert!(config.has_domain("system"));
    assert_eq!(config.domain_count(), 1);
}

#[test]
fn setting_actions_iff_host_differs() {
    let mut current = CurrentState::default();
    assert!(ids(&current).contains(&"system.timezone".to_string()));
    assert!(ids(&current).contains(&"system.locale".to_string()));
    current.timezone = Some("UTC".to_string());
    current.locale = Some("en_US.UTF-8".to_string());
    assert!(!ids(&current).contains(&"system.timezone".to_string()));
    assert!(ids(&current).contains(&"system.locale".to_string()));
    assert!(!ids(&current).contains(&"system.keymap".to_string()));
}

#[test]
fn managed_file_action_iff_content_differs() {
    let mut current = CurrentState::default();
    assert!(ids(&current).contains(&"files.managed.etc/motd".to_string()));
    current.managed_files.insert("/etc/motd".to_string(), "old\n".to_string());
    assert!(ids(&current).contains(&"files.managed.etc/motd".to_string()));
    current.managed_files.insert("/etc/motd".to_string(), "hi\n".to_string());
    assert!(!ids(&current).contains(&"files.managed.etc/motd".to_string()));
}

#[test]
fn more_installed_never_adds_an_action() {
    let less = CurrentState::default();
    let mut more = CurrentState::default();
    more.pacman_packages.insert("git".to_string());
    more.enabled_services.insert("cups".to_string());
    let planned_less = ids(&less);
    let planned_more = ids(&more);
    assert!(planned_more.iter().all(|id| planned_less.contains(id)));
    assert!(planned_more.len() < planned_less.len());
    let mut rest = planned_less.iter();
    assert!(planned_more.iter().all(|id| rest.any(|other| other == id)));
}
