use basalt::apply::{
    apply_package_actions, check_apply_plan, dry_run_actions, file_mode_bits, has_action,
    managed_file_relative_path, package_intent_from_config, packages_for_backend, plan_file_writes,
    record_service_operations, run_artifacts, service_intent_from_config,
    validate_package_executor_policy, PackageExecutorMode, PlannedWrite, ServiceExecutorMode,
};
use basalt::backends::pacman::{render_package_operations_log, PackageBackend, RecordingPackageExecutor};
use basalt::config::load::{config_root_domains, validate_config_dir, ConfigFile, ConfigListing};
use basalt::config::types::{BasaltConfig, DomainValue, FilesConfig, ManagedFileConfig};
use basalt::planning::action::{plan_actions, Action, Risk};
use basalt::state::store::CurrentState;
use basalt::system::services::render_service_operations_log;

fn s(v: &str) -> DomainValue {
    DomainValue::String(v.to_string())
}

fn list(items: &[&str]) -> DomainValue {
    DomainValue::List(items.iter().map(|v| s(v)).collect())
}

fn table(entries: Vec<(&str, DomainValue)>) -> DomainValue {
    DomainValue::Table(entries.into_iter().map(|(k, v)| (k.to_string(), v)).collect())
}

fn load(root: DomainValue) -> BasaltConfig {
    let path = "configs/fixtures/init.lua";
    let file = ConfigFile { path: path.to_string(), domains: config_root_domains(path, root) };
    validate_config_dir("configs/fixtures", ConfigListing::Files(vec![file])).unwrap()
}

/// Packages of every backend, recorded rather than installed.
fn package_recording_config() -> BasaltConfig {
    load(table(vec![
        ("system", table(vec![("hostname", s("basalt-vm"))])),
        (
            "packages",
            table(vec![
                ("pacman", list(&["basalt-test-package"])),
                ("aur", list(&["basalt-test-aur"])),
                ("nix", list(&["hello"])),
            ]),
        ),
        ("services", table(vec![("enable", list(&["basalt-example"])), ("disable", list(&["old-example"]))])),
    ]))
}

/// System identity plus one managed file.
fn system_apply_config(managed_path: &str) -> BasaltConfig {
    load(table(vec![
        (
            "system",
            table(vec![
                ("hostname", s("basalt-vm")),
                ("timezone", s("UTC")),
                ("locale", s("en_US.UTF-8")),
                ("keymap", s("us")),
            ]),
        ),
        ("packages", table(vec![])),
        ("services", table(vec![])),
        (
            "files",
            table(vec![(
                "managed",
                DomainValue::List(vec![table(vec![
                    ("path", s(managed_path)),
                    ("content", s("Basalt managed file\n")),
                    ("mode", s("0644")),
                ])]),
            )]),
        ),
    ]))
}

fn action(id: &str, domain: &str) -> Action {
    Action { id: id.to_string(), domain: domain.to_string(), description: String::new(), risk: Risk::Low }
}

#[test]
fn rejects_managed_file_path_traversal() {
    let err = managed_file_relative_path("../etc/passwd").unwrap_err();
    assert!(err.contains("target root"));
}

#[test]
fn managed_file_paths_lose_leading_slashes() {
    assert_eq!(managed_file_relative_path("  /etc/basalt/motd ").unwrap(), "etc/basalt/motd");
    assert_eq!(managed_file_relative_path("   ").unwrap_err(), "managed file path cannot be empty");
    assert_eq!(
        managed_file_relative_path("/etc/../x").unwrap_err(),
        "managed file path `/etc/../x` must stay inside the target root"
    );
}

#[test]
fn host_service_executor_requires_real_root() {
    let err = check_apply_plan(&[], "/tmp/basalt-root", PackageExecutorMode::Record, ServiceExecutorMode::Host)
        .unwrap_err();
    assert!(err.contains("requires `--root /`"));
}

#[test]
fn host_package_executor_requires_real_root_for_package_actions() {
    let config = package_recording_config();
    let actions = plan_actions(&config, &CurrentState::default());
    let err = validate_package_executor_policy(&actions, "/tmp/root", PackageExecutorMode::Host).unwrap_err();
    assert!(err.contains("`--package-executor host` requires `--root /`"));
}

#[test]
fn host_package_executor_rejects_aur_and_nix_until_real_mutation_exists() {
    let config = package_recording_config();
    let actions = plan_actions(&config, &CurrentState::default());
    let err = check_apply_plan(&actions, "/", PackageExecutorMode::Host, ServiceExecutorMode::Record).unwrap_err();
    assert!(err.contains("not implemented yet"));
    assert!(err.contains("AUR and Nix"));
}

#[test]
fn package_policy_allows_record_mode_and_pacman_on_real_root() {
    let actions = vec![action("packages.pacman.git", "packages")];
    assert!(validate_package_executor_policy(&actions, "/tmp/x", PackageExecutorMode::Record).is_ok());
    assert!(validate_package_executor_policy(&actions, "/", PackageExecutorMode::Host).is_ok());
    assert!(validate_package_executor_policy(&actions, "//.", PackageExecutorMode::Host).is_ok());
    assert!(validate_package_executor_policy(&[], "/tmp/x", PackageExecutorMode::Host).is_ok());
}

#[test]
fn real_apply_refuses_actions_without_executor() {
    let actions = vec![action("system.hostname", "system"), action("storage.layout", "storage")];
    let err = check_apply_plan(&actions, "/tmp/root", PackageExecutorMode::Record, ServiceExecutorMode::Record)
        .unwrap_err();
    assert_eq!(
        err,
        "real apply has no executor for these actions yet:\n- storage.layout\nRun `basalt apply --dry-run` for the full plan."
    );
    assert!(check_apply_plan(&actions[..1], "/tmp/root", PackageExecutorMode::Record, ServiceExecutorMode::Record)
        .is_ok());
}

#[test]
fn records_package_actions_from_config() {
    let config = package_recording_config();
    let actions = plan_actions(&config, &CurrentState::default());
    let mut executor = RecordingPackageExecutor::default();
    apply_package_actions(&actions, &mut executor).unwrap();
    let log = render_package_operations_log(executor.operations());
    assert!(log.contains("pacman ensure-installed basalt-test-package"));
    assert!(log.contains("aur ensure-installed basalt-test-aur"));
    assert!(log.contains("nix ensure-installed hello"));
    assert_eq!(executor.operations().len(), 3);
    assert_eq!(executor.operations()[1].backend, PackageBackend::Aur);
}

#[test]
fn records_service_operations_without_running_systemctl() {
    let actions = vec![
        action("services.enable.basalt-example", "services"),
        action("services.disable.old-example", "services"),
        action("system.hostname", "system"),
    ];
    let executor = record_service_operations(&actions);
    let log = render_service_operations_log(executor.operations());
    assert!(log.contains("enable basalt-example"));
    assert!(log.contains("disable old-example"));
    assert_eq!(executor.operations().len(), 2);
}

#[test]
fn collects_packages_per_backend() {
    let config = package_recording_config();
    let actions = plan_actions(&config, &CurrentState::default());
    assert_eq!(packages_for_backend(&actions, "packages.pacman."), vec!["basalt-test-package".to_string()]);
    assert_eq!(packages_for_backend(&actions, "packages.nix."), vec!["hello".to_string()]);
    assert!(packages_for_backend(&actions, "packages.flatpak.").is_empty());
}

#[test]
fn parses_executor_modes() {
    assert_eq!(PackageExecutorMode::parse("record").unwrap(), PackageExecutorMode::Record);
    assert_eq!(ServiceExecutorMode::parse("host").unwrap(), ServiceExecutorMode::Host);
    assert_eq!(
        PackageExecutorMode::parse("dry").unwrap_err(),
        "unknown package executor `dry`; expected `record` or `host`"
    );
    assert_eq!(
        ServiceExecutorMode::parse("").unwrap_err(),
        "unknown service executor ``; expected `record` or `host`"
    );
}

#[test]
fn plans_system_and_managed_file_writes() {
    let config = system_apply_config("/etc/basalt/motd");
    let actions = dry_run_actions(&config, &CurrentState::default());
    assert!(has_action(&actions, "files.managed.etc/basalt/motd"));
    let plan = plan_file_writes(&config, &actions);
    assert!(plan.error.is_none());
    assert_eq!(plan.writes.len(), 5);
    match &plan.writes[0] {
        PlannedWrite::File { relative_path, contents, mode } => {
            assert_eq!(relative_path, "etc/hostname");
            assert_eq!(contents, "basalt-vm\n");
            assert!(mode.is_none());
        },
        _ => panic!("expected hostname file"),
    }
    match &plan.writes[1] {
        PlannedWrite::File { relative_path, contents, .. } => {
            assert_eq!(relative_path, "etc/locale.conf");
            assert_eq!(contents, "LANG=en_US.UTF-8\n");
        },
        _ => panic!("expected locale file"),
    }
    match &plan.writes[2] {
        PlannedWrite::File { relative_path, contents, .. } => {
            assert_eq!(relative_path, "etc/vconsole.conf");
            assert_eq!(contents, "KEYMAP=us\n");
        },
        _ => panic!("expected keymap file"),
    }
    match &plan.writes[3] {
        PlannedWrite::TimezoneLink { timezone } => assert_eq!(timezone, "UTC"),
        _ => panic!("expected timezone link"),
    }
    match &plan.writes[4] {
        PlannedWrite::File { relative_path, contents, mode } => {
            assert_eq!(relative_path, "etc/basalt/motd");
            assert_eq!(contents, "Basalt managed file\n");
            assert_eq!(mode.as_deref(), Some("0644"));
        },
        _ => panic!("expected managed file"),
    }
}

#[test]
fn skips_hostname_write_when_host_already_matches() {
    let config = system_apply_config("/etc/basalt/motd");
    let mut current = CurrentState::default();
    current.hostname = Some("basalt-vm".to_string());
    let actions = plan_actions(&config, &current);
    let plan = plan_file_writes(&config, &actions);
    assert_eq!(plan.writes.len(), 4);
    assert!(!plan.writes.iter().any(|w| matches!(w, PlannedWrite::File { relative_path, .. } if relative_path == "etc/hostname")));
}

#[test]
fn writes_only_planned_files() {
    let config = system_apply_config("/etc/basalt/motd");
    let mut actions = plan_actions(&config, &CurrentState::default());
    actions.retain(|a| a.id == "system.hostname");
    let plan = plan_file_writes(&config, &actions);
    assert_eq!(plan.writes.len(), 1);
    assert!(plan.error.is_none());
}

#[test]
fn stops_file_writes_at_escaping_path() {
    let mut config = system_apply_config("/etc/basalt/motd");
    config.files = Some(FilesConfig {
        managed: vec![
            ManagedFileConfig { path: "/etc/a".to_string(), content: "a".to_string(), mode: None },
            ManagedFileConfig { path: "../escape".to_string(), content: "b".to_string(), mode: None },
            ManagedFileConfig { path: "/etc/c".to_string(), content: "c".to_string(), mode: None },
        ],
    });
    let actions = vec![action("files.managed.etc/a", "files"), action("files.managed.etc/c", "files")];
    let plan = plan_file_writes(&config, &actions);
    assert_eq!(plan.writes.len(), 1);
    assert_eq!(plan.error.as_deref(), Some("managed file path `../escape` must stay inside the target root"));
}

#[test]
fn reads_file_modes_as_octal() {
    assert_eq!(file_mode_bits("0644", "/root/etc/x").unwrap(), 0o644);
    assert_eq!(file_mode_bits("+755", "/root/etc/x").unwrap(), 0o755);
    assert_eq!(
        file_mode_bits("0855", "/root/etc/x").unwrap_err(),
        "invalid mode `0855` for /root/etc/x: invalid digit found in string"
    );
    assert_eq!(
        file_mode_bits("", "t").unwrap_err(),
        "invalid mode `` for t: cannot parse integer from empty string"
    );
    assert_eq!(
        file_mode_bits("77777777777", "t").unwrap_err(),
        "invalid mode `77777777777` for t: number too large to fit in target type"
    );
    assert_eq!(file_mode_bits("37777777777", "t").unwrap(), u32::MAX);
}

#[test]
fn builds_run_artifacts_from_config_and_state() {
    let config = package_recording_config();
    let mut current = CurrentState::default();
    current.pacman_packages.insert("git".to_string());
    current.enabled_services.insert("sshd".to_string());
    let artifacts = run_artifacts("runs/run-1.json".to_string(), "latest.json".to_string(), &config, &current);
    assert_eq!(artifacts.package_intent.len(), 3);
    assert_eq!(artifacts.package_intent[2].backend, PackageBackend::Nix);
    assert_eq!(artifacts.service_intent.len(), 2);
    assert_eq!(artifacts.service_intent[1].action, "disable");
    assert!(artifacts.pacman_snapshot_after.as_ref().unwrap().contains("git"));
    assert!(artifacts.enabled_services_before.as_ref().unwrap().contains("sshd"));
    assert!(artifacts.package_operations_path.is_none());
    let intent = package_intent_from_config(&config);
    assert_eq!(intent[0].package, "basalt-test-package");
    let services = service_intent_from_config(&config);
    assert_eq!(services[0].service, "basalt-example");
}

#[test]
fn skips_managed_file_write_when_current_state_matches() {
    let config = system_apply_config("/etc/basalt/motd");
    let mut current = CurrentState::default();
    current.hostname = Some("basalt-vm".to_string());
    current.timezone = Some("UTC".to_string());
    current.locale = Some("en_US.UTF-8".to_string());
    current.keymap = Some("us".to_string());
    current.managed_files.insert("/etc/basalt/motd".to_string(), "Basalt managed file\n".to_string());
    let actions = plan_actions(&config, &current);
    assert!(!has_action(&actions, "files.managed.etc/basalt/motd"));
    assert!(actions.is_empty());
    let plan = plan_file_writes(&config, &actions);
    assert!(plan.writes.is_empty());
    assert!(plan.error.is_none());
}

#[test]
fn plans_only_settings_the_host_lacks() {
    let config = system_apply_config("/etc/basalt/motd");
    let mut current = CurrentState::default();
    current.hostname = Some("basalt-vm".to_string());
    current.timezone = Some("UTC".to_string());
    current.locale = Some("C.UTF-8".to_string());
    current.managed_files.insert("/etc/basalt/motd".to_string(), "old\n".to_string());
    let actions = plan_actions(&config, &current);
    let ids: Vec<&str> = actions.iter().map(|a| a.id.as_str()).collect();
    assert_eq!(ids, vec!["system.locale", "system.keymap", "files.managed.etc/basalt/motd"]);
    let plan = plan_file_writes(&config, &actions);
    assert_eq!(plan.writes.len(), 3);
    match &plan.writes[0] {
        PlannedWrite::File { relative_path, contents, .. } => {
            assert_eq!(relative_path, "etc/locale.conf");
            assert_eq!(contents, "LANG=en_US.UTF-8\n");
        },
        _ => panic!("expected locale file"),
    }
}
