use basalt::apply::{PackageExecutorMode, ServiceExecutorMode};
use basalt::cli::{
    parse_args, parse_rebuild_with_default, render_doctor_report, validate_rebuild_safety_policy,
    Command, DoctorCheck,
};
use basalt::config::load::{config_root_domains, validate_config_dir, ConfigFile, ConfigListing};
use basalt::config::types::{BasaltConfig, DomainValue};

fn args(items: &[&str]) -> Vec<String> {
    items.iter().map(|s| s.to_string()).collect()
}

fn s(v: &str) -> DomainValue {
    DomainValue::String(v.to_string())
}

fn table(entries: Vec<(&str, DomainValue)>) -> DomainValue {
    DomainValue::Table(entries.into_iter().map(|(k, v)| (k.to_string(), v)).collect())
}

fn rebuild_config(storage: Option<DomainValue>) -> BasaltConfig {
    let mut root = vec![
        ("system", table(vec![("hostname", s("basalt-vm"))])),
        (
            "packages",
            table(vec![
                ("pacman", DomainValue::List(Vec::new())),
                ("aur", DomainValue::List(Vec::new())),
                ("nix", DomainValue::List(Vec::new())),
            ]),
        ),
        (
            "services",
            table(vec![("enable", DomainValue::List(Vec::new())), ("disable", DomainValue::List(Vec::new()))]),
        ),
    ];
    if let Some(storage) = storage {
        root.push(("storage", storage));
    }
    let path = "cfg/init.lua";
    let file = ConfigFile { path: path.to_string(), domains: config_root_domains(path, table(root)) };
    validate_config_dir("cfg", ConfigListing::Files(vec![file])).unwrap()
}

#[test]
fn renders_doctor_success_when_required_tools_exist() {
    let report = vec![
        DoctorCheck { name: "cargo", required: true, present: true, detail: "/bin/cargo".to_string() },
        DoctorCheck {
            name: "pacman",
            required: false,
            present: false,
            detail: "required for host package apply on Arch".to_string(),
        },
    ];
    let rendered = render_doctor_report(&report);
    assert!(rendered.contains("- cargo: ok (/bin/cargo)"));
    assert!(rendered.contains("- pacman: missing"));
    assert!(rendered.contains("Status: ok"));
}

#[test]
fn renders_doctor_failure_when_required_tool_is_missing() {
    let report = vec![DoctorCheck {
        name: "cargo",
        required: true,
        present: false,
        detail: "required for local Rust builds and tests".to_string(),
    }];
    let rendered = render_doctor_report(&report);
    assert!(rendered.contains("- cargo: missing"));
    assert!(rendered.contains("Status: missing required tools"));
}

#[test]
fn rebuild_defaults_to_installed_config_dir() {
    let command = parse_rebuild_with_default(&args(&["basalt", "rebuild"]), "/tmp/default-config", true).unwrap();
    match command {
        Command::Apply { config_dir, state_dir, root_dir, package_executor, service_executor, rebuild } => {
            assert_eq!(config_dir, "/tmp/default-config");
            assert_eq!(state_dir, "./target/basalt-state");
            assert_eq!(root_dir, "/");
            assert_eq!(package_executor, PackageExecutorMode::Host);
            assert_eq!(service_executor, ServiceExecutorMode::Host);
            assert!(rebuild);
        },
        _ => panic!("expected rebuild to parse as real apply"),
    }
}

#[test]
fn rebuild_dry_run_defaults_to_installed_config_dir() {
    let command =
        parse_rebuild_with_default(&args(&["basalt", "rebuild", "--dry-run"]), "/tmp/default-config", true).unwrap();
    match command {
        Command::ApplyDryRun { config_dir, state_dir, rebuild } => {
            assert_eq!(config_dir, "/tmp/default-config");
            assert_eq!(state_dir, "./target/basalt-state");
            assert!(rebuild);
        },
        _ => panic!("expected rebuild --dry-run to parse as apply dry-run"),
    }
}

#[test]
fn rebuild_explicit_config_overrides_missing_default() {
    let command = parse_rebuild_with_default(
        &args(&["basalt", "rebuild", "--dry-run", "--config", "/tmp/explicit-basalt-config"]),
        "/tmp/missing-default",
        false,
    )
    .unwrap();
    match command {
        Command::ApplyDryRun { config_dir, rebuild, .. } => {
            assert_eq!(config_dir, "/tmp/explicit-basalt-config");
            assert!(rebuild);
        },
        _ => panic!("expected explicit rebuild --config to parse as apply dry-run"),
    }
}

#[test]
fn real_rebuild_with_explicit_config_is_guarded() {
    let command = parse_rebuild_with_default(
        &args(&["basalt", "rebuild", "--config", "/tmp/explicit-basalt-config"]),
        "/tmp/missing-default",
        false,
    )
    .unwrap();
    match command {
        Command::Apply { config_dir, rebuild, .. } => {
            assert_eq!(config_dir, "/tmp/explicit-basalt-config");
            assert!(rebuild);
        },
        _ => panic!("expected explicit rebuild --config to parse as guarded apply"),
    }
}

#[test]
fn rebuild_missing_default_config_has_useful_error() {
    let err = parse_rebuild_with_default(&args(&["basalt", "rebuild"]), "/tmp/basalt-missing-default", false)
        .unwrap_err();
    assert!(err.contains("default config directory"));
    assert!(err.contains("/tmp/basalt-missing-default"));
    assert!(err.contains("--config <path>"));
}

#[test]
fn rebuild_rejects_destructive_storage_config() {
    let config = rebuild_config(Some(table(vec![
        ("layout", s("manual")),
        ("disk", s("/dev/vda")),
        ("target", s("/mnt")),
        (
            "partitions",
            DomainValue::List(vec![table(vec![
                ("disk", s("/dev/vda")),
                ("number", DomainValue::Integer(1)),
                ("mountpoint", s("/")),
                ("filesystem", s("btrfs")),
                ("format", DomainValue::Boolean(true)),
            ])]),
        ),
    ])));
    let errors = validate_rebuild_safety_policy(&config).unwrap_err();
    assert!(errors.iter().any(|err| err.contains("install-only") && err.contains("manual")));
    assert!(errors.iter().any(|err| err.contains("format = true")));
}

#[test]
fn rebuild_allows_non_storage_config() {
    let config = rebuild_config(None);
    validate_rebuild_safety_policy(&config).unwrap();
}

#[test]
fn rebuild_allows_installed_storage_history() {
    let config =
        rebuild_config(Some(table(vec![("layout", s("installed")), ("root_filesystem", s("btrfs"))])));
    validate_rebuild_safety_policy(&config).unwrap();
}

#[test]
fn parses_validate_and_unknown_commands() {
    match parse_args(&args(&["basalt", "validate", "--config", "/cfg"]), false).unwrap() {
        Command::Validate { config_dir } => assert_eq!(config_dir, "/cfg"),
        _ => panic!("expected validate"),
    }
    assert!(parse_args(&args(&["basalt", "frobnicate"]), false).is_err());
}
