use basalt::config::load::{
    config_root_domains, lua_table_value, module_relative_path, validate_config_dir, ConfigFile, ConfigListing,
};
use basalt::config::types::DomainValue;

fn s(v: &str) -> DomainValue {
    DomainValue::String(v.to_string())
}

fn list(items: &[&str]) -> DomainValue {
    DomainValue::List(items.iter().map(|v| s(v)).collect())
}

fn table(entries: Vec<(&str, DomainValue)>) -> DomainValue {
    DomainValue::Table(entries.into_iter().map(|(k, v)| (k.to_string(), v)).collect())
}

fn file(path: &str, root: DomainValue) -> ConfigFile {
    ConfigFile { path: path.to_string(), domains: config_root_domains(path, root) }
}

fn failed_file(path: &str, error: &str) -> ConfigFile {
    ConfigFile { path: path.to_string(), domains: Err(error.to_string()) }
}

fn load(files: Vec<ConfigFile>) -> Result<basalt::config::types::BasaltConfig, Vec<String>> {
    validate_config_dir("configs/fixture", ConfigListing::Files(files))
}

fn system_file(hostname: &str) -> ConfigFile {
    file("configs/fixture/system.lua", table(vec![("system", table(vec![("hostname", s(hostname))]))]))
}

#[test]
fn validates_shared_valid_fixture() {
    let config = load(vec![
        system_file("basalt-vm"),
        file(
            "configs/fixture/packages.lua",
            table(vec![("packages", table(vec![("pacman", list(&["base-devel", "git"]))]))]),
        ),
        file(
            "configs/fixture/services.lua",
            table(vec![("services", table(vec![("enable", list(&["NetworkManager"]))]))]),
        ),
    ])
    .unwrap();
    assert_eq!(config.domain_count(), 3);
    assert_eq!(config.package_count(), 2);
    assert_eq!(config.service_count(), 1);
}

#[test]
fn validates_composed_init_fixture() {
    let config = load(vec![file(
        "configs/fixture/init.lua",
        table(vec![
            ("system", table(vec![("hostname", s("basalt-composed"))])),
            (
                "packages",
                table(vec![
                    ("pacman", list(&["base", "base-devel", "git"])),
                    ("aur", list(&["paru-bin"])),
                    ("nix", list(&["hello"])),
                ]),
            ),
            (
                "services",
                table(vec![("enable", list(&["NetworkManager", "sshd"])), ("disable", list(&["bluetooth"]))]),
            ),
        ]),
    )])
    .unwrap();
    assert_eq!(config.system.as_ref().map(|system| system.hostname.as_str()), Some("basalt-composed"));
    assert_eq!(config.package_count(), 5);
    assert_eq!(config.service_count(), 2);
}

#[test]
fn validates_devenv_workspace_fixture() {
    let config = load(vec![
        system_file("basalt-vm"),
        file("configs/fixture/packages.lua", table(vec![("packages", table(vec![("pacman", list(&["git"]))]))])),
        file("configs/fixture/services.lua", table(vec![("services", table(vec![("enable", list(&[]))]))])),
        file(
            "configs/fixture/workspaces.lua",
            table(vec![(
                "workspaces",
                table(vec![(
                    "basalt_core",
                    table(vec![
                        ("path", s("~/Projects/basaltos/core")),
                        ("backend", s("devenv")),
                        ("languages", table(vec![("rust", DomainValue::Boolean(true))])),
                        ("packages", list(&["pkg-config", "openssl"])),
                        ("services", table(vec![("postgres", DomainValue::Boolean(true))])),
                        ("tasks", table(vec![("test", s("cargo test"))])),
                    ]),
                )]),
            )]),
        ),
    ])
    .unwrap();
    assert_eq!(config.workspace_count(), 1);
    let workspaces = config.workspaces.as_ref().unwrap();
    let workspace = workspaces.entries.get("basalt_core").unwrap();
    assert_eq!(workspace.backend, "devenv");
    assert_eq!(workspace.languages.get("rust"), Some(&true));
    assert_eq!(workspace.services.get("postgres"), Some(&true));
    assert_eq!(workspace.tasks.get("test").map(String::as_str), Some("cargo test"));
}

#[test]
fn rejects_shared_unknown_field_fixture() {
    let errors = load(vec![file(
        "configs/fixture/system.lua",
        table(vec![("system", table(vec![("hostname", s("basalt-vm")), ("planet", s("earth"))]))]),
    )])
    .unwrap_err();
    assert!(errors.iter().any(|err| err.contains("unknown field `system.planet`")));
}

#[test]
fn rejects_shared_duplicate_domain_fixture() {
    let errors = load(vec![system_file("basalt-a"), system_file("basalt-b")]).unwrap_err();
    assert!(errors.iter().any(|err| err.contains("duplicate top-level domain `system`")));
}

// The sandbox runs in the program around the library, so this fixture's file reaches the
// library as the evaluation failure the sandbox reports (the configuration reaching for the
// removed `os` global); what is checked is that the library refuses the configuration with
// that failure, and with nothing else.
#[test]
fn rejects_shared_lua_sandbox_fixture() {
    let failure =
        "configs/fixture/init.lua: Lua evaluation failed: runtime error: attempt to index a nil value (global 'os')";
    let errors = load(vec![failed_file("configs/fixture/init.lua", failure)]).unwrap_err();
    assert!(errors
        .iter()
        .any(|err| err.contains("Lua evaluation failed") && (err.contains("os") || err.contains("nil value"))));
    assert_eq!(errors, vec![failure.to_string()]);
}

#[test]
fn rejects_module_escape_from_init() {
    let escape = module_relative_path("..escape").unwrap_err();
    let errors = load(vec![failed_file("configs/fixture/init.lua", &escape)]).unwrap_err();
    assert!(errors.iter().any(|err| err.contains("unsupported module name")));
}

#[test]
fn rejects_shared_package_version_constraint_fixture() {
    let errors = load(vec![
        system_file("basalt-vm"),
        file(
            "configs/fixture/packages.lua",
            table(vec![("packages", table(vec![("pacman", list(&["tree>=2.0"]))]))]),
        ),
    ])
    .unwrap_err();
    assert!(errors.iter().any(|err| err.contains("unsupported version constraint syntax")));
}

#[test]
fn parses_basic_system_domain() {
    let domains = config_root_domains(
        "system.lua",
        table(vec![("system", table(vec![("hostname", s("basalt-vm"))]))]),
    )
    .unwrap();
    assert_eq!(domains.len(), 1);
    assert_eq!(domains[0].0, "system");
}

#[test]
fn rejects_non_table_root() {
    let err = config_root_domains("system.lua", s("basalt-vm")).unwrap_err();
    assert_eq!(err, "system.lua: config file must return a table");
}

#[test]
fn reports_missing_and_empty_config_directories() {
    let missing = validate_config_dir("/nowhere", ConfigListing::Missing).unwrap_err();
    assert_eq!(missing, vec!["/nowhere: config directory does not exist".to_string()]);
    let not_dir = validate_config_dir("/etc/hostname", ConfigListing::NotADirectory).unwrap_err();
    assert_eq!(not_dir, vec!["/etc/hostname: config path is not a directory".to_string()]);
    let empty = validate_config_dir("/empty", ConfigListing::Files(Vec::new())).unwrap_err();
    assert_eq!(empty, vec!["/empty: no .lua config files found".to_string()]);
    let unreadable =
        validate_config_dir("/locked", ConfigListing::Unreadable("/locked: permission denied".to_string())).unwrap_err();
    assert_eq!(unreadable, vec!["/locked: permission denied".to_string()]);
}

#[test]
fn reports_unknown_domain() {
    let errors = load(vec![file("configs/fixture/x.lua", table(vec![("gpu", table(vec![]))]))]).unwrap_err();
    assert!(errors.iter().any(|err| err.contains("gpu")));
}

#[test]
fn maps_module_names_to_files() {
    assert_eq!(module_relative_path("modules.desktop").unwrap(), "modules/desktop.lua");
    assert_eq!(module_relative_path("").unwrap_err(), "empty module name");
    assert_eq!(module_relative_path("a/b").unwrap_err(), "unsupported module name `a/b`");
    assert_eq!(module_relative_path("a..b").unwrap_err(), "unsupported module name `a..b`");
}

#[test]
fn later_errors_do_not_hide_earlier_duplicate() {
    let errors = load(vec![
        system_file("basalt-a"),
        system_file("basalt-b"),
        failed_file("configs/fixture/broken.lua", "configs/fixture/broken.lua: Lua evaluation failed: boom"),
    ])
    .unwrap_err();
    assert_eq!(errors.len(), 2);
    assert!(errors[0].contains("duplicate top-level domain `system`"));
    assert!(errors[1].contains("boom"));
}

#[test]
fn entry_files_choose_init_lua_alone() {
    let names = vec!["system.lua".to_string(), "init.lua".to_string()];
    assert_eq!(basalt::config::load::config_entry_names(true, &names), vec!["init.lua".to_string()]);
}

#[test]
fn entry_files_are_sorted_lua_files() {
    let names = vec![
        "system.lua".to_string(),
        "README.md".to_string(),
        ".lua".to_string(),
        "packages.lua".to_string(),
        "modules".to_string(),
        "a.lua.bak".to_string(),
    ];
    assert_eq!(
        basalt::config::load::config_entry_names(false, &names),
        vec!["packages.lua".to_string(), "system.lua".to_string()]
    );
}

#[test]
fn lua_tables_become_lists_or_tables() {
    let list = vec![
        (3, DomainValue::String("c".to_string())),
        (1, DomainValue::String("a".to_string())),
        (2, DomainValue::String("b".to_string())),
    ];
    match lua_table_value("init.lua", "packages.pacman", Vec::new(), list).unwrap() {
        DomainValue::List(values) => {
            let texts: Vec<String> = values
                .into_iter()
                .map(|v| match v {
                    DomainValue::String(s) => s,
                    _ => panic!("expected strings"),
                })
                .collect();
            assert_eq!(texts, vec!["a", "b", "c"]);
        },
        _ => panic!("expected a list"),
    }
    let keyed = vec![
        ("timezone".to_string(), DomainValue::String("UTC".to_string())),
        ("hostname".to_string(), DomainValue::String("basalt-vm".to_string())),
    ];
    match lua_table_value("init.lua", "system", keyed, Vec::new()).unwrap() {
        DomainValue::Table(entries) => {
            let keys: Vec<&str> = entries.iter().map(|(k, _)| k.as_str()).collect();
            assert_eq!(keys, vec!["hostname", "timezone"]);
        },
        _ => panic!("expected a table"),
    }
    let err = lua_table_value(
        "cfg/init.lua",
        "files",
        vec![("managed".to_string(), DomainValue::Boolean(true))],
        vec![(1, DomainValue::Integer(1))],
    )
    .unwrap_err();
    assert_eq!(err, "cfg/init.lua: table `files` cannot mix keyed fields and list values");
}

#[test]
fn joins_paths_like_path_join() {
    assert_eq!(basalt::paths::join_path("/out", "core"), "/out/core");
    assert_eq!(basalt::paths::join_path("/out/", "core"), "/out/core");
    assert_eq!(basalt::paths::join_path("", "core"), "core");
}
