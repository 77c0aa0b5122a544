use basalt::config::schema::{domains, render_json, render_markdown, SCHEMA_VERSION};
use basalt::paths::{is_plain_relative, is_root_path};
use basalt::strmap::{StrMap, StrSet};
use basalt::text::{
    decimal_string, join_strings, lines_of, split_str, trim_str, u32_from_octal_str, usize_from_str,
    words_of, IntErrorKind,
};

#[test]
fn renders_required_schema_fields() {
    let json = render_json();
    assert!(json.contains("\"schema_version\": \"0\""));
    assert!(json.contains("\"path\": \"system.hostname\""));
    assert!(json.contains("\"type\": \"list<string>\""));

    let markdown = render_markdown();
    assert!(markdown.contains("# Basalt Config Schema v0"));
    assert!(markdown.contains("| `services.disable` | `list<string>` | no |"));
    assert!(markdown.contains("| `files.managed[].content` | `string` | yes |"));
}

#[test]
fn schema_lists_domains_in_order() {
    assert_eq!(SCHEMA_VERSION, "0");
    let ds = domains();
    assert_eq!(ds[0].name, "system");
    let names: Vec<&str> = ds.iter().map(|d| d.name).collect();
    assert_eq!(names, vec!["system", "packages", "services", "storage", "files", "workspaces"]);
}

#[test]
fn reads_decimal_like_str_parse() {
    assert_eq!(usize_from_str("42"), Ok(42));
    assert_eq!(usize_from_str("+7"), Ok(7));
    assert_eq!(usize_from_str(""), Err(IntErrorKind::Empty));
    assert_eq!(usize_from_str("-"), Err(IntErrorKind::InvalidDigit));
    assert_eq!(usize_from_str("-1"), Err(IntErrorKind::InvalidDigit));
    assert_eq!(usize_from_str("99999999999999999999999"), Err(IntErrorKind::PosOverflow));
    assert_eq!(IntErrorKind::InvalidDigit.message(), "invalid digit found in string");
    assert_eq!(u32_from_octal_str("0755"), Ok(0o755));
    assert_eq!(u32_from_octal_str("9"), Err(IntErrorKind::InvalidDigit));
}

#[test]
fn splits_and_joins_like_std() {
    assert_eq!(split_str("a\tb\t", '\t'), vec!["a".to_string(), "b".to_string(), String::new()]);
    assert_eq!(lines_of("a\r\nb\n\nc"), vec!["a".to_string(), "b".to_string(), String::new(), "c".to_string()]);
    assert_eq!(lines_of("a\n"), vec!["a".to_string()]);
    assert_eq!(words_of("  one\ttwo  three "), vec!["one".to_string(), "two".to_string(), "three".to_string()]);
    assert_eq!(join_strings(&vec!["x".to_string(), "y".to_string()], ", "), "x, y");
    assert_eq!(trim_str("\t hi \n"), "hi");
    assert_eq!(decimal_string(1234567890), "1234567890");
}

#[test]
fn recognises_relative_and_root_paths() {
    assert!(is_plain_relative("etc/hostname"));
    assert!(!is_plain_relative("../etc"));
    assert!(!is_plain_relative("/etc"));
    assert!(is_root_path("/"));
    assert!(is_root_path("//./"));
    assert!(!is_root_path("/tmp"));
    assert!(!is_root_path(""));
}

#[test]
fn maps_keep_keys_sorted_and_unique() {
    let mut m: StrMap<u32> = StrMap::new();
    m.insert("b".to_string(), 2);
    m.insert("a".to_string(), 1);
    m.insert("b".to_string(), 3);
    assert_eq!(m.len(), 2);
    assert_eq!(m.key_at(0), "a");
    assert_eq!(m.get("b"), Some(&3));
    assert_eq!(m.get("c"), None);
    assert_eq!(m.remove("a"), Some(1));
    assert!(!m.contains_key("a"));

    let mut set = StrSet::new();
    assert!(set.insert("git".to_string()));
    assert!(!set.insert("git".to_string()));
    assert!(set.contains("git"));
    let from = StrSet::from_vec(vec!["z".to_string(), "a".to_string(), "z".to_string()]);
    assert_eq!(from.len(), 2);
    assert_eq!(from.at(0), "a");
}

#[test]
fn decimals_read_back() {
    for n in [0usize, 7, 10, 4096, 1234567890, usize::MAX] {
        assert_eq!(usize_from_str(&decimal_string(n as u128)), Ok(n));
    }
}

#[test]
fn markdown_matches_generated_reference() {
    let expected = "# Basalt Config Schema v0\n\nGenerated from the Basalt implementation.\n\n## Supported Domains\n\n- `system`: owns host identity intent\n- `packages`: owns package desired state intent\n- `services`: owns service desired state intent\n- `storage`: owns guided installer storage intent\n- `files`: owns managed file desired state intent\n- `workspaces`: owns generated developer workspace environment intent\n\n## Fields\n\n| Field | Type | Required |\n|---|---|---|\n| `system.hostname` | `string` | yes |\n| `system.timezone` | `string` | no |\n| `system.locale` | `string` | no |\n| `system.keymap` | `string` | no |\n| `packages.pacman` | `list<string>` | no |\n| `packages.aur` | `list<string>` | no |\n| `packages.nix` | `list<string>` | no |\n| `services.enable` | `list<string>` | no |\n| `services.disable` | `list<string>` | no |\n| `storage.layout` | `string` | no |\n| `storage.disk` | `string` | no |\n| `storage.target` | `string` | no |\n| `storage.efi_filesystem` | `string` | no |\n| `storage.root_filesystem` | `string` | no |\n| `storage.partitions` | `list<table>` | no |\n| `storage.partitions[].disk` | `string` | yes |\n| `storage.partitions[].number` | `integer|string` | no |\n| `storage.partitions[].label` | `string` | no |\n| `storage.partitions[].mountpoint` | `string` | no |\n| `storage.partitions[].filesystem` | `string` | yes |\n| `storage.partitions[].size` | `string` | no |\n| `storage.partitions[].flags` | `list<string>` | no |\n| `storage.partitions[].format` | `boolean` | no |\n| `storage.partitions[].mount_options` | `list<string>` | no |\n| `storage.partitions[].subvolumes` | `list<table>` | no |\n| `storage.partitions[].subvolumes[].name` | `string` | yes |\n| `storage.partitions[].subvolumes[].mountpoint` | `string` | yes |\n| `storage.partitions[].subvolumes[].mount_options` | `list<string>` | no |\n| `files.managed` | `list<table>` | no |\n| `files.managed[].path` | `string` | yes |\n| `files.managed[].content` | `string` | yes |\n| `files.managed[].mode` | `string` | no |\n| `workspaces.<name>.path` | `string` | yes |\n| `workspaces.<name>.backend` | `string` | no |\n| `workspaces.<name>.languages` | `table<boolean>` | no |\n| `workspaces.<name>.packages` | `list<string>` | no |\n| `workspaces.<name>.services` | `table<boolean>` | no |\n| `workspaces.<name>.tasks` | `table<string>` | no |\n\n## Ownership Notes\n\n- `system` owns host identity intent.\n- `packages` owns package desired state intent.\n- `services` owns service desired state intent.\n- `storage` owns guided installer storage intent.\n- `files` owns managed file desired state intent.\n- `workspaces` owns generated developer workspace environment intent.\n";
    assert_eq!(render_markdown(), expected);
}

#[test]
fn schema_documents_storage_and_workspace_fields() {
    let json = render_json();
    assert!(json.contains("\"name\": \"storage\""));
    assert!(json.contains("\"path\": \"storage.partitions[].number\""));
    assert!(json.contains("\"type\": \"integer|string\""));
    assert!(json.contains("\"path\": \"workspaces.<name>.tasks\""));
    let markdown = render_markdown();
    assert!(markdown.contains("| `storage.partitions[].subvolumes[].name` | `string` | yes |"));
    assert!(markdown.contains("| `workspaces.<name>.languages` | `table<boolean>` | no |"));
}

#[test]
fn path_prefixes_go_by_components() {
    assert!(basalt::paths::path_starts_with("/etc/basalt/x.lua", "/etc/basalt"));
    assert!(basalt::paths::path_starts_with("/etc/basalt/x.lua", "/etc/basalt/"));
    assert!(basalt::paths::path_starts_with("/etc//basalt/./x.lua", "/etc/basalt"));
    assert!(!basalt::paths::path_starts_with("/etc/basalt-evil/x.lua", "/etc/basalt"));
    assert!(!basalt::paths::path_starts_with("etc/basalt", "/etc"));
    assert!(basalt::paths::path_starts_with("./cfg/a.lua", "."));
    assert!(!basalt::paths::path_starts_with("cfg/a.lua", "."));
    assert!(basalt::paths::path_starts_with("/anything", "/"));
}

#[test]
fn doctor_checks_follow_the_tool_list() {
    let found = vec![Some("/usr/bin/cargo".to_string()), None, Some("/usr/bin/git".to_string())];
    let checks = basalt::cli::doctor_checks(&found);
    assert_eq!(checks.len(), 7);
    assert_eq!(checks[0].name, "cargo");
    assert!(checks[0].present);
    assert_eq!(checks[0].detail, "/usr/bin/cargo");
    assert!(!checks[1].present);
    assert_eq!(checks[1].detail, "required for local Rust builds and tests");
    assert_eq!(checks[6].name, "ssh");
    assert!(!checks[6].required);
    assert!(!checks[6].present);
}

#[test]
fn pacman_transaction_is_skipped_with_reason() {
    let none = basalt::backends::pacman::resolve_pacman_install_transaction(&vec!["  ".to_string()]).unwrap();
    assert_eq!(none.status, "skipped");
    assert_eq!(none.message, "no pacman packages requested");
    let some = basalt::backends::pacman::resolve_pacman_install_transaction(&vec!["git".to_string()]).unwrap();
    assert_eq!(some.message, "pacman transaction resolution is not implemented yet");
}
