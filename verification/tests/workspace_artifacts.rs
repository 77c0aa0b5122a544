use basalt::config::types::WorkspaceConfig;
use basalt::strmap::StrMap;
use basalt::workspaces::{
    artifact_failure, check_manifest_contents, json_string, manifest_artifact_relative,
    manifest_check_summary, nix_attr_path, nix_quoted_attr, nix_string, parse_json_string,
    plan_workspace_artifact, render_devenv_nix, render_workspace_state_manifest, stable_hash_hex,
    WorkspaceArtifact,
};

fn bools(entries: &[(&str, bool)]) -> StrMap<bool> {
    let mut m = StrMap::new();
    for (k, v) in entries {
        m.insert(k.to_string(), *v);
    }
    m
}

fn strings(entries: &[(&str, &str)]) -> StrMap<String> {
    let mut m = StrMap::new();
    for (k, v) in entries {
        m.insert(k.to_string(), v.to_string());
    }
    m
}

fn core_artifact(languages: &[(&str, bool)], packages: &[&str], hash: &str, size: usize) -> WorkspaceArtifact {
    WorkspaceArtifact {
        name: "basalt_core".to_string(),
        workspace_path: "~/Projects/basaltos/core".to_string(),
        backend: "devenv".to_string(),
        languages: bools(languages),
        packages: packages.iter().map(|p| p.to_string()).collect(),
        services: bools(&[("postgres", true)]),
        tasks: strings(&[("test", "cargo test")]),
        devenv_nix: "/tmp/out/basalt_core/devenv.nix".to_string(),
        manifest_devenv_nix: "./basalt_core/devenv.nix".to_string(),
        config_size_bytes: size,
        config_hash: hash.to_string(),
    }
}

#[test]
fn renders_devenv_workspace_artifact() {
    let workspace = WorkspaceConfig {
        path: "~/Projects/basaltos/core".to_string(),
        backend: "devenv".to_string(),
        languages: bools(&[("rust", true)]),
        packages: vec!["pkg-config".to_string(), "openssl".to_string()],
        services: bools(&[("postgres", true), ("redis", true)]),
        tasks: strings(&[("test", "cargo test")]),
    };
    let rendered = render_devenv_nix(&workspace);
    assert!(rendered.contains("packages = ["));
    assert!(rendered.contains("pkgs.\"pkg-config\""));
    assert!(rendered.contains("languages.rust.enable = true;"));
    assert!(rendered.contains("services.postgres.enable = true;"));
    assert!(rendered.contains("tasks.\"test\".exec = \"cargo test\";"));
}

#[test]
fn renders_workspace_state_manifest() {
    let artifacts = vec![core_artifact(&[("rust", true)], &["pkg-config", "openssl"], "0123456789abcdef", 123)];
    let rendered = render_workspace_state_manifest(&artifacts);
    assert!(rendered.contains("\"schema_version\": \"basalt-workspace-state-v0\""));
    assert!(rendered.contains("\"workspace_count\": 1"));
    assert!(rendered.contains("\"name\": \"basalt_core\""));
    assert!(rendered.contains("\"backend\": \"devenv\""));
    assert!(rendered.contains("\"languages\": {\"rust\": true}"));
    assert!(rendered.contains("\"packages\": [\"pkg-config\", \"openssl\"]"));
    assert!(rendered.contains("\"tasks\": {\"test\": \"cargo test\"}"));
    assert!(rendered.contains("\"config_hash_algorithm\": \"fnv1a64\""));
    assert!(rendered.contains("\"config_size_bytes\": 123"));
    assert!(rendered.contains("\"config_hash\": \"0123456789abcdef\""));
}

#[test]
fn checks_workspace_state_manifest_hashes() {
    let contents = "{ pkgs, ... }:\n{}\n";
    let artifact = core_artifact(&[], &[], &stable_hash_hex(contents), contents.len());
    let manifest = render_workspace_state_manifest(&[artifact]);
    let entries = check_manifest_contents(&manifest).unwrap();
    assert_eq!(entries.len(), 1);
    assert_eq!(entries[0].name, "basalt_core");
    assert_eq!(entries[0].devenv_nix, "./basalt_core/devenv.nix");
    let relative = manifest_artifact_relative(&entries[0].devenv_nix).unwrap();
    assert_eq!(relative, "basalt_core/devenv.nix");
    let failure = artifact_failure("/tmp/m/basalt_core/devenv.nix", &entries[0], &Ok(contents.to_string()));
    assert_eq!(failure, None);
    let check = manifest_check_summary(&entries, Vec::new());
    assert!(check.is_ok());
    assert_eq!(check.checked_artifacts, 1);
    assert_eq!(check.checked_workspaces, vec!["basalt_core".to_string()]);
}

#[test]
fn reports_artifact_drift() {
    let contents = "{ pkgs, ... }:\n{}\n";
    let artifact = core_artifact(&[], &[], &stable_hash_hex(contents), contents.len());
    let manifest = render_workspace_state_manifest(&[artifact]);
    let entries = check_manifest_contents(&manifest).unwrap();
    let resized = artifact_failure("art", &entries[0], &Ok("x".to_string())).unwrap();
    assert_eq!(resized, format!("art: config size mismatch, expected {}, observed 1", contents.len()));
    let same_size = "{ pkgs, ... }:\n{}\r";
    let rehashed = artifact_failure("art", &entries[0], &Ok(same_size.to_string())).unwrap();
    assert!(rehashed.starts_with("art: config hash mismatch, expected "));
    let missing = artifact_failure("art", &entries[0], &Err("No such file".to_string())).unwrap();
    assert_eq!(missing, "art: No such file");
    let check = manifest_check_summary(&entries, vec![missing]);
    assert!(!check.is_ok());
}

#[test]
fn rejects_escaping_artifact_paths() {
    assert!(manifest_artifact_relative("../outside/devenv.nix")
        .unwrap_err()
        .contains("must stay inside the manifest directory"));
}

#[test]
fn rejects_manifest_with_wrong_schema() {
    assert!(check_manifest_contents("{\n  \"schema_version\": \"other\"\n}\n").is_err());
}

#[test]
fn hashes_with_fnv1a64() {
    assert_eq!(stable_hash_hex(""), "cbf29ce484222325");
    assert_eq!(stable_hash_hex("a"), "af63dc4c8601ec8c");
    let h = stable_hash_hex("{ pkgs, ... }:\n{}\n");
    assert_eq!(h.len(), 16);
    assert!(h.chars().all(|c| c.is_ascii_digit() || ('a'..='f').contains(&c)));
}

#[test]
fn json_strings_read_back() {
    let text = "say \"hi\"\\\n\ttab\r";
    let encoded = json_string(text);
    assert_eq!(encoded, "\"say \\\"hi\\\"\\\\\\n\\ttab\\r\"");
    assert_eq!(parse_json_string(&encoded), Some(text.to_string()));
    assert_eq!(parse_json_string("\"\\u0041\""), None);
    assert_eq!(parse_json_string("plain"), None);
}

#[test]
fn quotes_nix_values() {
    assert_eq!(nix_string("a\"b"), "\"a\\\"b\"");
    assert_eq!(nix_quoted_attr("pkg-config"), "\"pkg-config\"");
    assert!(nix_attr_path("pkgs", "pkg-config").contains("pkg-config"));
}

#[test]
fn plans_artifact_with_size_and_hash() {
    let workspace = WorkspaceConfig {
        path: "~/p".to_string(),
        backend: "devenv".to_string(),
        languages: bools(&[]),
        packages: Vec::new(),
        services: bools(&[]),
        tasks: strings(&[]),
    };
    let (artifact, rendered) = plan_workspace_artifact("core", &workspace, "/out/core/devenv.nix".to_string());
    assert_eq!(rendered, render_devenv_nix(&workspace));
    assert_eq!(artifact.config_size_bytes, rendered.len());
    assert_eq!(artifact.config_hash, stable_hash_hex(&rendered));
    assert_eq!(artifact.manifest_devenv_nix, "./core/devenv.nix");
    assert_eq!(artifact.devenv_nix, "/out/core/devenv.nix");
}

#[test]
fn written_manifest_reads_back_every_entry_in_order() {
    let first_contents = "{ pkgs, ... }:\n{}\n";
    let second_contents = "{ pkgs, ... }:\n{\n  packages = [ ];\n}\n";
    let first = core_artifact(&[("rust", true)], &["git"], &stable_hash_hex(first_contents), first_contents.len());
    let mut second = core_artifact(&[], &[], &stable_hash_hex(second_contents), second_contents.len());
    second.name = "web \"ui\"\tapp".to_string();
    second.workspace_path = "~/Projects/web".to_string();
    second.manifest_devenv_nix = "./web/devenv.nix".to_string();
    let manifest = render_workspace_state_manifest(&[first, second]);
    let entries = check_manifest_contents(&manifest).unwrap();
    assert_eq!(entries.len(), 2);
    assert_eq!(entries[0].name, "basalt_core");
    assert_eq!(entries[0].config_size_bytes, first_contents.len());
    assert_eq!(entries[0].config_hash, stable_hash_hex(first_contents));
    assert_eq!(entries[1].name, "web \"ui\"\tapp");
    assert_eq!(entries[1].backend, "devenv");
    assert_eq!(entries[1].workspace_path, "~/Projects/web");
    assert_eq!(entries[1].devenv_nix, "./web/devenv.nix");
    assert_eq!(entries[1].config_hash_algorithm, "fnv1a64");
    assert_eq!(entries[1].config_size_bytes, second_contents.len());
    assert_eq!(entries[1].config_hash, stable_hash_hex(second_contents));
}

#[test]
fn written_manifest_with_repeated_name_is_refused() {
    let contents = "{ pkgs, ... }:\n{}\n";
    let first = core_artifact(&[], &[], &stable_hash_hex(contents), contents.len());
    let mut second = core_artifact(&[], &[], &stable_hash_hex(contents), contents.len());
    second.manifest_devenv_nix = "./other/devenv.nix".to_string();
    let manifest = render_workspace_state_manifest(&[first, second]);
    assert_eq!(
        check_manifest_contents(&manifest).unwrap_err(),
        "workspace manifest contains duplicate workspace name `basalt_core`"
    );
}

#[test]
fn generated_workspaces_pass_the_manifest_check() {
    let core = WorkspaceConfig {
        path: "~/Projects/basaltos/core".to_string(),
        backend: "devenv".to_string(),
        languages: bools(&[("rust", true)]),
        packages: vec!["openssl".to_string()],
        services: bools(&[]),
        tasks: strings(&[("test", "cargo test")]),
    };
    let web = WorkspaceConfig {
        path: "~/Projects/web".to_string(),
        backend: "devenv".to_string(),
        languages: bools(&[]),
        packages: Vec::new(),
        services: bools(&[("redis", true)]),
        tasks: strings(&[]),
    };
    let (core_artifact, core_text) = plan_workspace_artifact("core", &core, "/out/core/devenv.nix".to_string());
    let (web_artifact, web_text) = plan_workspace_artifact("web", &web, "/out/web/devenv.nix".to_string());
    let manifest = render_workspace_state_manifest(&[core_artifact, web_artifact]);
    let entries = check_manifest_contents(&manifest).unwrap();
    assert_eq!(entries.len(), 2);
    assert_eq!(entries[0].name, "core");
    assert_eq!(entries[0].devenv_nix, "./core/devenv.nix");
    assert_eq!(entries[0].config_size_bytes, core_text.len());
    assert_eq!(entries[0].config_hash, stable_hash_hex(&core_text));
    assert_eq!(entries[1].name, "web");
    assert_eq!(entries[1].workspace_path, "~/Projects/web");
    assert_eq!(entries[1].devenv_nix, "./web/devenv.nix");
    assert_eq!(entries[1].config_hash, stable_hash_hex(&web_text));
}

#[test]
fn plans_generated_workspaces_in_key_order() {
    let workspace = |path: &str| WorkspaceConfig {
        path: path.to_string(),
        backend: "devenv".to_string(),
        languages: bools(&[]),
        packages: Vec::new(),
        services: bools(&[]),
        tasks: strings(&[]),
    };
    let mut entries = StrMap::new();
    entries.insert("web".to_string(), workspace("~/web"));
    entries.insert("core".to_string(), workspace("~/core"));
    let config = basalt::config::types::WorkspacesConfig { entries };
    let (artifacts, texts) = basalt::workspaces::plan_workspace_artifacts(&config, "/out/");
    assert_eq!(artifacts.len(), 2);
    assert_eq!(artifacts[0].name, "core");
    assert_eq!(artifacts[0].devenv_nix, "/out/core/devenv.nix");
    assert_eq!(artifacts[0].manifest_devenv_nix, "./core/devenv.nix");
    assert_eq!(artifacts[1].devenv_nix, "/out/web/devenv.nix");
    assert_eq!(texts[0], render_devenv_nix(&workspace("~/core")));
    assert_eq!(artifacts[0].config_hash, stable_hash_hex(&texts[0]));
    let manifest = render_workspace_state_manifest(&artifacts);
    let checked = check_manifest_contents(&manifest).unwrap();
    let names: Vec<&str> = checked.iter().map(|e| e.name.as_str()).collect();
    assert_eq!(names, vec!["core", "web"]);
    let (plain, _) = basalt::workspaces::plan_workspace_artifacts(&config, "out");
    assert_eq!(plain[1].devenv_nix, "out/web/devenv.nix");
}
