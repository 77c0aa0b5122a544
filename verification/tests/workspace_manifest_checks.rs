use basalt::strmap::StrMap;
use basalt::workspaces::{
    artifact_failure, check_manifest_contents, manifest_artifact_relative, manifest_check_summary,
    render_workspace_state_manifest, WorkspaceArtifact,
};

fn one_entry(name: &str, backend: &str, path: &str, devenv_nix: &str, algorithm: &str, size: &str, hash: &str) -> String {
    format!(
        "{{\n  \"schema_version\": \"basalt-workspace-state-v0\",\n  \"workspace_count\": 1,\n  \"workspaces\": [\n    {{\n      \"name\": \"{name}\",\n      \"backend\": \"{backend}\",\n      \"workspace_path\": \"{path}\",\n      \"devenv_nix\": \"{devenv_nix}\",\n      \"config_hash_algorithm\": \"{algorithm}\",\n      \"config_size_bytes\": {size},\n      \"config_hash\": \"{hash}\"\n    }}\n  ]\n}}\n"
    )
}

fn core_entry(backend: &str, path: &str, devenv_nix: &str, algorithm: &str, size: &str, hash: &str) -> String {
    one_entry("basalt_core", backend, path, devenv_nix, algorithm, size, hash)
}

#[test]
fn rejects_escaping_workspace_manifest_artifact_paths() {
    let manifest = render_workspace_state_manifest(&[WorkspaceArtifact {
        name: "bad".to_string(),
        workspace_path: "~/bad".to_string(),
        backend: "devenv".to_string(),
        languages: StrMap::new(),
        packages: Vec::new(),
        services: StrMap::new(),
        tasks: StrMap::new(),
        devenv_nix: "../outside/devenv.nix".to_string(),
        manifest_devenv_nix: "../outside/devenv.nix".to_string(),
        config_size_bytes: 0,
        config_hash: "0123456789abcdef".to_string(),
    }]);
    let entries = check_manifest_contents(&manifest).unwrap();
    let failure = manifest_artifact_relative(&entries[0].devenv_nix).unwrap_err();
    let check = manifest_check_summary(&entries, vec![failure]);
    assert!(!check.is_ok());
    assert!(check.failures[0].contains("must stay inside the manifest directory"));
}

#[test]
fn rejects_wrong_workspace_manifest_schema_version() {
    let err = check_manifest_contents(
        "{\n  \"schema_version\": \"wrong\",\n  \"workspace_count\": 0,\n  \"workspaces\": []\n}\n",
    )
    .unwrap_err();
    assert!(err.contains("schema_version `wrong` is unsupported"));
}

#[test]
fn rejects_wrong_workspace_manifest_hash_algorithm() {
    let manifest = core_entry(
        "devenv",
        "~/Projects/basaltos/core",
        "./basalt_core/devenv.nix",
        "sha256",
        "18",
        "0123456789abcdef",
    );
    let err = check_manifest_contents(&manifest).unwrap_err();
    assert!(err.contains("unsupported config hash algorithm `sha256`"));
}

#[test]
fn rejects_unsupported_workspace_manifest_backend() {
    let manifest = core_entry(
        "profile",
        "~/Projects/basaltos/core",
        "./basalt_core/devenv.nix",
        "fnv1a64",
        "1",
        "0123456789abcdef",
    );
    let err = check_manifest_contents(&manifest).unwrap_err();
    assert!(err.contains("unsupported backend `profile`"));
}

#[test]
fn rejects_empty_workspace_manifest_workspace_path() {
    let manifest = core_entry("devenv", "  ", "./basalt_core/devenv.nix", "fnv1a64", "1", "0123456789abcdef");
    let err = check_manifest_contents(&manifest).unwrap_err();
    assert!(err.contains("empty workspace_path"));
}

#[test]
fn rejects_malformed_workspace_manifest_config_hash() {
    let manifest = core_entry(
        "devenv",
        "~/Projects/basaltos/core",
        "./basalt_core/devenv.nix",
        "fnv1a64",
        "1",
        "not-a-hash",
    );
    let err = check_manifest_contents(&manifest).unwrap_err();
    assert!(err.contains("invalid config_hash `not-a-hash`"));
}

#[test]
fn rejects_wrong_workspace_manifest_artifact_name() {
    let manifest = core_entry(
        "devenv",
        "~/Projects/basaltos/core",
        "./basalt_core/profile.nix",
        "fnv1a64",
        "1",
        "0123456789abcdef",
    );
    let err = check_manifest_contents(&manifest).unwrap_err();
    assert!(err.contains("invalid devenv_nix `./basalt_core/profile.nix`"));
}

#[test]
fn rejects_empty_workspace_manifest_name() {
    let manifest = one_entry(
        "  ",
        "devenv",
        "~/Projects/basaltos/core",
        "./basalt_core/devenv.nix",
        "fnv1a64",
        "1",
        "0123456789abcdef",
    );
    let err = check_manifest_contents(&manifest).unwrap_err();
    assert!(err.contains("empty workspace name"));
}

#[test]
fn rejects_wrong_workspace_manifest_count() {
    let err = check_manifest_contents(
        "{\n  \"schema_version\": \"basalt-workspace-state-v0\",\n  \"workspace_count\": 2,\n  \"workspaces\": []\n}\n",
    )
    .unwrap_err();
    assert!(err.contains("workspace_count `2` does not match parsed workspace entries `0`"));
}

#[test]
fn rejects_duplicate_workspace_manifest_names() {
    let manifest = "{\n  \"schema_version\": \"basalt-workspace-state-v0\",\n  \"workspace_count\": 2,\n  \"workspaces\": [\n    {\n      \"name\": \"dup\",\n      \"backend\": \"devenv\",\n      \"workspace_path\": \"~/one\",\n      \"devenv_nix\": \"./one/devenv.nix\",\n      \"config_hash_algorithm\": \"fnv1a64\",\n      \"config_size_bytes\": 1,\n      \"config_hash\": \"1111111111111111\"\n    },\n    {\n      \"name\": \"dup\",\n      \"backend\": \"devenv\",\n      \"workspace_path\": \"~/two\",\n      \"devenv_nix\": \"./two/devenv.nix\",\n      \"config_hash_algorithm\": \"fnv1a64\",\n      \"config_size_bytes\": 1,\n      \"config_hash\": \"2222222222222222\"\n    }\n  ]\n}\n";
    let err = check_manifest_contents(manifest).unwrap_err();
    assert!(err.contains("duplicate workspace name `dup`"));
}

#[test]
fn rejects_duplicate_workspace_manifest_artifact_paths() {
    let manifest = "{\n  \"schema_version\": \"basalt-workspace-state-v0\",\n  \"workspace_count\": 2,\n  \"workspaces\": [\n    {\n      \"name\": \"one\",\n      \"backend\": \"devenv\",\n      \"workspace_path\": \"~/one\",\n      \"devenv_nix\": \"./shared/devenv.nix\",\n      \"config_hash_algorithm\": \"fnv1a64\",\n      \"config_size_bytes\": 1,\n      \"config_hash\": \"1111111111111111\"\n    },\n    {\n      \"name\": \"two\",\n      \"backend\": \"devenv\",\n      \"workspace_path\": \"~/two\",\n      \"devenv_nix\": \"./shared/devenv.nix\",\n      \"config_hash_algorithm\": \"fnv1a64\",\n      \"config_size_bytes\": 1,\n      \"config_hash\": \"2222222222222222\"\n    }\n  ]\n}\n";
    let err = check_manifest_contents(manifest).unwrap_err();
    assert!(err.contains("duplicate artifact path `./shared/devenv.nix`"));
}

#[test]
fn reports_workspace_manifest_size_mismatch() {
    let contents = "{ pkgs, ... }:\n{}\n";
    let manifest = core_entry(
        "devenv",
        "~/Projects/basaltos/core",
        "./basalt_core/devenv.nix",
        "fnv1a64",
        "1",
        "0123456789abcdef",
    );
    let entries = check_manifest_contents(&manifest).unwrap();
    let relative = manifest_artifact_relative(&entries[0].devenv_nix).unwrap();
    let display = format!("/tmp/manifest/{relative}");
    let failure = artifact_failure(&display, &entries[0], &Ok(contents.to_string())).unwrap();
    let check = manifest_check_summary(&entries, vec![failure]);
    assert!(!check.is_ok());
    assert!(check.failures[0].contains("config size mismatch"));
}
