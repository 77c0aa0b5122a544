use basalt::planning::action::{Action, Risk};
use basalt::state::db::{
    render_history, render_package_history, render_run_inspection, render_service_history,
    rows_mentioning_package, rows_mentioning_service, service_unit_alias, HistoryRow,
    PackageHistoryRow, RunInspection, ServiceHistoryRow, StateDbArtifacts,
};
use basalt::state::store::{
    escape_json, render_run_record_json, run_id_for, CurrentState, MockStateReader, RunRecord,
    StateReader,
};

fn hostname_action() -> Action {
    Action {
        id: "system.hostname".to_string(),
        domain: "system".to_string(),
        description: "set hostname to `basalt-vm`".to_string(),
        risk: Risk::Medium,
    }
}

#[test]
fn renders_empty_history() {
    assert_eq!(render_history(&[]), "No runs recorded.\n");
}

#[test]
fn mock_state_reader_returns_configured_state() {
    let mut state = CurrentState::default();
    state.hostname = Some("basalt-vm".to_string());
    let reader = MockStateReader { state };
    let state = reader.read_current_state().unwrap();
    assert_eq!(state.hostname.as_deref(), Some("basalt-vm"));
}

#[test]
fn renders_run_record_json() {
    let mut state = CurrentState::default();
    state.hostname = Some("omega".to_string());
    let record =
        RunRecord::dry_run("../basalt-configs/examples/minimal".to_string(), vec![hostname_action()], &state);
    let json = render_run_record_json(&record);
    assert!(json.contains("\"mode\": \"dry-run\""));
    assert!(json.contains("\"schema_version\": \"0\""));
    assert!(json.contains("\"action_count\": 1"));
    assert!(json.contains("\"hostname\": \"omega\""));
}

#[test]
fn renders_apply_run_record_json() {
    let record = RunRecord::apply(
        "../basalt-configs/fixtures/valid-system-apply".to_string(),
        vec![hostname_action()],
        &CurrentState::default(),
    );
    let json = render_run_record_json(&record);
    assert!(json.contains("\"mode\": \"apply\""));
    assert!(json.contains("\"action_count\": 1"));
}

#[test]
fn run_ids_name_their_millisecond() {
    assert_eq!(run_id_for(0), "run-0");
    assert_eq!(run_id_for(1712345678901), "run-1712345678901");
    let record = RunRecord::dry_run("cfg".to_string(), Vec::new(), &CurrentState::default());
    assert!(record.id.starts_with("run-"));
    assert_eq!(record.action_count, 0);
    assert_eq!(record.config_path, "cfg");
}

#[test]
fn escapes_json_specials() {
    assert_eq!(escape_json("a\"b\\c\nd"), "a\\\"b\\\\c\\nd");
    assert_eq!(escape_json("plain"), "plain");
}

#[test]
fn renders_history_table() {
    let rows = vec![HistoryRow {
        id: "run-1".to_string(),
        mode: "apply".to_string(),
        action_count: 3,
        config_path: "/etc/basalt".to_string(),
        created_at: "2024-01-01 00:00:00".to_string(),
        package_operation_count: 2,
        service_operation_count: 1,
    }];
    assert_eq!(
        render_history(&rows),
        "Basalt run history\n\nID | Mode | Actions | Packages | Services | Created | Config\n---|------|---------|----------|----------|---------|-------\nrun-1 | apply | 3 | 2 | 1 | 2024-01-01 00:00:00 | /etc/basalt\n"
    );
}

#[test]
fn renders_empty_package_and_service_history() {
    assert_eq!(render_package_history(" git ", &[]), "No package history for `git`.\n");
    assert_eq!(render_service_history("not-present", &[]), "No service history for `not-present`.\n");
}

#[test]
fn renders_package_history_rows() {
    let rows = vec![PackageHistoryRow {
        run_id: "run-7".to_string(),
        mode: "dry-run".to_string(),
        created_at: "now".to_string(),
        config_path: "cfg".to_string(),
        intent: vec!["pacman git".to_string()],
        operations: Vec::new(),
        snapshot_changes: Vec::new(),
        audit: Vec::new(),
    }];
    assert_eq!(
        render_package_history("git", &rows),
        "Basalt package history: git\n\nrun-7 | dry-run | now | cfg\n  intent:\n    - pacman git\n  operations:\n    - none\n  snapshot:\n    - none\n  audit:\n    - none\n\n"
    );
    let service_rows = vec![ServiceHistoryRow {
        run_id: "run-8".to_string(),
        mode: "apply".to_string(),
        created_at: "later".to_string(),
        config_path: "cfg".to_string(),
        intent: vec!["enable sshd".to_string()],
        operations: vec!["enable sshd".to_string()],
        snapshot_changes: Vec::new(),
        audit: Vec::new(),
    }];
    let rendered = render_service_history("sshd", &service_rows);
    assert!(rendered.starts_with("Basalt service history: sshd\n\nrun-8 | apply | later | cfg\n"));
    assert!(rendered.contains("  operations:\n    - enable sshd\n"));
}

#[test]
fn renders_run_inspection_sections() {
    let inspection = RunInspection {
        id: "run-9".to_string(),
        declared_packages: vec!["pacman git".to_string()],
        declared_services: Vec::new(),
        package_transaction_statuses: Vec::new(),
        resolved_package_transactions: Vec::new(),
        requested_package_operations: Vec::new(),
        requested_service_operations: Vec::new(),
        package_snapshot_changes: Vec::new(),
        service_snapshot_changes: Vec::new(),
        package_result_audit: Vec::new(),
        service_result_audit: Vec::new(),
    };
    let rendered = render_run_inspection(&inspection);
    assert!(rendered.starts_with("Basalt run inspection\n\nRun: run-9\n\n"));
    assert!(rendered.contains("pacman git"));
}

#[test]
fn names_service_units() {
    assert_eq!(service_unit_alias("sshd"), "sshd.service");
    assert_eq!(service_unit_alias("sshd.service"), "sshd.service");
    assert_eq!(service_unit_alias(&service_unit_alias("NetworkManager")), service_unit_alias("NetworkManager"));
}

#[test]
fn filters_rows_by_mentioned_name() {
    let rows = vec![
        "pacman git".to_string(),
        "pacman gitk".to_string(),
        "enable sshd.service".to_string(),
        "enable sshd".to_string(),
    ];
    assert_eq!(rows_mentioning_package(rows.clone(), "git"), vec!["pacman git".to_string()]);
    assert_eq!(
        rows_mentioning_service(rows, " sshd "),
        vec!["enable sshd.service".to_string(), "enable sshd".to_string()]
    );
}

#[test]
fn new_artifacts_hold_only_the_record_paths() {
    let a = StateDbArtifacts::new("runs/run-1.json".to_string(), "runs/latest.json".to_string());
    assert_eq!(a.run_json_path, "runs/run-1.json");
    assert_eq!(a.latest_json_path, "runs/latest.json");
    assert!(a.package_intent.is_empty());
    assert!(a.backup_dir.is_none());
    assert!(a.pacman_transaction.is_none());
}
