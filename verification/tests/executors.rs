use basalt::backends::aur::resolve_aur_install_transaction;
use basalt::backends::nix::resolve_nix_install_transaction;
use basalt::backends::pacman::{
    read_installed_packages, render_package_operations_log, PackageAction, PackageBackend,
    PackageExecutor, PackageOperation, PackageTransaction, RecordingPackageExecutor,
};
use basalt::process::command::CommandOutput;
use basalt::system::locale::{read_hostname_from_root, read_keymap, read_locale, timezone_from_link};
use basalt::system::services::{
    read_enabled_services, render_service_operations_log, systemctl_outcome, RecordingServiceExecutor,
    ServiceAction, ServiceExecutor, ServiceOperation,
};

fn output(code: Option<i32>, stdout: &str, stderr: &str) -> CommandOutput {
    CommandOutput { status_code: code, stdout: stdout.to_string(), stderr: stderr.to_string() }
}

#[test]
fn recording_package_executor_captures_operations() {
    let mut executor = RecordingPackageExecutor::default();
    executor.ensure_installed(PackageBackend::Pacman, "basalt-test").unwrap();
    assert_eq!(executor.operations().len(), 1);
    assert_eq!(executor.operations()[0].backend, PackageBackend::Pacman);
    assert_eq!(executor.operations()[0].package, "basalt-test");
}

#[test]
fn recording_executor_captures_operations() {
    let mut executor = RecordingServiceExecutor::default();
    executor.enable("NetworkManager").unwrap();
    executor.disable("sshd").unwrap();
    assert_eq!(executor.operations().len(), 2);
    assert_eq!(executor.operations()[0].action, ServiceAction::Enable);
    assert_eq!(executor.operations()[0].service, "NetworkManager");
    assert_eq!(executor.operations()[1].action, ServiceAction::Disable);
}

#[test]
fn host_executor_reports_failed_systemctl() {
    let args = vec!["--definitely-not-a-systemctl-flag".to_string()];
    let err = systemctl_outcome(
        &args,
        Ok(output(Some(1), "", "systemctl: unrecognized option '--definitely-not-a-systemctl-flag'\n")),
    )
    .unwrap_err();
    assert!(err.contains("systemctl"));
    assert_eq!(
        err,
        "systemctl --definitely-not-a-systemctl-flag failed: systemctl: unrecognized option '--definitely-not-a-systemctl-flag'"
    );
}

#[test]
fn systemctl_outcome_cases() {
    let args = vec!["enable".to_string(), "sshd".to_string()];
    assert!(systemctl_outcome(&args, Ok(output(Some(0), "", "noise"))).is_ok());
    assert_eq!(systemctl_outcome(&args, Ok(output(Some(1), "", "  \n"))).unwrap_err(), "systemctl enable sshd failed");
    assert_eq!(systemctl_outcome(&args, Ok(output(None, "", ""))).unwrap_err(), "systemctl enable sshd failed");
    assert_eq!(
        systemctl_outcome(&args, Err("systemctl: not found".to_string())).unwrap_err(),
        "systemctl: not found"
    );
}

#[test]
fn writes_package_operations_log_text() {
    let operations = vec![PackageOperation {
        backend: PackageBackend::Pacman,
        action: PackageAction::EnsureInstalled,
        package: "basalt-test".to_string(),
    }];
    let log = render_package_operations_log(&operations);
    assert!(log.contains("pacman ensure-installed basalt-test"));
    assert_eq!(log, "pacman ensure-installed basalt-test\n");
}

#[test]
fn writes_service_operations_log_text() {
    let operations = vec![
        ServiceOperation { action: ServiceAction::Enable, service: "basalt-example".to_string() },
        ServiceOperation { action: ServiceAction::Disable, service: "old-example".to_string() },
    ];
    let log = render_service_operations_log(&operations);
    assert_eq!(log, "enable basalt-example\ndisable old-example\n");
}

#[test]
fn reads_installed_packages_from_query() {
    let installed = read_installed_packages(Ok(output(Some(0), "base\n  git  \n\nvim\r\n", "")));
    assert!(installed.contains("base"));
    assert!(installed.contains("git"));
    assert!(installed.contains("vim"));
    assert_eq!(installed.len(), 3);
    assert!(read_installed_packages(Ok(output(Some(1), "base\n", ""))).is_empty());
    assert!(read_installed_packages(Err("pacman missing".to_string())).is_empty());
}

#[test]
fn reads_enabled_services_from_listing() {
    let listing = "sshd.service enabled enabled\nbasalt.timer enabled enabled\n\n2 unit files listed.\n";
    let enabled = read_enabled_services(Ok(output(Some(0), listing, "")));
    assert!(enabled.contains("sshd.service"));
    assert!(enabled.contains("sshd"));
    assert!(enabled.contains("basalt.timer"));
    assert!(!enabled.contains("basalt"));
    assert!(read_enabled_services(Ok(output(Some(3), listing, ""))).is_empty());
}

#[test]
fn skips_unresolved_backends() {
    let none: Vec<String> = vec!["  ".to_string()];
    let some = vec!["paru-bin".to_string()];
    let t = resolve_aur_install_transaction(&none).unwrap();
    assert_eq!((t.status.as_str(), t.message.as_str()), ("skipped", "no AUR packages requested"));
    let t = resolve_aur_install_transaction(&some).unwrap();
    assert_eq!(t.message, "AUR transaction resolution is not implemented yet");
    let t = resolve_nix_install_transaction(&Vec::new()).unwrap();
    assert_eq!(t.message, "no Nix packages requested");
    let t = PackageTransaction::skipped("why");
    assert_eq!((t.status.as_str(), t.message.as_str()), ("skipped", "why"));
}

#[test]
fn reads_system_identity_files() {
    assert_eq!(read_hostname_from_root(Some("  basalt-vm \n".to_string())), Some("basalt-vm".to_string()));
    assert_eq!(read_hostname_from_root(Some("\n".to_string())), None);
    assert_eq!(read_hostname_from_root(None), None);
    assert_eq!(read_locale(Some("# comment\nLANG=en_US.UTF-8\n".to_string())), Some("en_US.UTF-8".to_string()));
    assert_eq!(read_keymap(Some("KEYMAP=us\n".to_string())), Some("us".to_string()));
    assert_eq!(read_keymap(None), None);
    assert_eq!(timezone_from_link("/usr/share/zoneinfo/Europe/Berlin"), Some("Europe/Berlin".to_string()));
    assert_eq!(timezone_from_link("../usr/share/zoneinfo/UTC"), Some("UTC".to_string()));
    assert_eq!(timezone_from_link("/usr/share/zoneinfo/"), None);
    assert_eq!(timezone_from_link("/etc/other"), None);
}
