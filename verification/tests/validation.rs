use basalt::config::types::{
    BasaltConfig, PackagesConfig, ServicesConfig, StorageConfig, StoragePartitionConfig,
    StorageSubvolumeConfig, SystemConfig, WorkspaceConfig, WorkspacesConfig,
};
use basalt::config::validate::validate;
use basalt::strmap::StrMap;

fn system() -> Option<SystemConfig> {
    Some(SystemConfig { hostname: "basalt-test".to_string(), timezone: None, locale: None, keymap: None })
}

fn no_packages() -> PackagesConfig {
    PackagesConfig { pacman: Vec::new(), aur: Vec::new(), nix: Vec::new() }
}

fn no_services() -> ServicesConfig {
    ServicesConfig { enable: Vec::new(), disable: Vec::new() }
}

fn base(storage: Option<StorageConfig>) -> BasaltConfig {
    BasaltConfig {
        system: system(),
        packages: Some(no_packages()),
        services: Some(no_services()),
        storage,
        files: None,
        workspaces: None,
    }
}

fn whole_disk(root_filesystem: &str) -> StorageConfig {
    StorageConfig {
        layout: "whole_disk".to_string(),
        disk: Some("/dev/vda".to_string()),
        target: "/mnt".to_string(),
        efi_filesystem: Some("fat32".to_string()),
        root_filesystem: Some(root_filesystem.to_string()),
        partitions: Vec::new(),
    }
}

fn partition(
    disk: &str,
    number: &str,
    label: &str,
    mountpoint: &str,
    filesystem: &str,
    size: &str,
) -> StoragePartitionConfig {
    StoragePartitionConfig {
        disk: disk.to_string(),
        number: Some(number.to_string()),
        label: Some(label.to_string()),
        mountpoint: Some(mountpoint.to_string()),
        filesystem: filesystem.to_string(),
        size: Some(size.to_string()),
        flags: Vec::new(),
        format: true,
        mount_options: Vec::new(),
        subvolumes: Vec::new(),
    }
}

fn manual(partitions: Vec<StoragePartitionConfig>) -> StorageConfig {
    StorageConfig {
        layout: "manual".to_string(),
        disk: None,
        target: "/mnt".to_string(),
        efi_filesystem: None,
        root_filesystem: None,
        partitions,
    }
}

#[test]
fn rejects_unsupported_package_version_constraints() {
    let mut config = base(None);
    config.packages = Some(PackagesConfig { pacman: vec!["tree=2.3.2-1".to_string()], aur: Vec::new(), nix: Vec::new() });
    let errors = validate(&config);
    assert!(errors.iter().any(|error| error.contains("unsupported version constraint syntax")));
}

#[test]
fn rejects_unsupported_workspace_backend() {
    let mut config = base(None);
    let mut entries = StrMap::new();
    entries.insert(
        "core".to_string(),
        WorkspaceConfig {
            path: "~/Projects/basaltos/core".to_string(),
            backend: "profile".to_string(),
            languages: StrMap::new(),
            packages: Vec::new(),
            services: StrMap::new(),
            tasks: StrMap::new(),
        },
    );
    config.workspaces = Some(WorkspacesConfig { entries });
    let errors = validate(&config);
    assert!(errors.iter().any(|error| error.contains("unsupported backend `profile`")));
}

#[test]
fn rejects_unsupported_storage_filesystem() {
    let errors = validate(&base(Some(whole_disk("zfs"))));
    assert!(errors.iter().any(|error| error.contains("unsupported filesystem `zfs`")));
}

#[test]
fn accepts_supported_storage_filesystems() {
    for filesystem in ["ext4", "btrfs", "xfs", "f2fs"] {
        let errors = validate(&base(Some(whole_disk(filesystem))));
        assert!(errors.is_empty(), "{filesystem} should be accepted; got {errors:?}");
    }
}

#[test]
fn accepts_manual_multi_disk_storage_partitions() {
    let mut efi = partition("/dev/nvme0n1", "1", "EFI", "/boot", "fat32", "512MiB");
    efi.flags = vec!["esp".to_string()];
    let root = partition("/dev/nvme0n1", "2", "ROOT", "/", "xfs", "80GiB");
    let mut home = partition("/dev/sda", "1", "HOME", "/home", "btrfs", "100%");
    home.mount_options = vec!["compress=zstd".to_string()];
    home.subvolumes = vec![StorageSubvolumeConfig {
        name: "@home".to_string(),
        mountpoint: "/home".to_string(),
        mount_options: vec!["compress=zstd".to_string()],
    }];
    let errors = validate(&base(Some(manual(vec![efi, root, home]))));
    assert!(errors.is_empty(), "manual storage should be accepted: {errors:?}");
}

#[test]
fn rejects_manual_storage_without_root_mount() {
    let home = partition("/dev/vda", "1", "HOME", "/home", "btrfs", "100%");
    let errors = validate(&base(Some(manual(vec![home]))));
    assert!(errors.iter().any(|error| error.contains("must include a `/` mountpoint")));
}

#[test]
fn requires_system_packages_and_services() {
    let config = BasaltConfig { system: None, packages: None, services: None, storage: None, files: None, workspaces: None };
    assert_eq!(validate(&config), vec!["missing required top-level domain `system`".to_string()]);
    let mut config = base(None);
    config.packages = None;
    config.services = None;
    assert_eq!(
        validate(&config),
        vec![
            "missing required top-level domain `packages`".to_string(),
            "missing required top-level domain `services`".to_string(),
        ]
    );
    assert!(validate(&base(None)).is_empty());
}

#[test]
fn rejects_blank_hostname_and_package_whitespace() {
    let mut config = base(None);
    config.system = Some(SystemConfig { hostname: "  ".to_string(), timezone: None, locale: None, keymap: None });
    config.packages = Some(PackagesConfig { pacman: vec!["two words".to_string(), " ".to_string()], aur: Vec::new(), nix: Vec::new() });
    let errors = validate(&config);
    assert_eq!(errors[0], "`system.hostname` cannot be empty");
    assert!(errors.iter().any(|e| e.contains("cannot contain whitespace")));
    assert!(errors.iter().any(|e| e.contains("package names cannot be empty")));
}
