use basalt::recovery::restore::{
    backup_name, manifest_line, parse_backup_manifest, restore_step, validate_relative_path,
    BackupKind, BackupManifestEntry, RestoreStep, BACKUP_MANIFEST,
};

fn entry(path: &str, kind: BackupKind, name: Option<&str>) -> BackupManifestEntry {
    BackupManifestEntry { relative_path: path.to_string(), kind, backup_name: name.map(|n| n.to_string()) }
}

#[test]
fn rejects_path_traversal() {
    let err = validate_relative_path("../etc/passwd").unwrap_err();
    assert!(err.contains("target root"));
}

#[test]
fn accepts_plain_relative_paths() {
    assert!(validate_relative_path("etc/hostname").is_ok());
    assert!(validate_relative_path("").is_err());
    assert!(validate_relative_path("/etc/hostname").is_err());
    assert!(validate_relative_path("./etc").is_err());
    assert!(validate_relative_path("etc/./hostname").is_ok());
}

#[test]
fn names_backups_by_flattened_path() {
    assert_eq!(backup_name("etc/hostname"), "etc__hostname");
    assert_eq!(backup_name("etc/basalt/motd"), "etc__basalt__motd");
    assert_eq!(BACKUP_MANIFEST, "backup-manifest.tsv");
}

#[test]
fn backup_kinds_read_back() {
    for kind in [BackupKind::Missing, BackupKind::File, BackupKind::Symlink] {
        assert_eq!(BackupKind::parse(kind.as_str()).unwrap(), kind);
    }
    assert_eq!(BackupKind::parse("dir").unwrap_err(), "unknown backup kind `dir`");
}

#[test]
fn manifest_lines_read_back_as_entries() {
    let entries = vec![
        entry("etc/hostname", BackupKind::File, Some("etc__hostname")),
        entry("etc/basalt/motd", BackupKind::Missing, None),
        entry("etc/localtime", BackupKind::Symlink, Some("etc__localtime")),
    ];
    let mut text = String::new();
    for e in &entries {
        text.push_str(&manifest_line(e).unwrap());
    }
    assert_eq!(text, "etc/hostname\tfile\tetc__hostname\netc/basalt/motd\tmissing\t-\netc/localtime\tsymlink\tetc__localtime\n");
    let parsed = parse_backup_manifest("backup-manifest.tsv", &text).unwrap();
    assert_eq!(parsed.len(), 3);
    for (a, b) in parsed.iter().zip(entries.iter()) {
        assert_eq!(a.relative_path, b.relative_path);
        assert_eq!(a.kind, b.kind);
        assert_eq!(a.backup_name, b.backup_name);
    }
}

#[test]
fn manifest_refuses_tabs_and_bad_lines() {
    assert_eq!(
        manifest_line(&entry("etc\tx", BackupKind::File, Some("n"))).unwrap_err(),
        "backup manifest path cannot contain tabs: etc\tx"
    );
    assert_eq!(
        manifest_line(&entry("etc/x", BackupKind::File, Some("a\tb"))).unwrap_err(),
        "backup manifest backup name cannot contain tabs: a\tb"
    );
    assert_eq!(
        parse_backup_manifest("m.tsv", "etc/x\tfile\n").unwrap_err(),
        "m.tsv:1: expected relative_path, kind, backup_name"
    );
    assert_eq!(parse_backup_manifest("m.tsv", "\n  \netc/x\tdir\t-\n").unwrap_err(), "unknown backup kind `dir`");
    assert!(parse_backup_manifest("m.tsv", "").unwrap().is_empty());
}

#[test]
fn restore_steps_follow_backup_kind() {
    match restore_step(&entry("etc/basalt/motd", BackupKind::Missing, None)).unwrap() {
        RestoreStep::Remove { relative_path } => assert_eq!(relative_path, "etc/basalt/motd"),
        _ => panic!("expected removal"),
    }
    match restore_step(&entry("etc/hostname", BackupKind::File, Some("etc__hostname"))).unwrap() {
        RestoreStep::CopyBack { relative_path, backup_name } => {
            assert_eq!(relative_path, "etc/hostname");
            assert_eq!(backup_name, "etc__hostname");
        },
        _ => panic!("expected copy back"),
    }
    match restore_step(&entry("etc/localtime", BackupKind::Symlink, Some("etc__localtime"))).unwrap() {
        RestoreStep::Relink { backup_name, .. } => assert_eq!(backup_name, "etc__localtime"),
        _ => panic!("expected relink"),
    }
    assert_eq!(
        restore_step(&entry("etc/hostname", BackupKind::File, None)).unwrap_err(),
        "backup entry `etc/hostname` has no backup file"
    );
    assert_eq!(
        restore_step(&entry("../x", BackupKind::Missing, None)).unwrap_err(),
        "backup path `../x` must stay inside the target root"
    );
}
