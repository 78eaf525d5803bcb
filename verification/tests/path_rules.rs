use send2me::paths::{
    conflicted_copy_path, free_path_candidate, get_export_path, is_sweep_skipped,
    is_system_temp_file, sanitize_filename, sync_conflict_path, tmp_path_for,
    drive_upload_target, sync_target_path, validate_path_component, PathFault, TMP_EXTENSION,
};
use std::path::{Path, PathBuf};

#[test]
fn sanitize_rejects_path_traversal() {
    assert!(sanitize_filename("../").is_none());
    assert!(sanitize_filename("..").is_none());
    assert!(sanitize_filename("").is_none());
    assert!(sanitize_filename(".hidden").is_none());
    assert!(sanitize_filename("CON").is_none());
    assert!(sanitize_filename("com1.txt").is_none());
    assert_eq!(sanitize_filename("../etc/passwd").as_deref(), Some("passwd"));
    assert_eq!(sanitize_filename("subdir\\file.txt").as_deref(), Some("file.txt"));
}

#[test]
fn sanitize_accepts_normal() {
    assert_eq!(sanitize_filename("file.txt").as_deref(), Some("file.txt"));
    assert_eq!(sanitize_filename("photo (1).jpg").as_deref(), Some("photo (1).jpg"));
}

#[test]
fn sanitize_rejects_device_names_with_extensions_and_colons() {
    assert!(sanitize_filename("lpt9.log").is_none());
    assert!(sanitize_filename("Aux").is_none());
    assert_eq!(sanitize_filename("console.txt").as_deref(), Some("console.txt"));
    assert_eq!(sanitize_filename("COM10").as_deref(), Some("COM10"));
    assert!(sanitize_filename("C:foo").is_none());
    assert!(sanitize_filename("a\0b").is_none());
    assert_eq!(sanitize_filename("dir/./").as_deref(), Some("dir"));
    assert!(sanitize_filename("dir/..").is_none());
}

#[test]
fn tmp_path_lives_next_to_final() {
    let t = tmp_path_for("/downloads/report.pdf", "tx-123");
    let t = Path::new(&t);
    assert_eq!(t.parent().unwrap(), Path::new("/downloads"));
    assert!(t.file_name().unwrap().to_string_lossy().ends_with(TMP_EXTENSION));
}

#[test]
fn tmp_path_exact_text() {
    assert_eq!(
        tmp_path_for("/downloads/report.pdf", "tx-123"),
        "/downloads/unconfirmed_transfer_tx-123.send2me.secret"
    );
    assert_eq!(tmp_path_for("report.pdf", "a"), "unconfirmed_transfer_a.send2me.secret");
    assert_eq!(tmp_path_for("/report.pdf", "a"), "/unconfirmed_transfer_a.send2me.secret");
    assert_eq!(tmp_path_for("", "a"), "./unconfirmed_transfer_a.send2me.secret");
}

#[test]
fn validate_rejects_empty() {
    assert!(validate_path_component("").is_err());
}

#[test]
fn validate_rejects_slash() {
    assert!(validate_path_component("a/b").is_err());
}

#[test]
fn validate_rejects_backslash() {
    assert!(validate_path_component("a\\b").is_err());
}

#[test]
fn validate_rejects_parent_traversal() {
    assert!(validate_path_component("..").is_err());
}

#[test]
fn validate_rejects_dot() {
    assert!(validate_path_component(".").is_err());
}

#[test]
fn validate_rejects_null_byte() {
    assert!(validate_path_component("a\0b").is_err());
}

#[test]
fn validate_rejects_colon() {
    assert!(validate_path_component("C:foo").is_err());
}

#[test]
fn validate_accepts_normal() {
    assert!(validate_path_component("file.txt").is_ok());
    assert!(validate_path_component("my-file_v2.tar.gz").is_ok());
}

#[test]
fn validate_reports_first_broken_rule() {
    assert_eq!(validate_path_component(""), Err(PathFault::Empty));
    assert_eq!(validate_path_component("a/b:c"), Err(PathFault::ContainsSlash));
    assert_eq!(validate_path_component("a\\b:c"), Err(PathFault::ContainsBackslash));
    assert_eq!(validate_path_component("a:\0"), Err(PathFault::ContainsColon));
    assert_eq!(validate_path_component(".."), Err(PathFault::ParentTraversal));
    assert_eq!(validate_path_component("."), Err(PathFault::CurrentDirectory));
    assert_eq!(validate_path_component("x\0"), Err(PathFault::ContainsNul));
    assert_eq!(validate_path_component("..."), Ok(()));
}

#[test]
fn get_export_path_blocks_drive_prefix() {
    assert!(get_export_path("/tmp/test", "C:foo").is_err());
}

#[test]
fn get_export_path_blocks_traversal() {
    assert!(get_export_path("/tmp/test", "../etc/passwd").is_err());
    assert!(get_export_path("/tmp/test", "subdir/../../etc/passwd").is_err());
}

#[test]
fn get_export_path_blocks_backslash() {
    assert!(get_export_path("/tmp/test", "file\\name").is_err());
}

#[test]
fn get_export_path_allows_normal() {
    let p = get_export_path("/tmp/test", "subdir/file.txt").unwrap();
    assert_eq!(PathBuf::from(p), PathBuf::from("/tmp/test/subdir/file.txt"));
}

#[test]
fn get_export_path_edge_cases() {
    assert_eq!(get_export_path("/tmp/test/", "a").unwrap(), "/tmp/test/a");
    assert_eq!(get_export_path("", "a/b").unwrap(), "a/b");
    assert_eq!(get_export_path("/r", "a//b"), Err(PathFault::Empty));
    assert_eq!(get_export_path("/r", ""), Err(PathFault::Empty));
}

#[test]
fn free_path_candidates() {
    assert_eq!(free_path_candidate("/d/f.txt", 1).as_deref(), Some("/d/f (1).txt"));
    assert_eq!(free_path_candidate("/d/archive.tar.gz", 12).as_deref(), Some("/d/archive.tar (12).gz"));
    assert_eq!(free_path_candidate("/d/README", 3).as_deref(), Some("/d/README (3)"));
    assert_eq!(free_path_candidate("/d/.env", 2).as_deref(), Some("/d/.env (2)"));
    assert_eq!(free_path_candidate("/d/x.", 1).as_deref(), Some("/d/x (1)."));
    assert_eq!(free_path_candidate("f.txt", 1).as_deref(), Some("f (1).txt"));
    assert_eq!(free_path_candidate("/", 1), None);
    assert_eq!(free_path_candidate("/d/..", 1), None);
}

#[test]
fn conflict_names() {
    assert_eq!(
        conflicted_copy_path("/s/notes.md", "Laptop"),
        "/s/notes (Laptop Conflicted Copy).md"
    );
    assert_eq!(conflicted_copy_path("/s/Makefile", "PC"), "/s/Makefile (PC Conflicted Copy)");
    assert_eq!(
        sync_conflict_path("docs/plan.txt", "PC", "20240101-120000"),
        "docs/plan.sync-conflict-PC-20240101-120000.txt"
    );
    assert_eq!(
        sync_conflict_path("plan", "PC", "T"),
        "plan.sync-conflict-PC-T"
    );
}

#[test]
fn temp_file_detection() {
    assert!(is_system_temp_file("/s/a.txt.sync.tmp"));
    assert!(is_system_temp_file("/s/unconfirmed_transfer_x.send2me.secret"));
    assert!(is_system_temp_file("/s/~$doc.docx"));
    assert!(is_system_temp_file("/s/Desktop.INI"));
    assert!(is_system_temp_file("/s/.DS_Store"));
    assert!(!is_system_temp_file("/s/photo.jpg"));
    assert!(!is_system_temp_file("/"));
    assert!(is_sweep_skipped(".sync_trash"));
    assert!(is_sweep_skipped(".sync.tmp.abc"));
    assert!(!is_sweep_skipped("Desktop.ini"));
}

#[test]
fn sync_target_stays_in_folder() {
    assert_eq!(sync_target_path("/sync", "docs/a.txt").as_deref(), Some("/sync/docs/a.txt"));
    assert_eq!(sync_target_path("/sync/", "a.txt").as_deref(), Some("/sync/a.txt"));
    assert_eq!(sync_target_path("/sync", "../../etc/passwd").as_deref(), Some("/sync/etc/passwd"));
    assert_eq!(sync_target_path("/sync", "/etc/passwd").as_deref(), Some("/sync/etc/passwd"));
    assert_eq!(sync_target_path("/sync", "C:\\Windows\\x.dll").as_deref(), Some("/sync/Windows/x.dll"));
    assert_eq!(sync_target_path("/sync", "a/./b\\..\\c").as_deref(), Some("/sync/a/b/c"));
    assert_eq!(sync_target_path("/sync", ".."), None);
    assert_eq!(sync_target_path("/sync", ""), None);
}

#[test]
fn drive_uploads_land_in_download_dir() {
    assert_eq!(drive_upload_target("/dl", "report.pdf").as_deref(), Some("/dl/report.pdf"));
    assert_eq!(drive_upload_target("/dl/", "report.pdf").as_deref(), Some("/dl/report.pdf"));
    assert_eq!(drive_upload_target("/dl", "../../etc/passwd").as_deref(), Some("/dl/passwd"));
    assert_eq!(drive_upload_target("/dl", "/abs/x.txt").as_deref(), Some("/dl/x.txt"));
    assert_eq!(drive_upload_target("/dl", "a\\b\\c.txt").as_deref(), Some("/dl/c.txt"));
    assert_eq!(drive_upload_target("/dl", ".."), None);
    assert_eq!(drive_upload_target("/dl", ".hidden"), None);
    assert_eq!(drive_upload_target("/dl", "CON"), None);
    assert_eq!(drive_upload_target("/dl", ""), None);
}
