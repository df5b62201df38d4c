use parasync::downloads::{
    detect_zip_primary_top_level_dir, download_start_checks, has_existing_with_key_prefix,
};
use parasync::songs::DirEntryLite;

fn entry(name: &str, is_dir: bool) -> DirEntryLite {
    DirEntryLite {
        name: name.to_string(),
        is_file: !is_dir,
        is_directory: is_dir,
    }
}

#[test]
fn key_prefix_scan_finds_only_directories() {
    let entries = vec![
        entry("RepoA-1234-Song", true),
        entry("RepoA-9999-Other", true),
        entry("RepoB-1234-loose.zip", false),
    ];
    assert!(has_existing_with_key_prefix(&entries, "RepoA-1234"));
    assert!(!has_existing_with_key_prefix(&entries, "RepoB-1234"));
    assert!(!has_existing_with_key_prefix(&entries, "RepoC"));
    assert!(!has_existing_with_key_prefix(&Vec::new(), "RepoA"));
}

#[test]
fn start_checks_reject_blank_inputs_in_order() {
    assert_eq!(
        download_start_checks("  ", "u", "d", false, false).unwrap_err(),
        "empty key"
    );
    assert_eq!(
        download_start_checks("k", "\t", "d", false, false).unwrap_err(),
        "empty download_url"
    );
    assert_eq!(
        download_start_checks("k", "u", "", false, false).unwrap_err(),
        "empty dest_root"
    );
}

#[test]
fn start_checks_reject_duplicates() {
    assert_eq!(
        download_start_checks("k1", "u", "dest", true, false).unwrap_err(),
        "Song 'k1' is already downloaded in dest"
    );
    assert_eq!(
        download_start_checks("k1", "u", "dest", false, true).unwrap_err(),
        "A download is already in progress for 'k1'"
    );
    assert!(download_start_checks("k1", "u", "dest", false, false).is_ok());
}

#[test]
fn zip_top_level_folder_is_detected() {
    let names = vec![
        "Top/a.rlrr".to_string(),
        "Top/stems/b.wav".to_string(),
        "__MACOSX/Top/._a.rlrr".to_string(),
    ];
    assert_eq!(detect_zip_primary_top_level_dir(&names).unwrap(), "Top");
}

#[test]
fn zip_without_entries_is_rejected() {
    assert_eq!(
        detect_zip_primary_top_level_dir(&Vec::new()).unwrap_err(),
        "ZIP appears empty"
    );
    let only_resources = vec!["__MACOSX/x".to_string()];
    assert_eq!(
        detect_zip_primary_top_level_dir(&only_resources).unwrap_err(),
        "ZIP appears empty"
    );
}

#[test]
fn zip_with_two_top_level_folders_is_rejected() {
    let names = vec!["A/x".to_string(), "B/y".to_string()];
    assert_eq!(
        detect_zip_primary_top_level_dir(&names).unwrap_err(),
        "ZIP has multiple top-level entries"
    );
}

#[test]
fn zip_top_level_loose_file_counts_as_a_top() {
    let names = vec!["readme.txt".to_string(), "readme.txt".to_string()];
    assert_eq!(detect_zip_primary_top_level_dir(&names).unwrap(), "readme.txt");
}
