use mrpack_install::paths::{is_override_entry, override_destination, safe_relative_path};

#[test]
fn safe_paths_accepted() {
    assert!(safe_relative_path("mods/a.jar"));
    assert!(safe_relative_path("config/sub/dir/file.toml"));
    assert!(safe_relative_path("a"));
    assert!(safe_relative_path("weird..name/file..jar"));
}

#[test]
fn parent_components_rejected() {
    assert!(!safe_relative_path(".."));
    assert!(!safe_relative_path("../x"));
    assert!(!safe_relative_path("a/../b"));
    assert!(!safe_relative_path("a/b/.."));
    assert!(!safe_relative_path("../../etc/passwd"));
}

#[test]
fn absolute_and_empty_rejected() {
    assert!(!safe_relative_path(""));
    assert!(!safe_relative_path("/etc/passwd"));
    assert!(!safe_relative_path("/"));
}

#[test]
fn missing_final_segment_rejected() {
    assert!(!safe_relative_path("a/"));
    assert!(!safe_relative_path("a/."));
    assert!(!safe_relative_path("."));
}

#[test]
fn override_entries_classified() {
    assert!(is_override_entry("overrides/config/x.txt"));
    assert!(is_override_entry("client_overrides/mods/m.jar"));
    assert!(!is_override_entry("overrides/"));
    assert!(!is_override_entry("client_overrides/"));
    assert!(!is_override_entry("modrinth.index.json"));
    assert!(!is_override_entry("other/overrides/x"));
}

#[test]
fn override_destination_strips_prefix() {
    assert_eq!(
        override_destination("overrides/config/x.txt"),
        Some("config/x.txt".to_string())
    );
    assert_eq!(
        override_destination("client_overrides/mods/m.jar"),
        Some("mods/m.jar".to_string())
    );
}

#[test]
fn override_directory_marker_extracts_nothing() {
    assert_eq!(override_destination("overrides/"), None);
    assert_eq!(override_destination("overrides/sub/"), None);
}

#[test]
fn override_escape_attempts_skipped() {
    assert_eq!(override_destination("overrides/../x"), None);
    assert_eq!(override_destination("overrides/a/../../x"), None);
    assert_eq!(override_destination("client_overrides/.."), None);
}

#[test]
fn non_override_entries_have_no_destination() {
    assert_eq!(override_destination("modrinth.index.json"), None);
    assert_eq!(override_destination("random.txt"), None);
}

#[test]
fn override_jobs_plan_in_archive_order() {
    let names = vec![
        "modrinth.index.json".to_string(),
        "overrides/".to_string(),
        "overrides/config/x.txt".to_string(),
        "client_overrides/mods/m.jar".to_string(),
        "overrides/../evil".to_string(),
    ];
    let jobs = mrpack_install::paths::override_jobs(&names);
    assert_eq!(
        jobs,
        vec![(2, "config/x.txt".to_string()), (3, "mods/m.jar".to_string())]
    );
}
