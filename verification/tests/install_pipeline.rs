use std::collections::HashMap;

use mrpack_install::error::InstallError;
use mrpack_install::hashing::sha1_hex;
use mrpack_install::install::{
    find_manifest_entry, icon_cache_filename, plan_install, resolve_dependencies,
    select_primary_file, InstallStage, InstallTransaction, VersionFile,
};
use mrpack_install::manifest::{
    EnvType, ModLoader, PackDependency, PackFile, PackFormat, SideType,
};
use mrpack_install::mirror::MirrorFetch;
use mrpack_install::progress::Progress;

fn manifest(files: Vec<PackFile>, deps: Vec<(PackDependency, String)>) -> PackFormat {
    PackFormat {
        game: "minecraft".to_string(),
        format_version: 1,
        version_id: "1.0.0".to_string(),
        name: "Pack".to_string(),
        summary: None,
        files,
        dependencies: deps,
    }
}

fn entry(path: &str, sha1: Option<&str>, urls: Vec<&str>, size: u32) -> PackFile {
    PackFile {
        path: path.to_string(),
        hashes: sha1
            .map(|h| vec![(mrpack_install::manifest::PackFileHash::Sha1, h.to_string())])
            .unwrap_or_default(),
        env: None,
        downloads: urls.into_iter().map(|u| u.to_string()).collect(),
        file_size: size,
    }
}

#[test]
fn empty_files_install_succeeds_trivially() {
    // A manifest with no files and no overrides: the plan holds no
    // downloads, and the transaction runs straight through to Installed.
    let m = manifest(vec![], vec![(PackDependency::Minecraft, "1.20.1".to_string())]);
    let plan = plan_install(&m).expect("valid manifest plans");
    assert_eq!(plan.jobs.len(), 0);

    let mut t = InstallTransaction::begin();
    t.start_installing();
    t.complete();
    assert_eq!(t.stage(), InstallStage::Installed);
    assert!(t.profile_present());
    assert!(!t.failed());
}

#[test]
fn missing_platform_dependency_fails_before_any_fetch() {
    let m = manifest(
        vec![entry("mods/a.jar", None, vec!["https://x/a.jar"], 10)],
        vec![(PackDependency::FabricLoader, "0.14".to_string())],
    );
    assert!(matches!(
        plan_install(&m),
        Err(InstallError::MissingPlatformVersion)
    ));
}

#[test]
fn unsupported_game_rejected() {
    let mut m = manifest(vec![], vec![(PackDependency::Minecraft, "1.20.1".to_string())]);
    m.game = "othergame".to_string();
    assert!(matches!(plan_install(&m), Err(InstallError::UnsupportedGame)));
}

#[test]
fn dependencies_resolve_loader_and_game() {
    let deps = vec![
        (PackDependency::Minecraft, "1.20.1".to_string()),
        (PackDependency::Forge, "47.1.0".to_string()),
    ];
    let r = resolve_dependencies(&deps).expect("platform entry present");
    assert_eq!(r.game_version, "1.20.1");
    assert_eq!(r.loader, ModLoader::Forge);
    assert_eq!(r.loader_version, Some("47.1.0".to_string()));
}

#[test]
fn loaderless_pack_resolves_vanilla() {
    let deps = vec![(PackDependency::Minecraft, "1.19.4".to_string())];
    let r = resolve_dependencies(&deps).expect("platform entry present");
    assert_eq!(r.loader, ModLoader::Vanilla);
    assert_eq!(r.loader_version, None);
}

#[test]
fn later_loader_entry_wins() {
    let deps = vec![
        (PackDependency::QuiltLoader, "1".to_string()),
        (PackDependency::Minecraft, "1.20.1".to_string()),
        (PackDependency::FabricLoader, "2".to_string()),
    ];
    let r = resolve_dependencies(&deps).expect("platform entry present");
    assert_eq!(r.loader, ModLoader::Fabric);
    assert_eq!(r.loader_version, Some("2".to_string()));
}

#[test]
fn client_unsupported_files_planned_out() {
    let mut skipped = entry("mods/server-only.jar", None, vec!["https://x/s.jar"], 5);
    skipped.env = Some(vec![(EnvType::Client, SideType::Unsupported)]);
    let kept = entry("mods/a.jar", None, vec!["https://x/a.jar"], 10);
    let m = manifest(
        vec![skipped, kept],
        vec![(PackDependency::Minecraft, "1.20.1".to_string())],
    );
    let plan = plan_install(&m).expect("valid manifest plans");
    assert_eq!(plan.jobs.len(), 1);
    assert_eq!(plan.jobs[0].dest, Some("mods/a.jar".to_string()));
}

#[test]
fn unsafe_path_write_skipped_but_listed() {
    let m = manifest(
        vec![entry("../escape.jar", None, vec!["https://x/e.jar"], 10)],
        vec![(PackDependency::Minecraft, "1.20.1".to_string())],
    );
    let plan = plan_install(&m).expect("valid manifest plans");
    assert_eq!(plan.jobs.len(), 1);
    assert_eq!(plan.jobs[0].dest, None);
}

#[test]
fn find_manifest_entry_by_name() {
    let names = vec![
        "overrides/config/x.txt".to_string(),
        "modrinth.index.json".to_string(),
        "other".to_string(),
    ];
    assert_eq!(find_manifest_entry(&names), Some(1));
    let none = vec!["a".to_string(), "b".to_string()];
    assert_eq!(find_manifest_entry(&none), None);
}

#[test]
fn primary_file_preferred() {
    let files = vec![
        VersionFile { url: "https://x/1".to_string(), primary: false, hashes: vec![] },
        VersionFile {
            url: "https://x/2".to_string(),
            primary: true,
            hashes: vec![("sha1".to_string(), "aa".to_string())],
        },
    ];
    let (url, h) = select_primary_file(&files).expect("files listed");
    assert_eq!(url, "https://x/2");
    assert_eq!(h, Some("aa".to_string()));
}

#[test]
fn first_file_fallback_without_primary() {
    let files = vec![
        VersionFile { url: "https://x/1".to_string(), primary: false, hashes: vec![] },
        VersionFile { url: "https://x/2".to_string(), primary: false, hashes: vec![] },
    ];
    let (url, h) = select_primary_file(&files).expect("files listed");
    assert_eq!(url, "https://x/1");
    assert_eq!(h, None);
}

#[test]
fn empty_version_fails_with_missing_artifact() {
    let files: Vec<VersionFile> = vec![];
    assert!(matches!(
        select_primary_file(&files),
        Err(InstallError::MissingArtifact)
    ));
}

#[test]
fn failed_download_rolls_back_profile() {
    // One file exhausts all mirrors: the transaction fails, and the target
    // profile is absent afterward, though another file had succeeded.
    let good = b"ok".to_vec();
    let m = manifest(
        vec![
            entry("mods/good.jar", Some(&sha1_hex(&good)), vec!["https://x/g"], 2),
            entry("mods/bad.jar", Some("0000000000000000000000000000000000000000"), vec!["https://x/b"], 2),
        ],
        vec![(PackDependency::Minecraft, "1.20.1".to_string())],
    );
    let plan = plan_install(&m).expect("valid manifest plans");

    let mut t = InstallTransaction::begin();
    t.start_installing();
    let mut written: HashMap<String, Vec<u8>> = HashMap::new();

    let mut any_failed = false;
    for job in &plan.jobs {
        let mut fetch = MirrorFetch::new(job.urls.clone(), job.expected_sha1.clone());
        let mut verified: Option<Vec<u8>> = None;
        while fetch.current_url().is_some() {
            if let Some(bytes) = fetch.offer(good.clone()) {
                verified = Some(bytes);
                break;
            }
        }
        match verified {
            Some(bytes) => {
                if let Some(dest) = &job.dest {
                    written.insert(dest.clone(), bytes);
                }
            }
            None => {
                any_failed = true;
                break;
            }
        }
    }
    assert!(any_failed);
    assert_eq!(written.len(), 1);
    t.fail();
    assert!(!t.profile_present());
    assert!(t.failed());
}

#[test]
fn single_file_install_writes_fetched_bytes_and_reaches_100() {
    // The worked example: one listed file, fetched and verified, lands at
    // target/mods/a.jar with exactly the fetched bytes; progress ends at
    // one hundred.
    let payload: Vec<u8> = b"0123456789".to_vec();
    let m = manifest(
        vec![entry(
            "mods/a.jar",
            Some(&sha1_hex(&payload)),
            vec!["https://x/a.jar"],
            10,
        )],
        vec![(PackDependency::Minecraft, "1.20.1".to_string())],
    );
    let plan = plan_install(&m).expect("valid manifest plans");
    assert_eq!(plan.resolved.game_version, "1.20.1");

    let mut t = InstallTransaction::begin();
    let mut progress = Progress::new(100);
    progress.emit(10, Some("resolving metadata"));
    t.start_installing();

    let mut written: HashMap<String, Vec<u8>> = HashMap::new();
    let per_file = 70 / plan.jobs.len() as u64;
    for job in &plan.jobs {
        let mut fetch = MirrorFetch::new(job.urls.clone(), job.expected_sha1.clone());
        assert!(fetch.current_url().is_some());
        let bytes = fetch.offer(payload.clone()).expect("hash matches");
        if let Some(dest) = &job.dest {
            written.insert(dest.clone(), bytes);
        }
        progress.emit(per_file, None);
    }
    progress.emit(20, Some("extracting overrides"));
    t.complete();

    assert_eq!(t.stage(), InstallStage::Installed);
    assert_eq!(written.len(), 1);
    assert_eq!(written.get("mods/a.jar"), Some(&payload));
    assert_eq!(progress.percent(), 100);
}

#[test]
fn progress_is_monotone_and_capped() {
    let mut p = Progress::new(10);
    assert_eq!(p.percent(), 0);
    p.emit(3, None);
    assert_eq!(p.percent(), 30);
    p.emit(0, Some("still going"));
    assert_eq!(p.percent(), 30);
    assert_eq!(p.message(), "still going");
    p.emit(9999, None);
    assert_eq!(p.percent(), 100);
}

#[test]
fn icon_filename_from_url() {
    assert_eq!(
        icon_cache_filename("https://cdn.example.com/icons/abc.png"),
        Some("abc.png".to_string())
    );
    assert_eq!(icon_cache_filename("plain-name.png"), Some("plain-name.png".to_string()));
    assert_eq!(icon_cache_filename("https://cdn.example.com/icons/"), None);
    assert_eq!(icon_cache_filename(""), None);
}

#[test]
fn rollback_lifecycle_from_staging() {
    // Failure before metadata was committed removes the staging profile too.
    let mut t = InstallTransaction::begin();
    assert_eq!(t.stage(), InstallStage::Staging);
    t.fail();
    assert!(t.failed());
    assert!(!t.profile_present());
}
