use minepkg::curse::{Mod, ModDb, ModFile};
use minepkg::error::PkgError;
use minepkg::install::{
    confirm, download_answered, download_pending, install, install_mod, install_modpack,
    install_outcome, install_single, Download, InstallMode,
};
use minepkg::manifest::{Dependency, Provider};
use minepkg::progress::Progress;
use minepkg::resolved_set::ResolvedSet;

fn named_file(id: u32, name: &str) -> ModFile {
    ModFile {
        download_url: format!("https://files.example/download/{}", id),
        id,
        file_name: name.to_string(),
        game_version: Vec::new(),
        dependencies: Vec::new(),
    }
}

fn catalog_entry(id: u32, name: &str, slug: &str, downloads: u32) -> Mod {
    Mod {
        name: name.to_string(),
        id,
        web_site_url: format!("https://minecraft.curseforge.com/projects/{}", slug),
        download_count: downloads,
        latest_files: Vec::new(),
        game_version_latest_files: Vec::new(),
    }
}

fn catalog() -> ModDb {
    ModDb {
        mods: vec![
            catalog_entry(1, "Ender IO", "ender-io", 100),
            catalog_entry(2, "JourneyMap", "journeymap", 200),
            catalog_entry(3, "Just Enough Items", "jei", 300),
        ],
    }
}

#[test]
fn enter_and_both_ys_confirm() {
    assert!(confirm(10));
    assert!(confirm(b'y'));
    assert!(confirm(b'Y'));
}

#[test]
fn every_other_byte_calls_the_command_off() {
    for byte in 0..=255u8 {
        let expected = byte == 10 || byte == 121 || byte == 89;
        assert_eq!(confirm(byte), expected, "byte {}", byte);
    }
    assert!(!confirm(b'n'));
    assert!(!confirm(13));
}

#[test]
fn install_without_a_reference_is_about_the_modpack() {
    assert!(matches!(install(None), InstallMode::Modpack));
    match install(Some("Ender IO".to_string())) {
        InstallMode::Single(reference) => assert_eq!(reference, "Ender IO"),
        other => panic!("unexpected: {:?}", other),
    }
}

#[test]
fn a_single_install_looks_the_reference_up_in_lower_case() {
    let db = catalog();
    assert_eq!(install_single(&db, "JOURNEYMAP").unwrap().id, 2);
    assert_eq!(install_single(&db, "3").unwrap().id, 3);
    assert_eq!(
        install_single(&db, "https://minecraft.curseforge.com/projects/ender-io").unwrap().id,
        1
    );
    // The reference is lowered before it is read, so that an address in
    // upper case is still an address.
    assert_eq!(
        install_single(&db, "HTTPS://MINECRAFT.CURSEFORGE.COM/PROJECTS/JEI").unwrap().id,
        3
    );
}

#[test]
fn a_single_install_of_an_unknown_reference_is_not_found() {
    let db = catalog();
    match install_single(&db, "Thaumcraft") {
        Err(PkgError::NotFound(what)) => assert_eq!(what, "thaumcraft"),
        other => panic!("unexpected: {:?}", other.map(|m| m.id)),
    }
}

#[test]
fn a_modpack_install_finds_each_dependency_by_its_slug() {
    let db = catalog();
    let deps = vec![
        Dependency { provider: Provider::Curse, name: "jei" },
        Dependency { provider: Provider::Curse, name: "ender-io" },
    ];
    let found: Vec<u32> =
        install_modpack(&db, &deps).unwrap().iter().map(|m| m.id).collect();
    assert_eq!(found, vec![3, 1]);
    assert!(install_modpack(&db, &Vec::new()).unwrap().is_empty());
}

#[test]
fn a_modpack_install_fails_at_the_first_unknown_dependency() {
    let db = catalog();
    let deps = vec![
        Dependency { provider: Provider::Curse, name: "jei" },
        Dependency { provider: Provider::Curse, name: "gone" },
        Dependency { provider: Provider::Curse, name: "also-gone" },
    ];
    match install_modpack(&db, &deps) {
        Err(PkgError::NotFound(what)) => assert_eq!(what, "gone"),
        other => panic!("unexpected: {:?}", other.map(|found| found.len())),
    }
}

#[test]
fn a_file_keeps_a_name_that_ends_in_jar() {
    let download = Download::of(&named_file(1, "EnderIO-1.12.2-5.0.jar"));
    assert_eq!(download.file_name, "EnderIO-1.12.2-5.0.jar");
    assert_eq!(download.partial_name, "EnderIO-1.12.2-5.0.jar.part");
    assert_eq!(download.url, "https://files.example/download/1");
}

#[test]
fn a_file_without_the_ending_gets_it() {
    assert_eq!(Download::of(&named_file(1, "EnderIO-1.12.2")).file_name, "EnderIO-1.12.2.jar");
    assert_eq!(Download::of(&named_file(1, "mod.JAR")).file_name, "mod.JAR.jar");
    assert_eq!(Download::of(&named_file(1, "mod.jar.zip")).file_name, "mod.jar.zip.jar");
    assert_eq!(Download::of(&named_file(1, "jar")).file_name, "jar.jar");
    assert_eq!(Download::of(&named_file(1, "")).file_name, ".jar");
    assert_eq!(Download::of(&named_file(1, ".jar")).file_name, ".jar");
}

#[test]
fn the_plan_has_one_download_for_each_file_of_the_set() {
    let mut set = ResolvedSet::new();
    set.insert(named_file(1, "a"));
    set.insert(named_file(2, "b.jar"));
    set.insert(named_file(1, "c.jar"));
    let plan = install_mod(&set);
    let names: Vec<&str> = plan.iter().map(|d| d.file_name.as_str()).collect();
    assert_eq!(names, vec!["a.jar", "b.jar"]);
    assert!(install_mod(&ResolvedSet::new()).is_empty());
}

#[test]
fn a_download_shows_the_announced_length() {
    let mut progress = download_pending();
    assert_eq!(progress, Progress { position: 0, length: 1_100_000, determinate: false });
    download_answered(&mut progress, Some(4_321));
    assert_eq!(progress, Progress { position: 0, length: 4_321, determinate: true });
    progress.inc(1000);
    progress.inc(321);
    assert_eq!(progress, Progress { position: 1_321, length: 4_321, determinate: true });
}

#[test]
fn a_download_without_announced_length_shows_an_estimate() {
    let mut progress = download_pending();
    download_answered(&mut progress, None);
    assert_eq!(progress, Progress { position: 0, length: 2_500_000, determinate: false });
}

#[test]
fn progress_stops_at_the_largest_count() {
    let mut progress = Progress::new(10);
    progress.position = u64::MAX - 5;
    progress.inc(3);
    assert_eq!(progress.position, u64::MAX - 2);
    progress.inc(10);
    assert_eq!(progress.position, u64::MAX);
    progress.inc(0);
    assert_eq!(progress.position, u64::MAX);
}

#[test]
fn an_install_succeeds_where_every_download_did() {
    assert!(install_outcome(Vec::new()).is_ok());
    assert!(install_outcome(vec![Ok(()), Ok(()), Ok(())]).is_ok());
}

#[test]
fn an_install_fails_with_its_first_failure() {
    let outcomes = vec![
        Ok(()),
        Err(PkgError::IoError),
        Ok(()),
        Err(PkgError::NetworkError),
    ];
    assert!(matches!(install_outcome(outcomes), Err(PkgError::IoError)));
    let outcomes = vec![Err(PkgError::NetworkError), Err(PkgError::IoError)];
    assert!(matches!(install_outcome(outcomes), Err(PkgError::NetworkError)));
}

#[test]
fn a_share_is_shown_where_the_total_is_known() {
    let mut progress = download_pending();
    assert_eq!(progress.percent(), None);
    download_answered(&mut progress, Some(4000));
    assert_eq!(progress.percent(), Some(0));
    progress.inc(1000);
    assert_eq!(progress.percent(), Some(25));
    progress.inc(1999);
    assert_eq!(progress.percent(), Some(74));
    progress.inc(1001);
    assert_eq!(progress.percent(), Some(100));
    progress.inc(5000);
    assert_eq!(progress.percent(), Some(100));
    let huge = Progress { position: u64::MAX, length: u64::MAX, determinate: true };
    assert_eq!(huge.percent(), Some(100));
    let almost = Progress { position: u64::MAX - 1, length: u64::MAX, determinate: true };
    assert_eq!(almost.percent(), Some(99));
}

#[test]
fn no_share_is_shown_without_a_known_total() {
    let mut progress = download_pending();
    download_answered(&mut progress, None);
    progress.inc(1000);
    assert_eq!(progress.percent(), None);
    let empty = Progress { position: 0, length: 0, determinate: true };
    assert_eq!(empty.percent(), None);
}
