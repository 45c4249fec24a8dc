use minepkg::curse::{
    GameVersionRelease, Mod, ModDb, ModDependency, ModFile, Reference, ReleaseType, ReqType,
};

fn file(id: u32, name: &str, versions: &[&str], deps: &[(u32, ReqType)]) -> ModFile {
    ModFile {
        download_url: format!("https://files.example/{}", id),
        id,
        file_name: name.to_string(),
        game_version: versions.iter().map(|v| v.to_string()).collect(),
        dependencies: deps
            .iter()
            .map(|(add_on_id, req_type)| ModDependency { add_on_id: *add_on_id, req_type: *req_type })
            .collect(),
    }
}

fn entry(id: u32, name: &str, slug: &str, downloads: u32) -> Mod {
    Mod {
        name: name.to_string(),
        id,
        web_site_url: format!("https://minecraft.curseforge.com/projects/{}", slug),
        download_count: downloads,
        latest_files: Vec::new(),
        game_version_latest_files: Vec::new(),
    }
}

fn release(version: &str, file_id: u32) -> GameVersionRelease {
    GameVersionRelease {
        file_type: ReleaseType::Release,
        file_id,
        game_version: version.to_string(),
    }
}

fn small_db() -> ModDb {
    ModDb {
        mods: vec![
            entry(1, "Ender IO", "ender-io", 5000),
            entry(2, "EnderCore", "endercore", 9000),
            entry(3, "JourneyMap", "journeymap", 7000),
            entry(123, "Just Enough Items", "jei", 20000),
            entry(5, "Foo Bar", "foo-bar", 10),
        ],
    }
}

#[test]
fn find_by_id_finds_the_entry_with_the_id() {
    let db = small_db();
    assert_eq!(db.find_by_id(3).map(|m| m.name.as_str()), Some("JourneyMap"));
    assert_eq!(db.find_by_id(123).map(|m| m.id), Some(123));
}

#[test]
fn find_by_id_finds_nothing_for_an_unknown_id() {
    let db = small_db();
    assert!(db.find_by_id(4).is_none());
    assert!(ModDb { mods: Vec::new() }.find_by_id(1).is_none());
}

#[test]
fn find_by_slug_matches_the_end_of_the_address() {
    let db = small_db();
    assert_eq!(db.find_by_slug("journeymap").map(|m| m.id), Some(3));
    assert_eq!(db.find_by_slug("projects/jei").map(|m| m.id), Some(123));
    assert!(db.find_by_slug("journey").is_none());
}

#[test]
fn find_by_slug_ignores_case_on_both_sides() {
    let mut db = small_db();
    db.mods[2].web_site_url = "https://minecraft.curseforge.com/projects/JourneyMap".to_string();
    assert_eq!(db.find_by_slug("JOURNEYMAP").map(|m| m.id), Some(3));
    assert_eq!(db.find_by_slug("journeymap").map(|m| m.id), Some(3));
}

#[test]
fn find_by_name_prefers_the_most_downloaded_match() {
    let db = small_db();
    assert_eq!(db.find_by_name("ender").map(|m| m.id), Some(2));
    assert_eq!(db.find_by_name("ENDER IO").map(|m| m.id), Some(1));
    assert!(db.find_by_name("thaumcraft").is_none());
}

#[test]
fn find_by_name_looks_at_the_first_hundred_matches_only() {
    let mut mods = Vec::new();
    for i in 0..100u32 {
        mods.push(entry(i + 1, &format!("Chisel {}", i), &format!("chisel-{}", i), 10 + i));
    }
    mods.push(entry(500, "Chisel Deluxe", "chisel-deluxe", 1_000_000));
    mods.insert(40, entry(900, "Unrelated", "unrelated", 5_000_000));
    let db = ModDb { mods };
    let found = db.find_by_name("chisel").expect("a match");
    assert_eq!(found.id, 100);
    assert_eq!(found.download_count, 109);
}

#[test]
fn find_by_name_sees_a_late_match_while_the_shortlist_is_not_full() {
    let mut mods = Vec::new();
    for i in 0..99u32 {
        mods.push(entry(i + 1, &format!("Chisel {}", i), &format!("chisel-{}", i), 10 + i));
    }
    mods.push(entry(500, "Chisel Deluxe", "chisel-deluxe", 1_000_000));
    let db = ModDb { mods };
    assert_eq!(db.find_by_name("chisel").map(|m| m.id), Some(500));
}

#[test]
fn reference_of_digits_is_an_id() {
    assert!(matches!(Reference::classify("123"), Reference::Id(123)));
    assert!(matches!(Reference::classify("+7"), Reference::Id(7)));
    assert!(matches!(Reference::classify("0042"), Reference::Id(42)));
    assert!(matches!(Reference::classify("4294967295"), Reference::Id(4294967295)));
}

#[test]
fn reference_of_a_project_address_is_a_slug() {
    match Reference::classify("https://minecraft.curseforge.com/projects/foo-bar") {
        Reference::Slug(slug) => assert_eq!(slug, "foo-bar"),
        other => panic!("not a slug: {:?}", other),
    }
    match Reference::classify("https://minecraft.curseforge.com/projects/") {
        Reference::Slug(slug) => assert_eq!(slug, ""),
        other => panic!("not a slug: {:?}", other),
    }
}

#[test]
fn reference_of_anything_else_is_a_name() {
    for text in ["Ender IO", "4294967296", "-1", "12a", "", "+", "1 2", "http://minecraft.curseforge.com/projects/x"] {
        match Reference::classify(text) {
            Reference::Name(name) => assert_eq!(name, text),
            other => panic!("{:?} is read as {:?}", text, other),
        }
    }
}

#[test]
fn wonky_find_routes_digits_to_the_id_lookup() {
    let db = small_db();
    // No entry is named "123" and no address ends in it: only the id can match.
    assert_eq!(db.wonky_find("123").map(|m| m.name.as_str()), Some("Just Enough Items"));
    assert!(db.wonky_find("124").is_none());
}

#[test]
fn wonky_find_routes_a_project_address_to_the_slug_lookup() {
    let db = small_db();
    let found = db.wonky_find("https://minecraft.curseforge.com/projects/foo-bar");
    assert_eq!(found.map(|m| m.id), Some(5));
    assert!(db.wonky_find("https://minecraft.curseforge.com/projects/missing").is_none());
}

#[test]
fn wonky_find_routes_other_text_to_the_name_lookup() {
    let db = small_db();
    assert_eq!(db.wonky_find("Ender IO").map(|m| m.id), Some(1));
    // "foo-bar" is a slug but no part of a name: the name lookup finds nothing.
    assert!(db.wonky_find("foo-bar").is_none());
}

#[test]
fn search_lists_every_match_by_falling_downloads() {
    let mut db = small_db();
    db.mods.push(entry(6, "Ender Storage", "ender-storage", 9000));
    db.mods.push(entry(7, "ender zoo", "ender-zoo", 12000));
    let rows = db.search_by_name_substring("ENDER");
    let ids: Vec<u32> = rows.iter().map(|m| m.id).collect();
    let counts: Vec<u32> = rows.iter().map(|m| m.download_count).collect();
    assert_eq!(counts, vec![12000, 9000, 9000, 5000]);
    let mut sorted = ids.clone();
    sorted.sort();
    assert_eq!(sorted, vec![1, 2, 6, 7]);
    assert!(db.search_by_name_substring("nothing like it").is_empty());
    assert_eq!(db.search_by_name_substring("").len(), 7);
}

#[test]
fn version_filtering_selects_the_release_of_the_target_version() {
    let mut m = entry(1, "Ender IO", "ender-io", 1);
    m.game_version_latest_files = vec![release("1.12.2", 100), release("1.16.5", 200)];
    assert_eq!(m.release_for_mc_version("1.16.5").map(|r| r.file_id), Some(200));
    assert_eq!(m.release_for_mc_version("1.12.2").map(|r| r.file_id), Some(100));
    assert!(m.release_for_mc_version("1.8").is_none());
}

#[test]
fn release_for_mc_version_takes_the_first_of_several_records() {
    let mut m = entry(1, "Ender IO", "ender-io", 1);
    m.game_version_latest_files =
        vec![release("1.10", 1), release("1.12.2", 2), release("1.12.2", 3)];
    assert_eq!(m.release_for_mc_version("1.12.2").map(|r| r.file_id), Some(2));
    assert!(m.release_for_mc_version("1.12").is_none());
}

#[test]
fn latest_file_for_searches_the_whole_list() {
    let mut m = entry(1, "Ender IO", "ender-io", 1);
    m.latest_files = vec![
        file(10, "a.jar", &["1.7.10"], &[]),
        file(11, "b.jar", &["1.10", "1.12.2"], &[]),
        file(12, "c.jar", &["1.12.2"], &[]),
    ];
    assert_eq!(m.latest_file_for("1.12.2").map(|f| f.id), Some(11));
    assert_eq!(m.latest_file_for("1.7.10").map(|f| f.id), Some(10));
    assert!(m.latest_file_for("1.16.5").is_none());
}

#[test]
fn dependency_ids_keep_one_kind_in_order() {
    let f = file(
        1,
        "a.jar",
        &["1.12.2"],
        &[
            (7, ReqType::Required),
            (8, ReqType::Optional),
            (9, ReqType::Required),
            (10, ReqType::Embedded),
        ],
    );
    assert_eq!(f.dependency_ids(ReqType::Required), vec![7, 9]);
    assert_eq!(f.dependency_ids(ReqType::Optional), vec![8]);
    assert_eq!(f.dependency_ids(ReqType::Embedded), vec![10]);
}

#[test]
fn files_and_entries_are_equal_by_id_alone() {
    let a = file(1, "a.jar", &["1.12.2"], &[]);
    let b = file(1, "b.jar", &["1.16.5"], &[(2, ReqType::Required)]);
    let c = file(2, "a.jar", &["1.12.2"], &[]);
    assert!(a == b);
    assert!(a != c);
    assert!(entry(1, "x", "x", 1) == entry(1, "y", "y", 2));
    assert!(entry(1, "x", "x", 1) != entry(2, "x", "x", 1));
}

#[test]
fn feed_codes_and_names_map_to_kinds() {
    assert_eq!(ReqType::from_code(1), ReqType::Required);
    assert_eq!(ReqType::from_code(2), ReqType::Optional);
    assert_eq!(ReqType::from_code(3), ReqType::Embedded);
    assert_eq!(ReqType::from_code(0), ReqType::Embedded);
    assert_eq!(ReqType::from_name("Required"), ReqType::Required);
    assert_eq!(ReqType::from_name("Optional"), ReqType::Optional);
    assert_eq!(ReqType::from_name("required"), ReqType::Embedded);
    assert_eq!(ReleaseType::from_code(1), ReleaseType::Release);
    assert_eq!(ReleaseType::from_code(2), ReleaseType::Beta);
    assert_eq!(ReleaseType::from_code(9), ReleaseType::Alpha);
    assert_eq!(ReleaseType::from_name("Release"), ReleaseType::Release);
    assert_eq!(ReleaseType::from_name("Beta"), ReleaseType::Beta);
    assert_eq!(ReleaseType::from_name("Gamma"), ReleaseType::Alpha);
}

#[test]
fn slug_is_what_follows_the_projects_address() {
    assert_eq!(entry(1, "Foo", "foo-bar", 1).slug(), "foo-bar");
    let mut other = entry(1, "Foo", "foo-bar", 1);
    other.web_site_url = "https://example.org/foo".to_string();
    assert_eq!(other.slug(), "https://example.org/foo");
}

#[test]
fn marks_say_which_names_hold_the_query() {
    let db = small_db();
    assert_eq!(db.name_marks("ender"), vec![true, true, false, false, false]);
    assert_eq!(db.name_marks("E"), vec![true, true, true, true, false]);
    assert_eq!(db.name_marks(""), vec![true; 5]);
    assert_eq!(db.name_marks("zzz"), vec![false; 5]);
}

#[test]
fn the_pick_is_the_most_downloaded_of_the_marked() {
    let db = small_db();
    assert_eq!(db.pick_marked(&vec![true, false, true, false, true]).map(|m| m.id), Some(3));
    assert_eq!(db.pick_marked(&vec![false, false, false, false, true]).map(|m| m.id), Some(5));
    assert!(db.pick_marked(&vec![false; 5]).is_none());
    // Marks that do not reach an entry leave it out, marks beyond the last
    // entry stand for nothing.
    assert!(db.pick_marked(&Vec::new()).is_none());
    assert_eq!(db.pick_marked(&vec![true]).map(|m| m.id), Some(1));
    assert_eq!(db.pick_marked(&vec![true; 9]).map(|m| m.id), Some(123));
}

#[test]
fn the_ranking_lists_the_marked_by_falling_downloads() {
    let db = small_db();
    let rows: Vec<u32> =
        db.rank_marked(&vec![true, true, false, true, true]).iter().map(|m| m.id).collect();
    assert_eq!(rows, vec![123, 2, 1, 5]);
    assert!(db.rank_marked(&vec![false; 5]).is_empty());
    assert_eq!(db.rank_marked(&vec![true; 2]).len(), 2);
}
