use minepkg::curse::show;
use minepkg::curse::{search, Mod, ModDb};
use minepkg::error::{io_outcome, PkgError};
use minepkg::fancy_log::Logger;
use minepkg::manifest::{Dependency, Provider};
use minepkg::mc_instance::{
    latest_version, newer_of, read_mmc_pack, read_vanilla_instance, Component, Flavour,
    ManifestPlan, ManifestRead, McInstance, Pack,
};
use minepkg::utils::{shorten_name, simplify_number};

fn component(uid: &str, version: &str) -> Component {
    Component {
        cached_name: uid.to_string(),
        uid: uid.to_string(),
        cached_version: version.to_string(),
    }
}

fn names(list: &[&str]) -> Vec<String> {
    list.iter().map(|n| n.to_string()).collect()
}

#[test]
fn counts_below_a_thousand_are_written_out() {
    assert_eq!(simplify_number(0), "0");
    assert_eq!(simplify_number(7), "7");
    assert_eq!(simplify_number(999), "999");
}

#[test]
fn larger_counts_are_rounded_down_to_their_unit() {
    assert_eq!(simplify_number(1000), "1 K");
    assert_eq!(simplify_number(1234), "1 K");
    assert_eq!(simplify_number(999_999), "999 K");
    assert_eq!(simplify_number(1_000_000), "1 M");
    assert_eq!(simplify_number(2_500_000), "2 M");
    assert_eq!(simplify_number(999_999_999), "999 M");
    assert_eq!(simplify_number(1_000_000_000), "1 B");
    assert_eq!(simplify_number(u32::MAX), "4 B");
}

#[test]
fn a_short_name_is_left_as_it_is() {
    let mut name = "JourneyMap".to_string();
    assert_eq!(shorten_name(&mut name), "JourneyMap");
    let mut name = "a".repeat(39);
    assert_eq!(*shorten_name(&mut name), "a".repeat(39));
    let mut name = String::new();
    assert_eq!(shorten_name(&mut name), "");
}

#[test]
fn a_long_name_is_cut_and_marked() {
    let mut name = "0123456789".repeat(4);
    assert_eq!(name.len(), 40);
    shorten_name(&mut name);
    assert_eq!(name, format!("{}{}", "0123456789012345678901234567890123456\u{37}", "\u{e2}\u{20ac}\u{a6}"));
    let mut long = "The Longest Mod Name That Anyone Has Ever Come Up With".to_string();
    let shortened = shorten_name(&mut long);
    assert_eq!(*shortened, "The Longest Mod Name That Anyone Has E\u{e2}\u{20ac}\u{a6}");
}

#[test]
fn the_returned_reference_is_the_name_itself() {
    let mut name = "x".repeat(50);
    shorten_name(&mut name).push('!');
    assert!(name.ends_with('!'));
    assert!(name.starts_with(&"x".repeat(38)));
}

#[test]
fn a_note_is_indented() {
    assert_eq!(Logger::new().log("requires jei"), "  requires jei");
    assert_eq!(Logger::with_indention(0).log("x"), "x");
    assert_eq!(Logger::with_indention(5).log(""), "     ");
    assert_eq!(Logger::with_indention(255).log("end").len(), 258);
}

#[test]
fn an_emoji_headline_has_blanks_around_the_emoji() {
    let logger = Logger::new();
    assert_eq!(logger.emoji_headline("\u{1f69a}", "Downloading 3 mods"), " \u{1f69a} Downloading 3 mods");
    assert_eq!(logger.emoji_headline("", ""), "  ");
}

#[test]
fn loggers_with_headlines_hand_out_the_headline() {
    let (logger, line) = Logger::with_headline("Reading local modpack");
    assert_eq!(line, "Reading local modpack");
    assert_eq!(logger.log("x"), "  x");
    let (logger, line) = Logger::with_emoji_headline("\u{1f50e}", "Resolving Dependencies");
    assert_eq!(line, " \u{1f50e} Resolving Dependencies");
    assert_eq!(logger.log("x"), "    x");
}

#[test]
fn a_manifest_entry_names_provider_and_slug() {
    let dep = Dependency::parse("curse:journeymap").expect("a dependency");
    assert_eq!(dep.provider, Provider::Curse);
    assert_eq!(dep.name, "journeymap");
    assert_eq!(Dependency::parse("curse:").unwrap().name, "");
    assert_eq!(Dependency::parse("curse:a:b:c").unwrap().name, "a");
    assert_eq!(Dependency::parse("curse::b").unwrap().name, "");
}

#[test]
fn a_manifest_entry_of_another_shape_says_nothing() {
    assert!(Dependency::parse("journeymap").is_none());
    assert!(Dependency::parse("").is_none());
    assert!(Dependency::parse("modrinth:journeymap").is_none());
    assert!(Dependency::parse("Curse:journeymap").is_none());
    assert!(Dependency::parse(":journeymap").is_none());
    assert!(Dependency::parse("curse").is_none());
}

#[test]
fn a_dependency_is_written_as_it_is_read() {
    let dep = Dependency { provider: Provider::Curse, name: "ender-io" };
    assert_eq!(dep.to_entry(), "curse:ender-io");
    let entry = dep.to_entry();
    assert_eq!(Dependency::parse(&entry).unwrap().name, "ender-io");
}

#[test]
fn the_game_component_gives_the_pack_its_version() {
    let pack = Pack {
        components: vec![
            component("org.lwjgl", "2.9.4"),
            component("net.minecraft", "1.12.2"),
            component("net.minecraftforge", "14.23.5"),
            component("net.minecraft", "1.7.10"),
        ],
    };
    assert_eq!(pack.mc_component().map(|c| c.cached_version.as_str()), Some("1.12.2"));
    assert_eq!(pack.mc_version(), Some("1.12.2"));
    let empty = Pack { components: vec![component("org.lwjgl", "2.9.4")] };
    assert!(empty.mc_component().is_none());
    assert_eq!(empty.mc_version(), None);
}

#[test]
fn the_latest_version_is_the_newest_by_version_order() {
    assert_eq!(latest_version(&names(&["1.12.2", "1.8", "1.16.5"])).unwrap(), Some(2));
    assert_eq!(latest_version(&names(&["1.16.5", "1.8", "1.12.2"])).unwrap(), Some(0));
    // 1.10 is newer than 1.9, though it sorts before it as text.
    assert_eq!(latest_version(&names(&["1.9", "1.10"])).unwrap(), Some(1));
    assert_eq!(latest_version(&names(&["1.10", "1.9"])).unwrap(), Some(0));
    assert_eq!(latest_version(&names(&["1.12.2"])).unwrap(), Some(0));
    assert_eq!(latest_version(&Vec::new()).unwrap(), None);
}

#[test]
fn of_equal_versions_the_later_one_is_kept() {
    assert_eq!(latest_version(&names(&["1.12", "1.12.0", "1.8"])).unwrap(), Some(1));
    assert_eq!(newer_of(3, 4, 1), 3);
    assert_eq!(newer_of(3, 4, 0), 4);
    assert_eq!(newer_of(3, 4, -1), 4);
}

#[test]
fn a_name_that_is_no_version_is_refused() {
    match latest_version(&names(&["1.12.2", "snapshot", "1.16.5"])) {
        Err(PkgError::InvalidReference(name)) => assert_eq!(name, "snapshot"),
        other => panic!("unexpected: {:?}", other),
    }
}

#[test]
fn a_vanilla_instance_installs_into_its_latest_version() {
    let instance = read_vanilla_instance(&names(&["1.8", "1.12.2", "1.7.10"])).unwrap();
    assert_eq!(instance.flavour, Flavour::Vanilla);
    assert_eq!(instance.mc_version(), Some("1.12.2"));
    assert_eq!(instance.mods_dir, "versions/1.12.2/mods");
}

#[test]
fn without_an_installed_version_there_is_no_vanilla_instance() {
    match read_vanilla_instance(&Vec::new()) {
        Err(PkgError::NotFound(what)) => assert_eq!(what, "versions"),
        other => panic!("unexpected: {:?}", other),
    }
}

#[test]
fn a_multimc_instance_installs_into_its_game_directory() {
    let pack = Pack { components: vec![component("net.minecraft", "1.12.2")] };
    let paths = names(&["./instance.cfg", "./notminecraft", "./.minecraft", "./minecraft"]);
    let instance = read_mmc_pack(&pack, &paths).expect("an instance");
    assert_eq!(instance.flavour, Flavour::MultiMC);
    assert_eq!(instance.mods_dir, "./.minecraft/mods");
    assert_eq!(instance.mc_version(), Some("1.12.2"));
    let plain = read_mmc_pack(&Pack { components: Vec::new() }, &names(&["minecraft"])).unwrap();
    assert_eq!(plain.mods_dir, "minecraft/mods");
    assert_eq!(plain.mc_version(), None);
    assert!(read_mmc_pack(&pack, &names(&["./mods", "./minecraft.bak"])).is_none());
}

#[test]
fn a_missing_manifest_is_made_anew_and_a_broken_one_is_not() {
    let instance = McInstance {
        flavour: Flavour::Vanilla,
        version: Some("1.12.2".to_string()),
        mods_dir: "versions/1.12.2/mods".to_string(),
    };
    assert!(matches!(instance.manifest(ManifestRead::Loaded), Ok(ManifestPlan::Existing)));
    match instance.manifest(ManifestRead::Missing) {
        Ok(ManifestPlan::New(version)) => assert_eq!(version, "1.12.2"),
        other => panic!("unexpected: {:?}", other),
    }
    assert!(matches!(instance.manifest(ManifestRead::Unreadable), Err(PkgError::IoError)));
    match instance.manifest(ManifestRead::Invalid) {
        Err(PkgError::InvalidReference(what)) => assert_eq!(what, "minepkg.toml"),
        other => panic!("unexpected: {:?}", other),
    }
    let bare = McInstance { flavour: Flavour::MultiMC, version: None, mods_dir: String::new() };
    match bare.manifest(ManifestRead::Missing) {
        Err(PkgError::NotFound(what)) => assert_eq!(what, "net.minecraft"),
        other => panic!("unexpected: {:?}", other),
    }
}

#[test]
fn show_finds_the_entry_or_names_the_reference() {
    let db = ModDb {
        mods: vec![Mod {
            name: "Ender IO".to_string(),
            id: 1,
            web_site_url: "https://minecraft.curseforge.com/projects/ender-io".to_string(),
            download_count: 5,
            latest_files: Vec::new(),
            game_version_latest_files: Vec::new(),
        }],
    };
    assert_eq!(show(&db, "1").unwrap().name, "Ender IO");
    assert_eq!(show(&db, "ender").unwrap().id, 1);
    match show(&db, "Thaumcraft") {
        Err(PkgError::NotFound(what)) => assert_eq!(what, "Thaumcraft"),
        other => panic!("unexpected: {:?}", other.map(|m| m.id)),
    }
    assert_eq!(search(&db, "IO").len(), 1);
    assert!(search(&db, "map").is_empty());
}

#[test]
fn trouble_with_reading_or_writing_becomes_the_given_failure() {
    let fine: Result<u32, std::io::Error> = Ok(7);
    assert_eq!(io_outcome(fine, PkgError::IoError).unwrap(), 7);
    let broken: Result<u32, std::io::Error> =
        Err(std::io::Error::new(std::io::ErrorKind::InvalidData, "broken"));
    assert!(matches!(io_outcome(broken, PkgError::CacheCorrupt), Err(PkgError::CacheCorrupt)));
}

#[test]
fn an_instance_without_a_version_fails_before_anything_is_fetched() {
    let bare = McInstance { flavour: Flavour::MultiMC, version: None, mods_dir: String::new() };
    match bare.require_version() {
        Err(PkgError::NotFound(what)) => assert_eq!(what, "net.minecraft"),
        other => panic!("unexpected: {:?}", other),
    }
    let ready = McInstance {
        flavour: Flavour::Vanilla,
        version: Some("1.12.2".to_string()),
        mods_dir: String::new(),
    };
    assert_eq!(ready.require_version().unwrap(), "1.12.2");
}
