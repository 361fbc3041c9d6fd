use chaudloader::bnlc::{AssetReplacer, State as BnlcState};
use chaudloader::replacer::ReplacerError;
use chaudloader::config::{default_bool, empty_btreeset};
use chaudloader::mods::{ModFunctions, find_pattern, check_compatibility, Compatibility, GameEnv, GameVolume, Requirements, Sections, State};

fn env() -> GameEnv {
    GameEnv { volume: GameVolume::Vol2, exe_crc32: 0xdeadbeef, sections: Sections::default() }
}

#[test]
fn compatibility_needs_every_requirement() {
    let c = Compatibility { loader_version: true, game: true, exe_crc32: true };
    assert!(c.is_compatible());
    let c = Compatibility { loader_version: true, game: false, exe_crc32: true };
    assert!(!c.is_compatible());
}

#[test]
fn requirements_against_game() {
    let none = Requirements { games: None, exe_crc32s: None };
    assert_eq!(check_compatibility(&env(), &none, true), Compatibility { loader_version: true, game: true, exe_crc32: true });
    let other = Requirements { games: Some(vec![GameVolume::Vol1]), exe_crc32s: Some(vec![1, 0xdeadbeef]) };
    assert_eq!(check_compatibility(&env(), &other, false), Compatibility { loader_version: false, game: false, exe_crc32: true });
}

#[test]
fn defaults() {
    assert!(!default_bool::<false>());
    assert!(default_bool::<true>());
    assert!(empty_btreeset::<String>().is_empty());
    assert!(State::new().dlls.is_empty());
}

#[test]
fn bnlc_state() {
    let mut s = BnlcState::new(true);
    assert!(s.is_trusted());
    s.add_dll("mod.dll".to_string(), 42);
    assert!(!BnlcState::new(false).is_trusted());
}

#[test]
fn asset_replacer_resolves_registered_paths() {
    let mut a = AssetReplacer::new();
    a.add("data/x.dat", 5);
    assert_eq!(a.get_replaced_path("data/x.dat"), Some(5));
    assert_eq!(a.get_replaced_path("data/y.dat"), None);
    let r = a.resolve("data/x.dat", Some("tmp/fresh".to_string())).unwrap();
    assert!(r.is_replaced());
    assert_eq!(r.path_str(), "tmp/fresh");
    assert!(matches!(a.resolve("data/x.dat", None), Err(ReplacerError::MaterializationFailed)));
    let r = a.resolve("data/y.dat", Some("tmp/fresh".to_string())).unwrap();
    assert!(!r.is_replaced());
    assert_eq!(r.path_str(), "data/y.dat");
}

#[test]
fn pattern_search_finds_first_occurrence() {
    let text = [0x90u8, 0x48, 0x89, 0x5c, 0x48, 0x89, 0x5c, 0x24];
    assert_eq!(find_pattern(&text, &[0x48, 0x89, 0x5c]), Some(1));
    assert_eq!(find_pattern(&text, &[0x5c, 0x24]), Some(6));
    assert_eq!(find_pattern(&text, &[0x24, 0x00]), None);
    assert_eq!(find_pattern(&text[..2], &[0x48, 0x89, 0x5c]), None);
}

#[test]
fn mod_functions_start_empty() {
    assert!(ModFunctions::new().on_game_load_functions.is_empty());
}
