use std::path::PathBuf;
use steeve_sync::saves::{
    check_newer, is_save_file_name, locate_destination, locate_save, save_file, steam_save_name,
    xbox_save_name, SaveCandidate, SaveEndpoint, SaveError, SaveKind,
};
use steeve_sync::Error;

fn file(name: &str) -> SaveCandidate {
    SaveCandidate { is_file: true, file_name: Some(name.to_string()) }
}

fn dir(name: &str) -> SaveCandidate {
    SaveCandidate { is_file: false, file_name: Some(name.to_string()) }
}

const HEX32: &str = "0123456789abcdefABCDEF0123456789";

#[test]
fn steam_names() {
    assert!(steam_save_name("world_Player.sav"));
    assert!(steam_save_name("_Player.sav"));
    assert!(!steam_save_name("Player.sav"));
    assert!(!steam_save_name("world_Player.sav.bak"));
    assert!(!steam_save_name("world_player.sav"));
    assert!(!steam_save_name(""));
}

#[test]
fn xbox_names() {
    assert!(xbox_save_name(HEX32));
    assert!(!xbox_save_name("0123456789abcdef0123456789abcde"));
    assert!(!xbox_save_name("0123456789abcdef0123456789abcdef0"));
    assert!(!xbox_save_name("0123456789abcdef0123456789abcdeg"));
    assert!(!xbox_save_name(""));
    assert!(is_save_file_name(SaveKind::Xbox, HEX32));
    assert!(!is_save_file_name(SaveKind::Steam, HEX32));
    assert!(is_save_file_name(SaveKind::Steam, "a_Player.sav"));
}

#[test]
fn save_file_needs_regular_file() {
    assert_eq!(save_file(SaveKind::Steam, &file("a_Player.sav")), Some("a_Player.sav".to_string()));
    assert_eq!(save_file(SaveKind::Steam, &dir("a_Player.sav")), None);
    let nameless = SaveCandidate { is_file: true, file_name: None };
    assert_eq!(save_file(SaveKind::Steam, &nameless), None);
}

#[test]
fn locate_returns_first_match() {
    let entries = vec![
        dir("SaveGames"),
        file("notes.txt"),
        dir("b_Player.sav"),
        file("a_Player.sav"),
        file("c_Player.sav"),
    ];
    assert_eq!(locate_save(SaveKind::Steam, &entries), Some((3, "a_Player.sav".to_string())));
    assert_eq!(locate_save(SaveKind::Xbox, &entries), None);
    assert_eq!(locate_save(SaveKind::Steam, &Vec::new()), None);
}

#[test]
fn locate_destination_without_save_is_no_save() {
    let entries = vec![file("notes.txt")];
    assert!(matches!(locate_destination(SaveKind::Xbox, &entries), Err(SaveError::NoSave)));
    let entries = vec![file("notes.txt"), file(HEX32)];
    match locate_destination(SaveKind::Xbox, &entries) {
        Ok((i, name)) => {
            assert_eq!(i, 1);
            assert_eq!(name, HEX32);
        }
        Err(e) => panic!("unexpected {e:?}"),
    }
}

#[test]
fn newer_source_wins() {
    assert!(check_newer(101, 100).is_ok());
    assert!(matches!(check_newer(100, 100), Err(SaveError::ModifyTime)));
    assert!(matches!(check_newer(99, 100), Err(SaveError::ModifyTime)));
    assert!(check_newer(-5, -6).is_ok());
}

#[test]
fn endpoint_refuses_zero_backups() {
    let r = SaveEndpoint::new(SaveKind::Steam, 0, PathBuf::from("s"), PathBuf::from("b"));
    assert!(matches!(r, Err(Error::MaxBackups)));
}

#[test]
fn endpoint_accessors() {
    let ep = SaveEndpoint::new(SaveKind::Xbox, 3, PathBuf::from("s"), PathBuf::from("b")).unwrap();
    assert_eq!(ep.name(), "Xbox");
    assert_eq!(ep.kind(), SaveKind::Xbox);
    assert_eq!(ep.max_backups(), 3);
    assert_eq!(ep.save_dir(), &PathBuf::from("s"));
    assert_eq!(ep.backup_dir(), &PathBuf::from("b"));
    assert_eq!(ep.save_file(&file(HEX32)), Some(HEX32.to_string()));
    assert_eq!(ep.locate_save_path(&vec![file("x"), file(HEX32)]), Some((1, HEX32.to_string())));
    let steam = SaveEndpoint::new(SaveKind::Steam, 1, PathBuf::from("s"), PathBuf::from("b")).unwrap();
    assert_eq!(steam.name(), "Steam");
}
