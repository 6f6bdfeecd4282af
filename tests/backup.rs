use std::path::PathBuf;
use steeve_sync::backup::{
    backup_file_name, fingerprint, is_dupe_backup, oldest_backups, plan_backup, BackupFile,
    BackupPlan,
};
use steeve_sync::saves::{SaveEndpoint, SaveKind};

fn backup(contents: &[u8], modified: i128) -> BackupFile {
    BackupFile { is_file: true, modified: Some(modified), contents: Some(contents.to_vec()) }
}

/// Runs one backup of `save` at time `now` on a model of the directory.
fn run_backup(files: &mut Vec<BackupFile>, save: &[u8], now: i128, max_backups: usize) -> bool {
    match plan_backup(save, files, max_backups) {
        BackupPlan::Duplicate => false,
        BackupPlan::Write { mut evict } => {
            evict.sort();
            for i in evict.into_iter().rev() {
                files.remove(i);
            }
            files.push(backup(save, now));
            true
        }
    }
}

#[test]
fn fingerprint_depends_on_contents() {
    assert_eq!(fingerprint(b"save data"), fingerprint(b"save data"));
    assert_ne!(fingerprint(b"save data"), fingerprint(b"save datb"));
    assert_eq!(fingerprint(&[]), fingerprint(&[]));
}

#[test]
fn dupe_detection() {
    let files = vec![
        backup(b"one", 1),
        BackupFile { is_file: false, modified: Some(2), contents: Some(b"two".to_vec()) },
        BackupFile { is_file: true, modified: Some(3), contents: None },
    ];
    assert!(is_dupe_backup(b"one", &files));
    assert!(!is_dupe_backup(b"two", &files));
    assert!(!is_dupe_backup(b"three", &files));
    assert!(!is_dupe_backup(b"one", &Vec::new()));
}

#[test]
fn eviction_takes_oldest() {
    let files = vec![backup(b"a", 30), backup(b"b", 10), backup(b"c", 20), backup(b"d", 40)];
    let mut evict = oldest_backups(&files, 3);
    evict.sort();
    assert_eq!(evict, vec![1, 2]);
    assert_eq!(oldest_backups(&files, 5), Vec::<usize>::new());
    assert_eq!(oldest_backups(&files, 4), vec![1]);
    let mut all = oldest_backups(&files, 1);
    all.sort();
    assert_eq!(all, vec![0, 1, 2, 3]);
}

#[test]
fn eviction_unreadable_time_goes_first_and_skips_directories() {
    let files = vec![
        backup(b"a", 5),
        BackupFile { is_file: false, modified: Some(-100), contents: None },
        BackupFile { is_file: true, modified: None, contents: None },
        backup(b"b", 7),
    ];
    assert_eq!(oldest_backups(&files, 3), vec![2]);
    let mut evict = oldest_backups(&files, 2);
    evict.sort();
    assert_eq!(evict, vec![0, 2]);
}

#[test]
fn eviction_tie_keeps_listing_order() {
    let files = vec![backup(b"a", 5), backup(b"b", 5), backup(b"c", 5)];
    assert_eq!(oldest_backups(&files, 2), vec![0, 1]);
}

#[test]
fn backup_names() {
    assert_eq!(backup_file_name(1700000000, "world_Player.sav"), "1700000000_world_Player.sav");
    assert_eq!(backup_file_name(0, "x"), "0_x");
    assert_eq!(backup_file_name(9, ""), "9_");
    assert_eq!(backup_file_name(10, "y"), "10_y");
    assert_eq!(backup_file_name(u64::MAX, "z"), "18446744073709551615_z");
}

#[test]
fn plan_skips_duplicate_and_evicts_otherwise() {
    let files = vec![backup(b"a", 1), backup(b"b", 2), backup(b"c", 3)];
    assert!(matches!(plan_backup(b"b", &files, 3), BackupPlan::Duplicate));
    match plan_backup(b"d", &files, 3) {
        BackupPlan::Write { evict } => assert_eq!(evict, vec![0]),
        BackupPlan::Duplicate => panic!("not a duplicate"),
    }
    let ep = SaveEndpoint::new(SaveKind::Steam, 2, PathBuf::from("s"), PathBuf::from("b")).unwrap();
    match ep.plan_backup(b"d", &files) {
        BackupPlan::Write { mut evict } => {
            evict.sort();
            assert_eq!(evict, vec![0, 1]);
        }
        BackupPlan::Duplicate => panic!("not a duplicate"),
    }
}

#[test]
fn same_content_twice_is_backed_up_once() {
    let mut files = vec![backup(b"old", 1)];
    assert!(run_backup(&mut files, b"save", 10, 5));
    assert!(!run_backup(&mut files, b"save", 20, 5));
    let holding = files.iter().filter(|f| f.contents.as_deref() == Some(&b"save"[..])).count();
    assert_eq!(holding, 1);
    assert_eq!(files.len(), 2);
}

#[test]
fn retention_keeps_most_recent() {
    let mut files = Vec::new();
    for n in 0..7i128 {
        let contents = format!("save {n}");
        assert!(run_backup(&mut files, contents.as_bytes(), 100 + n, 4));
        assert!(files.len() <= 4);
    }
    assert_eq!(files.len(), 4);
    let mut times: Vec<i128> = files.iter().map(|f| f.modified.unwrap()).collect();
    times.sort();
    assert_eq!(times, vec![103, 104, 105, 106]);
}

#[test]
fn four_overwrites_keep_three_backups() {
    let mut files = Vec::new();
    let saves: [&[u8]; 4] = [b"first", b"second", b"third", b"fourth"];
    for (t, save) in saves.iter().enumerate() {
        assert!(run_backup(&mut files, save, t as i128, 3));
    }
    assert_eq!(files.len(), 3);
    assert!(!files.iter().any(|f| f.contents.as_deref() == Some(&b"first"[..])));
    assert!(files.iter().any(|f| f.contents.as_deref() == Some(&b"fourth"[..])));
}

#[test]
fn one_backup_limit_keeps_one() {
    let mut files = vec![backup(b"a", 1), backup(b"b", 2)];
    assert!(run_backup(&mut files, b"c", 3, 1));
    assert_eq!(files.len(), 1);
    assert_eq!(files[0].contents.as_deref(), Some(&b"c"[..]));
}
