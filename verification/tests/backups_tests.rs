use collector::backups::{
    archived_thumb_name, count_orphans, is_restorable_name, is_snapshot_name, list_backups,
    orphaned_names, parse_snapshot_stamp, purge_age_secs, restore_candidates, snapshot_file_name,
    snapshots_to_prune,
};
use collector::paths::thumb_path_for;

#[test]
fn snapshot_names_round_trip() {
    for t in [0u64, 7, 10, 1_700_000_000, u64::MAX] {
        let n = snapshot_file_name(t);
        assert_eq!(n, format!("data-{t}.json"));
        assert!(is_snapshot_name(&n));
        assert!(is_restorable_name(&n));
        assert_eq!(parse_snapshot_stamp(&n), Some(t));
    }
}

#[test]
fn stamps_parse_like_u64_from_str() {
    assert_eq!(parse_snapshot_stamp("data-+12.json"), Some(12));
    assert_eq!(parse_snapshot_stamp("data-007.json"), Some(7));
    assert_eq!(parse_snapshot_stamp("data-.json"), None);
    assert_eq!(parse_snapshot_stamp("data-+.json"), None);
    assert_eq!(parse_snapshot_stamp("data--1.json"), None);
    assert_eq!(parse_snapshot_stamp("data-1a.json"), None);
    assert_eq!(parse_snapshot_stamp("data-18446744073709551616.json"), None);
    assert_eq!(parse_snapshot_stamp("data-18446744073709551615.json"), Some(u64::MAX));
    assert_eq!(parse_snapshot_stamp("data-12.jso"), None);
    assert_eq!(parse_snapshot_stamp("date-12.json"), None);
    assert_eq!(parse_snapshot_stamp("data-json"), None);
    for m in ["+12", "007", "", "+", "-1", "1a", "18446744073709551616", " 1"] {
        assert_eq!(parse_snapshot_stamp(&format!("data-{m}.json")), m.parse::<u64>().ok(), "{m}");
    }
}

#[test]
fn restore_refuses_other_names_and_paths() {
    assert!(is_restorable_name("data-5.json"));
    assert!(!is_restorable_name("data-5.txt"));
    assert!(!is_restorable_name("settings.json"));
    assert!(!is_restorable_name("data-../../etc.json"));
    assert!(!is_restorable_name("data-a\\b.json"));
    assert!(is_snapshot_name("data-.json"));
    assert!(!is_snapshot_name("data-json"));
}

#[test]
fn backups_are_listed_newest_first() {
    let entries = vec![
        ("data-100.json".to_string(), 10u64),
        ("notes.txt".to_string(), 1),
        ("data-300.json".to_string(), 30),
        ("data-x.json".to_string(), 2),
        ("data-200.json".to_string(), 20),
        ("data-0300.json".to_string(), 31),
    ];
    let list = list_backups(entries);
    let got: Vec<(String, u64, u64)> =
        list.into_iter().map(|b| (b.file_name, b.stamp_secs, b.size_bytes)).collect();
    assert_eq!(
        got,
        vec![
            ("data-300.json".to_string(), 300, 30),
            ("data-0300.json".to_string(), 300, 31),
            ("data-200.json".to_string(), 200, 20),
            ("data-100.json".to_string(), 100, 10),
        ]
    );
    assert!(list_backups(vec![]).is_empty());
}

#[test]
fn pruning_keeps_the_five_newest_snapshots() {
    let names: Vec<String> = ["data-6.json", "data-1.json", "x.txt", "data-3.json", "data-2.json", "data-5.json", "data-4.json", "data-7.json"]
        .iter().map(|s| s.to_string()).collect();
    assert_eq!(snapshots_to_prune(names), vec!["data-1.json", "data-2.json"]);
    let few: Vec<String> = ["data-1.json", "data-2.json"].iter().map(|s| s.to_string()).collect();
    assert!(snapshots_to_prune(few).is_empty());
    // order is by time stamp, not by characters: data-999 is the oldest
    let names: Vec<String> = ["data-1000.json", "data-999.json", "data-1001.json", "data-1002.json", "data-1003.json", "data-1004.json"]
        .iter().map(|s| s.to_string()).collect();
    assert_eq!(snapshots_to_prune(names), vec!["data-999.json"]);
    // a data-*.json name without a numeric stamp is left alone
    let names: Vec<String> = ["data-notes.json", "data-1.json", "data-2.json", "data-3.json", "data-4.json", "data-5.json", "data-6.json"]
        .iter().map(|s| s.to_string()).collect();
    assert_eq!(snapshots_to_prune(names), vec!["data-1.json"]);
}

#[test]
fn orphans_are_archived_names_no_item_refers_to() {
    let archive: Vec<String> = ["a.jpg", "b.jpg", "c.jpg"].iter().map(|s| s.to_string()).collect();
    let refs: Vec<String> = ["b.jpg", "zzz.jpg"].iter().map(|s| s.to_string()).collect();
    assert_eq!(orphaned_names(&archive, &refs), vec!["a.jpg", "c.jpg"]);
    assert_eq!(count_orphans(&archive, &refs), 2);
    assert_eq!(count_orphans(&archive, &archive), 0);
    assert_eq!(count_orphans(&vec![], &refs), 0);
}

#[test]
fn purge_retention_is_capped() {
    assert_eq!(purge_age_secs(0), 0);
    assert_eq!(purge_age_secs(30), 30 * 86_400);
    assert_eq!(purge_age_secs(36_500), 36_500 * 86_400);
    assert_eq!(purge_age_secs(u64::MAX), 36_500 * 86_400);
}

#[test]
fn purged_thumbnail_is_the_cached_one() {
    assert_eq!(archived_thumb_name("abc.png"), "abc.jpg");
    assert_eq!(archived_thumb_name("abc"), "abc.jpg");
    assert_eq!(archived_thumb_name(".."), "");
    for n in ["abc.png", "x.y.z", ".hidden"] {
        assert_eq!(format!("/t/{}", archived_thumb_name(n)), thumb_path_for(n, "/t"));
        let std_name = std::path::Path::new(n).with_extension("jpg");
        assert_eq!(archived_thumb_name(n), std_name.file_name().unwrap().to_str().unwrap());
    }
}

#[test]
fn blank_references_are_not_restored() {
    let refs: Vec<String> = ["a.jpg", "", "  ", "\t\u{3000}", "b.jpg"].iter().map(|s| s.to_string()).collect();
    assert_eq!(restore_candidates(&refs), vec!["a.jpg", "b.jpg"]);
}
