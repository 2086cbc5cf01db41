use syncrab::structs::{Job, LogResult};
use syncrab::strutil::replace_all;
use syncrab::validate::{
    are_paths_valid, is_hour_valid, is_record_valid, normalise_path, parse_u8, PathStatus,
};
use syncrab::watch::{
    classify_event, desired_watch_ids, target_sub_path, FsChange, SyncAction, WatchManager,
};

fn job(id: u16, freq: &str, active: u8) -> Job {
    Job {
        id: Some(id),
        source: "/s".to_string(),
        target: "/t".to_string(),
        frequency: freq.to_string(),
        hour: 0,
        day: None,
        mirror: 1,
        active,
    }
}

#[test]
fn reconcile_tears_down_undesired_and_starts_missing_watches() {
    let mut manager = WatchManager::new();
    let first = vec![2u16, 3u16];
    let (stopped, started) = manager.reconcile(&first);
    assert_eq!(stopped, Vec::<u16>::new());
    assert_eq!(started, vec![2, 3]);
    assert_eq!(manager.watched, vec![2, 3]);

    let desired = vec![1u16, 2u16];
    let (stopped, started) = manager.reconcile(&desired);
    assert_eq!(manager.watched, vec![1, 2]);
    assert_eq!(stopped, vec![3]);
    assert_eq!(started, vec![1]);
}

#[test]
fn reconcile_with_no_change_stops_and_starts_nothing() {
    let mut manager = WatchManager::new();
    let desired = vec![5u16];
    manager.reconcile(&desired);
    let (stopped, started) = manager.reconcile(&desired);
    assert!(stopped.is_empty());
    assert!(started.is_empty());
    assert_eq!(manager.watched, vec![5]);
}

#[test]
fn reconciling_to_an_empty_desired_set_tears_everything_down() {
    let mut manager = WatchManager::new();
    manager.reconcile(&vec![4u16, 9u16]);
    let (stopped, started) = manager.reconcile(&Vec::new());
    assert_eq!(stopped, vec![4, 9]);
    assert!(started.is_empty());
    assert!(manager.watched.is_empty());
}

#[test]
fn a_dropped_watch_is_offered_again_on_the_next_reconciliation() {
    let mut manager = WatchManager::new();
    manager.reconcile(&vec![1u16, 2u16, 3u16]);
    manager.drop_watch(2);
    assert_eq!(manager.watched, vec![1, 3]);
    let (stopped, started) = manager.reconcile(&vec![1u16, 2u16, 3u16]);
    assert!(stopped.is_empty());
    assert_eq!(started, vec![2]);
}

#[test]
fn desired_watch_set_is_the_active_realtime_jobs() {
    let jobs = vec![
        job(1, "realtime", 1),
        job(2, "realtime", 0),
        job(3, "daily", 1),
        job(4, "realtime", 1),
    ];
    assert_eq!(desired_watch_ids(&jobs), vec![1, 4]);
}

#[test]
fn event_kinds_map_to_their_single_action() {
    assert_eq!(classify_event(&FsChange::CreatedFile), SyncAction::CopyPath);
    assert_eq!(classify_event(&FsChange::CreatedDir), SyncAction::CopyPath);
    assert_eq!(classify_event(&FsChange::DataModified), SyncAction::CopyPath);
    assert_eq!(classify_event(&FsChange::RenamedIn), SyncAction::CopyPath);
    assert_eq!(classify_event(&FsChange::RenamedOut), SyncAction::DeleteTarget);
    assert_eq!(classify_event(&FsChange::Other), SyncAction::Ignore);
}

#[test]
fn event_paths_are_scoped_onto_the_target_tree() {
    assert_eq!(target_sub_path("/src/d/f.txt", "/src", "/tgt"), "/tgt/d/f.txt");
    assert_eq!(target_sub_path("/src", "/src", "/tgt"), "/tgt");
    assert_eq!(target_sub_path("/srcdir", "/src", "/tgt"), "/tgt/dir");
}

#[test]
fn relative_existing_source_yields_a_validation_outcome_only() {
    let j = job(1, "daily", 1);
    let freq = "daily".to_string();
    let source = PathStatus { exists: true, absolute: false, is_file: false };
    let target = PathStatus { exists: false, absolute: true, is_file: false };
    let mut failed: Vec<LogResult> = Vec::new();
    let ok = are_paths_valid(&freq, &j, &source, &target, &mut failed);
    assert!(!ok);
    assert_eq!(failed.len(), 1);
    assert_eq!(failed[0].message, "Source path must be absolute");
    assert_eq!(failed[0].frequency, "daily");
    assert_eq!(failed[0].source, "/s");
    assert_eq!(failed[0].target, "/t");
}

#[test]
fn each_path_rule_reports_its_own_error() {
    let j = job(1, "daily", 1);
    let freq = "daily".to_string();
    let mut failed: Vec<LogResult> = Vec::new();

    let missing = PathStatus { exists: false, absolute: true, is_file: false };
    let fine = PathStatus { exists: false, absolute: false, is_file: false };
    assert!(!are_paths_valid(&freq, &j, &missing, &fine, &mut failed));
    assert_eq!(failed[0].message, "Source path does not exist");

    let good_source = PathStatus { exists: true, absolute: true, is_file: false };
    let rel_target = PathStatus { exists: true, absolute: false, is_file: false };
    assert!(!are_paths_valid(&freq, &j, &good_source, &rel_target, &mut failed));
    assert_eq!(failed[1].message, "Target path must be absolute");

    let file_target = PathStatus { exists: true, absolute: true, is_file: true };
    assert!(!are_paths_valid(&freq, &j, &good_source, &file_target, &mut failed));
    assert_eq!(failed[2].message, "Target path must be a directory");

    let dir_target = PathStatus { exists: true, absolute: true, is_file: false };
    assert!(are_paths_valid(&freq, &j, &good_source, &dir_target, &mut failed));
    assert_eq!(failed.len(), 3);

    let no_target = PathStatus { exists: false, absolute: false, is_file: false };
    assert!(are_paths_valid(&freq, &j, &good_source, &no_target, &mut failed));
    assert_eq!(failed.len(), 3);
}

#[test]
fn hour_field_accepts_zero_to_twenty_three() {
    assert!(is_hour_valid("0"));
    assert!(is_hour_valid("09"));
    assert!(is_hour_valid("23"));
    assert!(is_hour_valid("+7"));
    assert!(!is_hour_valid("24"));
    assert!(!is_hour_valid("256"));
    assert!(!is_hour_valid(""));
    assert!(!is_hour_valid("7a"));
    assert!(!is_hour_valid("-1"));
}

#[test]
fn parse_u8_reads_digits_with_an_optional_plus() {
    assert_eq!(parse_u8("0"), Some(0));
    assert_eq!(parse_u8("255"), Some(255));
    assert_eq!(parse_u8("007"), Some(7));
    assert_eq!(parse_u8("+42"), Some(42));
    assert_eq!(parse_u8("256"), None);
    assert_eq!(parse_u8("+"), None);
    assert_eq!(parse_u8("4 2"), None);
}

#[test]
fn record_validation_follows_the_frequency() {
    assert!(is_record_valid("/s", "/t", "", "", "realtime"));
    assert!(!is_record_valid("", "/t", "", "", "realtime"));
    assert!(!is_record_valid("/s", "", "", "", "realtime"));
    assert!(is_record_valid("/s", "/t", "9", "", "daily"));
    assert!(!is_record_valid("/s", "/t", "24", "", "daily"));
    assert!(is_record_valid("/s", "/t", "9", "Fri", "weekly"));
    assert!(is_record_valid("/s", "/t", "9", "fri", "weekly"));
    assert!(!is_record_valid("/s", "/t", "9", "friday", "weekly"));
    assert!(!is_record_valid("/s", "/t", "9", "", "weekly"));
    assert!(!is_record_valid("/s", "/t", "9", "fri", "monthly"));
}

#[test]
fn replace_all_rewrites_every_occurrence_left_to_right() {
    assert_eq!(replace_all("/old/data/old", "old", "new"), "/new/data/new");
    assert_eq!(replace_all("aaa", "aa", "b"), "ba");
    assert_eq!(replace_all("abc", "x", "y"), "abc");
    assert_eq!(replace_all("abab", "ab", "abab"), "abababab");
}

#[test]
fn tilde_prefix_expands_to_the_home_directory() {
    assert_eq!(normalise_path("~/docs", Some("/home/u")), "/home/u/docs");
    assert_eq!(normalise_path("/abs/docs", Some("/home/u")), "/abs/docs");
    assert_eq!(normalise_path("~/docs", None), "~/docs");
    assert_eq!(normalise_path("~x", Some("/home/u")), "~x");
}
