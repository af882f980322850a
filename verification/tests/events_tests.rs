use bookmark_sync::devices::{
    device_file_name, device_id_of_file, filter_active_devices, max_event_timestamp, min_synced_ts_across_devices,
    new_device_record, plan_segment_cleanup, read_active_devices, segment_can_be_deleted, DeviceRecord, DEVICE_TTL_DAYS,
    MS_PER_DAY,
};
use bookmark_sync::models::{EventLog, SyncEvent};
use bookmark_sync::segment::{read_all_events, sort_events_by_timestamp};
use bookmark_sync::segment_files::{
    count_event_lines, current_segment_file_name, is_sealed_segment_name, legacy_segment_file_name, needs_seal,
    next_sealed_segment_name, nonblank_lines, plan_legacy_migration, sealed_segment_name, sealed_segment_names,
    split_into_segments, LegacyMigration, MAX_GITHUB_FILE_BYTES, MAX_SEGMENT_BYTES, MAX_SEGMENT_LINES,
};

fn make_event(timestamp: i64) -> EventLog {
    EventLog {
        event_id: format!("e-{timestamp}"),
        device_id: "test-device".to_string(),
        timestamp,
        event: SyncEvent::BookmarkDeleted { id: "bm-1".to_string() },
    }
}

#[test]
fn read_all_events_returns_sorted_by_timestamp() {
    let e1 = make_event(1000);
    let e2 = make_event(3000);
    let e3 = make_event(2000);
    let all = read_all_events(vec![vec![e1], vec![e2], vec![e3]]);
    assert_eq!(all.len(), 3);
    assert!(
        all[0].timestamp <= all[1].timestamp && all[1].timestamp <= all[2].timestamp,
        "events should be sorted by timestamp: {:?}",
        all.iter().map(|e| e.timestamp).collect::<Vec<_>>()
    );
}

#[test]
fn equal_timestamps_keep_their_file_order() {
    let mut a = make_event(5);
    a.event_id = "a".into();
    let mut b = make_event(5);
    b.event_id = "b".into();
    let sorted = sort_events_by_timestamp(vec![make_event(9), a, make_event(1), b]);
    let ids: Vec<&str> = sorted.iter().map(|e| e.event_id.as_str()).collect();
    assert_eq!(ids, vec!["e-1", "a", "b", "e-9"]);
}

#[test]
fn sealed_names_are_filtered_and_sorted() {
    let names = vec![
        "events-000010.ndjson".to_string(),
        "events-current.ndjson".to_string(),
        "events.ndjson".to_string(),
        "events-000002.ndjson".to_string(),
        "notes.txt".to_string(),
        "events-000001.ndjson".to_string(),
    ];
    assert_eq!(
        sealed_segment_names(names),
        vec!["events-000001.ndjson".to_string(), "events-000002.ndjson".to_string(), "events-000010.ndjson".to_string()]
    );
    assert!(is_sealed_segment_name("events-7.ndjson"));
    assert!(!is_sealed_segment_name("events-current.ndjson"));
    assert_eq!(current_segment_file_name(), "events-current.ndjson");
    assert_eq!(legacy_segment_file_name(), "events.ndjson");
}

#[test]
fn next_segment_is_numbered_after_the_existing_ones() {
    assert_eq!(next_sealed_segment_name(0), "events-000001.ndjson");
    assert_eq!(next_sealed_segment_name(41), "events-000042.ndjson");
    assert_eq!(sealed_segment_name(1234567), "events-1234567.ndjson");
    for n in [0usize, 9, 999_999, 5_000_000] {
        assert!(is_sealed_segment_name(&next_sealed_segment_name(n)));
    }
}

#[test]
fn current_file_is_sealed_at_either_limit() {
    assert_eq!(MAX_SEGMENT_BYTES, 512_000);
    assert_eq!(MAX_SEGMENT_LINES, 1000);
    assert!(!needs_seal(511_999, 999));
    assert!(needs_seal(512_000, 0));
    assert!(needs_seal(10, 1000));
}

#[test]
fn event_lines_skip_blank_lines_and_crlf_endings() {
    let content = "{\"a\":1}\r\n\n   \n{\"b\":2}\n \t\n{\"c\":3}";
    assert_eq!(
        nonblank_lines(content),
        vec!["{\"a\":1}".to_string(), "{\"b\":2}".to_string(), "{\"c\":3}".to_string()]
    );
    assert_eq!(count_event_lines(content), 3);
    assert_eq!(count_event_lines(""), 0);
}

#[test]
fn legacy_single_file_migrated_on_first_read() {
    assert_eq!(plan_legacy_migration(100, false), LegacyMigration::RenameToFirstSegment);
    assert_eq!(plan_legacy_migration(100, true), LegacyMigration::AppendToFirstSegment);
    assert_eq!(plan_legacy_migration(MAX_GITHUB_FILE_BYTES, false), LegacyMigration::RenameToFirstSegment);
    assert_eq!(plan_legacy_migration(MAX_GITHUB_FILE_BYTES + 1, false), LegacyMigration::SplitIntoSegments);
}

#[test]
fn large_legacy_logs_are_cut_greedily() {
    let lines: Vec<String> = vec!["aaaa".into(), "bb".into(), "cccccccccc".into(), "d".into()];
    let groups = split_into_segments(&lines, 9);
    assert_eq!(
        groups,
        vec![vec!["aaaa".to_string(), "bb".to_string()], vec!["cccccccccc".to_string()], vec!["d".to_string()]]
    );
    assert_eq!(split_into_segments(&vec![], 9), vec![Vec::<String>::new()]);
    let multibyte: Vec<String> = vec!["é".into(), "é".into()];
    assert_eq!(split_into_segments(&multibyte, 6).len(), 1);
    assert_eq!(split_into_segments(&multibyte, 5).len(), 2);
}

fn device(synced: i64, seen: i64) -> DeviceRecord {
    DeviceRecord { last_synced_ts: synced, last_seen_ts: seen }
}

#[test]
fn min_synced_ts_returns_minimum_across_active_devices() {
    let devices = vec![device(5_000_000, 1), device(2_000_000, 1), device(8_000_000, 1)];
    let min_ts = min_synced_ts_across_devices(&devices).expect("should have a value");
    assert_eq!(min_ts, 2_000_000, "min should be device-b's timestamp");
}

#[test]
fn min_synced_ts_returns_none_when_no_devices() {
    let result = min_synced_ts_across_devices(&vec![]);
    assert!(result.is_none(), "should return None when no devices");
}

#[test]
fn device_registry_excludes_expired_device() {
    let now_ts: i64 = 100_000_000_000;
    let expired_ts = now_ts - (61 * 86_400_000_i64);
    let entries = vec![
        ("old-device".to_string(), device(500_000, expired_ts)),
        ("active-device".to_string(), device(1_000_000, now_ts)),
    ];
    let devices = filter_active_devices(entries, now_ts);
    assert!(!devices.iter().any(|(id, _)| id == "old-device"), "expired device should be excluded");
    assert!(devices.iter().any(|(id, _)| id == "active-device"), "active device should be included");
    assert_eq!(devices.len(), 1);
}

#[test]
fn ttl_boundary_is_inclusive() {
    let ttl = DEVICE_TTL_DAYS * MS_PER_DAY;
    let entries = vec![("a".to_string(), device(1, 0)), ("b".to_string(), device(2, -1))];
    let kept = filter_active_devices(entries, ttl);
    assert_eq!(kept.len(), 1);
    assert_eq!(kept[0].0, "a");
    let far = filter_active_devices(vec![("x".to_string(), device(1, i64::MIN))], i64::MAX);
    assert!(far.is_empty());
}

#[test]
fn device_registry_update_and_read_device() {
    let now = chrono::Utc::now().timestamp_millis();
    let record = new_device_record(1_000_000, now);
    assert_eq!(record.last_synced_ts, 1_000_000);
    assert!(record.last_seen_ts > 0);
    let devices = read_active_devices(vec![("mac-home".to_string(), record)], chrono::Utc::now().timestamp_millis());
    assert!(devices.iter().any(|(id, _)| id == "mac-home"), "mac-home should be in registry");
    assert_eq!(device_file_name("mac-home"), "mac-home.json");
    assert_eq!(device_id_of_file("mac-home.json"), Some("mac-home".to_string()));
    assert_eq!(device_id_of_file("a.b.json"), Some("a.b".to_string()));
    assert_eq!(device_id_of_file(".json"), None);
    assert_eq!(device_id_of_file("notes.txt"), None);
}

#[test]
fn cleanup_deletes_fully_synced_segment() {
    let min = min_synced_ts_across_devices(&vec![device(2000, 1), device(2000, 1)]);
    let plan = plan_segment_cleanup(min, &vec![vec![make_event(500), make_event(1000)]]);
    assert_eq!(plan.iter().filter(|d| **d).count(), 1, "should delete 1 segment");
}

#[test]
fn cleanup_keeps_segment_if_one_device_behind() {
    let min = min_synced_ts_across_devices(&vec![device(2000, 1), device(800, 1)]);
    let plan = plan_segment_cleanup(min, &vec![vec![make_event(500), make_event(1000)]]);
    assert_eq!(plan.iter().filter(|d| **d).count(), 0, "should not delete any segment");
}

#[test]
fn cleanup_does_nothing_when_no_devices() {
    let min = min_synced_ts_across_devices(&vec![]);
    let plan = plan_segment_cleanup(min, &vec![vec![make_event(500)]]);
    assert_eq!(plan.iter().filter(|d| **d).count(), 0, "should not delete anything without device registry");
}

#[test]
fn cleanup_deletes_only_eligible_segments() {
    let min = min_synced_ts_across_devices(&vec![device(2000, 1)]);
    let plan = plan_segment_cleanup(min, &vec![vec![make_event(1000)], vec![make_event(3000)]]);
    assert_eq!(plan, vec![true, false], "should delete only seg1");
}

#[test]
fn empty_segment_and_boundary_timestamps() {
    assert!(segment_can_be_deleted(&vec![], 0));
    assert!(!segment_can_be_deleted(&vec![], i64::MIN));
    assert!(!segment_can_be_deleted(&vec![make_event(2000)], 2000));
    assert_eq!(max_event_timestamp(&vec![]), 0);
    assert_eq!(max_event_timestamp(&vec![make_event(-5), make_event(-9)]), -5);
}
