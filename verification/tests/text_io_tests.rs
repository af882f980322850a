use bookmark_sync::devices::{device_file_name, device_id_of_file, filter_active_devices, new_device_record};
use bookmark_sync::json::{parse_native_message, remove_chromium_bookmark_from_text, JsonValue};
use bookmark_sync::plist::{remove_safari_bookmark_from_bytes, safari_nodes_from_bytes};
use bookmark_sync::segment_files::{count_event_lines, needs_seal, next_sealed_segment_name, nonblank_lines};
use bookmark_sync::native::{deletion_changed, upsert_changed};
use bookmark_sync::sync_flow::{close_push_repo, commit_message_at};
use bookmark_sync::url_ops::clean_url;

#[test]
fn native_message_bodies_parse_as_json() {
    let v = parse_native_message(br#"{"action":"delete","id":"b1","n":3}"#).unwrap();
    match v {
        JsonValue::Object(entries) => {
            assert_eq!(entries.len(), 3);
            assert_eq!(entries[0].0, "action");
            assert!(matches!(&entries[0].1, JsonValue::String(s) if s == "delete"));
            assert!(matches!(&entries[2].1, JsonValue::Number(n) if n == "3"));
        }
        _ => panic!("object expected"),
    }
    assert!(matches!(parse_native_message(b"[true, null]").unwrap(), JsonValue::Array(items) if items.len() == 2));
    assert!(parse_native_message(b"{not json").is_err());
    assert!(parse_native_message(b"").is_err());
}

#[test]
fn chromium_file_text_loses_the_bookmark_and_is_rewritten_pretty() {
    let content = r#"{"roots":{"bookmark_bar":{"children":[{"id":"2","type":"url"},{"id":"3","type":"url"}],"id":"1"}},"version":1}"#;
    let out = remove_chromium_bookmark_from_text(content, "2").unwrap().expect("a node was removed");
    let expected: serde_json::Value =
        serde_json::from_str(r#"{"roots":{"bookmark_bar":{"children":[{"id":"3","type":"url"}],"id":"1"}},"version":1}"#).unwrap();
    assert_eq!(out, serde_json::to_string_pretty(&expected).unwrap());
    assert!(out.contains("\n  \"roots\""));
    assert_eq!(remove_chromium_bookmark_from_text(&out, "2"), Ok(None));
    assert_eq!(remove_chromium_bookmark_from_text(content, "99"), Ok(None));
    assert!(remove_chromium_bookmark_from_text("not json", "2").is_err());
}

#[test]
fn commit_messages_carry_the_time() {
    assert_eq!(commit_message_at("2024-01-02T03:04:05+00:00"), "sync events 2024-01-02T03:04:05+00:00");
    let now = chrono::Utc::now().to_rfc3339();
    assert_eq!(commit_message_at(&now), format!("sync events {now}"));
}

#[test]
fn appending_after_a_full_current_file_seals_it_first() {
    let line = r#"{"event_id":"e1","timestamp":1}"#;
    let full: String = (0..1000).map(|_| format!("{line}\n")).collect();
    assert_eq!(count_event_lines(&full), 1000);
    assert!(needs_seal(full.len() as u64, count_event_lines(&full)));
    assert_eq!(next_sealed_segment_name(0), "events-000001.ndjson");
    let fresh = format!("{line}\n");
    assert_eq!(nonblank_lines(&fresh), vec![line.to_string()]);
    let partial: String = (0..999).map(|_| format!("{line}\n")).collect();
    assert!(!needs_seal(partial.len() as u64, count_event_lines(&partial)));
    let appended = format!("{partial}{fresh}");
    assert_eq!(count_event_lines(&appended), 1000);
    assert_eq!(nonblank_lines(&appended)[999], line);
}

#[test]
fn a_written_device_record_is_read_back_as_active() {
    let r = new_device_record(1_000_000, 1_700_000_000_000);
    let name = device_file_name("mac-home");
    let id = device_id_of_file(&name).expect("the file names its device");
    let seen = r.last_seen_ts;
    let active = filter_active_devices(vec![(id, r)], seen);
    assert_eq!(active.len(), 1);
    assert_eq!(active[0].0, "mac-home");
    assert_eq!(active[0].1.last_synced_ts, 1_000_000);
    assert!(filter_active_devices(vec![("mac-home".to_string(), r)], seen + 1).len() == 1);
}

const SAFARI_XML: &str = r#"<?xml version="1.0" encoding="UTF-8"?>
<!DOCTYPE plist PUBLIC "-//Apple//DTD PLIST 1.0//EN" "http://www.apple.com/DTDs/PropertyList-1.0.dtd">
<plist version="1.0">
<dict>
	<key>WebBookmarkType</key>
	<string>WebBookmarkTypeList</string>
	<key>Title</key>
	<string>Root</string>
	<key>Sync</key>
	<dict>
		<key>Count</key>
		<integer>7</integer>
		<key>Flag</key>
		<true/>
	</dict>
	<key>Children</key>
	<array>
		<dict>
			<key>WebBookmarkType</key>
			<string>WebBookmarkTypeLeaf</string>
			<key>WebBookmarkUUID</key>
			<string>U1</string>
			<key>URLString</key>
			<string>https://example.com</string>
		</dict>
		<dict>
			<key>WebBookmarkType</key>
			<string>WebBookmarkTypeLeaf</string>
			<key>WebBookmarkUUID</key>
			<string>U2</string>
			<key>URLString</key>
			<string>https://rust-lang.org</string>
		</dict>
	</array>
</dict>
</plist>
"#;

#[test]
fn safari_file_bytes_give_import_nodes() {
    let nodes = safari_nodes_from_bytes(SAFARI_XML.as_bytes()).unwrap();
    let ids: Vec<&str> = nodes.iter().map(|n| n.original_id.as_str()).collect();
    assert_eq!(ids, vec!["safari-root", "U1", "U2"]);
    assert_eq!(nodes[2].url, Some("https://rust-lang.org".to_string()));
    assert!(safari_nodes_from_bytes(b"not a plist").is_err());
    let array_root = b"<?xml version=\"1.0\"?><plist version=\"1.0\"><array/></plist>";
    assert_eq!(safari_nodes_from_bytes(array_root).unwrap().len(), 0);
}

#[test]
fn safari_file_bytes_lose_the_bookmark_and_keep_other_values() {
    let out = remove_safari_bookmark_from_bytes(SAFARI_XML.as_bytes(), "U2").unwrap().expect("a bookmark was removed");
    let mut expected = plist::Value::from_reader(std::io::Cursor::new(SAFARI_XML.as_bytes())).unwrap();
    expected.as_dictionary_mut().unwrap().get_mut("Children").unwrap().as_array_mut().unwrap().remove(1);
    let mut expected_bytes = Vec::new();
    expected.to_writer_xml(&mut expected_bytes).unwrap();
    assert_eq!(out, expected_bytes);
    let back = plist::Value::from_reader(std::io::Cursor::new(&out)).unwrap();
    let sync = back.as_dictionary().unwrap().get("Sync").unwrap().as_dictionary().unwrap();
    assert_eq!(sync.get("Count").unwrap().as_signed_integer(), Some(7));
    assert_eq!(sync.get("Flag").unwrap().as_boolean(), Some(true));
    assert_eq!(remove_safari_bookmark_from_bytes(&out, "U2"), Ok(None));
    assert!(remove_safari_bookmark_from_bytes(b"<plist", "U2").is_err());
}

#[test]
fn numbers_are_written_back_as_serde_json_writes_them() {
    let content = r#"{"children":[{"id":"2"},{"id":"3","n":1.5e3,"m":-7}]}"#;
    let out = remove_chromium_bookmark_from_text(content, "2").unwrap().unwrap();
    let expected: serde_json::Value = serde_json::from_str(r#"{"children":[{"id":"3","n":1500.0,"m":-7}]}"#).unwrap();
    assert_eq!(out, serde_json::to_string_pretty(&expected).unwrap());
}

#[test]
fn upsert_and_deletion_outcomes() {
    assert!(upsert_changed(1));
    assert!(!upsert_changed(0));
    assert!(deletion_changed(0, 1));
    assert!(deletion_changed(2, 0));
    assert!(!deletion_changed(0, 0));
    assert_eq!(close_push_repo(&None, Some("/r".to_string())), Some("/r".to_string()));
    assert_eq!(close_push_repo(&Some("0".to_string()), Some("/r".to_string())), None);
    assert_eq!(close_push_repo(&Some("1".to_string()), None), None);
}

#[test]
fn cleaning_a_cleaned_url_changes_nothing() {
    for raw in [
        "https://a.org/?utm_source=x&b=1#",
        "https://a.org/?ref=1#",
        "https://a.org/p?x=a+b&fbclid=9#top",
        "data:text/plain,hi  #",
        "not a url",
        "https://a.org/?q=%7e",
    ] {
        let once = clean_url(raw);
        assert_eq!(clean_url(&once), once, "{raw}");
    }
    assert_eq!(clean_url("https://a.org/?utm_source=x&b=1#"), "https://a.org/?b=1");
}
