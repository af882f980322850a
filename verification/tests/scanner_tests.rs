use bookmark_sync::json::{remove_chromium_bookmark_from_value, JsonValue};
use bookmark_sync::plist::{remove_safari_bookmark_from_value, safari_import_nodes, PlistValue};
use bookmark_sync::scanner::{
    chrome_import_nodes, delete_bookmark_in_browser, parse_browser_stable_id, scan_all_nodes, stable_id, BrowserDeletion,
    ChromeBookmarkNode, ImportNode,
};

fn s(t: &str) -> JsonValue {
    JsonValue::String(t.to_string())
}

fn obj(entries: Vec<(&str, JsonValue)>) -> JsonValue {
    JsonValue::Object(entries.into_iter().map(|(k, v)| (k.to_string(), v)).collect())
}

fn member<'a>(v: &'a JsonValue, key: &str) -> Option<&'a JsonValue> {
    match v {
        JsonValue::Object(entries) => entries.iter().find(|(k, _)| k == key).map(|(_, v)| v),
        _ => None,
    }
}

#[test]
fn parse_browser_stable_id_should_parse_prefix_and_id() {
    let parsed = parse_browser_stable_id("chrome-123").expect("should parse");
    assert_eq!(parsed.0.as_str(), "chrome");
    assert_eq!(parsed.1.as_str(), "123");
    assert!(parse_browser_stable_id("local-id").is_none());
}

#[test]
fn remove_chromium_bookmark_from_value_should_remove_matching_node() {
    let mut value = obj(vec![(
        "roots",
        obj(vec![(
            "bookmark_bar",
            obj(vec![
                ("id", s("1")),
                ("type", s("folder")),
                ("name", s("bar")),
                (
                    "children",
                    JsonValue::Array(vec![
                        obj(vec![("id", s("2")), ("type", s("url")), ("name", s("target")), ("url", s("https://example.com"))]),
                        obj(vec![("id", s("3")), ("type", s("url")), ("name", s("other")), ("url", s("https://rust-lang.org"))]),
                    ]),
                ),
            ]),
        )]),
    )]);
    let removed = remove_chromium_bookmark_from_value(&mut value, "2");
    assert!(removed);
    let bar = member(member(&value, "roots").unwrap(), "bookmark_bar").unwrap();
    let children = match member(bar, "children") {
        Some(JsonValue::Array(items)) => items,
        _ => panic!("children array"),
    };
    assert_eq!(children.len(), 1);
    assert!(matches!(member(&children[0], "id"), Some(JsonValue::String(id)) if id == "3"));
}

#[test]
fn chromium_removal_reaches_nested_folders_and_reports_absence() {
    let mut value = obj(vec![(
        "children",
        JsonValue::Array(vec![obj(vec![
            ("id", s("10")),
            ("children", JsonValue::Array(vec![obj(vec![("id", s("11"))]), obj(vec![("id", s("12"))])])),
        ])]),
    )]);
    assert!(remove_chromium_bookmark_from_value(&mut value, "12"));
    assert!(!remove_chromium_bookmark_from_value(&mut value, "12"));
    let outer = match member(&value, "children") {
        Some(JsonValue::Array(items)) => items,
        _ => panic!("children"),
    };
    let inner = match member(&outer[0], "children") {
        Some(JsonValue::Array(items)) => items,
        _ => panic!("inner children"),
    };
    assert_eq!(inner.len(), 1);
}

#[test]
fn stable_ids_are_case_insensitive_in_the_browser_part() {
    assert_eq!(parse_browser_stable_id("Safari-ABC-1"), Some(("safari".to_string(), "ABC-1".to_string())));
    assert!(parse_browser_stable_id("edge-").is_none());
    assert!(parse_browser_stable_id("chrome").is_none());
    assert_eq!(stable_id("Chrome", "42"), "chrome-42");
    for b in ["chrome", "edge", "safari"] {
        let id = stable_id(b, "a-b");
        assert_eq!(parse_browser_stable_id(&id), Some((b.to_string(), "a-b".to_string())));
    }
}

#[test]
fn browser_deletion_goes_to_the_right_file() {
    assert_eq!(
        delete_bookmark_in_browser("chrome-5"),
        Some(BrowserDeletion::Chromium { profile_folder: "Google/Chrome".to_string(), original_id: "5".to_string() })
    );
    assert_eq!(
        delete_bookmark_in_browser("edge-7"),
        Some(BrowserDeletion::Chromium { profile_folder: "Microsoft Edge".to_string(), original_id: "7".to_string() })
    );
    assert_eq!(delete_bookmark_in_browser("safari-X"), Some(BrowserDeletion::Safari { original_id: "X".to_string() }));
    assert_eq!(delete_bookmark_in_browser("local-1"), None);
}

fn chrome(id: &str, name: &str, url: Option<&str>, children: Option<Vec<ChromeBookmarkNode>>) -> ChromeBookmarkNode {
    ChromeBookmarkNode {
        id: id.to_string(),
        name: name.to_string(),
        url: url.map(|u| u.to_string()),
        node_type: if children.is_some() { "folder".to_string() } else { "url".to_string() },
        children,
    }
}

#[test]
fn chromium_tree_is_flattened_depth_first_with_parents() {
    let root = chrome(
        "1",
        "bar",
        None,
        Some(vec![
            chrome("2", "dev", None, Some(vec![chrome("3", "Rust", Some("https://rust-lang.org"), None)])),
            chrome("4", "News", Some("https://news.ycombinator.com"), None),
        ]),
    );
    let nodes = chrome_import_nodes(&vec![root], "Chrome");
    let ids: Vec<&str> = nodes.iter().map(|n| n.original_id.as_str()).collect();
    assert_eq!(ids, vec!["1", "2", "3", "4"]);
    assert_eq!(nodes[0].parent_original_id, None);
    assert_eq!(nodes[2].parent_original_id, Some("2".to_string()));
    assert_eq!(nodes[3].parent_original_id, Some("1".to_string()));
    assert!(nodes[0].is_folder && nodes[1].is_folder && !nodes[2].is_folder);
    assert_eq!(nodes[2].url, Some("https://rust-lang.org".to_string()));
    assert!(nodes.iter().all(|n| n.browser == "Chrome"));
}

fn node(id: &str) -> ImportNode {
    ImportNode {
        original_id: id.to_string(),
        parent_original_id: None,
        title: id.to_string(),
        url: None,
        is_folder: true,
        browser: "Chrome".to_string(),
    }
}

#[test]
fn scans_are_joined_and_failed_scans_add_nothing() {
    let all = scan_all_nodes(Ok(vec![node("a")]), Err("Not found".to_string()), Ok(vec![node("b"), node("c")]));
    let ids: Vec<&str> = all.iter().map(|n| n.original_id.as_str()).collect();
    assert_eq!(ids, vec!["a", "b", "c"]);
}

fn ps(t: &str) -> PlistValue {
    PlistValue::String(t.to_string())
}

fn dict(entries: Vec<(&str, PlistValue)>) -> PlistValue {
    PlistValue::Dict(entries.into_iter().map(|(k, v)| (k.to_string(), v)).collect())
}

fn safari_tree() -> PlistValue {
    dict(vec![
        ("WebBookmarkType", ps("WebBookmarkTypeList")),
        ("Title", ps("Root")),
        (
            "Children",
            PlistValue::Array(vec![
                dict(vec![
                    ("WebBookmarkType", ps("WebBookmarkTypeLeaf")),
                    ("WebBookmarkUUID", ps("U1")),
                    ("URLString", ps("https://example.com")),
                    ("URIDictionary", dict(vec![("title", ps("Example"))])),
                ]),
                dict(vec![
                    ("WebBookmarkType", ps("WebBookmarkTypeLeaf")),
                    ("WebBookmarkUUID", ps("U2")),
                    ("URLString", ps("https://rust-lang.org")),
                ]),
                dict(vec![("WebBookmarkType", ps("WebBookmarkTypeLeaf")), ("WebBookmarkUUID", ps("U3"))]),
            ]),
        ),
    ])
}

#[test]
fn safari_tree_gives_folders_and_leaves_with_urls() {
    let nodes = safari_import_nodes(&safari_tree());
    assert_eq!(nodes.len(), 3);
    assert_eq!(nodes[0].original_id, "safari-root");
    assert_eq!(nodes[0].title, "Root");
    assert!(nodes[0].is_folder);
    assert_eq!(nodes[1].original_id, "U1");
    assert_eq!(nodes[1].title, "Example");
    assert_eq!(nodes[1].parent_original_id, Some("safari-root".to_string()));
    assert_eq!(nodes[2].title, "https://rust-lang.org");
    assert!(nodes.iter().all(|n| n.browser == "Safari"));
}

#[test]
fn safari_removal_takes_out_the_leaf() {
    let mut tree = safari_tree();
    assert!(remove_safari_bookmark_from_value(&mut tree, "U2"));
    assert!(!remove_safari_bookmark_from_value(&mut tree, "U2"));
    let nodes = safari_import_nodes(&tree);
    let ids: Vec<&str> = nodes.iter().map(|n| n.original_id.as_str()).collect();
    assert_eq!(ids, vec!["safari-root", "U1"]);
}
