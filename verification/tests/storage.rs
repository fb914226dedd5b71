use bunnysync::model::{StorageObject, Timestamp};
use bunnysync::paths::{strip_zone_prefix, zone_name};
use bunnysync::remote::{base_url, check_status, object_url, Operation, RemoteError, RemoteWalk};

fn at(secs: i64) -> Timestamp {
    Timestamp { secs, nanos: 0 }
}

fn entry(path: &str, name: &str, is_directory: bool) -> StorageObject {
    StorageObject {
        guid: String::new(),
        storage_zone_name: "zone".to_string(),
        path: path.to_string(),
        object_name: name.to_string(),
        length: if is_directory { 0 } else { 7 },
        last_changed: at(100),
        is_directory,
        date_created: at(50),
    }
}

#[test]
fn test_base_url() {
    assert_eq!(
        base_url("uk"),
        Some("https://uk.storage.bunnycdn.com".to_string())
    );
    assert_eq!(
        base_url("de"),
        Some("https://storage.bunnycdn.com".to_string())
    );
    assert_eq!(base_url("invalid"), None);
}

#[test]
fn test_zone_name() {
    assert_eq!(zone_name("test/"), "test");
    assert_eq!(zone_name("test/foo/bar"), "test");
    assert_eq!(zone_name("/test/foo/bar/"), "test");
}

#[test]
fn test_strip_zone_prefix() {
    assert_eq!(strip_zone_prefix("zone://test/path"), "test/path");
    assert_eq!(strip_zone_prefix("test/path"), "test/path");
}

#[test]
fn base_url_knows_every_region() {
    assert_eq!(base_url("us_ny"), Some("https://ny.storage.bunnycdn.com".to_string()));
    assert_eq!(base_url("ny"), Some("https://ny.storage.bunnycdn.com".to_string()));
    assert_eq!(base_url("us_la"), Some("https://la.storage.bunnycdn.com".to_string()));
    assert_eq!(base_url("la"), Some("https://la.storage.bunnycdn.com".to_string()));
    assert_eq!(base_url("sg"), Some("https://sg.storage.bunnycdn.com".to_string()));
    assert_eq!(base_url("se"), Some("https://se.storage.bunnycdn.com".to_string()));
    assert_eq!(base_url("br"), Some("https://br.storage.bunnycdn.com".to_string()));
    assert_eq!(base_url("sa"), Some("https://ja.storage.bunnycdn.com".to_string()));
    assert_eq!(base_url("au"), Some("https://syd.storage.bunnycdn.com".to_string()));
    assert_eq!(base_url("au_syd"), Some("https://syd.storage.bunnycdn.com".to_string()));
    assert_eq!(base_url("syd"), Some("https://syd.storage.bunnycdn.com".to_string()));
    assert_eq!(base_url(""), Some("https://storage.bunnycdn.com".to_string()));
    assert_eq!(base_url("UK"), None);
    assert_eq!(base_url("uk "), None);
    assert_eq!(base_url("u"), None);
}

#[test]
fn zone_name_of_paths_without_a_segment() {
    assert_eq!(zone_name(""), "");
    assert_eq!(zone_name("/"), "");
    assert_eq!(zone_name("///"), "");
    assert_eq!(zone_name("///a//b"), "a");
    assert_eq!(zone_name("ゾーン/x"), "ゾーン");
}

#[test]
fn strip_zone_prefix_takes_the_marker_once() {
    assert_eq!(strip_zone_prefix("zone://zone://a"), "zone://a");
    assert_eq!(strip_zone_prefix("zone://"), "");
    assert_eq!(strip_zone_prefix("zone:/a"), "zone:/a");
    assert_eq!(strip_zone_prefix(""), "");
    assert_eq!(strip_zone_prefix("azone://b"), "azone://b");
}

#[test]
fn object_url_joins_with_one_separator() {
    assert_eq!(
        object_url("https://storage.bunnycdn.com", "myzone/a.txt"),
        "https://storage.bunnycdn.com/myzone/a.txt"
    );
    assert_eq!(object_url("b", ""), "b/");
}

#[test]
fn check_status_tells_the_answers_apart() {
    assert_eq!(check_status(Operation::Get, 200, "u", "p"), Ok(()));
    assert_eq!(check_status(Operation::Put, 201, "u", "p"), Ok(()));
    assert_eq!(check_status(Operation::Put, 299, "u", "p"), Ok(()));
    assert_eq!(check_status(Operation::List, 401, "u", "p"), Err(RemoteError::Unauthorized));
    assert_eq!(
        check_status(Operation::List, 404, "u", "p"),
        Err(RemoteError::NotFound { path: "p".to_string() })
    );
    assert_eq!(
        check_status(Operation::Delete, 403, "u", "p"),
        Err(RemoteError::Forbidden { path: "p".to_string() })
    );
    assert_eq!(
        check_status(Operation::Get, 500, "u", "p"),
        Err(RemoteError::Failed { operation: Operation::Get, url: "u".to_string(), status: 500 })
    );
    assert_eq!(
        check_status(Operation::Get, 300, "u", "p"),
        Err(RemoteError::Failed { operation: Operation::Get, url: "u".to_string(), status: 300 })
    );
    assert_eq!(
        check_status(Operation::Get, 199, "u", "p"),
        Err(RemoteError::Failed { operation: Operation::Get, url: "u".to_string(), status: 199 })
    );
}

#[test]
fn failures_have_their_lines() {
    assert_eq!(RemoteError::Unauthorized.message(), "Remote unauthorized");
    assert_eq!(
        RemoteError::NotFound { path: "zone/a".to_string() }.message(),
        "Not found: Path zone/a does not exist"
    );
    assert_eq!(
        RemoteError::Forbidden { path: "zone/a".to_string() }.message(),
        "Forbidden: Access denied to path zone/a"
    );
    let failed = |operation: Operation, status: u16| RemoteError::Failed {
        operation,
        url: "https://h/zone/a".to_string(),
        status,
    };
    assert_eq!(
        failed(Operation::List, 500).message(),
        "Failed to get objects from https://h/zone/a: HTTP 500"
    );
    assert_eq!(
        failed(Operation::Put, 507).message(),
        "Failed to put object to https://h/zone/a: HTTP 507"
    );
    assert_eq!(
        failed(Operation::Get, 9).message(),
        "Failed to get object from https://h/zone/a: HTTP 9"
    );
    assert_eq!(
        failed(Operation::Delete, 65535).message(),
        "Failed to delete object from https://h/zone/a: HTTP 65535"
    );
    assert_eq!(
        failed(Operation::Delete, 0).message(),
        "Failed to delete object from https://h/zone/a: HTTP 0"
    );
    assert_eq!(
        failed(Operation::Delete, 1000).message(),
        "Failed to delete object from https://h/zone/a: HTTP 1000"
    );
}

#[test]
fn storage_object_paths() {
    let object = entry("/zone/sub/", "a.txt", false);
    assert_eq!(object.sync_key(), "/zone/sub/a.txt");
    assert_eq!(object.child_path(), "/zone/sub/a.txt/");
    assert_eq!(object.object_path(), "/zone/sub//a.txt");
    assert_eq!(object.copy(), object);
}

/// Lists `path` in a tree of two levels: the root holds a file and one
/// sub-directory, which holds a file.
fn list_two_levels(path: &str) -> Vec<StorageObject> {
    if path == "zone/" {
        vec![entry("/zone/", "top.txt", false), entry("/zone/", "sub", true)]
    } else if path == "/zone/sub/" {
        vec![entry("/zone/sub/", "deep.txt", false)]
    } else {
        panic!("a path was listed that the tree does not hold: {}", path)
    }
}

#[test]
fn walk_finds_a_nested_directory_with_two_listings() {
    let mut walk = RemoteWalk::new("zone/");
    let mut listed: Vec<String> = Vec::new();
    while let Some(path) = walk.next_path() {
        let records = list_two_levels(&path);
        listed.push(path);
        walk.record(records);
    }
    assert_eq!(listed, vec!["zone/".to_string(), "/zone/sub/".to_string()]);
    let objects = walk.into_objects();
    assert_eq!(
        objects,
        vec![
            entry("/zone/", "top.txt", false),
            entry("/zone/", "sub", true),
            entry("/zone/sub/", "deep.txt", false),
        ]
    );
}

#[test]
fn walk_of_an_empty_zone_lists_the_root_only() {
    let mut walk = RemoteWalk::new("zone/");
    assert_eq!(walk.next_path(), Some("zone/".to_string()));
    walk.record(Vec::new());
    assert_eq!(walk.next_path(), None);
    assert_eq!(walk.next_path(), None);
    assert_eq!(walk.into_objects(), Vec::new());
}

#[test]
fn walk_lists_the_directory_found_last_first() {
    let mut walk = RemoteWalk::new("zone/");
    assert_eq!(walk.next_path(), Some("zone/".to_string()));
    walk.record(vec![
        entry("/zone/", "a", true),
        entry("/zone/", "f", false),
        entry("/zone/", "b", true),
    ]);
    assert_eq!(walk.next_path(), Some("/zone/b/".to_string()));
    walk.record(vec![entry("/zone/b/", "c", true)]);
    assert_eq!(walk.next_path(), Some("/zone/b/c/".to_string()));
    walk.record(Vec::new());
    assert_eq!(walk.next_path(), Some("/zone/a/".to_string()));
    walk.record(vec![entry("/zone/a/", "g", false)]);
    assert_eq!(walk.next_path(), None);
    let names: Vec<String> = walk.into_objects().into_iter().map(|o| o.object_name).collect();
    assert_eq!(names, vec!["a", "f", "b", "c", "g"]);
}
