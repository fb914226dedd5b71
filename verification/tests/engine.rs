use bunnysync::filemap::FileMap;
use bunnysync::model::{LocalFile, StorageObject, Timestamp};
use bunnysync::sync::{
    describe, direction_of, get_local_file_map, get_remote_file_map, is_in_sync, plan_pull,
    plan_push, steps, sync_to_local, sync_to_remote, Direction, Side, Step, SyncAction,
};

fn at(secs: i64) -> Timestamp {
    Timestamp { secs, nanos: 0 }
}

fn local(relative: &str, changed: i64, length: u64) -> LocalFile {
    LocalFile {
        relative_path: relative.to_string(),
        path: format!("/data/{}", relative),
        is_directory: false,
        last_changed: at(changed),
        length,
    }
}

fn local_dir(relative: &str) -> LocalFile {
    LocalFile {
        relative_path: relative.to_string(),
        path: format!("/data/{}", relative),
        is_directory: true,
        last_changed: at(0),
        length: 0,
    }
}

fn remote(path: &str, name: &str, changed: i64, length: u64) -> StorageObject {
    StorageObject {
        guid: "g".to_string(),
        storage_zone_name: "zone".to_string(),
        path: path.to_string(),
        object_name: name.to_string(),
        length,
        last_changed: at(changed),
        is_directory: false,
        date_created: at(0),
    }
}

fn remote_dir(path: &str, name: &str) -> StorageObject {
    StorageObject {
        guid: "g".to_string(),
        storage_zone_name: "zone".to_string(),
        path: path.to_string(),
        object_name: name.to_string(),
        length: 0,
        last_changed: at(0),
        is_directory: true,
        date_created: at(0),
    }
}

fn upload(key: &str, source: &str, destination: &str) -> SyncAction {
    SyncAction::Transfer {
        direction: Direction::Push,
        key: key.to_string(),
        source: source.to_string(),
        destination: destination.to_string(),
    }
}

fn download(key: &str, source: &str, destination: &str) -> SyncAction {
    SyncAction::Transfer {
        direction: Direction::Pull,
        key: key.to_string(),
        source: source.to_string(),
        destination: destination.to_string(),
    }
}

fn delete_remote(key: &str) -> SyncAction {
    SyncAction::Delete { side: Side::Remote, key: key.to_string(), path: key.to_string() }
}

fn delete_local(key: &str, path: &str) -> SyncAction {
    SyncAction::Delete { side: Side::Local, key: key.to_string(), path: path.to_string() }
}

fn actions(steps: &[Step]) -> Vec<SyncAction> {
    steps.iter().map(|s| s.action.clone()).collect()
}

fn keys<T>(map: &FileMap<T>) -> Vec<String> {
    (0..map.len()).map(|i| map.key(i).clone()).collect()
}

#[test]
fn in_sync_needs_a_destination_no_older_and_as_long() {
    assert!(is_in_sync(&at(10), 5, &at(10), 5));
    assert!(is_in_sync(&at(10), 5, &at(11), 5));
    assert!(!is_in_sync(&at(10), 5, &at(9), 5));
    assert!(!is_in_sync(&at(10), 5, &at(11), 6));
    let early = Timestamp { secs: 10, nanos: 1 };
    let late = Timestamp { secs: 10, nanos: 2 };
    assert!(is_in_sync(&early, 0, &late, 0));
    assert!(!is_in_sync(&late, 0, &early, 0));
    assert!(is_in_sync(&Timestamp { secs: -1, nanos: 999 }, 0, &Timestamp { secs: 0, nanos: 0 }, 0));
}

#[test]
fn timestamps_are_ordered_by_seconds_then_nanoseconds() {
    assert!(at(1).is_at_or_before(&at(1)));
    assert!(at(1).is_at_or_before(&at(2)));
    assert!(!at(2).is_at_or_before(&at(1)));
    assert!(Timestamp { secs: 1, nanos: 900 }.is_at_or_before(&Timestamp { secs: 2, nanos: 0 }));
    assert!(!Timestamp { secs: 2, nanos: 0 }.is_at_or_before(&Timestamp { secs: 1, nanos: 900 }));
}

#[test]
fn local_map_keeps_files_under_zone_keys() {
    let files = vec![
        local_dir(""),
        local("a.txt", 1, 1),
        local_dir("sub"),
        local("sub/b.txt", 1, 1),
        local("sub/skip.tmp", 1, 1),
    ];
    let map = get_local_file_map(&files, "zone", &["*.tmp".to_string()]);
    assert_eq!(keys(&map), vec!["/zone/a.txt", "/zone/sub/b.txt"]);
    assert_eq!(map.get(&"/zone/sub/b.txt".to_string()), Some(&files[3]));
    assert_eq!(map.get(&"/zone/sub/skip.tmp".to_string()), None);
    assert!(!map.contains_key(&"/zone/sub".to_string()));
}

#[test]
fn local_map_excludes_by_leaf_name_only() {
    let files = vec![local("cache/a.txt", 1, 1), local("a/cache", 1, 1)];
    let map = get_local_file_map(&files, "zone", &["cache".to_string()]);
    assert_eq!(keys(&map), vec!["/zone/cache/a.txt"]);
}

#[test]
fn remote_map_keeps_objects_under_their_keys() {
    let objects = vec![
        remote("/zone/", "a.txt", 1, 1),
        remote_dir("/zone/", "sub"),
        remote("/zone/sub/", "b.txt", 1, 1),
        remote("/zone/sub/", "b.log", 1, 1),
    ];
    let map = get_remote_file_map(&objects, &["*.log".to_string()]);
    assert_eq!(keys(&map), vec!["/zone/a.txt", "/zone/sub/b.txt"]);
    assert_eq!(map.get(&"/zone/a.txt".to_string()), Some(&objects[0]));
}

#[test]
fn a_later_entry_takes_the_place_of_an_earlier_one_with_its_key() {
    let objects = vec![
        remote("/zone/", "a.txt", 1, 1),
        remote("/zone/", "b.txt", 1, 1),
        remote("/zone/", "a.txt", 2, 9),
    ];
    let map = get_remote_file_map(&objects, &[]);
    assert_eq!(keys(&map), vec!["/zone/a.txt", "/zone/b.txt"]);
    assert_eq!(map.get(&"/zone/a.txt".to_string()), Some(&objects[2]));
    assert_eq!(map.len(), 2);
}

#[test]
fn push_with_delete_uploads_what_changed_and_deletes_what_is_gone() {
    let local_files = vec![local("a", 10, 3), local("b", 10, 3)];
    let remote_files = vec![remote("/zone/", "a", 20, 3), remote("/zone/", "c", 20, 3)];
    let run = sync_to_remote(&local_files, &remote_files, "zone://zone/", false, true, &[]);
    assert_eq!(
        actions(&run),
        vec![upload("/zone/b", "/data/b", "zone/"), delete_remote("/zone/c")]
    );
    assert!(run.iter().all(|s| s.perform));
    assert_eq!(run[0].report, "Updated: /data/b");
    assert_eq!(run[1].report, "Deleted: /zone/c");
}

#[test]
fn push_without_delete_leaves_what_is_gone() {
    let local_files = vec![local("a", 10, 3), local("b", 10, 3)];
    let remote_files = vec![remote("/zone/", "a", 20, 3), remote("/zone/", "c", 20, 3)];
    let run = sync_to_remote(&local_files, &remote_files, "zone://zone/", false, false, &[]);
    assert_eq!(actions(&run), vec![upload("/zone/b", "/data/b", "zone/")]);
}

#[test]
fn a_dry_run_decides_the_same_and_performs_nothing() {
    let local_files = vec![local("a", 30, 3), local("b", 10, 3)];
    let remote_files = vec![remote("/zone/", "a", 20, 3), remote("/zone/", "c", 20, 3)];
    let live = sync_to_remote(&local_files, &remote_files, "zone://zone/", false, true, &[]);
    let dry = sync_to_remote(&local_files, &remote_files, "zone://zone/", true, true, &[]);
    assert_eq!(actions(&dry), actions(&live));
    assert_eq!(dry.len(), 3);
    assert!(dry.iter().all(|s| !s.perform));
    assert!(live.iter().all(|s| s.perform));
    assert_eq!(dry[0].report, "Would update: /data/a");
    assert_eq!(dry[1].report, "Would update: /data/b");
    assert_eq!(dry[2].report, "Would delete: /zone/c");

    let live = sync_to_local(&local_files, &remote_files, "/data", "zone://zone/", false, true, &[]);
    let dry = sync_to_local(&local_files, &remote_files, "/data", "zone://zone/", true, true, &[]);
    assert_eq!(actions(&dry), actions(&live));
    assert!(dry.iter().all(|s| !s.perform));
    assert!(live.iter().all(|s| s.perform));
}

#[test]
fn a_second_push_after_a_finished_one_uploads_nothing() {
    let local_files = vec![local("a", 10, 3), local("sub/b", 12, 4)];
    // What the zone holds after the first run: each file under its key,
    // stamped with the time of its upload.
    let remote_files = vec![remote("/zone/", "a", 100, 3), remote("/zone/sub/", "b", 100, 4)];
    let run = sync_to_remote(&local_files, &remote_files, "zone://zone", false, true, &[]);
    assert_eq!(run, Vec::new());
}

#[test]
fn push_skips_an_older_file_of_the_same_length() {
    let local_files = vec![local("a", 10, 3)];
    let older_remote = vec![remote("/zone/", "a", 11, 3)];
    assert_eq!(sync_to_remote(&local_files, &older_remote, "zone", false, false, &[]), Vec::new());
    // A later remote time with the same length still skips.
    let newer_remote = vec![remote("/zone/", "a", 5000, 3)];
    assert_eq!(sync_to_remote(&local_files, &newer_remote, "zone", false, false, &[]), Vec::new());
    // The same time counts as up to date.
    let same_time = vec![remote("/zone/", "a", 10, 3)];
    assert_eq!(sync_to_remote(&local_files, &same_time, "zone", false, false, &[]), Vec::new());
}

#[test]
fn push_uploads_a_newer_file_and_one_of_another_length() {
    let local_files = vec![local("a", 10, 3), local("b", 10, 3)];
    let remote_files = vec![remote("/zone/", "a", 9, 3), remote("/zone/", "b", 50, 4)];
    let run = sync_to_remote(&local_files, &remote_files, "zone://zone", false, false, &[]);
    assert_eq!(
        actions(&run),
        vec![upload("/zone/a", "/data/a", "zone"), upload("/zone/b", "/data/b", "zone")]
    );
}

#[test]
fn push_sends_every_upload_to_the_destination_as_given() {
    let local_files = vec![local("x/a", 10, 3), local("y/b", 10, 3)];
    let run = sync_to_remote(&local_files, &[], "zone://zone/backup", false, false, &[]);
    assert_eq!(
        actions(&run),
        vec![
            upload("/zone/x/a", "/data/x/a", "zone/backup"),
            upload("/zone/y/b", "/data/y/b", "zone/backup"),
        ]
    );
}

#[test]
fn excluded_names_take_no_part_on_either_side() {
    let local_files = vec![local("a.tmp", 10, 3), local("b", 10, 3)];
    let remote_files = vec![remote("/zone/", "c.tmp", 1, 1), remote("/zone/", "d", 1, 1)];
    let exclude = vec!["*.tmp".to_string()];
    let run = sync_to_remote(&local_files, &remote_files, "zone://zone", false, true, &exclude);
    assert_eq!(
        actions(&run),
        vec![upload("/zone/b", "/data/b", "zone"), delete_remote("/zone/d")]
    );
}

#[test]
fn pull_downloads_what_is_newer_remotely_and_deletes_what_is_gone() {
    let local_files = vec![local("a", 10, 3), local("b", 10, 3), local("old", 10, 3)];
    let remote_files = vec![
        remote("/zone/", "a", 5, 3),
        remote("/zone/", "b", 20, 3),
        remote_dir("/zone/", "sub"),
        remote("/zone/sub/", "c", 20, 3),
    ];
    let run = sync_to_local(&local_files, &remote_files, "/data", "zone://zone/", false, true, &[]);
    assert_eq!(
        actions(&run),
        vec![
            download("/zone/b", "/zone//b", "/data/b"),
            download("/zone/sub/c", "/zone/sub//c", "/data/sub/c"),
            delete_local("/zone/old", "/data/old"),
        ]
    );
    assert_eq!(run[0].report, "Updated: /zone/b -> /data/b");
    assert_eq!(run[2].report, "Deleted: /zone/old");
    let dry = sync_to_local(&local_files, &remote_files, "/data", "zone://zone/", true, true, &[]);
    assert_eq!(dry[1].report, "Would update: /zone/sub/c -> /data/sub/c");
    assert_eq!(dry[2].report, "Would delete: /zone/old");
}

#[test]
fn pull_without_delete_leaves_local_files() {
    let local_files = vec![local("old", 10, 3)];
    let run = sync_to_local(&local_files, &[], "/data", "zone://zone/", false, false, &[]);
    assert_eq!(run, Vec::new());
}

#[test]
fn pull_skips_a_local_file_that_is_no_older() {
    let local_files = vec![local("a", 10, 3)];
    let remote_files = vec![remote("/zone/", "a", 10, 3)];
    let run = sync_to_local(&local_files, &remote_files, "/data", "zone", false, false, &[]);
    assert_eq!(run, Vec::new());
    let changed_length = vec![remote("/zone/", "a", 1, 4)];
    let run = sync_to_local(&local_files, &changed_length, "/data", "zone", false, false, &[]);
    assert_eq!(actions(&run), vec![download("/zone/a", "/zone//a", "/data/a")]);
}

#[test]
fn plans_follow_the_order_of_the_maps() {
    let local_map = get_local_file_map(&[local("b", 1, 1), local("a", 1, 1)], "zone", &[]);
    let remote_map =
        get_remote_file_map(&[remote("/zone/", "z", 1, 1), remote("/zone/", "y", 1, 1)], &[]);
    let plan = plan_push(&local_map, &remote_map, "zone", true);
    assert_eq!(
        plan,
        vec![
            upload("/zone/b", "/data/b", "zone"),
            upload("/zone/a", "/data/a", "zone"),
            delete_remote("/zone/z"),
            delete_remote("/zone/y"),
        ]
    );
    let plan = plan_pull(&local_map, &remote_map, "/data/", "zone", true);
    assert_eq!(
        plan,
        vec![
            download("/zone/z", "/zone//z", "/data/z"),
            download("/zone/y", "/zone//y", "/data/y"),
            delete_local("/zone/b", "/data/b"),
            delete_local("/zone/a", "/data/a"),
        ]
    );
}

#[test]
fn steps_carry_the_report_of_each_action() {
    let plan = vec![upload("/zone/a", "/data/a", "zone"), delete_remote("/zone/c")];
    let run = steps(&plan, false);
    assert_eq!(
        run,
        vec![
            Step { action: plan[0].clone(), perform: true, report: "Updated: /data/a".to_string() },
            Step { action: plan[1].clone(), perform: true, report: "Deleted: /zone/c".to_string() },
        ]
    );
    assert_eq!(describe(&plan[0], true), "Would update: /data/a");
    assert_eq!(describe(&plan[1], true), "Would delete: /zone/c");
    assert_eq!(plan[0].copy(), plan[0]);
}

#[test]
fn the_direction_follows_the_zone_marker() {
    assert_eq!(direction_of("./site", "zone://myzone/"), Some(Direction::Push));
    assert_eq!(direction_of("zone://myzone/", "./site"), Some(Direction::Pull));
    assert_eq!(direction_of("zone://a", "zone://b"), None);
    assert_eq!(direction_of("./a", "./b"), None);
}

#[test]
fn file_map_keeps_each_key_once() {
    let mut map: FileMap<u32> = FileMap::new();
    assert_eq!(map.len(), 0);
    map.insert("a".to_string(), 1);
    map.insert("b".to_string(), 2);
    map.insert("a".to_string(), 3);
    assert_eq!(map.len(), 2);
    assert_eq!(map.key(0), "a");
    assert_eq!(*map.value(0), 3);
    assert_eq!(map.key(1), "b");
    assert_eq!(map.get(&"b".to_string()), Some(&2));
    assert_eq!(map.get(&"c".to_string()), None);
    assert_eq!(map.position(&"b".to_string()), 1);
    assert_eq!(map.position(&"zz".to_string()), 2);
    assert!(map.contains_key(&"a".to_string()));
    assert!(!map.contains_key(&"".to_string()));
}

#[test]
fn a_directory_is_recorded_with_no_size() {
    let dir = LocalFile::new("sub".to_string(), "/data/sub".to_string(), true, at(5), 4096);
    assert_eq!(
        dir,
        LocalFile {
            relative_path: "sub".to_string(),
            path: "/data/sub".to_string(),
            is_directory: true,
            last_changed: at(5),
            length: 0,
        }
    );
    let file = LocalFile::new("a".to_string(), "/data/a".to_string(), false, at(5), 4096);
    assert_eq!(file.length, 4096);
    assert_eq!(file.copy(), file);
}
