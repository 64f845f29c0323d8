use riptail::dispatch::PathInfo;
use riptail::dispatch::handle_event;
use riptail::fstree::FsNode;
use riptail::fstree::discover;
use riptail::registry::WatchRegistry;

fn file(name: &str) -> FsNode {
    FsNode::RegularFile { name: name.to_owned() }
}

fn dir(name: &str, entries: Vec<FsNode>) -> FsNode {
    FsNode::Directory { name: name.to_owned(), entries }
}

#[test]
fn registry_insert_if_absent() {
    let mut reg = WatchRegistry::new();
    assert!(reg.try_register("/var/log/a.log".to_owned()));
    assert!(!reg.try_register("/var/log/a.log".to_owned()));
    assert!(reg.try_register("/var/log/b.log".to_owned()));
    assert!(!reg.try_register("/var/log/b.log".to_owned()));
    assert!(!reg.try_register("/var/log/a.log".to_owned()));
}

#[test]
fn discover_root_file_is_singleton() {
    let root = file("x.txt");
    let found = discover(&"/logs/x.txt".to_owned(), &root, 5);
    assert_eq!(found, vec!["/logs/x.txt".to_owned()]);
}

#[test]
fn discover_depth_one_keeps_immediate_children_only() {
    // D holds a.txt and an empty subdirectory.
    let root = dir("D", vec![file("a.txt"), dir("sub", vec![])]);
    let found = discover(&"/D".to_owned(), &root, 1);
    assert_eq!(found, vec!["/D/a.txt".to_owned()]);
}

#[test]
fn discover_depth_two_never_returns_level_three() {
    // Three levels below the root: a.txt at 1, b.txt at 2, c.txt at 3.
    let root = dir(
        "D",
        vec![
            file("a.txt"),
            dir("one", vec![file("b.txt"), dir("two", vec![file("c.txt")])]),
        ],
    );
    let found = discover(&"/D".to_owned(), &root, 2);
    assert_eq!(found, vec!["/D/a.txt".to_owned(), "/D/one/b.txt".to_owned()]);

    let deeper = discover(&"/D".to_owned(), &root, 3);
    assert_eq!(
        deeper,
        vec![
            "/D/a.txt".to_owned(),
            "/D/one/b.txt".to_owned(),
            "/D/one/two/c.txt".to_owned(),
        ]
    );
}

#[test]
fn dispatch_ignores_missing_paths() {
    let mut reg = WatchRegistry::new();
    let spawn = handle_event(&mut reg, &PathInfo::Absent, 1);
    assert!(spawn.is_empty());
    // Nothing was registered by the absent path.
    assert!(reg.try_register("/D/a.txt".to_owned()));
}

#[test]
fn dispatch_spawns_a_new_file_exactly_once() {
    let mut reg = WatchRegistry::new();
    let info = PathInfo::RegularFile { canon: "/D/a.txt".to_owned() };
    let spawn = handle_event(&mut reg, &info, 1);
    assert_eq!(spawn, vec!["/D/a.txt".to_owned()]);
    // A duplicate notification for the same path is a no-op.
    let again = handle_event(&mut reg, &info, 1);
    assert!(again.is_empty());
}

#[test]
fn dispatch_directory_event_registers_discovered_files() {
    let mut reg = WatchRegistry::new();
    let snapshot = dir("logs", vec![file("a.log"), dir("sub", vec![file("b.log")])]);
    let info = PathInfo::Directory { canon: "/logs".to_owned(), snapshot };
    let spawn = handle_event(&mut reg, &info, 2);
    assert_eq!(spawn, vec!["/logs/a.log".to_owned(), "/logs/sub/b.log".to_owned()]);
    // Re-running discovery on the same tree spawns nothing new.
    let snapshot2 = dir("logs", vec![file("a.log"), dir("sub", vec![file("b.log")])]);
    let info2 = PathInfo::Directory { canon: "/logs".to_owned(), snapshot: snapshot2 };
    let again = handle_event(&mut reg, &info2, 2);
    assert!(again.is_empty());
}

#[test]
fn dispatch_spawns_only_the_unregistered_part_of_a_batch() {
    let mut reg = WatchRegistry::new();
    let first = PathInfo::RegularFile { canon: "/logs/a.log".to_owned() };
    assert_eq!(handle_event(&mut reg, &first, 1), vec!["/logs/a.log".to_owned()]);
    let snapshot = dir("logs", vec![file("a.log"), file("c.log")]);
    let info = PathInfo::Directory { canon: "/logs".to_owned(), snapshot };
    let spawn = handle_event(&mut reg, &info, 1);
    assert_eq!(spawn, vec!["/logs/c.log".to_owned()]);
}
