//! The startup scenario: a root directory `D` with an empty file `a.txt` and
//! an empty subdirectory `sub`, watched non-recursively with depth 1.

use riptail::dispatch::PathInfo;
use riptail::dispatch::handle_event;
use riptail::fstree::FsNode;
use riptail::registry::WatchRegistry;
use riptail::tail::TailAction;
use riptail::tail::TailEvent;
use riptail::tail::TailState;

#[test]
fn bootstrap_then_append_then_late_subdirectory_file() {
    let mut reg = WatchRegistry::new();

    // Bootstrap: discovery over D at depth 1 finds a.txt only.
    let snapshot = FsNode::Directory {
        name: "D".to_owned(),
        entries: vec![
            FsNode::RegularFile { name: "a.txt".to_owned() },
            FsNode::Directory { name: "sub".to_owned(), entries: vec![] },
        ],
    };
    let info = PathInfo::Directory { canon: "/D".to_owned(), snapshot };
    let spawn = handle_event(&mut reg, &info, 1);
    assert_eq!(spawn, vec!["/D/a.txt".to_owned()]);

    // a.txt is empty: its task sees no data and just polls. No output yet.
    let mut task = TailState::new(spawn[0].clone(), 0);
    let act = task.step(TailEvent::NoData { now_ms: 100 });
    assert!(matches!(act, TailAction::Sleep));

    // "hello\n" is appended: the output record is D/a.txt, line 1, "hello".
    let act = task.step(TailEvent::Data { bytes: b"hello\n".to_vec(), now_ms: 200 });
    match act {
        TailAction::Emit { record } => {
            assert_eq!(record.source_path, "/D/a.txt");
            assert_eq!(record.line_number, 1);
            assert_eq!(record.text, "hello");
        }
        _ => panic!("the appended line was not emitted"),
    }

    // sub/b.txt is created afterwards. Watching D non-recursively, the only
    // notification is for D/sub at the moment it was created — when it was
    // still empty — and no event ever names b.txt. Discovery on that
    // notification finds nothing: the depth/recursion boundary holds.
    let sub_snapshot = FsNode::Directory { name: "sub".to_owned(), entries: vec![] };
    let sub_info = PathInfo::Directory { canon: "/D/sub".to_owned(), snapshot: sub_snapshot };
    let spawn = handle_event(&mut reg, &sub_info, 1);
    assert!(spawn.is_empty());

    // Even a duplicate notification for D itself re-registers nothing.
    let snapshot_again = FsNode::Directory {
        name: "D".to_owned(),
        entries: vec![
            FsNode::RegularFile { name: "a.txt".to_owned() },
            FsNode::Directory { name: "sub".to_owned(), entries: vec![] },
        ],
    };
    let info_again = PathInfo::Directory { canon: "/D".to_owned(), snapshot: snapshot_again };
    let spawn = handle_event(&mut reg, &info_again, 1);
    assert!(spawn.is_empty());
}
