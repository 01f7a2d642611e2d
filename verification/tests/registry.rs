//! Tests of the process registry and of the signal bridge.

use std::sync::atomic::{AtomicBool, Ordering};
use std::sync::Arc;

use nanny::children::{Children, PollStatus, ProcHandle};
use nanny::signal::register_child_hook;

#[test]
fn insert_of_distinct_ids_grows_the_registry() {
    let mut c = Children::new();
    assert!(c.is_empty());
    assert!(c.insert(ProcHandle { pid: 10 }));
    assert!(c.insert(ProcHandle { pid: 11 }));
    assert_eq!(c.len(), 2);
    assert!(c.contains(10));
    assert!(c.contains(11));
}

#[test]
fn insert_of_a_colliding_id_reports_it_and_keeps_the_length() {
    let mut c = Children::new();
    assert!(c.insert(ProcHandle { pid: 5 }));
    assert!(!c.insert(ProcHandle { pid: 5 }));
    assert_eq!(c.len(), 1);
}

#[test]
fn reap_removes_exactly_the_exited_entry() {
    let mut c = Children::new();
    c.insert(ProcHandle { pid: 1 });
    c.insert(ProcHandle { pid: 2 });
    c.insert(ProcHandle { pid: 3 });
    c.insert(ProcHandle { pid: 4 });
    let polls = vec![
        (1, PollStatus::Running),
        (2, PollStatus::Exited),
        (3, PollStatus::QueryFailed),
    ];
    c.reap(&polls);
    assert_eq!(c.len(), 3);
    assert!(c.contains(1));
    assert!(!c.contains(2));
    assert!(c.contains(3)); // retained: the status query itself failed
    assert!(c.contains(4)); // retained: not polled at all
}

#[test]
fn reap_with_no_exits_changes_nothing() {
    let mut c = Children::new();
    c.insert(ProcHandle { pid: 7 });
    c.reap(&vec![(7, PollStatus::Running)]);
    assert_eq!(c.len(), 1);
    c.reap(&vec![]);
    assert_eq!(c.len(), 1);
}

#[test]
fn merge_prefers_the_incoming_registry() {
    let mut a = Children::new();
    a.insert(ProcHandle { pid: 1 });
    a.insert(ProcHandle { pid: 2 });
    let mut b = Children::new();
    b.insert(ProcHandle { pid: 2 });
    b.insert(ProcHandle { pid: 3 });
    a.merge(b);
    assert_eq!(a.len(), 3);
    assert!(a.contains(1));
    assert!(a.contains(2));
    assert!(a.contains(3));
}

#[test]
fn extend_with_absorbs_and_overwrites() {
    let mut c = Children::new();
    c.insert(ProcHandle { pid: 1 });
    c.extend_with(vec![ProcHandle { pid: 1 }, ProcHandle { pid: 2 }]);
    assert_eq!(c.len(), 2);
    assert!(c.contains(1));
    assert!(c.contains(2));
}

#[test]
fn from_handles_keeps_one_entry_per_id() {
    let handles = vec![
        ProcHandle { pid: 1 },
        ProcHandle { pid: 2 },
        ProcHandle { pid: 2 },
    ];
    let c = Children::from_handles(handles);
    assert_eq!(c.len(), 2);
}

#[test]
fn empty_scan_yields_an_empty_registry() {
    let files = nanny::scan::list_desktop_files(true, &Vec::new());
    assert!(files.is_empty());
    let c = Children::from_handles(Vec::new());
    assert!(c.is_empty());
    assert_eq!(c.len(), 0);
}

#[test]
fn registering_the_hook_leaves_the_flag_unset() {
    let flag = Arc::new(AtomicBool::new(false));
    register_child_hook(Arc::clone(&flag));
    // No child of this process has terminated: the flag stays clear until the
    // signal arrives, and only its consumer may clear it afterwards.
    assert!(!flag.load(Ordering::SeqCst));
}
