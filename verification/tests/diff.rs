use astproc::diff::diff_procs;
use astproc::process::Process;
use std::collections::HashMap;

fn diff_process(pid: u32, ppid: u32, name: &str, exe: &str) -> Process {
    Process { pid, ppid, name: name.to_string(), exe: exe.to_string() }
}

fn diff_snapshot(records: &[(u32, u32, &str, &str)]) -> HashMap<u32, Process> {
    let mut procs = HashMap::new();
    for &(pid, ppid, name, exe) in records {
        procs.insert(pid, diff_process(pid, ppid, name, exe));
    }
    procs
}

fn in_order(mut pids: Vec<u32>) -> Vec<u32> {
    pids.sort_unstable();
    pids
}

#[test]
fn diff_of_a_snapshot_with_itself_is_empty() {
    let a = diff_snapshot(&[(1, 0, "init", "/sbin/init"), (2, 1, "sh", "/bin/sh")]);
    let (added, removed, changed) = diff_procs(&a, &a);
    assert!(added.is_empty());
    assert!(removed.is_empty());
    assert!(changed.is_empty());
}

#[test]
fn diff_of_equal_snapshots_is_empty() {
    let a = diff_snapshot(&[(1, 0, "init", "/sbin/init"), (2, 1, "sh", "/bin/sh")]);
    let b = diff_snapshot(&[(2, 1, "sh", "/bin/sh"), (1, 0, "init", "/sbin/init")]);
    let (added, removed, changed) = diff_procs(&a, &b);
    assert!(added.is_empty());
    assert!(removed.is_empty());
    assert!(changed.is_empty());
}

#[test]
fn diff_of_empty_snapshots_is_empty() {
    let (added, removed, changed) = diff_procs(&HashMap::new(), &HashMap::new());
    assert!(added.is_empty() && removed.is_empty() && changed.is_empty());
}

#[test]
fn diff_tells_added_removed_and_changed_apart() {
    let old = diff_snapshot(&[
        (1, 0, "init", "/sbin/init"),
        (2, 1, "sh", "/bin/sh"),
        (3, 1, "vim", "/usr/bin/vim"),
        (4, 1, "top", "/usr/bin/top"),
    ]);
    let new = diff_snapshot(&[
        (1, 0, "init", "/sbin/init"),
        (2, 1, "bash", "/bin/sh"),
        (4, 1, "top", "/usr/bin/top"),
        (5, 2, "ls", "/bin/ls"),
        (6, 2, "cat", "/bin/cat"),
    ]);
    let (added, removed, changed) = diff_procs(&old, &new);
    assert_eq!(in_order(added), vec![5, 6]);
    assert_eq!(in_order(removed), vec![3]);
    assert_eq!(in_order(changed), vec![2]);
}

#[test]
fn diff_is_symmetric() {
    let a = diff_snapshot(&[(1, 0, "init", "x"), (2, 1, "sh", "y"), (3, 1, "vim", "z")]);
    let b = diff_snapshot(&[(1, 0, "init", "x"), (2, 1, "zsh", "y"), (7, 1, "top", "w")]);
    let (added_ab, removed_ab, changed_ab) = diff_procs(&a, &b);
    let (added_ba, removed_ba, changed_ba) = diff_procs(&b, &a);
    assert_eq!(in_order(added_ab.clone()), in_order(removed_ba));
    assert_eq!(in_order(removed_ab.clone()), in_order(added_ba));
    assert_eq!(in_order(changed_ab), in_order(changed_ba));
    assert_eq!(in_order(added_ab), vec![7]);
    assert_eq!(in_order(removed_ab), vec![3]);
}

#[test]
fn diff_from_nothing_adds_everything() {
    let b = diff_snapshot(&[(1, 0, "init", "x"), (2, 1, "sh", "y")]);
    let (added, removed, changed) = diff_procs(&HashMap::new(), &b);
    assert_eq!(in_order(added), vec![1, 2]);
    assert!(removed.is_empty());
    assert!(changed.is_empty());
    let (added, removed, changed) = diff_procs(&b, &HashMap::new());
    assert!(added.is_empty());
    assert_eq!(in_order(removed), vec![1, 2]);
    assert!(changed.is_empty());
}

fn assert_only_changed(old: &HashMap<u32, Process>, pid: u32, record: Process) {
    let mut new = old.clone();
    new.insert(pid, record);
    let (added, removed, changed) = diff_procs(old, &new);
    assert!(added.is_empty());
    assert!(removed.is_empty());
    assert_eq!(changed, vec![pid]);
}

#[test]
fn diff_sees_a_changed_name() {
    let old = diff_snapshot(&[(1, 0, "init", "x"), (2, 1, "sh", "y"), (3, 1, "vim", "z")]);
    assert_only_changed(&old, 2, diff_process(2, 1, "sH", "y"));
}

#[test]
fn diff_sees_a_changed_parent() {
    let old = diff_snapshot(&[(1, 0, "init", "x"), (2, 1, "sh", "y"), (3, 1, "vim", "z")]);
    assert_only_changed(&old, 3, diff_process(3, 2, "vim", "z"));
}

#[test]
fn diff_sees_a_changed_executable() {
    let old = diff_snapshot(&[(1, 0, "init", "x"), (2, 1, "sh", "y"), (3, 1, "vim", "z")]);
    assert_only_changed(&old, 1, diff_process(1, 0, "init", "<no access>"));
}

#[test]
fn diff_sees_a_changed_pid_field() {
    let old = diff_snapshot(&[(1, 0, "init", "x"), (2, 1, "sh", "y"), (3, 1, "vim", "z")]);
    assert_only_changed(&old, 2, diff_process(20, 1, "sh", "y"));
}

#[test]
fn process_records_compare_field_by_field() {
    let a = diff_process(2, 1, "sh", "/bin/sh");
    assert!(a == a.clone());
    assert!(a == diff_process(2, 1, "sh", "/bin/sh"));
    assert!(a != diff_process(3, 1, "sh", "/bin/sh"));
    assert!(a != diff_process(2, 0, "sh", "/bin/sh"));
    assert!(a != diff_process(2, 1, "sh ", "/bin/sh"));
    assert!(a != diff_process(2, 1, "sh", "/bin/zsh"));
}
