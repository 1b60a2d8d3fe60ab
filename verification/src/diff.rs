//! The difference between two snapshots: which pids came, which went, and
//! which stayed with a changed record.

use crate::process::{pids_of, snapshot_view, Process, ProcessView};
use crate::select::{lemma_selected_all, lemma_selected_step, selected};
use std::collections::HashMap;
use vstd::prelude::*;

verus! {

/// The pids that `after` holds and `before` does not.
pub open spec fn added_pids(before: Map<u32, ProcessView>, after: Map<u32, ProcessView>) -> Set<
    u32,
> {
    Set::new(|pid: u32| after.contains_key(pid) && !before.contains_key(pid))
}

/// The pids that `before` holds and `after` does not.
pub open spec fn removed_pids(before: Map<u32, ProcessView>, after: Map<u32, ProcessView>) -> Set<
    u32,
> {
    Set::new(|pid: u32| before.contains_key(pid) && !after.contains_key(pid))
}

/// The pids that both hold, with records that differ in at least one field.
pub open spec fn changed_pids(before: Map<u32, ProcessView>, after: Map<u32, ProcessView>) -> Set<
    u32,
> {
    Set::new(
        |pid: u32|
            before.contains_key(pid) && after.contains_key(pid) && before[pid] != after[pid],
    )
}

/// Nothing came, nothing went and nothing changed.
pub open spec fn unchanged(before: Map<u32, ProcessView>, after: Map<u32, ProcessView>) -> bool {
    &&& added_pids(before, after) == Set::<u32>::empty()
    &&& removed_pids(before, after) == Set::<u32>::empty()
    &&& changed_pids(before, after) == Set::<u32>::empty()
}

/// Two snapshots show no difference exactly when they are the same.
pub proof fn lemma_unchanged_is_same(before: Map<u32, ProcessView>, after: Map<u32, ProcessView>)
    ensures
        unchanged(before, after) <==> before == after,
{
    if unchanged(before, after) {
        assert forall|pid: u32| before.contains_key(pid) == after.contains_key(pid) by {
            assert(!removed_pids(before, after).contains(pid));
        }
        assert forall|pid: u32| before.contains_key(pid) implies before[pid] == after[pid] by {
            assert(!changed_pids(before, after).contains(pid));
        }
        assert(before =~= after);
    }
    if before == after {
        assert(removed_pids(before, after) =~= Set::<u32>::empty());
        assert(changed_pids(before, after) =~= Set::<u32>::empty());
    }
}

/// No pid came and went, came and changed, or went and changed.
pub proof fn lemma_diff_sets_are_disjoint(
    before: Map<u32, ProcessView>,
    after: Map<u32, ProcessView>,
)
    ensures
        added_pids(before, after).disjoint(removed_pids(before, after)),
        added_pids(before, after).disjoint(changed_pids(before, after)),
        removed_pids(before, after).disjoint(changed_pids(before, after)),
{
}

/// What came from one snapshot to another is what went on the way back, and
/// what changed one way changed the other way too.
pub proof fn lemma_diff_is_symmetric(a: Map<u32, ProcessView>, b: Map<u32, ProcessView>)
    ensures
        added_pids(a, b) == removed_pids(b, a),
        removed_pids(a, b) == added_pids(b, a),
        changed_pids(a, b) == changed_pids(b, a),
{
}

/// A snapshot does not differ from itself.
pub proof fn lemma_diff_of_same_is_empty(a: Map<u32, ProcessView>)
    ensures
        unchanged(a, a),
{
    lemma_unchanged_is_same(a, a);
}

/// Where one record of a snapshot is replaced by another one, its pid is the
/// only one that changed, and none came or went.
pub proof fn lemma_diff_finds_single_change(
    a: Map<u32, ProcessView>,
    pid: u32,
    record: ProcessView,
)
    requires
        a.contains_key(pid),
        record != a[pid],
    ensures
        changed_pids(a, a.insert(pid, record)) == set![pid],
        added_pids(a, a.insert(pid, record)) == Set::<u32>::empty(),
        removed_pids(a, a.insert(pid, record)) == Set::<u32>::empty(),
{
    let b = a.insert(pid, record);
}

/// Compares two snapshots pid by pid.
///
/// Returns the pids that were added, removed and changed, in this order. Each
/// list holds every such pid once; the order within a list is that in which
/// the maps hand out their keys.
pub fn diff_procs(before: &HashMap<u32, Process>, after: &HashMap<u32, Process>) -> (diff: (
    Vec<u32>,
    Vec<u32>,
    Vec<u32>,
))
    ensures
        diff.0@.no_duplicates(),
        diff.1@.no_duplicates(),
        diff.2@.no_duplicates(),
        diff.0@.to_set() == added_pids(snapshot_view(before@), snapshot_view(after@)),
        diff.1@.to_set() == removed_pids(snapshot_view(before@), snapshot_view(after@)),
        diff.2@.to_set() == changed_pids(snapshot_view(before@), snapshot_view(after@)),
{
    broadcast use vstd::std_specs::hash::group_hash_axioms;

    let ghost then = snapshot_view(before@);
    let ghost now = snapshot_view(after@);
    let ghost is_added = |pid: u32| !then.contains_key(pid);
    let ghost is_changed = |pid: u32| then.contains_key(pid) && then[pid] != now[pid];
    let ghost is_removed = |pid: u32| !now.contains_key(pid);

    let mut added: Vec<u32> = Vec::new();
    let mut removed: Vec<u32> = Vec::new();
    let mut changed: Vec<u32> = Vec::new();

    let new_pids = pids_of(after);
    for i in 0..new_pids.len()
        invariant
            then == snapshot_view(before@),
            now == snapshot_view(after@),
            is_added == |pid: u32| !then.contains_key(pid),
            is_changed == |pid: u32| then.contains_key(pid) && then[pid] != now[pid],
            new_pids@.no_duplicates(),
            new_pids@.to_set() == after@.dom(),
            selected(new_pids@, i as int, added@, is_added),
            selected(new_pids@, i as int, changed@, is_changed),
    {
        let pid = new_pids[i];
        proof {
            lemma_selected_step(new_pids@, i as int, added@, is_added);
            lemma_selected_step(new_pids@, i as int, changed@, is_changed);
        }
        let found = after.get(&pid);
        match before.get(&pid) {
            None => {
                added.push(pid);
            },
            Some(earlier) => {
                if let Some(later) = found {
                    if !(*earlier == *later) {
                        changed.push(pid);
                    }
                }
            },
        }
    }

    let old_pids = pids_of(before);
    for i in 0..old_pids.len()
        invariant
            now == snapshot_view(after@),
            is_removed == |pid: u32| !now.contains_key(pid),
            old_pids@.no_duplicates(),
            selected(old_pids@, i as int, removed@, is_removed),
    {
        let pid = old_pids[i];
        proof {
            lemma_selected_step(old_pids@, i as int, removed@, is_removed);
        }
        if !after.contains_key(&pid) {
            removed.push(pid);
        }
    }

    proof {
        lemma_selected_all(new_pids@, added@, is_added);
        lemma_selected_all(new_pids@, changed@, is_changed);
        lemma_selected_all(old_pids@, removed@, is_removed);
    }
    (added, removed, changed)
}

} // verus!
