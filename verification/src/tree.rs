//! The parent/child tree of a snapshot: for each parent pid, its children.

use crate::process::{pids_of, snapshot_view, well_formed, Process, ProcessView};
use crate::select::{lemma_selected_all, lemma_selected_step, selected};
use std::collections::HashMap;
use vstd::prelude::*;

verus! {

/// A tree as a map from parent pid to the list of its children.
pub open spec fn tree_view(tree: Map<u32, Vec<u32>>) -> Map<u32, Seq<u32>> {
    tree.map_values(|children: Vec<u32>| children@)
}

/// The pids of a snapshot whose record names `parent` as parent.
pub open spec fn children_of(snapshot: Map<u32, ProcessView>, parent: u32) -> Set<u32> {
    Set::new(|pid: u32| snapshot.contains_key(pid) && snapshot[pid].ppid == parent)
}

/// `tree` groups the pids of `snapshot` by parent: a parent has an entry when
/// it has a child, and its entry lists each of its children once, in any order.
pub open spec fn is_tree_of(tree: Map<u32, Seq<u32>>, snapshot: Map<u32, ProcessView>) -> bool {
    &&& forall|parent: u32|
        tree.contains_key(parent) <==> exists|pid: u32|
            children_of(snapshot, parent).contains(pid)
    &&& forall|parent: u32| #[trigger]
        tree.contains_key(parent) ==> tree[parent].no_duplicates() && tree[parent].to_set()
            == children_of(snapshot, parent)
}

/// The pids that the records under `keys` hold, in the order of the keys.
pub open spec fn pids_under(snapshot: Map<u32, ProcessView>, keys: Seq<u32>) -> Seq<u32> {
    keys.map_values(|key: u32| snapshot[key].pid)
}

/// `tree` groups the records of `snapshot` by parent: a parent has an entry
/// when a record names it, and its entry lists the pid of each such record
/// once, in any order.
///
/// This speaks of every map from keys to records; where the keys are the
/// pids of the records it says what [`is_tree_of`] says.
pub open spec fn groups(tree: Map<u32, Seq<u32>>, snapshot: Map<u32, ProcessView>) -> bool {
    &&& forall|parent: u32|
        tree.contains_key(parent) <==> exists|key: u32|
            children_of(snapshot, parent).contains(key)
    &&& forall|parent: u32| #[trigger]
        tree.contains_key(parent) ==> exists|keys: Seq<u32>|
            keys.no_duplicates() && keys.to_set() == children_of(snapshot, parent) && tree[parent]
                == #[trigger] pids_under(snapshot, keys)
}

/// Every pid that `tree` lists is a pid of `snapshot`.
pub open spec fn lists_pids_of(tree: Map<u32, Seq<u32>>, snapshot: Map<u32, ProcessView>) -> bool {
    forall|parent: u32, i: int|
        tree.contains_key(parent) && 0 <= i < tree[parent].len() ==> snapshot.contains_key(
            #[trigger] tree[parent][i],
        )
}

/// Every child that `tree` lists under a parent is a pid of `snapshot`, and
/// its record names that parent.
pub open spec fn fits(tree: Map<u32, Seq<u32>>, snapshot: Map<u32, ProcessView>) -> bool {
    forall|parent: u32, i: int|
        tree.contains_key(parent) && 0 <= i < tree[parent].len() ==> snapshot.contains_key(
            #[trigger] tree[parent][i],
        ) && snapshot[tree[parent][i]].ppid == parent
}

/// Where the keys of a snapshot are the pids of its records, a tree that
/// groups its records by parent is the tree of the snapshot.
pub proof fn lemma_groups_of_well_formed(tree: Map<u32, Seq<u32>>, snapshot: Map<u32, ProcessView>)
    requires
        groups(tree, snapshot),
        well_formed(snapshot),
    ensures
        is_tree_of(tree, snapshot),
{
    assert forall|parent: u32| #[trigger] tree.contains_key(parent) implies {
        &&& tree[parent].no_duplicates()
        &&& tree[parent].to_set() == children_of(snapshot, parent)
    } by {
        let keys = choose|keys: Seq<u32>|
            keys.no_duplicates() && keys.to_set() == children_of(snapshot, parent) && tree[parent]
                == #[trigger] pids_under(snapshot, keys);
        assert forall|i: int| 0 <= i < keys.len() implies pids_under(snapshot, keys)[i]
            == keys[i] by {
            assert(keys.to_set().contains(keys[i]));
        }
    }
}

/// A tree that groups a snapshot by parent lists only pids of that snapshot.
pub proof fn lemma_tree_lists_snapshot_pids(
    tree: Map<u32, Seq<u32>>,
    snapshot: Map<u32, ProcessView>,
)
    requires
        is_tree_of(tree, snapshot),
    ensures
        fits(tree, snapshot),
        lists_pids_of(tree, snapshot),
{
    assert forall|parent: u32, i: int|
        tree.contains_key(parent) && 0 <= i < tree[parent].len() implies snapshot.contains_key(
        #[trigger] tree[parent][i],
    ) && snapshot[tree[parent][i]].ppid == parent by {
        assert(tree[parent].to_set().contains(tree[parent][i]));
    }
}

/// The keys filed under `parent`, none where it has no entry.
spec fn listed(filed: Map<u32, Seq<u32>>, parent: u32) -> Seq<u32> {
    if filed.contains_key(parent) {
        filed[parent]
    } else {
        Seq::empty()
    }
}

/// `filed` groups the first `upto` of `keys` by the parent that `snapshot`
/// gives each.
spec fn grouped(
    keys: Seq<u32>,
    upto: int,
    filed: Map<u32, Seq<u32>>,
    snapshot: Map<u32, ProcessView>,
) -> bool {
    forall|parent: u32|
        #![trigger listed(filed, parent)]
        {
            &&& selected(keys, upto, listed(filed, parent), |key: u32| snapshot[key].ppid == parent)
            &&& filed.contains_key(parent) ==> filed[parent].len() > 0
        }
}

/// `tree` lists, under each parent, the pids of the records filed there.
spec fn lists_filed(
    tree: Map<u32, Seq<u32>>,
    filed: Map<u32, Seq<u32>>,
    snapshot: Map<u32, ProcessView>,
) -> bool {
    &&& tree.dom() == filed.dom()
    &&& forall|parent: u32| #[trigger]
        tree.contains_key(parent) ==> tree[parent] == pids_under(snapshot, filed[parent])
}

/// Groups the records of a snapshot by parent: appends the pid of each to the
/// children of the parent that it names.
///
/// The children of one parent stand in the order in which the snapshot hands
/// out its keys; a pid without children gets no entry.
pub fn build_tree(procs: &HashMap<u32, Process>) -> (tree: HashMap<u32, Vec<u32>>)
    ensures
        groups(tree_view(tree@), snapshot_view(procs@)),
        well_formed(snapshot_view(procs@)) ==> {
            &&& is_tree_of(tree_view(tree@), snapshot_view(procs@))
            &&& fits(tree_view(tree@), snapshot_view(procs@))
            &&& lists_pids_of(tree_view(tree@), snapshot_view(procs@))
        },
{
    broadcast use vstd::std_specs::hash::group_hash_axioms;

    let ghost snapshot = snapshot_view(procs@);
    let mut tree: HashMap<u32, Vec<u32>> = HashMap::new();
    let ghost mut filed: Map<u32, Seq<u32>> = Map::empty();
    let keys = pids_of(procs);
    proof {
        assert(tree_view(tree@).dom() =~= filed.dom());
    }
    for i in 0..keys.len()
        invariant
            snapshot == snapshot_view(procs@),
            keys@.no_duplicates(),
            keys@.to_set() == procs@.dom(),
            grouped(keys@, i as int, filed, snapshot),
            lists_filed(tree_view(tree@), filed, snapshot),
    {
        let key = keys[i];
        if let Some(p) = procs.get(&key) {
            let ghost filed_before = filed;
            tree.entry(p.ppid).or_insert(Vec::new()).push(p.pid);
            proof {
                filed = filed_before.insert(p.ppid, listed(filed_before, p.ppid).push(key));
                let after = tree_view(tree@);
                assert(after.dom() =~= filed.dom());
                assert forall|parent: u32| #[trigger]
                    after.contains_key(parent) implies after[parent] == pids_under(
                    snapshot,
                    filed[parent],
                ) by {
                }
                assert forall|parent: u32|
                    #![trigger listed(filed, parent)]
                    {
                        &&& selected(
                            keys@,
                            i + 1,
                            listed(filed, parent),
                            |key: u32| snapshot[key].ppid == parent,
                        )
                        &&& filed.contains_key(parent) ==> filed[parent].len() > 0
                    } by {
                    lemma_selected_step(
                        keys@,
                        i as int,
                        listed(filed_before, parent),
                        |key: u32| snapshot[key].ppid == parent,
                    );
                }
            }
        }
    }
    proof {
        let grown = tree_view(tree@);
        assert forall|parent: u32|
            grown.contains_key(parent) <==> exists|key: u32|
                children_of(snapshot, parent).contains(key) by {
            let kept = listed(filed, parent);
            lemma_selected_all(keys@, kept, |key: u32| snapshot[key].ppid == parent);
            assert(kept.to_set() =~= children_of(snapshot, parent));
            if grown.contains_key(parent) {
                assert(kept.to_set().contains(kept[0]));
            }
        }
        assert forall|parent: u32| #[trigger] grown.contains_key(parent) implies exists|
            keys: Seq<u32>,
        |
            keys.no_duplicates() && keys.to_set() == children_of(snapshot, parent)
                && grown[parent] == #[trigger] pids_under(snapshot, keys) by {
            let kept = filed[parent];
            assert(listed(filed, parent) == kept);
            lemma_selected_all(keys@, kept, |key: u32| snapshot[key].ppid == parent);
        }
        if well_formed(snapshot) {
            lemma_groups_of_well_formed(grown, snapshot);
            lemma_tree_lists_snapshot_pids(grown, snapshot);
        }
    }
    tree
}

} // verus!
