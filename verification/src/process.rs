//! The identity record of one process, and snapshots of the process table.

use std::collections::HashMap;
use vstd::prelude::*;
use vstd::std_specs::cmp::PartialEqSpecImpl;
use vstd::std_specs::iter::IteratorSpec;

verus! {

/// The identity of one process at the time of a snapshot.
#[derive(Debug)]
pub struct Process {
    pub pid: u32,
    /// The parent's pid; `0` when no parent is known.
    pub ppid: u32,
    pub name: String,
    pub exe: String,
}

/// What a [`Process`] holds, with its strings as sequences of characters.
#[verifier::ext_equal]
pub struct ProcessView {
    pub pid: u32,
    pub ppid: u32,
    pub name: Seq<char>,
    pub exe: Seq<char>,
}

impl View for Process {
    type V = ProcessView;

    open spec fn view(&self) -> ProcessView {
        ProcessView { pid: self.pid, ppid: self.ppid, name: self.name@, exe: self.exe@ }
    }
}

impl Clone for Process {
    fn clone(&self) -> (copy: Self)
        ensures
            copy@ == self@,
    {
        Process {
            pid: self.pid,
            ppid: self.ppid,
            name: self.name.clone(),
            exe: self.exe.clone(),
        }
    }
}

impl PartialEq for Process {
    /// Two records are equal when all four fields are.
    fn eq(&self, other: &Self) -> (equal: bool) {
        self.pid == other.pid && self.ppid == other.ppid && self.name == other.name && self.exe
            == other.exe
    }
}

impl PartialEqSpecImpl for Process {
    open spec fn obeys_eq_spec() -> bool {
        true
    }

    open spec fn eq_spec(&self, other: &Self) -> bool {
        self@ == other@
    }
}

impl Eq for Process {

}

/// A snapshot as a map from pid to what each record holds.
pub open spec fn snapshot_view(procs: Map<u32, Process>) -> Map<u32, ProcessView> {
    procs.map_values(|p: Process| p@)
}

/// Every key of a snapshot is the pid of the record stored under it.
pub open spec fn well_formed(snapshot: Map<u32, ProcessView>) -> bool {
    forall|pid: u32| snapshot.contains_key(pid) ==> (#[trigger] snapshot[pid]).pid == pid
}

/// The pids of a snapshot, each once, in the order in which the map hands them out.
pub fn pids_of(procs: &HashMap<u32, Process>) -> (pids: Vec<u32>)
    ensures
        pids@.no_duplicates(),
        pids@.to_set() == procs@.dom(),
{
    broadcast use vstd::std_specs::hash::group_hash_axioms;

    let mut pids: Vec<u32> = Vec::new();
    for pid in it: procs.keys()
        invariant
            it.seq() == procs.keys().remaining(),
            pids@ == it.seq().unref().take(it.index()),
    {
        pids.push(*pid);
    }
    assert(pids@ == procs.keys().remaining().unref());
    pids
}

/// Whether every key of a snapshot is the pid of the record stored under it.
pub fn is_well_formed(procs: &HashMap<u32, Process>) -> (sound: bool)
    ensures
        sound == well_formed(snapshot_view(procs@)),
{
    broadcast use vstd::std_specs::hash::group_hash_axioms;

    let ghost snapshot = snapshot_view(procs@);
    let pids = pids_of(procs);
    for i in 0..pids.len()
        invariant
            snapshot == snapshot_view(procs@),
            pids@.to_set() == procs@.dom(),
            forall|j: int| 0 <= j < i ==> snapshot[pids@[j]].pid == pids@[j],
    {
        let pid = pids[i];
        if let Some(process) = procs.get(&pid) {
            assert(snapshot[pid] == process@);
            if process.pid != pid {
                return false;
            }
        }
    }
    true
}

} // verus!
