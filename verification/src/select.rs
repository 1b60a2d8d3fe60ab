//! Picking items out of a list without repeats: the bookkeeping shared by the
//! loops that walk the pids of a snapshot.

use vstd::prelude::*;

verus! {

/// `out` holds, each once, the first `upto` items of `from` that `keep` accepts.
pub(crate) open spec fn selected(
    from: Seq<u32>,
    upto: int,
    out: Seq<u32>,
    keep: spec_fn(u32) -> bool,
) -> bool {
    &&& out.no_duplicates()
    &&& forall|pid: u32| out.contains(pid) <==> from.take(upto).contains(pid) && keep(pid)
}

/// One more item of `from` is looked at: it joins `out` where `keep` accepts it.
pub(crate) proof fn lemma_selected_step(
    from: Seq<u32>,
    upto: int,
    out: Seq<u32>,
    keep: spec_fn(u32) -> bool,
)
    requires
        0 <= upto < from.len(),
        from.no_duplicates(),
        selected(from, upto, out, keep),
    ensures
        keep(from[upto]) ==> selected(from, upto + 1, out.push(from[upto]), keep),
        !keep(from[upto]) ==> selected(from, upto + 1, out, keep),
{
    let next = from[upto];
    let grown = out.push(next);
    assert forall|pid: u32|
        from.take(upto + 1).contains(pid) <==> from.take(upto).contains(pid) || pid == next by {
        if pid == next {
            assert(from.take(upto + 1)[upto] == pid);
        }
    }
    assert forall|pid: u32| grown.contains(pid) <==> out.contains(pid) || pid == next by {
        if pid == next {
            assert(grown[out.len() as int] == pid);
        }
        if out.contains(pid) {
            let at = choose|at: int| 0 <= at < out.len() && out[at] == pid;
            assert(grown[at] == pid);
        }
    }
    assert forall|i: int, j: int|
        0 <= i < grown.len() && 0 <= j < grown.len() && i != j implies grown[i] != grown[j] by {
        if i < out.len() {
            assert(out.contains(out[i]));
        }
        if j < out.len() {
            assert(out.contains(out[j]));
        }
    }
}

/// Once all of `from` is looked at, `out` holds what `keep` accepts of it.
pub(crate) proof fn lemma_selected_all(from: Seq<u32>, out: Seq<u32>, keep: spec_fn(u32) -> bool)
    requires
        selected(from, from.len() as int, out, keep),
    ensures
        out.to_set() == Set::new(|pid: u32| from.to_set().contains(pid) && keep(pid)),
{
    assert(from.take(from.len() as int) =~= from);
}

} // verus!
