//! The tree as lines of text: one line for each process below the root, the
//! children of one parent in ascending pid order, each line drawn with the
//! branches that lead to it.

use crate::process::{snapshot_view, Process, ProcessView};
use crate::text::{decimal, push_decimal, texts, without_line_breaks};
use crate::tree::{fits, is_tree_of, lists_pids_of, tree_view};
use crate::widget::{show_lines, shown};
use ratatui::text::Line;
use std::collections::HashMap;
use vstd::prelude::*;
use vstd::relations::{sorted_by, total_ordering};
use vstd::seq_lib::lemma_sorted_unique;
use vstd::string::StringExecFns;

verus! {

/// The pid under which the processes without a known parent hang; it stands
/// for no process and gets no line.
pub const ROOT: u32 = 0;

/// The branch drawn in front of the last child of a parent.
pub const LAST_BRANCH: &'static str = "└─ ";

/// The branch drawn in front of a child that has later siblings.
pub const MID_BRANCH: &'static str = "├─ ";

/// What the descendants of a last child get in place of its branch.
pub const BLANK: &'static str = "   ";

/// What the descendants of a child with later siblings get in place of its branch.
pub const BAR: &'static str = "│  ";

/// The order of the children of one parent: ascending by pid.
pub open spec fn by_pid() -> spec_fn(u32, u32) -> bool {
    |a: u32, b: u32| a <= b
}

/// The children of one parent in the order in which they are drawn.
pub open spec fn ascending(children: Seq<u32>) -> Seq<u32> {
    children.sort_by(by_pid())
}

/// The children of a parent are drawn in ascending order of their pids, each
/// as often as the parent lists it.
pub proof fn lemma_ascending_orders_by_pid(children: Seq<u32>)
    ensures
        ascending(children).to_multiset() == children.to_multiset(),
        ascending(children).len() == children.len(),
        forall|i: int, j: int|
            0 <= i < j < children.len() ==> ascending(children)[i] <= ascending(children)[j],
{
    children.lemma_sort_by_ensures(by_pid());
    vstd::seq_lib::to_multiset_len(children);
    vstd::seq_lib::to_multiset_len(ascending(children));
    assert forall|i: int, j: int| 0 <= i < j < children.len() implies ascending(children)[i]
        <= ascending(children)[j] by {
        assert(by_pid()(ascending(children)[i], ascending(children)[j]));
    }
}

/// The branch in front of a child.
pub open spec fn branch(last: bool) -> Seq<char> {
    if last {
        LAST_BRANCH@
    } else {
        MID_BRANCH@
    }
}

/// The prefix of the lines below a child that was drawn after `prefix`.
///
/// Below the last child of a parent that was itself drawn without prefix
/// nothing is added; else the child's branch is replaced by blanks below a
/// last child and by a bar below the others.
pub open spec fn continuation(prefix: Seq<char>, last: bool) -> Seq<char> {
    if prefix.len() == 0 && last {
        Seq::empty()
    } else if last {
        prefix + BLANK@
    } else {
        prefix + BAR@
    }
}

/// What a line says of its process: name, pid and executable.
pub open spec fn label(process: ProcessView) -> Seq<char> {
    process.name + " ("@ + decimal(process.pid as nat) + ") - ["@ + process.exe + "]"@
}

/// The line of one child.
pub open spec fn line_of(prefix: Seq<char>, last: bool, process: ProcessView) -> Seq<char> {
    prefix + branch(last) + label(process)
}

/// The lines of the descendants of `pid`, down to `depth` generations.
pub open spec fn lines_below(
    tree: Map<u32, Seq<u32>>,
    snapshot: Map<u32, ProcessView>,
    pid: u32,
    prefix: Seq<char>,
    depth: nat,
) -> Seq<Seq<char>>
    decreases depth, 0nat,
{
    if depth == 0 || !tree.contains_key(pid) {
        Seq::empty()
    } else {
        lines_of_children(tree, snapshot, ascending(tree[pid]), 0, prefix, (depth - 1) as nat)
    }
}

/// The lines of the children from index `from` on, each followed by the
/// lines of its own descendants, down to `depth` generations below them.
pub open spec fn lines_of_children(
    tree: Map<u32, Seq<u32>>,
    snapshot: Map<u32, ProcessView>,
    children: Seq<u32>,
    from: int,
    prefix: Seq<char>,
    depth: nat,
) -> Seq<Seq<char>>
    decreases depth, 1 + children.len() - from,
{
    if from < 0 || from >= children.len() {
        Seq::empty()
    } else {
        let last = from == children.len() - 1;
        seq![line_of(prefix, last, snapshot[children[from]])] + lines_below(
            tree,
            snapshot,
            children[from],
            continuation(prefix, last),
            depth,
        ) + lines_of_children(tree, snapshot, children, from + 1, prefix, depth)
    }
}

/// The lines of a whole tree: those of the descendants of the root, as many
/// generations deep as the snapshot has processes.
///
/// Where the root's pid is itself no process, no branch is longer than that,
/// and nothing is cut off; see [`lemma_deeper_draws_no_more`].
pub open spec fn rendered(tree: Map<u32, Seq<u32>>, snapshot: Map<u32, ProcessView>) -> Seq<
    Seq<char>,
> {
    lines_below(tree, snapshot, ROOT, Seq::empty(), snapshot.dom().len())
}

/// Two trees list the same children under the same parents, in whatever order.
pub open spec fn same_children(one: Map<u32, Seq<u32>>, other: Map<u32, Seq<u32>>) -> bool {
    &&& one.dom() == other.dom()
    &&& forall|parent: u32| #[trigger]
        one.contains_key(parent) ==> one[parent].to_multiset() == other[parent].to_multiset()
}

proof fn lemma_same_children_in_drawing_order(
    one: Map<u32, Seq<u32>>,
    other: Map<u32, Seq<u32>>,
    parent: u32,
)
    requires
        same_children(one, other),
        one.contains_key(parent),
    ensures
        ascending(one[parent]) == ascending(other[parent]),
{
    one[parent].lemma_sort_by_ensures(by_pid());
    other[parent].lemma_sort_by_ensures(by_pid());
    lemma_sorted_unique(ascending(one[parent]), ascending(other[parent]), by_pid());
}

proof fn lemma_lines_below_ignore_child_order(
    one: Map<u32, Seq<u32>>,
    other: Map<u32, Seq<u32>>,
    snapshot: Map<u32, ProcessView>,
    pid: u32,
    prefix: Seq<char>,
    depth: nat,
)
    requires
        same_children(one, other),
    ensures
        lines_below(one, snapshot, pid, prefix, depth) == lines_below(
            other,
            snapshot,
            pid,
            prefix,
            depth,
        ),
    decreases depth, 0nat,
{
    if depth > 0 && one.contains_key(pid) {
        lemma_same_children_in_drawing_order(one, other, pid);
        lemma_lines_of_children_ignore_child_order(
            one,
            other,
            snapshot,
            ascending(one[pid]),
            0,
            prefix,
            (depth - 1) as nat,
        );
    }
}

proof fn lemma_lines_of_children_ignore_child_order(
    one: Map<u32, Seq<u32>>,
    other: Map<u32, Seq<u32>>,
    snapshot: Map<u32, ProcessView>,
    children: Seq<u32>,
    from: int,
    prefix: Seq<char>,
    depth: nat,
)
    requires
        same_children(one, other),
    ensures
        lines_of_children(one, snapshot, children, from, prefix, depth) == lines_of_children(
            other,
            snapshot,
            children,
            from,
            prefix,
            depth,
        ),
    decreases depth, 1 + children.len() - from,
{
    if 0 <= from < children.len() {
        let last = from == children.len() - 1;
        lemma_lines_below_ignore_child_order(
            one,
            other,
            snapshot,
            children[from],
            continuation(prefix, last),
            depth,
        );
        lemma_lines_of_children_ignore_child_order(
            one,
            other,
            snapshot,
            children,
            from + 1,
            prefix,
            depth,
        );
    }
}

/// The lines of a tree do not depend on the order in which it lists the
/// children of a parent: only their order by pid counts.
pub proof fn lemma_rendered_ignores_child_order(
    one: Map<u32, Seq<u32>>,
    other: Map<u32, Seq<u32>>,
    snapshot: Map<u32, ProcessView>,
)
    requires
        same_children(one, other),
    ensures
        rendered(one, snapshot) == rendered(other, snapshot),
{
    lemma_lines_below_ignore_child_order(
        one,
        other,
        snapshot,
        ROOT,
        Seq::empty(),
        snapshot.dom().len(),
    );
}

/// Whatever tree is built of a snapshot, its lines are the same.
pub proof fn lemma_trees_of_snapshot_render_alike(
    one: Map<u32, Seq<u32>>,
    other: Map<u32, Seq<u32>>,
    snapshot: Map<u32, ProcessView>,
)
    requires
        is_tree_of(one, snapshot),
        is_tree_of(other, snapshot),
    ensures
        rendered(one, snapshot) == rendered(other, snapshot),
{
    broadcast use vstd::seq_lib::to_multiset_contains;

    assert(one.dom() =~= other.dom());
    assert forall|parent: u32| #[trigger] one.contains_key(parent) implies one[parent].to_multiset()
        == other[parent].to_multiset() by {
        let here = one[parent];
        let there = other[parent];
        here.lemma_multiset_has_no_duplicates();
        there.lemma_multiset_has_no_duplicates();
        assert forall|pid: u32| here.to_multiset().count(pid) == there.to_multiset().count(pid) by {
            assert(there.contains(pid) == there.to_set().contains(pid));
        }
    }
    lemma_rendered_ignores_child_order(one, other, snapshot);
}

/// Sorts pids in place with `sort_unstable` of std's slices.
///
/// Believed of it, as its documentation says: the result is in ascending
/// order and holds the same pids as before, each as often as before.
#[verifier::external_body]
fn sort_pids(pids: &mut Vec<u32>)
    ensures
        sorted_by(final(pids)@, by_pid()),
        final(pids)@.to_multiset() == old(pids)@.to_multiset(),
{
    pids.sort_unstable();
}

/// The children of one parent in the order in which they are drawn.
fn in_drawing_order(children: &Vec<u32>) -> (sorted: Vec<u32>)
    ensures
        sorted@ == ascending(children@),
{
    let mut sorted = children.clone();
    sort_pids(&mut sorted);
    proof {
        children@.lemma_sort_by_ensures(by_pid());
        lemma_sorted_unique(sorted@, ascending(children@), by_pid());
    }
    sorted
}

/// The line of one child.
fn draw_line(prefix: &str, last: bool, process: &Process) -> (line: String)
    ensures
        line@ == line_of(prefix@, last, process@),
{
    let mut line = prefix.to_owned();
    line.append(if last { LAST_BRANCH } else { MID_BRANCH });
    line.append(process.name.as_str());
    line.append(" (");
    push_decimal(&mut line, process.pid);
    line.append(") - [");
    line.append(process.exe.as_str());
    line.append("]");
    line
}

/// The prefix of the lines below a child that was drawn after `prefix`.
fn continue_prefix(prefix: &str, last: bool) -> (next: String)
    ensures
        next@ == continuation(prefix@, last),
{
    if prefix.is_empty() && last {
        String::new()
    } else {
        let mut next = prefix.to_owned();
        next.append(if last { BLANK } else { BAR });
        next
    }
}

/// `path` leads from the root down the tree: each pid after the first is in
/// the snapshot and names the one before it as parent.
spec fn is_branch(snapshot: Map<u32, ProcessView>, path: Seq<u32>) -> bool {
    &&& path.len() >= 1
    &&& path[0] == ROOT
    &&& forall|i: int|
        1 <= i < path.len() ==> snapshot.contains_key(#[trigger] path[i]) && snapshot[path[i]].ppid
            == path[i - 1]
}

proof fn lemma_branch_has_no_repeats(
    snapshot: Map<u32, ProcessView>,
    path: Seq<u32>,
    i: int,
    j: int,
)
    requires
        is_branch(snapshot, path),
        !snapshot.contains_key(ROOT),
        0 <= i < j < path.len(),
    ensures
        path[i] != path[j],
    decreases i,
{
    if i > 0 {
        lemma_branch_has_no_repeats(snapshot, path, i - 1, j - 1);
    }
}

/// A branch holds the root and, each once, pids of the snapshot.
proof fn lemma_branch_is_short(snapshot: Map<u32, ProcessView>, path: Seq<u32>)
    requires
        is_branch(snapshot, path),
        !snapshot.contains_key(ROOT),
        snapshot.dom().finite(),
    ensures
        path.len() <= snapshot.dom().len() + 1,
{
    let below = path.subrange(1, path.len() as int);
    assert forall|i: int, j: int|
        0 <= i < below.len() && 0 <= j < below.len() && i != j implies below[i] != below[j] by {
        if i < j {
            lemma_branch_has_no_repeats(snapshot, path, i + 1, j + 1);
        } else {
            lemma_branch_has_no_repeats(snapshot, path, j + 1, i + 1);
        }
    }
    below.unique_seq_to_set();
    vstd::set_lib::lemma_len_subset(below.to_set(), snapshot.dom());
}

/// The generations that can still follow below the end of a branch.
spec fn room_below(snapshot: Map<u32, ProcessView>, path: Seq<u32>) -> nat {
    (snapshot.dom().len() + 1 - path.len()) as nat
}

proof fn lemma_lines_below_need_no_more_depth(
    tree: Map<u32, Seq<u32>>,
    snapshot: Map<u32, ProcessView>,
    path: Seq<u32>,
    prefix: Seq<char>,
    depth: nat,
    deeper: nat,
)
    requires
        fits(tree, snapshot),
        !snapshot.contains_key(ROOT),
        snapshot.dom().finite(),
        is_branch(snapshot, path),
        room_below(snapshot, path) <= depth <= deeper,
    ensures
        lines_below(tree, snapshot, path.last(), prefix, depth) == lines_below(
            tree,
            snapshot,
            path.last(),
            prefix,
            deeper,
        ),
    decreases depth, 0nat,
{
    let pid = path.last();
    lemma_branch_is_short(snapshot, path);
    if tree.contains_key(pid) {
        let children = ascending(tree[pid]);
        tree[pid].lemma_sort_by_ensures(by_pid());
        if children.len() > 0 {
            let first = children[0];
            assert(children.contains(first));
            lemma_branch_is_short(snapshot, path.push(first));
            lemma_lines_of_children_need_no_more_depth(
                tree,
                snapshot,
                path,
                children,
                0,
                prefix,
                (depth - 1) as nat,
                (deeper - 1) as nat,
            );
        }
    }
}

proof fn lemma_lines_of_children_need_no_more_depth(
    tree: Map<u32, Seq<u32>>,
    snapshot: Map<u32, ProcessView>,
    path: Seq<u32>,
    children: Seq<u32>,
    from: int,
    prefix: Seq<char>,
    depth: nat,
    deeper: nat,
)
    requires
        fits(tree, snapshot),
        !snapshot.contains_key(ROOT),
        snapshot.dom().finite(),
        is_branch(snapshot, path),
        tree.contains_key(path.last()),
        forall|child: u32| children.contains(child) ==> tree[path.last()].contains(child),
        room_below(snapshot, path) <= depth + 1,
        path.len() <= snapshot.dom().len(),
        depth <= deeper,
    ensures
        lines_of_children(tree, snapshot, children, from, prefix, depth) == lines_of_children(
            tree,
            snapshot,
            children,
            from,
            prefix,
            deeper,
        ),
    decreases depth, 1 + children.len() - from,
{
    if 0 <= from < children.len() {
        let child = children[from];
        let last = from == children.len() - 1;
        assert(children.contains(child));
        let longer = path.push(child);
        lemma_lines_below_need_no_more_depth(
            tree,
            snapshot,
            longer,
            continuation(prefix, last),
            depth,
            deeper,
        );
        lemma_lines_of_children_need_no_more_depth(
            tree,
            snapshot,
            path,
            children,
            from + 1,
            prefix,
            depth,
            deeper,
        );
    }
}

/// Where the root's pid is no process of the snapshot, and the tree fits the
/// snapshot, the lines of the tree are all the lines there are: to follow
/// the branches deeper than the snapshot has processes adds nothing.
pub proof fn lemma_deeper_draws_no_more(
    tree: Map<u32, Seq<u32>>,
    snapshot: Map<u32, ProcessView>,
    depth: nat,
)
    requires
        fits(tree, snapshot),
        !snapshot.contains_key(ROOT),
        snapshot.dom().finite(),
        depth >= snapshot.dom().len(),
    ensures
        lines_below(tree, snapshot, ROOT, Seq::empty(), depth) == rendered(tree, snapshot),
{
    let start = seq![ROOT];
    lemma_lines_below_need_no_more_depth(
        tree,
        snapshot,
        start,
        Seq::empty(),
        snapshot.dom().len(),
        depth,
    );
}

/// A child whose line is still to be drawn.
struct Pending {
    pid: u32,
    /// What stands in front of the child's branch.
    prefix: String,
    /// No sibling comes after the child.
    last: bool,
    /// How many generations below the child are still drawn.
    depth: usize,
}

/// Every child on the stack is a pid of the snapshot.
spec fn all_known(snapshot: Map<u32, ProcessView>, stack: Seq<Pending>) -> bool {
    forall|i: int| 0 <= i < stack.len() ==> snapshot.contains_key((#[trigger] stack[i]).pid)
}

/// The line of a pending child and the lines of its descendants.
spec fn lines_of_pending(
    tree: Map<u32, Seq<u32>>,
    snapshot: Map<u32, ProcessView>,
    item: Pending,
) -> Seq<Seq<char>> {
    seq![line_of(item.prefix@, item.last, snapshot[item.pid])] + lines_below(
        tree,
        snapshot,
        item.pid,
        continuation(item.prefix@, item.last),
        item.depth as nat,
    )
}

/// The lines that a stack of pending children stands for, the top's first.
spec fn lines_of_stack(
    tree: Map<u32, Seq<u32>>,
    snapshot: Map<u32, ProcessView>,
    stack: Seq<Pending>,
) -> Seq<Seq<char>>
    decreases stack.len(),
{
    if stack.len() == 0 {
        Seq::empty()
    } else {
        lines_of_pending(tree, snapshot, stack.last()) + lines_of_stack(
            tree,
            snapshot,
            stack.drop_last(),
        )
    }
}

/// Puts the children of `pid` on the stack, the first to be drawn on top;
/// none where no generation is left to draw.
fn push_children(
    stack: &mut Vec<Pending>,
    tree: &HashMap<u32, Vec<u32>>,
    procs: &HashMap<u32, Process>,
    pid: u32,
    prefix: &str,
    depth: usize,
)
    requires
        lists_pids_of(tree_view(tree@), snapshot_view(procs@)),
        all_known(snapshot_view(procs@), old(stack)@),
    ensures
        all_known(snapshot_view(procs@), final(stack)@),
        lines_of_stack(tree_view(tree@), snapshot_view(procs@), final(stack)@) == lines_below(
            tree_view(tree@),
            snapshot_view(procs@),
            pid,
            prefix@,
            depth as nat,
        ) + lines_of_stack(tree_view(tree@), snapshot_view(procs@), old(stack)@),
{
    broadcast use vstd::std_specs::hash::group_hash_axioms;

    let ghost snapshot = snapshot_view(procs@);
    let ghost shape = tree_view(tree@);
    let ghost below = lines_of_stack(shape, snapshot, stack@);
    if depth == 0 {
        return ;
    }
    match tree.get(&pid) {
        None => {
        },
        Some(children) => {
            let sorted = in_drawing_order(children);
            let count = sorted.len();
            let mut at = count;
            proof {
                shape[pid].lemma_sort_by_ensures(by_pid());
            }
            while at > 0
                invariant
                    snapshot == snapshot_view(procs@),
                    shape == tree_view(tree@),
                    lists_pids_of(shape, snapshot),
                    shape.contains_key(pid),
                    forall|child: u32| sorted@.contains(child) ==> shape[pid].contains(child),
                    count == sorted@.len(),
                    at <= count,
                    depth >= 1,
                    all_known(snapshot, stack@),
                    lines_of_stack(shape, snapshot, stack@) == lines_of_children(
                        shape,
                        snapshot,
                        sorted@,
                        at as int,
                        prefix@,
                        (depth - 1) as nat,
                    ) + below,
                decreases at,
            {
                at -= 1;
                let child = sorted[at];
                let ghost under = stack@;
                proof {
                    assert(sorted@.contains(child));
                }
                let item = Pending {
                    pid: child,
                    prefix: prefix.to_owned(),
                    last: at == count - 1,
                    depth: depth - 1,
                };
                stack.push(item);
                proof {
                    assert(stack@.drop_last() =~= under);
                }
            }
        },
    }
}

/// Draws a tree as text, one line for each process that descends from the
/// root.
///
/// The tree must list only pids of the snapshot, as a tree built from it
/// does. A branch is followed as many generations deep as the snapshot has
/// processes.
pub fn render_lines(tree: &HashMap<u32, Vec<u32>>, procs: &HashMap<u32, Process>) -> (lines: Vec<
    String,
>)
    requires
        lists_pids_of(tree_view(tree@), snapshot_view(procs@)),
    ensures
        texts(lines@) == rendered(tree_view(tree@), snapshot_view(procs@)),
{
    broadcast use vstd::std_specs::hash::group_hash_axioms;

    let ghost snapshot = snapshot_view(procs@);
    let ghost shape = tree_view(tree@);
    let mut lines: Vec<String> = Vec::new();
    let mut stack: Vec<Pending> = Vec::new();
    push_children(&mut stack, tree, procs, ROOT, "", procs.len());
    proof {
        reveal_strlit("");
        assert(""@ =~= Seq::<char>::empty());
        assert(snapshot.dom() =~= procs@.dom());
    }
    while stack.len() > 0
        invariant
            snapshot == snapshot_view(procs@),
            shape == tree_view(tree@),
            lists_pids_of(shape, snapshot),
            all_known(snapshot, stack@),
            texts(lines@) + lines_of_stack(shape, snapshot, stack@) == rendered(shape, snapshot),
        decreases lines_of_stack(shape, snapshot, stack@).len(),
    {
        if let Some(item) = stack.pop() {
            if let Some(process) = procs.get(&item.pid) {
                let line = draw_line(item.prefix.as_str(), item.last, process);
                let next = continue_prefix(item.prefix.as_str(), item.last);
                lines.push(line);
                push_children(&mut stack, tree, procs, item.pid, next.as_str(), item.depth);
            }
        }
    }
    lines
}

/// Draws a tree as lines for the screen, one for each process that descends
/// from the root; each line shows its text without line breaks.
///
/// The tree must list only pids of the snapshot, as a tree built from it
/// does.
pub fn build_tree_lines(tree: &HashMap<u32, Vec<u32>>, procs: &HashMap<u32, Process>) -> (lines:
    Vec<Line<'static>>)
    requires
        lists_pids_of(tree_view(tree@), snapshot_view(procs@)),
    ensures
        shown(lines@) == rendered(tree_view(tree@), snapshot_view(procs@)).map_values(
            |text: Seq<char>| without_line_breaks(text),
        ),
{
    show_lines(render_lines(tree, procs))
}

} // verus!
