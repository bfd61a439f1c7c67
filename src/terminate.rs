//! Bottom-up termination of a process tree: the order in which processes are
//! signalled, the count of acknowledged signals, and process groups on
//! platforms that have none.

use crate::tree::{
    as_signed, children_in, descendants, holds_process, snapshot_descendants, walk, ProcessEntry,
};
use vstd::prelude::*;

verus! {

/// The order in which a tree is signalled: the pre-order descendants
/// reversed, so that the deepest discovered come first, then the root.
pub open spec fn kill_order_of(pid: i32, descendants: Seq<i32>) -> Seq<i32> {
    descendants.reverse().push(pid)
}

/// How many signals were acknowledged as delivered.
pub open spec fn count_true(delivered: Seq<bool>) -> nat
    decreases delivered.len(),
{
    if delivered.len() == 0 {
        0
    } else {
        count_true(delivered.drop_last()) + if delivered.last() {
            1nat
        } else {
            0nat
        }
    }
}

/// The processes to signal, in order: `descendants` (as enumerated, in
/// pre-order) from last to first, and the root `pid` at the end.
pub fn kill_order(pid: i32, descendants: &Vec<i32>) -> (r: Vec<i32>)
    ensures
        r@ == kill_order_of(pid, descendants@),
{
    let mut order: Vec<i32> = Vec::new();
    let mut i: usize = descendants.len();
    while i > 0
        invariant
            i <= descendants@.len(),
            order@ == descendants@.skip(i as int).reverse(),
        decreases i,
    {
        i = i - 1;
        order.push(descendants[i]);
        assert(order@ =~= descendants@.skip(i as int).reverse());
    }
    order.push(pid);
    assert(descendants@.skip(0) == descendants@);
    order
}

/// The number of `true` results among the signals sent, one per process.
pub fn count_delivered(delivered: &Vec<bool>) -> (r: u32)
    requires
        delivered@.len() <= u32::MAX,
    ensures
        r == count_true(delivered@),
{
    let mut killed: u32 = 0;
    let mut i: usize = 0;
    while i < delivered.len()
        invariant
            i <= delivered@.len() <= u32::MAX,
            killed == count_true(delivered@.take(i as int)),
            killed <= i,
        decreases delivered@.len() - i,
    {
        assert(delivered@.take(i as int + 1).drop_last() == delivered@.take(i as int));
        if delivered[i] {
            killed = killed + 1;
        }
        i = i + 1;
    }
    assert(delivered@.take(i as int) == delivered@);
    killed
}

/// The process group of `pid` where the platform has no process groups:
/// always unsupported.
pub fn process_group_id(_pid: i32) -> (r: Option<i32>)
    ensures
        r is None,
{
    None
}

/// Signals a process group where the platform has no process groups: never
/// delivered.
pub fn kill_process_group(_pgid: i32, _signal: i32) -> (r: bool)
    ensures
        !r,
{
    false
}

/// Whatever tree a snapshot describes, signalling it in kill order reaches
/// every enumerated descendant strictly before the root, which comes last.
pub proof fn lemma_descendants_before_root(snapshot: Seq<ProcessEntry>, pid: i32)
    ensures
        ({
            let d = as_signed(snapshot_descendants(snapshot, pid as u32));
            let order = kill_order_of(pid, d);
            &&& order.len() == d.len() + 1
            &&& order.last() == pid
            &&& forall|i: int|
                0 <= i < d.len() ==> #[trigger] d[i] == order[d.len() - 1 - i] && d.len() - 1 - i
                    < order.len() - 1
        }),
{
}

proof fn lemma_no_children(entries: Seq<ProcessEntry>, parent: u32)
    requires
        forall|k: int| 0 <= k < entries.len() ==> #[trigger] entries[k].parent_pid != parent,
    ensures
        children_in(entries, parent) == Seq::<u32>::empty(),
    decreases entries.len(),
{
    if entries.len() > 0 {
        let rest = entries.drop_last();
        assert forall|k: int| 0 <= k < rest.len() implies #[trigger] rest[k].parent_pid
            != parent by {
            assert(rest[k] == entries[k]);
        }
        lemma_no_children(rest, parent);
    }
}

/// A process without children (no snapshot row names it as a parent), or
/// one that the snapshot does not hold, has no descendants.
pub proof fn lemma_childless_or_unknown_has_no_descendants(snapshot: Seq<ProcessEntry>, pid: i32)
    requires
        (forall|k: int| 0 <= k < snapshot.len() ==> #[trigger] snapshot[k].parent_pid != pid as u32)
            || !holds_process(snapshot, pid as u32),
    ensures
        as_signed(snapshot_descendants(snapshot, pid as u32)) == Seq::<i32>::empty(),
{
    if holds_process(snapshot, pid as u32) {
        lemma_no_children(snapshot, pid as u32);
        assert(walk(snapshot, Seq::<u32>::empty(), snapshot.len()) == Seq::<u32>::empty());
        assert(descendants(snapshot, pid as u32) == Seq::<u32>::empty());
    }
    assert(as_signed(Seq::<u32>::empty()) =~= Seq::<i32>::empty());
}

} // verus!
