//! Process tables, the parent-to-children map built from one snapshot of
//! them, and the pre-order walk of a process's descendants.

use smallvec::SmallVec;
use std::collections::HashMap;
use vstd::prelude::*;

verus! {

broadcast use vstd::std_specs::hash::group_hash_axioms;

/// The children recorded for one parent: a `SmallVec` that keeps up to four
/// inline, held opaque so that only the wrappers below reach it.
#[verifier::external_body]
pub struct ChildList {
    items: SmallVec<[u32; 4]>,
}

/// The ids that a child list holds, in the order they were pushed.
pub uninterp spec fn child_list_items(v: ChildList) -> Seq<u32>;

/// Relies on `SmallVec::new`: a new vector holds nothing.
#[verifier::external_body]
fn new_child_list() -> (r: ChildList)
    ensures
        child_list_items(r) == Seq::<u32>::empty(),
{
    ChildList { items: SmallVec::new() }
}

/// Relies on `SmallVec::push`: the value is appended at the end. It panics
/// only when the doubled capacity, in bytes, would overflow `isize`, which
/// the bound rules out.
#[verifier::external_body]
fn push_child(v: &mut ChildList, pid: u32)
    requires
        child_list_items(*old(v)).len() < isize::MAX / 8,
    ensures
        child_list_items(*final(v)) == child_list_items(*old(v)).push(pid),
{
    v.items.push(pid)
}

/// Relies on `SmallVec::as_slice`: the slice holds the items in order.
#[verifier::external_body]
fn child_slice(v: &ChildList) -> (r: &[u32])
    ensures
        r@ == child_list_items(*v),
{
    v.items.as_slice()
}

/// One row of a whole-system process snapshot: a process and its parent.
#[derive(Clone, Copy, Debug, PartialEq, Eq, Structural)]
pub struct ProcessEntry {
    pub pid: u32,
    pub parent_pid: u32,
}

/// The ids of the processes whose parent is `parent`, in snapshot order.
pub open spec fn children_in(entries: Seq<ProcessEntry>, parent: u32) -> Seq<u32>
    decreases entries.len(),
{
    if entries.len() == 0 {
        Seq::empty()
    } else {
        let rest = children_in(entries.drop_last(), parent);
        if entries.last().parent_pid == parent {
            rest.push(entries.last().pid)
        } else {
            rest
        }
    }
}

/// Pre-order walk of the subtrees rooted at `pids`, in order: each id is
/// followed by the walk of its own children. Ids found more than `depth`
/// levels below the first are not explored.
pub open spec fn walk(entries: Seq<ProcessEntry>, pids: Seq<u32>, depth: nat) -> Seq<u32>
    decreases depth, pids.len(),
{
    if depth == 0 || pids.len() == 0 {
        Seq::empty()
    } else {
        let last = pids.last();
        walk(entries, pids.drop_last(), depth) + seq![last] + walk(
            entries,
            children_in(entries, last),
            (depth - 1) as nat,
        )
    }
}

/// The descendants of `pid` in a snapshot, in pre-order. The walk goes as
/// deep as the snapshot has rows: no chain of distinct processes is longer,
/// so only a snapshot whose parent links form a cycle is cut short.
pub open spec fn descendants(entries: Seq<ProcessEntry>, pid: u32) -> Seq<u32> {
    walk(entries, children_in(entries, pid), entries.len())
}

/// The same ids as process ids of the signed kind that callers use.
pub open spec fn as_signed(pids: Seq<u32>) -> Seq<i32> {
    pids.map_values(|p: u32| p as i32)
}

/// The children of `pid` that a parent-to-children map records.
pub open spec fn children_of(tree: Map<u32, ChildList>, pid: u32) -> Seq<u32> {
    if tree.contains_key(pid) {
        child_list_items(tree[pid])
    } else {
        Seq::empty()
    }
}

/// The ids that some row of the snapshot names as its parent.
pub open spec fn parents_in(entries: Seq<ProcessEntry>) -> Set<u32> {
    Set::new(|p: u32| exists|k: int| 0 <= k < entries.len() && #[trigger] entries[k].parent_pid == p)
}

/// The map records, for every parent, exactly its children in the snapshot.
pub open spec fn tree_matches(tree: Map<u32, ChildList>, entries: Seq<ProcessEntry>) -> bool {
    forall|p: u32| #[trigger] children_of(tree, p) == children_in(entries, p)
}

proof fn lemma_children_in_len(entries: Seq<ProcessEntry>, parent: u32)
    ensures
        children_in(entries, parent).len() <= entries.len(),
    decreases entries.len(),
{
    if entries.len() > 0 {
        lemma_children_in_len(entries.drop_last(), parent);
    }
}

/// Builds the parent-to-children map of a snapshot, each child list in
/// snapshot order. The bound on the snapshot's length is one that any vector
/// of rows in memory meets.
pub fn build_process_tree(entries: &Vec<ProcessEntry>) -> (tree: HashMap<u32, ChildList>)
    requires
        entries@.len() < isize::MAX / 8,
    ensures
        tree_matches(tree@, entries@),
        tree@.dom() == parents_in(entries@),
{
    let mut tree: HashMap<u32, ChildList> = HashMap::new();
    let mut i: usize = 0;
    assert(tree@.dom() =~= parents_in(entries@.take(0)));
    while i < entries.len()
        invariant
            i <= entries@.len() < isize::MAX / 8,
            tree_matches(tree@, entries@.take(i as int)),
            tree@.dom() == parents_in(entries@.take(i as int)),
        decreases entries@.len() - i,
    {
        let entry = entries[i];
        proof {
            lemma_children_in_len(entries@.take(i as int), entry.parent_pid);
            assert(entries@.take(i as int + 1).drop_last() == entries@.take(i as int));
        }
        let ghost before = tree@;
        assert(children_of(before, entry.parent_pid) == children_in(
            entries@.take(i as int),
            entry.parent_pid,
        ));
        let mut list = match tree.remove(&entry.parent_pid) {
            Some(list) => list,
            None => new_child_list(),
        };
        assert(child_list_items(list) == children_in(entries@.take(i as int), entry.parent_pid));
        push_child(&mut list, entry.pid);
        tree.insert(entry.parent_pid, list);
        i = i + 1;
        assert forall|p: u32| #[trigger]
            children_of(tree@, p) == children_in(entries@.take(i as int), p) by {
            assert(entries@.take(i as int).drop_last() == entries@.take(i as int - 1));
            assert(entries@.take(i as int).last() == entry);
            if p != entry.parent_pid {
                assert(children_of(before, p) == children_in(entries@.take(i as int - 1), p));
                assert(tree@.contains_key(p) == before.contains_key(p));
            }
        }
        assert forall|p: u32| #[trigger] tree@.dom().contains(p) == parents_in(
            entries@.take(i as int),
        ).contains(p) by {
            let cur = entries@.take(i as int);
            let prev = entries@.take(i as int - 1);
            assert(cur[i - 1] == entry);
            if p == entry.parent_pid {
                assert(cur[i - 1].parent_pid == p);
            } else {
                assert(tree@.contains_key(p) == before.contains_key(p));
                if parents_in(cur).contains(p) {
                    let k = choose|k: int| 0 <= k < cur.len() && #[trigger] cur[k].parent_pid == p;
                    assert(k < i - 1);
                    assert(prev[k] == cur[k]);
                }
                if parents_in(prev).contains(p) {
                    let k = choose|k: int| 0 <= k < prev.len() && #[trigger] prev[k].parent_pid == p;
                    assert(cur[k] == prev[k]);
                }
            }
        }
        assert(tree@.dom() =~= parents_in(entries@.take(i as int)));
    }
    assert(entries@.take(i as int) == entries@);
    tree
}

fn collect_descendants_from_tree(
    pid: u32,
    tree: &HashMap<u32, ChildList>,
    depth: usize,
    pids: &mut Vec<i32>,
    Ghost(entries): Ghost<Seq<ProcessEntry>>,
)
    requires
        tree_matches(tree@, entries),
    ensures
        final(pids)@ == old(pids)@ + as_signed(walk(entries, children_in(entries, pid), depth as nat)),
    decreases depth,
{
    let ghost start = pids@;
    assert(children_of(tree@, pid) == children_in(entries, pid));
    if depth == 0 {
        assert(pids@ =~= start + as_signed(Seq::empty()));
        return;
    }
    match tree.get(&pid) {
        Some(children) => {
            let slice = child_slice(children);
            let mut j: usize = 0;
            assert(walk(entries, slice@.take(0), depth as nat) =~= Seq::empty());
            assert(pids@ =~= start + as_signed(Seq::empty()));
            while j < slice.len()
                invariant
                    1 <= depth,
                    j <= slice@.len(),
                    slice@ == children_in(entries, pid),
                    tree_matches(tree@, entries),
                    pids@ == start + as_signed(walk(entries, slice@.take(j as int), depth as nat)),
                decreases slice@.len() - j,
            {
                let child = slice[j];
                let ghost before = pids@;
                pids.push(child as i32);
                collect_descendants_from_tree(child, tree, depth - 1, pids, Ghost(entries));
                let ghost prev = walk(entries, slice@.take(j as int), depth as nat);
                let ghost below = walk(entries, children_in(entries, child), (depth - 1) as nat);
                j = j + 1;
                assert(slice@.take(j as int).drop_last() == slice@.take(j as int - 1));
                assert(walk(entries, slice@.take(j as int), depth as nat) == prev + seq![child]
                    + below);
                assert(as_signed(prev + seq![child] + below) =~= as_signed(prev) + seq![
                    child as i32,
                ] + as_signed(below));
                assert(pids@ =~= start + as_signed(walk(entries, slice@.take(j as int), depth as nat)));
            }
            assert(slice@.take(j as int) == slice@);
        },
        None => {
            assert(pids@ =~= start + as_signed(Seq::empty()));
        },
    }
}

/// Whether some row of the snapshot is the process `pid` itself.
pub open spec fn holds_process(entries: Seq<ProcessEntry>, pid: u32) -> bool {
    exists|k: int| 0 <= k < entries.len() && #[trigger] entries[k].pid == pid
}

/// The descendants of `pid` in a snapshot that holds it; nothing for a
/// process that the snapshot does not hold, whatever rows still name it as
/// their parent (an orphan keeps the id of its exited parent).
pub open spec fn snapshot_descendants(entries: Seq<ProcessEntry>, pid: u32) -> Seq<u32> {
    if holds_process(entries, pid) {
        descendants(entries, pid)
    } else {
        Seq::empty()
    }
}

fn holds_pid(snapshot: &Vec<ProcessEntry>, pid: u32) -> (r: bool)
    ensures
        r == holds_process(snapshot@, pid),
{
    let mut k: usize = 0;
    while k < snapshot.len()
        invariant
            k <= snapshot@.len(),
            forall|j: int| 0 <= j < k ==> snapshot@[j].pid != pid,
        decreases snapshot@.len() - k,
    {
        if snapshot[k].pid == pid {
            return true;
        }
        k = k + 1;
    }
    false
}

/// Appends the pre-order walk from `pid` over the snapshot's parent links,
/// without asking whether the snapshot holds `pid` itself.
fn append_walk(snapshot: &Vec<ProcessEntry>, pid: u32, pids: &mut Vec<i32>)
    requires
        snapshot@.len() < isize::MAX / 8,
    ensures
        final(pids)@ == old(pids)@ + as_signed(descendants(snapshot@, pid)),
{
    let tree = build_process_tree(snapshot);
    collect_descendants_from_tree(pid, &tree, snapshot.len(), pids, Ghost(snapshot@));
}

/// Appends the descendants of `pid` in `snapshot`, in pre-order, to `pids`.
/// A process with no children, or one that the snapshot does not hold,
/// adds nothing. The bound on the snapshot's length is one that any vector
/// of rows in memory meets.
pub fn collect_descendants(snapshot: &Vec<ProcessEntry>, pid: i32, pids: &mut Vec<i32>)
    requires
        snapshot@.len() < isize::MAX / 8,
    ensures
        final(pids)@ == old(pids)@ + as_signed(snapshot_descendants(snapshot@, pid as u32)),
{
    if holds_pid(snapshot, pid as u32) {
        append_walk(snapshot, pid as u32, pids);
    } else {
        assert(pids@ =~= pids@ + as_signed(Seq::empty()));
    }
}

/// The descendants of `pid` in `snapshot`, in pre-order; empty when the
/// process has no children or the snapshot does not hold it.
pub fn list_descendants(snapshot: &Vec<ProcessEntry>, pid: i32) -> (r: Vec<i32>)
    requires
        snapshot@.len() < isize::MAX / 8,
    ensures
        r@ == as_signed(snapshot_descendants(snapshot@, pid as u32)),
{
    let mut pids: Vec<i32> = Vec::new();
    collect_descendants(snapshot, pid, &mut pids);
    assert(pids@ =~= as_signed(snapshot_descendants(snapshot@, pid as u32)));
    pids
}

/// The rows that a listing of `parent`'s children adds to a snapshot, one
/// per child, in listing order.
pub open spec fn listing_rows(parent: i32, children: Seq<i32>) -> Seq<ProcessEntry> {
    children.map_values(|c: i32| ProcessEntry { pid: c as u32, parent_pid: parent as u32 })
}

/// `queue` followed by those of `children` that it does not hold yet, each
/// once, in listing order.
pub open spec fn enqueue_new(queue: Seq<i32>, children: Seq<i32>) -> Seq<i32>
    decreases children.len(),
{
    if children.len() == 0 {
        queue
    } else {
        let q = enqueue_new(queue, children.drop_last());
        if q.contains(children.last()) {
            q
        } else {
            q.push(children.last())
        }
    }
}

/// An enumeration of a process tree driven by children listings read one
/// process at a time: it says which process to read next, and turns what
/// was read into snapshot rows. Each process is read once, even when a
/// listing names it again.
pub struct ListingWalk {
    root: i32,
    queue: Vec<i32>,
    next: usize,
    rows: Vec<ProcessEntry>,
}

impl ListingWalk {
    pub closed spec fn root_pid(&self) -> i32 {
        self.root
    }

    /// The processes found so far, the root first, each once.
    pub closed spec fn queued(&self) -> Seq<i32> {
        self.queue@
    }

    /// How many of the queued processes have been read.
    pub closed spec fn read_count(&self) -> nat {
        self.next as nat
    }

    /// The rows recorded so far.
    pub closed spec fn rows(&self) -> Seq<ProcessEntry> {
        self.rows@
    }

    pub closed spec fn wf(&self) -> bool {
        &&& self.next <= self.queue@.len()
        &&& self.queue@.len() >= 1
        &&& self.queue@[0] == self.root
    }

    /// A walk that has found only `root` and read nothing.
    pub fn new(root: i32) -> (r: Self)
        ensures
            r.wf(),
            r.root_pid() == root,
            r.queued() == seq![root],
            r.read_count() == 0,
            r.rows() == Seq::<ProcessEntry>::empty(),
    {
        let mut queue: Vec<i32> = Vec::new();
        queue.push(root);
        ListingWalk { root, queue, next: 0, rows: Vec::new() }
    }

    /// The process whose children are to be read next; `None` once every
    /// process found has been read.
    pub fn pending(&self) -> (r: Option<i32>)
        requires
            self.wf(),
        ensures
            r == if self.read_count() < self.queued().len() {
                Some(self.queued()[self.read_count() as int])
            } else {
                None::<i32>
            },
    {
        if self.next < self.queue.len() {
            Some(self.queue[self.next])
        } else {
            None
        }
    }

    /// Records the children listed for the pending process (none when its
    /// listing could not be read): a row for each, and each process not
    /// found before is queued to be read.
    pub fn record(&mut self, children: &Vec<i32>)
        requires
            old(self).wf(),
            old(self).read_count() < old(self).queued().len(),
        ensures
            final(self).wf(),
            final(self).root_pid() == old(self).root_pid(),
            final(self).read_count() == old(self).read_count() + 1,
            final(self).rows() == old(self).rows() + listing_rows(
                old(self).queued()[old(self).read_count() as int],
                children@,
            ),
            final(self).queued() == enqueue_new(old(self).queued(), children@),
    {
        let parent = self.queue[self.next];
        let ghost rows0 = self.rows@;
        let ghost queue0 = self.queue@;
        let mut i: usize = 0;
        while i < children.len()
            invariant
                i <= children@.len(),
                self.next == old(self).next,
                self.root == old(self).root,
                self.next < self.queue@.len(),
                1 <= queue0.len() <= self.queue@.len(),
                self.queue@[0] == self.root,
                queue0[0] == self.root,
                self.queue@ == enqueue_new(queue0, children@.take(i as int)),
                self.rows@ == rows0 + listing_rows(parent, children@.take(i as int)),
            decreases children@.len() - i,
        {
            let c = children[i];
            let ghost q_before = self.queue@;
            let ghost r_before = self.rows@;
            let row = ProcessEntry {
                pid: #[verifier::truncate] (c as u32),
                parent_pid: #[verifier::truncate] (parent as u32),
            };
            self.rows.push(row);
            let mut k: usize = 0;
            let mut seen = false;
            while k < self.queue.len()
                invariant
                    k <= self.queue@.len(),
                    self.queue@ == q_before,
                    seen <==> exists|j: int| 0 <= j < k && self.queue@[j] == c,
                decreases self.queue@.len() - k,
            {
                if self.queue[k] == c {
                    seen = true;
                }
                k = k + 1;
            }
            if !seen {
                self.queue.push(c);
            }
            i = i + 1;
            assert(children@.take(i as int).drop_last() =~= children@.take(i as int - 1));
            assert(seen == q_before.contains(c));
            assert(self.rows@ =~= rows0 + listing_rows(parent, children@.take(i as int)));
        }
        assert(children@.take(i as int) =~= children@);
        assert(self.next < self.queue.len());
        self.next = self.next + 1;
    }

    /// How many rows have been recorded.
    pub fn row_count(&self) -> (r: usize)
        ensures
            r == self.rows().len(),
    {
        self.rows.len()
    }

    /// The descendants of the root in the rows recorded, in pre-order. The
    /// root has no row of its own: only its children's listing names it.
    pub fn descendants(&self) -> (r: Vec<i32>)
        requires
            self.rows().len() < isize::MAX / 8,
        ensures
            r@ == as_signed(descendants(self.rows(), self.root_pid() as u32)),
    {
        let mut pids: Vec<i32> = Vec::new();
        append_walk(&self.rows, self.root as u32, &mut pids);
        assert(pids@ =~= as_signed(descendants(self.rows(), self.root_pid() as u32)));
        pids
    }
}

} // verus!
