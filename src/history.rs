//! The bounded undo history: snapshots of rows taken before they change.
use crate::file::Row;
use std::collections::VecDeque;
use std::ops::Range;
use vstd::prelude::*;

verus! {

/// The rows of a range as they were before a change.
pub struct HistoryNode {
    pub altered_rows: Range<usize>,
    pub rows: Vec<Row>,
}

impl HistoryNode {
    /// A snapshot of `rows`, which stood at `altered_rows`.
    pub fn create(rows: &[Row], altered_rows: Range<usize>) -> (r: Self)
        ensures
            r.altered_rows == altered_rows,
            r.rows@.len() == rows@.len(),
            forall|i: int|
                0 <= i < rows@.len() ==> (#[trigger] r.rows@[i])@ == rows@[i]@ && r.rows@[i].spec_len()
                    == rows@[i].spec_len(),
    {
        let mut r: Vec<Row> = Vec::new();
        let mut i: usize = 0;
        while i < rows.len()
            invariant
                i <= rows@.len(),
                r@.len() == i,
                forall|j: int|
                    0 <= j < i ==> (#[trigger] r@[j])@ == rows@[j]@ && r@[j].spec_len()
                        == rows@[j].spec_len(),
            decreases rows@.len() - i,
        {
            r.push(rows[i].duplicate());
            i = i + 1;
        }
        HistoryNode { altered_rows, rows: r }
    }

    /// The range and the rows of the snapshot.
    pub fn extract(self) -> (r: (Range<usize>, Vec<Row>))
        ensures
            r.0 == self.altered_rows,
            r.1 == self.rows,
    {
        (self.altered_rows, self.rows)
    }
}

/// What a history holds after `node` is pushed onto `nodes` with room for
/// `cap` nodes: the newest first, the oldest dropped when full.
pub open spec fn pushed(nodes: Seq<HistoryNode>, node: HistoryNode, cap: nat) -> Seq<HistoryNode> {
    (seq![node] + nodes).take(if cap < nodes.len() + 1 { cap as int } else { nodes.len() + 1 as int })
}

/// What a history holds after each of `ns` is pushed in turn.
pub open spec fn pushed_all(nodes: Seq<HistoryNode>, ns: Seq<HistoryNode>, cap: nat) -> Seq<
    HistoryNode,
>
    decreases ns.len(),
{
    if ns.len() == 0 {
        nodes
    } else {
        pushed(pushed_all(nodes, ns.drop_last(), cap), ns.last(), cap)
    }
}

/// A capacity-bounded log of snapshots, most recent first.
pub struct History {
    history: VecDeque<HistoryNode>,
    maximum_size: usize,
}

impl History {
    /// The snapshots, most recent first.
    pub closed spec fn nodes(&self) -> Seq<HistoryNode> {
        self.history@
    }

    pub closed spec fn spec_capacity(&self) -> nat {
        self.maximum_size as nat
    }

    pub open spec fn wf(&self) -> bool {
        self.nodes().len() <= self.spec_capacity()
    }

    /// An empty history with room for fifty snapshots.
    pub fn new() -> (r: Self)
        ensures
            r.wf(),
            r.nodes().len() == 0,
            r.spec_capacity() == 50,
    {
        History { history: VecDeque::new(), maximum_size: 50 }
    }

    /// An empty history with room for `maximum_size` snapshots.
    pub fn with_capacity(maximum_size: usize) -> (r: Self)
        ensures
            r.wf(),
            r.nodes().len() == 0,
            r.spec_capacity() == maximum_size,
    {
        History { history: VecDeque::new(), maximum_size }
    }

    pub fn capacity(&self) -> (r: usize)
        ensures
            r == self.spec_capacity(),
    {
        self.maximum_size
    }

    /// Number of snapshots held.
    pub fn len(&self) -> (r: usize)
        ensures
            r == self.nodes().len(),
    {
        self.history.len()
    }

    /// Records `node` as the most recent snapshot, dropping the oldest one
    /// when the history is full.
    pub fn push(&mut self, node: HistoryNode)
        requires
            old(self).wf(),
        ensures
            final(self).wf(),
            final(self).spec_capacity() == old(self).spec_capacity(),
            final(self).nodes() == pushed(old(self).nodes(), node, old(self).spec_capacity()),
    {
        if self.maximum_size == 0 {
            proof {
                assert(pushed(self.nodes(), node, 0) =~= Seq::<HistoryNode>::empty());
            }
            return;
        }
        let ghost before = self.history@;
        if self.history.len() >= self.maximum_size {
            self.history.pop_back();
        }
        self.history.push_front(node);
        proof {
            assert(self.history@ =~= pushed(before, node, self.maximum_size as nat));
        }
    }

    /// Takes the most recent snapshot.
    pub fn pop(&mut self) -> (r: Option<HistoryNode>)
        requires
            old(self).wf(),
        ensures
            final(self).wf(),
            final(self).spec_capacity() == old(self).spec_capacity(),
            old(self).nodes().len() == 0 ==> r is None && final(self).nodes() == old(self).nodes(),
            old(self).nodes().len() > 0 ==> r == Some(old(self).nodes()[0]) && final(self).nodes()
                == old(self).nodes().drop_first(),
    {
        let r = self.history.pop_front();
        proof {
            if old(self).nodes().len() > 0 {
                assert(self.history@ =~= old(self).nodes().drop_first());
            }
        }
        r
    }
}

/// Pushing past the capacity keeps exactly `cap` snapshots: the most recent
/// ones, newest first.
pub proof fn lemma_history_bound(ns: Seq<HistoryNode>, cap: nat)
    ensures
        pushed_all(Seq::empty(), ns, cap) == ns.reverse().take(
            if cap < ns.len() { cap as int } else { ns.len() as int },
        ),
        ns.len() > cap ==> pushed_all(Seq::empty(), ns, cap).len() == cap,
    decreases ns.len(),
{
    if ns.len() > 0 {
        let n1 = ns.drop_last();
        lemma_history_bound(n1, cap);
        let k1 = if cap < n1.len() { cap as int } else { n1.len() as int };
        let k = if cap < ns.len() { cap as int } else { ns.len() as int };
        let prev = n1.reverse().take(k1);
        assert(ns.reverse() =~= seq![ns.last()] + n1.reverse());
        assert((seq![ns.last()] + prev).take(if cap < prev.len() + 1 { cap as int } else { prev.len() + 1 as int }) =~= ns.reverse().take(k));
    } else {
        assert(ns.reverse().take(0) =~= Seq::<HistoryNode>::empty());
    }
}

} // verus!
