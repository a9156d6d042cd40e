//! Nesting depth of a token stream, as a fold over per-token deltas.
//!
//! There is one fold and two ways to run it: clamped, where the depth never
//! falls below 0 however many closing tokens come, and signed, where it may.
//! Either way a token that opens a level is reported at the depth before it,
//! every other token at the depth behind it, so that a closing token is
//! reported at the depth of the token that opened its level.

use crate::list::reversed;
use vstd::prelude::*;

verus! {

/// An item that moves the nesting depth by a fixed amount: +1 when it opens a
/// level, -1 when it closes one, 0 otherwise.
pub trait DepthChange {
    /// The depth delta of this item.
    spec fn depth_delta(&self) -> int;

    /// Deltas are single steps.
    proof fn depth_delta_is_step(&self)
        ensures
            -1 <= self.depth_delta() <= 1,
    ;

    /// The depth delta of this item.
    fn depth_change(&self) -> (change: isize)
        ensures
            change == self.depth_delta(),
    ;
}

/// The depth behind a token with the given delta.
pub open spec fn depth_after(depth: int, delta: int, clamped: bool) -> int {
    if clamped && depth + delta < 0 {
        0
    } else {
        depth + delta
    }
}

/// The depth at which a token with the given delta is reported.
pub open spec fn reported_depth(depth: int, delta: int, clamped: bool) -> int {
    if 0 < delta {
        depth
    } else {
        depth_after(depth, delta, clamped)
    }
}

/// The depth behind a sequence of deltas that starts at depth `start`.
pub open spec fn running_depth(deltas: Seq<int>, start: int, clamped: bool) -> int
    decreases deltas.len(),
{
    if deltas.len() == 0 {
        start
    } else {
        depth_after(running_depth(deltas.drop_last(), start, clamped), deltas.last(), clamped)
    }
}

/// The deltas of a sequence of items.
pub open spec fn deltas_of<T: DepthChange>(items: Seq<T>) -> Seq<int> {
    items.map_values(|item: T| item.depth_delta())
}

/// A sequence of deltas is balanced when no prefix of it closes more levels
/// than it has opened, and the whole of it closes all of them.
pub open spec fn balanced(deltas: Seq<int>) -> bool {
    &&& forall|n: int| 0 <= n <= deltas.len() ==> 0 <= #[trigger] running_depth(
        deltas.take(n),
        0,
        false,
    )
    &&& running_depth(deltas, 0, false) == 0
}

/// Where no prefix falls below 0, clamping changes nothing: the clamped
/// depth is the signed one.
pub proof fn lemma_clamped_is_signed(deltas: Seq<int>)
    requires
        forall|n: int| 0 <= n <= deltas.len() ==> 0 <= #[trigger] running_depth(
            deltas.take(n),
            0,
            false,
        ),
    ensures
        running_depth(deltas, 0, true) == running_depth(deltas, 0, false),
    decreases deltas.len(),
{
    if deltas.len() > 0 {
        let front = deltas.drop_last();
        assert forall|n: int| 0 <= n <= front.len() implies 0 <= #[trigger] running_depth(
            front.take(n),
            0,
            false,
        ) by {
            assert(front.take(n) =~= deltas.take(n));
        }
        lemma_clamped_is_signed(front);
        assert(deltas.take(deltas.len() as int) =~= deltas);
    }
}

/// Depth balance: behind a balanced sequence the running depth is back at
/// 0, clamped or not.
pub proof fn lemma_balanced_returns_to_zero(deltas: Seq<int>, clamped: bool)
    requires
        balanced(deltas),
    ensures
        running_depth(deltas, 0, clamped) == 0,
{
    lemma_clamped_is_signed(deltas);
}

/// Depth balance for items: behind a sequence of items whose deltas are
/// balanced the running depth is back at 0, clamped or not.
pub proof fn lemma_balanced_items_return_to_zero<T: DepthChange>(items: Seq<T>, clamped: bool)
    requires
        balanced(deltas_of(items)),
    ensures
        running_depth(deltas_of(items), 0, clamped) == 0,
{
    lemma_balanced_returns_to_zero(deltas_of(items), clamped);
}

/// The clamped depth never falls below 0, whatever the deltas.
pub proof fn lemma_clamped_depth_is_natural(deltas: Seq<int>, start: int)
    requires
        0 <= start,
    ensures
        0 <= running_depth(deltas, start, true),
    decreases deltas.len(),
{
    if deltas.len() > 0 {
        lemma_clamped_depth_is_natural(deltas.drop_last(), start);
    }
}

/// One step of the fold: the depth at which a token with delta `change` is
/// reported, and the depth behind it.
pub fn advance(depth: isize, change: isize, clamped: bool) -> (r: (isize, isize))
    requires
        isize::MIN <= depth + change <= isize::MAX,
    ensures
        r.0 == reported_depth(depth as int, change as int, clamped),
        r.1 == depth_after(depth as int, change as int, clamped),
{
    let moved = depth + change;
    let next = if clamped && moved < 0 {
        0
    } else {
        moved
    };
    let reported = if 0 < change {
        depth
    } else {
        next
    };
    (reported, next)
}

/// Hands out the items of a sequence one by one, each with the depth at
/// which it is reported.
pub struct DepthIterator<T: DepthChange> {
    /// The items that are still to come, the next one last.
    pending: Vec<T>,
    depth: isize,
    clamped: bool,
}

impl<T: DepthChange> DepthIterator<T> {
    /// The items that are still to come, the next one first.
    pub closed spec fn remaining(&self) -> Seq<T> {
        Seq::new(self.pending@.len(), |i: int| self.pending@[self.pending@.len() - 1 - i])
    }

    /// The depth behind the items that were handed out.
    pub closed spec fn depth(&self) -> int {
        self.depth as int
    }

    /// Whether the depth is kept from falling below 0.
    pub closed spec fn clamped(&self) -> bool {
        self.clamped
    }

    /// The depth has room to follow every item that is still to come.
    pub closed spec fn wf(&self) -> bool {
        &&& -(isize::MAX as int) <= self.depth - self.pending@.len()
        &&& self.depth + self.pending@.len() <= isize::MAX as int
    }

    /// An iterator over `items` that starts at depth 0.
    pub fn new(items: Vec<T>, clamped: bool) -> (iter: Self)
        requires
            items@.len() <= isize::MAX,
        ensures
            iter.wf(),
            iter.remaining() == items@,
            iter.depth() == 0,
            iter.clamped() == clamped,
    {
        let iter = DepthIterator { pending: reversed(items), depth: 0, clamped };
        assert(iter.remaining() =~= items@);
        iter
    }

    /// The depth behind the items that were handed out.
    pub fn current_depth(&self) -> (depth: isize)
        ensures
            depth == self.depth(),
    {
        self.depth
    }

    /// The next item and the depth at which it is reported, or `None` when
    /// all items have been handed out.
    pub fn next(&mut self) -> (r: Option<(T, isize)>)
        requires
            old(self).wf(),
        ensures
            final(self).wf(),
            final(self).clamped() == old(self).clamped(),
            match r {
                Some((item, reported)) => {
                    &&& old(self).remaining().len() > 0
                    &&& item == old(self).remaining()[0]
                    &&& final(self).remaining() == old(self).remaining().drop_first()
                    &&& reported == reported_depth(
                        old(self).depth(),
                        item.depth_delta(),
                        old(self).clamped(),
                    )
                    &&& final(self).depth() == depth_after(
                        old(self).depth(),
                        item.depth_delta(),
                        old(self).clamped(),
                    )
                },
                None => {
                    &&& old(self).remaining().len() == 0
                    &&& final(self).remaining() == old(self).remaining()
                    &&& final(self).depth() == old(self).depth()
                },
            },
    {
        match self.pending.pop() {
            Some(item) => {
                proof {
                    item.depth_delta_is_step();
                }
                let change = item.depth_change();
                let (reported, next) = advance(self.depth, change, self.clamped);
                self.depth = next;
                assert(self.remaining() =~= old(self).remaining().drop_first());
                Some((item, reported))
            },
            None => None,
        }
    }
}

/// Sequences whose items can be handed out with their depth.
pub trait WithDepthIterator<T: DepthChange>: Sized {
    /// The items of the sequence.
    spec fn items(&self) -> Seq<T>;

    /// An iterator over the items with their signed depth, from depth 0.
    fn with_depth(self) -> (iter: DepthIterator<T>)
        requires
            self.items().len() <= isize::MAX,
        ensures
            iter.wf(),
            iter.remaining() == self.items(),
            iter.depth() == 0,
            !iter.clamped(),
    ;
}

impl<T: DepthChange> WithDepthIterator<T> for Vec<T> {
    open spec fn items(&self) -> Seq<T> {
        self@
    }

    fn with_depth(self) -> (iter: DepthIterator<T>) {
        DepthIterator::new(self, false)
    }
}

} // verus!
