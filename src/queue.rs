//! The queue of suspended requesters, and the facts about it that the
//! semaphore's state relies on.
use std::collections::VecDeque;
use vstd::prelude::*;

verus! {

/// One suspended requester: the ticket of its acquisition and the handle
/// that resumes it.
pub struct Waiter<W> {
    pub ticket: u64,
    pub wake: W,
}

/// No two entries of the queue carry the same ticket.
pub open spec fn tickets_distinct<W>(q: Seq<Waiter<W>>) -> bool {
    forall|i: int, j: int|
        0 <= i < q.len() && 0 <= j < q.len() && #[trigger] q[i].ticket == #[trigger] q[j].ticket
            ==> i == j
}

/// Every entry of the queue carries a ticket below `bound`.
pub open spec fn tickets_below<W>(q: Seq<Waiter<W>>, bound: nat) -> bool {
    forall|i: int| 0 <= i < q.len() ==> (#[trigger] q[i].ticket) < bound
}

/// The queue holds an entry for `t`.
pub open spec fn holds_ticket<W>(q: Seq<Waiter<W>>, t: u64) -> bool {
    exists|i: int| 0 <= i < q.len() && (#[trigger] q[i]).ticket == t
}

/// The position of the entry for `t`, where the queue holds one.
pub open spec fn index_of<W>(q: Seq<Waiter<W>>, t: u64) -> int {
    choose|i: int| 0 <= i < q.len() && (#[trigger] q[i]).ticket == t
}

/// The queue with the entry for `t` taken out, the others in their order.
pub open spec fn without_ticket<W>(q: Seq<Waiter<W>>, t: u64) -> Seq<Waiter<W>> {
    if holds_ticket(q, t) {
        q.remove(index_of(q, t))
    } else {
        q
    }
}

/// The queue once the requester with ticket `t` has registered `wake`: an
/// entry already there keeps its place and takes the new handle, otherwise a
/// new entry goes to the back.
pub open spec fn registered<W>(q: Seq<Waiter<W>>, t: u64, wake: W) -> Seq<Waiter<W>> {
    if holds_ticket(q, t) {
        q.update(index_of(q, t), Waiter { ticket: t, wake })
    } else {
        q.push(Waiter { ticket: t, wake })
    }
}

/// Where the entry at `i` carries `t` and tickets are distinct, it is the
/// entry that `index_of` names.
pub proof fn lemma_index_of_unique<W>(q: Seq<Waiter<W>>, t: u64, i: int)
    requires
        tickets_distinct(q),
        0 <= i < q.len(),
        q[i].ticket == t,
    ensures
        holds_ticket(q, t),
        index_of(q, t) == i,
{
    assert(holds_ticket(q, t));
    let j = index_of(q, t);
    assert(q[j].ticket == q[i].ticket);
}

/// Taking an entry out keeps tickets distinct and below any bound they were below.
pub proof fn lemma_without_keeps<W>(q: Seq<Waiter<W>>, t: u64, bound: nat)
    requires
        tickets_distinct(q),
        tickets_below(q, bound),
    ensures
        tickets_distinct(without_ticket(q, t)),
        tickets_below(without_ticket(q, t), bound),
        !holds_ticket(without_ticket(q, t), t),
        without_ticket(q, t).len() == if holds_ticket(q, t) { q.len() - 1 } else { q.len() as int },
{
    if holds_ticket(q, t) {
        let k = index_of(q, t);
        let r = q.remove(k);
        assert forall|i: int, j: int|
            0 <= i < r.len() && 0 <= j < r.len() && #[trigger] r[i].ticket == #[trigger] r[j].ticket
            implies i == j by {
            let i2 = if i < k { i } else { i + 1 };
            let j2 = if j < k { j } else { j + 1 };
            assert(r[i] == q[i2]);
            assert(r[j] == q[j2]);
        }
        assert forall|i: int| 0 <= i < r.len() implies (#[trigger] r[i].ticket) < bound by {
            let i2 = if i < k { i } else { i + 1 };
            assert(r[i] == q[i2]);
        }
        if holds_ticket(r, t) {
            let i = choose|i: int| 0 <= i < r.len() && (#[trigger] r[i]).ticket == t;
            let i2 = if i < k { i } else { i + 1 };
            assert(r[i] == q[i2]);
            assert(q[i2].ticket == q[k].ticket);
        }
    }
}

/// Registering keeps tickets distinct, and below a bound that `t` is below.
pub proof fn lemma_registered_keeps<W>(q: Seq<Waiter<W>>, t: u64, wake: W, bound: nat)
    requires
        tickets_distinct(q),
        tickets_below(q, bound),
        t < bound,
    ensures
        tickets_distinct(registered(q, t, wake)),
        tickets_below(registered(q, t, wake), bound),
        holds_ticket(registered(q, t, wake), t),
{
    let r = registered(q, t, wake);
    if holds_ticket(q, t) {
        let k = index_of(q, t);
        assert forall|i: int, j: int|
            0 <= i < r.len() && 0 <= j < r.len() && #[trigger] r[i].ticket == #[trigger] r[j].ticket
            implies i == j by {
            assert(r[i].ticket == q[i].ticket);
            assert(r[j].ticket == q[j].ticket);
        }
        assert forall|i: int| 0 <= i < r.len() implies (#[trigger] r[i].ticket) < bound by {
            assert(r[i].ticket == q[i].ticket);
        }
        assert(r[k].ticket == t);
    } else {
        let n = q.len() as int;
        assert forall|i: int, j: int|
            0 <= i < r.len() && 0 <= j < r.len() && #[trigger] r[i].ticket == #[trigger] r[j].ticket
            implies i == j by {
            if i < n && j == n {
                assert(q[i].ticket == t);
            } else if j < n && i == n {
                assert(q[j].ticket == t);
            }
        }
        assert forall|i: int| 0 <= i < r.len() implies (#[trigger] r[i].ticket) < bound by {
            if i < n {
                assert(r[i] == q[i]);
            }
        }
        assert(r[n].ticket == t);
    }
}

/// Dropping the front entry keeps tickets distinct and below the bound.
pub proof fn lemma_drop_first_keeps<W>(q: Seq<Waiter<W>>, bound: nat)
    requires
        tickets_distinct(q),
        tickets_below(q, bound),
        q.len() > 0,
    ensures
        tickets_distinct(q.drop_first()),
        tickets_below(q.drop_first(), bound),
{
    let r = q.drop_first();
    assert forall|i: int, j: int|
        0 <= i < r.len() && 0 <= j < r.len() && #[trigger] r[i].ticket == #[trigger] r[j].ticket
        implies i == j by {
        assert(r[i] == q[i + 1]);
        assert(r[j] == q[j + 1]);
    }
    assert forall|i: int| 0 <= i < r.len() implies (#[trigger] r[i].ticket) < bound by {
        assert(r[i] == q[i + 1]);
    }
}

/// Finds the position of the entry for `t`.
pub fn find_ticket<W>(q: &VecDeque<Waiter<W>>, t: u64) -> (r: Option<usize>)
    requires
        tickets_distinct(q@),
    ensures
        match r {
            Some(i) => holds_ticket(q@, t) && i as int == index_of(q@, t) && i < q@.len(),
            None => !holds_ticket(q@, t),
        },
{
    let n = q.len();
    let mut i: usize = 0;
    while i < n
        invariant
            n == q@.len(),
            i <= n,
            tickets_distinct(q@),
            forall|k: int| 0 <= k < i ==> (#[trigger] q@[k]).ticket != t,
        decreases n - i,
    {
        if q[i].ticket == t {
            proof {
                lemma_index_of_unique(q@, t, i as int);
            }
            return Some(i);
        }
        i = i + 1;
    }
    None
}

} // verus!
