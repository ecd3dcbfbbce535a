//! Laws of the semaphore, stated over the spec functions that the
//! operations' contracts use, and proved.
use vstd::prelude::*;

use crate::queue::{holds_ticket, Waiter};
use crate::state::SemView;

verus! {

/// One operation on the shared state, as the contracts of `SemState` describe it.
pub enum Op<W> {
    /// `try_claim`.
    Claim,
    /// `poll_acquire` for an acquisition's ticket with a wake handle.
    Poll { ticket: u64, wake: W },
    /// `release_and_notify`.
    Release,
    /// `cancel` of an acquisition's ticket.
    Cancel { ticket: u64 },
    /// `issue_ticket`.
    Issue,
}

/// The state after `op`.
pub open spec fn step<W>(v: SemView<W>, op: Op<W>) -> SemView<W> {
    match op {
        Op::Claim => if v.available > 0 { v.claimed() } else { v },
        Op::Poll { ticket, wake } => v.polled(ticket, wake),
        Op::Release => v.released(),
        Op::Cancel { ticket } => v.cancelled(ticket),
        Op::Issue => if v.next_ticket < u64::MAX { v.ticket_issued() } else { v },
    }
}

/// Whether `op` hands out a permit when applied to `v`.
pub open spec fn grants<W>(v: SemView<W>, op: Op<W>) -> bool {
    match op {
        Op::Claim => v.available > 0,
        Op::Poll { .. } => v.available > 0,
        _ => false,
    }
}

/// Whether `op` meets the `requires` of its operation in `v`: a release
/// gives back a permit that is out, a poll uses a ticket handed out.
pub open spec fn allowed<W>(v: SemView<W>, op: Op<W>) -> bool {
    match op {
        Op::Release => v.available < v.total,
        Op::Poll { ticket, .. } => ticket < v.next_ticket,
        _ => true,
    }
}

/// The state after `ops`, applied from the first.
pub open spec fn run<W>(v: SemView<W>, ops: Seq<Op<W>>) -> SemView<W>
    decreases ops.len(),
{
    if ops.len() == 0 {
        v
    } else {
        step(run(v, ops.drop_last()), ops.last())
    }
}

/// Every operation of `ops` is allowed in the state it is applied to.
pub open spec fn all_allowed<W>(v: SemView<W>, ops: Seq<Op<W>>) -> bool
    decreases ops.len(),
{
    if ops.len() == 0 {
        true
    } else {
        all_allowed(v, ops.drop_last()) && allowed(run(v, ops.drop_last()), ops.last())
    }
}

/// Permits handed out by `ops` less those given back.
pub open spec fn net_granted<W>(v: SemView<W>, ops: Seq<Op<W>>) -> int
    decreases ops.len(),
{
    if ops.len() == 0 {
        0
    } else {
        let prev = run(v, ops.drop_last());
        net_granted(v, ops.drop_last()) + (if grants(prev, ops.last()) { 1int } else { 0int }) - (
        if ops.last() is Release { 1int } else { 0int })
    }
}

/// Capacity is conserved: from a fresh semaphore, after any sequence of
/// allowed operations, the permits free plus the permits out (handed out
/// and not given back) equal the capacity fixed at construction.
pub proof fn lemma_capacity_conserved<W>(v0: SemView<W>, ops: Seq<Op<W>>)
    requires
        v0.wf(),
        v0.available == v0.total,
        all_allowed(v0, ops),
    ensures
        run(v0, ops).total == v0.total,
        run(v0, ops).available <= run(v0, ops).total,
        run(v0, ops).available + net_granted(v0, ops) == v0.total,
        net_granted(v0, ops) == run(v0, ops).outstanding(),
    decreases ops.len(),
{
    if ops.len() > 0 {
        lemma_capacity_conserved(v0, ops.drop_last());
    }
}

/// With a single permit, no sequence of allowed operations has two
/// permits out at once.
pub proof fn lemma_single_permit_exclusive<W>(v0: SemView<W>, ops: Seq<Op<W>>)
    requires
        v0.wf(),
        v0.total == 1,
        v0.available == 1,
        all_allowed(v0, ops),
    ensures
        0 <= net_granted(v0, ops) <= 1,
{
    lemma_capacity_conserved(v0, ops);
}

/// With a single permit held, a second request is not granted: it waits in
/// the queue, and the release of the permit hands back its wake handle; its
/// next poll is then granted.
pub proof fn lemma_second_waits_for_release<W>(v: SemView<W>, tb: u64, wb: W, wb2: W)
    requires
        v.wf(),
        v.total == 1,
        v.available == 0,
        v.waiters.len() == 0,
        tb < v.next_ticket,
    ensures
        v.polled(tb, wb).available == 0,
        v.polled(tb, wb).waiters == seq![Waiter { ticket: tb, wake: wb }],
        v.polled(tb, wb).released_wake() == Some(wb),
        v.polled(tb, wb).released().available > 0,
        v.polled(tb, wb).released().polled(tb, wb2).available == 0,
{
    assert(!holds_ticket(v.waiters, tb));
    assert(v.polled(tb, wb).waiters =~= seq![Waiter { ticket: tb, wake: wb }]);
}

/// Requesters are resumed in the order they arrived: with the permit held
/// and requests `a`, `b`, `c` suspended in that order, the first release
/// wakes `a`; once `a` holds the permit and gives it back, the release wakes
/// `b`; once `b` has done the same, `c`.
pub proof fn lemma_fifo_order<W>(
    v: SemView<W>,
    a: u64,
    b: u64,
    c: u64,
    wa: W,
    wb: W,
    wc: W,
    wa2: W,
    wb2: W,
)
    requires
        v.wf(),
        v.available == 0,
        v.total == 1,
        v.waiters.len() == 0,
        a < v.next_ticket,
        b < v.next_ticket,
        c < v.next_ticket,
        a != b,
        b != c,
        a != c,
    ensures
        ({
            let queued = v.polled(a, wa).polled(b, wb).polled(c, wc);
            let a_runs = queued.released().polled(a, wa2);
            let b_runs = a_runs.released().polled(b, wb2);
            &&& queued.waiters == seq![
                Waiter { ticket: a, wake: wa },
                Waiter { ticket: b, wake: wb },
                Waiter { ticket: c, wake: wc },
            ]
            &&& queued.released_wake() == Some(wa)
            &&& queued.released().available > 0
            &&& a_runs.released_wake() == Some(wb)
            &&& a_runs.released().available > 0
            &&& b_runs.released_wake() == Some(wc)
        }),
{
    let wa_ = Waiter { ticket: a, wake: wa };
    let wb_ = Waiter { ticket: b, wake: wb };
    let wc_ = Waiter { ticket: c, wake: wc };
    let v1 = v.polled(a, wa);
    assert(!holds_ticket(v.waiters, a));
    assert(v1.waiters =~= seq![wa_]);
    assert(!holds_ticket(v1.waiters, b));
    let v2 = v1.polled(b, wb);
    assert(v2.waiters =~= seq![wa_, wb_]);
    assert(!holds_ticket(v2.waiters, c));
    let queued = v2.polled(c, wc);
    assert(queued.waiters =~= seq![wa_, wb_, wc_]);
    let r1 = queued.released();
    assert(r1.waiters =~= seq![wb_, wc_]);
    assert(!holds_ticket(r1.waiters, a));
    let a_runs = r1.polled(a, wa2);
    assert(a_runs.waiters =~= seq![wb_, wc_]);
    let r2 = a_runs.released();
    assert(r2.waiters =~= seq![wc_]);
    assert(!holds_ticket(r2.waiters, b));
    let b_runs = r2.polled(b, wb2);
    assert(b_runs.waiters =~= seq![wc_]);
}

/// No wake-up is missed: a poll that finds no permit and a release can come
/// in either order, and either way the request is served. Released first,
/// the poll claims the permit; polled first, the request joins the back of
/// the queue, and with nobody ahead of it the release hands back its wake
/// handle.
pub proof fn lemma_no_missed_wakeup<W>(v: SemView<W>, t: u64, w: W)
    requires
        v.wf(),
        v.available == 0,
        v.available < v.total,
        t < v.next_ticket,
        !holds_ticket(v.waiters, t),
    ensures
        v.released().available > 0,
        v.polled(t, w).available == 0,
        v.polled(t, w).waiters == v.waiters.push(Waiter { ticket: t, wake: w }),
        v.waiters.len() == 0 ==> v.polled(t, w).released_wake() == Some(w),
{
}

/// Giving a permit back returns exactly one unit of capacity; with nobody
/// waiting, nobody is woken and the queue stays as it was.
pub proof fn lemma_release_returns_one<W>(v: SemView<W>)
    requires
        v.wf(),
        v.available < v.total,
    ensures
        v.released().wf(),
        v.released().available == v.available + 1,
        v.released().outstanding() + 1 == v.outstanding(),
        v.released().total == v.total,
        v.waiters.len() == 0 ==> v.released_wake() is None && v.released().waiters == v.waiters,
{
    if v.waiters.len() > 0 {
        crate::queue::lemma_drop_first_keeps(v.waiters, v.next_ticket);
    }
}

/// A wake-up is not lost to an abandoned request: when a release wakes the
/// oldest waiter and that request is then given up, the wake-up passes to
/// the next waiter, and the freed permit stays free for it.
pub proof fn lemma_abandoned_wakeup_passes_on<W>(v: SemView<W>, a: u64, b: u64, wa: W, wb: W)
    requires
        v.wf(),
        v.available < v.total,
        v.waiters == seq![Waiter { ticket: a, wake: wa }, Waiter { ticket: b, wake: wb }],
    ensures
        v.released_wake() == Some(wa),
        v.released().cancelled_wake(a) == Some(wb),
        v.released().cancelled(a).available == v.available + 1,
        v.released().cancelled(a).waiters.len() == 0,
{
    let r = v.released();
    assert(r.waiters =~= seq![Waiter { ticket: b, wake: wb }]);
    assert(a != b) by {
        assert(v.waiters[0].ticket == a);
        assert(v.waiters[1].ticket == b);
    }
    assert(!holds_ticket(r.waiters, a));
}

} // verus!
