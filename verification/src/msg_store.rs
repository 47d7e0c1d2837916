//! Broadcast-plus-bounded-history message store.
//!
//! The store keeps a byte-bounded FIFO of every event pushed during a session
//! and fans each push out to any number of subscriber mailboxes, so that a
//! late subscriber can replay history and then follow the live tail.

use vstd::prelude::*;

use crate::log_msg::{cost, LogMsg, MsgView};

verus! {

/// Default history byte budget (100 MiB).
pub const HISTORY_BYTES: usize = 102_400_000;

/// Capacity of each subscriber's live mailbox.
pub const MAILBOX_CAP: usize = 10_000;

/// A retained event together with its recorded byte cost.
struct StoredMsg {
    msg: LogMsg,
    bytes: usize,
}

/// Live mailbox of one subscriber.
struct Mailbox {
    queue: Vec<LogMsg>,
    lag_pending: bool,
    sub_at: Ghost<int>,
    next: Ghost<int>,
    received: Ghost<Seq<MsgView>>,
    lagged_ever: Ghost<bool>,
}

/// Result of polling a subscriber's mailbox.
pub enum RecvResult {
    /// The next live message.
    Msg(LogMsg),
    /// The subscriber missed messages because its mailbox overflowed.
    Lagged,
    /// No live message is pending right now.
    Empty,
}

/// Sum of a sequence of byte costs.
pub open spec fn sum_of(s: Seq<nat>) -> nat
    decreases s.len(),
{
    if s.len() == 0 {
        0
    } else {
        (s[0] + sum_of(s.drop_first())) as nat
    }
}

pub proof fn lemma_sum_push(s: Seq<nat>, x: nat)
    ensures
        sum_of(s.push(x)) == sum_of(s) + x,
    decreases s.len(),
{
    if s.len() == 0 {
        assert(s.push(x)[0] == x);
        assert(s.push(x).drop_first() =~= Seq::<nat>::empty());
        assert(sum_of(s.push(x)) == x + sum_of(Seq::<nat>::empty()));
    } else {
        assert(s.push(x)[0] == s[0]);
        assert(s.push(x).drop_first() =~= s.drop_first().push(x));
        lemma_sum_push(s.drop_first(), x);
        assert(sum_of(s.push(x)) == s[0] + sum_of(s.drop_first().push(x)));
    }
}

/// Message store with history and live fan-out. Pushes append to the bounded
/// history (evicting oldest-first once the budget would be exceeded) and are
/// delivered to every subscriber whose mailbox has room.
pub struct MsgStore {
    history: Vec<StoredMsg>,
    total_bytes: usize,
    budget: usize,
    subs: Vec<Mailbox>,
    pushes: Ghost<Seq<MsgView>>,
    evicted: Ghost<int>,
}

impl MsgStore {
    /// Every message ever pushed to this store, in push order.
    pub closed spec fn pushes(&self) -> Seq<MsgView> {
        self.pushes@
    }

    /// The retained history, oldest first.
    pub closed spec fn history_msgs(&self) -> Seq<MsgView> {
        self.history@.map_values(|e: StoredMsg| e.msg@)
    }

    /// The recorded byte cost of each retained entry, oldest first.
    pub closed spec fn history_bytes(&self) -> Seq<nat> {
        self.history@.map_values(|e: StoredMsg| e.bytes as nat)
    }

    /// The running byte total.
    pub closed spec fn total(&self) -> nat {
        self.total_bytes as nat
    }

    /// The history byte budget.
    pub closed spec fn budget_spec(&self) -> nat {
        self.budget as nat
    }

    /// How many pushes have been evicted from the front of the history.
    pub closed spec fn evicted(&self) -> int {
        self.evicted@
    }

    /// Number of subscribers ever created.
    pub closed spec fn num_subs(&self) -> nat {
        self.subs@.len()
    }

    /// Index into `pushes()` at which subscriber `i` was created.
    pub closed spec fn sub_at(&self, i: int) -> int {
        self.subs@[i].sub_at@
    }

    /// Index into `pushes()` of the front of subscriber `i`'s mailbox.
    pub closed spec fn sub_next(&self, i: int) -> int {
        self.subs@[i].next@
    }

    /// Pending messages in subscriber `i`'s mailbox, oldest first.
    pub closed spec fn sub_queue(&self, i: int) -> Seq<MsgView> {
        self.subs@[i].queue@.map_values(|m: LogMsg| m@)
    }

    /// Messages already delivered to subscriber `i`, in delivery order.
    pub closed spec fn sub_received(&self, i: int) -> Seq<MsgView> {
        self.subs@[i].received@
    }

    /// Whether subscriber `i` has ever missed a message to overflow.
    pub closed spec fn sub_lagged(&self, i: int) -> bool {
        self.subs@[i].lagged_ever@
    }

    /// Whether a lag notification is pending for subscriber `i`.
    pub closed spec fn sub_lag_pending(&self, i: int) -> bool {
        self.subs@[i].lag_pending
    }

    /// Subscriber `i` is in the same state in `self` and `other`.
    pub open spec fn sub_unchanged(&self, other: &MsgStore, i: int) -> bool {
        &&& self.sub_at(i) == other.sub_at(i)
        &&& self.sub_next(i) == other.sub_next(i)
        &&& self.sub_queue(i) == other.sub_queue(i)
        &&& self.sub_received(i) == other.sub_received(i)
        &&& self.sub_lagged(i) == other.sub_lagged(i)
        &&& self.sub_lag_pending(i) == other.sub_lag_pending(i)
    }

    spec fn mailbox_wf(&self, i: int) -> bool {
        let mb = self.subs@[i];
        &&& 0 <= mb.sub_at@ <= mb.next@ <= self.pushes@.len()
        &&& mb.queue@.map_values(|m: LogMsg| m@) == self.pushes@.subrange(
            mb.next@,
            self.pushes@.len() as int,
        )
        &&& mb.queue@.len() == self.pushes@.len() - mb.next@
        &&& mb.queue@.len() <= MAILBOX_CAP
        &&& !mb.lagged_ever@ ==> {
            &&& !mb.lag_pending
            &&& mb.received@ == self.pushes@.subrange(mb.sub_at@, mb.next@)
        }
    }

    /// Well-formedness: the byte total is the exact sum of the retained
    /// entries' recorded costs; the history is a contiguous suffix of the
    /// push order; the total respects the budget unless a single oversized
    /// entry is all that remains; every mailbox holds a contiguous suffix
    /// of the push order.
    pub closed spec fn wf(&self) -> bool {
        &&& self.budget >= 1
        &&& self.total_bytes as nat == sum_of(self.history_bytes())
        &&& 0 <= self.evicted@ <= self.pushes@.len()
        &&& self.history@.len() == self.pushes@.len() - self.evicted@
        &&& self.history_msgs() == self.pushes@.subrange(
            self.evicted@,
            self.pushes@.len() as int,
        )
        &&& (self.total_bytes <= self.budget || self.history@.len() <= 1)
        &&& (forall|i: int|
            0 <= i < self.history@.len() && cost(#[trigger] self.history@[i].msg@)
                <= usize::MAX ==> self.history@[i].bytes == cost(self.history@[i].msg@))
        &&& (forall|i: int| 0 <= i < self.subs@.len() ==> self.mailbox_wf(i))
    }

    /// Create a store with the default history budget.
    pub fn new() -> (r: MsgStore)
        ensures
            r.wf(),
            r.pushes() == Seq::<MsgView>::empty(),
            r.history_msgs() == Seq::<MsgView>::empty(),
            r.total() == 0,
            r.budget_spec() == HISTORY_BYTES as nat,
            r.num_subs() == 0,
            r.evicted() == 0,
    {
        Self::with_budget(HISTORY_BYTES)
    }

    /// Create a store with an explicit history byte budget.
    pub fn with_budget(budget: usize) -> (r: MsgStore)
        requires
            budget >= 1,
        ensures
            r.wf(),
            r.pushes() == Seq::<MsgView>::empty(),
            r.history_msgs() == Seq::<MsgView>::empty(),
            r.total() == 0,
            r.budget_spec() == budget as nat,
            r.num_subs() == 0,
            r.evicted() == 0,
    {
        let r = MsgStore {
            history: Vec::new(),
            total_bytes: 0,
            budget,
            subs: Vec::new(),
            pushes: Ghost(Seq::empty()),
            evicted: Ghost(0),
        };
        proof {
            assert(r.history_msgs() =~= Seq::<MsgView>::empty());
            assert(r.history_bytes() =~= Seq::<nat>::empty());
            assert(r.history_msgs() =~= r.pushes@.subrange(0, 0));
        }
        r
    }

    /// Append `msg` to history, evicting oldest entries until it fits, and
    /// deliver it to every live subscriber. A full mailbox admits the new
    /// message by dropping its own oldest pending one — that subscriber is
    /// marked lagged and recovers the loss by replaying history — so the
    /// live copy a slow subscriber misses is the oldest queued, never this
    /// push.
    pub fn push(&mut self, msg: LogMsg)
        requires
            old(self).wf(),
        ensures
            final(self).wf(),
            final(self).pushes() == old(self).pushes().push(msg@),
            final(self).budget_spec() == old(self).budget_spec(),
            final(self).num_subs() == old(self).num_subs(),
            old(self).evicted() <= final(self).evicted() <= old(self).pushes().len(),
            final(self).history_msgs() == final(self).pushes().subrange(
                final(self).evicted(),
                final(self).pushes().len() as int,
            ),
            // when the new entry fits, nothing is evicted and the total is exact
            cost(msg@) <= usize::MAX && old(self).total() + cost(msg@) <= old(
                self,
            ).budget_spec() ==> {
                &&& final(self).evicted() == old(self).evicted()
                &&& final(self).total() == old(self).total() + cost(msg@)
            },
            // eviction is greedy and minimal: every entry dropped had to go
            cost(msg@) <= usize::MAX ==> forall|j: int|
                old(self).evicted() <= j < final(self).evicted() ==> sum_of(
                    #[trigger] old(self).history_bytes().skip(j - old(self).evicted()),
                ) + cost(msg@) > old(self).budget_spec(),
            // subscriber bookkeeping
            forall|i: int|
                0 <= i < final(self).num_subs() ==> #[trigger] final(self).sub_at(i) == old(self).sub_at(i),
            forall|i: int|
                0 <= i < final(self).num_subs() ==> #[trigger] final(self).sub_received(i) == old(
                    self,
                ).sub_received(i),
            forall|i: int|
                0 <= i < final(self).num_subs() ==> #[trigger] final(self).sub_next(i) == if old(
                    self,
                ).sub_queue(i).len() == MAILBOX_CAP {
                    old(self).sub_next(i) + 1
                } else {
                    old(self).sub_next(i)
                },
            forall|i: int|
                0 <= i < final(self).num_subs() ==> (#[trigger] final(self).sub_lagged(i) <==> (old(
                    self,
                ).sub_lagged(i) || old(self).sub_queue(i).len() == MAILBOX_CAP)),
            forall|i: int|
                0 <= i < final(self).num_subs() ==> (#[trigger] final(self).sub_lag_pending(i)
                    <==> (old(self).sub_lag_pending(i) || old(self).sub_queue(i).len()
                    == MAILBOX_CAP)),
    {
        let ghost gm: MsgView = msg@;
        let b = msg.approx_bytes();

        // deliver to live subscribers first: the fan-out never blocks on the
        // history bookkeeping
        let n = self.subs.len();
        let mut i: usize = 0;
        while i < n
            invariant
                i <= n,
                n == self.subs@.len(),
                n == old(self).subs@.len(),
                old(self).wf(),
                gm == msg@,
                self.history@ == old(self).history@,
                self.total_bytes == old(self).total_bytes,
                self.budget == old(self).budget,
                self.pushes@ == old(self).pushes@,
                self.evicted@ == old(self).evicted@,
                forall|j: int| i <= j < n ==> self.subs@[j] == old(self).subs@[j],
                forall|j: int|
                    0 <= j < i ==> {
                        let ob = old(self).subs@[j];
                        let nb = #[trigger] self.subs@[j];
                        &&& nb.sub_at@ == ob.sub_at@
                        &&& nb.received@ == ob.received@
                        &&& nb.next@ == if ob.queue@.len() == MAILBOX_CAP {
                            ob.next@ + 1
                        } else {
                            ob.next@
                        }
                        &&& (nb.lagged_ever@ <==> (ob.lagged_ever@ || ob.queue@.len()
                            == MAILBOX_CAP))
                        &&& (nb.lag_pending <==> (ob.lag_pending || ob.queue@.len()
                            == MAILBOX_CAP))
                        &&& nb.queue@.map_values(|m: LogMsg| m@) == self.pushes@.push(gm).subrange(
                            nb.next@,
                            self.pushes@.len() as int + 1,
                        )
                        &&& nb.queue@.len() == self.pushes@.len() as int + 1 - nb.next@
                        &&& nb.queue@.len() <= MAILBOX_CAP
                        &&& (!nb.lagged_ever@ ==> !nb.lag_pending)
                    },
            decreases n - i,
        {
            let mut mb = self.subs.remove(i);
            let ghost plen = self.pushes@.len() as int;
            proof {
                assert(old(self).mailbox_wf(i as int));
                assert(mb == old(self).subs@[i as int]);
                assert(mb.queue@.map_values(|m: LogMsg| m@) == self.pushes@.subrange(
                    mb.next@,
                    plen,
                ));
            }
            if mb.queue.len() == MAILBOX_CAP {
                let ghost q0 = mb.queue@;
                let _ = mb.queue.remove(0);
                proof {
                    assert(mb.queue@ =~= q0.subrange(1, q0.len() as int));
                    assert(mb.queue@.map_values(|m: LogMsg| m@) =~= q0.map_values(
                        |m: LogMsg| m@,
                    ).subrange(1, q0.len() as int));
                    assert(mb.queue@.map_values(|m: LogMsg| m@) =~= self.pushes@.subrange(
                        mb.next@ + 1,
                        plen,
                    ));
                    mb.next@ = mb.next@ + 1;
                    mb.lagged_ever@ = true;
                }
                mb.lag_pending = true;
            }
            let ghost q1m = mb.queue@.map_values(|m: LogMsg| m@);
            let mc = msg.clone();
            mb.queue.push(mc);
            proof {
                assert(mb.queue@.map_values(|m: LogMsg| m@) =~= q1m.push(gm));
                assert(q1m == self.pushes@.subrange(mb.next@, plen));
                assert(q1m.push(gm) =~= self.pushes@.push(gm).subrange(mb.next@, plen + 1));
            }
            self.subs.insert(i, mb);
            i = i + 1;
        }
        let ghost subs2 = self.subs@;

        // evict from the front until the new entry fits
        if b > self.budget {
            let ghost pre = *self;
            let mut k: usize = 0;
            let hn = self.history.len();
            while k < hn
                invariant
                    k <= hn,
                    hn == pre.history@.len(),
                    self.history@ == pre.history@.skip(k as int),
                    self.total_bytes as nat == sum_of(self.history_bytes()),
                    self.history_bytes() == pre.history_bytes().skip(k as int),
                    self.evicted@ == pre.evicted@ + k,
                    self.budget == pre.budget,
                    self.subs@ == pre.subs@,
                    self.pushes@ == pre.pushes@,
                    pre.total_bytes as nat == sum_of(pre.history_bytes()),
                decreases hn - k,
            {
                let ghost cur = self.history_bytes();
                proof {
                    assert(cur[0] == self.history@[0].bytes as nat);
                    assert(cur.drop_first() =~= pre.history_bytes().skip(k as int + 1));
                    assert(sum_of(cur) == cur[0] + sum_of(cur.drop_first()));
                }
                let e = self.history.remove(0);
                self.total_bytes = self.total_bytes - e.bytes;
                k = k + 1;
                proof {
                    self.evicted@ = pre.evicted@ + k;
                    assert(self.history@ =~= pre.history@.skip(k as int));
                    assert(self.history_bytes() =~= pre.history_bytes().skip(k as int));
                }
            }
            proof {
                assert(self.history@ =~= Seq::<StoredMsg>::empty());
                assert(self.history_bytes() =~= Seq::<nat>::empty());
            }
        } else {
            let ghost pre = *self;
            let ghost mut k: int = 0;
            while self.total_bytes > self.budget - b
                invariant
                    0 <= k <= pre.history@.len(),
                    self.history@ == pre.history@.skip(k),
                    self.total_bytes as nat == sum_of(self.history_bytes()),
                    self.history_bytes() == pre.history_bytes().skip(k),
                    self.evicted@ == pre.evicted@ + k,
                    self.budget == pre.budget,
                    self.subs@ == pre.subs@,
                    self.pushes@ == pre.pushes@,
                    pre.total_bytes as nat == sum_of(pre.history_bytes()),
                    b <= pre.budget,
                    forall|j: int|
                        0 <= j < k ==> sum_of(#[trigger] pre.history_bytes().skip(j)) + b
                            > pre.budget as nat,
                decreases self.history@.len(),
            {
                let ghost cur = self.history_bytes();
                let ghost tot_before = self.total_bytes as nat;
                proof {
                    if self.history@.len() == 0 {
                        assert(cur =~= Seq::<nat>::empty());
                        assert(false);
                    }
                    assert(cur[0] == self.history@[0].bytes as nat);
                    assert(cur.drop_first() =~= pre.history_bytes().skip(k + 1));
                    assert(sum_of(cur) == cur[0] + sum_of(cur.drop_first()));
                }
                let e = self.history.remove(0);
                self.total_bytes = self.total_bytes - e.bytes;
                proof {
                    k = k + 1;
                    self.evicted@ = pre.evicted@ + k;
                    assert(self.history@ =~= pre.history@.skip(k));
                    assert(self.history_bytes() =~= pre.history_bytes().skip(k));
                    assert forall|j: int|
                        0 <= j < k implies sum_of(#[trigger] pre.history_bytes().skip(j)) + b
                            > pre.budget as nat by {
                        if j == k - 1 {
                            assert(sum_of(pre.history_bytes().skip(j)) == tot_before);
                        }
                    }
                }
            }
        }

        proof {
            if old(self).history@.len() > 0 {
                assert(old(self).history_bytes().skip(0) =~= old(self).history_bytes());
            }
        }

        // append the new entry
        let ghost pre2 = *self;
        self.history.push(StoredMsg { msg, bytes: b });
        self.total_bytes = self.total_bytes + b;
        proof {
            self.pushes@ = old(self).pushes@.push(gm);
            self.evicted@ = pre2.evicted@;
            lemma_sum_push(pre2.history_bytes(), b as nat);
            assert(self.history_bytes() =~= pre2.history_bytes().push(b as nat));
            assert(self.history_msgs() =~= pre2.history_msgs().push(gm));
            // the retained history stays a contiguous suffix of the push order
            assert(pre2.history_msgs() =~= old(self).history_msgs().skip(
                pre2.evicted@ - old(self).evicted@,
            ));
            assert(old(self).history_msgs().skip(pre2.evicted@ - old(self).evicted@)
                =~= old(self).pushes@.subrange(pre2.evicted@, old(self).pushes@.len() as int));
            assert(self.history_msgs() =~= self.pushes@.subrange(
                self.evicted@,
                self.pushes@.len() as int,
            ));
            // each mailbox already points one past the old push count
            assert forall|i2: int| 0 <= i2 < self.subs@.len() implies self.mailbox_wf(i2) by {
                assert(self.subs@ == subs2);
                assert(old(self).mailbox_wf(i2));
                let nb = self.subs@[i2];
                assert(nb.queue@.map_values(|m: LogMsg| m@) =~= self.pushes@.subrange(
                    nb.next@,
                    self.pushes@.len() as int,
                ));
                if !nb.lagged_ever@ {
                    assert(nb.received@ =~= self.pushes@.subrange(nb.sub_at@, nb.next@));
                }
            }
        }
    }
    /// Subscribe for live updates: returns the id of a fresh mailbox that
    /// will receive every message pushed after this call.
    pub fn get_receiver(&mut self) -> (id: usize)
        requires
            old(self).wf(),
        ensures
            final(self).wf(),
            id == old(self).num_subs(),
            final(self).num_subs() == old(self).num_subs() + 1,
            final(self).pushes() == old(self).pushes(),
            final(self).history_msgs() == old(self).history_msgs(),
            final(self).total() == old(self).total(),
            final(self).budget_spec() == old(self).budget_spec(),
            final(self).evicted() == old(self).evicted(),
            final(self).sub_at(id as int) == old(self).pushes().len(),
            final(self).sub_next(id as int) == old(self).pushes().len(),
            final(self).sub_queue(id as int) == Seq::<MsgView>::empty(),
            final(self).sub_received(id as int) == Seq::<MsgView>::empty(),
            !final(self).sub_lagged(id as int),
            !final(self).sub_lag_pending(id as int),
            forall|i: int|
                0 <= i < old(self).num_subs() ==> #[trigger] final(self).sub_unchanged(
                    old(self),
                    i,
                ),
    {
        let id = self.subs.len();
        let ghost plen = self.pushes@.len() as int;
        self.subs.push(
            Mailbox {
                queue: Vec::new(),
                lag_pending: false,
                sub_at: Ghost(plen),
                next: Ghost(plen),
                received: Ghost(Seq::empty()),
                lagged_ever: Ghost(false),
            },
        );
        proof {
            assert forall|i: int| 0 <= i < self.subs@.len() implies self.mailbox_wf(i) by {
                if i < id {
                    assert(old(self).mailbox_wf(i));
                } else {
                    let mb = self.subs@[i];
                    assert(mb.queue@.map_values(|m: LogMsg| m@) =~= self.pushes@.subrange(
                        plen,
                        plen,
                    ));
                    assert(mb.received@ =~= self.pushes@.subrange(plen, plen));
                }
            }
            assert(self.sub_queue(id as int) =~= Seq::<MsgView>::empty());
        }
        id
    }

    /// Poll subscriber `id`'s mailbox: a pending lag notification comes
    /// first, then the oldest pending message, else nothing.
    pub fn try_recv(&mut self, id: usize) -> (r: RecvResult)
        requires
            old(self).wf(),
            id < old(self).num_subs(),
        ensures
            final(self).wf(),
            final(self).pushes() == old(self).pushes(),
            final(self).history_msgs() == old(self).history_msgs(),
            final(self).total() == old(self).total(),
            final(self).budget_spec() == old(self).budget_spec(),
            final(self).evicted() == old(self).evicted(),
            final(self).num_subs() == old(self).num_subs(),
            forall|i: int|
                0 <= i < old(self).num_subs() && i != id ==> #[trigger] final(self).sub_unchanged(
                    old(self),
                    i,
                ),
            final(self).sub_at(id as int) == old(self).sub_at(id as int),
            final(self).sub_lagged(id as int) == old(self).sub_lagged(id as int),
            old(self).sub_lag_pending(id as int) ==> {
                &&& r is Lagged
                &&& !final(self).sub_lag_pending(id as int)
                &&& final(self).sub_next(id as int) == old(self).sub_next(id as int)
                &&& final(self).sub_queue(id as int) == old(self).sub_queue(id as int)
                &&& final(self).sub_received(id as int) == old(self).sub_received(id as int)
            },
            !old(self).sub_lag_pending(id as int) && old(self).sub_queue(id as int).len() == 0
                ==> {
                &&& r is Empty
                &&& final(self).sub_unchanged(old(self), id as int)
            },
            !old(self).sub_lag_pending(id as int) && old(self).sub_queue(id as int).len() > 0
                ==> {
                &&& r matches RecvResult::Msg(m) && m@ == old(self).sub_queue(id as int)[0]
                &&& final(self).sub_next(id as int) == old(self).sub_next(id as int) + 1
                &&& final(self).sub_queue(id as int) == old(self).sub_queue(
                    id as int,
                ).drop_first()
                &&& final(self).sub_received(id as int) == old(self).sub_received(
                    id as int,
                ).push(old(self).sub_queue(id as int)[0])
                &&& !final(self).sub_lag_pending(id as int)
            },
    {
        let mut mb = self.subs.remove(id);
        proof {
            assert(old(self).mailbox_wf(id as int));
            assert(mb == old(self).subs@[id as int]);
        }
        let r;
        if mb.lag_pending {
            mb.lag_pending = false;
            r = RecvResult::Lagged;
        } else if mb.queue.len() == 0 {
            proof {
                assert(mb.queue@.map_values(|m: LogMsg| m@) =~= Seq::<MsgView>::empty());
            }
            r = RecvResult::Empty;
        } else {
            let ghost q0 = mb.queue@;
            let m = mb.queue.remove(0);
            proof {
                assert(m == q0[0]);
                assert(mb.queue@ =~= q0.subrange(1, q0.len() as int));
                assert(mb.queue@.map_values(|m2: LogMsg| m2@) =~= q0.map_values(
                    |m2: LogMsg| m2@,
                ).drop_first());
                mb.next@ = mb.next@ + 1;
                mb.received@ = mb.received@.push(m@);
            }
            proof {
                assert(q0.map_values(|m2: LogMsg| m2@)[0] == m@);
                assert(m@ == self.pushes@[mb.next@ - 1]);
                assert(q0.map_values(|m2: LogMsg| m2@).drop_first() =~= self.pushes@.subrange(
                    mb.next@,
                    self.pushes@.len() as int,
                ));
                if !mb.lagged_ever@ {
                    assert(mb.received@ =~= self.pushes@.subrange(mb.sub_at@, mb.next@));
                }
            }
            r = RecvResult::Msg(m);
        }
        self.subs.insert(id, mb);
        proof {
            assert forall|i: int| 0 <= i < self.subs@.len() implies self.mailbox_wf(i) by {
                assert(old(self).mailbox_wf(i));
            }
            assert(old(self).sub_queue(id as int) =~= old(self).subs@[
                id as int
            ].queue@.map_values(|m2: LogMsg| m2@));
        }
        r
    }

    /// The running byte total of the retained history.
    pub fn total_bytes(&self) -> (r: usize)
        ensures
            r == self.total(),
    {
        self.total_bytes
    }

    /// How many subscriber mailboxes exist.
    pub fn subscriber_count(&self) -> (r: usize)
        ensures
            r == self.num_subs(),
    {
        self.subs.len()
    }

    /// Point-in-time copy of the retained history, oldest first.
    pub fn get_history(&self) -> (r: Vec<LogMsg>)
        ensures
            r@.map_values(|m: LogMsg| m@) == self.history_msgs(),
    {
        let mut r: Vec<LogMsg> = Vec::new();
        let n = self.history.len();
        let mut i: usize = 0;
        while i < n
            invariant
                i <= n,
                n == self.history@.len(),
                r@.len() == i,
                forall|j: int| 0 <= j < i ==> (#[trigger] r@[j])@ == self.history@[j].msg@,
            decreases n - i,
        {
            let c = self.history[i].msg.clone();
            r.push(c);
            i = i + 1;
        }
        proof {
            assert(r@.map_values(|m: LogMsg| m@) =~= self.history_msgs());
        }
        r
    }

    /// Push a chunk of standard output.
    pub fn push_stdout(&mut self, s: String)
        requires
            old(self).wf(),
        ensures
            final(self).wf(),
            final(self).pushes() == old(self).pushes().push(MsgView::Stdout(s@)),
            final(self).budget_spec() == old(self).budget_spec(),
            final(self).num_subs() == old(self).num_subs(),
    {
        self.push(LogMsg::Stdout(s));
    }

    /// Push a chunk of standard error.
    pub fn push_stderr(&mut self, s: String)
        requires
            old(self).wf(),
        ensures
            final(self).wf(),
            final(self).pushes() == old(self).pushes().push(MsgView::Stderr(s@)),
            final(self).budget_spec() == old(self).budget_spec(),
            final(self).num_subs() == old(self).num_subs(),
    {
        self.push(LogMsg::Stderr(s));
    }

    /// Push the agent's own session identifier.
    pub fn push_session_id(&mut self, session_id: String)
        requires
            old(self).wf(),
        ensures
            final(self).wf(),
            final(self).pushes() == old(self).pushes().push(MsgView::SessionId(session_id@)),
            final(self).budget_spec() == old(self).budget_spec(),
            final(self).num_subs() == old(self).num_subs(),
    {
        self.push(LogMsg::SessionId(session_id));
    }

    /// Push the terminal sentinel.
    pub fn push_finished(&mut self)
        requires
            old(self).wf(),
        ensures
            final(self).wf(),
            final(self).pushes() == old(self).pushes().push(MsgView::Finished),
            final(self).budget_spec() == old(self).budget_spec(),
            final(self).num_subs() == old(self).num_subs(),
    {
        self.push(LogMsg::Finished);
    }
}

/// Costs of a sequence of events.
pub open spec fn costs_of(s: Seq<MsgView>) -> Seq<nat> {
    s.map_values(|m: MsgView| cost(m))
}

/// Law: at every quiescent moment the store's byte total equals the sum of
/// the retained entries' costs, and whenever no retained entry on its own
/// exceeds the budget, the total stays within the budget.
pub proof fn lemma_byte_accounting(s: &MsgStore)
    requires
        s.wf(),
        forall|i: int|
            0 <= i < s.history_msgs().len() ==> cost(#[trigger] s.history_msgs()[i])
                <= s.budget_spec(),
    ensures
        s.total() == sum_of(costs_of(s.history_msgs())),
        s.total() <= s.budget_spec(),
{
    assert(s.history_bytes() =~= costs_of(s.history_msgs()));
    if s.history_msgs().len() == 1 {
        let c = s.history_bytes();
        assert(c.len() == 1);
        assert(c.drop_first() =~= Seq::<nat>::empty());
        assert(sum_of(c.drop_first()) == 0);
        assert(sum_of(c) == c[0] + sum_of(c.drop_first()));
        assert(cost(s.history_msgs()[0]) <= s.budget_spec());
    }
}

/// Law: in a well-formed store the recorded per-entry byte counts are the
/// entries' costs, whenever those costs fit the machine; this ties the
/// eviction clauses of `push`, stated over the recorded counts, to the
/// events themselves.
pub proof fn lemma_recorded_costs(s: &MsgStore)
    requires
        s.wf(),
        forall|i: int|
            0 <= i < s.history_msgs().len() ==> cost(#[trigger] s.history_msgs()[i])
                <= usize::MAX,
    ensures
        s.history_bytes() == costs_of(s.history_msgs()),
{
    assert forall|i: int|
        0 <= i < s.history_bytes().len() implies #[trigger] s.history_bytes()[i] == costs_of(
        s.history_msgs(),
    )[i] by {
        assert(s.history_msgs()[i] == s.history@[i].msg@);
        assert(s.history_bytes()[i] == s.history@[i].bytes as nat);
    }
    assert(s.history_bytes() =~= costs_of(s.history_msgs()));
}

/// Law: the basic shape of a well-formed store: the eviction point lies
/// within the push order, the retained history is exactly the suffix of the
/// push order from that point, and the byte total is the sum of the
/// recorded entry costs.
pub proof fn lemma_store_shape(s: &MsgStore)
    requires
        s.wf(),
    ensures
        0 <= s.evicted() <= s.pushes().len(),
        s.history_msgs() == s.pushes().subrange(s.evicted(), s.pushes().len() as int),
        s.history_msgs().len() == s.pushes().len() - s.evicted(),
        s.total() == sum_of(s.history_bytes()),
{
}

/// Law: every mailbox holds a contiguous suffix of the push order, so a
/// subscriber never sees messages out of order or from before a gap.
pub proof fn lemma_mailbox_contiguous(s: &MsgStore, i: int)
    requires
        s.wf(),
        0 <= i < s.num_subs(),
    ensures
        0 <= s.sub_at(i) <= s.sub_next(i) <= s.pushes().len(),
        s.sub_queue(i) == s.pushes().subrange(s.sub_next(i), s.pushes().len() as int),
{
    assert(s.mailbox_wf(i));
}

/// Law: a subscriber that has never lagged receives exactly the contiguous
/// suffix of the push order that starts at its subscription point: what it
/// has been handed so far, followed by what is still pending, is that
/// suffix with nothing lost, duplicated or reordered.
pub proof fn lemma_subscriber_suffix(s: &MsgStore, i: int)
    requires
        s.wf(),
        0 <= i < s.num_subs(),
        !s.sub_lagged(i),
    ensures
        s.sub_received(i) == s.pushes().subrange(s.sub_at(i), s.sub_next(i)),
        s.sub_received(i) + s.sub_queue(i) == s.pushes().subrange(
            s.sub_at(i),
            s.pushes().len() as int,
        ),
{
    assert(s.mailbox_wf(i));
    assert(s.pushes().subrange(s.sub_at(i), s.sub_next(i)) + s.pushes().subrange(
        s.sub_next(i),
        s.pushes().len() as int,
    ) =~= s.pushes().subrange(s.sub_at(i), s.pushes().len() as int));
}

#[verifier::external_type_specification]
#[verifier::external_body]
pub struct ExPatch(json_patch::Patch);

#[verifier::external_type_specification]
#[verifier::external_body]
pub struct ExPatchOperation(json_patch::PatchOperation);

/// Relies on serde_json::to_string: serializes an RFC 6902 patch to its
/// JSON text, an array of operations (at least `[]`), failing only if the
/// underlying serializer fails.
#[verifier::external_body]
fn patch_to_text(patch: &json_patch::Patch) -> (r: Option<String>)
    ensures
        r matches Some(t) ==> t@.len() >= 2,
{
    match serde_json::to_string(patch) {
        Ok(s) => Some(s),
        Err(_) => None,
    }
}

impl MsgStore {
    /// Push an RFC 6902 patch event; the patch is retained in its
    /// serialized JSON form (an unserializable patch is recorded as an
    /// empty payload rather than rejected: a push never fails).
    pub fn push_patch(&mut self, patch: &json_patch::Patch)
        requires
            old(self).wf(),
        ensures
            final(self).wf(),
            final(self).pushes().len() == old(self).pushes().len() + 1,
            final(self).pushes().last() is JsonPatch,
            final(self).pushes().take(old(self).pushes().len() as int) == old(self).pushes(),
            final(self).budget_spec() == old(self).budget_spec(),
            final(self).num_subs() == old(self).num_subs(),
    {
        let text = match patch_to_text(patch) {
            Some(t) => t,
            None => String::new(),
        };
        self.push(LogMsg::JsonPatch(text));
        proof {
            assert(self.pushes().take(old(self).pushes().len() as int) =~= old(self).pushes());
        }
    }
}

/// Lazy history-then-live reader created by `history_plus_stream`: yields
/// the snapshot entries first, then messages from its own live mailbox.
pub struct HistoryTail {
    snapshot: Vec<LogMsg>,
    pos: usize,
    sub: usize,
}

impl HistoryTail {
    /// The snapshot captured when this reader was created.
    pub closed spec fn snapshot_msgs(&self) -> Seq<MsgView> {
        self.snapshot@.map_values(|m: LogMsg| m@)
    }

    /// How many snapshot entries have been yielded.
    pub closed spec fn pos_spec(&self) -> int {
        self.pos as int
    }

    /// The id of this reader's mailbox.
    pub closed spec fn sub_id(&self) -> int {
        self.sub as int
    }

    /// Everything this reader has yielded so far, in order (assuming it is
    /// the only reader of its mailbox).
    pub open spec fn delivered(&self, store: &MsgStore) -> Seq<MsgView> {
        self.snapshot_msgs().take(self.pos_spec()) + store.sub_received(self.sub_id())
    }

    /// Everything still pending for this reader right now.
    pub open spec fn remaining(&self, store: &MsgStore) -> Seq<MsgView> {
        self.snapshot_msgs().skip(self.pos_spec()) + store.sub_queue(self.sub_id())
    }

    /// The reader is tied to a live mailbox of `store` and has not started
    /// on the live tail before finishing the snapshot.
    pub open spec fn wf(&self, store: &MsgStore) -> bool {
        &&& store.wf()
        &&& 0 <= self.sub_id() < store.num_subs()
        &&& 0 <= self.pos_spec() <= self.snapshot_msgs().len()
        &&& (self.pos_spec() < self.snapshot_msgs().len() ==> store.sub_received(
            self.sub_id(),
        ).len() == 0)
    }

    /// Yield the next message: snapshot entries first, then live messages.
    /// A mailbox overflow notification is skipped; the messages it stands
    /// for are simply missing from the live tail.
    pub fn next(&mut self, store: &mut MsgStore) -> (r: Option<LogMsg>)
        requires
            old(self).wf(old(store)),
        ensures
            final(self).wf(final(store)),
            final(store).pushes() == old(store).pushes(),
            final(store).history_msgs() == old(store).history_msgs(),
            final(store).total() == old(store).total(),
            final(store).budget_spec() == old(store).budget_spec(),
            final(store).evicted() == old(store).evicted(),
            final(store).num_subs() == old(store).num_subs(),
            forall|i: int|
                0 <= i < old(store).num_subs() && i != old(self).sub_id()
                    ==> #[trigger] final(store).sub_unchanged(old(store), i),
            final(self).sub_id() == old(self).sub_id(),
            final(self).snapshot_msgs() == old(self).snapshot_msgs(),
            final(store).sub_at(old(self).sub_id()) == old(store).sub_at(old(self).sub_id()),
            final(store).sub_lagged(old(self).sub_id()) == old(store).sub_lagged(
                old(self).sub_id(),
            ),
            r matches Some(m) ==> {
                &&& old(self).remaining(old(store)).len() > 0
                &&& m@ == old(self).remaining(old(store))[0]
                &&& final(self).remaining(final(store)) == old(self).remaining(
                    old(store),
                ).drop_first()
                &&& final(self).delivered(final(store)) == old(self).delivered(old(store)).push(
                    m@,
                )
            },
            r is None ==> {
                &&& old(self).remaining(old(store)).len() == 0
                &&& final(self).remaining(final(store)).len() == 0
                &&& final(self).delivered(final(store)) == old(self).delivered(old(store))
            },
    {
        let ghost sid = self.sub as int;
        if self.pos < self.snapshot.len() {
            let c = self.snapshot[self.pos].clone();
            proof {
                assert(c@ == self.snapshot_msgs()[self.pos as int]);
                assert(old(self).remaining(old(store))[0] == self.snapshot_msgs().skip(
                    self.pos as int,
                )[0]);
            }
            self.pos = self.pos + 1;
            proof {
                assert(old(store).sub_received(sid).len() == 0);
                assert(final(self).remaining(store) =~= old(self).remaining(
                    old(store),
                ).drop_first());
                assert(final(self).delivered(store) =~= old(self).delivered(old(store)).push(c@));
                if self.pos_spec() < self.snapshot_msgs().len() {
                    assert(store.sub_received(sid).len() == 0);
                }
            }
            Some(c)
        } else {
            proof {
                assert(self.snapshot_msgs().skip(self.pos as int) =~= Seq::<MsgView>::empty());
                assert(self.snapshot_msgs().take(self.pos as int) =~= self.snapshot_msgs());
            }
            let first = store.try_recv(self.sub);
            match first {
                RecvResult::Msg(m) => {
                    proof {
                        assert(old(self).remaining(old(store))[0] == old(store).sub_queue(sid)[0]);
                        assert(final(self).remaining(store) =~= old(self).remaining(
                            old(store),
                        ).drop_first());
                        assert(final(self).delivered(store) =~= old(self).delivered(
                            old(store),
                        ).push(m@));
                    }
                    Some(m)
                },
                RecvResult::Empty => {
                    proof {
                        assert(old(self).remaining(old(store)) =~= Seq::<MsgView>::empty());
                        assert(final(self).delivered(store) =~= old(self).delivered(old(store)));
                        assert(final(self).remaining(store) =~= Seq::<MsgView>::empty());
                    }
                    None
                },
                RecvResult::Lagged => {
                    let ghost mid = *store;
                    let second = store.try_recv(self.sub);
                    proof {
                        assert forall|i: int|
                            0 <= i < old(store).num_subs() && i != sid implies #[trigger] store.sub_unchanged(
                            old(store),
                            i,
                        ) by {
                            assert(mid.sub_unchanged(old(store), i));
                            assert(store.sub_unchanged(&mid, i));
                        }
                    }
                    match second {
                        RecvResult::Msg(m) => {
                            proof {
                                assert(old(self).remaining(old(store))[0] == old(store).sub_queue(
                                    sid,
                                )[0]);
                                assert(final(self).remaining(store) =~= old(self).remaining(
                                    old(store),
                                ).drop_first());
                                assert(final(self).delivered(store) =~= old(self).delivered(
                                    old(store),
                                ).push(m@));
                            }
                            Some(m)
                        },
                        _ => {
                            proof {
                                assert(old(self).remaining(old(store)) =~= Seq::<
                                    MsgView,
                                >::empty());
                                assert(final(self).delivered(store) =~= old(self).delivered(
                                    old(store),
                                ));
                                assert(final(self).remaining(store) =~= Seq::<MsgView>::empty());
                            }
                            None
                        },
                    }
                },
            }
        }
    }
}

impl MsgStore {
    /// Atomically subscribe and snapshot. The returned reader yields the
    /// retained history first and then the live tail; the receiver is taken
    /// before the snapshot and nothing interleaves, so no message is lost
    /// and none is duplicated at the seam.
    pub fn history_plus_stream(&mut self) -> (t: HistoryTail)
        requires
            old(self).wf(),
        ensures
            final(self).wf(),
            t.wf(final(self)),
            t.sub_id() == old(self).num_subs(),
            t.pos_spec() == 0,
            t.snapshot_msgs() == old(self).history_msgs(),
            final(self).num_subs() == old(self).num_subs() + 1,
            final(self).pushes() == old(self).pushes(),
            final(self).history_msgs() == old(self).history_msgs(),
            final(self).total() == old(self).total(),
            final(self).budget_spec() == old(self).budget_spec(),
            final(self).evicted() == old(self).evicted(),
            forall|i: int|
                0 <= i < old(self).num_subs() ==> #[trigger] final(self).sub_unchanged(
                    old(self),
                    i,
                ),
            final(self).sub_at(t.sub_id()) == old(self).pushes().len(),
            !final(self).sub_lagged(t.sub_id()),
            t.remaining(final(self)) == old(self).history_msgs(),
            t.delivered(final(self)) == Seq::<MsgView>::empty(),
    {
        let sub = self.get_receiver();
        let snapshot = self.get_history();
        let t = HistoryTail { snapshot, pos: 0, sub };
        proof {
            assert(t.remaining(self) =~= self.history_msgs());
            assert(t.delivered(self) =~= Seq::<MsgView>::empty());
            assert(t.snapshot_msgs().take(0) =~= Seq::<MsgView>::empty());
            assert(t.snapshot_msgs().skip(0) =~= t.snapshot_msgs());
        }
        t
    }
}

/// Law: a history-plus-live stream created before any eviction misses
/// nothing and duplicates nothing: what it has yielded so far followed by
/// what is still pending is exactly the whole push order, provided its
/// mailbox never overflowed.
pub proof fn lemma_history_plus_stream_complete(store: &MsgStore, t: &HistoryTail)
    requires
        t.wf(store),
        store.evicted() == 0,
        !store.sub_lagged(t.sub_id()),
        t.snapshot_msgs() == store.pushes().subrange(0, store.sub_at(t.sub_id())),
    ensures
        t.delivered(store) + t.remaining(store) == store.pushes(),
{
    lemma_mailbox_contiguous(store, t.sub_id());
    lemma_subscriber_suffix(store, t.sub_id());
    assert(t.snapshot_msgs().take(t.pos_spec()) + t.snapshot_msgs().skip(t.pos_spec())
        =~= t.snapshot_msgs());
    assert(t.delivered(store) + t.remaining(store) =~= t.snapshot_msgs() + (store.sub_received(
        t.sub_id(),
    ) + store.sub_queue(t.sub_id())));
    assert(store.pushes().subrange(0, store.sub_at(t.sub_id())) + store.pushes().subrange(
        store.sub_at(t.sub_id()),
        store.pushes().len() as int,
    ) =~= store.pushes());
}

/// Which output kind a chunked view yields.
#[derive(Clone, Copy, Debug, PartialEq, Eq, Structural)]
pub enum ChunkKind {
    Stdout,
    Stderr,
}

/// Whether the sequence contains the terminal `Finished` sentinel.
pub open spec fn has_finished(s: Seq<MsgView>) -> bool {
    exists|i: int| 0 <= i < s.len() && s[i] is Finished
}

/// The payload a chunked view of `kind` extracts from one event.
pub open spec fn chunk_payload(kind: ChunkKind, m: MsgView) -> Option<Seq<char>> {
    match m {
        MsgView::Stdout(s) => if kind == ChunkKind::Stdout {
            Some(s)
        } else {
            None
        },
        MsgView::Stderr(s) => if kind == ChunkKind::Stderr {
            Some(s)
        } else {
            None
        },
        _ => None,
    }
}

/// An event a chunked view of `kind` silently passes over: it carries no
/// payload of that kind and is not the terminal sentinel.
pub open spec fn skipped_by(kind: ChunkKind, m: MsgView) -> bool {
    chunk_payload(kind, m) is None && !(m is Finished)
}

/// The payload chunks of `kind` yielded for the event sequence `s`: the
/// payloads of the matching events, in order, up to the first `Finished`.
pub open spec fn chunks_of(kind: ChunkKind, s: Seq<MsgView>) -> Seq<Seq<char>>
    decreases s.len(),
{
    if s.len() == 0 {
        Seq::empty()
    } else {
        let front = chunks_of(kind, s.drop_last());
        if has_finished(s.drop_last()) {
            front
        } else {
            match chunk_payload(kind, s.last()) {
                Some(p) => front.push(p),
                None => front,
            }
        }
    }
}

pub proof fn lemma_has_finished_push(d: Seq<MsgView>, m: MsgView)
    ensures
        has_finished(d.push(m)) <==> (has_finished(d) || m is Finished),
{
    if has_finished(d) {
        let i = choose|i: int| 0 <= i < d.len() && d[i] is Finished;
        assert(d.push(m)[i] is Finished);
    }
    if m is Finished {
        assert(d.push(m)[d.len() as int] is Finished);
    }
    if has_finished(d.push(m)) && !(m is Finished) && !has_finished(d) {
        let i = choose|i: int| 0 <= i < d.push(m).len() && d.push(m)[i] is Finished;
        assert(d[i] is Finished);
    }
}

/// Law: the chunked views terminate at `Finished`. Once a sequence contains
/// the sentinel, events appended after it contribute no further chunks.
pub proof fn lemma_chunks_stop_at_finished(kind: ChunkKind, s: Seq<MsgView>, t: Seq<MsgView>)
    requires
        has_finished(s),
    ensures
        chunks_of(kind, s + t) == chunks_of(kind, s),
    decreases t.len(),
{
    if t.len() == 0 {
        assert(s + t =~= s);
    } else {
        lemma_chunks_stop_at_finished(kind, s, t.drop_last());
        let st = s + t;
        assert(st.drop_last() =~= s + t.drop_last());
        let i = choose|i: int| 0 <= i < s.len() && s[i] is Finished;
        assert((s + t.drop_last())[i] is Finished);
        assert(st.len() > 0);
    }
}

fn chunks_collect(kind: ChunkKind, msgs: &Vec<LogMsg>) -> (r: Vec<String>)
    ensures
        r@.map_values(|s: String| s@) == chunks_of(kind, msgs@.map_values(|m: LogMsg| m@)),
{
    let ghost views = msgs@.map_values(|m: LogMsg| m@);
    let mut out: Vec<String> = Vec::new();
    let mut fin = false;
    let n = msgs.len();
    let mut i: usize = 0;
    while i < n
        invariant
            i <= n,
            n == msgs@.len(),
            views == msgs@.map_values(|m: LogMsg| m@),
            fin == has_finished(views.take(i as int)),
            out@.map_values(|s: String| s@) == chunks_of(kind, views.take(i as int)),
        decreases n - i,
    {
        proof {
            assert(views.take(i as int + 1).drop_last() =~= views.take(i as int));
            assert(views.take(i as int + 1).last() == views[i as int]);
            assert(views[i as int] == msgs@[i as int]@);
            assert(views.take(i as int).push(views[i as int]) =~= views.take(i as int + 1));
            lemma_has_finished_push(views.take(i as int), views[i as int]);
        }
        if !fin {
            let m = &msgs[i];
            match m {
                LogMsg::Stdout(sx) => {
                    if kind == ChunkKind::Stdout {
                        out.push(sx.clone());
                        proof {
                            assert(out@.map_values(|s: String| s@) =~= chunks_of(
                                kind,
                                views.take(i as int),
                            ).push(sx@));
                        }
                    }
                },
                LogMsg::Stderr(sx) => {
                    if kind == ChunkKind::Stderr {
                        out.push(sx.clone());
                        proof {
                            assert(out@.map_values(|s: String| s@) =~= chunks_of(
                                kind,
                                views.take(i as int),
                            ).push(sx@));
                        }
                    }
                },
                LogMsg::Finished => {
                    fin = true;
                },
                _ => {},
            }
        }
        i = i + 1;
    }
    proof {
        assert(views.take(n as int) =~= views);
    }
    out
}

/// The stdout chunks a chunked view would yield for `msgs`: payloads of
/// `Stdout` events up to the first `Finished`.
pub fn stdout_chunks_of(msgs: &Vec<LogMsg>) -> (r: Vec<String>)
    ensures
        r@.map_values(|s: String| s@) == chunks_of(
            ChunkKind::Stdout,
            msgs@.map_values(|m: LogMsg| m@),
        ),
{
    chunks_collect(ChunkKind::Stdout, msgs)
}

/// The stderr chunks a chunked view would yield for `msgs`: payloads of
/// `Stderr` events up to the first `Finished`.
pub fn stderr_chunks_of(msgs: &Vec<LogMsg>) -> (r: Vec<String>)
    ensures
        r@.map_values(|s: String| s@) == chunks_of(
            ChunkKind::Stderr,
            msgs@.map_values(|m: LogMsg| m@),
        ),
{
    chunks_collect(ChunkKind::Stderr, msgs)
}

/// Filtered history-then-live reader: yields only the payloads of one
/// output kind and stops for good at the first `Finished`.
pub struct ChunkedTail {
    tail: HistoryTail,
    kind: ChunkKind,
    done: bool,
}

impl ChunkedTail {
    /// Which output kind this reader yields.
    pub closed spec fn kind_spec(&self) -> ChunkKind {
        self.kind
    }

    /// Whether the reader has seen `Finished` and will yield nothing more.
    pub closed spec fn done_spec(&self) -> bool {
        self.done
    }

    /// The id of the underlying mailbox.
    pub closed spec fn sub_id(&self) -> int {
        self.tail.sub_id()
    }

    /// The snapshot captured when this reader was created.
    pub closed spec fn snapshot_msgs(&self) -> Seq<MsgView> {
        self.tail.snapshot_msgs()
    }

    /// Everything the underlying reader has consumed so far.
    pub closed spec fn delivered(&self, store: &MsgStore) -> Seq<MsgView> {
        self.tail.delivered(store)
    }

    /// Everything still pending for the underlying reader.
    pub closed spec fn remaining(&self, store: &MsgStore) -> Seq<MsgView> {
        self.tail.remaining(store)
    }

    /// Well-formed: tied to a live mailbox, and `done` exactly records
    /// whether a `Finished` has been consumed.
    pub closed spec fn wf(&self, store: &MsgStore) -> bool {
        &&& self.tail.wf(store)
        &&& (self.done <==> has_finished(self.tail.delivered(store)))
    }

    /// Yield the next chunk of the selected kind. The reader consumes
    /// messages from its pending stream in order, passing over events of
    /// other kinds, until it finds a matching payload (yielded), the
    /// terminal `Finished` (after which it is exhausted for good), or the
    /// end of what is currently pending.
    pub fn next(&mut self, store: &mut MsgStore) -> (r: Option<String>)
        requires
            old(self).wf(old(store)),
        ensures
            final(self).wf(final(store)),
            final(self).kind_spec() == old(self).kind_spec(),
            final(self).sub_id() == old(self).sub_id(),
            final(self).snapshot_msgs() == old(self).snapshot_msgs(),
            final(store).pushes() == old(store).pushes(),
            final(store).history_msgs() == old(store).history_msgs(),
            final(store).total() == old(store).total(),
            final(store).budget_spec() == old(store).budget_spec(),
            final(store).num_subs() == old(store).num_subs(),
            forall|i: int|
                0 <= i < old(store).num_subs() && i != old(self).sub_id()
                    ==> #[trigger] final(store).sub_unchanged(old(store), i),
            old(self).done_spec() ==> {
                &&& r is None
                &&& final(self).done_spec()
                &&& final(self).delivered(final(store)) == old(self).delivered(old(store))
                &&& final(self).remaining(final(store)) == old(self).remaining(old(store))
            },
            r matches Some(p) ==> exists|k: int|
                {
                    &&& 1 <= k <= old(self).remaining(old(store)).len()
                    &&& final(self).delivered(final(store)) == old(self).delivered(old(store))
                        + #[trigger] old(self).remaining(old(store)).take(k)
                    &&& final(self).remaining(final(store)) == old(self).remaining(
                        old(store),
                    ).skip(k)
                    &&& chunk_payload(
                        old(self).kind_spec(),
                        old(self).remaining(old(store))[k - 1],
                    ) == Some(p@)
                    &&& !(old(self).remaining(old(store))[k - 1] is Finished)
                    &&& (forall|t: int|
                        0 <= t < k - 1 ==> skipped_by(
                            old(self).kind_spec(),
                            #[trigger] old(self).remaining(old(store))[t],
                        ))
                    &&& !final(self).done_spec()
                },
            r is None && !old(self).done_spec() ==> exists|k: int|
                {
                    &&& 0 <= k <= old(self).remaining(old(store)).len()
                    &&& final(self).delivered(final(store)) == old(self).delivered(old(store))
                        + #[trigger] old(self).remaining(old(store)).take(k)
                    &&& final(self).remaining(final(store)) == old(self).remaining(
                        old(store),
                    ).skip(k)
                    &&& (final(self).done_spec() ==> {
                        &&& k >= 1
                        &&& old(self).remaining(old(store))[k - 1] is Finished
                        &&& (forall|t: int|
                            0 <= t < k - 1 ==> skipped_by(
                                old(self).kind_spec(),
                                #[trigger] old(self).remaining(old(store))[t],
                            ))
                    })
                    &&& (!final(self).done_spec() ==> {
                        &&& k == old(self).remaining(old(store)).len()
                        &&& final(self).remaining(final(store)).len() == 0
                        &&& (forall|t: int|
                            0 <= t < k ==> skipped_by(
                                old(self).kind_spec(),
                                #[trigger] old(self).remaining(old(store))[t],
                            ))
                    })
                },
            r matches Some(p) ==> {
                &&& chunks_of(old(self).kind_spec(), final(self).delivered(final(store)))
                    == chunks_of(
                    old(self).kind_spec(),
                    old(self).delivered(old(store)),
                ).push(p@)
                &&& !final(self).done_spec()
            },
            r is None ==> {
                &&& chunks_of(old(self).kind_spec(), final(self).delivered(final(store)))
                    == chunks_of(old(self).kind_spec(), old(self).delivered(old(store)))
                &&& (final(self).done_spec() || final(self).remaining(final(store)).len() == 0)
            },
            old(self).done_spec() ==> final(self).done_spec(),
    {
        let ghost sid = self.tail.sub_id();
        let ghost orem = self.tail.remaining(store);
        let ghost odel = self.tail.delivered(store);
        if self.done {
            return None;
        }
        let ghost mut kc: int = 0;
        loop
            invariant
                !old(self).done_spec(),
                !self.done,
                self.wf(store),
                self.kind == old(self).kind,
                self.sub_id() == old(self).sub_id(),
                self.snapshot_msgs() == old(self).snapshot_msgs(),
                store.pushes() == old(store).pushes(),
                store.history_msgs() == old(store).history_msgs(),
                store.total() == old(store).total(),
                store.budget_spec() == old(store).budget_spec(),
                store.num_subs() == old(store).num_subs(),
                forall|i: int|
                    0 <= i < old(store).num_subs() && i != sid ==> #[trigger] store.sub_unchanged(
                        old(store),
                        i,
                    ),
                sid == old(self).sub_id(),
                orem == old(self).remaining(old(store)),
                odel == old(self).delivered(old(store)),
                0 <= kc <= orem.len(),
                self.delivered(store) == odel + orem.take(kc),
                self.remaining(store) == orem.skip(kc),
                forall|t: int|
                    0 <= t < kc ==> skipped_by(old(self).kind_spec(), #[trigger] orem[t]),
                chunks_of(old(self).kind_spec(), self.delivered(store)) == chunks_of(
                    old(self).kind_spec(),
                    old(self).delivered(old(store)),
                ),
            decreases self.remaining(store).len(),
        {
            let ghost pre_store = *store;
            let ghost pre_del = self.tail.delivered(store);
            let ghost pre_rem = self.tail.remaining(store);
            let stepped = self.tail.next(store);
            proof {
                assert forall|i: int|
                    0 <= i < old(store).num_subs() && i != sid implies #[trigger] store.sub_unchanged(
                    old(store),
                    i,
                ) by {
                    assert(pre_store.sub_unchanged(old(store), i));
                    assert(store.sub_unchanged(&pre_store, i));
                }
            }
            match stepped {
                None => {
                    proof {
                        assert(orem.skip(kc) =~= Seq::<MsgView>::empty());
                        assert(kc == orem.len());
                        assert(orem.take(kc) =~= orem);
                    }
                    return None;
                },
                Some(m) => {
                    proof {
                        assert(m@ == pre_rem[0]);
                        assert(pre_rem[0] == orem[kc]);
                        assert(self.tail.delivered(store) == pre_del.push(m@));
                        assert(odel + orem.take(kc + 1) =~= (odel + orem.take(kc)).push(
                            orem[kc],
                        ));
                        assert(self.tail.remaining(store) =~= orem.skip(kc + 1));
                        assert(pre_del.push(m@).drop_last() =~= pre_del);
                        lemma_has_finished_push(pre_del, m@);
                    }
                    match m {
                        LogMsg::Finished => {
                            self.done = true;
                            proof {
                                kc = kc + 1;
                                assert(orem[kc - 1] is Finished);
                            }
                            return None;
                        },
                        LogMsg::Stdout(sx) => {
                            if self.kind == ChunkKind::Stdout {
                                proof {
                                    kc = kc + 1;
                                    assert(chunk_payload(old(self).kind_spec(), orem[kc - 1])
                                        == Some(sx@));
                                }
                                return Some(sx);
                            }
                            proof {
                                kc = kc + 1;
                                assert(skipped_by(old(self).kind_spec(), orem[kc - 1]));
                            }
                        },
                        LogMsg::Stderr(sx) => {
                            if self.kind == ChunkKind::Stderr {
                                proof {
                                    kc = kc + 1;
                                    assert(chunk_payload(old(self).kind_spec(), orem[kc - 1])
                                        == Some(sx@));
                                }
                                return Some(sx);
                            }
                            proof {
                                kc = kc + 1;
                                assert(skipped_by(old(self).kind_spec(), orem[kc - 1]));
                            }
                        },
                        LogMsg::JsonPatch(_) => {
                            proof {
                                kc = kc + 1;
                                assert(skipped_by(old(self).kind_spec(), orem[kc - 1]));
                            }
                        },
                        LogMsg::SessionId(_) => {
                            proof {
                                kc = kc + 1;
                                assert(skipped_by(old(self).kind_spec(), orem[kc - 1]));
                            }
                        },
                    }
                },
            }
        }
    }
}

/// Law: a chunked reader created before any eviction covers the whole push
/// order, provided its mailbox never overflowed: what its underlying reader
/// has consumed so far followed by what is still pending is exactly the
/// store's push sequence.
pub proof fn lemma_chunked_stream_complete(store: &MsgStore, c: &ChunkedTail)
    requires
        c.wf(store),
        store.evicted() == 0,
        !store.sub_lagged(c.sub_id()),
        c.snapshot_msgs() == store.pushes().subrange(0, store.sub_at(c.sub_id())),
    ensures
        c.delivered(store) + c.remaining(store) == store.pushes(),
{
    lemma_history_plus_stream_complete(store, &c.tail);
}

impl MsgStore {
    fn chunked_stream(&mut self, kind: ChunkKind) -> (c: ChunkedTail)
        requires
            old(self).wf(),
        ensures
            final(self).wf(),
            c.wf(final(self)),
            c.kind_spec() == kind,
            !c.done_spec(),
            c.sub_id() == old(self).num_subs(),
            final(self).num_subs() == old(self).num_subs() + 1,
            final(self).pushes() == old(self).pushes(),
            final(self).history_msgs() == old(self).history_msgs(),
            final(self).total() == old(self).total(),
            final(self).budget_spec() == old(self).budget_spec(),
            final(self).evicted() == old(self).evicted(),
            forall|i: int|
                0 <= i < old(self).num_subs() ==> #[trigger] final(self).sub_unchanged(
                    old(self),
                    i,
                ),
            c.remaining(final(self)) == old(self).history_msgs(),
            c.delivered(final(self)) == Seq::<MsgView>::empty(),
            c.snapshot_msgs() == old(self).history_msgs(),
            final(self).sub_at(c.sub_id()) == old(self).pushes().len(),
            !final(self).sub_lagged(c.sub_id()),
    {
        let tail = self.history_plus_stream();
        let c = ChunkedTail { tail, kind, done: false };
        proof {
            assert(!has_finished(Seq::<MsgView>::empty()));
        }
        c
    }

    /// Chunked view of standard output: yields each `Stdout` payload from
    /// the history and then the live tail, ending at the first `Finished`.
    pub fn stdout_chunked_stream(&mut self) -> (c: ChunkedTail)
        requires
            old(self).wf(),
        ensures
            final(self).wf(),
            c.wf(final(self)),
            c.kind_spec() == ChunkKind::Stdout,
            !c.done_spec(),
            c.sub_id() == old(self).num_subs(),
            final(self).num_subs() == old(self).num_subs() + 1,
            final(self).pushes() == old(self).pushes(),
            final(self).history_msgs() == old(self).history_msgs(),
            final(self).total() == old(self).total(),
            final(self).budget_spec() == old(self).budget_spec(),
            c.remaining(final(self)) == old(self).history_msgs(),
            c.delivered(final(self)) == Seq::<MsgView>::empty(),
            c.snapshot_msgs() == old(self).history_msgs(),
            final(self).evicted() == old(self).evicted(),
            final(self).sub_at(c.sub_id()) == old(self).pushes().len(),
            !final(self).sub_lagged(c.sub_id()),
    {
        self.chunked_stream(ChunkKind::Stdout)
    }

    /// Chunked view of standard error, analogous to the stdout view.
    pub fn stderr_chunked_stream(&mut self) -> (c: ChunkedTail)
        requires
            old(self).wf(),
        ensures
            final(self).wf(),
            c.wf(final(self)),
            c.kind_spec() == ChunkKind::Stderr,
            !c.done_spec(),
            c.sub_id() == old(self).num_subs(),
            final(self).num_subs() == old(self).num_subs() + 1,
            final(self).pushes() == old(self).pushes(),
            final(self).history_msgs() == old(self).history_msgs(),
            final(self).total() == old(self).total(),
            final(self).budget_spec() == old(self).budget_spec(),
            c.remaining(final(self)) == old(self).history_msgs(),
            c.delivered(final(self)) == Seq::<MsgView>::empty(),
            c.snapshot_msgs() == old(self).history_msgs(),
            final(self).evicted() == old(self).evicted(),
            final(self).sub_at(c.sub_id()) == old(self).pushes().len(),
            !final(self).sub_lagged(c.sub_id()),
    {
        self.chunked_stream(ChunkKind::Stderr)
    }
}

} // verus!
