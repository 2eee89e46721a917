use vstd::prelude::*;

use crate::expiration::LeaseEntry;
use crate::text::str_equal;

verus! {

/// The leases are ordered by expiry, earliest first.
pub open spec fn sorted_by_expiry(s: Seq<LeaseEntry>) -> bool {
    forall|i: int, j: int| 0 <= i <= j < s.len() ==> s[i].expires_at <= s[j].expires_at
}

/// `after` is `before` with `le` put behind every lease that expires no later
/// than it and in front of every lease that expires later.
pub open spec fn inserted_in_order(before: Seq<LeaseEntry>, le: LeaseEntry, after: Seq<LeaseEntry>) -> bool {
    exists|p: int|
        0 <= p <= before.len() && after == before.insert(p, le) && (forall|k: int|
            0 <= k < p ==> before[k].expires_at <= le.expires_at) && (forall|k: int|
            p <= k < before.len() ==> before[k].expires_at > le.expires_at)
}

/// The first `count` leases of `leases` are what a pull of up to `limit`
/// leases due at `now` selects: only due leases, and, when fewer than
/// `limit`, every due lease.
pub open spec fn pulls_first(leases: Seq<LeaseEntry>, limit: usize, now: i64, count: int) -> bool {
    &&& 0 <= count <= limit
    &&& count <= leases.len()
    &&& forall|i: int| 0 <= i < count ==> (#[trigger] leases[i]).expires_at <= now
    &&& count < limit ==> forall|i: int| count <= i < leases.len() ==> (#[trigger] leases[i]).expires_at > now
}

/// The leases waiting to be revoked, the one that expires first at the front.
pub struct PendingLeases {
    leases: Vec<LeaseEntry>,
}

/// What the revocation worker finds at the front of the queue.
#[derive(Debug, Clone, Copy, PartialEq, Eq, Structural)]
pub enum NextDue {
    /// No lease is waiting.
    Empty,
    /// The front lease has expired and is to be revoked.
    Due,
    /// The front lease expires in `wait` milliseconds.
    NotDue { wait: u64 },
}

impl View for PendingLeases {
    type V = Seq<LeaseEntry>;

    closed spec fn view(&self) -> Seq<LeaseEntry> {
        self.leases@
    }
}

/// Index at which a lease expiring at `at` goes in the ordered `leases`.
fn insertion_index(leases: &Vec<LeaseEntry>, at: i64) -> (r: usize)
    requires
        sorted_by_expiry(leases@),
    ensures
        r <= leases@.len(),
        forall|k: int| 0 <= k < r ==> leases@[k].expires_at <= at,
        forall|k: int| r <= k < leases@.len() ==> leases@[k].expires_at > at,
{
    let mut i: usize = 0;
    while i < leases.len() && leases[i].expires_at <= at
        invariant
            i <= leases@.len(),
            sorted_by_expiry(leases@),
            forall|k: int| 0 <= k < i ==> leases@[k].expires_at <= at,
        decreases leases@.len() - i,
    {
        i = i + 1;
    }
    if i < leases.len() {
        assert forall|k: int| i <= k < leases@.len() implies leases@[k].expires_at > at by {
            assert(leases@[i as int].expires_at <= leases@[k].expires_at);
        }
    }
    i
}

impl PendingLeases {
    /// The queue is ordered by expiry.
    pub open spec fn wf(&self) -> bool {
        sorted_by_expiry(self@)
    }

    /// An empty queue.
    pub fn new() -> (r: Self)
        ensures
            r.wf(),
            r@ == Seq::<LeaseEntry>::empty(),
    {
        PendingLeases { leases: Vec::new() }
    }

    /// Number of waiting leases.
    pub fn len(&self) -> (r: usize)
        ensures
            r == self@.len(),
    {
        self.leases.len()
    }

    /// The lease that expires first, if any.
    pub fn peek(&self) -> (r: Option<&LeaseEntry>)
        ensures
            r == (if self@.len() == 0 {
                None::<&LeaseEntry>
            } else {
                Some(&self@[0])
            }),
    {
        if self.leases.len() == 0 {
            None
        } else {
            Some(&self.leases[0])
        }
    }

    /// Adds `le` in expiry order. The result says whether the revocation
    /// worker must be woken up: the queue was empty, or `le` expires before
    /// every lease already waiting.
    pub fn register(&mut self, le: LeaseEntry) -> (notify: bool)
        requires
            old(self).wf(),
        ensures
            final(self).wf(),
            inserted_in_order(old(self)@, le, final(self)@),
            notify == (old(self)@.len() == 0 || old(self)@[0].expires_at > le.expires_at),
    {
        let notify = self.leases.len() == 0 || self.leases[0].expires_at > le.expires_at;
        let i = insertion_index(&self.leases, le.expires_at);
        let ghost before = self.leases@;
        self.leases.insert(i, le);
        proof {
            let after = self.leases@;
            assert(after == before.insert(i as int, le));
            assert forall|a: int, b: int| 0 <= a <= b < after.len() implies after[a].expires_at
                <= after[b].expires_at by {
                if a < i && b < i {
                } else if a < i && b == i {
                } else if a < i && b > i {
                    assert(after[b] == before[b - 1]);
                } else if a == i && b > i {
                    assert(after[b] == before[b - 1]);
                } else if a > i {
                    assert(after[a] == before[a - 1]);
                    assert(after[b] == before[b - 1]);
                }
            }
            assert(inserted_in_order(before, le, after));
        }
        notify
    }

    /// Takes the lease that expires first out of the queue.
    pub fn pop(&mut self) -> (r: Option<LeaseEntry>)
        requires
            old(self).wf(),
        ensures
            final(self).wf(),
            old(self)@.len() == 0 ==> r is None && final(self)@ == old(self)@,
            old(self)@.len() > 0 ==> r == Some(old(self)@[0]) && final(self)@ == old(
                self,
            )@.drop_first(),
    {
        if self.leases.len() == 0 {
            None
        } else {
            let le = self.leases.remove(0);
            Some(le)
        }
    }

    /// Whether the front lease has expired at `now` (its expiry is not
    /// after `now`), and otherwise how long until it does.
    pub fn next_due(&self, now: i64) -> (r: NextDue)
        ensures
            self@.len() == 0 ==> r == NextDue::Empty,
            self@.len() > 0 && self@[0].expires_at <= now ==> r == NextDue::Due,
            self@.len() > 0 && self@[0].expires_at > now ==> r == (NextDue::NotDue {
                wait: (self@[0].expires_at - now) as u64,
            }),
    {
        if self.leases.len() == 0 {
            NextDue::Empty
        } else if self.leases[0].expires_at <= now {
            NextDue::Due
        } else {
            let wait = (self.leases[0].expires_at as i128 - now as i128) as u64;
            NextDue::NotDue { wait }
        }
    }

    /// How many leases a pull of up to `limit` leases due at `now` selects
    /// from the front of the queue: only due leases (their expiry is not
    /// after `now`), and, when fewer than `limit`, every due lease. The queue
    /// is left as it is.
    pub fn due_count(&self, limit: usize, now: i64) -> (r: usize)
        requires
            self.wf(),
        ensures
            pulls_first(self@, limit, now, r as int),
    {
        let mut k: usize = 0;
        while k < limit && k < self.leases.len() && self.leases[k].expires_at <= now
            invariant
                k <= limit,
                k <= self@.len(),
                forall|i: int| 0 <= i < k ==> (#[trigger] self@[i]).expires_at <= now,
            decreases self@.len() - k,
        {
            k = k + 1;
        }
        if k < limit && k < self.leases.len() {
            assert forall|i: int| k <= i < self@.len() implies (#[trigger] self@[i]).expires_at > now by {
                assert(self@[k as int].expires_at <= self@[i].expires_at);
            }
        }
        k
    }

    /// The lease at position `i` (the front is at 0).
    pub fn get(&self, i: usize) -> (r: &LeaseEntry)
        requires
            i < self@.len(),
        ensures
            *r == self@[i as int],
    {
        &self.leases[i]
    }

    /// Takes the first lease with the id `id` out of the queue, if any.
    pub fn remove_lease(&mut self, id: &str) -> (r: Option<LeaseEntry>)
        requires
            old(self).wf(),
        ensures
            final(self).wf(),
            match r {
                Some(le) => exists|j: int|
                    0 <= j < old(self)@.len() && old(self)@[j].id@ == id@ && (forall|i: int|
                        0 <= i < j ==> (#[trigger] old(self)@[i]).id@ != id@) && le == old(self)@[j]
                        && final(self)@ == old(self)@.remove(j),
                None => final(self)@ == old(self)@ && forall|i: int|
                    0 <= i < old(self)@.len() ==> (#[trigger] old(self)@[i]).id@ != id@,
            },
    {
        let mut j: usize = 0;
        while j < self.leases.len()
            invariant
                j <= self@.len(),
                self@ == old(self)@,
                sorted_by_expiry(self@),
                forall|i: int| 0 <= i < j ==> (#[trigger] self@[i]).id@ != id@,
            decreases self@.len() - j,
        {
            if str_equal(self.leases[j].id.as_str(), id) {
                let ghost before = self.leases@;
                let le = self.leases.remove(j);
                proof {
                    let after = self.leases@;
                    assert(after == before.remove(j as int));
                    assert forall|a: int, b: int| 0 <= a <= b < after.len() implies after[a].expires_at
                        <= after[b].expires_at by {
                        if a < j && b < j {
                        } else if a < j {
                            assert(after[b] == before[b + 1]);
                        } else {
                            assert(after[a] == before[a + 1]);
                            assert(after[b] == before[b + 1]);
                        }
                    }
                }
                return Some(le);
            }
            j = j + 1;
        }
        None
    }

    /// Settles the due front lease with what the lease store holds under its
    /// id: the front lease leaves the queue and is returned for revocation
    /// when the store still has a lease with that id. When the store has none
    /// it was already revoked and is dropped; a stored lease with another id
    /// takes its place in expiry order.
    pub fn settle_front(&mut self, stored: Option<LeaseEntry>) -> (r: Option<LeaseEntry>)
        requires
            old(self).wf(),
            old(self)@.len() > 0,
        ensures
            final(self).wf(),
            match stored {
                Some(s) => if s.id@ == old(self)@[0].id@ {
                    r == Some(old(self)@[0]) && final(self)@ == old(self)@.drop_first()
                } else {
                    r is None && inserted_in_order(old(self)@.drop_first(), s, final(self)@)
                },
                None => r is None && final(self)@ == old(self)@.drop_first(),
            },
    {
        let head = self.leases.remove(0);
        match stored {
            Some(s) => {
                if str_equal(s.id.as_str(), head.id.as_str()) {
                    Some(head)
                } else {
                    self.register(s);
                    None
                }
            },
            None => None,
        }
    }
}

/// The lease at the front of a well-formed queue expires no later than any
/// other waiting lease.
pub proof fn law_front_expires_first(q: PendingLeases, i: int)
    requires
        q.wf(),
        0 <= i < q@.len(),
    ensures
        q@[0].expires_at <= q@[i].expires_at,
{
}

/// Registering wakes the worker exactly when the new lease becomes the
/// front of the queue: with a wake-up it is the front, and without one the
/// front stays what it was.
pub proof fn law_notify_iff_new_front(before: Seq<LeaseEntry>, le: LeaseEntry, after: Seq<LeaseEntry>)
    requires
        sorted_by_expiry(before),
        inserted_in_order(before, le, after),
    ensures
        (before.len() == 0 || before[0].expires_at > le.expires_at) ==> after[0] == le,
        !(before.len() == 0 || before[0].expires_at > le.expires_at) ==> after[0] == before[0],
{
    let p = choose|p: int|
        0 <= p <= before.len() && after == before.insert(p, le) && (forall|k: int|
            0 <= k < p ==> before[k].expires_at <= le.expires_at) && (forall|k: int|
            p <= k < before.len() ==> before[k].expires_at > le.expires_at);
    if before.len() == 0 || before[0].expires_at > le.expires_at {
        assert(p == 0);
    } else {
        assert(p > 0);
    }
}

/// A pull selects exactly the leases of the ordered queue that are due, up
/// to the limit: a lease is selected if and only if it is among the first
/// `limit` leases and its expiry is not after `now`. So a lease is never
/// revoked before it expires.
pub proof fn law_pull_takes_the_due_leases(
    leases: Seq<LeaseEntry>,
    limit: usize,
    now: i64,
    count: int,
    i: int,
)
    requires
        sorted_by_expiry(leases),
        pulls_first(leases, limit, now, count),
        0 <= i < leases.len(),
    ensures
        i < count <==> (i < limit && leases[i].expires_at <= now),
{
}

} // verus!
