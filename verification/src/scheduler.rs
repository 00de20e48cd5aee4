//! The queue of delayed MIDI messages (note-offs, primarily), kept in
//! deadline order. A worker polls it with the current time and sends what
//! has come due; at shutdown everything still pending is released at once
//! so no note is left hanging.
//!
//! Deadlines are plain tick counts (milliseconds since the queue's clock
//! started); reading the clock is the caller's business.

use vstd::prelude::*;

verus! {

/// An item and the time it is due.
pub type Pending<T> = (u64, T);

/// Pending messages ordered by deadline.
pub open spec fn deadline_sorted<T>(q: Seq<Pending<T>>) -> bool {
    forall|i: int, j: int| 0 <= i <= j < q.len() ==> (#[trigger] q[i]).0 <= (#[trigger] q[j]).0
}

/// `p` is where a message due at `t` joins `q`: after every message due no
/// later than `t`, before every message due after it.
pub open spec fn insertion_point<T>(q: Seq<Pending<T>>, t: u64, p: int) -> bool {
    &&& 0 <= p <= q.len()
    &&& forall|i: int| 0 <= i < p ==> (#[trigger] q[i]).0 <= t
    &&& forall|i: int| p <= i < q.len() ==> (#[trigger] q[i]).0 > t
}

/// `k` messages of `q` are due at time `now`: exactly its first `k`.
pub open spec fn due_split<T>(q: Seq<Pending<T>>, now: u64, k: int) -> bool {
    &&& 0 <= k <= q.len()
    &&& forall|i: int| 0 <= i < k ==> (#[trigger] q[i]).0 <= now
    &&& forall|i: int| k <= i < q.len() ==> (#[trigger] q[i]).0 > now
}

/// The items of a list of pending entries.
pub open spec fn pending_items<T>(q: Seq<Pending<T>>) -> Seq<T> {
    q.map_values(|m: Pending<T>| m.1)
}

pub struct NoteOffQueue<T> {
    pending: Vec<Pending<T>>,
}

impl<T> View for NoteOffQueue<T> {
    type V = Seq<Pending<T>>;

    closed spec fn view(&self) -> Seq<Pending<T>> {
        self.pending@
    }
}

impl<T> NoteOffQueue<T> {
    #[verifier::type_invariant]
    spec fn sorted_by_deadline(self) -> bool {
        deadline_sorted(self.pending@)
    }
}

impl<T: Copy> NoteOffQueue<T> {

    pub fn new() -> (r: Self)
        ensures
            r@ == Seq::<Pending<T>>::empty(),
            deadline_sorted(r@),
    {
        NoteOffQueue { pending: Vec::new() }
    }

    /// Number of messages still pending.
    pub fn len(&self) -> (r: usize)
        ensures
            r == self@.len(),
            deadline_sorted(self@),
    {
        proof {
            use_type_invariant(self);
        }
        self.pending.len()
    }

    /// Queue `item` to be released at `fire_at`, after every message due
    /// no later than `fire_at` (first come, first served on equal
    /// deadlines).
    pub fn schedule(&mut self, fire_at: u64, item: T)
        ensures
            deadline_sorted(old(self)@),
            deadline_sorted(final(self)@),
            exists|p: int|
                insertion_point(old(self)@, fire_at, p) && final(self)@ == old(self)@.insert(
                    p,
                    (fire_at, item),
                ),
    {
        proof {
            use_type_invariant(&*self);
        }
        let ghost q = self.pending@;
        let n = self.pending.len();
        let mut p: usize = n;
        while p > 0 && self.pending[p - 1].0 > fire_at
            invariant
                q == self.pending@,
                n == q.len(),
                p <= n,
                forall|i: int| p <= i < n ==> (#[trigger] q[i]).0 > fire_at,
            decreases p,
        {
            p = p - 1;
        }
        proof {
            assert forall|i: int| 0 <= i < p implies (#[trigger] q[i]).0 <= fire_at by {
                assert(q[i].0 <= q[p - 1].0);
            }
            assert(insertion_point(q, fire_at, p as int));
        }
        let mut out: Vec<Pending<T>> = Vec::new();
        let mut i: usize = 0;
        while i < n
            invariant
                q == self.pending@,
                n == q.len(),
                p <= n,
                i <= n,
                out@ == (if i <= p {
                    q.take(i as int)
                } else {
                    q.insert(p as int, (fire_at, item)).take(i + 1)
                }),
            decreases n - i,
        {
            if i == p {
                out.push((fire_at, item));
                proof {
                    assert(q.insert(p as int, (fire_at, item)).take(i + 1) =~= q.take(i as int).push(
                        (fire_at, item),
                    ));
                }
            }
            out.push(self.pending[i]);
            proof {
                if i < p {
                    assert(q.take(i + 1) =~= q.take(i as int).push(q[i as int]));
                } else {
                    assert(q.insert(p as int, (fire_at, item)).take(i + 2) =~= q.insert(
                        p as int,
                        (fire_at, item),
                    ).take(i + 1).push(q[i as int]));
                }
            }
            i = i + 1;
        }
        if p == n {
            out.push((fire_at, item));
        }
        proof {
            let r = q.insert(p as int, (fire_at, item));
            if p == n {
                assert(out@ =~= r);
            } else {
                assert(out@ =~= r.take(n + 1));
                assert(r.take(n + 1) =~= r);
            }
            assert forall|a: int, b: int| 0 <= a <= b < r.len() implies (#[trigger] r[a]).0 <= (
            #[trigger] r[b]).0 by {
                if a < p && b < p {
                    assert(r[a] == q[a] && r[b] == q[b]);
                } else if a < p && b == p {
                    assert(r[a] == q[a]);
                } else if a < p {
                    assert(r[a] == q[a] && r[b] == q[b - 1]);
                } else if a == p && b > p {
                    assert(r[b] == q[b - 1]);
                } else if a > p {
                    assert(r[a] == q[a - 1] && r[b] == q[b - 1]);
                }
            }
        }
        self.pending = out;
        assert(insertion_point(q, fire_at, p as int) && self@ == q.insert(p as int, (fire_at, item)));
        assert(q == old(self)@);
    }

    /// Release every message due at `now` (deadline not after `now`), in
    /// deadline order; the rest stay queued.
    pub fn pop_due(&mut self, now: u64) -> (r: Vec<T>)
        ensures
            deadline_sorted(old(self)@),
            deadline_sorted(final(self)@),
            exists|k: int|
                due_split(old(self)@, now, k) && r@ == pending_items(old(self)@.take(k))
                    && final(self)@ == old(self)@.skip(k),
    {
        proof {
            use_type_invariant(&*self);
        }
        let ghost q = self.pending@;
        let n = self.pending.len();
        let mut k: usize = 0;
        let mut due: Vec<T> = Vec::new();
        while k < n && self.pending[k].0 <= now
            invariant
                q == self.pending@,
                n == q.len(),
                k <= n,
                forall|i: int| 0 <= i < k ==> (#[trigger] q[i]).0 <= now,
                due@ == pending_items(q.take(k as int)),
            decreases n - k,
        {
            due.push(self.pending[k].1);
            proof {
                assert(pending_items(q.take(k + 1)) =~= pending_items(q.take(k as int)).push(
                    q[k as int].1,
                ));
            }
            k = k + 1;
        }
        proof {
            if k < n {
                assert forall|i: int| k <= i < n implies (#[trigger] q[i]).0 > now by {
                    assert(q[k as int].0 <= q[i].0);
                }
            }
            assert(due_split(q, now, k as int));
        }
        let mut rest: Vec<Pending<T>> = Vec::new();
        let mut i: usize = k;
        while i < n
            invariant
                q == self.pending@,
                n == q.len(),
                k <= i <= n,
                rest@ == q.subrange(k as int, i as int),
            decreases n - i,
        {
            rest.push(self.pending[i]);
            proof {
                assert(q.subrange(k as int, i + 1) =~= q.subrange(k as int, i as int).push(q[i as int]));
            }
            i = i + 1;
        }
        proof {
            assert(rest@ =~= q.skip(k as int));
            let s = q.skip(k as int);
            assert forall|a: int, b: int| 0 <= a <= b < s.len() implies (#[trigger] s[a]).0 <= (
            #[trigger] s[b]).0 by {
                assert(s[a] == q[a + k] && s[b] == q[b + k]);
            }
        }
        self.pending = rest;
        assert(due_split(q, now, k as int) && due@ == pending_items(q.take(k as int)) && self@ == q.skip(
            k as int,
        ));
        assert(q == old(self)@);
        due
    }

    /// Release everything still pending, in deadline order, leaving the
    /// queue empty (used at shutdown).
    pub fn drain_all(&mut self) -> (r: Vec<T>)
        ensures
            r@ == pending_items(old(self)@),
            final(self)@ == Seq::<Pending<T>>::empty(),
    {
        let n = self.pending.len();
        let mut out: Vec<T> = Vec::new();
        let mut i: usize = 0;
        while i < n
            invariant
                n == self.pending@.len(),
                i <= n,
                out@ == pending_items(self.pending@.take(i as int)),
            decreases n - i,
        {
            out.push(self.pending[i].1);
            proof {
                assert(pending_items(self.pending@.take(i + 1)) =~= pending_items(
                    self.pending@.take(i as int),
                ).push(self.pending@[i as int].1));
            }
            i = i + 1;
        }
        assert(self.pending@.take(n as int) =~= self.pending@);
        self.pending = Vec::new();
        out
    }
}

/// A message scheduled for a time no later than `now` is released by the
/// next poll at `now`: whatever else is queued, it lands among the due
/// messages, never among the ones kept back.
pub proof fn lemma_scheduled_message_is_released<T>(
    q: Seq<Pending<T>>,
    fire_at: u64,
    item: T,
    p: int,
    now: u64,
    k: int,
)
    requires
        insertion_point(q, fire_at, p),
        fire_at <= now,
        due_split(q.insert(p, (fire_at, item)), now, k),
    ensures
        p < k,
        pending_items(q.insert(p, (fire_at, item)).take(k))[p] == item,
{
    let r = q.insert(p, (fire_at, item));
    assert(r[p] == (fire_at, item));
    if p >= k {
        assert(r[p].0 > now);
    }
}

/// A poll releases nothing early: every released message was due, and
/// every message kept back is due later than `now`.
pub proof fn lemma_poll_releases_only_due<T>(q: Seq<Pending<T>>, now: u64, k: int)
    requires
        due_split(q, now, k),
    ensures
        forall|i: int| 0 <= i < q.take(k).len() ==> (#[trigger] q.take(k)[i]).0 <= now,
        forall|i: int| 0 <= i < q.skip(k).len() ==> (#[trigger] q.skip(k)[i]).0 > now,
{
    assert forall|i: int| 0 <= i < q.skip(k).len() implies (#[trigger] q.skip(k)[i]).0 > now by {
        assert(q.skip(k)[i] == q[i + k]);
    }
}

} // verus!
