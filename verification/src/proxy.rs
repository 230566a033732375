//! The analyzer proxy's multiplexing core: request-id allocation and the
//! in-flight reply slots.
//!
//! One analyzer process serves many concurrent requests over one stdio
//! pair. Each request takes a fresh id and a slot; the reader task
//! completes the slot that matches a response's id, a timeout withdraws
//! it, and a late response for a withdrawn id is dropped. The I/O itself
//! lives outside; this core decides, deterministically, what happens to
//! every id.

use vstd::prelude::*;

verus! {

/// The in-flight request table of one analyzer proxy.
pub struct ProxyCore {
    /// Ids of requests whose reply is still awaited.
    pending: Vec<i64>,
    /// The next request id to allocate; ids start at 1.
    next_id: i64,
}

pub open spec fn ids_unique(s: Seq<i64>) -> bool {
    forall|i: int, j: int| 0 <= i < j < s.len() ==> (#[trigger] s[i]) != (#[trigger] s[j])
}

impl ProxyCore {
    /// Pending ids are distinct and all below the allocation counter.
    pub closed spec fn inv(self) -> bool {
        &&& ids_unique(self.pending@)
        &&& forall|i: int| 0 <= i < self.pending@.len() ==> (#[trigger] self.pending@[i])
            < self.next_id
        &&& self.next_id >= 1
    }

    /// The set of ids awaiting a reply.
    pub closed spec fn spec_pending(self) -> Set<i64> {
        self.pending@.to_set()
    }

    pub closed spec fn spec_next_id(self) -> i64 {
        self.next_id
    }

    /// A fresh table: nothing in flight, ids start at 1.
    pub fn new() -> (r: Self)
        ensures
            r.inv(),
            r.spec_pending() =~= Set::<i64>::empty(),
            r.spec_next_id() == 1,
    {
        let r = ProxyCore { pending: Vec::new(), next_id: 1 };
        proof {
            assert(r.pending@.to_set() =~= Set::<i64>::empty());
        }
        r
    }

    /// Allocate the next request id and install its reply slot. The id
    /// is fresh: it was not pending before.
    pub fn begin_request(&mut self) -> (r: i64)
        requires
            old(self).inv(),
            old(self).spec_next_id() < i64::MAX,
        ensures
            final(self).inv(),
            r == old(self).spec_next_id(),
            !old(self).spec_pending().contains(r),
            final(self).spec_pending() == old(self).spec_pending().insert(r),
            final(self).spec_next_id() == old(self).spec_next_id() + 1,
    {
        let id = self.next_id;
        self.next_id = self.next_id + 1;
        proof {
            if old(self).pending@.to_set().contains(id) {
                let i = choose|i: int| 0 <= i < old(self).pending@.len() && old(self).pending@[i]
                    == id;
                assert(false);
            }
        }
        self.pending.push(id);
        proof {
            assert forall|a: int, b: int| 0 <= a < b < self.pending@.len() implies (
            #[trigger] self.pending@[a]) != (#[trigger] self.pending@[b]) by {
                if b == self.pending@.len() - 1 {
                    assert(old(self).pending@[a] < id);
                }
            }
            assert forall|x: i64| #[trigger] self.pending@.to_set().contains(x) implies old(
                self,
            ).pending@.to_set().insert(id).contains(x) by {
                let a = choose|a: int| 0 <= a < self.pending@.len() && self.pending@[a] == x;
                if a < self.pending@.len() - 1 {
                    assert(old(self).pending@[a] == x);
                }
            }
            assert forall|x: i64| #[trigger] old(self).pending@.to_set().insert(id).contains(x)
                implies self.pending@.to_set().contains(x) by {
                if x == id {
                    assert(self.pending@[self.pending@.len() - 1] == x);
                } else {
                    let a = choose|a: int| 0 <= a < old(self).pending@.len() && old(
                        self,
                    ).pending@[a] == x;
                    assert(self.pending@[a] == x);
                }
            }
            assert(self.pending@.to_set() =~= old(self).pending@.to_set().insert(id));
        }
        id
    }

    /// A response with this id arrived: withdraw its slot. Returns true
    /// when a request was waiting; a late response finds nothing and is
    /// dropped.
    #[verifier::loop_isolation(false)]
    pub fn complete(&mut self, id: i64) -> (r: bool)
        requires
            old(self).inv(),
        ensures
            final(self).inv(),
            r == old(self).spec_pending().contains(id),
            final(self).spec_pending() == old(self).spec_pending().remove(id),
            final(self).spec_next_id() == old(self).spec_next_id(),
    {
        let mut i: usize = 0;
        while i < self.pending.len()
            invariant
                i <= self.pending@.len(),
                *self == *old(self),
                forall|j: int| 0 <= j < i ==> (#[trigger] self.pending@[j]) != id,
            decreases self.pending@.len() - i,
        {
            if self.pending[i] == id {
                let ghost s0 = self.pending@;
                self.pending.remove(i);
                proof {
                    assert(s0.to_set().contains(id));
                    assert forall|a: int, b: int| 0 <= a < b < self.pending@.len() implies (
                    #[trigger] self.pending@[a]) != (#[trigger] self.pending@[b]) by {
                        let a0 = if a < i as int { a } else { a + 1 };
                        let b0 = if b < i as int { b } else { b + 1 };
                        assert(self.pending@[a] == s0[a0] && self.pending@[b] == s0[b0]);
                    }
                    assert forall|x: i64| #[trigger] self.pending@.to_set().contains(x) implies
                        s0.to_set().remove(id).contains(x) by {
                        let a = choose|a: int| 0 <= a < self.pending@.len() && self.pending@[a]
                            == x;
                        let a0 = if a < i as int { a } else { a + 1 };
                        assert(s0[a0] == x);
                        if x == id {
                            assert(a0 != i as int);
                            assert(false);
                        }
                    }
                    assert forall|x: i64| #[trigger] s0.to_set().remove(id).contains(x) implies
                        self.pending@.to_set().contains(x) by {
                        let a = choose|a: int| 0 <= a < s0.len() && s0[a] == x;
                        assert(a != i as int);
                        if a < i as int {
                            assert(self.pending@[a] == x);
                        } else {
                            assert(self.pending@[a - 1] == x);
                        }
                    }
                    assert(self.pending@.to_set() =~= s0.to_set().remove(id));
                }
                return true;
            }
            i = i + 1;
        }
        proof {
            if self.pending@.to_set().contains(id) {
                let a = choose|a: int| 0 <= a < self.pending@.len() && self.pending@[a] == id;
                assert(false);
            }
            assert(self.pending@.to_set().remove(id) =~= self.pending@.to_set());
        }
        false
    }

    /// A request timed out: withdraw its slot so a late reply is
    /// dropped. The effect is the same as completing it.
    pub fn timeout(&mut self, id: i64) -> (r: bool)
        requires
            old(self).inv(),
        ensures
            final(self).inv(),
            r == old(self).spec_pending().contains(id),
            final(self).spec_pending() == old(self).spec_pending().remove(id),
            final(self).spec_next_id() == old(self).spec_next_id(),
    {
        self.complete(id)
    }

    /// The analyzer died: every pending request fails at once. Returns
    /// the ids that were in flight; nothing stays pending.
    pub fn fail_all(&mut self) -> (r: Vec<i64>)
        requires
            old(self).inv(),
        ensures
            final(self).inv(),
            r@.to_set() == old(self).spec_pending(),
            final(self).spec_pending() =~= Set::<i64>::empty(),
            final(self).spec_next_id() == old(self).spec_next_id(),
    {
        let out = self.pending.split_off(0);
        proof {
            assert(out@ =~= old(self).pending@);
            assert(self.pending@.to_set() =~= Set::<i64>::empty());
        }
        out
    }

    /// Whether another id can be allocated: the premise `begin_request`
    /// asks for, decided at run time so an unverified caller can test it.
    pub fn can_allocate(&self) -> (r: bool)
        ensures
            r == (self.spec_next_id() < i64::MAX),
    {
        self.next_id < i64::MAX
    }

    /// How many requests are in flight.
    pub fn pending_count(&self) -> (r: usize)
        ensures
            r == self.spec_pending_len(),
    {
        self.pending.len()
    }

    pub closed spec fn spec_pending_len(self) -> nat {
        self.pending@.len()
    }

    /// Whether this id awaits a reply.
    #[verifier::loop_isolation(false)]
    pub fn is_pending(&self, id: i64) -> (r: bool)
        requires
            self.inv(),
        ensures
            r == self.spec_pending().contains(id),
    {
        let mut i: usize = 0;
        while i < self.pending.len()
            invariant
                i <= self.pending@.len(),
                forall|j: int| 0 <= j < i ==> (#[trigger] self.pending@[j]) != id,
            decreases self.pending@.len() - i,
        {
            if self.pending[i] == id {
                proof {
                    assert(self.pending@.to_set().contains(id));
                }
                return true;
            }
            i = i + 1;
        }
        proof {
            if self.pending@.to_set().contains(id) {
                let a = choose|a: int| 0 <= a < self.pending@.len() && self.pending@[a] == id;
                assert(false);
            }
        }
        false
    }
}

/// What the reader task does with one decoded message: a message with an
/// id completes that request's slot, one without is a server
/// notification for the gateway's sink.
#[derive(Clone, Copy, Debug, PartialEq, Eq, Structural)]
pub enum InboundDispatch {
    /// Complete the slot of this request id.
    Reply(i64),
    /// Forward to the notification sink.
    Notification,
}

/// Classify a decoded message by whether it carries a request id.
pub fn classify_inbound(id: Option<i64>) -> (r: InboundDispatch)
    ensures
        match id {
            Some(i) => r == InboundDispatch::Reply(i),
            None => r == InboundDispatch::Notification,
        },
{
    match id {
        Some(i) => InboundDispatch::Reply(i),
        None => InboundDispatch::Notification,
    }
}

} // verus!
