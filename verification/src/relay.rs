//! The registration relay: many uncoordinated announcers, one emitter.
//!
//! Any number of callers announce a service identifier; each announcement is
//! enqueued into one ordered channel and never dropped or deduplicated. A
//! single long-lived consumer dequeues strictly in enqueue order and re-emits
//! each identifier as a broadcast event, so concurrent registration bursts
//! can never interleave at the point of emission. The ghost `announced` and
//! `emitted` histories record both ends of the channel, and well-formedness
//! ties them together: everything announced is either already emitted or
//! still pending, in order, exactly once.

use vstd::prelude::*;

verus! {

/// Ordered channel between registration announcers and the one emitter.
pub struct RegistrationRelay {
    queue: Vec<String>,
    announced: Ghost<Seq<Seq<char>>>,
    emitted: Ghost<Seq<Seq<char>>>,
}

impl RegistrationRelay {
    /// Identifiers announced so far, oldest first.
    pub closed spec fn announced(self) -> Seq<Seq<char>> {
        self.announced@
    }

    /// Identifiers already handed to the emitter, in emission order.
    pub closed spec fn emitted(self) -> Seq<Seq<char>> {
        self.emitted@
    }

    /// Identifiers still waiting in the channel, oldest first.
    pub closed spec fn pending(self) -> Seq<Seq<char>> {
        self.queue@.map_values(|s: String| s@)
    }

    /// Law: the relay loses nothing, adds nothing and reorders nothing —
    /// the announcements are exactly the emissions followed by the pending
    /// queue.
    pub closed spec fn wf(self) -> bool {
        self.announced@ == self.emitted@ + self.pending()
    }

    pub fn new() -> (r: Self)
        ensures
            r.wf(),
            r.announced() == Seq::<Seq<char>>::empty(),
            r.emitted() == Seq::<Seq<char>>::empty(),
            r.pending() == Seq::<Seq<char>>::empty(),
    {
        let r = RegistrationRelay {
            queue: Vec::new(),
            announced: Ghost(Seq::empty()),
            emitted: Ghost(Seq::empty()),
        };
        proof {
            assert(r.pending() =~= Seq::<Seq<char>>::empty());
            assert(r.announced@ =~= r.emitted@ + r.pending());
        }
        r
    }

    /// Enqueues one identifier and returns immediately. Nothing is dropped
    /// and nothing is deduplicated: the same identifier may legitimately be
    /// announced, and later emitted, many times.
    pub fn announce(&mut self, service: String)
        requires
            old(self).wf(),
        ensures
            final(self).wf(),
            final(self).announced() == old(self).announced().push(service@),
            final(self).emitted() == old(self).emitted(),
            final(self).pending() == old(self).pending().push(service@),
    {
        let ghost id = service@;
        self.queue.push(service);
        self.announced = Ghost(self.announced@.push(id));
        proof {
            assert(self.pending() =~= old(self).pending().push(id));
            assert(self.announced@ =~= self.emitted@ + self.pending());
        }
    }

    /// Dequeues the oldest pending identifier for emission, strictly in
    /// enqueue order; `None` when the channel is empty.
    pub fn take_next(&mut self) -> (r: Option<String>)
        requires
            old(self).wf(),
        ensures
            final(self).wf(),
            final(self).announced() == old(self).announced(),
            old(self).pending().len() == 0 ==> r is None && *final(self) == *old(self),
            old(self).pending().len() > 0 ==> match r {
                Some(s) => s@ == old(self).pending()[0] && final(self).pending() == old(
                    self,
                ).pending().skip(1) && final(self).emitted() == old(self).emitted().push(s@),
                None => false,
            },
    {
        if self.queue.len() == 0 {
            proof {
                assert(old(self).pending().len() == 0);
            }
            None
        } else {
            let s = self.queue.remove(0);
            self.emitted = Ghost(self.emitted@.push(s@));
            proof {
                assert(old(self).pending().len() > 0);
                assert(s@ == old(self).pending()[0]);
                assert(self.pending() =~= old(self).pending().skip(1));
                assert(self.announced@ =~= self.emitted@ + self.pending());
            }
            Some(s)
        }
    }

    pub fn pending_len(&self) -> (r: usize)
        ensures
            r == self.pending().len(),
    {
        self.queue.len()
    }

    /// What is emitted is always a prefix of what was announced: emission
    /// order is enqueue order, with no duplicate and no drop in between.
    pub proof fn lemma_emitted_prefix_of_announced(self)
        requires
            self.wf(),
        ensures
            self.emitted() == self.announced().take(self.emitted().len() as int),
            self.emitted().len() + self.pending().len() == self.announced().len(),
    {
        assert(self.emitted@ =~= self.announced@.take(self.emitted@.len() as int));
    }
}

} // verus!
