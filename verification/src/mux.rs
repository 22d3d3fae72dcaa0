//! The client-side event multiplexer: merges N independently-arriving
//! notification streams into one tagged sequence for a consumer.
//!
//! Each underlying stream's events appear in the combined sequence in the
//! same relative order they arrived on that stream; between two different
//! streams no global order is promised. The termination policy is fixed:
//! when any underlying stream terminates, the whole combined sequence
//! terminates with it. The multiplexer buffers nothing beyond what the
//! streams themselves buffer.

use vstd::prelude::*;

verus! {

/// The events of the combined sequence `s` that carry tag `i`, in order.
pub open spec fn project<E>(s: Seq<(usize, E)>, i: usize) -> Seq<E>
    decreases s.len(),
{
    if s.len() == 0 {
        Seq::empty()
    } else if s.last().0 == i {
        project(s.drop_last(), i).push(s.last().1)
    } else {
        project(s.drop_last(), i)
    }
}

/// How often source `i` appears in a selection schedule.
pub open spec fn schedule_count(sched: Seq<usize>, i: usize) -> nat
    decreases sched.len(),
{
    if sched.len() == 0 {
        0
    } else if sched.last() == i {
        schedule_count(sched.drop_last(), i) + 1
    } else {
        schedule_count(sched.drop_last(), i)
    }
}

/// How many events of stream `i` a schedule delivers: one per selection of
/// `i`, until the stream is exhausted.
pub open spec fn delivered_count<E>(sched: Seq<usize>, views: Seq<Seq<E>>, i: usize) -> nat {
    if schedule_count(sched, i) <= views[i as int].len() {
        schedule_count(sched, i)
    } else {
        views[i as int].len()
    }
}

/// Merges the given streams into one tagged sequence, driven by `schedule`:
/// at each schedule entry the named stream's next event, if any, is taken.
/// The schedule stands for the arbitrary arrival timing of the real streams.
///
/// Law: however the schedule interleaves the streams, the combined sequence
/// contains each stream's events exactly in that stream's own order — the
/// projection onto tag `i` is a prefix of stream `i`.
pub fn merge_by_schedule<E>(schedule: &Vec<usize>, streams: Vec<Vec<E>>) -> (out: Vec<(usize, E)>)
    ensures
        forall|i: usize|
            (i as int) < streams@.len() ==> #[trigger] project(out@, i) == streams@[i as int]@.take(
                delivered_count(schedule@, streams@.map_values(|v: Vec<E>| v@), i) as int,
            ),
        forall|i: usize|
            (i as int) >= streams@.len() ==> #[trigger] project(out@, i) == Seq::<E>::empty(),
{
    let ghost views0: Seq<Seq<E>> = streams@.map_values(|v: Vec<E>| v@);
    let mut streams = streams;
    let mut out: Vec<(usize, E)> = Vec::new();
    let mut k: usize = 0;
    proof {
        assert forall|i: usize| (i as int) < views0.len() implies #[trigger] streams@[i as int]@
            == views0[i as int].skip(
            delivered_count(schedule@.take(0), views0, i) as int,
        ) by {
            assert(schedule@.take(0) =~= Seq::<usize>::empty());
            assert(views0[i as int].skip(0) =~= views0[i as int]);
        }
        assert forall|i: usize| (i as int) < views0.len() implies #[trigger] project(out@, i)
            == views0[i as int].take(delivered_count(schedule@.take(0), views0, i) as int) by {
            assert(schedule@.take(0) =~= Seq::<usize>::empty());
            assert(views0[i as int].take(0) =~= Seq::<E>::empty());
        }
    }
    while k < schedule.len()
        invariant
            k <= schedule.len(),
            streams@.len() == views0.len(),
            forall|i: usize|
                (i as int) < views0.len() ==> #[trigger] streams@[i as int]@ == views0[
                    i as int
                ].skip(delivered_count(schedule@.take(k as int), views0, i) as int),
            forall|i: usize|
                (i as int) < views0.len() ==> #[trigger] project(out@, i) == views0[i as int].take(
                    delivered_count(schedule@.take(k as int), views0, i) as int,
                ),
            forall|i: usize|
                (i as int) >= views0.len() ==> #[trigger] project(out@, i) == Seq::<E>::empty(),
        decreases schedule.len() - k,
    {
        let j = schedule[k];
        let ghost sched_k = schedule@.take(k as int);
        let ghost sched_k1 = schedule@.take(k + 1);
        proof {
            assert(sched_k1.drop_last() =~= sched_k);
            assert(sched_k1.last() == j);
        }
        if j < streams.len() && streams[j].len() > 0 {
            let ghost t = delivered_count(sched_k, views0, j) as int;
            let ghost out_before = out@;
            let e = streams[j].remove(0);
            out.push((j, e));
            proof {
                assert(out@.drop_last() =~= out_before);
                assert(views0[j as int].skip(t).len() > 0);
                assert(e == views0[j as int].skip(t)[0]);
                assert(e == views0[j as int][t]);
                assert(streams@[j as int]@ =~= views0[j as int].skip(t + 1));
                assert(schedule_count(sched_k1, j) == schedule_count(sched_k, j) + 1);
                assert forall|i: usize| (i as int) < views0.len() implies #[trigger] project(
                    out@,
                    i,
                ) == views0[i as int].take(delivered_count(sched_k1, views0, i) as int) by {
                    assert(project(out_before, i) == views0[i as int].take(
                        delivered_count(sched_k, views0, i) as int,
                    ));
                    assert(out@.last() == (j, e));
                    if i == j {
                        assert(project(out@, i) == project(out_before, i).push(e));
                        assert(delivered_count(sched_k1, views0, i) == t + 1);
                        assert(views0[i as int].take(t + 1) =~= views0[i as int].take(t).push(
                            views0[i as int][t],
                        ));
                    } else {
                        assert(project(out@, i) == project(out_before, i));
                        assert(schedule_count(sched_k1, i) == schedule_count(sched_k, i));
                    }
                }
                assert forall|i: usize| (i as int) < views0.len() implies #[trigger] streams@[i as int]@
                    == views0[i as int].skip(delivered_count(sched_k1, views0, i) as int) by {
                    if i != j {
                        assert(schedule_count(sched_k1, i) == schedule_count(sched_k, i));
                    }
                }
                assert forall|i: usize| (i as int) >= views0.len() implies #[trigger] project(
                    out@,
                    i,
                ) == Seq::<E>::empty() by {
                    assert(project(out_before, i) == Seq::<E>::empty());
                    assert(out@.last() == (j, e));
                    assert(j < views0.len());
                    assert(project(out@, i) == project(out_before, i));
                }
            }
        } else {
            proof {
                assert forall|i: usize| (i as int) < views0.len() implies #[trigger] streams@[i as int]@
                    == views0[i as int].skip(delivered_count(sched_k1, views0, i) as int)
                    && #[trigger] project(out@, i) == views0[i as int].take(
                    delivered_count(sched_k1, views0, i) as int,
                ) by {
                    if i == j {
                        assert(views0[j as int].skip(
                            delivered_count(sched_k, views0, j) as int,
                        ).len() == 0);
                        assert(delivered_count(sched_k, views0, j) == views0[j as int].len());
                        assert(delivered_count(sched_k1, views0, j) == views0[j as int].len());
                    } else {
                        assert(schedule_count(sched_k1, i) == schedule_count(sched_k, i));
                    }
                }
            }
        }
        k = k + 1;
    }
    proof {
        assert(schedule@.take(schedule@.len() as int) =~= schedule@);
    }
    out
}

/// The live half of the multiplexer: tracks which subscription streams are
/// still selectable and, in ghost state, the full interleaving so far.
///
/// `deliver` tags one ready event from a live source; a source whose stream
/// has terminated is reported through `source_ended` and is thereafter
/// excluded from selection (termination is not fatal to the others). The
/// combined sequence ends when no source remains live.
pub struct Multiplexer<E> {
    n_sources: usize,
    ended: bool,
    delivered: Ghost<Seq<(usize, E)>>,
    accepted: Ghost<Seq<Seq<E>>>,
}

impl<E> Multiplexer<E> {
    /// Number of source streams this multiplexer merges.
    pub closed spec fn sources(self) -> nat {
        self.n_sources as nat
    }

    /// Whether the combined sequence has ended: it does as soon as any one
    /// source's stream terminates.
    pub closed spec fn is_ended(self) -> bool {
        self.ended
    }

    /// The combined tagged sequence delivered so far.
    pub closed spec fn delivered(self) -> Seq<(usize, E)> {
        self.delivered@
    }

    /// Per source, the events accepted from it so far, in arrival order.
    pub closed spec fn accepted(self, i: usize) -> Seq<E> {
        self.accepted@[i as int]
    }

    /// Law: the combined sequence is an interleaving of the sources — its
    /// projection onto each source's tag is exactly what arrived from that
    /// source, in that source's own order.
    pub closed spec fn wf(self) -> bool {
        &&& self.accepted@.len() == self.n_sources as int
        &&& forall|i: usize|
            (i as int) < self.n_sources as int ==> #[trigger] project(self.delivered@, i)
                == self.accepted@[i as int]
        &&& forall|i: usize|
            (i as int) >= self.n_sources as int ==> #[trigger] project(self.delivered@, i) == Seq::<
            E,
            >::empty()
    }

    pub fn new(n: usize) -> (r: Self)
        ensures
            r.wf(),
            r.sources() == n,
            !r.is_ended(),
            r.delivered() == Seq::<(usize, E)>::empty(),
    {
        let r = Multiplexer {
            n_sources: n,
            ended: false,
            delivered: Ghost(Seq::empty()),
            accepted: Ghost(Seq::new(n as nat, |i: int| Seq::empty())),
        };
        proof {
            assert forall|i: usize| #[trigger] project(r.delivered@, i) == Seq::<E>::empty() by {}
        }
        r
    }

    /// Tags one event that arrived on source `src` and appends it to the
    /// combined sequence, which must not have ended: the returned pair is
    /// the source's tag and the event itself, payload unchanged. The
    /// suspension between deliveries — waiting until some source has a
    /// ready item — belongs to the embedding stream.
    pub fn deliver(&mut self, src: usize, e: E) -> (r: (usize, E))
        requires
            old(self).wf(),
            !old(self).is_ended(),
            (src as int) < old(self).sources(),
        ensures
            final(self).wf(),
            r == (src, e),
            final(self).delivered() == old(self).delivered().push(r),
            final(self).accepted(src) == old(self).accepted(src).push(r.1),
            final(self).sources() == old(self).sources(),
            !final(self).is_ended(),
            forall|i: usize|
                i != src && (i as int) < old(self).sources() ==> final(self).accepted(i) == old(
                    self,
                ).accepted(i),
    {
        let ghost old_delivered = self.delivered@;
        let ghost old_accepted = self.accepted@;
        let r = (src, e);
        self.delivered = Ghost(old_delivered.push(r));
        self.accepted = Ghost(
            old_accepted.update(src as int, old_accepted[src as int].push(r.1)),
        );
        proof {
            assert(self.delivered@.drop_last() =~= old_delivered);
            assert(self.delivered@.last() == r);
            assert forall|i: usize| (i as int) < self.n_sources as int implies #[trigger] project(
                self.delivered@,
                i,
            ) == self.accepted@[i as int] by {
                assert(project(old_delivered, i) == old_accepted[i as int]);
            }
            assert forall|i: usize| (i as int) >= self.n_sources as int implies #[trigger] project(
                self.delivered@,
                i,
            ) == Seq::<E>::empty() by {
                assert(project(old_delivered, i) == Seq::<E>::empty());
            }
        }
        r
    }

    /// Records that source `src`'s stream has terminated. A lost source is
    /// fatal to the whole combined sequence: nothing is delivered after
    /// this, whatever the other sources still hold. The already-delivered
    /// events stand.
    pub fn source_ended(&mut self, src: usize)
        requires
            old(self).wf(),
            (src as int) < old(self).sources(),
        ensures
            final(self).wf(),
            final(self).is_ended(),
            final(self).sources() == old(self).sources(),
            final(self).delivered() == old(self).delivered(),
            forall|i: usize| final(self).accepted(i) == old(self).accepted(i),
    {
        let _ = src;
        self.ended = true;
    }

    /// Whether the combined sequence can still deliver; false as soon as
    /// any source's stream has terminated.
    pub fn active(&self) -> (r: bool)
        ensures
            r == !self.is_ended(),
    {
        !self.ended
    }
}

} // verus!
