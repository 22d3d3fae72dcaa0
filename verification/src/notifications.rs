//! The bounded alert history store and the two notification-facing services.
//!
//! The store is an ordered collection of received alerts: insertion at the
//! front, eviction of the oldest record beyond the capacity. All mutation of
//! one store happens under a single critical section; the exclusive-access
//! wrapper around a shared store is the embedding program's concern, so the
//! store itself is plain owned data here.

use vstd::prelude::*;
use crate::types::NotifData;

verus! {

/// The alert history never holds more records than this.
pub const ALERT_CAPACITY: usize = 50;

/// Bounded, ordered collection of received alerts, newest first.
pub struct AlertHistory {
    records: Vec<NotifData>,
}

impl View for AlertHistory {
    type V = Seq<NotifData>;

    closed spec fn view(&self) -> Seq<NotifData> {
        self.records@
    }
}

impl AlertHistory {
    /// Invariant: the store never exceeds its fixed capacity.
    pub open spec fn wf(&self) -> bool {
        self@.len() <= ALERT_CAPACITY
    }

    pub fn new() -> (r: Self)
        ensures
            r@ == Seq::<NotifData>::empty(),
            r.wf(),
    {
        AlertHistory { records: Vec::new() }
    }

    /// Inserts `n` at the front; when the store would exceed its capacity,
    /// the oldest record is dropped.
    pub fn record(&mut self, n: NotifData)
        ensures
            final(self)@ == if old(self)@.len() < ALERT_CAPACITY {
                seq![n] + old(self)@
            } else {
                (seq![n] + old(self)@).drop_last()
            },
            old(self).wf() ==> final(self).wf(),
    {
        self.records.insert(0, n);
        proof {
            assert(self.records@ =~= seq![n] + old(self)@);
        }
        if self.records.len() > ALERT_CAPACITY {
            self.records.pop();
            proof {
                assert(self.records@ =~= (seq![n] + old(self)@).drop_last());
            }
        }
    }

    /// Records a whole batch in order, as `record` does one alert at a
    /// time: together with the bounded-history law, n insertions into an
    /// empty store leave exactly the newest records up to the capacity.
    pub fn record_all(&mut self, notes: Vec<NotifData>)
        ensures
            final(self)@ == recorded_from(old(self)@, notes@),
    {
        let ghost init = self@;
        let mut i: usize = 0;
        proof {
            assert(notes@.take(0) =~= Seq::<NotifData>::empty());
        }
        while i < notes.len()
            invariant
                i <= notes@.len(),
                self@ == recorded_from(init, notes@.take(i as int)),
            decreases notes@.len() - i,
        {
            proof {
                assert(notes@.take(i + 1).drop_last() =~= notes@.take(i as int));
                assert(notes@.take(i + 1).last() == notes@[i as int]);
            }
            self.record(notes[i].clone());
            i = i + 1;
        }
        proof {
            assert(notes@.take(notes@.len() as int) =~= notes@);
        }
    }

    /// A copy of the stored records, newest first.
    pub fn snapshot(&self) -> (r: Vec<NotifData>)
        ensures
            r@ == self@,
    {
        let mut r: Vec<NotifData> = Vec::new();
        let mut i: usize = 0;
        while i < self.records.len()
            invariant
                i <= self.records.len(),
                r@ == self.records@.take(i as int),
            decreases self.records.len() - i,
        {
            r.push(self.records[i].clone());
            proof {
                assert(r@ =~= self.records@.take(i + 1));
            }
            i = i + 1;
        }
        proof {
            assert(r@ =~= self.records@);
        }
        r
    }

    /// Empties the store. On an already empty store this is a no-op and
    /// never fails.
    pub fn clear(&mut self)
        ensures
            final(self)@ == Seq::<NotifData>::empty(),
            final(self).wf(),
    {
        self.records.clear();
    }

    pub fn len(&self) -> (r: usize)
        ensures
            r == self@.len(),
    {
        self.records.len()
    }
}


/// The store contents after recording `notes` in order onto `init`: each
/// step is exactly what `record` ensures.
pub open spec fn recorded_from(init: Seq<NotifData>, notes: Seq<NotifData>) -> Seq<NotifData>
    decreases notes.len(),
{
    if notes.len() == 0 {
        init
    } else {
        let prev = recorded_from(init, notes.drop_last());
        if prev.len() < ALERT_CAPACITY {
            seq![notes.last()] + prev
        } else {
            (seq![notes.last()] + prev).drop_last()
        }
    }
}

/// Law: recording n alerts sequentially into an empty store leaves exactly
/// the newest of them, at most the capacity, newest first — the k-th stored
/// record is the (n-1-k)-th inserted one.
pub proof fn lemma_bounded_history(notes: Seq<NotifData>)
    ensures
        recorded_from(Seq::empty(), notes).len() == (if notes.len() <= ALERT_CAPACITY {
            notes.len()
        } else {
            ALERT_CAPACITY as nat
        }),
        forall|k: int|
            0 <= k < recorded_from(Seq::empty(), notes).len() ==> recorded_from(
                Seq::empty(),
                notes,
            )[k] == notes[notes.len() - 1 - k],
    decreases notes.len(),
{
    if notes.len() > 0 {
        lemma_bounded_history(notes.drop_last());
        let dl = notes.drop_last();
        let prev = recorded_from(Seq::empty(), dl);
        let whole = recorded_from(Seq::empty(), notes);
        assert forall|k: int| 0 <= k < whole.len() implies whole[k] == notes[notes.len() - 1
            - k] by {
            if k == 0 {
                assert(whole[0] == notes.last());
            } else {
                assert(whole[k] == prev[k - 1]);
                assert(prev[k - 1] == dl[dl.len() - 1 - (k - 1)]);
                assert(dl[dl.len() - 1 - (k - 1)] == notes[notes.len() - 1 - k]);
            }
        }
    }
}

/// The query side of the alert subsystem: read or clear the shared history.
pub struct NotificationService {
    pub history: AlertHistory,
}

impl NotificationService {
    pub fn new() -> (r: Self)
        ensures
            r.history@ == Seq::<NotifData>::empty(),
            r.history.wf(),
    {
        NotificationService { history: AlertHistory::new() }
    }

    pub fn get_history(&self) -> (r: Vec<NotifData>)
        ensures
            r@ == self.history@,
    {
        self.history.snapshot()
    }

    pub fn clear_history(&mut self)
        ensures
            final(self).history@ == Seq::<NotifData>::empty(),
    {
        self.history.clear();
    }

    /// Closing an alert by id is accepted and deliberately does nothing:
    /// the history keeps every retained record until it is evicted.
    pub fn close(&mut self, id: u32)
        ensures
            *final(self) == *old(self),
    {
        let _ = id;
    }
}

/// The receiving side of the alert subsystem: accepts alerts from arbitrary
/// producers and retains them in the bounded history.
pub struct FdoNotificationServer {
    pub history: AlertHistory,
}

impl FdoNotificationServer {
    pub fn new(h: AlertHistory) -> (r: Self)
        ensures
            r.history == h,
    {
        FdoNotificationServer { history: h }
    }

    pub fn get_capabilities(&self) -> (r: Vec<String>)
        ensures
            r@.len() == 1,
            r@[0]@ == "body"@,
    {
        let mut v: Vec<String> = Vec::new();
        v.push(String::from_str("body"));
        v
    }

    pub fn get_server_information(&self) -> (r: (String, String, String, String))
        ensures
            r.0@ == "Syd"@,
            r.1@ == "Syd"@,
            r.2@ == "0.1"@,
            r.3@ == "1.2"@,
    {
        (
            String::from_str("Syd"),
            String::from_str("Syd"),
            String::from_str("0.1"),
            String::from_str("1.2"),
        )
    }

    /// Receives one alert: builds the record, retains it in the history, and
    /// returns the notification id together with the record to be emitted as
    /// a "received" event. Emission happens after this call returns, so it
    /// sees a store state that already reflects the insertion; an emission
    /// failure cannot undo the retention.
    pub fn notify(
        &mut self,
        app_name: String,
        replaces_id: u32,
        app_icon: String,
        summary: String,
        body: String,
        actions: Vec<String>,
        expire_timeout: i32,
    ) -> (r: (u32, NotifData))
        ensures
            r.1 == (NotifData { app_name, summary, body }),
            final(self).history@ == if old(self).history@.len() < ALERT_CAPACITY {
                seq![r.1] + old(self).history@
            } else {
                (seq![r.1] + old(self).history@).drop_last()
            },
            old(self).history.wf() ==> final(self).history.wf(),
            r.0 == 1u32,
    {
        let _ = replaces_id;
        let _ = app_icon;
        let _ = actions;
        let _ = expire_timeout;
        let n = NotifData { app_name, summary, body };
        let out = n.clone();
        self.history.record(n);
        (1, out)
    }

    /// Closing by id is accepted and deliberately does nothing.
    pub fn close_notification(&mut self, id: u32)
        ensures
            *final(self) == *old(self),
    {
        let _ = id;
    }
}

} // verus!
