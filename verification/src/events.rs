//! The durable event history and its queries.
//!
//! The ingester drains the kernel ring, stamps each record with the wall
//! clock at dequeue time, discards unremarkable `Pass` observations, and
//! appends the rest here in arrival order. Queries select by time and
//! preserve storage order.
use vstd::prelude::*;

use crate::schema::{Event, StoredEventDecoded, Timestamp};
use crate::wire::EventQuery;

verus! {

/// Whether a stored event satisfies a query at the instant `now`:
/// everything, everything within the last span of microseconds, or
/// everything at or after an instant.
pub open spec fn keep_event(e: StoredEventDecoded, q: EventQuery, now: Timestamp) -> bool {
    match q {
        EventQuery::All => true,
        EventQuery::Last(micros) => e.time.micros >= now.micros - micros,
        EventQuery::Since(t) => e.time.micros >= t.micros,
    }
}

/// The events a query selects, in storage order.
pub open spec fn spec_query(log: Seq<StoredEventDecoded>, q: EventQuery, now: Timestamp) -> Seq<
    StoredEventDecoded,
> {
    log.filter(|e: StoredEventDecoded| keep_event(e, q, now))
}

/// The append-only event history.
pub struct EventLog {
    pub entries: Vec<StoredEventDecoded>,
}

impl View for EventLog {
    type V = Seq<StoredEventDecoded>;

    open spec fn view(&self) -> Seq<StoredEventDecoded> {
        self.entries@
    }
}

impl EventLog {
    pub fn new() -> (r: EventLog)
        ensures
            r@ == Seq::<StoredEventDecoded>::empty(),
    {
        EventLog { entries: Vec::new() }
    }

    /// Ingest one raw observation at instant `now`: a `Pass` is discarded,
    /// anything else is stamped, appended, and returned for fan-out.
    pub fn ingest(&mut self, e: Event, now: Timestamp) -> (r: Option<StoredEventDecoded>)
        ensures
            match e {
                Event::Pass => r is None && final(self)@ == old(self)@,
                Event::Blocked { .. } => r == Some(StoredEventDecoded { time: now, event: e })
                    && final(self)@ == old(self)@.push(StoredEventDecoded { time: now, event: e }),
            },
    {
        match e {
            Event::Pass => None,
            Event::Blocked { .. } => {
                let stored = StoredEventDecoded { time: now, event: e };
                self.entries.push(stored);
                Some(stored)
            },
        }
    }

    /// The events the query selects, in storage order.
    pub fn query(&self, q: &EventQuery, now: Timestamp) -> (r: Vec<StoredEventDecoded>)
        ensures
            r@ == spec_query(self@, *q, now),
    {
        let ghost pred = |e: StoredEventDecoded| keep_event(e, *q, now);
        let mut out: Vec<StoredEventDecoded> = Vec::new();
        let mut i: usize = 0;
        proof {
            assert(self@.take(0int) =~= Seq::<StoredEventDecoded>::empty());
            reveal_with_fuel(Seq::filter, 1);
            assert(self@.take(0int).filter(pred) =~= Seq::<StoredEventDecoded>::empty());
        }
        while i < self.entries.len()
            invariant
                i <= self@.len(),
                pred == (|e: StoredEventDecoded| keep_event(e, *q, now)),
                out@ == self@.take(i as int).filter(pred),
            decreases self@.len() - i,
        {
            let e = self.entries[i];
            proof {
                reveal_with_fuel(Seq::filter, 1);
                assert(self@.take(i + 1).drop_last() =~= self@.take(i as int));
                assert(self@.take(i + 1).last() == self@[i as int]);
            }
            let keep = match q {
                EventQuery::All => true,
                EventQuery::Last(micros) => {
                    (e.time.micros as i128) >= (now.micros as i128) - (*micros as i128)
                },
                EventQuery::Since(t) => e.time.micros >= t.micros,
            };
            if keep {
                out.push(e);
            }
            i = i + 1;
        }
        proof {
            assert(self@.take(self@.len() as int) =~= self@);
        }
        out
    }
}

} // verus!
