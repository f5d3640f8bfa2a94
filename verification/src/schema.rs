//! Shared data schema: the rule record as the in-kernel table holds it, the
//! observation events the classifier emits, and the durable/wire companions
//! that carry out-of-band metadata and timestamps.
//!
//! Every type here is plain data with explicit field widths, so that one
//! definition serves the kernel map entries, the durable blobs and the wire
//! records alike.
use vstd::prelude::*;

verus! {

/// Verdict applied when a rule matches a packet.
#[derive(Clone, Copy, Debug, PartialEq, Eq, Structural)]
pub enum Action {
    Accept,
    Drop,
}

/// Which side of the packet a rule's match is tested against.
#[derive(Clone, Copy, Debug, PartialEq, Eq, Structural)]
pub enum Direction {
    Source,
    Destination,
}

/// An IPv4 socket address: the host address as a 32-bit value and a port.
#[derive(Clone, Copy, Debug, PartialEq, Eq, Structural)]
pub struct SocketAddress {
    pub ip: u32,
    pub port: u16,
}

/// The match tested by a rule, as a tagged union over plain values:
/// an IPv4 address, a full IPv4 socket, a transport port, or an
/// internet protocol number.
#[derive(Clone, Copy, Debug, PartialEq, Eq, Structural)]
pub enum Match {
    Match(u32),
    Socket(SocketAddress),
    Port(u16),
    Protocol(u8),
}

/// One slot of the fixed-capacity rule table.
///
/// `id` is the slot index, set on insert. A slot with `init == false` is
/// free: its other fields carry no meaning and the classifier ignores them.
/// Disabled slots (`enabled == false`) are skipped by the classifier.
#[derive(Clone, Copy, Debug, PartialEq, Eq, Structural)]
pub struct Rule {
    pub id: u32,
    pub action: Action,
    pub matches: Match,
    pub applies_to: Direction,
    pub enabled: bool,
    pub init: bool,
}

/// Observation emitted by the classifier into the event ring.
#[derive(Clone, Copy, Debug, PartialEq, Eq, Structural)]
pub enum Event {
    Pass,
    Blocked { rule: u32, addr: SocketAddress },
}

/// A wall-clock instant, in microseconds relative to the Unix epoch.
#[derive(Clone, Copy, Debug, PartialEq, Eq, Structural)]
pub struct Timestamp {
    pub micros: i64,
}

/// A rule together with its out-of-band metadata, as stored durably and as
/// carried on the wire. `id` duplicates the slot index of `rule`.
#[derive(Clone, Debug, PartialEq, Eq)]
pub struct StoredRuleDecoded {
    pub id: u32,
    pub name: Vec<u8>,
    pub description: Vec<u8>,
    pub rule: Rule,
}

/// Mathematical model of a [`StoredRuleDecoded`].
pub struct StoredRuleView {
    pub id: u32,
    pub name: Seq<u8>,
    pub description: Seq<u8>,
    pub rule: Rule,
}

impl View for StoredRuleDecoded {
    type V = StoredRuleView;

    open spec fn view(&self) -> StoredRuleView {
        StoredRuleView { id: self.id, name: self.name@, description: self.description@, rule: self.rule }
    }
}

/// An event enriched with the wall-clock instant at which the userspace
/// ingester dequeued it.
#[derive(Clone, Copy, Debug, PartialEq, Eq, Structural)]
pub struct StoredEventDecoded {
    pub time: Timestamp,
    pub event: Event,
}

} // verus!
