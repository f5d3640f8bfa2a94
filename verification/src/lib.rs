//! A host-resident packet firewall: the in-kernel classifier's decision
//! logic, the supervisor that owns the rule table, event history and
//! lifecycle, and the length-framed binary wire protocol that ties the
//! controller, the supervisor and the kernel together.
//!
//! The rule table is a fixed-capacity array whose indices are the rule
//! ids; the classifier is a pure function of the enabled, occupied slots
//! and the frame bytes; every wire record decodes back to exactly the
//! value it was encoded from.
use vstd::prelude::*;

pub mod classifier;
pub mod clock;
pub mod codec;
pub mod codec_schema;
pub mod codec_wire;
pub mod dispatch;
pub mod events;
pub mod htmx;
pub mod lifecycle;
pub mod recovery;
pub mod schema;
pub mod table;
pub mod wire;

verus! {

/// Capacity of the in-kernel rule table: dense slot indices `[0, MAX_RULES)`.
pub const MAX_RULES: u32 = 100;

} // verus!
