//! The lifecycle coordinator's state machine.
//!
//! The program is `Loaded` when installed but not attached, `Started`
//! while attached and classifying, and `Terminated` when the supervisor is
//! exiting. The attached-link handle exists exactly in `Started`; the
//! returned action tells the caller what to do with it. A verb that does
//! not apply in the current state is a no-op, not an error.
use vstd::prelude::*;

use crate::wire::Status;

verus! {

#[derive(Clone, Copy, Debug, PartialEq, Eq, Structural)]
pub enum LifecycleState {
    Loaded,
    Started,
    Terminated,
}

/// The three lifecycle verbs of the control protocol.
#[derive(Clone, Copy, Debug, PartialEq, Eq, Structural)]
pub enum LifecycleVerb {
    Start,
    Halt,
    Terminate,
}

/// What the caller must do with the attached-link handle.
#[derive(Clone, Copy, Debug, PartialEq, Eq, Structural)]
pub enum LinkAction {
    Keep,
    Attach,
    Detach,
}

/// The state reached by one verb.
pub open spec fn spec_step(s: LifecycleState, verb: LifecycleVerb) -> LifecycleState {
    match verb {
        LifecycleVerb::Start => if s == LifecycleState::Loaded {
            LifecycleState::Started
        } else {
            s
        },
        LifecycleVerb::Halt => if s == LifecycleState::Started {
            LifecycleState::Loaded
        } else {
            s
        },
        LifecycleVerb::Terminate => LifecycleState::Terminated,
    }
}

/// The link action of one verb: attach on a fresh start, detach on a halt
/// or on termination while attached, nothing otherwise.
pub open spec fn spec_link_action(s: LifecycleState, verb: LifecycleVerb) -> LinkAction {
    match verb {
        LifecycleVerb::Start => if s == LifecycleState::Loaded {
            LinkAction::Attach
        } else {
            LinkAction::Keep
        },
        LifecycleVerb::Halt => if s == LifecycleState::Started {
            LinkAction::Detach
        } else {
            LinkAction::Keep
        },
        LifecycleVerb::Terminate => if s == LifecycleState::Started {
            LinkAction::Detach
        } else {
            LinkAction::Keep
        },
    }
}

/// Apply one verb: the next state and the link action.
pub fn step(s: LifecycleState, verb: LifecycleVerb) -> (r: (LifecycleState, LinkAction))
    ensures
        r.0 == spec_step(s, verb),
        r.1 == spec_link_action(s, verb),
{
    match verb {
        LifecycleVerb::Start => {
            if matches!(s, LifecycleState::Loaded) {
                (LifecycleState::Started, LinkAction::Attach)
            } else {
                (s, LinkAction::Keep)
            }
        },
        LifecycleVerb::Halt => {
            if matches!(s, LifecycleState::Started) {
                (LifecycleState::Loaded, LinkAction::Detach)
            } else {
                (s, LinkAction::Keep)
            }
        },
        LifecycleVerb::Terminate => {
            if matches!(s, LifecycleState::Started) {
                (LifecycleState::Terminated, LinkAction::Detach)
            } else {
                (LifecycleState::Terminated, LinkAction::Keep)
            }
        },
    }
}

/// How a `Status` request reports a lifecycle state: `Running` only while
/// attached.
pub open spec fn spec_status_of(s: LifecycleState) -> Status {
    if s == LifecycleState::Started {
        Status::Running
    } else {
        Status::Stopped
    }
}

pub fn status_of(s: LifecycleState) -> (r: Status)
    ensures
        r == spec_status_of(s),
{
    if matches!(s, LifecycleState::Started) {
        Status::Running
    } else {
        Status::Stopped
    }
}

} // verus!
