//! Marker read from a request's headers by the HTTP controller: whether
//! the client asked for a markup fragment rather than a plain payload.
use vstd::prelude::*;

verus! {

#[derive(Clone, Copy, Debug, PartialEq, Eq, Structural)]
pub enum Htmx {
    Enabled,
    Disabled,
}

impl Htmx {
    pub fn enabled(&self) -> (r: bool)
        ensures
            r == (*self is Enabled),
    {
        matches!(self, Htmx::Enabled)
    }

    pub fn disabled(&self) -> (r: bool)
        ensures
            r == (*self is Disabled),
    {
        matches!(self, Htmx::Disabled)
    }
}

} // verus!
