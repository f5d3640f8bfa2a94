//! Wire protocol: the request/response and event records exchanged over the
//! control and event sockets. Each record travels as one length-prefixed
//! frame whose payload is the deterministic binary encoding of the record
//! (see [`crate::codec`]).
use vstd::prelude::*;

use crate::schema::{StoredEventDecoded, StoredRuleDecoded, StoredRuleView, Rule, Timestamp};

verus! {

/// Reported program status: `Running` while the classifier is attached to
/// the interface, `Stopped` otherwise.
#[derive(Clone, Copy, Debug, PartialEq, Eq, Structural)]
pub enum Status {
    Stopped,
    Running,
}

/// Whether a rule slot is currently enabled.
#[derive(Clone, Copy, Debug, PartialEq, Eq, Structural)]
pub enum RuleStatus {
    Active,
    Inactive,
}

/// Outcome of an enable/disable/toggle request. `Change(s)` and
/// `NoChangeRequired(s)` both report the state the slot is in afterwards.
#[derive(Clone, Copy, Debug, PartialEq, Eq, Structural)]
pub enum RuleChange {
    NoSuchRule,
    NoChangeRequired(RuleStatus),
    Change(RuleStatus),
}

/// Selection of stored events: all of them, those of the last span of
/// time (in microseconds), or those at or after an instant.
#[derive(Clone, Copy, Debug, PartialEq, Eq, Structural)]
pub enum EventQuery {
    All,
    Last(u64),
    Since(Timestamp),
}

/// A control request against the rule table or the event store.
#[derive(Clone, Debug, PartialEq, Eq)]
pub enum Request {
    AddRule(StoredRuleDecoded),
    DeleteRule(u32),
    EnableRule(u32),
    DisableRule(u32),
    ToggleRule(u32),
    UpdateRule(u32, Rule),
    GetRule(u32),
    GetRules,
    Status,
    GetEvents(EventQuery),
}

/// Mathematical model of a [`Request`].
pub enum RequestView {
    AddRule(StoredRuleView),
    DeleteRule(u32),
    EnableRule(u32),
    DisableRule(u32),
    ToggleRule(u32),
    UpdateRule(u32, Rule),
    GetRule(u32),
    GetRules,
    Status,
    GetEvents(EventQuery),
}

impl View for Request {
    type V = RequestView;

    open spec fn view(&self) -> RequestView {
        match self {
            Request::AddRule(m) => RequestView::AddRule(m@),
            Request::DeleteRule(i) => RequestView::DeleteRule(*i),
            Request::EnableRule(i) => RequestView::EnableRule(*i),
            Request::DisableRule(i) => RequestView::DisableRule(*i),
            Request::ToggleRule(i) => RequestView::ToggleRule(*i),
            Request::UpdateRule(i, r) => RequestView::UpdateRule(*i, *r),
            Request::GetRule(i) => RequestView::GetRule(*i),
            Request::GetRules => RequestView::GetRules,
            Request::Status => RequestView::Status,
            Request::GetEvents(q) => RequestView::GetEvents(*q),
        }
    }
}

/// A control response. Requests that expect none produce silence.
#[derive(Clone, Debug, PartialEq, Eq)]
pub enum Response {
    Id(u32),
    ListFull,
    Rules(Vec<StoredRuleDecoded>),
    Rule(StoredRuleDecoded),
    DoesNotExist,
    Status(Status),
    RuleChange(RuleChange),
    Events(Vec<StoredEventDecoded>),
}

/// Mathematical model of a [`Response`].
pub enum ResponseView {
    Id(u32),
    ListFull,
    Rules(Seq<StoredRuleView>),
    Rule(StoredRuleView),
    DoesNotExist,
    Status(Status),
    RuleChange(RuleChange),
    Events(Seq<StoredEventDecoded>),
}

/// The models of a sequence of rule records, item by item.
pub open spec fn rule_views(s: Seq<StoredRuleDecoded>) -> Seq<StoredRuleView> {
    s.map_values(|r: StoredRuleDecoded| r@)
}

impl View for Response {
    type V = ResponseView;

    open spec fn view(&self) -> ResponseView {
        match self {
            Response::Id(i) => ResponseView::Id(*i),
            Response::ListFull => ResponseView::ListFull,
            Response::Rules(rs) => ResponseView::Rules(rule_views(rs@)),
            Response::Rule(r) => ResponseView::Rule(r@),
            Response::DoesNotExist => ResponseView::DoesNotExist,
            Response::Status(s) => ResponseView::Status(*s),
            Response::RuleChange(c) => ResponseView::RuleChange(*c),
            Response::Events(es) => ResponseView::Events(es@),
        }
    }
}

/// A top-level control message: a lifecycle verb or a firewall request.
#[derive(Clone, Debug, PartialEq, Eq)]
pub enum Message {
    Terminate,
    Start,
    Halt,
    Firewall(Request),
}

/// Mathematical model of a [`Message`].
pub enum MessageView {
    Terminate,
    Start,
    Halt,
    Firewall(RequestView),
}

impl View for Message {
    type V = MessageView;

    open spec fn view(&self) -> MessageView {
        match self {
            Message::Terminate => MessageView::Terminate,
            Message::Start => MessageView::Start,
            Message::Halt => MessageView::Halt,
            Message::Firewall(r) => MessageView::Firewall(r@),
        }
    }
}

/// A record pushed to event-stream subscribers.
#[derive(Clone, Copy, Debug, PartialEq, Eq, Structural)]
pub enum LogKind {
    Event(StoredEventDecoded),
}

/// An event-stream record stamped with the instant it was sent.
#[derive(Clone, Copy, Debug, PartialEq, Eq, Structural)]
pub struct Log {
    pub time: Timestamp,
    pub kind: LogKind,
}

} // verus!
