//! The supervisor: the authoritative state behind the control socket.
//!
//! It owns the rule table, the out-of-band rule metadata, the event
//! history and the lifecycle state, and maps each control message to a
//! response, a durable-store effect for the caller to mirror, and a link
//! action. The durable store and the in-kernel map are write-behind
//! mirrors of this state: every transition says exactly which row the
//! caller must write or delete, so that nothing is persisted when nothing
//! changed.
use vstd::prelude::*;

use crate::clock::now_timestamp;
use crate::events::{spec_query, EventLog};
use crate::lifecycle::{
    spec_link_action, spec_status_of, spec_step, status_of, step, LifecycleState, LifecycleVerb,
    LinkAction,
};
use crate::schema::{Rule, StoredEventDecoded, StoredRuleDecoded, StoredRuleView, Timestamp};
use crate::table::{
    added_rule, desired_state, init_rules, spec_delete, spec_toggle, table_wf, RuleTable,
    SetEnabledOutcome, ToggleAction,
};
use crate::wire::{
    EventQuery, Message, MessageView, Request, RequestView, Response, ResponseView, RuleChange,
    RuleStatus,
};
use crate::MAX_RULES;

verus! {

/// The durable write a transition asks its caller to mirror: nothing, the
/// row of one slot (insert or overwrite), or the removal of one row.
#[derive(Clone, Copy, Debug, PartialEq, Eq, Structural)]
pub enum StoreEffect {
    NoWrite,
    Write(u32),
    Delete(u32),
}

/// The supervisor's state.
pub struct Supervisor {
    pub table: RuleTable,
    pub names: Vec<Vec<u8>>,
    pub descriptions: Vec<Vec<u8>>,
    pub events: EventLog,
    pub lifecycle: LifecycleState,
}

/// Mathematical model of the supervisor's state.
#[verifier::ext_equal]
pub struct SupervisorView {
    pub rules: Seq<Rule>,
    pub names: Seq<Seq<u8>>,
    pub descriptions: Seq<Seq<u8>>,
    pub events: Seq<StoredEventDecoded>,
    pub lifecycle: LifecycleState,
}

impl View for Supervisor {
    type V = SupervisorView;

    open spec fn view(&self) -> SupervisorView {
        SupervisorView {
            rules: self.table@,
            names: self.names@.map_values(|v: Vec<u8>| v@),
            descriptions: self.descriptions@.map_values(|v: Vec<u8>| v@),
            events: self.events@,
            lifecycle: self.lifecycle,
        }
    }
}

pub open spec fn sv_wf(sv: SupervisorView) -> bool {
    &&& table_wf(sv.rules)
    &&& sv.names.len() == MAX_RULES
    &&& sv.descriptions.len() == MAX_RULES
}

/// The lowest free slot index at or after `i`.
pub open spec fn first_free(t: Seq<Rule>, i: int) -> Option<int>
    decreases t.len() - i,
{
    if i < 0 || i >= t.len() {
        None
    } else if !t[i].init {
        Some(i)
    } else {
        first_free(t, i + 1)
    }
}

/// What a first-free lookup reports: a free slot with everything before it
/// occupied, or a fully occupied tail.
pub proof fn lemma_first_free_props(t: Seq<Rule>, i: int)
    requires
        0 <= i,
    ensures
        match first_free(t, i) {
            Some(j) => i <= j < t.len() && !t[j].init && (forall|k: int|
                i <= k < j ==> (#[trigger] t[k]).init),
            None => forall|k: int| i <= k < t.len() ==> (#[trigger] t[k]).init,
        },
    decreases t.len() - i,
{
    if 0 <= i < t.len() {
        lemma_first_free_props(t, i + 1);
    }
}

pub open spec fn status_bit(enabled: bool) -> RuleStatus {
    if enabled {
        RuleStatus::Active
    } else {
        RuleStatus::Inactive
    }
}

pub open spec fn opt_resp_view(o: Option<Response>) -> Option<ResponseView> {
    match o {
        Some(x) => Some(x@),
        None => None,
    }
}

/// The row a `GetRule` or `GetRules` answer carries for one occupied slot.
pub open spec fn row_fn(names: Seq<Seq<u8>>, descriptions: Seq<Seq<u8>>) -> spec_fn(Rule) -> StoredRuleView {
    |r: Rule|
        StoredRuleView {
            id: r.id,
            name: names[r.id as int],
            description: descriptions[r.id as int],
            rule: r,
        }
}

/// The rows of every occupied slot, in index order.
pub open spec fn stored_rows(sv: SupervisorView) -> Seq<StoredRuleView> {
    init_rules(sv.rules).map_values(row_fn(sv.names, sv.descriptions))
}

/// One enable/disable/toggle transition: a missing slot is reported, a
/// slot already in the desired state is reported without a write, and a
/// real change flips the slot and writes its row through.
pub open spec fn toggle_transition(
    pre: SupervisorView,
    i: u32,
    action: ToggleAction,
    post: SupervisorView,
    resp: Option<ResponseView>,
    eff: StoreEffect,
) -> bool {
    if !(i < MAX_RULES && pre.rules[i as int].init) {
        &&& post == pre
        &&& resp == Some(ResponseView::RuleChange(RuleChange::NoSuchRule))
        &&& eff == StoreEffect::NoWrite
    } else {
        let cur = pre.rules[i as int].enabled;
        let want = desired_state(action, cur);
        if want == cur {
            &&& post == pre
            &&& resp == Some(ResponseView::RuleChange(RuleChange::NoChangeRequired(status_bit(cur))))
            &&& eff == StoreEffect::NoWrite
        } else {
            &&& post == (SupervisorView { rules: spec_toggle(pre.rules, i as int), ..pre })
            &&& resp == Some(ResponseView::RuleChange(RuleChange::Change(status_bit(want))))
            &&& eff == StoreEffect::Write(i)
        }
    }
}

/// The whole firewall request/response relation: what each request
/// answers, how it changes the state, and which durable row it touches,
/// all at the instant `now`.
///
/// Bounds follow the out-of-range convention: enable, disable, toggle
/// and update answer `NoSuchRule`, while delete and get are dropped
/// silently. A delete and a successful update also produce silence, so
/// only requests that expect a payload are ever answered.
pub open spec fn request_transition(
    pre: SupervisorView,
    req: RequestView,
    now: Timestamp,
    post: SupervisorView,
    resp: Option<ResponseView>,
    eff: StoreEffect,
) -> bool {
    match req {
        RequestView::AddRule(m) => match first_free(pre.rules, 0) {
            Some(i) => {
                &&& post == (SupervisorView {
                    rules: pre.rules.update(i, added_rule(m.rule, i as u32)),
                    names: pre.names.update(i, m.name),
                    descriptions: pre.descriptions.update(i, m.description),
                    ..pre
                })
                &&& resp == Some(ResponseView::Id(i as u32))
                &&& eff == StoreEffect::Write(i as u32)
            },
            None => {
                &&& post == pre
                &&& resp == Some(ResponseView::ListFull)
                &&& eff == StoreEffect::NoWrite
            },
        },
        RequestView::DeleteRule(i) => {
            if i < MAX_RULES && pre.rules[i as int].init {
                &&& post == (SupervisorView { rules: spec_delete(pre.rules, i as int), ..pre })
                &&& resp is None
                &&& eff == StoreEffect::Delete(i)
            } else {
                &&& post == pre
                &&& resp is None
                &&& eff == StoreEffect::NoWrite
            }
        },
        RequestView::EnableRule(i) => toggle_transition(
            pre,
            i,
            ToggleAction::Enable,
            post,
            resp,
            eff,
        ),
        RequestView::DisableRule(i) => toggle_transition(
            pre,
            i,
            ToggleAction::Disable,
            post,
            resp,
            eff,
        ),
        RequestView::ToggleRule(i) => toggle_transition(
            pre,
            i,
            ToggleAction::Toggle,
            post,
            resp,
            eff,
        ),
        RequestView::UpdateRule(i, rule) => {
            if i < MAX_RULES && pre.rules[i as int].init {
                &&& post == (SupervisorView {
                    rules: pre.rules.update(
                        i as int,
                        Rule {
                            action: rule.action,
                            matches: rule.matches,
                            applies_to: rule.applies_to,
                            ..pre.rules[i as int]
                        },
                    ),
                    ..pre
                })
                &&& resp is None
                &&& eff == StoreEffect::Write(i)
            } else {
                &&& post == pre
                &&& resp == Some(ResponseView::RuleChange(RuleChange::NoSuchRule))
                &&& eff == StoreEffect::NoWrite
            }
        },
        RequestView::GetRule(i) => {
            &&& post == pre
            &&& eff == StoreEffect::NoWrite
            &&& resp == (if i < MAX_RULES && pre.rules[i as int].init {
                Some(
                    ResponseView::Rule(
                        StoredRuleView {
                            id: i,
                            name: pre.names[i as int],
                            description: pre.descriptions[i as int],
                            rule: pre.rules[i as int],
                        },
                    ),
                )
            } else if i < MAX_RULES {
                Some(ResponseView::DoesNotExist)
            } else {
                None
            })
        },
        RequestView::GetRules => {
            &&& post == pre
            &&& eff == StoreEffect::NoWrite
            &&& resp == Some(ResponseView::Rules(stored_rows(pre)))
        },
        RequestView::Status => {
            &&& post == pre
            &&& eff == StoreEffect::NoWrite
            &&& resp == Some(ResponseView::Status(spec_status_of(pre.lifecycle)))
        },
        RequestView::GetEvents(q) => {
            &&& post == pre
            &&& eff == StoreEffect::NoWrite
            &&& resp == Some(ResponseView::Events(spec_query(pre.events, q, now)))
        },
    }
}

/// Everything one handled control message asks of the surrounding process.
pub struct Handled {
    pub response: Option<Response>,
    pub store: StoreEffect,
    pub link: LinkAction,
    pub stop: bool,
}

impl Supervisor {
    /// A fresh supervisor: empty table, empty metadata, empty history,
    /// program loaded but not attached.
    pub fn new() -> (r: Supervisor)
        ensures
            sv_wf(r@),
            forall|i: int| 0 <= i < r@.rules.len() ==> !(#[trigger] r@.rules[i]).init,
            forall|i: int| 0 <= i < MAX_RULES ==> #[trigger] r@.names[i] == Seq::<u8>::empty(),
            forall|i: int|
                0 <= i < MAX_RULES ==> #[trigger] r@.descriptions[i] == Seq::<u8>::empty(),
            r@.events == Seq::<StoredEventDecoded>::empty(),
            r@.lifecycle == LifecycleState::Loaded,
    {
        let table = RuleTable::new();
        let mut names: Vec<Vec<u8>> = Vec::new();
        let mut descriptions: Vec<Vec<u8>> = Vec::new();
        let mut i: u32 = 0;
        while i < MAX_RULES
            invariant
                i <= MAX_RULES,
                names@.len() == i,
                descriptions@.len() == i,
                forall|j: int| 0 <= j < i ==> (#[trigger] names@[j])@ == Seq::<u8>::empty(),
                forall|j: int| 0 <= j < i ==> (#[trigger] descriptions@[j])@ == Seq::<u8>::empty(),
            decreases MAX_RULES - i,
        {
            names.push(Vec::new());
            descriptions.push(Vec::new());
            i = i + 1;
        }
        Supervisor {
            table,
            names,
            descriptions,
            events: EventLog::new(),
            lifecycle: LifecycleState::Loaded,
        }
    }

    /// Handle one firewall request at the instant `now`.
    pub fn handle_request_at(&mut self, req: &Request, now: Timestamp) -> (r: (
        Option<Response>,
        StoreEffect,
    ))
        requires
            sv_wf(old(self)@),
        ensures
            sv_wf(final(self)@),
            request_transition(old(self)@, req@, now, final(self)@, opt_resp_view(r.0), r.1),
    {
        let ghost pre = self@;
        match req {
            Request::AddRule(m) => {
                proof {
                    lemma_first_free_props(pre.rules, 0);
                }
                match self.table.add(m.rule) {
                    Some(i) => {
                        self.names.set(i as usize, clone_bytes(&m.name));
                        self.descriptions.set(i as usize, clone_bytes(&m.description));
                        proof {
                            assert(first_free(pre.rules, 0) == Some(i as int));
                            assert(self@.names =~= pre.names.update(i as int, m.name@));
                            assert(self@.descriptions =~= pre.descriptions.update(
                                i as int,
                                m.description@,
                            ));
                            assert(self@ =~= (SupervisorView {
                                rules: pre.rules.update(i as int, added_rule(m.rule, i)),
                                names: pre.names.update(i as int, m.name@),
                                descriptions: pre.descriptions.update(i as int, m.description@),
                                ..pre
                            }));
                        }
                        (Some(Response::Id(i)), StoreEffect::Write(i))
                    },
                    None => {
                        proof {
                            assert(first_free(pre.rules, 0) is None);
                            assert(self@ =~= pre);
                        }
                        (Some(Response::ListFull), StoreEffect::NoWrite)
                    },
                }
            },
            Request::DeleteRule(i) => {
                let deleted = self.table.delete(*i);
                proof {
                    if deleted {
                        assert(self@ =~= (SupervisorView {
                            rules: spec_delete(pre.rules, *i as int),
                            ..pre
                        }));
                    } else {
                        assert(self@ =~= pre);
                    }
                }
                if deleted {
                    (None, StoreEffect::Delete(*i))
                } else {
                    (None, StoreEffect::NoWrite)
                }
            },
            Request::EnableRule(i) => self.set_enabled_request(*i, ToggleAction::Enable),
            Request::DisableRule(i) => self.set_enabled_request(*i, ToggleAction::Disable),
            Request::ToggleRule(i) => self.set_enabled_request(*i, ToggleAction::Toggle),
            Request::UpdateRule(i, rule) => {
                let updated = self.table.update(*i, *rule);
                proof {
                    if updated {
                        assert(self@ =~= (SupervisorView {
                            rules: pre.rules.update(
                                *i as int,
                                Rule {
                                    action: rule.action,
                                    matches: rule.matches,
                                    applies_to: rule.applies_to,
                                    ..pre.rules[*i as int]
                                },
                            ),
                            ..pre
                        }));
                    } else {
                        assert(self@ =~= pre);
                    }
                }
                if updated {
                    (None, StoreEffect::Write(*i))
                } else {
                    (
                        Some(Response::RuleChange(RuleChange::NoSuchRule)),
                        StoreEffect::NoWrite,
                    )
                }
            },
            Request::GetRule(i) => {
                proof {
                    assert(self@ =~= pre);
                }
                if *i < MAX_RULES {
                    match self.table.get(*i) {
                        Some(rule) => {
                            let row = StoredRuleDecoded {
                                id: *i,
                                name: clone_bytes(&self.names[*i as usize]),
                                description: clone_bytes(&self.descriptions[*i as usize]),
                                rule,
                            };
                            (Some(Response::Rule(row)), StoreEffect::NoWrite)
                        },
                        None => (Some(Response::DoesNotExist), StoreEffect::NoWrite),
                    }
                } else {
                    (None, StoreEffect::NoWrite)
                }
            },
            Request::GetRules => {
                let rows = self.list_rows();
                proof {
                    assert(self@ =~= pre);
                }
                (Some(Response::Rules(rows)), StoreEffect::NoWrite)
            },
            Request::Status => {
                proof {
                    assert(self@ =~= pre);
                }
                (
                    Some(Response::Status(status_of(self.lifecycle))),
                    StoreEffect::NoWrite,
                )
            },
            Request::GetEvents(q) => {
                let events = self.events.query(q, now);
                proof {
                    assert(self@ =~= pre);
                }
                (Some(Response::Events(events)), StoreEffect::NoWrite)
            },
        }
    }

    /// One enable/disable/toggle request against the table.
    fn set_enabled_request(&mut self, i: u32, action: ToggleAction) -> (r: (
        Option<Response>,
        StoreEffect,
    ))
        requires
            sv_wf(old(self)@),
        ensures
            sv_wf(final(self)@),
            toggle_transition(old(self)@, i, action, final(self)@, opt_resp_view(r.0), r.1),
    {
        let ghost pre = self@;
        let outcome = self.table.set_enabled(i, action);
        proof {
            match outcome {
                SetEnabledOutcome::Changed { .. } => {
                    assert(self@ =~= (SupervisorView {
                        rules: spec_toggle(pre.rules, i as int),
                        ..pre
                    }));
                },
                _ => {
                    assert(self@ =~= pre);
                },
            }
        }
        match outcome {
            SetEnabledOutcome::NoSuchRule => (
                Some(Response::RuleChange(RuleChange::NoSuchRule)),
                StoreEffect::NoWrite,
            ),
            SetEnabledOutcome::NoChange { enabled } => (
                Some(
                    Response::RuleChange(
                        RuleChange::NoChangeRequired(
                            if enabled {
                                RuleStatus::Active
                            } else {
                                RuleStatus::Inactive
                            },
                        ),
                    ),
                ),
                StoreEffect::NoWrite,
            ),
            SetEnabledOutcome::Changed { enabled } => (
                Some(
                    Response::RuleChange(
                        RuleChange::Change(
                            if enabled {
                                RuleStatus::Active
                            } else {
                                RuleStatus::Inactive
                            },
                        ),
                    ),
                ),
                StoreEffect::Write(i),
            ),
        }
    }

    /// The rows of every occupied slot, in index order.
    pub fn list_rows(&self) -> (r: Vec<StoredRuleDecoded>)
        requires
            sv_wf(self@),
        ensures
            crate::wire::rule_views(r@) == stored_rows(self@),
    {
        let ghost f = row_fn(self@.names, self@.descriptions);
        let ghost pred = |x: Rule| x.init;
        let mut out: Vec<StoredRuleDecoded> = Vec::new();
        let mut i: usize = 0;
        proof {
            assert(self@.rules.take(0int) =~= Seq::<Rule>::empty());
            reveal_with_fuel(Seq::filter, 1);
            assert(self@.rules.take(0int).filter(pred) =~= Seq::<Rule>::empty());
            assert(crate::wire::rule_views(out@) =~= self@.rules.take(0int).filter(
                pred,
            ).map_values(f));
        }
        while i < self.table.slots.len()
            invariant
                sv_wf(self@),
                i <= self@.rules.len(),
                f == row_fn(self@.names, self@.descriptions),
                pred == (|x: Rule| x.init),
                crate::wire::rule_views(out@) == self@.rules.take(i as int).filter(
                    pred,
                ).map_values(f),
            decreases self@.rules.len() - i,
        {
            let slot = self.table.slots[i];
            proof {
                reveal_with_fuel(Seq::filter, 1);
                assert(self@.rules.take(i + 1).drop_last() =~= self@.rules.take(i as int));
                assert(self@.rules.take(i + 1).last() == self@.rules[i as int]);
            }
            if slot.init {
                let row = StoredRuleDecoded {
                    id: slot.id,
                    name: clone_bytes(&self.names[i]),
                    description: clone_bytes(&self.descriptions[i]),
                    rule: slot,
                };
                let ghost prev = crate::wire::rule_views(out@);
                out.push(row);
                proof {
                    assert(slot.id == i);
                    assert(row@ == f(slot));
                    assert(crate::wire::rule_views(out@) =~= prev.push(row@));
                    assert(self@.rules.take(i + 1).filter(pred) == self@.rules.take(
                        i as int,
                    ).filter(pred).push(slot));
                    assert(self@.rules.take(i + 1).filter(pred).map_values(f) =~= self@.rules.take(
                        i as int,
                    ).filter(pred).map_values(f).push(f(slot)));
                }
            } else {
                proof {
                    assert(self@.rules.take(i + 1).filter(pred) == self@.rules.take(
                        i as int,
                    ).filter(pred));
                }
            }
            i = i + 1;
        }
        proof {
            assert(self@.rules.take(self@.rules.len() as int) =~= self@.rules);
        }
        out
    }

    /// Handle one control message at the instant `now`: lifecycle verbs
    /// drive the state machine, firewall requests go to the dispatcher.
    pub fn handle_message_at(&mut self, msg: &Message, now: Timestamp) -> (r: Handled)
        requires
            sv_wf(old(self)@),
        ensures
            sv_wf(final(self)@),
            match msg@ {
                MessageView::Firewall(rq) => request_transition(
                    old(self)@,
                    rq,
                    now,
                    final(self)@,
                    opt_resp_view(r.response),
                    r.store,
                ) && r.link == LinkAction::Keep && r.stop == false,
                MessageView::Start => lifecycle_handled(old(self)@, LifecycleVerb::Start, final(self)@, r),
                MessageView::Halt => lifecycle_handled(old(self)@, LifecycleVerb::Halt, final(self)@, r),
                MessageView::Terminate => lifecycle_handled(
                    old(self)@,
                    LifecycleVerb::Terminate,
                    final(self)@,
                    r,
                ),
            },
    {
        let ghost pre = self@;
        match msg {
            Message::Firewall(req) => {
                let (response, store) = self.handle_request_at(req, now);
                Handled { response, store, link: LinkAction::Keep, stop: false }
            },
            Message::Start => self.lifecycle_message(LifecycleVerb::Start),
            Message::Halt => self.lifecycle_message(LifecycleVerb::Halt),
            Message::Terminate => self.lifecycle_message(LifecycleVerb::Terminate),
        }
    }

    /// Handle one control message, reading the wall clock for queries that
    /// are relative to the present.
    pub fn handle_message(&mut self, msg: &Message) -> (r: Handled)
        requires
            sv_wf(old(self)@),
        ensures
            sv_wf(final(self)@),
            match msg@ {
                MessageView::Firewall(rq) => (exists|t: Timestamp|
                    #[trigger] request_transition(
                        old(self)@,
                        rq,
                        t,
                        final(self)@,
                        opt_resp_view(r.response),
                        r.store,
                    )) && r.link == LinkAction::Keep && r.stop == false,
                MessageView::Start => lifecycle_handled(old(self)@, LifecycleVerb::Start, final(self)@, r),
                MessageView::Halt => lifecycle_handled(old(self)@, LifecycleVerb::Halt, final(self)@, r),
                MessageView::Terminate => lifecycle_handled(
                    old(self)@,
                    LifecycleVerb::Terminate,
                    final(self)@,
                    r,
                ),
            },
    {
        let now = now_timestamp();
        self.handle_message_at(msg, now)
    }

    fn lifecycle_message(&mut self, verb: LifecycleVerb) -> (r: Handled)
        requires
            sv_wf(old(self)@),
        ensures
            sv_wf(final(self)@),
            lifecycle_handled(old(self)@, verb, final(self)@, r),
    {
        let ghost pre = self@;
        let (next, link) = step(self.lifecycle, verb);
        self.lifecycle = next;
        proof {
            assert(self@ =~= (SupervisorView { lifecycle: spec_step(pre.lifecycle, verb), ..pre }));
        }
        Handled {
            response: None,
            store: StoreEffect::NoWrite,
            link,
            stop: matches!(verb, LifecycleVerb::Terminate),
        }
    }

    /// Ingest one raw observation from the ring at instant `now`: `Pass`
    /// is discarded; anything else is appended to the history and handed
    /// back as the record to broadcast and persist.
    pub fn ingest_event(&mut self, e: crate::schema::Event, now: Timestamp) -> (r: Option<
        StoredEventDecoded,
    >)
        requires
            sv_wf(old(self)@),
        ensures
            sv_wf(final(self)@),
            match e {
                crate::schema::Event::Pass => r is None && final(self)@ == old(self)@,
                crate::schema::Event::Blocked { .. } => r == Some(
                    StoredEventDecoded { time: now, event: e },
                ) && final(self)@ == (SupervisorView {
                    events: old(self)@.events.push(StoredEventDecoded { time: now, event: e }),
                    ..old(self)@
                }),
            },
    {
        let ghost pre = self@;
        let r = self.events.ingest(e, now);
        proof {
            match e {
                crate::schema::Event::Pass => {
                    assert(self@ =~= pre);
                },
                crate::schema::Event::Blocked { .. } => {
                    assert(self@ =~= (SupervisorView {
                        events: pre.events.push(StoredEventDecoded { time: now, event: e }),
                        ..pre
                    }));
                },
            }
        }
        r
    }
}

/// What handling one lifecycle verb does: only the lifecycle state moves,
/// no response and no durable write, the link action follows the state
/// machine, and only `Terminate` stops the supervisor.
pub open spec fn lifecycle_handled(
    pre: SupervisorView,
    verb: LifecycleVerb,
    post: SupervisorView,
    r: Handled,
) -> bool {
    &&& post == (SupervisorView { lifecycle: spec_step(pre.lifecycle, verb), ..pre })
    &&& r.response is None
    &&& r.store == StoreEffect::NoWrite
    &&& r.link == spec_link_action(pre.lifecycle, verb)
    &&& r.stop == (verb == LifecycleVerb::Terminate)
}

/// Copy a byte string.
fn clone_bytes(v: &Vec<u8>) -> (r: Vec<u8>)
    ensures
        r@ == v@,
{
    let mut out: Vec<u8> = Vec::new();
    let mut i: usize = 0;
    while i < v.len()
        invariant
            i <= v@.len(),
            out@ == v@.take(i as int),
        decreases v@.len() - i,
    {
        out.push(v[i]);
        i = i + 1;
        assert(out@ =~= v@.take(i as int));
    }
    assert(v@.take(v@.len() as int) =~= v@);
    out
}

/// Adding a rule and deleting it again returns the table to its prior
/// observable state; only the event history may differ between the two
/// ends (and here neither request touches it).
pub proof fn lemma_add_then_delete_requests(
    pre: SupervisorView,
    mid: SupervisorView,
    post: SupervisorView,
    m: StoredRuleView,
    i: u32,
    t1: Timestamp,
    t2: Timestamp,
    eff1: StoreEffect,
    resp2: Option<ResponseView>,
    eff2: StoreEffect,
)
    requires
        sv_wf(pre),
        request_transition(pre, RequestView::AddRule(m), t1, mid, Some(ResponseView::Id(i)), eff1),
        request_transition(mid, RequestView::DeleteRule(i), t2, post, resp2, eff2),
    ensures
        crate::table::logical(post.rules) == crate::table::logical(pre.rules),
        post.events == pre.events,
        post.lifecycle == pre.lifecycle,
{
    lemma_first_free_props(pre.rules, 0);
    let j = first_free(pre.rules, 0)->Some_0;
    assert(i == j as u32);
    assert(mid.rules == pre.rules.update(j, added_rule(m.rule, i)));
    assert(mid.rules[j].init);
    crate::table::lemma_add_then_delete(pre.rules, m.rule, j);
    assert(crate::table::spec_delete(pre.rules.update(j, added_rule(m.rule, i)), j)
        == post.rules);
}

/// Toggling the same slot twice with two requests leaves the supervisor
/// exactly as it was, whether or not the slot exists.
pub proof fn lemma_toggle_twice_requests(
    pre: SupervisorView,
    mid: SupervisorView,
    post: SupervisorView,
    i: u32,
    t1: Timestamp,
    t2: Timestamp,
    resp1: Option<ResponseView>,
    eff1: StoreEffect,
    resp2: Option<ResponseView>,
    eff2: StoreEffect,
)
    requires
        sv_wf(pre),
        request_transition(pre, RequestView::ToggleRule(i), t1, mid, resp1, eff1),
        request_transition(mid, RequestView::ToggleRule(i), t2, post, resp2, eff2),
    ensures
        post == pre,
{
    if i < MAX_RULES && pre.rules[i as int].init {
        crate::table::lemma_toggle_twice(pre.rules, i as int);
        assert(post =~= pre);
    }
}

} // verus!
