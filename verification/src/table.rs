//! The authoritative rule table: a fixed-capacity array of slots addressed
//! by dense indices `[0, MAX_RULES)`. A slot's index is its rule id. A slot
//! with `init == false` is free; adding claims the lowest free slot, with
//! the rule disabled until it is enabled explicitly.
use vstd::prelude::*;

use crate::schema::{Action, Direction, Match, Rule};
use crate::MAX_RULES;

verus! {

/// Well-formedness: exactly `MAX_RULES` slots, and every occupied slot
/// carries its own index as its id.
pub open spec fn table_wf(t: Seq<Rule>) -> bool {
    &&& t.len() == MAX_RULES
    &&& forall|i: int| 0 <= i < t.len() ==> (#[trigger] t[i]).init ==> t[i].id == i
}

/// The observable state of the table: the rule of each occupied slot, and
/// `None` for each free slot. Everything else a free slot holds is garbage
/// that no reader may depend on.
pub open spec fn logical(t: Seq<Rule>) -> Seq<Option<Rule>> {
    Seq::new(t.len(), |i: int| if t[i].init { Some(t[i]) } else { None })
}

/// The record actually written when `rule` is added at slot `i`: the slot
/// index becomes the id, and the rule starts out disabled.
pub open spec fn added_rule(rule: Rule, i: u32) -> Rule {
    Rule { id: i, enabled: false, init: true, ..rule }
}

/// The table after the slot at `i` flips its enabled bit.
pub open spec fn spec_toggle(t: Seq<Rule>, i: int) -> Seq<Rule> {
    t.update(i, Rule { enabled: !t[i].enabled, ..t[i] })
}

/// The table after the slot at `i` is freed.
pub open spec fn spec_delete(t: Seq<Rule>, i: int) -> Seq<Rule> {
    t.update(i, Rule { init: false, ..t[i] })
}

/// The occupied slots, in index order.
pub open spec fn init_rules(t: Seq<Rule>) -> Seq<Rule> {
    t.filter(|r: Rule| r.init)
}

/// Which enabled state an enable/disable/toggle request aims at, given the
/// slot's current state. `Toggle` aims at the negation; the other two are
/// absolute.
#[derive(Clone, Copy, Debug, PartialEq, Eq, Structural)]
pub enum ToggleAction {
    Enable,
    Disable,
    Toggle,
}

pub open spec fn desired_state(action: ToggleAction, current: bool) -> bool {
    match action {
        ToggleAction::Enable => true,
        ToggleAction::Disable => false,
        ToggleAction::Toggle => !current,
    }
}

/// The fixed-capacity rule table.
pub struct RuleTable {
    pub slots: Vec<Rule>,
}

impl View for RuleTable {
    type V = Seq<Rule>;

    open spec fn view(&self) -> Seq<Rule> {
        self.slots@
    }
}

impl RuleTable {
    /// An empty table: every slot free.
    pub fn new() -> (t: RuleTable)
        ensures
            table_wf(t@),
            forall|i: int| 0 <= i < t@.len() ==> !(#[trigger] t@[i]).init,
    {
        let blank = Rule {
            id: 0,
            action: Action::Accept,
            matches: Match::Port(0),
            applies_to: Direction::Source,
            enabled: false,
            init: false,
        };
        let mut slots: Vec<Rule> = Vec::new();
        let mut i: u32 = 0;
        while i < MAX_RULES
            invariant
                i <= MAX_RULES,
                slots@.len() == i,
                forall|j: int| 0 <= j < slots@.len() ==> #[trigger] slots@[j] == blank,
                !blank.init,
            decreases MAX_RULES - i,
        {
            slots.push(blank);
            i = i + 1;
        }
        RuleTable { slots }
    }

    /// The rule at `idx`, if that slot is occupied. Out-of-range and free
    /// slots both read as absent.
    pub fn get(&self, idx: u32) -> (r: Option<Rule>)
        requires
            table_wf(self@),
        ensures
            idx < MAX_RULES && self@[idx as int].init ==> r == Some(self@[idx as int]),
            !(idx < MAX_RULES && self@[idx as int].init) ==> r is None,
    {
        if idx < MAX_RULES {
            let slot = self.slots[idx as usize];
            if slot.init {
                Some(slot)
            } else {
                None
            }
        } else {
            None
        }
    }

    /// Claim the lowest free slot for `rule`, disabled, with the slot index
    /// as its id; report the claimed index, or `None` when every slot is
    /// occupied, leaving the table unchanged.
    pub fn add(&mut self, rule: Rule) -> (r: Option<u32>)
        requires
            table_wf(old(self)@),
        ensures
            table_wf(final(self)@),
            match r {
                Some(i) => {
                    &&& i < MAX_RULES
                    &&& !old(self)@[i as int].init
                    &&& forall|j: int| 0 <= j < i ==> (#[trigger] old(self)@[j]).init
                    &&& final(self)@ == old(self)@.update(i as int, added_rule(rule, i))
                },
                None => {
                    &&& forall|j: int|
                        0 <= j < old(self)@.len() ==> (#[trigger] old(self)@[j]).init
                    &&& final(self)@ == old(self)@
                },
            },
    {
        let mut i: u32 = 0;
        while i < MAX_RULES
            invariant
                table_wf(self@),
                i <= MAX_RULES,
                self@ == old(self)@,
                forall|j: int| 0 <= j < i ==> (#[trigger] self@[j]).init,
            decreases MAX_RULES - i,
        {
            if !self.slots[i as usize].init {
                let fresh = Rule {
                    id: i,
                    action: rule.action,
                    matches: rule.matches,
                    applies_to: rule.applies_to,
                    enabled: false,
                    init: true,
                };
                self.slots.set(i as usize, fresh);
                assert(fresh == added_rule(rule, i));
                return Some(i);
            }
            i = i + 1;
        }
        None
    }

    /// Free the slot at `idx`. Freeing a free or out-of-range slot is a
    /// no-op; the report says whether a slot was actually freed.
    pub fn delete(&mut self, idx: u32) -> (deleted: bool)
        requires
            table_wf(old(self)@),
        ensures
            table_wf(final(self)@),
            deleted == (idx < MAX_RULES && old(self)@[idx as int].init),
            deleted ==> final(self)@ == spec_delete(old(self)@, idx as int),
            !deleted ==> final(self)@ == old(self)@,
    {
        if idx < MAX_RULES {
            let slot = self.slots[idx as usize];
            if slot.init {
                let cleared = Rule { init: false, ..slot };
                self.slots.set(idx as usize, cleared);
                return true;
            }
        }
        false
    }

    /// Drive the slot at `idx` to the state the action aims at. Reports the
    /// missing slot, the state already holding (no write), or the state
    /// switched to (one write).
    pub fn set_enabled(&mut self, idx: u32, action: ToggleAction) -> (r: SetEnabledOutcome)
        requires
            table_wf(old(self)@),
        ensures
            table_wf(final(self)@),
            !(idx < MAX_RULES && old(self)@[idx as int].init) ==> r is NoSuchRule && final(self)@
                == old(self)@,
            (idx < MAX_RULES && old(self)@[idx as int].init && desired_state(
                action,
                old(self)@[idx as int].enabled,
            ) == old(self)@[idx as int].enabled) ==> r == (SetEnabledOutcome::NoChange {
                enabled: old(self)@[idx as int].enabled,
            }) && final(self)@ == old(self)@,
            (idx < MAX_RULES && old(self)@[idx as int].init && desired_state(
                action,
                old(self)@[idx as int].enabled,
            ) != old(self)@[idx as int].enabled) ==> r == (SetEnabledOutcome::Changed {
                enabled: desired_state(action, old(self)@[idx as int].enabled),
            }) && final(self)@ == spec_toggle(old(self)@, idx as int),
    {
        if idx >= MAX_RULES {
            return SetEnabledOutcome::NoSuchRule;
        }
        let slot = self.slots[idx as usize];
        if !slot.init {
            return SetEnabledOutcome::NoSuchRule;
        }
        let desired = match action {
            ToggleAction::Enable => true,
            ToggleAction::Disable => false,
            ToggleAction::Toggle => !slot.enabled,
        };
        if desired == slot.enabled {
            SetEnabledOutcome::NoChange { enabled: slot.enabled }
        } else {
            let written = Rule { enabled: desired, ..slot };
            self.slots.set(idx as usize, written);
            SetEnabledOutcome::Changed { enabled: desired }
        }
    }

    /// Overwrite the verdict, match and direction of the occupied slot at
    /// `idx`, preserving its id, enabled state and occupancy. Reports
    /// whether such a slot existed.
    pub fn update(&mut self, idx: u32, rule: Rule) -> (updated: bool)
        requires
            table_wf(old(self)@),
        ensures
            table_wf(final(self)@),
            updated == (idx < MAX_RULES && old(self)@[idx as int].init),
            updated ==> final(self)@ == old(self)@.update(
                idx as int,
                Rule {
                    action: rule.action,
                    matches: rule.matches,
                    applies_to: rule.applies_to,
                    ..old(self)@[idx as int]
                },
            ),
            !updated ==> final(self)@ == old(self)@,
    {
        if idx < MAX_RULES {
            let slot = self.slots[idx as usize];
            if slot.init {
                let written = Rule {
                    action: rule.action,
                    matches: rule.matches,
                    applies_to: rule.applies_to,
                    ..slot
                };
                self.slots.set(idx as usize, written);
                return true;
            }
        }
        false
    }

    /// The occupied slots, in index order.
    pub fn list(&self) -> (r: Vec<Rule>)
        requires
            table_wf(self@),
        ensures
            r@ == init_rules(self@),
    {
        let ghost pred = |x: Rule| x.init;
        let mut out: Vec<Rule> = Vec::new();
        let mut i: usize = 0;
        proof {
            assert(self@.take(0int) =~= Seq::<Rule>::empty());
            reveal_with_fuel(Seq::filter, 1);
            assert(self@.take(0int).filter(pred) =~= Seq::<Rule>::empty());
        }
        while i < self.slots.len()
            invariant
                i <= self@.len(),
                pred == (|x: Rule| x.init),
                out@ == self@.take(i as int).filter(pred),
            decreases self@.len() - i,
        {
            let slot = self.slots[i];
            proof {
                reveal_with_fuel(Seq::filter, 1);
                assert(self@.take(i + 1).drop_last() =~= self@.take(i as int));
                assert(self@.take(i + 1).last() == self@[i as int]);
            }
            if slot.init {
                out.push(slot);
            }
            i = i + 1;
        }
        proof {
            assert(self@.take(self@.len() as int) =~= self@);
        }
        out
    }
}

/// Outcome of an enable/disable/toggle on the table, before it is phrased
/// as a wire response.
#[derive(Clone, Copy, Debug, PartialEq, Eq, Structural)]
pub enum SetEnabledOutcome {
    NoSuchRule,
    NoChange { enabled: bool },
    Changed { enabled: bool },
}

/// Toggling the same slot twice returns the table to its prior state.
pub proof fn lemma_toggle_twice(t: Seq<Rule>, i: int)
    requires
        0 <= i < t.len(),
    ensures
        spec_toggle(spec_toggle(t, i), i) == t,
{
    assert(spec_toggle(spec_toggle(t, i), i) =~= t);
}

/// Adding a rule at a free slot and deleting it again returns the table to
/// its prior observable state.
pub proof fn lemma_add_then_delete(t: Seq<Rule>, rule: Rule, i: int)
    requires
        0 <= i < t.len(),
        !t[i].init,
    ensures
        logical(spec_delete(t.update(i, added_rule(rule, i as u32)), i)) == logical(t),
{
    assert(logical(spec_delete(t.update(i, added_rule(rule, i as u32)), i)) =~= logical(t));
}

} // verus!
