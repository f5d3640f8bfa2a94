use firewall::schema::{Action, Direction, Match, Rule};
use firewall::table::{RuleTable, SetEnabledOutcome, ToggleAction};
use firewall::MAX_RULES;

fn rule(matches: Match) -> Rule {
    Rule {
        id: 0,
        action: Action::Drop,
        matches,
        applies_to: Direction::Source,
        enabled: true,
        init: true,
    }
}

#[test]
fn add_claims_lowest_free_slot_disabled() {
    let mut t = RuleTable::new();
    assert_eq!(t.add(rule(Match::Port(80))), Some(0));
    assert_eq!(t.add(rule(Match::Port(81))), Some(1));
    let first = t.get(0).unwrap();
    assert_eq!(first.id, 0);
    assert!(first.init);
    assert!(!first.enabled, "added rules start disabled");
}

#[test]
fn get_absent_and_out_of_range() {
    let t = RuleTable::new();
    assert!(t.get(0).is_none());
    assert!(t.get(MAX_RULES).is_none());
    assert!(t.get(u32::MAX).is_none());
}

#[test]
fn delete_is_idempotent() {
    let mut t = RuleTable::new();
    t.add(rule(Match::Port(80)));
    assert!(t.delete(0));
    assert!(t.get(0).is_none());
    assert!(!t.delete(0), "deleting a free slot is a no-op");
    assert!(!t.delete(MAX_RULES));
}

#[test]
fn enable_disable_toggle_flow() {
    let mut t = RuleTable::new();
    t.add(rule(Match::Port(80)));
    assert_eq!(
        t.set_enabled(0, ToggleAction::Disable),
        SetEnabledOutcome::NoChange { enabled: false },
    );
    assert_eq!(
        t.set_enabled(0, ToggleAction::Enable),
        SetEnabledOutcome::Changed { enabled: true },
    );
    assert_eq!(
        t.set_enabled(0, ToggleAction::Enable),
        SetEnabledOutcome::NoChange { enabled: true },
    );
    assert_eq!(
        t.set_enabled(0, ToggleAction::Toggle),
        SetEnabledOutcome::Changed { enabled: false },
    );
    assert_eq!(t.set_enabled(1, ToggleAction::Enable), SetEnabledOutcome::NoSuchRule);
    assert_eq!(t.set_enabled(MAX_RULES, ToggleAction::Toggle), SetEnabledOutcome::NoSuchRule);
}

#[test]
fn toggle_twice_is_identity() {
    let mut t = RuleTable::new();
    t.add(rule(Match::Port(80)));
    t.set_enabled(0, ToggleAction::Enable);
    let before = t.get(0).unwrap();
    t.set_enabled(0, ToggleAction::Toggle);
    t.set_enabled(0, ToggleAction::Toggle);
    assert_eq!(t.get(0).unwrap(), before);
}

#[test]
fn add_then_delete_restores_prior_state() {
    let mut t = RuleTable::new();
    t.add(rule(Match::Port(80)));
    let before: Vec<Option<Rule>> = (0..MAX_RULES).map(|i| t.get(i)).collect();
    let id = t.add(rule(Match::Port(9000))).unwrap();
    t.delete(id);
    let after: Vec<Option<Rule>> = (0..MAX_RULES).map(|i| t.get(i)).collect();
    assert_eq!(before, after);
}

#[test]
fn capacity_and_slot_reuse() {
    let mut t = RuleTable::new();
    for i in 0..MAX_RULES {
        assert_eq!(t.add(rule(Match::Port(i as u16))), Some(i));
    }
    assert_eq!(t.add(rule(Match::Port(7))), None, "a full table refuses the add");
    assert!(t.delete(42));
    assert_eq!(t.add(rule(Match::Port(7))), Some(42), "the freed slot is reused");
}

#[test]
fn update_preserves_identity_and_enabled() {
    let mut t = RuleTable::new();
    t.add(rule(Match::Port(80)));
    t.set_enabled(0, ToggleAction::Enable);
    let replacement = Rule {
        id: 77,
        action: Action::Accept,
        matches: Match::Protocol(6),
        applies_to: Direction::Destination,
        enabled: false,
        init: false,
    };
    assert!(t.update(0, replacement));
    let got = t.get(0).unwrap();
    assert_eq!(got.id, 0, "the slot keeps its index");
    assert!(got.init);
    assert!(got.enabled, "the enabled state survives an update");
    assert_eq!(got.action, Action::Accept);
    assert_eq!(got.matches, Match::Protocol(6));
    assert_eq!(got.applies_to, Direction::Destination);
    assert!(!t.update(1, replacement));
    assert!(!t.update(MAX_RULES, replacement));
}

#[test]
fn list_returns_occupied_slots_in_order() {
    let mut t = RuleTable::new();
    t.add(rule(Match::Port(1)));
    t.add(rule(Match::Port(2)));
    t.add(rule(Match::Port(3)));
    t.delete(1);
    let listed = t.list();
    assert_eq!(listed.len(), 2);
    assert_eq!(listed[0].id, 0);
    assert_eq!(listed[0].matches, Match::Port(1));
    assert_eq!(listed[1].id, 2);
    assert_eq!(listed[1].matches, Match::Port(3));
}
