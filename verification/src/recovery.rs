//! Startup recovery: rebuilding the supervisor's table from the rows of
//! the durable store, and the law that a dump-and-restore reproduces the
//! table slot for slot.
use vstd::prelude::*;

use crate::dispatch::{row_fn, stored_rows, sv_wf, Supervisor, SupervisorView};
use crate::schema::{Rule, StoredEventDecoded, StoredRuleDecoded, StoredRuleView};
use crate::table::{logical, table_wf};
use crate::wire::rule_views;
use crate::MAX_RULES;

verus! {

/// The last row carrying id `j`, if any: rows are applied in order, so a
/// later row for the same slot wins.
pub open spec fn last_row_for(rows: Seq<StoredRuleView>, j: int) -> Option<int>
    decreases rows.len(),
{
    if rows.len() == 0 {
        None
    } else if rows.last().id == j {
        Some(rows.len() - 1)
    } else {
        last_row_for(rows.drop_last(), j)
    }
}

/// A found row is in range and addressed to the asked slot.
pub proof fn lemma_last_row_for_props(rows: Seq<StoredRuleView>, j: int)
    ensures
        match last_row_for(rows, j) {
            Some(k) => 0 <= k < rows.len() && rows[k].id == j,
            None => true,
        },
    decreases rows.len(),
{
    if rows.len() != 0 && rows.last().id != j {
        lemma_last_row_for_props(rows.drop_last(), j);
    }
}

/// What a rebuilt state holds at each slot: the rule and metadata of the
/// last durable row addressed to it, or a free slot where no row was.
pub open spec fn restored_from(rows: Seq<StoredRuleView>, post: SupervisorView) -> bool {
    forall|j: int|
        0 <= j < MAX_RULES ==> (match #[trigger] last_row_for(rows, j) {
            Some(k) => {
                &&& post.rules[j] == (Rule { id: j as u32, ..rows[k].rule })
                &&& post.names[j] == rows[k].name
                &&& post.descriptions[j] == rows[k].description
            },
            None => !post.rules[j].init,
        })
}

impl Supervisor {
    /// Rebuild a supervisor from the rows read out of the durable store,
    /// populating the table at the stored indices. Rows addressed outside
    /// the table are ignored; of several rows for one slot the last wins.
    /// The program starts loaded, with an empty event history.
    pub fn restore(rows: &Vec<StoredRuleDecoded>) -> (r: Supervisor)
        ensures
            sv_wf(r@),
            restored_from(rule_views(rows@), r@),
            r@.events == Seq::<StoredEventDecoded>::empty(),
            r@.lifecycle == crate::lifecycle::LifecycleState::Loaded,
    {
        let ghost vs = rule_views(rows@);
        let mut s = Supervisor::new();
        let mut k: usize = 0;
        proof {
            assert(vs.take(0int) =~= Seq::<StoredRuleView>::empty());
            assert forall|j: int| 0 <= j < MAX_RULES implies (match #[trigger] last_row_for(
                vs.take(0int),
                j,
            ) {
                Some(_) => false,
                None => !s@.rules[j].init,
            }) by {}
        }
        while k < rows.len()
            invariant
                k <= rows@.len(),
                vs == rule_views(rows@),
                vs.len() == rows@.len(),
                sv_wf(s@),
                s@.events == Seq::<StoredEventDecoded>::empty(),
                s@.lifecycle == crate::lifecycle::LifecycleState::Loaded,
                restored_from(vs.take(k as int), s@),
            decreases rows@.len() - k,
        {
            let ghost pre = s@;
            let row = &rows[k];
            proof {
                assert(vs.take(k + 1).drop_last() =~= vs.take(k as int));
                assert(vs.take(k + 1).last() == vs[k as int]);
                assert(vs[k as int] == rows@[k as int]@);
            }
            if row.id < MAX_RULES {
                let written = Rule { id: row.id, ..row.rule };
                s.table.slots.set(row.id as usize, written);
                s.names.set(row.id as usize, clone_row_bytes(&row.name));
                s.descriptions.set(row.id as usize, clone_row_bytes(&row.description));
                proof {
                    assert(s@.rules =~= pre.rules.update(row.id as int, written));
                    assert(s@.names =~= pre.names.update(row.id as int, row.name@));
                    assert(s@.descriptions =~= pre.descriptions.update(
                        row.id as int,
                        row.description@,
                    ));
                    assert forall|j: int| 0 <= j < MAX_RULES implies (match #[trigger] last_row_for(
                        vs.take(k + 1),
                        j,
                    ) {
                        Some(m) => {
                            &&& s@.rules[j] == (Rule { id: j as u32, ..vs.take(k + 1)[m].rule })
                            &&& s@.names[j] == vs.take(k + 1)[m].name
                            &&& s@.descriptions[j] == vs.take(k + 1)[m].description
                        },
                        None => !s@.rules[j].init,
                    }) by {
                        lemma_last_row_for_props(vs.take(k as int), j);
                        lemma_last_row_for_props(vs.take(k + 1), j);
                        if j == row.id {
                            assert(last_row_for(vs.take(k + 1), j) == Some(k as int));
                            assert(vs.take(k + 1)[k as int] == vs[k as int]);
                        } else {
                            assert(last_row_for(vs.take(k + 1), j) == last_row_for(
                                vs.take(k as int),
                                j,
                            ));
                            assert(s@.rules[j] == pre.rules[j]);
                            assert(s@.names[j] == pre.names[j]);
                            assert(s@.descriptions[j] == pre.descriptions[j]);
                            match last_row_for(vs.take(k as int), j) {
                                Some(m) => {
                                    assert(vs.take(k + 1)[m] == vs.take(k as int)[m]);
                                },
                                None => {},
                            }
                        }
                    }
                }
            } else {
                proof {
                    assert forall|j: int| 0 <= j < MAX_RULES implies (match #[trigger] last_row_for(
                        vs.take(k + 1),
                        j,
                    ) {
                        Some(m) => {
                            &&& s@.rules[j] == (Rule { id: j as u32, ..vs.take(k + 1)[m].rule })
                            &&& s@.names[j] == vs.take(k + 1)[m].name
                            &&& s@.descriptions[j] == vs.take(k + 1)[m].description
                        },
                        None => !s@.rules[j].init,
                    }) by {
                        lemma_last_row_for_props(vs.take(k as int), j);
                        lemma_last_row_for_props(vs.take(k + 1), j);
                        assert(vs.take(k + 1).last().id != j);
                        assert(last_row_for(vs.take(k + 1), j) == last_row_for(
                            vs.take(k as int),
                            j,
                        ));
                        match last_row_for(vs.take(k as int), j) {
                            Some(m) => {
                                assert(vs.take(k + 1)[m] == vs.take(k as int)[m]);
                            },
                            None => {},
                        }
                    }
                }
            }
            k = k + 1;
        }
        proof {
            assert(vs.take(vs.len() as int) =~= vs);
        }
        s
    }
}

/// In a well-formed state, the dumped rows address slot `j` exactly when
/// slot `j` is occupied, and the last (indeed only) such row carries that
/// slot's rule and metadata.
proof fn lemma_rows_prefix(sv: SupervisorView, j: int, m: int)
    requires
        sv_wf(sv),
        0 <= j < MAX_RULES,
        0 <= m <= sv.rules.len(),
    ensures
        ({
            let rows = sv.rules.take(m).filter(|x: Rule| x.init).map_values(
                row_fn(sv.names, sv.descriptions),
            );
            match last_row_for(rows, j) {
                Some(k) => 0 <= k < rows.len() && rows[k] == row_fn(sv.names, sv.descriptions)(
                    sv.rules[j],
                ) && j < m && sv.rules[j].init,
                None => !(j < m && sv.rules[j].init),
            }
        }),
    decreases m,
{
    let pred = |x: Rule| x.init;
    let f = row_fn(sv.names, sv.descriptions);
    if m == 0 {
        assert(sv.rules.take(0int) =~= Seq::<Rule>::empty());
        reveal_with_fuel(Seq::filter, 1);
        assert(sv.rules.take(0int).filter(pred) =~= Seq::<Rule>::empty());
        assert(sv.rules.take(0int).filter(pred).map_values(f) =~= Seq::<StoredRuleView>::empty());
    } else {
        lemma_rows_prefix(sv, j, m - 1);
        let prev = sv.rules.take(m - 1).filter(pred).map_values(f);
        let slot = sv.rules[m - 1];
        reveal_with_fuel(Seq::filter, 1);
        assert(sv.rules.take(m).drop_last() =~= sv.rules.take(m - 1));
        assert(sv.rules.take(m).last() == slot);
        if slot.init {
            assert(sv.rules.take(m).filter(pred) == sv.rules.take(m - 1).filter(pred).push(slot));
            let rows = sv.rules.take(m).filter(pred).map_values(f);
            assert(rows =~= prev.push(f(slot)));
            assert(slot.id == m - 1);
            assert(rows.last() == f(slot));
            assert(rows.drop_last() =~= prev);
            if j == m - 1 {
                assert(last_row_for(rows, j) == Some(rows.len() - 1));
            } else {
                assert(f(slot).id != j);
                assert(last_row_for(rows, j) == last_row_for(prev, j));
            }
        } else {
            assert(sv.rules.take(m).filter(pred) == sv.rules.take(m - 1).filter(pred));
            assert(sv.rules.take(m).filter(pred).map_values(f) == prev);
        }
    }
}

/// Dumping the rows of a well-formed state and rebuilding from them
/// reproduces the rule table slot for slot: every occupied slot returns
/// with its rule and metadata, every free slot stays free.
pub proof fn lemma_restore_dump(sv: SupervisorView, post: SupervisorView)
    requires
        sv_wf(sv),
        restored_from(stored_rows(sv), post),
        post.rules.len() == MAX_RULES,
    ensures
        logical(post.rules) == logical(sv.rules),
        forall|j: int|
            0 <= j < MAX_RULES && (#[trigger] sv.rules[j]).init ==> post.names[j] == sv.names[j]
                && post.descriptions[j] == sv.descriptions[j],
{
    let f = row_fn(sv.names, sv.descriptions);
    assert forall|j: int| 0 <= j < MAX_RULES implies (post.rules[j] == if sv.rules[j].init {
        sv.rules[j]
    } else {
        post.rules[j]
    }) && (post.rules[j].init == sv.rules[j].init) && (sv.rules[j].init ==> post.names[j]
        == sv.names[j] && post.descriptions[j] == sv.descriptions[j]) by {
        lemma_rows_prefix(sv, j, sv.rules.len() as int);
        assert(sv.rules.take(sv.rules.len() as int) =~= sv.rules);
        match last_row_for(stored_rows(sv), j) {
            Some(k) => {
                assert(stored_rows(sv)[k] == f(sv.rules[j]));
                assert(sv.rules[j].id == j);
            },
            None => {},
        }
    }
    assert(logical(post.rules) =~= logical(sv.rules));
}

/// Copy a byte string.
fn clone_row_bytes(v: &Vec<u8>) -> (r: Vec<u8>)
    ensures
        r@ == v@,
{
    let mut out: Vec<u8> = Vec::new();
    let mut i: usize = 0;
    while i < v.len()
        invariant
            i <= v@.len(),
            out@ == v@.take(i as int),
        decreases v@.len() - i,
    {
        out.push(v[i]);
        i = i + 1;
        assert(out@ =~= v@.take(i as int));
    }
    assert(v@.take(v@.len() as int) =~= v@);
    out
}

} // verus!
