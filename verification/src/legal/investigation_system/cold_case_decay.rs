//! Cold cases: an operation- or enterprise-originated case whose authority did nothing on it
//! for the authored window is shelved, or closed when custody has already cleared it.

use vstd::prelude::*;
use crate::base::{IdExhaustionError, IdKind};
use crate::base::{CharacterId, EntityRef, InformationId, InvestigationId, SimDuration};
use crate::intelligence::InformationRecord;
use crate::legal::case_knowledge::{police_case, prepare_case_activity_knowledge, spec_activity_for_status};
use crate::legal::investigation_system::{
    activity_knowledge_ready, is_activity_record, next_status, spec_actionable,
    transition_dependency_error, validate_transition_investigation, InvestigationError,
    InvestigationTransition,
};
use crate::legal::store::{only_investigations_differ, with_status};
use crate::legal::{ArrestStatus, InvestigationStatus, LegalState};
use crate::state::AppState;
use crate::world::OrganizationKind;

verus! {

/// The cases a decay pass shelved and the cases it closed, each in identifier order.
#[derive(Debug, PartialEq, Eq)]
pub struct ColdCaseDecayOutcome {
    pub suspended: Vec<InvestigationId>,
    pub closed: Vec<InvestigationId>,
}

/// Whether evidence record `j` identifies a person in case `inv`: actionable evidence about a
/// character.
pub open spec fn identifies_at(legal: LegalState, inv: InvestigationId, j: int) -> bool {
    let e = legal.evidence@[j];
    &&& e.investigation == inv
    &&& e.subject is Character
    &&& spec_actionable(e.strength, e.reliability, e.admissibility)
}

/// Whether `c` is held under an arrest of case `inv`.
pub open spec fn held_here(legal: LegalState, inv: InvestigationId, c: CharacterId) -> bool {
    exists|a: int|
        0 <= a < legal.arrests@.len() && (#[trigger] legal.arrests@[a]).investigation == inv
            && legal.arrests@[a].character == c && legal.arrests@[a].status == ArrestStatus::Detained
}

/// Whether the case has identified someone.
pub open spec fn identifies_someone(legal: LegalState, inv: InvestigationId) -> bool {
    exists|j: int| 0 <= j < legal.evidence@.len() && #[trigger] identifies_at(legal, inv, j)
}

/// Whether everyone the case identified is held under its own arrests.
pub open spec fn identified_all_held(legal: LegalState, inv: InvestigationId) -> bool {
    forall|j: int|
        0 <= j < legal.evidence@.len() && #[trigger] identifies_at(legal, inv, j) ==> held_here(
            legal,
            inv,
            legal.evidence@[j].subject->Character_0,
        )
}

/// What decay does to case `i` when activity at or before minute `threshold` counts as cold:
/// an active originated case that has gone cold, still has a revision left and has no scheduled
/// work closes when everyone it identified is held under its own arrests, stays active while
/// someone it identified is at large or while it holds someone, and is shelved otherwise.
pub open spec fn cold_decision(state: AppState, i: int, threshold: int) -> Option<InvestigationTransition> {
    let rec = state.legal.investigations@[i];
    let inv = rec.id;
    if !(rec.status == InvestigationStatus::Active && rec.last_activity_at.0 <= threshold && rec.origin is Some
        && rec.version < u32::MAX && state.legal.spec_scheduled_work_in(inv) is None) {
        None
    } else if identifies_someone(state.legal, inv) {
        if identified_all_held(state.legal, inv) {
            Some(InvestigationTransition::Close)
        } else {
            None
        }
    } else if state.legal.spec_detained_arrest_in(inv) is Some {
        None
    } else {
        Some(InvestigationTransition::Suspend)
    }
}

fn held_here_exec(legal: &LegalState, inv: InvestigationId, c: CharacterId) -> (r: bool)
    ensures
        r == held_here(*legal, inv, c),
{
    let mut a: usize = 0;
    while a < legal.arrests.len()
        invariant
            a <= legal.arrests.len(),
            forall|k: int|
                0 <= k < a ==> !((#[trigger] legal.arrests@[k]).investigation == inv && legal.arrests@[k].character == c
                    && legal.arrests@[k].status == ArrestStatus::Detained),
        decreases legal.arrests.len() - a,
    {
        let rec = &legal.arrests[a];
        if rec.investigation == inv && rec.character == c && rec.status == ArrestStatus::Detained {
            return true;
        }
        a = a + 1;
    }
    false
}

/// Computes `cold_decision` for case `i`.
fn decide_cold_case(state: &AppState, i: usize, threshold: u64) -> (d: Option<InvestigationTransition>)
    requires
        state.wf(),
        i < state.legal.investigations@.len(),
    ensures
        d == cold_decision(*state, i as int, threshold as int),
{
    let legal = &state.legal;
    let rec = &legal.investigations[i];
    let inv = rec.id;
    if !(rec.status == InvestigationStatus::Active && rec.last_activity_at.0 <= threshold && rec.origin.is_some()
        && rec.version < u32::MAX) {
        return None;
    }
    if legal.scheduled_work_in_investigation(inv).is_some() {
        return None;
    }
    let mut some = false;
    let mut all = true;
    let mut j: usize = 0;
    while j < legal.evidence.len()
        invariant
            j <= legal.evidence.len(),
            some == exists|k: int| 0 <= k < j && #[trigger] identifies_at(*legal, inv, k),
            all == forall|k: int|
                0 <= k < j && #[trigger] identifies_at(*legal, inv, k) ==> held_here(
                    *legal,
                    inv,
                    legal.evidence@[k].subject->Character_0,
                ),
        decreases legal.evidence.len() - j,
    {
        let e = legal.evidence[j];
        if e.investigation == inv && crate::legal::investigation_system::evidence_assessment_is_actionable_case_lead(
            e.strength,
            e.reliability,
            e.admissibility,
        ) {
            if let EntityRef::Character(c) = e.subject {
                assert(identifies_at(*legal, inv, j as int));
                some = true;
                if !held_here_exec(legal, inv, c) {
                    all = false;
                }
            }
        }
        j = j + 1;
    }
    if some {
        if all {
            Some(InvestigationTransition::Close)
        } else {
            None
        }
    } else if legal.detained_arrest_in_investigation(inv).is_some() {
        None
    } else {
        Some(InvestigationTransition::Suspend)
    }
}

/// Whether decaying case `i` refreshes its lead's knowledge of the case: a police case with a
/// lead.
pub open spec fn cold_refreshes(state: AppState, i: int, threshold: int) -> bool {
    &&& cold_decision(state, i, threshold) is Some
    &&& state.legal.investigations@[i].lead_investigator is Some
    &&& police_case(state, state.legal.investigations@[i].id)
}

/// The activity case `i` moves to.
pub open spec fn cold_activity(state: AppState, i: int, threshold: int) -> crate::intelligence::CaseActivitySignal {
    spec_activity_for_status(next_status(cold_decision(state, i, threshold)->0))
}

/// Whether the lead's refreshed knowledge of case `i`, if decay refreshes it, can be recorded.
pub open spec fn cold_ready(state: AppState, i: int, threshold: int) -> bool {
    cold_refreshes(state, i, threshold) ==> activity_knowledge_ready(
        state,
        state.legal.investigations@[i].id,
        cold_activity(state, i, threshold),
        state.legal.investigations@[i].lead_investigator->0,
    )
}

/// The cases among the first `n` that decay moves by `t`, in identifier order.
pub open spec fn decided_upto(state: AppState, threshold: int, n: int, t: InvestigationTransition) -> Seq<InvestigationId>
    decreases n,
{
    if n <= 0 {
        Seq::empty()
    } else {
        let rest = decided_upto(state, threshold, n - 1, t);
        if cold_decision(state, n - 1, threshold) == Some(t) {
            rest.push(state.legal.investigations@[n - 1].id)
        } else {
            rest
        }
    }
}

/// The positions among the first `n` cases whose decay refreshes the lead's knowledge.
pub open spec fn refreshing_upto(state: AppState, threshold: int, n: int) -> Seq<int>
    decreases n,
{
    if n <= 0 {
        Seq::empty()
    } else {
        let rest = refreshing_upto(state, threshold, n - 1);
        if cold_refreshes(state, n - 1, threshold) {
            rest.push(n - 1)
        } else {
            rest
        }
    }
}

proof fn lemma_refreshing_range(state: AppState, threshold: int, n: int)
    ensures
        forall|k: int|
            0 <= k < refreshing_upto(state, threshold, n).len() ==> 0 <= #[trigger] refreshing_upto(state, threshold, n)[k] < n,
    decreases n,
{
    if n > 0 {
        lemma_refreshing_range(state, threshold, n - 1);
        let rest = refreshing_upto(state, threshold, n - 1);
        assert forall|k: int| 0 <= k < refreshing_upto(state, threshold, n).len() implies 0 <= #[trigger] refreshing_upto(state, threshold, n)[k] < n by {
            if k < rest.len() {
                assert(refreshing_upto(state, threshold, n)[k] == rest[k]);
            }
        }
    }
}

proof fn lemma_refreshing_upto(state: AppState, threshold: int, i: int, n: int)
    requires
        0 <= i <= n,
    ensures
        refreshing_upto(state, threshold, i).len() <= refreshing_upto(state, threshold, n).len(),
        forall|k: int|
            0 <= k < refreshing_upto(state, threshold, i).len() ==> #[trigger] refreshing_upto(state, threshold, n)[k]
                == refreshing_upto(state, threshold, i)[k],
    decreases n - i,
{
    if i < n {
        lemma_refreshing_upto(state, threshold, i, n - 1);
        let mid = refreshing_upto(state, threshold, n - 1);
        assert forall|k: int| 0 <= k < refreshing_upto(state, threshold, i).len() implies #[trigger] refreshing_upto(state, threshold, n)[k]
            == refreshing_upto(state, threshold, i)[k] by {
            assert(refreshing_upto(state, threshold, n)[k] == mid[k]);
        }
    }
}

/// Shelves or closes every case that has gone cold for `cold_case_window`, as `cold_decision`
/// says, through each case's lifecycle transition. The pass is all or nothing: when a lead's
/// refreshed knowledge cannot be recorded for some case, or the information identifiers cannot
/// hold all of it, nothing changes.
#[verifier::rlimit(80)]
pub fn apply_cold_case_decay(state: &mut AppState, cold_case_window: SimDuration) -> (r: Result<ColdCaseDecayOutcome, InvestigationError>)
    requires
        old(state).wf(),
    ensures
        final(state).wf(),
        old(state).now.0 < cold_case_window.0 ==> (r matches Ok(out) && out.suspended@.len() == 0 && out.closed@.len() == 0
            && *final(state) == *old(state)),
        old(state).now.0 >= cold_case_window.0 ==> {
            let thr = old(state).now.0 - cold_case_window.0;
            let n = old(state).legal.investigations@.len() as int;
            let refreshing = refreshing_upto(*old(state), thr, n);
            let base = old(state).intelligence.records@.len();
            let ready = forall|i: int| 0 <= i < n ==> #[trigger] cold_ready(*old(state), i, thr);
            let budget = base + refreshing.len() <= u32::MAX;
            match r {
                Ok(out) => {
                    &&& ready
                    &&& budget
                    &&& out.suspended@ == decided_upto(*old(state), thr, n, InvestigationTransition::Suspend)
                    &&& out.closed@ == decided_upto(*old(state), thr, n, InvestigationTransition::Close)
                    &&& final(state).legal.investigations@.len() == n
                    &&& forall|i: int|
                        0 <= i < n ==> #[trigger] final(state).legal.investigations@[i] == match cold_decision(
                            *old(state),
                            i,
                            thr,
                        ) {
                            Some(t) => with_status(old(state).legal.investigations@[i], next_status(t), old(state).now),
                            None => old(state).legal.investigations@[i],
                        }
                    &&& only_investigations_differ(final(state).legal, old(state).legal)
                    &&& final(state).intelligence.records@.len() == base + refreshing.len()
                    &&& final(state).intelligence.records@.take(base as int) == old(state).intelligence.records@
                    &&& forall|k: int|
                        0 <= k < refreshing.len() ==> is_activity_record(
                            #[trigger] final(state).intelligence.records@[base + k],
                            *old(state),
                            old(state).legal.investigations@[refreshing[k]].id,
                            cold_activity(*old(state), refreshing[k], thr),
                            old(state).legal.investigations@[refreshing[k]].lead_investigator->0,
                            InformationId((base + k + 1) as u32),
                        )
                    &&& final(state).world == old(state).world
                    &&& final(state).now == old(state).now
                    &&& final(state).rng == old(state).rng
                },
                Err(e) => *final(state) == *old(state) && (!ready || !budget) && (ready ==> e
                    == InvestigationError::IdExhaustion(IdExhaustionError::Exhausted { kind: IdKind::Information })),
            }
        },
{
    if state.now.0 < cold_case_window.0 as u64 {
        return Ok(ColdCaseDecayOutcome { suspended: Vec::new(), closed: Vec::new() });
    }
    let threshold = state.now.0 - cold_case_window.0 as u64;
    let n = state.legal.investigations.len();
    let ghost start = *state;
    let ghost thr = threshold as int;
    let mut decisions: Vec<Option<InvestigationTransition>> = Vec::new();
    let mut refresh_count: usize = 0;
    let mut i: usize = 0;
    while i < n
        invariant
            i <= n,
            n == state.legal.investigations@.len(),
            *state == start,
            start == *old(state),
            state.wf(),
            thr == threshold as int,
            thr == start.now.0 - cold_case_window.0,
            decisions@.len() == i,
            forall|j: int| 0 <= j < i ==> #[trigger] decisions@[j] == cold_decision(start, j, thr),
            forall|j: int| 0 <= j < i ==> #[trigger] cold_ready(start, j, thr),
            refresh_count == refreshing_upto(start, thr, i as int).len(),
            refresh_count <= i,
        decreases n - i,
    {
        let d = decide_cold_case(state, i, threshold);
        let rec = &state.legal.investigations[i];
        let inv = rec.id;
        if let Some(t) = d {
            if let Some(lead) = rec.lead_investigator {
                let police = match state.world.organization_kind(rec.owner) {
                    Some(kind) => kind == OrganizationKind::LawEnforcement,
                    None => false,
                };
                if police {
                    let status = match t {
                        InvestigationTransition::Suspend => InvestigationStatus::Suspended,
                        InvestigationTransition::Resume => InvestigationStatus::Active,
                        InvestigationTransition::Close => InvestigationStatus::Closed,
                    };
                    let activity = crate::legal::case_knowledge::activity_for_status(status);
                    proof {
                        assert(state.legal.spec_investigation(inv) == Some(state.legal.investigations@[i as int]));
                    }
                    match prepare_case_activity_knowledge(state, inv, activity, lead) {
                        Ok(Some(_)) => {
                            refresh_count = refresh_count + 1;
                        },
                        Ok(None) => {
                            assert(false);
                            return Err(InvestigationError::IdExhaustion(IdExhaustionError::Exhausted { kind: IdKind::Information }));
                        },
                        Err(e) => {
                            proof {
                                assert(state.legal.investigations@[i as int].id == inv);
                                assert(cold_refreshes(start, i as int, thr));
                                assert(cold_activity(start, i as int, thr) == activity);
                                assert(!cold_ready(start, i as int, thr));
                            }
                            return Err(InvestigationError::CaseKnowledge(e));
                        },
                    }
                }
            }
        }
        decisions.push(d);
        i = i + 1;
    }
    if refresh_count > u32::MAX as usize || state.intelligence.records.len() > u32::MAX as usize - refresh_count {
        return Err(InvestigationError::IdExhaustion(IdExhaustionError::Exhausted { kind: IdKind::Information }));
    }
    let ghost base = start.intelligence.records@.len();
    let mut suspended: Vec<InvestigationId> = Vec::new();
    let mut closed: Vec<InvestigationId> = Vec::new();
    let mut i: usize = 0;
    while i < n
        invariant
            i <= n,
            n == start.legal.investigations@.len(),
            start.wf(),
            state.wf(),
            thr == threshold as int,
            thr == start.now.0 - cold_case_window.0,
            decisions@.len() == n,
            forall|j: int| 0 <= j < n ==> #[trigger] decisions@[j] == cold_decision(start, j, thr),
            forall|j: int| 0 <= j < n ==> #[trigger] cold_ready(start, j, thr),
            base == start.intelligence.records@.len(),
            base + refreshing_upto(start, thr, n as int).len() <= u32::MAX,
            state.legal.investigations@.len() == n,
            forall|j: int|
                0 <= j < i ==> #[trigger] state.legal.investigations@[j] == match cold_decision(start, j, thr) {
                    Some(t) => with_status(start.legal.investigations@[j], next_status(t), start.now),
                    None => start.legal.investigations@[j],
                },
            forall|j: int| i <= j < n ==> #[trigger] state.legal.investigations@[j] == start.legal.investigations@[j],
            only_investigations_differ(state.legal, start.legal),
            state.world == start.world,
            state.now == start.now,
            state.rng == start.rng,
            state.intelligence.records@.len() == base + refreshing_upto(start, thr, i as int).len(),
            state.intelligence.records@.take(base as int) == start.intelligence.records@,
            forall|k: int|
                0 <= k < refreshing_upto(start, thr, i as int).len() ==> is_activity_record(
                    #[trigger] state.intelligence.records@[base + k],
                    start,
                    start.legal.investigations@[refreshing_upto(start, thr, i as int)[k]].id,
                    cold_activity(start, refreshing_upto(start, thr, i as int)[k], thr),
                    start.legal.investigations@[refreshing_upto(start, thr, i as int)[k]].lead_investigator->0,
                    InformationId((base + k + 1) as u32),
                ),
            suspended@ == decided_upto(start, thr, i as int, InvestigationTransition::Suspend),
            closed@ == decided_upto(start, thr, i as int, InvestigationTransition::Close),
        decreases n - i,
    {
        proof {
            lemma_refreshing_upto(start, thr, i as int, n as int);
            lemma_refreshing_upto(start, thr, i + 1, n as int);
            lemma_refreshing_range(start, thr, i as int);
        }
        let ghost pre = *state;
        let ghost prev = refreshing_upto(start, thr, i as int);
        if let Some(t) = decisions[i] {
            let inv = state.legal.investigations[i].id;
            proof {
                assert(start.legal.investigations@[i as int].id.0 == i + 1);
                assert(pre.legal.spec_investigation(inv) == start.legal.spec_investigation(inv));
                assert(pre.legal.spec_scheduled_work_in(inv) == start.legal.spec_scheduled_work_in(inv));
                assert(pre.legal.spec_detained_arrest_in(inv) == start.legal.spec_detained_arrest_in(inv));
                assert(transition_dependency_error(pre, inv, t) == transition_dependency_error(start, inv, t));
                assert(transition_dependency_error(start, inv, t) is None);
                assert(police_case(pre, inv) == police_case(start, inv));
                assert(forall|a: crate::intelligence::CaseActivitySignal, l: CharacterId|
                    activity_knowledge_ready(pre, inv, a, l) == activity_knowledge_ready(start, inv, a, l));
                assert(forall|rec: InformationRecord, a: crate::intelligence::CaseActivitySignal, l: CharacterId, id: InformationId|
                    is_activity_record(rec, pre, inv, a, l, id) == is_activity_record(rec, start, inv, a, l, id));
                assert(cold_ready(start, i as int, thr));
            }
            let token = match validate_transition_investigation(state, inv, t) {
                Ok(token) => token,
                Err(e) => {
                    assert(false);
                    return Err(e);
                },
            };
            proof {
                assert(token.refreshes_lead(pre) == cold_refreshes(start, i as int, thr));
                if token.refreshes_lead(pre) {
                    assert(pre.intelligence.records@.len() < u32::MAX);
                }
                assert(token.commit_error(pre) is None);
            }
            match token.commit(state) {
                Ok(()) => {},
                Err(e) => {
                    assert(false);
                    return Err(e);
                },
            }
            match t {
                InvestigationTransition::Suspend => suspended.push(inv),
                InvestigationTransition::Close => closed.push(inv),
                InvestigationTransition::Resume => {},
            }
        }
        proof {
            let nxt = refreshing_upto(start, thr, i + 1);
            assert forall|j: int| 0 <= j <= i implies #[trigger] state.legal.investigations@[j] == match cold_decision(start, j, thr) {
                Some(t) => with_status(start.legal.investigations@[j], next_status(t), start.now),
                None => start.legal.investigations@[j],
            } by {}
            assert forall|k: int| 0 <= k < nxt.len() implies is_activity_record(
                #[trigger] state.intelligence.records@[base + k],
                start,
                start.legal.investigations@[nxt[k]].id,
                cold_activity(start, nxt[k], thr),
                start.legal.investigations@[nxt[k]].lead_investigator->0,
                InformationId((base + k + 1) as u32),
            ) by {
                if k < prev.len() {
                    assert(nxt[k] == prev[k]);
                    assert(state.intelligence.records@[base + k] == pre.intelligence.records@[base + k]);
                } else {
                    assert(nxt[k] == i);
                }
            }
            assert(state.intelligence.records@.take(base as int) =~= start.intelligence.records@);
        }
        i = i + 1;
    }
    Ok(ColdCaseDecayOutcome { suspended, closed })
}

/// A case appears in the cases a decay pass moves by `t` exactly when decay moves that case by
/// `t`, and at most once.
pub proof fn law_decay_lists_exactly_its_moves(state: AppState, threshold: int, t: InvestigationTransition, n: int)
    requires
        state.wf(),
        0 <= n <= state.legal.investigations@.len(),
    ensures
        decided_upto(state, threshold, n, t).no_duplicates(),
        forall|inv: InvestigationId|
            #[trigger] decided_upto(state, threshold, n, t).contains(inv) <==> (1 <= inv.0 <= n && cold_decision(
                state,
                inv.0 - 1,
                threshold,
            ) == Some(t)),
    decreases n,
{
    if n > 0 {
        law_decay_lists_exactly_its_moves(state, threshold, t, n - 1);
        let rest = decided_upto(state, threshold, n - 1, t);
        let id = state.legal.investigations@[n - 1].id;
        assert(id.0 == n);
        assert forall|inv: InvestigationId|
            #[trigger] decided_upto(state, threshold, n, t).contains(inv) <==> (1 <= inv.0 <= n && cold_decision(
                state,
                inv.0 - 1,
                threshold,
            ) == Some(t)) by {
            if cold_decision(state, n - 1, threshold) == Some(t) {
                if rest.push(id).contains(inv) && !rest.contains(inv) {
                    let k = choose|k: int| 0 <= k < rest.push(id).len() && rest.push(id)[k] == inv;
                    assert(k == rest.len());
                }
                if inv == id {
                    assert(rest.push(id)[rest.len() as int] == id);
                } else if rest.contains(inv) {
                    let k = choose|k: int| 0 <= k < rest.len() && rest[k] == inv;
                    assert(rest.push(id)[k] == inv);
                }
            }
        }
        if cold_decision(state, n - 1, threshold) == Some(t) {
            assert(!rest.contains(id));
            assert forall|a: int, b: int| 0 <= a < b < rest.push(id).len() implies rest.push(id)[a] != rest.push(id)[b] by {
                if b == rest.len() {
                    assert(rest.contains(rest[a]));
                }
            }
        }
    }
}

/// What decay does to one case: it leaves alone any case that is not active, not cold, has no
/// origin, has no revision left or has work scheduled on it; it closes a cold originated case
/// that has identified people, every one of them detained under its own arrests; and it
/// suspends one that has identified nobody and detains nobody.
pub proof fn law_cold_decision_cases(state: AppState, i: int, threshold: int)
    requires
        state.wf(),
        0 <= i < state.legal.investigations@.len(),
    ensures
        ({
            let rec = state.legal.investigations@[i];
            &&& (rec.status != InvestigationStatus::Active || rec.last_activity_at.0 > threshold || rec.origin is None
                || rec.version == u32::MAX || state.legal.spec_scheduled_work_in(rec.id) is Some) ==> cold_decision(
                state,
                i,
                threshold,
            ) is None
            &&& (rec.status == InvestigationStatus::Active && rec.last_activity_at.0 <= threshold && rec.origin is Some
                && rec.version < u32::MAX && state.legal.spec_scheduled_work_in(rec.id) is None) ==> {
                &&& (identifies_someone(state.legal, rec.id) && identified_all_held(state.legal, rec.id)) ==> cold_decision(
                    state,
                    i,
                    threshold,
                ) == Some(InvestigationTransition::Close)
                &&& (!identifies_someone(state.legal, rec.id) && state.legal.spec_detained_arrest_in(rec.id) is None)
                    ==> cold_decision(state, i, threshold) == Some(InvestigationTransition::Suspend)
            }
        }),
{
}

} // verus!
