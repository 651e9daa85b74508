//! The institution's own scheduling policy: once per pass, every free lead of an active case is
//! given the next piece of detective work, an evidence review before a witness interview.

use vstd::prelude::*;
use crate::base::{IdExhaustionError, IdKind};
use crate::base::{CaseWitnessId, CharacterId, EntityRef, EvidenceId, InvestigationId, InvestigationWorkId};
use crate::legal::investigation_work_execution::{
    schedule_error, schedule_validated, scheduled_record, validate_schedule_investigation_work,
    InvestigationWorkDraft, InvestigationWorkError, ValidatedInvestigationWorkSchedule,
};
use crate::legal::store::touched;
use crate::legal::{
    InvestigationRecord, InvestigationStatus, InvestigationWorkFocus, InvestigationWorkKind,
    LegalState,
};
use crate::registry::Registry;
use crate::state::AppState;

verus! {

/// Whether evidence record `j` is reviewable evidence of case `inv` that no review has
/// attempted yet; a cancelled review does not count as an attempt.
pub open spec fn review_candidate(legal: LegalState, inv: InvestigationId, j: int) -> bool {
    let e = legal.evidence@[j];
    &&& e.investigation == inv
    &&& e.kind.spec_is_reviewable()
    &&& legal.spec_review_attempt(e.id) is None
}

/// Whether evidence record `j` comes before `k` in review order: discovered earlier, then filed
/// earlier.
pub open spec fn reviewed_before(legal: LegalState, j: int, k: int) -> bool {
    let a = legal.evidence@[j].discovered_at.0;
    let b = legal.evidence@[k].discovered_at.0;
    a < b || (a == b && j < k)
}

pub open spec fn is_next_review(legal: LegalState, inv: InvestigationId, j: int) -> bool {
    &&& 0 <= j < legal.evidence@.len()
    &&& review_candidate(legal, inv, j)
    &&& forall|k: int|
        0 <= k < legal.evidence@.len() && k != j && #[trigger] review_candidate(legal, inv, k)
            ==> reviewed_before(legal, j, k)
}

/// The evidence a review of case `inv` should take up next: the oldest unattempted reviewable
/// record.
pub open spec fn next_review_source(legal: LegalState, inv: InvestigationId) -> Option<EvidenceId> {
    if exists|j: int| is_next_review(legal, inv, j) {
        Some(legal.evidence@[choose|j: int| is_next_review(legal, inv, j)].id)
    } else {
        None
    }
}

/// Whether registered witness `w` of case `inv` may be interviewed next: no statement yet, room
/// for the revisions an interview may need, not a case subject, attempts left, and no interview
/// already scheduled.
pub open spec fn interview_candidate(state: AppState, limit: u8, inv: InvestigationId, w: int) -> bool {
    let cw = state.legal.case_witnesses@[w];
    &&& cw.investigation == inv
    &&& cw.statement is None
    &&& cw.version <= u32::MAX - 2
    &&& !state.legal.spec_investigation(inv)->0.subjects@.contains(EntityRef::Character(cw.witness))
    &&& cw.interview_attempts < limit
    &&& state.legal.spec_scheduled_work_for_focus(
        inv,
        InvestigationWorkKind::WitnessInterview,
        InvestigationWorkFocus::Witness(cw.id),
    ) is None
}

/// Whether witness `a` is interviewed before `b`: fewer attempts so far, then registered earlier.
pub open spec fn interviewed_before(legal: LegalState, a: int, b: int) -> bool {
    let x = legal.case_witnesses@[a].interview_attempts;
    let y = legal.case_witnesses@[b].interview_attempts;
    x < y || (x == y && a < b)
}

pub open spec fn is_next_interview(state: AppState, limit: u8, inv: InvestigationId, w: int) -> bool {
    &&& 0 <= w < state.legal.case_witnesses@.len()
    &&& interview_candidate(state, limit, inv, w)
    &&& forall|k: int|
        0 <= k < state.legal.case_witnesses@.len() && k != w && #[trigger] interview_candidate(state, limit, inv, k)
            ==> interviewed_before(state.legal, w, k)
}

/// The witness an interview of case `inv` should take up next.
pub open spec fn next_interview_witness(state: AppState, limit: u8, inv: InvestigationId) -> Option<CaseWitnessId> {
    if exists|w: int| is_next_interview(state, limit, inv, w) {
        Some(state.legal.case_witnesses@[choose|w: int| is_next_interview(state, limit, inv, w)].id)
    } else {
        None
    }
}

fn find_next_review(legal: &LegalState, inv: InvestigationId) -> (r: Option<EvidenceId>)
    requires
        legal.wf(),
    ensures
        r == next_review_source(*legal, inv),
{
    let mut best: Option<usize> = None;
    let mut j: usize = 0;
    while j < legal.evidence.len()
        invariant
            j <= legal.evidence.len(),
            legal.wf(),
            match best {
                Some(b) => b < j && review_candidate(*legal, inv, b as int) && forall|k: int|
                    0 <= k < j && k != b && #[trigger] review_candidate(*legal, inv, k) ==> reviewed_before(
                        *legal,
                        b as int,
                        k,
                    ),
                None => forall|k: int| 0 <= k < j ==> !#[trigger] review_candidate(*legal, inv, k),
            },
        decreases legal.evidence.len() - j,
    {
        let e = legal.evidence[j];
        if e.investigation == inv && e.kind.is_reviewable() && legal.evidence_review_attempt(e.id).is_none() {
            assert(review_candidate(*legal, inv, j as int));
            let better = match best {
                None => true,
                Some(b) => e.discovered_at.0 < legal.evidence[b].discovered_at.0,
            };
            if better {
                best = Some(j);
            }
        }
        j = j + 1;
    }
    match best {
        Some(b) => {
            proof {
                assert(is_next_review(*legal, inv, b as int));
                let c = choose|c: int| is_next_review(*legal, inv, c);
                if c != b {
                    assert(reviewed_before(*legal, b as int, c));
                    assert(reviewed_before(*legal, c, b as int));
                }
            }
            Some(legal.evidence[b].id)
        },
        None => {
            proof {
                assert forall|c: int| !is_next_review(*legal, inv, c) by {}
            }
            None
        },
    }
}

fn find_next_interview(state: &AppState, limit: u8, inv: InvestigationId) -> (r: Option<CaseWitnessId>)
    requires
        state.wf(),
        state.legal.spec_investigation(inv) is Some,
    ensures
        r == next_interview_witness(*state, limit, inv),
{
    let legal = &state.legal;
    let subjects = match legal.get_investigation(inv) {
        Some(rec) => &rec.subjects,
        None => {
            return None;
        },
    };
    let mut best: Option<usize> = None;
    let mut w: usize = 0;
    while w < legal.case_witnesses.len()
        invariant
            w <= legal.case_witnesses.len(),
            state.wf(),
            *legal == state.legal,
            subjects@ == state.legal.spec_investigation(inv)->0.subjects@,
            match best {
                Some(b) => b < w && interview_candidate(*state, limit, inv, b as int) && forall|k: int|
                    0 <= k < w && k != b && #[trigger] interview_candidate(*state, limit, inv, k)
                        ==> interviewed_before(state.legal, b as int, k),
                None => forall|k: int| 0 <= k < w ==> !#[trigger] interview_candidate(*state, limit, inv, k),
            },
        decreases legal.case_witnesses.len() - w,
    {
        let cw = legal.case_witnesses[w];
        if cw.investigation == inv && cw.statement.is_none() && cw.version <= u32::MAX - 2
            && !crate::base::entity_vec_contains(subjects, EntityRef::Character(cw.witness))
            && cw.interview_attempts < limit && legal.scheduled_work_for_focus(
            inv,
            InvestigationWorkKind::WitnessInterview,
            InvestigationWorkFocus::witness(cw.id),
        ).is_none() {
            assert(interview_candidate(*state, limit, inv, w as int));
            let better = match best {
                None => true,
                Some(b) => cw.interview_attempts < legal.case_witnesses[b].interview_attempts,
            };
            if better {
                best = Some(w);
            }
        }
        w = w + 1;
    }
    match best {
        Some(b) => {
            proof {
                assert(is_next_interview(*state, limit, inv, b as int));
                let c = choose|c: int| is_next_interview(*state, limit, inv, c);
                if c != b {
                    assert(interviewed_before(state.legal, b as int, c));
                    assert(interviewed_before(state.legal, c, b as int));
                }
            }
            Some(legal.case_witnesses[b].id)
        },
        None => {
            proof {
                assert forall|c: int| !is_next_interview(*state, limit, inv, c) by {}
            }
            None
        },
    }
}

/// The lead of an active case who is free to take new work: not detained and with nothing
/// scheduled.
pub open spec fn free_lead(state: AppState, rec: InvestigationRecord) -> Option<CharacterId> {
    if rec.status == InvestigationStatus::Active && rec.lead_investigator is Some
        && state.legal.spec_active_arrest_for(rec.lead_investigator->0) is None
        && state.legal.spec_scheduled_work_for(rec.lead_investigator->0) is None {
        rec.lead_investigator
    } else {
        None
    }
}

/// What trying to schedule `d` gives: the draft when it validates, nothing when it could not
/// finish inside the representable clock, and the refusal otherwise.
pub open spec fn attempt_schedule(registry: Registry, state: AppState, d: InvestigationWorkDraft) -> Result<Option<InvestigationWorkDraft>, InvestigationWorkError> {
    match schedule_error(registry, state, d) {
        None => Ok(Some(d)),
        Some(InvestigationWorkError::SimulationTimeOverflow) => Ok(None),
        Some(e) => Err(e),
    }
}

/// The work a pass gives case `i`: for a free lead, the next evidence review if reviews are
/// wanted and the case can take three more revisions, otherwise the next witness interview if
/// interviews are wanted and the case can take four.
pub open spec fn case_schedule(registry: Registry, state: AppState, i: int, reviews: bool, interviews: bool) -> Result<Option<InvestigationWorkDraft>, InvestigationWorkError> {
    let rec = state.legal.investigations@[i];
    let inv = rec.id;
    match free_lead(state, rec) {
        None => Ok(None),
        Some(c) => {
            let review = if reviews && rec.version <= u32::MAX - 3 && next_review_source(state.legal, inv) is Some {
                attempt_schedule(
                    registry,
                    state,
                    InvestigationWorkDraft {
                        investigation: inv,
                        investigator: c,
                        kind: InvestigationWorkKind::EvidenceReview,
                        focus: InvestigationWorkFocus::Evidence(next_review_source(state.legal, inv)->0),
                    },
                )
            } else {
                Ok(None)
            };
            let limit = registry.legal.witness_interview_attempt_limit;
            match review {
                Ok(None) => if interviews && rec.version <= u32::MAX - 4 && next_interview_witness(state, limit, inv) is Some {
                    attempt_schedule(
                        registry,
                        state,
                        InvestigationWorkDraft {
                            investigation: inv,
                            investigator: c,
                            kind: InvestigationWorkKind::WitnessInterview,
                            focus: InvestigationWorkFocus::Witness(next_interview_witness(state, limit, inv)->0),
                        },
                    )
                } else {
                    Ok(None)
                },
                other => other,
            }
        },
    }
}

/// The work a pass plans for the first `n` cases, in case order, or the first refusal.
pub open spec fn schedule_upto(registry: Registry, state: AppState, n: int, reviews: bool, interviews: bool) -> Result<Seq<InvestigationWorkDraft>, InvestigationWorkError>
    decreases n,
{
    if n <= 0 {
        Ok(Seq::empty())
    } else {
        match schedule_upto(registry, state, n - 1, reviews, interviews) {
            Err(e) => Err(e),
            Ok(plans) => match case_schedule(registry, state, n - 1, reviews, interviews) {
                Err(e) => Err(e),
                Ok(None) => Ok(plans),
                Ok(Some(d)) => Ok(plans.push(d)),
            },
        }
    }
}

fn attempt_plan(registry: &Registry, state: &AppState, d: InvestigationWorkDraft) -> (r: Result<Option<ValidatedInvestigationWorkSchedule>, InvestigationWorkError>)
    ensures
        match attempt_schedule(*registry, *state, d) {
            Err(e) => r matches Err(x) && x == e,
            Ok(None) => r matches Ok(None),
            Ok(Some(d2)) => r matches Ok(Some(t)) && schedule_validated(*registry, *state, d2, t),
        },
{
    match validate_schedule_investigation_work(registry, state, d) {
        Ok(t) => Ok(Some(t)),
        Err(InvestigationWorkError::SimulationTimeOverflow) => Ok(None),
        Err(e) => Err(e),
    }
}

/// Plans case `i`'s work as `case_schedule` says.
fn plan_case(registry: &Registry, state: &AppState, i: usize, reviews: bool, interviews: bool) -> (r: Result<Option<ValidatedInvestigationWorkSchedule>, InvestigationWorkError>)
    requires
        state.wf(),
        i < state.legal.investigations@.len(),
    ensures
        match case_schedule(*registry, *state, i as int, reviews, interviews) {
            Err(e) => r matches Err(x) && x == e,
            Ok(None) => r matches Ok(None),
            Ok(Some(d)) => r matches Ok(Some(t)) && schedule_validated(*registry, *state, d, t),
        },
{
    let rec = &state.legal.investigations[i];
    let inv = rec.id;
    proof {
        assert(state.legal.spec_investigation(inv) == Some(state.legal.investigations@[i as int]));
    }
    if rec.status != InvestigationStatus::Active {
        return Ok(None);
    }
    let c = match rec.lead_investigator {
        Some(c) => c,
        None => {
            return Ok(None);
        },
    };
    if state.legal.active_arrest_for_character(c).is_some() || state.legal.scheduled_work_for_investigator(c).is_some() {
        return Ok(None);
    }
    let version = rec.version;
    if reviews && version <= u32::MAX - 3 {
        if let Some(e) = find_next_review(&state.legal, inv) {
            let d = InvestigationWorkDraft {
                investigation: inv,
                investigator: c,
                kind: InvestigationWorkKind::EvidenceReview,
                focus: InvestigationWorkFocus::evidence(e),
            };
            match attempt_plan(registry, state, d) {
                Ok(Some(t)) => {
                    return Ok(Some(t));
                },
                Ok(None) => {},
                Err(x) => {
                    return Err(x);
                },
            }
        }
    }
    if interviews && version <= u32::MAX - 4 {
        let limit = registry.legal().witness_interview_attempt_limit();
        if let Some(w) = find_next_interview(state, limit, inv) {
            let d = InvestigationWorkDraft {
                investigation: inv,
                investigator: c,
                kind: InvestigationWorkKind::WitnessInterview,
                focus: InvestigationWorkFocus::witness(w),
            };
            return attempt_plan(registry, state, d);
        }
    }
    Ok(None)
}

proof fn lemma_case_schedule_some(registry: Registry, state: AppState, i: int, reviews: bool, interviews: bool)
    requires
        case_schedule(registry, state, i, reviews, interviews) is Ok,
        case_schedule(registry, state, i, reviews, interviews)->Ok_0 is Some,
    ensures
        ({
            let d = case_schedule(registry, state, i, reviews, interviews)->Ok_0->0;
            &&& free_lead(state, state.legal.investigations@[i]) == Some(d.investigator)
            &&& d.investigation == state.legal.investigations@[i].id
            &&& schedule_error(registry, state, d) is None
        }),
{
}

proof fn lemma_schedule_err_sticks(registry: Registry, state: AppState, m: int, n: int, reviews: bool, interviews: bool)
    requires
        0 <= m <= n,
        schedule_upto(registry, state, m, reviews, interviews) is Err,
    ensures
        schedule_upto(registry, state, n, reviews, interviews) == schedule_upto(registry, state, m, reviews, interviews),
    decreases n - m,
{
    if m < n {
        lemma_schedule_err_sticks(registry, state, m, n - 1, reviews, interviews);
    }
}

/// The records a cohort of planned work becomes, numbered after `base` and scheduled at `now`.
pub open spec fn planned_records(registry: Registry, plans: Seq<InvestigationWorkDraft>, base: int, now: crate::base::SimTime) -> Seq<crate::legal::InvestigationWorkRecord> {
    Seq::new(
        plans.len(),
        |k: int| scheduled_record(plans[k], InvestigationWorkId((base + 1 + k) as u32), now, registry.spec_work(plans[k].kind).duration.0),
    )
}

/// Whether one of the first `k` plans works case `i`.
pub open spec fn planned_case(plans: Seq<InvestigationWorkDraft>, k: int, i: int) -> bool {
    exists|j: int| 0 <= j < k && (#[trigger] plans[j]).investigation.0 == i + 1
}

/// A token validated against `start` still commits in `cur` when the case, the investigator,
/// the witnesses and arrests are as they were, and neither the focus nor the investigator has
/// work scheduled.
proof fn lemma_token_current(registry: Registry, start: AppState, cur: AppState, t: ValidatedInvestigationWorkSchedule, d: InvestigationWorkDraft)
    requires
        start.wf(),
        cur.wf(),
        schedule_validated(registry, start, d, t),
        schedule_error(registry, start, d) is None,
        cur.world == start.world,
        cur.now == start.now,
        cur.legal.arrests == start.legal.arrests,
        cur.legal.case_witnesses == start.legal.case_witnesses,
        cur.legal.investigations@.len() == start.legal.investigations@.len(),
        cur.legal.investigations@[d.investigation.0 - 1] == start.legal.investigations@[d.investigation.0 - 1],
        cur.legal.spec_scheduled_work_for(d.investigator) is None,
        cur.legal.spec_scheduled_work_for_focus(d.investigation, d.kind, d.focus) is None,
        cur.legal.work@.len() < u32::MAX,
    ensures
        t.commit_error(cur) is None,
{
    assert(cur.legal.spec_investigation(d.investigation) == start.legal.spec_investigation(d.investigation));
    assert(cur.legal.spec_active_arrest_for(d.investigator) == start.legal.spec_active_arrest_for(d.investigator));
}

/// Whether `after` is `before` with the cohort `plans` scheduled: each plan becomes a scheduled
/// work record numbered in plan order, and each case that received work was revised now.
pub open spec fn pass_applied(registry: Registry, before: AppState, after: AppState, plans: Seq<InvestigationWorkDraft>, reviews: bool, interviews: bool) -> bool {
    let base = before.legal.work@.len();
    &&& after.legal.work@ == before.legal.work@ + planned_records(registry, plans, base as int, before.now)
    &&& after.legal.investigations@.len() == before.legal.investigations@.len()
    &&& forall|i: int|
        0 <= i < before.legal.investigations@.len() ==> #[trigger] after.legal.investigations@[i] == (if case_schedule(
            registry,
            before,
            i,
            reviews,
            interviews,
        ) matches Ok(Some(_)) {
            touched(before.legal.investigations@[i], before.now)
        } else {
            before.legal.investigations@[i]
        })
    &&& after.legal.evidence == before.legal.evidence
    &&& after.legal.arrests == before.legal.arrests
    &&& after.legal.case_witnesses == before.legal.case_witnesses
    &&& after.legal.informants == before.legal.informants
    &&& after.legal.disclosures == before.legal.disclosures
    &&& after.world == before.world
    &&& after.intelligence == before.intelligence
    &&& after.now == before.now
    &&& after.rng == before.rng
}

/// Plans every case's work as `schedule_upto` says, then schedules the whole cohort when the
/// work identifiers can hold all of it; none when they cannot.
#[verifier::rlimit(100)]
fn run_scheduling_pass(registry: &Registry, state: &mut AppState, reviews: bool, interviews: bool) -> (r: Result<Option<Vec<InvestigationWorkId>>, InvestigationWorkError>)
    requires
        old(state).wf(),
    ensures
        final(state).wf(),
        match schedule_upto(*registry, *old(state), old(state).legal.investigations@.len() as int, reviews, interviews) {
            Err(e) => r matches Err(x) && x == e && *final(state) == *old(state),
            Ok(plans) => if old(state).legal.work@.len() + plans.len() > u32::MAX {
                r matches Ok(None) && *final(state) == *old(state)
            } else {
                &&& r matches Ok(Some(ids)) && ids@ == Seq::new(
                    plans.len(),
                    |k: int| InvestigationWorkId((old(state).legal.work@.len() + 1 + k) as u32),
                )
                &&& pass_applied(*registry, *old(state), *final(state), plans, reviews, interviews)
            },
        },
{
    let ghost start = *state;
    let n = state.legal.investigations.len();
    let mut tokens: Vec<ValidatedInvestigationWorkSchedule> = Vec::new();
    let ghost mut plans: Seq<InvestigationWorkDraft> = Seq::empty();
    let mut i: usize = 0;
    while i < n
        invariant
            i <= n,
            n == start.legal.investigations@.len(),
            *state == start,
            start == *old(state),
            start.wf(),
            schedule_upto(*registry, start, i as int, reviews, interviews) == Ok::<Seq<InvestigationWorkDraft>, InvestigationWorkError>(plans),
            tokens@.len() == plans.len(),
            forall|k: int| 0 <= k < plans.len() ==> schedule_validated(*registry, start, plans[k], #[trigger] tokens@[k]),
            forall|k: int|
                0 <= k < plans.len() ==> {
                    let d = #[trigger] plans[k];
                    &&& 1 <= d.investigation.0 <= i
                    &&& free_lead(start, start.legal.investigations@[d.investigation.0 - 1]) == Some(d.investigator)
                    &&& schedule_error(*registry, start, d) is None
                },
            forall|a: int, b: int| 0 <= a < b < plans.len() ==> (#[trigger] plans[a]).investigation.0 < (#[trigger] plans[b]).investigation.0,
            forall|c: int|
                0 <= c < i ==> (planned_case(plans, plans.len() as int, c) <==> #[trigger] case_schedule(
                    *registry,
                    start,
                    c,
                    reviews,
                    interviews,
                ) matches Ok(Some(_))),
        decreases n - i,
    {
        proof {
            assert(start.legal.investigations@[i as int].id.0 == i + 1);
        }
        match plan_case(registry, state, i, reviews, interviews) {
            Err(e) => {
                proof {
                    lemma_schedule_err_sticks(*registry, start, i + 1, n as int, reviews, interviews);
                }
                return Err(e);
            },
            Ok(None) => {
                proof {
                    assert forall|c: int| 0 <= c <= i implies (planned_case(plans, plans.len() as int, c) <==> #[trigger] case_schedule(
                        *registry,
                        start,
                        c,
                        reviews,
                        interviews,
                    ) matches Ok(Some(_))) by {
                        if c == i {
                            if planned_case(plans, plans.len() as int, c) {
                                let j = choose|j: int| 0 <= j < plans.len() && (#[trigger] plans[j]).investigation.0 == c + 1;
                            }
                        }
                    }
                }
            },
            Ok(Some(t)) => {
                proof {
                    lemma_case_schedule_some(*registry, start, i as int, reviews, interviews);
                    let d = case_schedule(*registry, start, i as int, reviews, interviews)->Ok_0->0;
                    let old_plans = plans;
                    plans = plans.push(d);
                    assert forall|c: int| 0 <= c <= i implies (planned_case(plans, plans.len() as int, c) <==> #[trigger] case_schedule(
                        *registry,
                        start,
                        c,
                        reviews,
                        interviews,
                    ) matches Ok(Some(_))) by {
                        if c < i {
                            if planned_case(plans, plans.len() as int, c) {
                                let j = choose|j: int| 0 <= j < plans.len() && (#[trigger] plans[j]).investigation.0 == c + 1;
                                assert(j < old_plans.len());
                                assert(old_plans[j] == plans[j]);
                            }
                            if planned_case(old_plans, old_plans.len() as int, c) {
                                let j = choose|j: int| 0 <= j < old_plans.len() && (#[trigger] old_plans[j]).investigation.0 == c + 1;
                                assert(plans[j] == old_plans[j]);
                            }
                        } else {
                            assert(plans[plans.len() - 1].investigation.0 == c + 1);
                        }
                    }
                }
                tokens.push(t);
            },
        }
        i = i + 1;
    }
    let base = state.legal.work.len();
    if base > u32::MAX as usize || tokens.len() > u32::MAX as usize - base {
        return Ok(None);
    }
    let ghost all_tokens = tokens@;
    let ghost all_plans = plans;
    let now = state.now;
    let mut ids: Vec<InvestigationWorkId> = Vec::new();
    let mut k: usize = 0;
    while tokens.len() > 0
        invariant
            start == *old(state),
            start.wf(),
            state.wf(),
            n == start.legal.investigations@.len(),
            now == start.now,
            base == start.legal.work@.len(),
            base + all_plans.len() <= u32::MAX,
            all_tokens.len() == all_plans.len(),
            k + tokens@.len() == all_plans.len(),
            tokens@ == all_tokens.subrange(k as int, all_tokens.len() as int),
            forall|j: int| 0 <= j < all_plans.len() ==> schedule_validated(*registry, start, all_plans[j], #[trigger] all_tokens[j]),
            forall|j: int|
                0 <= j < all_plans.len() ==> {
                    let d = #[trigger] all_plans[j];
                    &&& 1 <= d.investigation.0 <= n
                    &&& free_lead(start, start.legal.investigations@[d.investigation.0 - 1]) == Some(d.investigator)
                    &&& schedule_error(*registry, start, d) is None
                },
            forall|a: int, b: int|
                0 <= a < b < all_plans.len() ==> (#[trigger] all_plans[a]).investigation.0 < (#[trigger] all_plans[b]).investigation.0,
            ids@ == Seq::new(k as nat, |j: int| InvestigationWorkId((base + 1 + j) as u32)),
            state.legal.work@ == start.legal.work@ + planned_records(*registry, all_plans.take(k as int), base as int, now),
            state.legal.investigations@.len() == n,
            forall|c: int|
                0 <= c < n ==> #[trigger] state.legal.investigations@[c] == (if planned_case(all_plans, k as int, c) {
                    touched(start.legal.investigations@[c], now)
                } else {
                    start.legal.investigations@[c]
                }),
            forall|j: int|
                k <= j < all_plans.len() ==> state.legal.spec_scheduled_work_for((#[trigger] all_plans[j]).investigator) is None
                    && state.legal.spec_scheduled_work_for_focus(all_plans[j].investigation, all_plans[j].kind, all_plans[j].focus) is None,
            state.legal.evidence == start.legal.evidence,
            state.legal.arrests == start.legal.arrests,
            state.legal.case_witnesses == start.legal.case_witnesses,
            state.legal.informants == start.legal.informants,
            state.legal.disclosures == start.legal.disclosures,
            state.world == start.world,
            state.intelligence == start.intelligence,
            state.now == start.now,
            state.rng == start.rng,
        decreases tokens.len(),
    {
        let t = tokens.remove(0);
        let ghost d = all_plans[k as int];
        let ghost pre = *state;
        proof {
            assert(t == all_tokens[k as int]);
            let c = d.investigation.0 - 1;
            assert(!planned_case(all_plans, k as int, c)) by {
                if planned_case(all_plans, k as int, c) {
                    let j = choose|j: int| 0 <= j < k && (#[trigger] all_plans[j]).investigation.0 == c + 1;
                    assert(all_plans[j].investigation.0 < all_plans[k as int].investigation.0);
                }
            }
            assert(pre.legal.work@.len() == base + k);
            lemma_token_current(*registry, start, pre, t, d);
        }
        let id = match t.commit(state) {
            Ok(id) => id,
            Err(e) => {
                assert(false);
                return Err(e);
            },
        };
        ids.push(id);
        proof {
            let rec = scheduled_record(d, id, now, registry.spec_work(d.kind).duration.0);
            assert(planned_records(*registry, all_plans.take(k + 1), base as int, now) =~= planned_records(
                *registry,
                all_plans.take(k as int),
                base as int,
                now,
            ).push(rec));
            assert(state.legal.work@ =~= start.legal.work@ + planned_records(*registry, all_plans.take(k + 1), base as int, now));
            assert(ids@ =~= Seq::new((k + 1) as nat, |j: int| InvestigationWorkId((base + 1 + j) as u32)));
            assert forall|c: int| 0 <= c < n implies #[trigger] state.legal.investigations@[c] == (if planned_case(all_plans, k + 1, c) {
                touched(start.legal.investigations@[c], now)
            } else {
                start.legal.investigations@[c]
            }) by {
                if c == d.investigation.0 - 1 {
                    assert(planned_case(all_plans, k + 1, c)) by {
                        assert(all_plans[k as int].investigation.0 == c + 1);
                    }
                } else {
                    if planned_case(all_plans, k + 1, c) {
                        let j = choose|j: int| 0 <= j < k + 1 && (#[trigger] all_plans[j]).investigation.0 == c + 1;
                        assert(j < k);
                    }
                }
            }
            assert forall|j: int|
                k + 1 <= j < all_plans.len() implies state.legal.spec_scheduled_work_for((#[trigger] all_plans[j]).investigator) is None
                    && state.legal.spec_scheduled_work_for_focus(all_plans[j].investigation, all_plans[j].kind, all_plans[j].focus) is None by {
                let e = all_plans[j];
                assert(e.investigation.0 > d.investigation.0);
                assert(start.legal.investigations@[e.investigation.0 - 1].lead_investigator != start.legal.investigations@[d.investigation.0 - 1].lead_investigator);
                crate::seqs::lemma_first_index_push(pre.legal.work@, rec, crate::legal::scheduled_for_investigator(e.investigator));
                crate::seqs::lemma_first_index_push(pre.legal.work@, rec, crate::legal::scheduled_on_focus(e.investigation, e.kind, e.focus));
            }
        }
        k = k + 1;
    }
    proof {
        assert(all_plans.take(all_plans.len() as int) =~= all_plans);
    }
    Ok(Some(ids))
}

/// The work a combined pass scheduled, split by kind, each in scheduling order.
#[derive(Debug, PartialEq, Eq)]
pub struct InvestigationWorkSchedulingOutcome {
    pub evidence_reviews: Vec<InvestigationWorkId>,
    pub witness_interviews: Vec<InvestigationWorkId>,
}

/// The identifiers of the plans of `kind` in a cohort numbered after `base`.
pub open spec fn kind_ids(plans: Seq<InvestigationWorkDraft>, base: int, kind: InvestigationWorkKind) -> Seq<InvestigationWorkId>
    decreases plans.len(),
{
    if plans.len() == 0 {
        Seq::empty()
    } else {
        let rest = kind_ids(plans.drop_last(), base, kind);
        if plans.last().kind == kind {
            rest.push(InvestigationWorkId((base + plans.len()) as u32))
        } else {
            rest
        }
    }
}

/// Gives every free lead of an active case its next piece of work in one pass: the oldest
/// unattempted reviewable evidence first, else the next witness to interview. The cohort is
/// all or nothing: when the work identifiers cannot hold all of it, nothing is scheduled; when
/// some case's work is refused for a reason other than the finite clock, the pass fails
/// unchanged.
pub fn apply_investigation_work_scheduling(registry: &Registry, state: &mut AppState) -> (r: Result<InvestigationWorkSchedulingOutcome, InvestigationWorkError>)
    requires
        old(state).wf(),
    ensures
        final(state).wf(),
        match schedule_upto(*registry, *old(state), old(state).legal.investigations@.len() as int, true, true) {
            Err(e) => r matches Err(x) && x == e && *final(state) == *old(state),
            Ok(plans) => if old(state).legal.work@.len() + plans.len() > u32::MAX {
                r matches Ok(out) && out.evidence_reviews@.len() == 0 && out.witness_interviews@.len() == 0
                    && *final(state) == *old(state)
            } else {
                let base = old(state).legal.work@.len() as int;
                &&& r matches Ok(out) && out.evidence_reviews@ == kind_ids(plans, base, InvestigationWorkKind::EvidenceReview)
                    && out.witness_interviews@ == kind_ids(plans, base, InvestigationWorkKind::WitnessInterview)
                &&& pass_applied(*registry, *old(state), *final(state), plans, true, true)
            },
        },
{
    let ghost start = *state;
    let base = state.legal.work.len();
    match run_scheduling_pass(registry, state, true, true) {
        Err(e) => Err(e),
        Ok(None) => Ok(InvestigationWorkSchedulingOutcome { evidence_reviews: Vec::new(), witness_interviews: Vec::new() }),
        Ok(Some(ids)) => {
            let ghost plans = schedule_upto(*registry, start, start.legal.investigations@.len() as int, true, true)->Ok_0;
            let mut evidence_reviews: Vec<InvestigationWorkId> = Vec::new();
            let mut witness_interviews: Vec<InvestigationWorkId> = Vec::new();
            let mut k: usize = 0;
            while k < ids.len()
                invariant
                    k <= ids.len(),
                    ids@.len() == plans.len(),
                    ids@ == Seq::new(plans.len(), |j: int| InvestigationWorkId((base + 1 + j) as u32)),
                    base == start.legal.work@.len(),
                    base + plans.len() <= u32::MAX,
                    state.legal.work@ == start.legal.work@ + planned_records(*registry, plans, base as int, start.now),
                    evidence_reviews@ == kind_ids(plans.take(k as int), base as int, InvestigationWorkKind::EvidenceReview),
                    witness_interviews@ == kind_ids(plans.take(k as int), base as int, InvestigationWorkKind::WitnessInterview),
                decreases ids.len() - k,
            {
                let id = ids[k];
                proof {
                    assert(plans.take(k + 1).drop_last() =~= plans.take(k as int));
                    assert(state.legal.work@[base + k] == planned_records(*registry, plans, base as int, start.now)[k as int]);
                }
                let kind = state.legal.work[base + k].kind;
                match kind {
                    InvestigationWorkKind::EvidenceReview => evidence_reviews.push(id),
                    InvestigationWorkKind::WitnessInterview => witness_interviews.push(id),
                }
                k = k + 1;
            }
            proof {
                assert(plans.take(plans.len() as int) =~= plans);
            }
            Ok(InvestigationWorkSchedulingOutcome { evidence_reviews, witness_interviews })
        },
    }
}

/// A review-only pass: every free lead of an active case that can take three more revisions
/// is given its oldest unattempted reviewable evidence. Fails with `IdExhaustion`, unchanged,
/// when the work identifiers cannot hold the whole cohort.
pub fn apply_evidence_review_scheduling(registry: &Registry, state: &mut AppState) -> (r: Result<Vec<InvestigationWorkId>, InvestigationWorkError>)
    requires
        old(state).wf(),
    ensures
        final(state).wf(),
        match schedule_upto(*registry, *old(state), old(state).legal.investigations@.len() as int, true, false) {
            Err(e) => r matches Err(x) && x == e && *final(state) == *old(state),
            Ok(plans) => if old(state).legal.work@.len() + plans.len() > u32::MAX {
                r matches Err(x) && x == InvestigationWorkError::IdExhaustion(IdExhaustionError::Exhausted { kind: IdKind::InvestigationWork }) && *final(state) == *old(state)
            } else {
                &&& r matches Ok(ids) && ids@ == Seq::new(
                    plans.len(),
                    |k: int| InvestigationWorkId((old(state).legal.work@.len() + 1 + k) as u32),
                )
                &&& pass_applied(*registry, *old(state), *final(state), plans, true, false)
            },
        },
{
    match run_scheduling_pass(registry, state, true, false) {
        Err(e) => Err(e),
        Ok(None) => Err(InvestigationWorkError::IdExhaustion(IdExhaustionError::Exhausted { kind: IdKind::InvestigationWork })),
        Ok(Some(ids)) => Ok(ids),
    }
}

/// An interview-only pass: every free lead of an active case that can take four more revisions
/// is given the next witness to interview. Fails with `IdExhaustion`, unchanged, when the work
/// identifiers cannot hold the whole cohort.
pub fn apply_witness_interview_scheduling(registry: &Registry, state: &mut AppState) -> (r: Result<Vec<InvestigationWorkId>, InvestigationWorkError>)
    requires
        old(state).wf(),
    ensures
        final(state).wf(),
        match schedule_upto(*registry, *old(state), old(state).legal.investigations@.len() as int, false, true) {
            Err(e) => r matches Err(x) && x == e && *final(state) == *old(state),
            Ok(plans) => if old(state).legal.work@.len() + plans.len() > u32::MAX {
                r matches Err(x) && x == InvestigationWorkError::IdExhaustion(IdExhaustionError::Exhausted { kind: IdKind::InvestigationWork }) && *final(state) == *old(state)
            } else {
                &&& r matches Ok(ids) && ids@ == Seq::new(
                    plans.len(),
                    |k: int| InvestigationWorkId((old(state).legal.work@.len() + 1 + k) as u32),
                )
                &&& pass_applied(*registry, *old(state), *final(state), plans, false, true)
            },
        },
{
    match run_scheduling_pass(registry, state, false, true) {
        Err(e) => Err(e),
        Ok(None) => Err(InvestigationWorkError::IdExhaustion(IdExhaustionError::Exhausted { kind: IdKind::InvestigationWork })),
        Ok(Some(ids)) => Ok(ids),
    }
}

} // verus!
