//! Resolving due detective work: a decision from frozen factors and an authored margin, a
//! validation that the plan still matches the state, and a commit that records the developed
//! evidence or the witness's testimony and completes the work.

use vstd::prelude::*;
use crate::base::{IdExhaustionError, IdKind};
use crate::base::{CaseWitnessId, EntityRef, EvidenceId, InvestigationWorkId, Rating, SimTime};
use crate::legal::investigation_system::spec_actionable;
use crate::legal::investigation_work_execution::{
    case_work_error, validate_case_and_investigator, InvestigationWorkError, VersionedRecord,
};
use crate::legal::store::{attempted, completed, promoted_subjects, with_statement};
use crate::legal::{
    Admissibility, CaseWitnessRecord, EvidenceKind, EvidenceRecord, EvidenceReliability,
    EvidenceStrength, InvestigationWorkFactors, InvestigationWorkFocus, InvestigationWorkKind,
    InvestigationWorkOutcome, InvestigationWorkRecord, InvestigationWorkResolution,
    InvestigationWorkStatus, LegalState, WitnessCooperation,
};
use crate::registry::{InvestigationWorkDefinition, Registry, SourceSupportDefinition};
use crate::state::AppState;

verus! {

/// The random draw a resolution consumes: a signed variance.
#[derive(Clone, Copy, Debug, PartialEq, Eq, Structural)]
pub struct InvestigationWorkRandomness {
    variance: i8,
}

impl InvestigationWorkRandomness {
    pub closed spec fn spec_variance(self) -> i8 {
        self.variance
    }

    pub fn new(variance: i8) -> (r: Self)
        ensures
            r.spec_variance() == variance,
    {
        InvestigationWorkRandomness { variance }
    }

    pub fn variance(self) -> (r: i8)
        ensures
            r == self.spec_variance(),
    {
        self.variance
    }
}

/// A decided resolution, pinned to the versions and instant it was decided from.
#[derive(Clone, Copy, Debug, PartialEq, Eq, Structural)]
pub struct InvestigationWorkResolutionPlan {
    pub work: InvestigationWorkId,
    pub expected_work_version: u32,
    pub expected_investigation_version: u32,
    pub expected_investigator_version: u32,
    pub expected_case_witness_version: Option<u32>,
    pub resolved_at: SimTime,
    pub outcome: InvestigationWorkOutcome,
    pub factors: InvestigationWorkFactors,
    pub margin: i16,
}

impl InvestigationWorkResolutionPlan {
    pub fn work(&self) -> (r: InvestigationWorkId)
        ensures
            r == self.work,
    {
        self.work
    }

    pub fn outcome(&self) -> (r: InvestigationWorkOutcome)
        ensures
            r == self.outcome,
    {
        self.outcome
    }

    pub fn factors(&self) -> (r: InvestigationWorkFactors)
        ensures
            r == self.factors,
    {
        self.factors
    }

    pub fn margin(&self) -> (r: i16)
        ensures
            r == self.margin,
    {
        self.margin
    }
}

pub open spec fn strength_score(s: SourceSupportDefinition, v: EvidenceStrength) -> int {
    match v {
        EvidenceStrength::Weak => s.weak as int,
        EvidenceStrength::Corroborating => s.corroborating as int,
        EvidenceStrength::Strong => s.strong as int,
        EvidenceStrength::Direct => s.direct as int,
    }
}

pub open spec fn reliability_score(s: SourceSupportDefinition, v: EvidenceReliability) -> int {
    match v {
        EvidenceReliability::Questionable => s.questionable as int,
        EvidenceReliability::Mixed => s.mixed as int,
        EvidenceReliability::Credible => s.credible as int,
        EvidenceReliability::HighlyReliable => s.highly_reliable as int,
    }
}

pub open spec fn admissibility_score(s: SourceSupportDefinition, v: Admissibility) -> int {
    match v {
        Admissibility::Inadmissible => s.inadmissible as int,
        Admissibility::Unknown => s.unknown_admissibility as int,
        Admissibility::Disputed => s.disputed as int,
        Admissibility::Admissible => s.admissible as int,
    }
}

pub open spec fn witness_score(s: SourceSupportDefinition, v: WitnessCooperation) -> int {
    match v {
        WitnessCooperation::Hostile => s.hostile as int,
        WitnessCooperation::Reluctant => s.reluctant as int,
        WitnessCooperation::Cooperative => s.cooperative as int,
    }
}

/// How well the reviewed material supports the work: the mean of its three authored scores.
pub open spec fn review_support(s: SourceSupportDefinition, e: EvidenceRecord) -> int {
    (strength_score(s, e.strength) + reliability_score(s, e.reliability) + admissibility_score(s, e.admissibility)) / 3
}

/// The source support of due work: the reviewed record's mean score, or the interviewed
/// witness's current cooperation score.
pub open spec fn source_support(def: InvestigationWorkDefinition, legal: LegalState, w: InvestigationWorkRecord) -> Option<int> {
    match w.kind {
        InvestigationWorkKind::EvidenceReview => match w.source_evidence {
            Some(e) => match legal.spec_evidence(e) {
                Some(rec) => if rec.investigation == w.investigation {
                    Some(review_support(def.source_support, rec))
                } else {
                    None
                },
                None => None,
            },
            None => None,
        },
        InvestigationWorkKind::WitnessInterview => match w.focus {
            InvestigationWorkFocus::Witness(cw) => match legal.spec_case_witness(cw) {
                Some(rec) => Some(witness_score(def.source_support, rec.cooperation)),
                None => None,
            },
            InvestigationWorkFocus::Evidence(_) => None,
        },
    }
}

/// The margin of a resolution: capability plus weighted support plus variance, less difficulty.
pub open spec fn spec_margin(def: InvestigationWorkDefinition, f: InvestigationWorkFactors) -> int {
    f.investigation_capability.0 + f.source_support.0 * def.source_support_weight / 100 + f.variance
        - f.difficulty
}

/// Work whose margin reaches the authored bar develops (a review) or connects (an interview).
pub open spec fn spec_outcome(def: InvestigationWorkDefinition, kind: InvestigationWorkKind, margin: int) -> InvestigationWorkOutcome {
    if margin >= def.connected_margin {
        match kind {
            InvestigationWorkKind::EvidenceReview => InvestigationWorkOutcome::Developed,
            InvestigationWorkKind::WitnessInterview => InvestigationWorkOutcome::Connected,
        }
    } else {
        InvestigationWorkOutcome::Inconclusive
    }
}

/// The factors a resolution of `w` freezes for `variance`.
pub open spec fn spec_factors(def: InvestigationWorkDefinition, state: AppState, w: InvestigationWorkRecord, variance: i8) -> InvestigationWorkFactors {
    InvestigationWorkFactors {
        investigation_capability: state.world.spec_character(w.investigator)->0.investigation->0,
        source_support: Rating(source_support(def, state.legal, w)->0 as u8),
        difficulty: def.base_difficulty,
        variance,
    }
}

/// The first reason `work` is not due work that can be resolved now.
pub open spec fn due_work_error(state: AppState, work: InvestigationWorkId) -> Option<InvestigationWorkError> {
    match state.legal.spec_work(work) {
        None => Some(InvestigationWorkError::MissingWork(work)),
        Some(w) => if w.status != InvestigationWorkStatus::Scheduled {
            Some(InvestigationWorkError::WorkNotScheduled(work))
        } else if state.now.0 < w.due_at.0 {
            Some(InvestigationWorkError::WorkNotDue { work, due_at: w.due_at })
        } else if case_work_error(state, w.investigation, w.investigator) is Some {
            case_work_error(state, w.investigation, w.investigator)
        } else if w.source_evidence is Some && (state.legal.spec_evidence(w.source_evidence->0) is None
            || state.legal.spec_evidence(w.source_evidence->0)->0.investigation != w.investigation) {
            Some(InvestigationWorkError::InvalidSourceEvidence(w.source_evidence->0))
        } else {
            None
        },
    }
}

fn validate_due_work(state: &AppState, work: InvestigationWorkId) -> (r: Result<InvestigationWorkRecord, InvestigationWorkError>)
    ensures
        match due_work_error(*state, work) {
            Some(e) => r == Err::<InvestigationWorkRecord, InvestigationWorkError>(e),
            None => r == Ok::<InvestigationWorkRecord, InvestigationWorkError>(state.legal.spec_work(work)->0),
        },
{
    let w = match state.legal.get_investigation_work(work) {
        Some(w) => w,
        None => {
            return Err(InvestigationWorkError::MissingWork(work));
        },
    };
    if w.status != InvestigationWorkStatus::Scheduled {
        return Err(InvestigationWorkError::WorkNotScheduled(work));
    }
    if state.now.0 < w.due_at.0 {
        return Err(InvestigationWorkError::WorkNotDue { work, due_at: w.due_at });
    }
    validate_case_and_investigator(state, w.investigation, w.investigator)?;
    if let Some(e) = w.source_evidence {
        match state.legal.get_evidence(e) {
            Some(rec) => {
                if rec.investigation != w.investigation {
                    return Err(InvestigationWorkError::InvalidSourceEvidence(e));
                }
            },
            None => {
                return Err(InvestigationWorkError::InvalidSourceEvidence(e));
            },
        }
    }
    Ok(w)
}

fn support_score(def: &InvestigationWorkDefinition, state: &AppState, w: &InvestigationWorkRecord) -> (r: Result<u8, InvestigationWorkError>)
    requires
        def.source_support.weak <= 100 && def.source_support.corroborating <= 100 && def.source_support.strong <= 100
            && def.source_support.direct <= 100,
    ensures
        match source_support(*def, state.legal, *w) {
            Some(v) => r == Ok::<u8, InvestigationWorkError>(v as u8) && 0 <= v <= 255,
            None => r is Err,
        },
{
    let s = def.source_support;
    match w.kind {
        InvestigationWorkKind::EvidenceReview => {
            let e = match w.source_evidence {
                Some(e) => e,
                None => {
                    return Err(InvestigationWorkError::InvalidFocus);
                },
            };
            let rec = match state.legal.get_evidence(e) {
                Some(rec) => rec,
                None => {
                    return Err(InvestigationWorkError::InvalidSourceEvidence(e));
                },
            };
            if rec.investigation != w.investigation {
                return Err(InvestigationWorkError::InvalidSourceEvidence(e));
            }
            let a: u32 = match rec.strength {
                EvidenceStrength::Weak => s.weak as u32,
                EvidenceStrength::Corroborating => s.corroborating as u32,
                EvidenceStrength::Strong => s.strong as u32,
                EvidenceStrength::Direct => s.direct as u32,
            };
            let b: u32 = match rec.reliability {
                EvidenceReliability::Questionable => s.questionable as u32,
                EvidenceReliability::Mixed => s.mixed as u32,
                EvidenceReliability::Credible => s.credible as u32,
                EvidenceReliability::HighlyReliable => s.highly_reliable as u32,
            };
            let c: u32 = match rec.admissibility {
                Admissibility::Inadmissible => s.inadmissible as u32,
                Admissibility::Unknown => s.unknown_admissibility as u32,
                Admissibility::Disputed => s.disputed as u32,
                Admissibility::Admissible => s.admissible as u32,
            };
            Ok(((a + b + c) / 3) as u8)
        },
        InvestigationWorkKind::WitnessInterview => {
            let cw = match w.focus {
                InvestigationWorkFocus::Witness(cw) => cw,
                InvestigationWorkFocus::Evidence(_) => {
                    return Err(InvestigationWorkError::InvalidFocus);
                },
            };
            let rec = match state.legal.get_case_witness(cw) {
                Some(rec) => rec,
                None => {
                    return Err(InvestigationWorkError::InvalidFocus);
                },
            };
            Ok(
                match rec.cooperation {
                    WitnessCooperation::Hostile => s.hostile,
                    WitnessCooperation::Reluctant => s.reluctant,
                    WitnessCooperation::Cooperative => s.cooperative,
                },
            )
        },
    }
}

/// The first reason a resolution cannot be decided for `work` with `variance`.
pub open spec fn decide_error(registry: Registry, state: AppState, work: InvestigationWorkId, variance: i8) -> Option<InvestigationWorkError> {
    if due_work_error(state, work) is Some {
        due_work_error(state, work)
    } else {
        let w = state.legal.spec_work(work)->0;
        let def = registry.spec_work(w.kind);
        if (if variance < 0 { -variance } else { variance as int }) > def.variance_limit {
            Some(InvestigationWorkError::VarianceOutOfRange { variance, limit: def.variance_limit })
        } else if source_support(def, state.legal, w) is None {
            Some(
                if w.kind == InvestigationWorkKind::EvidenceReview && w.source_evidence is Some {
                    InvestigationWorkError::InvalidSourceEvidence(w.source_evidence->0)
                } else {
                    InvestigationWorkError::InvalidFocus
                },
            )
        } else if w.focus is Witness && state.legal.spec_case_witness(w.focus->Witness_0) is None {
            Some(InvestigationWorkError::InvalidFocus)
        } else {
            None
        }
    }
}

/// The plan a decision for due `w` with `variance` yields at the state's present instant.
pub open spec fn decided_plan(registry: Registry, state: AppState, work: InvestigationWorkId, variance: i8) -> InvestigationWorkResolutionPlan {
    let w = state.legal.spec_work(work)->0;
    let def = registry.spec_work(w.kind);
    let f = spec_factors(def, state, w, variance);
    InvestigationWorkResolutionPlan {
        work,
        expected_work_version: w.version,
        expected_investigation_version: state.legal.spec_investigation(w.investigation)->0.version,
        expected_investigator_version: state.world.spec_character(w.investigator)->0.version,
        expected_case_witness_version: match w.focus {
            InvestigationWorkFocus::Witness(cw) => Some(state.legal.spec_case_witness(cw)->0.version),
            InvestigationWorkFocus::Evidence(_) => None,
        },
        resolved_at: state.now,
        outcome: spec_outcome(def, w.kind, spec_margin(def, f)),
        factors: f,
        margin: spec_margin(def, f) as i16,
    }
}

/// Whether the authored support scores are ratings.
pub open spec fn scores_valid(registry: Registry) -> bool {
    &&& forall|k: InvestigationWorkKind| {
        let s = #[trigger] registry.spec_work(k).source_support;
        &&& s.weak <= 100 && s.corroborating <= 100 && s.strong <= 100 && s.direct <= 100
        &&& s.questionable <= 100 && s.mixed <= 100 && s.credible <= 100 && s.highly_reliable <= 100
        &&& s.inadmissible <= 100 && s.unknown_admissibility <= 100 && s.disputed <= 100
        &&& s.admissible <= 100 && s.hostile <= 100 && s.reluctant <= 100 && s.cooperative <= 100
    }
    &&& forall|k: InvestigationWorkKind| (#[trigger] registry.spec_work(k)).source_support_weight <= 100
}

fn margin_of(def: &InvestigationWorkDefinition, f: &InvestigationWorkFactors) -> (r: i16)
    requires
        def.source_support_weight <= 100,
    ensures
        r == spec_margin(*def, *f),
{
    let s = f.source_support.0 as i32;
    let w = def.source_support_weight as i32;
    assert(0 <= s * w <= 255 * 100) by (nonlinear_arith)
        requires
            0 <= s <= 255,
            0 <= w <= 100,
    ;
    let support = s * w / 100;
    assert(0 <= support <= 255);
    (f.investigation_capability.0 as i32 + support + f.variance as i32 - f.difficulty as i32) as i16
}

fn outcome_of(def: &InvestigationWorkDefinition, kind: InvestigationWorkKind, margin: i16) -> (r: InvestigationWorkOutcome)
    ensures
        r == spec_outcome(*def, kind, margin as int),
{
    if margin >= def.connected_margin {
        match kind {
            InvestigationWorkKind::EvidenceReview => InvestigationWorkOutcome::Developed,
            InvestigationWorkKind::WitnessInterview => InvestigationWorkOutcome::Connected,
        }
    } else {
        InvestigationWorkOutcome::Inconclusive
    }
}

/// Decides how due work resolves for the given random draw.
pub fn decide_investigation_work_resolution(registry: &Registry, state: &AppState, work: InvestigationWorkId, randomness: InvestigationWorkRandomness) -> (r: Result<InvestigationWorkResolutionPlan, InvestigationWorkError>)
    requires
        scores_valid(*registry),
    ensures
        match decide_error(*registry, *state, work, randomness.spec_variance()) {
            Some(e) => r == Err::<InvestigationWorkResolutionPlan, InvestigationWorkError>(e),
            None => r == Ok::<InvestigationWorkResolutionPlan, InvestigationWorkError>(
                decided_plan(*registry, *state, work, randomness.spec_variance()),
            ),
        },
{
    let w = validate_due_work(state, work)?;
    let def = registry.get_investigation_work(w.kind);
    let variance = randomness.variance();
    let magnitude: u8 = if variance < 0 {
        (-(variance as i16)) as u8
    } else {
        variance as u8
    };
    if magnitude > def.variance_limit {
        return Err(InvestigationWorkError::VarianceOutOfRange { variance, limit: def.variance_limit });
    }
    let support = match support_score(&def, state, &w) {
        Ok(s) => s,
        Err(_) => {
            if w.kind == InvestigationWorkKind::EvidenceReview && w.source_evidence.is_some() {
                return Err(InvestigationWorkError::InvalidSourceEvidence(w.source_evidence.unwrap()));
            }
            return Err(InvestigationWorkError::InvalidFocus);
        },
    };
    let (capability, investigator_version) = match state.world.get_character(w.investigator) {
        Some(ch) => match ch.investigation {
            Some(cap) => (cap, ch.version),
            None => {
                return Err(InvestigationWorkError::MissingInvestigationCapability(w.investigator));
            },
        },
        None => {
            return Err(InvestigationWorkError::MissingInvestigator(w.investigator));
        },
    };
    let investigation_version = match state.legal.get_investigation(w.investigation) {
        Some(rec) => rec.version,
        None => {
            return Err(InvestigationWorkError::MissingInvestigation(w.investigation));
        },
    };
    let witness_version = match w.focus {
        InvestigationWorkFocus::Witness(cw) => match state.legal.get_case_witness(cw) {
            Some(rec) => Some(rec.version),
            None => {
                return Err(InvestigationWorkError::InvalidFocus);
            },
        },
        InvestigationWorkFocus::Evidence(_) => None,
    };
    let factors = InvestigationWorkFactors {
        investigation_capability: capability,
        source_support: Rating(support),
        difficulty: def.base_difficulty,
        variance,
    };
    let margin = margin_of(&def, &factors);
    let outcome = outcome_of(&def, w.kind, margin);
    Ok(
        InvestigationWorkResolutionPlan {
            work,
            expected_work_version: w.version,
            expected_investigation_version: investigation_version,
            expected_investigator_version: investigator_version,
            expected_case_witness_version: witness_version,
            resolved_at: state.now,
            outcome,
            factors,
            margin,
        },
    )
}


/// Revisions of its case that a resolution with `outcome` makes; none names an impossible pair.
pub open spec fn case_advances(kind: InvestigationWorkKind, outcome: InvestigationWorkOutcome) -> Option<int> {
    match (kind, outcome) {
        (InvestigationWorkKind::EvidenceReview, InvestigationWorkOutcome::Developed) => Some(2),
        (InvestigationWorkKind::EvidenceReview, InvestigationWorkOutcome::Inconclusive) => Some(1),
        (InvestigationWorkKind::WitnessInterview, InvestigationWorkOutcome::Connected) => Some(3),
        (InvestigationWorkKind::WitnessInterview, InvestigationWorkOutcome::Inconclusive) => Some(1),
        _ => None,
    }
}

/// The first reason the plan no longer matches the state it was decided from.
pub open spec fn snapshot_error(state: AppState, plan: InvestigationWorkResolutionPlan) -> Option<InvestigationWorkError> {
    if due_work_error(state, plan.work) is Some {
        due_work_error(state, plan.work)
    } else {
        let w = state.legal.spec_work(plan.work)->0;
        let case_version = state.legal.spec_investigation(w.investigation)->0.version;
        if w.version != plan.expected_work_version {
            Some(InvestigationWorkError::StaleWork { work: plan.work, expected: plan.expected_work_version, found: w.version })
        } else if w.version == u32::MAX {
            Some(InvestigationWorkError::VersionCapacity(VersionedRecord::InvestigationWork))
        } else if state.world.spec_character(w.investigator)->0.version != plan.expected_investigator_version {
            Some(
                InvestigationWorkError::StaleInvestigator {
                    investigator: w.investigator,
                    expected: plan.expected_investigator_version,
                    found: state.world.spec_character(w.investigator)->0.version,
                },
            )
        } else if case_version != plan.expected_investigation_version {
            Some(
                InvestigationWorkError::StaleInvestigation {
                    investigation: w.investigation,
                    expected: plan.expected_investigation_version,
                    found: case_version,
                },
            )
        } else if case_advances(w.kind, plan.outcome) is None {
            Some(InvestigationWorkError::StaleResolutionContext { work: plan.work })
        } else if case_version + case_advances(w.kind, plan.outcome)->0 > u32::MAX {
            Some(InvestigationWorkError::VersionCapacity(VersionedRecord::Investigation))
        } else {
            match w.focus {
                InvestigationWorkFocus::Witness(cw) => match state.legal.spec_case_witness(cw) {
                    None => Some(InvestigationWorkError::InvalidFocus),
                    Some(rec) => if Some(rec.version) != plan.expected_case_witness_version {
                        Some(InvestigationWorkError::StaleResolutionContext { work: plan.work })
                    } else if rec.version + (if plan.outcome == InvestigationWorkOutcome::Connected { 2int } else { 1int }) > u32::MAX {
                        Some(InvestigationWorkError::VersionCapacity(VersionedRecord::CaseWitness))
                    } else if rec.interview_attempts == u8::MAX {
                        Some(InvestigationWorkError::WitnessInterviewAttemptCapacity { witness: cw })
                    } else if state.now != plan.resolved_at {
                        Some(InvestigationWorkError::StaleResolutionTime { expected: plan.resolved_at, found: state.now })
                    } else {
                        None
                    },
                },
                InvestigationWorkFocus::Evidence(_) => if plan.expected_case_witness_version is Some {
                    Some(InvestigationWorkError::StaleResolutionContext { work: plan.work })
                } else if state.now != plan.resolved_at {
                    Some(InvestigationWorkError::StaleResolutionTime { expected: plan.resolved_at, found: state.now })
                } else {
                    None
                },
            }
        }
    }
}

/// The first reason the plan's arithmetic disagrees with the state: its factors, margin or
/// outcome differ from what the authored rules give now.
pub open spec fn context_error(registry: Registry, state: AppState, plan: InvestigationWorkResolutionPlan) -> Option<InvestigationWorkError> {
    let w = state.legal.spec_work(plan.work)->0;
    let def = registry.spec_work(w.kind);
    let v = plan.factors.variance;
    if source_support(def, state.legal, w) is None {
        Some(InvestigationWorkError::InvalidFocus)
    } else if plan.factors != spec_factors(def, state, w, v) || (if v < 0 { -v } else { v as int })
        > def.variance_limit || plan.margin != spec_margin(def, plan.factors) || plan.outcome
        != spec_outcome(def, w.kind, plan.margin as int) {
        Some(InvestigationWorkError::StaleResolutionContext { work: plan.work })
    } else if plan.outcome == InvestigationWorkOutcome::Developed && (w.source_evidence is None
        || state.legal.spec_evidence(w.source_evidence->0) is None) {
        Some(InvestigationWorkError::StaleResolutionContext { work: plan.work })
    } else if plan.outcome != InvestigationWorkOutcome::Inconclusive && state.legal.evidence@.len() >= u32::MAX {
        Some(InvestigationWorkError::IdExhaustion(IdExhaustionError::Exhausted { kind: IdKind::Evidence }))
    } else {
        None
    }
}

fn check_snapshot(state: &AppState, plan: &InvestigationWorkResolutionPlan) -> (r: Result<InvestigationWorkRecord, InvestigationWorkError>)
    ensures
        match snapshot_error(*state, *plan) {
            Some(e) => r == Err::<InvestigationWorkRecord, InvestigationWorkError>(e),
            None => r == Ok::<InvestigationWorkRecord, InvestigationWorkError>(state.legal.spec_work(plan.work)->0),
        },
{
    let w = validate_due_work(state, plan.work)?;
    if w.version != plan.expected_work_version {
        return Err(InvestigationWorkError::StaleWork { work: plan.work, expected: plan.expected_work_version, found: w.version });
    }
    if w.version == u32::MAX {
        return Err(InvestigationWorkError::VersionCapacity(VersionedRecord::InvestigationWork));
    }
    let ch_version = match state.world.get_character(w.investigator) {
        Some(ch) => ch.version,
        None => {
            return Err(InvestigationWorkError::MissingInvestigator(w.investigator));
        },
    };
    if ch_version != plan.expected_investigator_version {
        return Err(
            InvestigationWorkError::StaleInvestigator {
                investigator: w.investigator,
                expected: plan.expected_investigator_version,
                found: ch_version,
            },
        );
    }
    let case_version = match state.legal.get_investigation(w.investigation) {
        Some(rec) => rec.version,
        None => {
            return Err(InvestigationWorkError::MissingInvestigation(w.investigation));
        },
    };
    if case_version != plan.expected_investigation_version {
        return Err(
            InvestigationWorkError::StaleInvestigation {
                investigation: w.investigation,
                expected: plan.expected_investigation_version,
                found: case_version,
            },
        );
    }
    let advances: u32 = match (w.kind, plan.outcome) {
        (InvestigationWorkKind::EvidenceReview, InvestigationWorkOutcome::Developed) => 2,
        (InvestigationWorkKind::EvidenceReview, InvestigationWorkOutcome::Inconclusive) => 1,
        (InvestigationWorkKind::WitnessInterview, InvestigationWorkOutcome::Connected) => 3,
        (InvestigationWorkKind::WitnessInterview, InvestigationWorkOutcome::Inconclusive) => 1,
        _ => {
            return Err(InvestigationWorkError::StaleResolutionContext { work: plan.work });
        },
    };
    if case_version > u32::MAX - advances {
        return Err(InvestigationWorkError::VersionCapacity(VersionedRecord::Investigation));
    }
    match w.focus {
        InvestigationWorkFocus::Witness(cw) => {
            let rec = match state.legal.get_case_witness(cw) {
                Some(rec) => rec,
                None => {
                    return Err(InvestigationWorkError::InvalidFocus);
                },
            };
            if Some(rec.version) != plan.expected_case_witness_version {
                return Err(InvestigationWorkError::StaleResolutionContext { work: plan.work });
            }
            let witness_advances: u32 = if plan.outcome == InvestigationWorkOutcome::Connected {
                2
            } else {
                1
            };
            if rec.version > u32::MAX - witness_advances {
                return Err(InvestigationWorkError::VersionCapacity(VersionedRecord::CaseWitness));
            }
            if rec.interview_attempts == u8::MAX {
                return Err(InvestigationWorkError::WitnessInterviewAttemptCapacity { witness: cw });
            }
        },
        InvestigationWorkFocus::Evidence(_) => {
            if plan.expected_case_witness_version.is_some() {
                return Err(InvestigationWorkError::StaleResolutionContext { work: plan.work });
            }
        },
    }
    if state.now != plan.resolved_at {
        return Err(InvestigationWorkError::StaleResolutionTime { expected: plan.resolved_at, found: state.now });
    }
    Ok(w)
}

/// A resolution plan that still matches the state.
#[derive(Debug)]
pub struct ValidatedInvestigationWorkResolution {
    plan: InvestigationWorkResolutionPlan,
}

/// The reliability a review develops: one step up, at most highly reliable.
pub open spec fn improved_reliability(r: EvidenceReliability) -> EvidenceReliability {
    match r {
        EvidenceReliability::Questionable => EvidenceReliability::Mixed,
        EvidenceReliability::Mixed => EvidenceReliability::Credible,
        _ => EvidenceReliability::HighlyReliable,
    }
}

pub fn resolve_improved_evidence_reliability(r: EvidenceReliability) -> (out: EvidenceReliability)
    ensures
        out == improved_reliability(r),
{
    match r {
        EvidenceReliability::Questionable => EvidenceReliability::Mixed,
        EvidenceReliability::Mixed => EvidenceReliability::Credible,
        _ => EvidenceReliability::HighlyReliable,
    }
}

/// The forensic analysis a developed review derives from `src` under `id`.
pub open spec fn forensic_record(src: EvidenceRecord, owner: crate::base::OrganizationId, id: EvidenceId, at: SimTime) -> EvidenceRecord {
    EvidenceRecord {
        id,
        investigation: src.investigation,
        custodian: owner,
        subject: src.subject,
        origin: src.origin,
        source: None,
        derived_from: Some(src.id),
        kind: EvidenceKind::ForensicAnalysis,
        strength: src.strength,
        reliability: improved_reliability(src.reliability),
        admissibility: src.admissibility,
        discovered_at: at,
    }
}

/// The testimony a connected interview records under `id`: about the subject the witness was
/// registered for, sourced to the witness, strong when the margin reaches the authored
/// confidence bar.
pub open spec fn testimony_record(cw: CaseWitnessRecord, investigation: crate::base::InvestigationId, owner: crate::base::OrganizationId, id: EvidenceId, at: SimTime, margin: i16) -> EvidenceRecord {
    EvidenceRecord {
        id,
        investigation,
        custodian: owner,
        subject: cw.subject,
        origin: None,
        source: Some(EntityRef::Character(cw.witness)),
        derived_from: None,
        kind: EvidenceKind::WitnessTestimony,
        strength: if margin >= 20 {
            EvidenceStrength::Strong
        } else {
            EvidenceStrength::Corroborating
        },
        reliability: EvidenceReliability::Credible,
        admissibility: Admissibility::Unknown,
        discovered_at: at,
    }
}

/// The evidence a resolution of `w` under `plan` records, if any.
pub open spec fn produced_evidence(state: AppState, w: InvestigationWorkRecord, plan: InvestigationWorkResolutionPlan) -> Option<EvidenceRecord> {
    let id = EvidenceId((state.legal.evidence@.len() + 1) as u32);
    let owner = state.legal.spec_investigation(w.investigation)->0.owner;
    if plan.outcome == InvestigationWorkOutcome::Developed {
        Some(forensic_record(state.legal.spec_evidence(w.source_evidence->0)->0, owner, id, plan.resolved_at))
    } else if plan.outcome == InvestigationWorkOutcome::Connected {
        Some(testimony_record(state.legal.spec_case_witness(w.focus->Witness_0)->0, w.investigation, owner, id, plan.resolved_at, plan.margin))
    } else {
        None
    }
}

impl ValidatedInvestigationWorkResolution {
    pub closed spec fn spec_plan(&self) -> InvestigationWorkResolutionPlan {
        self.plan
    }

    pub open spec fn commit_error(&self, state: AppState) -> Option<InvestigationWorkError> {
        let plan = self.spec_plan();
        let w = state.legal.spec_work(plan.work)->0;
        if snapshot_error(state, plan) is Some {
            snapshot_error(state, plan)
        } else if plan.outcome == InvestigationWorkOutcome::Developed && (w.source_evidence is None
            || state.legal.spec_evidence(w.source_evidence->0) is None) {
            Some(InvestigationWorkError::StaleResolutionContext { work: plan.work })
        } else if plan.outcome == InvestigationWorkOutcome::Connected && !(w.focus is Witness) {
            Some(InvestigationWorkError::InvalidFocus)
        } else if plan.outcome != InvestigationWorkOutcome::Inconclusive && state.legal.evidence@.len() >= u32::MAX {
            Some(InvestigationWorkError::IdExhaustion(IdExhaustionError::Exhausted { kind: IdKind::Evidence }))
        } else {
            None
        }
    }

    /// Re-checks the plan, then records its outcome: a developed review files the forensic
    /// analysis, a connected interview files the witness's testimony and records the statement,
    /// an interview counts an attempt either way, and the work completes.
    #[verifier::rlimit(50)]
    pub fn commit(self, state: &mut AppState) -> (r: Result<InvestigationWorkId, InvestigationWorkError>)
        requires
            old(state).wf(),
        ensures
            final(state).wf(),
            match self.commit_error(*old(state)) {
                Some(e) => r == Err::<InvestigationWorkId, InvestigationWorkError>(e) && *final(state) == *old(state),
                None => {
                    let plan = self.spec_plan();
                    let w = old(state).legal.spec_work(plan.work)->0;
                    let produced = produced_evidence(*old(state), w, plan);
                    let before = old(state).legal.spec_investigation(w.investigation)->0;
                    let after = final(state).legal.spec_investigation(w.investigation)->0;
                    &&& r == Ok::<InvestigationWorkId, InvestigationWorkError>(plan.work)
                    &&& final(state).legal.work@ == old(state).legal.work@.update(
                        plan.work.0 - 1,
                        completed(
                            w,
                            InvestigationWorkResolution {
                                resolved_at: plan.resolved_at,
                                outcome: plan.outcome,
                                factors: plan.factors,
                                margin: plan.margin,
                                derived_evidence: match produced {
                                    Some(e) => Some(e.id),
                                    None => None,
                                },
                            },
                        ),
                    )
                    &&& final(state).legal.evidence@ == match produced {
                        Some(e) => old(state).legal.evidence@.push(e),
                        None => old(state).legal.evidence@,
                    }
                    &&& final(state).legal.case_witnesses@ == match w.focus {
                        InvestigationWorkFocus::Witness(cw) => if w.kind == InvestigationWorkKind::EvidenceReview {
                            old(state).legal.case_witnesses@
                        } else {
                            old(state).legal.case_witnesses@.update(
                            cw.0 - 1,
                            match produced {
                                Some(e) => with_statement(old(state).legal.case_witnesses@[cw.0 - 1], e.id),
                                None => attempted(old(state).legal.case_witnesses@[cw.0 - 1]),
                            },
                        )
                        },
                        InvestigationWorkFocus::Evidence(_) => old(state).legal.case_witnesses@,
                    }
                    &&& after.version == before.version + case_advances(w.kind, plan.outcome)->0
                    &&& after.last_activity_at == old(state).now
                    &&& after.status == before.status
                    &&& after.lead_investigator == before.lead_investigator
                    &&& after.subjects@ == match produced {
                        Some(e) => promoted_subjects(before.subjects@, e.subject, spec_actionable(e.strength, e.reliability, e.admissibility)),
                        None => before.subjects@,
                    }
                    &&& final(state).legal.arrests == old(state).legal.arrests
                    &&& final(state).legal.informants == old(state).legal.informants
                    &&& final(state).legal.disclosures == old(state).legal.disclosures
                    &&& final(state).world == old(state).world
                    &&& final(state).intelligence == old(state).intelligence
                    &&& final(state).now == old(state).now
                    &&& final(state).rng == old(state).rng
                },
            },
    {
        let plan = self.plan;
        let w = check_snapshot(state, &plan)?;
        if plan.outcome == InvestigationWorkOutcome::Developed {
            let present = match w.source_evidence {
                Some(e) => state.legal.get_evidence(e).is_some(),
                None => false,
            };
            if !present {
                return Err(InvestigationWorkError::StaleResolutionContext { work: plan.work });
            }
        }
        if plan.outcome == InvestigationWorkOutcome::Connected {
            if let InvestigationWorkFocus::Evidence(_) = w.focus {
                return Err(InvestigationWorkError::InvalidFocus);
            }
        }
        if plan.outcome != InvestigationWorkOutcome::Inconclusive && state.legal.evidence.len() >= u32::MAX as usize {
            return Err(InvestigationWorkError::IdExhaustion(IdExhaustionError::Exhausted { kind: IdKind::Evidence }));
        }
        let now = state.now;
        let inv_index = (w.investigation.0 - 1) as usize;
        let owner = state.legal.investigations[inv_index].owner;
        let mut derived: Option<EvidenceId> = None;
        let ghost w0 = state.legal.work@;
        proof {
            assert(state.legal.investigations@[inv_index as int].id == w.investigation);
        }
        if plan.outcome == InvestigationWorkOutcome::Developed {
            let source_id = w.source_evidence.unwrap();
            let src = state.legal.evidence[(source_id.0 - 1) as usize];
            let id = EvidenceId((state.legal.evidence.len() + 1) as u32);
            let reliability = resolve_improved_evidence_reliability(src.reliability);
            let actionable = crate::legal::investigation_system::evidence_assessment_is_actionable_case_lead(
                src.strength,
                reliability,
                src.admissibility,
            );
            state.legal.insert_evidence(
                EvidenceRecord {
                    id,
                    investigation: src.investigation,
                    custodian: owner,
                    subject: src.subject,
                    origin: src.origin,
                    source: None,
                    derived_from: Some(src.id),
                    kind: EvidenceKind::ForensicAnalysis,
                    strength: src.strength,
                    reliability,
                    admissibility: src.admissibility,
                    discovered_at: now,
                },
                actionable,
                now,
            );
            derived = Some(id);
        } else if plan.outcome == InvestigationWorkOutcome::Connected {
            let cw = match w.focus {
                InvestigationWorkFocus::Witness(cw) => cw,
                InvestigationWorkFocus::Evidence(_) => {
                    return Err(InvestigationWorkError::InvalidFocus);
                },
            };
            let rec = state.legal.case_witnesses[(cw.0 - 1) as usize];
            let id = EvidenceId((state.legal.evidence.len() + 1) as u32);
            let strength = if plan.margin >= 20 {
                EvidenceStrength::Strong
            } else {
                EvidenceStrength::Corroborating
            };
            let actionable = crate::legal::investigation_system::evidence_assessment_is_actionable_case_lead(
                strength,
                EvidenceReliability::Credible,
                Admissibility::Unknown,
            );
            state.legal.insert_evidence(
                EvidenceRecord {
                    id,
                    investigation: w.investigation,
                    custodian: owner,
                    subject: rec.subject,
                    origin: None,
                    source: Some(EntityRef::Character(rec.witness)),
                    derived_from: None,
                    kind: EvidenceKind::WitnessTestimony,
                    strength,
                    reliability: EvidenceReliability::Credible,
                    admissibility: Admissibility::Unknown,
                    discovered_at: now,
                },
                actionable,
                now,
            );
            state.legal.touch_investigation(inv_index, now);
            state.legal.record_witness_statement((cw.0 - 1) as usize, id);
            derived = Some(id);
        } else if w.kind == InvestigationWorkKind::WitnessInterview {
            if let InvestigationWorkFocus::Witness(cw) = w.focus {
                state.legal.record_witness_attempt((cw.0 - 1) as usize);
            }
        }
        state.legal.complete_work(
            (plan.work.0 - 1) as usize,
            InvestigationWorkResolution {
                resolved_at: plan.resolved_at,
                outcome: plan.outcome,
                factors: plan.factors,
                margin: plan.margin,
                derived_evidence: derived,
            },
        );
        state.legal.touch_investigation(inv_index, now);
        Ok(plan.work)
    }
}

fn check_context(registry: &Registry, state: &AppState, plan: &InvestigationWorkResolutionPlan, w: &InvestigationWorkRecord) -> (r: Result<(), InvestigationWorkError>)
    requires
        scores_valid(*registry),
        snapshot_error(*state, *plan) is None,
        *w == state.legal.spec_work(plan.work)->0,
    ensures
        match context_error(*registry, *state, *plan) {
            Some(e) => r == Err::<(), InvestigationWorkError>(e),
            None => r is Ok,
        },
{
    let def = registry.get_investigation_work(w.kind);
    let support = match support_score(&def, state, w) {
        Ok(s) => s,
        Err(_) => {
            return Err(InvestigationWorkError::InvalidFocus);
        },
    };
    let capability = match state.world.get_character(w.investigator) {
        Some(ch) => match ch.investigation {
            Some(cap) => cap,
            None => {
                return Err(InvestigationWorkError::MissingInvestigationCapability(w.investigator));
            },
        },
        None => {
            return Err(InvestigationWorkError::MissingInvestigator(w.investigator));
        },
    };
    let v = plan.factors.variance;
    let expected = InvestigationWorkFactors {
        investigation_capability: capability,
        source_support: Rating(support),
        difficulty: def.base_difficulty,
        variance: v,
    };
    let magnitude: u8 = if v < 0 {
        (-(v as i16)) as u8
    } else {
        v as u8
    };
    let margin = margin_of(&def, &plan.factors);
    let outcome = outcome_of(&def, w.kind, plan.margin);
    if plan.factors != expected || magnitude > def.variance_limit || plan.margin != margin || plan.outcome != outcome {
        return Err(InvestigationWorkError::StaleResolutionContext { work: plan.work });
    }
    if plan.outcome == InvestigationWorkOutcome::Developed {
        let ok = match w.source_evidence {
            Some(e) => state.legal.get_evidence(e).is_some(),
            None => false,
        };
        if !ok {
            return Err(InvestigationWorkError::StaleResolutionContext { work: plan.work });
        }
    }
    if plan.outcome != InvestigationWorkOutcome::Inconclusive && state.legal.evidence.len() >= u32::MAX as usize {
        return Err(InvestigationWorkError::IdExhaustion(IdExhaustionError::Exhausted { kind: IdKind::Evidence }));
    }
    Ok(())
}

/// Validates that a decided plan still matches the state and the authored rules.
pub fn validate_investigation_work_resolution_plan(registry: &Registry, state: &AppState, plan: InvestigationWorkResolutionPlan) -> (r: Result<ValidatedInvestigationWorkResolution, InvestigationWorkError>)
    requires
        scores_valid(*registry),
    ensures
        match snapshot_error(*state, plan) {
            Some(e) => r matches Err(x) && x == e,
            None => match context_error(*registry, *state, plan) {
                Some(e) => r matches Err(x) && x == e,
                None => r matches Ok(t) && t.spec_plan() == plan,
            },
        },
{
    let w = check_snapshot(state, &plan)?;
    check_context(registry, state, &plan, &w)?;
    Ok(ValidatedInvestigationWorkResolution { plan })
}

} // verus!
