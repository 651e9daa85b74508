//! Detective work: scheduling an evidence review or a witness interview for a case's lead, and
//! (in `resolution`) resolving it when it falls due.

use vstd::prelude::*;
pub use crate::base::VersionedRecord;
use crate::base::{IdExhaustionError, IdKind};
use crate::base::{
    ArrestId, CaseWitnessId, CharacterId, EntityRef, EvidenceId, InvestigationId,
    InvestigationWorkId, SimTime,
};
use crate::legal::store::touched;
use crate::legal::{
    focus_fits_kind, InvestigationStatus, InvestigationWorkFocus, InvestigationWorkKind, InvestigationWorkRecord,
    InvestigationWorkStatus,
};
use crate::registry::Registry;
use crate::state::AppState;

pub mod autonomous_scheduling;
pub mod detention_cancellation;
pub mod resolution;

verus! {

/// Why detective work could not be scheduled or resolved.
#[allow(inconsistent_fields)]
#[derive(Clone, Copy, Debug, PartialEq, Eq, Structural)]
pub enum InvestigationWorkError {
    MissingInvestigation(InvestigationId),
    InactiveInvestigation(InvestigationId),
    MissingInvestigator(CharacterId),
    InvestigatorNotAssigned { investigation: InvestigationId, investigator: CharacterId },
    DetainedInvestigator { investigator: CharacterId, arrest: ArrestId },
    MissingInvestigationCapability(CharacterId),
    InvalidFocus,
    WitnessAlreadyStatemented { witness: CaseWitnessId },
    WitnessIsCaseSubject { witness: CaseWitnessId, character: CharacterId },
    WitnessInterviewLimitReached { witness: CaseWitnessId, attempts: u8, limit: u8 },
    EvidenceAlreadyReviewed { evidence: EvidenceId, derived: EvidenceId },
    EvidenceReviewAlreadyAttempted { evidence: EvidenceId, work: InvestigationWorkId },
    DuplicateScheduledWork { work: InvestigationWorkId },
    InvestigatorBusy { investigator: CharacterId, work: InvestigationWorkId },
    StaleInvestigation { investigation: InvestigationId, expected: u32, found: u32 },
    StaleInvestigator { investigator: CharacterId, expected: u32, found: u32 },
    MissingWork(InvestigationWorkId),
    WorkNotScheduled(InvestigationWorkId),
    WorkNotDue { work: InvestigationWorkId, due_at: SimTime },
    StaleWork { work: InvestigationWorkId, expected: u32, found: u32 },
    StaleResolutionContext { work: InvestigationWorkId },
    StaleResolutionTime { expected: SimTime, found: SimTime },
    VarianceOutOfRange { variance: i8, limit: u8 },
    SimulationTimeOverflow,
    InvalidSourceEvidence(EvidenceId),
    WitnessInterviewAttemptCapacity { witness: CaseWitnessId },
    IdExhaustion(IdExhaustionError),
    VersionCapacity(VersionedRecord),
}

/// Work a case's lead wants to schedule.
#[derive(Clone, Copy, Debug, PartialEq, Eq, Structural)]
pub struct InvestigationWorkDraft {
    pub investigation: InvestigationId,
    pub investigator: CharacterId,
    pub kind: InvestigationWorkKind,
    pub focus: InvestigationWorkFocus,
}

/// The first reason `investigator` cannot work `investigation` now: the case must be active and
/// led by them, and they must be free, a member of its authority, and able to investigate.
pub open spec fn case_work_error(state: AppState, investigation: InvestigationId, investigator: CharacterId) -> Option<InvestigationWorkError> {
    match state.legal.spec_investigation(investigation) {
        None => Some(InvestigationWorkError::MissingInvestigation(investigation)),
        Some(rec) => if rec.status != InvestigationStatus::Active {
            Some(InvestigationWorkError::InactiveInvestigation(investigation))
        } else {
            match state.world.spec_character(investigator) {
                None => Some(InvestigationWorkError::MissingInvestigator(investigator)),
                Some(ch) => if rec.lead_investigator != Some(investigator) {
                    Some(InvestigationWorkError::InvestigatorNotAssigned { investigation, investigator })
                } else if state.legal.spec_active_arrest_for(investigator) is Some {
                    Some(
                        InvestigationWorkError::DetainedInvestigator {
                            investigator,
                            arrest: state.legal.spec_active_arrest_for(investigator)->0,
                        },
                    )
                } else if ch.organization != Some(rec.owner) {
                    Some(InvestigationWorkError::InvestigatorNotAssigned { investigation, investigator })
                } else if ch.investigation is None {
                    Some(InvestigationWorkError::MissingInvestigationCapability(investigator))
                } else {
                    None
                },
            }
        },
    }
}

pub fn validate_case_and_investigator(state: &AppState, investigation: InvestigationId, investigator: CharacterId) -> (r: Result<(), InvestigationWorkError>)
    ensures
        match case_work_error(*state, investigation, investigator) {
            Some(e) => r == Err::<(), InvestigationWorkError>(e),
            None => r is Ok,
        },
{
    let rec = match state.legal.get_investigation(investigation) {
        Some(rec) => rec,
        None => {
            return Err(InvestigationWorkError::MissingInvestigation(investigation));
        },
    };
    if rec.status != InvestigationStatus::Active {
        return Err(InvestigationWorkError::InactiveInvestigation(investigation));
    }
    let ch = match state.world.get_character(investigator) {
        Some(ch) => ch,
        None => {
            return Err(InvestigationWorkError::MissingInvestigator(investigator));
        },
    };
    if rec.lead_investigator != Some(investigator) {
        return Err(InvestigationWorkError::InvestigatorNotAssigned { investigation, investigator });
    }
    if let Some(arrest) = state.legal.active_arrest_for_character(investigator) {
        return Err(InvestigationWorkError::DetainedInvestigator { investigator, arrest });
    }
    if ch.organization != Some(rec.owner) {
        return Err(InvestigationWorkError::InvestigatorNotAssigned { investigation, investigator });
    }
    if ch.investigation.is_none() {
        return Err(InvestigationWorkError::MissingInvestigationCapability(investigator));
    }
    Ok(())
}

/// The first reason the focus cannot be worked: a review needs a reviewable record of the case
/// that was never developed nor attempted; an interview needs a registered witness of the case
/// who is not a case subject, gave no statement yet, and has interview attempts left.
pub open spec fn focus_error(state: AppState, limit: u8, d: InvestigationWorkDraft) -> Option<InvestigationWorkError> {
    match d.kind {
        InvestigationWorkKind::EvidenceReview => match d.focus {
            InvestigationWorkFocus::Witness(_) => Some(InvestigationWorkError::InvalidFocus),
            InvestigationWorkFocus::Evidence(e) => match state.legal.spec_evidence(e) {
                None => Some(InvestigationWorkError::InvalidSourceEvidence(e)),
                Some(rec) => if rec.investigation != d.investigation {
                    Some(InvestigationWorkError::InvalidSourceEvidence(e))
                } else if !rec.kind.spec_is_reviewable() {
                    Some(InvestigationWorkError::InvalidFocus)
                } else if state.legal.spec_forensic_from(e) is Some {
                    Some(
                        InvestigationWorkError::EvidenceAlreadyReviewed {
                            evidence: e,
                            derived: state.legal.spec_forensic_from(e)->0,
                        },
                    )
                } else if state.legal.spec_review_attempt(e) is Some {
                    Some(
                        InvestigationWorkError::EvidenceReviewAlreadyAttempted {
                            evidence: e,
                            work: state.legal.spec_review_attempt(e)->0,
                        },
                    )
                } else {
                    None
                },
            },
        },
        InvestigationWorkKind::WitnessInterview => match d.focus {
            InvestigationWorkFocus::Evidence(_) => Some(InvestigationWorkError::InvalidFocus),
            InvestigationWorkFocus::Witness(w) => match state.legal.spec_case_witness(w) {
                None => Some(InvestigationWorkError::InvalidFocus),
                Some(rec) => if rec.investigation != d.investigation {
                    Some(InvestigationWorkError::InvalidFocus)
                } else if state.legal.spec_investigation(d.investigation)->0.subjects@.contains(
                    EntityRef::Character(rec.witness),
                ) {
                    Some(InvestigationWorkError::WitnessIsCaseSubject { witness: w, character: rec.witness })
                } else if rec.statement is Some {
                    Some(InvestigationWorkError::WitnessAlreadyStatemented { witness: w })
                } else if rec.interview_attempts >= limit {
                    Some(
                        InvestigationWorkError::WitnessInterviewLimitReached {
                            witness: w,
                            attempts: rec.interview_attempts,
                            limit,
                        },
                    )
                } else {
                    None
                },
            },
        },
    }
}

fn validate_focus(state: &AppState, limit: u8, d: &InvestigationWorkDraft) -> (r: Result<(), InvestigationWorkError>)
    requires
        state.legal.spec_investigation(d.investigation) is Some,
    ensures
        match focus_error(*state, limit, *d) {
            Some(e) => r == Err::<(), InvestigationWorkError>(e),
            None => r is Ok,
        },
{
    match d.kind {
        InvestigationWorkKind::EvidenceReview => match d.focus {
            InvestigationWorkFocus::Witness(_) => Err(InvestigationWorkError::InvalidFocus),
            InvestigationWorkFocus::Evidence(e) => {
                let rec = match state.legal.get_evidence(e) {
                    Some(rec) => rec,
                    None => {
                        return Err(InvestigationWorkError::InvalidSourceEvidence(e));
                    },
                };
                if rec.investigation != d.investigation {
                    return Err(InvestigationWorkError::InvalidSourceEvidence(e));
                }
                if !rec.kind.is_reviewable() {
                    return Err(InvestigationWorkError::InvalidFocus);
                }
                if let Some(derived) = state.legal.forensic_analysis_of(e) {
                    return Err(InvestigationWorkError::EvidenceAlreadyReviewed { evidence: e, derived });
                }
                if let Some(work) = state.legal.evidence_review_attempt(e) {
                    return Err(InvestigationWorkError::EvidenceReviewAlreadyAttempted { evidence: e, work });
                }
                Ok(())
            },
        },
        InvestigationWorkKind::WitnessInterview => match d.focus {
            InvestigationWorkFocus::Evidence(_) => Err(InvestigationWorkError::InvalidFocus),
            InvestigationWorkFocus::Witness(w) => {
                let rec = match state.legal.get_case_witness(w) {
                    Some(rec) => rec,
                    None => {
                        return Err(InvestigationWorkError::InvalidFocus);
                    },
                };
                if rec.investigation != d.investigation {
                    return Err(InvestigationWorkError::InvalidFocus);
                }
                let subject_conflict = match state.legal.get_investigation(d.investigation) {
                    Some(inv) => crate::base::entity_vec_contains(&inv.subjects, EntityRef::Character(rec.witness)),
                    None => false,
                };
                if subject_conflict {
                    return Err(InvestigationWorkError::WitnessIsCaseSubject { witness: w, character: rec.witness });
                }
                if rec.statement.is_some() {
                    return Err(InvestigationWorkError::WitnessAlreadyStatemented { witness: w });
                }
                if rec.interview_attempts >= limit {
                    return Err(
                        InvestigationWorkError::WitnessInterviewLimitReached {
                            witness: w,
                            attempts: rec.interview_attempts,
                            limit,
                        },
                    );
                }
                Ok(())
            },
        },
    }
}

/// Revisions a newly scheduled piece of work may need from its case, counting the schedule
/// itself.
pub open spec fn lifecycle_advances(kind: InvestigationWorkKind) -> int {
    match kind {
        InvestigationWorkKind::EvidenceReview => 3,
        InvestigationWorkKind::WitnessInterview => 4,
    }
}

/// The record whose version could not take every authored resolution branch of the work: the
/// case first, then an interviewed witness, who may advance twice.
pub open spec fn lifecycle_capacity_error(state: AppState, d: InvestigationWorkDraft) -> Option<InvestigationWorkError> {
    if state.legal.spec_investigation(d.investigation)->0.version + lifecycle_advances(d.kind) > u32::MAX {
        Some(InvestigationWorkError::VersionCapacity(VersionedRecord::Investigation))
    } else if d.kind == InvestigationWorkKind::WitnessInterview && state.legal.spec_case_witness(
        d.focus->Witness_0,
    )->0.version + 2 > u32::MAX {
        Some(InvestigationWorkError::VersionCapacity(VersionedRecord::CaseWitness))
    } else {
        None
    }
}

fn ensure_lifecycle_capacity(state: &AppState, d: &InvestigationWorkDraft) -> (r: Result<(), InvestigationWorkError>)
    requires
        state.legal.spec_investigation(d.investigation) is Some,
        d.kind == InvestigationWorkKind::WitnessInterview ==> (d.focus is Witness
            && state.legal.spec_case_witness(d.focus->Witness_0) is Some),
    ensures
        match lifecycle_capacity_error(*state, *d) {
            Some(e) => r == Err::<(), InvestigationWorkError>(e),
            None => r is Ok,
        },
{
    let version = match state.legal.get_investigation(d.investigation) {
        Some(rec) => rec.version,
        None => {
            return Err(InvestigationWorkError::VersionCapacity(VersionedRecord::Investigation));
        },
    };
    let advances: u32 = match d.kind {
        InvestigationWorkKind::EvidenceReview => 3,
        InvestigationWorkKind::WitnessInterview => 4,
    };
    if version > u32::MAX - advances {
        return Err(InvestigationWorkError::VersionCapacity(VersionedRecord::Investigation));
    }
    if let InvestigationWorkFocus::Witness(w) = d.focus {
        if d.kind == InvestigationWorkKind::WitnessInterview {
            match state.legal.get_case_witness(w) {
                Some(rec) => {
                    if rec.version > u32::MAX - 2 {
                        return Err(InvestigationWorkError::VersionCapacity(VersionedRecord::CaseWitness));
                    }
                },
                None => {
                    return Err(InvestigationWorkError::VersionCapacity(VersionedRecord::CaseWitness));
                },
            }
        }
    }
    Ok(())
}

/// The first reason the work cannot be scheduled, in the order the checks run.
pub open spec fn schedule_error(registry: Registry, state: AppState, d: InvestigationWorkDraft) -> Option<InvestigationWorkError> {
    if case_work_error(state, d.investigation, d.investigator) is Some {
        case_work_error(state, d.investigation, d.investigator)
    } else if state.legal.spec_scheduled_work_for_focus(d.investigation, d.kind, d.focus) is Some {
        Some(
            InvestigationWorkError::DuplicateScheduledWork {
                work: state.legal.spec_scheduled_work_for_focus(d.investigation, d.kind, d.focus)->0,
            },
        )
    } else if state.legal.spec_scheduled_work_for(d.investigator) is Some {
        Some(
            InvestigationWorkError::InvestigatorBusy {
                investigator: d.investigator,
                work: state.legal.spec_scheduled_work_for(d.investigator)->0,
            },
        )
    } else if focus_error(state, registry.legal.witness_interview_attempt_limit, d) is Some {
        focus_error(state, registry.legal.witness_interview_attempt_limit, d)
    } else if lifecycle_capacity_error(state, d) is Some {
        lifecycle_capacity_error(state, d)
    } else if state.now.0 + registry.spec_work(d.kind).duration.0 > u64::MAX {
        Some(InvestigationWorkError::SimulationTimeOverflow)
    } else {
        None
    }
}

/// Scheduling that passed validation, pinned to the case and investigator versions.
#[derive(Debug)]
pub struct ValidatedInvestigationWorkSchedule {
    draft: InvestigationWorkDraft,
    expected_investigation_version: u32,
    expected_investigator_version: u32,
    duration_minutes: u32,
}

/// The work record a schedule creates under `id`, due `duration` minutes after `now`.
pub open spec fn scheduled_record(d: InvestigationWorkDraft, id: InvestigationWorkId, now: SimTime, duration: u32) -> InvestigationWorkRecord {
    InvestigationWorkRecord {
        id,
        investigation: d.investigation,
        investigator: d.investigator,
        kind: d.kind,
        focus: d.focus,
        source_evidence: match d.kind {
            InvestigationWorkKind::EvidenceReview => d.focus.spec_evidence_id(),
            InvestigationWorkKind::WitnessInterview => None,
        },
        scheduled_at: now,
        due_at: SimTime((now.0 + duration) as u64),
        status: InvestigationWorkStatus::Scheduled,
        resolution: None,
        cancellation: None,
        version: 1,
    }
}

impl ValidatedInvestigationWorkSchedule {
    pub closed spec fn spec_draft(&self) -> InvestigationWorkDraft {
        self.draft
    }

    pub closed spec fn spec_investigation_version(&self) -> u32 {
        self.expected_investigation_version
    }

    pub closed spec fn spec_investigator_version(&self) -> u32 {
        self.expected_investigator_version
    }

    pub closed spec fn spec_duration(&self) -> u32 {
        self.duration_minutes
    }

    /// The first reason the work cannot be scheduled now.
    pub open spec fn commit_error(&self, state: AppState) -> Option<InvestigationWorkError> {
        let d = self.spec_draft();
        match state.legal.spec_investigation(d.investigation) {
            None => Some(InvestigationWorkError::MissingInvestigation(d.investigation)),
            Some(rec) => if rec.version != self.spec_investigation_version() {
                Some(
                    InvestigationWorkError::StaleInvestigation {
                        investigation: d.investigation,
                        expected: self.spec_investigation_version(),
                        found: rec.version,
                    },
                )
            } else if !focus_fits_kind(d.kind, d.focus) || (d.kind == InvestigationWorkKind::WitnessInterview
                && state.legal.spec_case_witness(d.focus->Witness_0) is None) {
                Some(InvestigationWorkError::InvalidFocus)
            } else if lifecycle_capacity_error(state, d) is Some {
                lifecycle_capacity_error(state, d)
            } else if state.world.spec_character(d.investigator) is None {
                Some(InvestigationWorkError::MissingInvestigator(d.investigator))
            } else if state.world.spec_character(d.investigator)->0.version
                != self.spec_investigator_version() {
                Some(
                    InvestigationWorkError::StaleInvestigator {
                        investigator: d.investigator,
                        expected: self.spec_investigator_version(),
                        found: state.world.spec_character(d.investigator)->0.version,
                    },
                )
            } else if case_work_error(state, d.investigation, d.investigator) is Some {
                case_work_error(state, d.investigation, d.investigator)
            } else if state.legal.spec_scheduled_work_for_focus(d.investigation, d.kind, d.focus) is Some {
                Some(
                    InvestigationWorkError::DuplicateScheduledWork {
                        work: state.legal.spec_scheduled_work_for_focus(d.investigation, d.kind, d.focus)->0,
                    },
                )
            } else if state.legal.spec_scheduled_work_for(d.investigator) is Some {
                Some(
                    InvestigationWorkError::InvestigatorBusy {
                        investigator: d.investigator,
                        work: state.legal.spec_scheduled_work_for(d.investigator)->0,
                    },
                )
            } else if state.now.0 + self.spec_duration() > u64::MAX {
                Some(InvestigationWorkError::SimulationTimeOverflow)
            } else if state.legal.work@.len() >= u32::MAX {
                Some(InvestigationWorkError::IdExhaustion(IdExhaustionError::Exhausted { kind: IdKind::InvestigationWork }))
            } else {
                None
            },
        }
    }

    /// Re-checks the versions and relations it depends on, then schedules the work now; the
    /// case is revised.
    pub fn commit(self, state: &mut AppState) -> (r: Result<InvestigationWorkId, InvestigationWorkError>)
        requires
            old(state).wf(),
        ensures
            final(state).wf(),
            match self.commit_error(*old(state)) {
                Some(e) => r == Err::<InvestigationWorkId, InvestigationWorkError>(e) && *final(state) == *old(state),
                None => {
                    let id = InvestigationWorkId((old(state).legal.work@.len() + 1) as u32);
                    let inv = self.spec_draft().investigation;
                    &&& r == Ok::<InvestigationWorkId, InvestigationWorkError>(id)
                    &&& final(state).legal.work@ == old(state).legal.work@.push(
                        scheduled_record(self.spec_draft(), id, old(state).now, self.spec_duration()),
                    )
                    &&& final(state).legal.investigations@ == old(state).legal.investigations@.update(
                        inv.0 - 1,
                        touched(old(state).legal.investigations@[inv.0 - 1], old(state).now),
                    )
                    &&& final(state).legal.evidence == old(state).legal.evidence
                    &&& final(state).legal.arrests == old(state).legal.arrests
                    &&& final(state).legal.case_witnesses == old(state).legal.case_witnesses
                    &&& final(state).legal.informants == old(state).legal.informants
                    &&& final(state).legal.disclosures == old(state).legal.disclosures
                    &&& final(state).world == old(state).world
                    &&& final(state).intelligence == old(state).intelligence
                    &&& final(state).now == old(state).now
                    &&& final(state).rng == old(state).rng
                },
            },
    {
        let d = self.draft;
        let version = match state.legal.get_investigation(d.investigation) {
            Some(rec) => rec.version,
            None => {
                return Err(InvestigationWorkError::MissingInvestigation(d.investigation));
            },
        };
        if version != self.expected_investigation_version {
            return Err(
                InvestigationWorkError::StaleInvestigation {
                    investigation: d.investigation,
                    expected: self.expected_investigation_version,
                    found: version,
                },
            );
        }
        let focus_ok = match (d.kind, d.focus) {
            (InvestigationWorkKind::EvidenceReview, InvestigationWorkFocus::Evidence(_)) => true,
            (InvestigationWorkKind::WitnessInterview, InvestigationWorkFocus::Witness(w)) => state.legal.get_case_witness(
                w,
            ).is_some(),
            _ => false,
        };
        if !focus_ok {
            return Err(InvestigationWorkError::InvalidFocus);
        }
        ensure_lifecycle_capacity(state, &d)?;
        let ch_version = match state.world.get_character(d.investigator) {
            Some(ch) => ch.version,
            None => {
                return Err(InvestigationWorkError::MissingInvestigator(d.investigator));
            },
        };
        if ch_version != self.expected_investigator_version {
            return Err(
                InvestigationWorkError::StaleInvestigator {
                    investigator: d.investigator,
                    expected: self.expected_investigator_version,
                    found: ch_version,
                },
            );
        }
        validate_case_and_investigator(state, d.investigation, d.investigator)?;
        if let Some(work) = state.legal.scheduled_work_for_focus(d.investigation, d.kind, d.focus) {
            return Err(InvestigationWorkError::DuplicateScheduledWork { work });
        }
        if let Some(work) = state.legal.scheduled_work_for_investigator(d.investigator) {
            return Err(InvestigationWorkError::InvestigatorBusy { investigator: d.investigator, work });
        }
        proof {
            crate::seqs::lemma_first_index_props(state.legal.work@, crate::legal::scheduled_for_investigator(d.investigator));
        }
        let now = state.now;
        if now.0 > u64::MAX - self.duration_minutes as u64 {
            return Err(InvestigationWorkError::SimulationTimeOverflow);
        }
        let len = state.legal.work.len();
        if len >= u32::MAX as usize {
            return Err(InvestigationWorkError::IdExhaustion(IdExhaustionError::Exhausted { kind: IdKind::InvestigationWork }));
        }
        let id = InvestigationWorkId((len + 1) as u32);
        let source_evidence = match d.kind {
            InvestigationWorkKind::EvidenceReview => d.focus.evidence_id(),
            InvestigationWorkKind::WitnessInterview => None,
        };
        state.legal.touch_investigation((d.investigation.0 - 1) as usize, now);
        state.legal.work.push(
            InvestigationWorkRecord {
                id,
                investigation: d.investigation,
                investigator: d.investigator,
                kind: d.kind,
                focus: d.focus,
                source_evidence,
                scheduled_at: now,
                due_at: SimTime(now.0 + self.duration_minutes as u64),
                status: InvestigationWorkStatus::Scheduled,
                resolution: None,
                cancellation: None,
                version: 1,
            },
        );
        Ok(id)
    }
}

/// What a scheduling token validated against `state` holds: the draft, the versions of the case
/// and of the investigator, and the authored duration of its kind of work.
pub open spec fn schedule_validated(registry: Registry, state: AppState, d: InvestigationWorkDraft, t: ValidatedInvestigationWorkSchedule) -> bool {
    &&& t.spec_draft() == d
    &&& t.spec_investigation_version() == state.legal.spec_investigation(d.investigation)->0.version
    &&& t.spec_investigator_version() == state.world.spec_character(d.investigator)->0.version
    &&& t.spec_duration() == registry.spec_work(d.kind).duration.0
}

/// Scheduling that validated against a state commits on that same state, as long as a work
/// identifier is left.
pub proof fn law_validated_schedule_commits(registry: Registry, state: AppState, d: InvestigationWorkDraft, t: ValidatedInvestigationWorkSchedule)
    requires
        state.wf(),
        schedule_error(registry, state, d) is None,
        schedule_validated(registry, state, d, t),
        state.legal.work@.len() < u32::MAX,
    ensures
        t.commit_error(state) is None,
{
}

/// Validates scheduling detective work for a case's lead.
pub fn validate_schedule_investigation_work(registry: &Registry, state: &AppState, draft: InvestigationWorkDraft) -> (r: Result<ValidatedInvestigationWorkSchedule, InvestigationWorkError>)
    ensures
        match schedule_error(*registry, *state, draft) {
            Some(e) => r == Err::<ValidatedInvestigationWorkSchedule, InvestigationWorkError>(e),
            None => r matches Ok(t) && schedule_validated(*registry, *state, draft, t),
        },
{
    validate_case_and_investigator(state, draft.investigation, draft.investigator)?;
    if let Some(work) = state.legal.scheduled_work_for_focus(draft.investigation, draft.kind, draft.focus) {
        return Err(InvestigationWorkError::DuplicateScheduledWork { work });
    }
    if let Some(work) = state.legal.scheduled_work_for_investigator(draft.investigator) {
        return Err(InvestigationWorkError::InvestigatorBusy { investigator: draft.investigator, work });
    }
    validate_focus(state, registry.legal().witness_interview_attempt_limit(), &draft)?;
    ensure_lifecycle_capacity(state, &draft)?;
    let duration = registry.get_investigation_work(draft.kind).duration();
    if state.now.0 > u64::MAX - duration.0 as u64 {
        return Err(InvestigationWorkError::SimulationTimeOverflow);
    }
    let version = match state.legal.get_investigation(draft.investigation) {
        Some(rec) => rec.version,
        None => {
            return Err(InvestigationWorkError::MissingInvestigation(draft.investigation));
        },
    };
    let ch_version = match state.world.get_character(draft.investigator) {
        Some(ch) => ch.version,
        None => {
            return Err(InvestigationWorkError::MissingInvestigator(draft.investigator));
        },
    };
    Ok(
        ValidatedInvestigationWorkSchedule {
            draft,
            expected_investigation_version: version,
            expected_investigator_version: ch_version,
            duration_minutes: duration.0,
        },
    )
}

} // verus!
