//! Registration of named witnesses with a case.

use vstd::prelude::*;
use crate::base::VersionedRecord;
use crate::base::{IdExhaustionError, IdKind};
use crate::base::{CaseWitnessId, CharacterId, EntityRef, InvestigationId};
use crate::legal::store::touched;
use crate::legal::{CaseWitnessRecord, InvestigationStatus, WitnessCooperation};
use crate::state::AppState;

verus! {

/// Why a witness could not be registered or updated.
#[derive(Clone, Copy, Debug, PartialEq, Eq, Structural)]
pub enum WitnessError {
    MissingInvestigation(InvestigationId),
    InactiveInvestigation(InvestigationId),
    MissingCharacter(CharacterId),
    MissingEntity(EntityRef),
    WitnessIsCaseSubject { investigation: InvestigationId, witness: CharacterId },
    WitnessIsLeadInvestigator { investigation: InvestigationId, witness: CharacterId },
    DuplicateWitness { investigation: InvestigationId, witness: CharacterId, existing: CaseWitnessId },
    VersionCapacity(VersionedRecord),
    IdExhaustion(IdExhaustionError),
    MissingCaseWitness(CaseWitnessId),
    StaleCaseWitness { case_witness: CaseWitnessId, expected: u32, found: u32 },
}

/// A person a case wants to register as able to testify about `subject`.
#[derive(Clone, Copy, Debug, PartialEq, Eq, Structural)]
pub struct CaseWitnessDraft {
    pub investigation: InvestigationId,
    pub witness: CharacterId,
    pub subject: EntityRef,
    pub cooperation: WitnessCooperation,
}

/// The first reason the registration is refused.
pub open spec fn registration_error(state: AppState, d: CaseWitnessDraft) -> Option<WitnessError> {
    match state.legal.spec_investigation(d.investigation) {
        None => Some(WitnessError::MissingInvestigation(d.investigation)),
        Some(rec) => if rec.status != InvestigationStatus::Active {
            Some(WitnessError::InactiveInvestigation(d.investigation))
        } else if !state.world.character_present(d.witness) {
            Some(WitnessError::MissingCharacter(d.witness))
        } else if !state.entity_present(d.subject) {
            Some(WitnessError::MissingEntity(d.subject))
        } else if rec.subjects@.contains(EntityRef::Character(d.witness)) {
            Some(WitnessError::WitnessIsCaseSubject { investigation: d.investigation, witness: d.witness })
        } else if rec.lead_investigator == Some(d.witness) {
            Some(WitnessError::WitnessIsLeadInvestigator { investigation: d.investigation, witness: d.witness })
        } else if state.legal.spec_case_witness_for(d.investigation, d.witness) is Some {
            Some(
                WitnessError::DuplicateWitness {
                    investigation: d.investigation,
                    witness: d.witness,
                    existing: state.legal.spec_case_witness_for(d.investigation, d.witness)->0,
                },
            )
        } else if rec.version == u32::MAX {
            Some(WitnessError::VersionCapacity(VersionedRecord::Investigation))
        } else {
            None
        },
    }
}

fn check_registration(state: &AppState, d: &CaseWitnessDraft) -> (r: Result<(), WitnessError>)
    ensures
        match registration_error(*state, *d) {
            Some(e) => r == Err::<(), WitnessError>(e),
            None => r is Ok,
        },
{
    let rec = match state.legal.get_investigation(d.investigation) {
        Some(rec) => rec,
        None => {
            return Err(WitnessError::MissingInvestigation(d.investigation));
        },
    };
    if rec.status != InvestigationStatus::Active {
        return Err(WitnessError::InactiveInvestigation(d.investigation));
    }
    if state.world.get_character(d.witness).is_none() {
        return Err(WitnessError::MissingCharacter(d.witness));
    }
    if !state.is_entity_present(d.subject) {
        return Err(WitnessError::MissingEntity(d.subject));
    }
    if crate::base::entity_vec_contains(&rec.subjects, EntityRef::Character(d.witness)) {
        return Err(WitnessError::WitnessIsCaseSubject { investigation: d.investigation, witness: d.witness });
    }
    if rec.lead_investigator == Some(d.witness) {
        return Err(WitnessError::WitnessIsLeadInvestigator { investigation: d.investigation, witness: d.witness });
    }
    if let Some(existing) = state.legal.case_witness_for(d.investigation, d.witness) {
        return Err(WitnessError::DuplicateWitness { investigation: d.investigation, witness: d.witness, existing });
    }
    if rec.version == u32::MAX {
        return Err(WitnessError::VersionCapacity(VersionedRecord::Investigation));
    }
    Ok(())
}

/// A registration that passed validation.
#[derive(Debug)]
pub struct ValidatedCaseWitness {
    draft: CaseWitnessDraft,
}

/// The record a registration creates under `id` at `now`.
pub open spec fn registered_witness(d: CaseWitnessDraft, id: CaseWitnessId, now: crate::base::SimTime) -> CaseWitnessRecord {
    CaseWitnessRecord {
        id,
        investigation: d.investigation,
        witness: d.witness,
        subject: d.subject,
        cooperation: d.cooperation,
        registered_at: now,
        statement: None,
        interview_attempts: 0,
        version: 1,
    }
}

impl ValidatedCaseWitness {
    pub closed spec fn spec_draft(&self) -> CaseWitnessDraft {
        self.draft
    }

    /// Re-validates and registers the witness now; the case is revised.
    pub fn commit(self, state: &mut AppState) -> (r: Result<CaseWitnessId, WitnessError>)
        requires
            old(state).wf(),
        ensures
            final(state).wf(),
            match registration_error(*old(state), self.spec_draft()) {
                Some(e) => r == Err::<CaseWitnessId, WitnessError>(e) && *final(state) == *old(state),
                None => if old(state).legal.case_witnesses@.len() >= u32::MAX {
                    r == Err::<CaseWitnessId, WitnessError>(WitnessError::IdExhaustion(IdExhaustionError::Exhausted { kind: IdKind::CaseWitness })) && *final(state)
                        == *old(state)
                } else {
                    let id = CaseWitnessId((old(state).legal.case_witnesses@.len() + 1) as u32);
                    let inv = self.spec_draft().investigation;
                    &&& r == Ok::<CaseWitnessId, WitnessError>(id)
                    &&& final(state).legal.case_witnesses@ == old(state).legal.case_witnesses@.push(
                        registered_witness(self.spec_draft(), id, old(state).now),
                    )
                    &&& final(state).legal.investigations@ == old(state).legal.investigations@.update(
                        inv.0 - 1,
                        touched(old(state).legal.investigations@[inv.0 - 1], old(state).now),
                    )
                    &&& final(state).legal.evidence == old(state).legal.evidence
                    &&& final(state).legal.arrests == old(state).legal.arrests
                    &&& final(state).legal.informants == old(state).legal.informants
                    &&& final(state).legal.disclosures == old(state).legal.disclosures
                    &&& final(state).legal.work == old(state).legal.work
                    &&& final(state).world == old(state).world
                    &&& final(state).intelligence == old(state).intelligence
                    &&& final(state).now == old(state).now
                    &&& final(state).rng == old(state).rng
                },
            },
    {
        let d = self.draft;
        check_registration(state, &d)?;
        let len = state.legal.case_witnesses.len();
        if len >= u32::MAX as usize {
            return Err(WitnessError::IdExhaustion(IdExhaustionError::Exhausted { kind: IdKind::CaseWitness }));
        }
        let id = CaseWitnessId((len + 1) as u32);
        let now = state.now;
        state.legal.touch_investigation((d.investigation.0 - 1) as usize, now);
        state.legal.case_witnesses.push(
            CaseWitnessRecord {
                id,
                investigation: d.investigation,
                witness: d.witness,
                subject: d.subject,
                cooperation: d.cooperation,
                registered_at: now,
                statement: None,
                interview_attempts: 0,
                version: 1,
            },
        );
        Ok(id)
    }
}

/// Validates registering a named witness with an active case.
pub fn validate_register_case_witness(state: &AppState, draft: CaseWitnessDraft) -> (r: Result<ValidatedCaseWitness, WitnessError>)
    ensures
        match registration_error(*state, draft) {
            Some(e) => r matches Err(x) && x == e,
            None => r matches Ok(t) && t.spec_draft() == draft,
        },
{
    check_registration(state, &draft)?;
    Ok(ValidatedCaseWitness { draft })
}

/// The first reason a registered witness's cooperation cannot be changed.
pub open spec fn cooperation_error(state: AppState, case_witness: CaseWitnessId) -> Option<WitnessError> {
    match state.legal.spec_case_witness(case_witness) {
        None => Some(WitnessError::MissingCaseWitness(case_witness)),
        Some(w) => if w.version == u32::MAX {
            Some(WitnessError::VersionCapacity(VersionedRecord::CaseWitness))
        } else {
            None
        },
    }
}

/// A change of a registered witness's cooperation, pinned to the version it saw.
#[derive(Debug)]
pub struct ValidatedWitnessCooperation {
    case_witness: CaseWitnessId,
    cooperation: WitnessCooperation,
    expected_version: u32,
}

/// The witness record with its cooperation changed and its version advanced.
pub open spec fn with_cooperation(w: CaseWitnessRecord, cooperation: WitnessCooperation) -> CaseWitnessRecord {
    CaseWitnessRecord { cooperation, version: (w.version + 1) as u32, ..w }
}

impl ValidatedWitnessCooperation {
    pub closed spec fn spec_case_witness(&self) -> CaseWitnessId {
        self.case_witness
    }

    pub closed spec fn spec_cooperation(&self) -> WitnessCooperation {
        self.cooperation
    }

    pub closed spec fn spec_expected_version(&self) -> u32 {
        self.expected_version
    }

    /// The first reason the change cannot be committed now.
    pub open spec fn commit_error(&self, state: AppState) -> Option<WitnessError> {
        match state.legal.spec_case_witness(self.spec_case_witness()) {
            None => Some(WitnessError::MissingCaseWitness(self.spec_case_witness())),
            Some(w) => if w.version != self.spec_expected_version() {
                Some(
                    WitnessError::StaleCaseWitness {
                        case_witness: self.spec_case_witness(),
                        expected: self.spec_expected_version(),
                        found: w.version,
                    },
                )
            } else if w.version == u32::MAX {
                Some(WitnessError::VersionCapacity(VersionedRecord::CaseWitness))
            } else {
                None
            },
        }
    }

    /// Re-checks the witness's version and sets their cooperation; interviews already resolved
    /// keep the support they were resolved with.
    pub fn commit(self, state: &mut AppState) -> (r: Result<(), WitnessError>)
        requires
            old(state).wf(),
        ensures
            final(state).wf(),
            match self.commit_error(*old(state)) {
                Some(e) => r == Err::<(), WitnessError>(e) && *final(state) == *old(state),
                None => {
                    let i = self.spec_case_witness().0 - 1;
                    &&& r is Ok
                    &&& final(state).legal.case_witnesses@ == old(state).legal.case_witnesses@.update(
                        i,
                        with_cooperation(old(state).legal.case_witnesses@[i], self.spec_cooperation()),
                    )
                    &&& final(state).legal.investigations == old(state).legal.investigations
                    &&& final(state).legal.evidence == old(state).legal.evidence
                    &&& final(state).legal.arrests == old(state).legal.arrests
                    &&& final(state).legal.informants == old(state).legal.informants
                    &&& final(state).legal.disclosures == old(state).legal.disclosures
                    &&& final(state).legal.work == old(state).legal.work
                    &&& final(state).world == old(state).world
                    &&& final(state).intelligence == old(state).intelligence
                    &&& final(state).now == old(state).now
                    &&& final(state).rng == old(state).rng
                },
            },
    {
        let w = match state.legal.get_case_witness(self.case_witness) {
            Some(w) => w,
            None => {
                return Err(WitnessError::MissingCaseWitness(self.case_witness));
            },
        };
        if w.version != self.expected_version {
            return Err(
                WitnessError::StaleCaseWitness {
                    case_witness: self.case_witness,
                    expected: self.expected_version,
                    found: w.version,
                },
            );
        }
        if w.version == u32::MAX {
            return Err(WitnessError::VersionCapacity(VersionedRecord::CaseWitness));
        }
        let updated = CaseWitnessRecord { cooperation: self.cooperation, version: w.version + 1, ..w };
        let i = (self.case_witness.0 - 1) as usize;
        state.legal.case_witnesses.set(i, updated);
        Ok(())
    }
}

/// Validates changing a registered witness's cooperation.
pub fn validate_set_witness_cooperation(state: &AppState, case_witness: CaseWitnessId, cooperation: WitnessCooperation) -> (r: Result<ValidatedWitnessCooperation, WitnessError>)
    ensures
        match cooperation_error(*state, case_witness) {
            Some(e) => r == Err::<ValidatedWitnessCooperation, WitnessError>(e),
            None => r matches Ok(t) && t.spec_case_witness() == case_witness && t.spec_cooperation() == cooperation
                && t.spec_expected_version() == state.legal.spec_case_witness(case_witness)->0.version,
        },
{
    let w = match state.legal.get_case_witness(case_witness) {
        Some(w) => w,
        None => {
            return Err(WitnessError::MissingCaseWitness(case_witness));
        },
    };
    if w.version == u32::MAX {
        return Err(WitnessError::VersionCapacity(VersionedRecord::CaseWitness));
    }
    Ok(ValidatedWitnessCooperation { case_witness, cooperation, expected_version: w.version })
}

} // verus!
