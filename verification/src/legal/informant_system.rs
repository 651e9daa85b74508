//! Confidential-source relationships and the disclosures that carry an informant's personally
//! held knowledge into their handler's cases as provenance-bearing evidence.

use vstd::prelude::*;
use crate::base::VersionedRecord;
use crate::base::{IdExhaustionError, IdKind};
use crate::base::{
    CharacterId, EntityRef, EvidenceId, InformantDisclosureId, InformantId, InformationId,
    InvestigationId, OrganizationId,
};
use crate::intelligence::{InformationRecord, KnowledgeHolder, Reliability, Specificity};
use crate::legal::investigation_system::spec_actionable;
use crate::legal::store::{promoted_subjects, scheduled_headroom};
use crate::legal::{
    Admissibility, EvidenceKind, EvidenceRecord, EvidenceReliability, EvidenceStrength,
    InformantDisclosureRecord, InformantRecord, InvestigationRecord, InvestigationStatus,
};
use crate::registry::LegalConfigDefinition;
use crate::state::AppState;
use crate::world::OrganizationKind;

pub mod autonomous_disclosure;
pub mod detainee_recruitment;

verus! {

/// Why an informant transaction was refused.
#[allow(inconsistent_fields)]
#[derive(Clone, Copy, Debug, PartialEq, Eq, Structural)]
pub enum InformantError {
    MissingCharacter(CharacterId),
    MissingOrganization(OrganizationId),
    MissingHandler(OrganizationId),
    InvalidHandlerKind(OrganizationId),
    CharacterBelongsToHandler { character: CharacterId, handler: OrganizationId },
    AlreadyInformant { character: CharacterId, handler: OrganizationId, informant: InformantId },
    MissingInformant(InformantId),
    MissingInvestigation(InvestigationId),
    InactiveInvestigation(InvestigationId),
    HandlerInvestigationMismatch { informant: InformantId, handler: OrganizationId, investigation: InvestigationId },
    MissingInformation(InformationId),
    InformationNotHeldByInformant { information: InformationId, character: CharacterId },
    InformationCaseMismatch { information: InformationId, subject: EntityRef, investigation: InvestigationId },
    DuplicateDisclosure { investigation: InvestigationId, information: InformationId, disclosure: InformantDisclosureId },
    StaleCharacter { character: CharacterId, expected: u32, found: u32 },
    StaleInvestigation { investigation: InvestigationId, expected: u32, found: u32 },
    IdExhaustion(IdExhaustionError),
    VersionCapacity(VersionedRecord),
}

/// A confidential-source relationship an institution wants to establish.
#[derive(Clone, Copy, Debug, PartialEq, Eq, Structural)]
pub struct InformantDraft {
    pub character: CharacterId,
    pub handler: OrganizationId,
}

/// A fact an informant is to pass into one of the handler's cases.
#[derive(Clone, Copy, Debug, PartialEq, Eq, Structural)]
pub struct InformantDisclosureDraft {
    pub informant: InformantId,
    pub investigation: InvestigationId,
    pub source_information: InformationId,
}

/// Only police and legal authorities run confidential sources.
pub open spec fn handler_error(state: AppState, handler: OrganizationId) -> Option<InformantError> {
    match state.world.spec_kind(handler) {
        None => Some(InformantError::MissingHandler(handler)),
        Some(k) => if k == OrganizationKind::LawEnforcement || k == OrganizationKind::LegalAuthority {
            None
        } else {
            Some(InformantError::InvalidHandlerKind(handler))
        },
    }
}

fn validate_handler(state: &AppState, handler: OrganizationId) -> (r: Result<(), InformantError>)
    ensures
        match handler_error(*state, handler) {
            Some(e) => r == Err::<(), InformantError>(e),
            None => r is Ok,
        },
{
    match state.world.organization_kind(handler) {
        None => Err(InformantError::MissingHandler(handler)),
        Some(k) => if k == OrganizationKind::LawEnforcement || k == OrganizationKind::LegalAuthority {
            Ok(())
        } else {
            Err(InformantError::InvalidHandlerKind(handler))
        },
    }
}

/// The first reason the relationship cannot be established.
pub open spec fn establishment_error(state: AppState, d: InformantDraft) -> Option<InformantError> {
    match state.world.spec_character(d.character) {
        None => Some(InformantError::MissingCharacter(d.character)),
        Some(ch) => if handler_error(state, d.handler) is Some {
            handler_error(state, d.handler)
        } else if ch.organization == Some(d.handler) {
            Some(InformantError::CharacterBelongsToHandler { character: d.character, handler: d.handler })
        } else if state.legal.spec_informant_for(d.character, d.handler) is Some {
            Some(
                InformantError::AlreadyInformant {
                    character: d.character,
                    handler: d.handler,
                    informant: state.legal.spec_informant_for(d.character, d.handler)->0,
                },
            )
        } else {
            None
        },
    }
}

fn validate_establishment_dependencies(state: &AppState, d: InformantDraft) -> (r: Result<(), InformantError>)
    ensures
        match establishment_error(*state, d) {
            Some(e) => r == Err::<(), InformantError>(e),
            None => r is Ok,
        },
{
    let organization = match state.world.get_character(d.character) {
        Some(ch) => ch.organization,
        None => {
            return Err(InformantError::MissingCharacter(d.character));
        },
    };
    validate_handler(state, d.handler)?;
    if organization == Some(d.handler) {
        return Err(InformantError::CharacterBelongsToHandler { character: d.character, handler: d.handler });
    }
    if let Some(informant) = state.legal.informant_for(d.character, d.handler) {
        return Err(InformantError::AlreadyInformant { character: d.character, handler: d.handler, informant });
    }
    Ok(())
}

/// A relationship that passed validation, pinned to the character's version.
#[derive(Debug)]
pub struct ValidatedInformantEstablishment {
    draft: InformantDraft,
    expected_character_version: u32,
}

impl ValidatedInformantEstablishment {
    pub closed spec fn spec_draft(&self) -> InformantDraft {
        self.draft
    }

    pub closed spec fn spec_character_version(&self) -> u32 {
        self.expected_character_version
    }

    pub open spec fn commit_error(&self, state: AppState) -> Option<InformantError> {
        let d = self.spec_draft();
        match state.world.spec_character(d.character) {
            None => Some(InformantError::MissingCharacter(d.character)),
            Some(ch) => if ch.version != self.spec_character_version() {
                Some(
                    InformantError::StaleCharacter {
                        character: d.character,
                        expected: self.spec_character_version(),
                        found: ch.version,
                    },
                )
            } else if establishment_error(state, d) is Some {
                establishment_error(state, d)
            } else if state.legal.informants@.len() >= u32::MAX {
                Some(InformantError::IdExhaustion(IdExhaustionError::Exhausted { kind: IdKind::Informant }))
            } else {
                None
            },
        }
    }

    /// Re-checks the character and establishes the relationship now.
    pub fn commit(self, state: &mut AppState) -> (r: Result<InformantId, InformantError>)
        requires
            old(state).wf(),
        ensures
            final(state).wf(),
            match self.commit_error(*old(state)) {
                Some(e) => r == Err::<InformantId, InformantError>(e) && *final(state) == *old(state),
                None => {
                    let id = InformantId((old(state).legal.informants@.len() + 1) as u32);
                    &&& r == Ok::<InformantId, InformantError>(id)
                    &&& final(state).legal.informants@ == old(state).legal.informants@.push(
                        InformantRecord {
                            id,
                            character: self.spec_draft().character,
                            handler: self.spec_draft().handler,
                            established_at: old(state).now,
                        },
                    )
                    &&& final(state).legal.investigations == old(state).legal.investigations
                    &&& final(state).legal.evidence == old(state).legal.evidence
                    &&& final(state).legal.arrests == old(state).legal.arrests
                    &&& final(state).legal.case_witnesses == old(state).legal.case_witnesses
                    &&& final(state).legal.disclosures == old(state).legal.disclosures
                    &&& final(state).legal.work == old(state).legal.work
                    &&& final(state).world == old(state).world
                    &&& final(state).intelligence == old(state).intelligence
                    &&& final(state).now == old(state).now
                    &&& final(state).rng == old(state).rng
                },
            },
    {
        let d = self.draft;
        let version = match state.world.get_character(d.character) {
            Some(ch) => ch.version,
            None => {
                return Err(InformantError::MissingCharacter(d.character));
            },
        };
        if version != self.expected_character_version {
            return Err(
                InformantError::StaleCharacter {
                    character: d.character,
                    expected: self.expected_character_version,
                    found: version,
                },
            );
        }
        validate_establishment_dependencies(state, d)?;
        let len = state.legal.informants.len();
        if len >= u32::MAX as usize {
            return Err(InformantError::IdExhaustion(IdExhaustionError::Exhausted { kind: IdKind::Informant }));
        }
        let id = InformantId((len + 1) as u32);
        let now = state.now;
        proof {
            crate::seqs::lemma_first_index_props(state.legal.informants@, crate::legal::informant_of(d.character, d.handler));
        }
        state.legal.informants.push(
            InformantRecord { id, character: d.character, handler: d.handler, established_at: now },
        );
        Ok(id)
    }
}

/// Validates establishing a confidential-source relationship.
pub fn validate_establish_informant(state: &AppState, draft: InformantDraft) -> (r: Result<ValidatedInformantEstablishment, InformantError>)
    ensures
        match establishment_error(*state, draft) {
            Some(e) => r matches Err(x) && x == e,
            None => r matches Ok(t) && t.spec_draft() == draft && t.spec_character_version()
                == state.world.spec_character(draft.character)->0.version,
        },
{
    validate_establishment_dependencies(state, draft)?;
    let version = match state.world.get_character(draft.character) {
        Some(ch) => ch.version,
        None => {
            return Err(InformantError::MissingCharacter(draft.character));
        },
    };
    Ok(ValidatedInformantEstablishment { draft, expected_character_version: version })
}

/// Evidence strength of an informant statement follows the specificity of the disclosed fact.
pub open spec fn spec_informant_strength(s: Specificity) -> EvidenceStrength {
    match s {
        Specificity::Vague => EvidenceStrength::Weak,
        Specificity::General => EvidenceStrength::Corroborating,
        Specificity::Specific => EvidenceStrength::Strong,
        Specificity::Precise => EvidenceStrength::Direct,
    }
}

/// Evidence reliability of an informant statement follows the reliability of the disclosed fact.
pub open spec fn spec_informant_reliability(r: Reliability) -> EvidenceReliability {
    match r {
        Reliability::Unknown | Reliability::Unreliable => EvidenceReliability::Questionable,
        Reliability::Mixed => EvidenceReliability::Mixed,
        Reliability::GenerallyReliable => EvidenceReliability::Credible,
        Reliability::DirectAccess => EvidenceReliability::HighlyReliable,
    }
}

pub fn informant_strength(s: Specificity) -> (r: EvidenceStrength)
    ensures
        r == spec_informant_strength(s),
{
    match s {
        Specificity::Vague => EvidenceStrength::Weak,
        Specificity::General => EvidenceStrength::Corroborating,
        Specificity::Specific => EvidenceStrength::Strong,
        Specificity::Precise => EvidenceStrength::Direct,
    }
}

pub fn informant_reliability(r: Reliability) -> (out: EvidenceReliability)
    ensures
        out == spec_informant_reliability(r),
{
    match r {
        Reliability::Unknown | Reliability::Unreliable => EvidenceReliability::Questionable,
        Reliability::Mixed => EvidenceReliability::Mixed,
        Reliability::GenerallyReliable => EvidenceReliability::Credible,
        Reliability::DirectAccess => EvidenceReliability::HighlyReliable,
    }
}

/// A fact belongs in a case when it is about the case's origin or about one of its subjects.
pub open spec fn relevant_to(info: InformationRecord, case: InvestigationRecord) -> bool {
    case.origin == Some(info.subject) || case.subjects@.contains(info.subject)
}

/// The first reason the disclosure is refused, in the order the checks run.
pub open spec fn disclosure_error(state: AppState, d: InformantDisclosureDraft) -> Option<InformantError> {
    match state.legal.spec_informant(d.informant) {
        None => Some(InformantError::MissingInformant(d.informant)),
        Some(inf) => if !state.world.character_present(inf.character) {
            Some(InformantError::MissingCharacter(inf.character))
        } else if handler_error(state, inf.handler) is Some {
            handler_error(state, inf.handler)
        } else {
            match state.legal.spec_investigation(d.investigation) {
                None => Some(InformantError::MissingInvestigation(d.investigation)),
                Some(case) => if case.status != InvestigationStatus::Active {
                    Some(InformantError::InactiveInvestigation(d.investigation))
                } else if case.owner != inf.handler {
                    Some(
                        InformantError::HandlerInvestigationMismatch {
                            informant: d.informant,
                            handler: inf.handler,
                            investigation: d.investigation,
                        },
                    )
                } else {
                    match state.intelligence.spec_get(d.source_information) {
                        None => Some(InformantError::MissingInformation(d.source_information)),
                        Some(info) => if info.holder != KnowledgeHolder::Character(inf.character) {
                            Some(
                                InformantError::InformationNotHeldByInformant {
                                    information: d.source_information,
                                    character: inf.character,
                                },
                            )
                        } else if !relevant_to(info, case) {
                            Some(
                                InformantError::InformationCaseMismatch {
                                    information: d.source_information,
                                    subject: info.subject,
                                    investigation: d.investigation,
                                },
                            )
                        } else if state.legal.spec_disclosure_for(d.investigation, d.source_information) is Some {
                            Some(
                                InformantError::DuplicateDisclosure {
                                    investigation: d.investigation,
                                    information: d.source_information,
                                    disclosure: state.legal.spec_disclosure_for(
                                        d.investigation,
                                        d.source_information,
                                    )->0,
                                },
                            )
                        } else if state.legal.spec_investigation(d.investigation)->0.version + 1
                            + scheduled_headroom(state.legal.work@, d.investigation, None) > u32::MAX {
                            Some(InformantError::VersionCapacity(VersionedRecord::Investigation))
                        } else {
                            None
                        },
                    }
                },
            }
        }
    }
}

fn validate_disclosure_dependencies(state: &AppState, d: InformantDisclosureDraft) -> (r: Result<(), InformantError>)
    ensures
        match disclosure_error(*state, d) {
            Some(e) => r == Err::<(), InformantError>(e),
            None => r is Ok,
        },
{
    let inf = match state.legal.get_informant(d.informant) {
        Some(inf) => inf,
        None => {
            return Err(InformantError::MissingInformant(d.informant));
        },
    };
    if state.world.get_character(inf.character).is_none() {
        return Err(InformantError::MissingCharacter(inf.character));
    }
    validate_handler(state, inf.handler)?;
    let case = match state.legal.get_investigation(d.investigation) {
        Some(case) => case,
        None => {
            return Err(InformantError::MissingInvestigation(d.investigation));
        },
    };
    if case.status != InvestigationStatus::Active {
        return Err(InformantError::InactiveInvestigation(d.investigation));
    }
    if case.owner != inf.handler {
        return Err(
            InformantError::HandlerInvestigationMismatch {
                informant: d.informant,
                handler: inf.handler,
                investigation: d.investigation,
            },
        );
    }
    let info = match state.intelligence.get_information(d.source_information) {
        Some(info) => info,
        None => {
            return Err(InformantError::MissingInformation(d.source_information));
        },
    };
    if info.holder != KnowledgeHolder::Character(inf.character) {
        return Err(
            InformantError::InformationNotHeldByInformant {
                information: d.source_information,
                character: inf.character,
            },
        );
    }
    let relevant = case.origin == Some(info.subject) || crate::base::entity_vec_contains(&case.subjects, info.subject);
    if !relevant {
        return Err(
            InformantError::InformationCaseMismatch {
                information: d.source_information,
                subject: info.subject,
                investigation: d.investigation,
            },
        );
    }
    if let Some(disclosure) = state.legal.informant_disclosure_for_case_information(d.investigation, d.source_information) {
        return Err(
            InformantError::DuplicateDisclosure {
                investigation: d.investigation,
                information: d.source_information,
                disclosure,
            },
        );
    }
    let headroom = state.legal.scheduled_work_investigation_headroom(d.investigation, None);
    proof {
        crate::legal::store::lemma_scheduled_headroom_bounds(state.legal.work@, d.investigation, None);
    }
    if case.version as u64 + 1 + headroom as u64 > u32::MAX as u64 {
        return Err(InformantError::VersionCapacity(VersionedRecord::Investigation));
    }
    Ok(())
}

/// The informant statement a disclosure files under `id`: about the disclosed fact's subject,
/// sourced to the informant, held by the handler.
pub open spec fn statement_evidence(info: InformationRecord, inf: InformantRecord, investigation: InvestigationId, id: EvidenceId, at: crate::base::SimTime) -> EvidenceRecord {
    EvidenceRecord {
        id,
        investigation,
        custodian: inf.handler,
        subject: info.subject,
        origin: None,
        source: Some(EntityRef::Character(inf.character)),
        derived_from: None,
        kind: EvidenceKind::InformantStatement,
        strength: spec_informant_strength(info.specificity),
        reliability: spec_informant_reliability(info.reliability),
        admissibility: Admissibility::Unknown,
        discovered_at: at,
    }
}

/// A disclosure that passed validation, pinned to the case version.
#[derive(Debug)]
pub struct ValidatedInformantDisclosure {
    draft: InformantDisclosureDraft,
    expected_investigation_version: u32,
}

impl ValidatedInformantDisclosure {
    pub closed spec fn spec_draft(&self) -> InformantDisclosureDraft {
        self.draft
    }

    pub closed spec fn spec_expected_version(&self) -> u32 {
        self.expected_investigation_version
    }

    pub open spec fn commit_error(&self, state: AppState) -> Option<InformantError> {
        let d = self.spec_draft();
        match state.legal.spec_investigation(d.investigation) {
            None => Some(InformantError::MissingInvestigation(d.investigation)),
            Some(case) => if case.version != self.spec_expected_version() {
                Some(
                    InformantError::StaleInvestigation {
                        investigation: d.investigation,
                        expected: self.spec_expected_version(),
                        found: case.version,
                    },
                )
            } else if disclosure_error(state, d) is Some {
                disclosure_error(state, d)
            } else if state.legal.evidence@.len() >= u32::MAX {
                Some(InformantError::IdExhaustion(IdExhaustionError::Exhausted { kind: IdKind::Evidence }))
            } else if state.legal.disclosures@.len() >= u32::MAX {
                Some(InformantError::IdExhaustion(IdExhaustionError::Exhausted { kind: IdKind::InformantDisclosure }))
            } else {
                None
            },
        }
    }

    /// Re-checks the case and files the disclosure now: the informant statement becomes case
    /// evidence (revising the case, and identifying its subject when actionable) and the
    /// disclosure record links it to the source fact.
    pub fn commit(self, state: &mut AppState) -> (r: Result<InformantDisclosureId, InformantError>)
        requires
            old(state).wf(),
        ensures
            final(state).wf(),
            match self.commit_error(*old(state)) {
                Some(e) => r == Err::<InformantDisclosureId, InformantError>(e) && *final(state) == *old(state),
                None => {
                    let d = self.spec_draft();
                    let id = InformantDisclosureId((old(state).legal.disclosures@.len() + 1) as u32);
                    let eid = EvidenceId((old(state).legal.evidence@.len() + 1) as u32);
                    let inf = old(state).legal.spec_informant(d.informant)->0;
                    let info = old(state).intelligence.spec_get(d.source_information)->0;
                    let e = statement_evidence(info, inf, d.investigation, eid, old(state).now);
                    let before = old(state).legal.spec_investigation(d.investigation)->0;
                    let after = final(state).legal.spec_investigation(d.investigation)->0;
                    &&& r == Ok::<InformantDisclosureId, InformantError>(id)
                    &&& final(state).legal.evidence@ == old(state).legal.evidence@.push(e)
                    &&& final(state).legal.disclosures@ == old(state).legal.disclosures@.push(
                        InformantDisclosureRecord {
                            id,
                            informant: d.informant,
                            investigation: d.investigation,
                            source_information: d.source_information,
                            evidence: eid,
                            disclosed_at: old(state).now,
                        },
                    )
                    &&& after.subjects@ == promoted_subjects(
                        before.subjects@,
                        e.subject,
                        spec_actionable(e.strength, e.reliability, e.admissibility),
                    )
                    &&& after.version == before.version + 1
                    &&& after.last_activity_at == old(state).now
                    &&& after.status == before.status
                    &&& after.lead_investigator == before.lead_investigator
                    &&& after.id == before.id
                    &&& after.owner == before.owner
                    &&& after.origin == before.origin
                    &&& after.title == before.title
                    &&& after.declared_subjects == before.declared_subjects
                    &&& after.opened_at == before.opened_at
                    &&& final(state).legal.investigations@.len() == old(state).legal.investigations@.len()
                    &&& forall|i: int|
                        0 <= i < old(state).legal.investigations@.len() && i != d.investigation.0 - 1
                            ==> final(state).legal.investigations@[i] == old(state).legal.investigations@[i]
                    &&& final(state).legal.arrests == old(state).legal.arrests
                    &&& final(state).legal.case_witnesses == old(state).legal.case_witnesses
                    &&& final(state).legal.informants == old(state).legal.informants
                    &&& final(state).legal.work == old(state).legal.work
                    &&& final(state).world == old(state).world
                    &&& final(state).intelligence == old(state).intelligence
                    &&& final(state).now == old(state).now
                    &&& final(state).rng == old(state).rng
                },
            },
    {
        let d = self.draft;
        let version = match state.legal.get_investigation(d.investigation) {
            Some(case) => case.version,
            None => {
                return Err(InformantError::MissingInvestigation(d.investigation));
            },
        };
        if version != self.expected_investigation_version {
            return Err(
                InformantError::StaleInvestigation {
                    investigation: d.investigation,
                    expected: self.expected_investigation_version,
                    found: version,
                },
            );
        }
        validate_disclosure_dependencies(state, d)?;
        if state.legal.evidence.len() >= u32::MAX as usize {
            return Err(InformantError::IdExhaustion(IdExhaustionError::Exhausted { kind: IdKind::Evidence }));
        }
        if state.legal.disclosures.len() >= u32::MAX as usize {
            return Err(InformantError::IdExhaustion(IdExhaustionError::Exhausted { kind: IdKind::InformantDisclosure }));
        }
        proof {
            crate::legal::store::lemma_scheduled_headroom_bounds(state.legal.work@, d.investigation, None);
        }
        let inf = state.legal.informants[(d.informant.0 - 1) as usize];
        let (subject, specificity, reliability) = {
            let info = &state.intelligence.records[(d.source_information.0 - 1) as usize];
            (info.subject, info.specificity, info.reliability)
        };
        let strength = informant_strength(specificity);
        let evidence_reliability = informant_reliability(reliability);
        let actionable = crate::legal::investigation_system::evidence_assessment_is_actionable_case_lead(
            strength,
            evidence_reliability,
            Admissibility::Unknown,
        );
        let now = state.now;
        let eid = EvidenceId((state.legal.evidence.len() + 1) as u32);
        let id = InformantDisclosureId((state.legal.disclosures.len() + 1) as u32);
        proof {
            crate::seqs::lemma_first_index_props(
                state.legal.disclosures@,
                crate::legal::disclosure_of(d.investigation, d.source_information),
            );
        }
        state.legal.insert_evidence(
            EvidenceRecord {
                id: eid,
                investigation: d.investigation,
                custodian: inf.handler,
                subject,
                origin: None,
                source: Some(EntityRef::Character(inf.character)),
                derived_from: None,
                kind: EvidenceKind::InformantStatement,
                strength,
                reliability: evidence_reliability,
                admissibility: Admissibility::Unknown,
                discovered_at: now,
            },
            actionable,
            now,
        );
        state.legal.disclosures.push(
            InformantDisclosureRecord {
                id,
                informant: d.informant,
                investigation: d.investigation,
                source_information: d.source_information,
                evidence: eid,
                disclosed_at: now,
            },
        );
        Ok(id)
    }
}

/// Validates an informant's disclosure of a personally held fact into a case.
pub fn validate_record_informant_disclosure(state: &AppState, draft: InformantDisclosureDraft) -> (r: Result<ValidatedInformantDisclosure, InformantError>)
    ensures
        match disclosure_error(*state, draft) {
            Some(e) => r matches Err(x) && x == e,
            None => r matches Ok(t) && t.spec_draft() == draft && t.spec_expected_version()
                == state.legal.spec_investigation(draft.investigation)->0.version,
        },
{
    validate_disclosure_dependencies(state, draft)?;
    let version = match state.legal.get_investigation(draft.investigation) {
        Some(case) => case.version,
        None => {
            return Err(InformantError::MissingInvestigation(draft.investigation));
        },
    };
    Ok(ValidatedInformantDisclosure { draft, expected_investigation_version: version })
}

/// The percent chance that a detainee turns informant: the authored base chance plus the
/// authored share of their safety drive, less the authored reduction (not below zero) when
/// they have active counsel.
pub open spec fn spec_flip_chance(legal: LegalConfigDefinition, safety: u32, represented: bool) -> int {
    let chance = legal.informant_base_flip_chance_percent + safety * legal.informant_safety_bonus_percent / 100;
    if represented {
        if chance >= legal.represented_informant_reduction_percent {
            chance - legal.represented_informant_reduction_percent
        } else {
            0
        }
    } else {
        chance
    }
}

pub fn resolve_informant_flip_chance(legal: LegalConfigDefinition, safety: u32, represented: bool) -> (r: u32)
    requires
        safety <= 100,
    ensures
        r == spec_flip_chance(legal, safety, represented),
{
    let bonus_pct = legal.informant_safety_bonus_percent as u32;
    assert(safety * bonus_pct <= 100 * 255) by (nonlinear_arith)
        requires
            safety <= 100,
            bonus_pct <= 255,
    ;
    let chance = legal.informant_base_flip_chance_percent as u32 + safety * bonus_pct / 100;
    if represented {
        let reduction = legal.represented_informant_reduction_percent as u32;
        if chance >= reduction {
            chance - reduction
        } else {
            0
        }
    } else {
        chance
    }
}

/// An establishment that validated against a state commits on that same state, as long as an
/// informant identifier is left.
pub proof fn law_validated_establishment_commits(state: AppState, draft: InformantDraft, t: ValidatedInformantEstablishment)
    requires
        state.wf(),
        establishment_error(state, draft) is None,
        t.spec_draft() == draft,
        t.spec_character_version() == state.world.spec_character(draft.character)->0.version,
        state.legal.informants@.len() < u32::MAX,
    ensures
        t.commit_error(state) is None,
{
}

/// A disclosure that validated against a state commits on that same state, as long as evidence
/// and disclosure identifiers are left.
pub proof fn law_validated_disclosure_commits(state: AppState, draft: InformantDisclosureDraft, t: ValidatedInformantDisclosure)
    requires
        state.wf(),
        disclosure_error(state, draft) is None,
        t.spec_draft() == draft,
        t.spec_expected_version() == state.legal.spec_investigation(draft.investigation)->0.version,
        state.legal.evidence@.len() < u32::MAX,
        state.legal.disclosures@.len() < u32::MAX,
    ensures
        t.commit_error(state) is None,
{
}

/// A detainee's safety drive adds its own share of the authored safety bonus to the base chance:
/// without counsel, the chance above the base is `safety` percent of the bonus, rounded down,
/// for every safety rating; with counsel, the authored reduction is taken off that, down to
/// nothing. So the chance grows with safety, and half the safety gives half the bonus.
pub proof fn law_flip_chance_is_safety_share_of_bonus(legal: LegalConfigDefinition, safety: u32, lower: u32)
    requires
        safety <= 100,
        lower <= safety,
    ensures
        ({
            let base = legal.informant_base_flip_chance_percent as int;
            let bonus = legal.informant_safety_bonus_percent as int;
            let c = spec_flip_chance(legal, safety, false);
            &&& 100 * (c - base) <= safety * bonus
            &&& safety * bonus < 100 * (c - base + 1)
            &&& spec_flip_chance(legal, safety, true) == (if c >= legal.represented_informant_reduction_percent {
                c - legal.represented_informant_reduction_percent
            } else {
                0
            })
            &&& spec_flip_chance(legal, lower, false) <= c
        }),
{
    let bonus = legal.informant_safety_bonus_percent as int;
    let x = safety * bonus;
    let y = lower * bonus;
    assert(x >= 0);
    assert(100 * (x / 100) <= x && x < 100 * (x / 100 + 1)) by (nonlinear_arith)
        requires
            x >= 0,
    ;
    assert(y <= x) by (nonlinear_arith)
        requires
            lower <= safety,
            bonus >= 0,
            x == safety * bonus,
            y == lower * bonus,
    ;
    assert(y / 100 <= x / 100) by (nonlinear_arith)
        requires
            0 <= y <= x,
    ;
}

/// Information about the event or enterprise a case originated from belongs in that case, as
/// information about one of its subjects does: a disclosure of it is never refused as unrelated
/// to the case, and the disclosure pass takes it up whenever the informant holds it, the case is
/// an active case of the informant's handler, and it has not been disclosed into the case yet.
pub proof fn law_origin_information_is_relevant(state: AppState, d: InformantDisclosureDraft)
    requires
        state.legal.spec_investigation(d.investigation) is Some,
        state.intelligence.spec_get(d.source_information) is Some,
        state.legal.spec_investigation(d.investigation)->0.origin == Some(
            state.intelligence.spec_get(d.source_information)->0.subject,
        ) || state.legal.spec_investigation(d.investigation)->0.subjects@.contains(
            state.intelligence.spec_get(d.source_information)->0.subject,
        ),
    ensures
        !(disclosure_error(state, d) matches Some(InformantError::InformationCaseMismatch { .. })),
        ({
            let case = state.legal.spec_investigation(d.investigation)->0;
            let info = state.intelligence.spec_get(d.source_information)->0;
            (state.legal.spec_informant(d.informant) matches Some(inf) && info.holder == KnowledgeHolder::Character(
                inf.character,
            ) && case.status == InvestigationStatus::Active && case.owner == inf.handler
                && state.legal.spec_disclosure_for(d.investigation, d.source_information) is None)
                ==> crate::legal::informant_system::autonomous_disclosure::disclosure_candidate(
                state,
                (d.informant, d.source_information, d.investigation),
            )
        }),
{
}

} // verus!
