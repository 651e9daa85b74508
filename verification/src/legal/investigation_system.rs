//! Case transactions: opening a file, moving it through its lifecycle, filing evidence and
//! staffing its lead seat. Every transaction is validated into a token that re-checks the
//! versions it read before it mutates anything.

use vstd::prelude::*;
use crate::base::VersionedRecord;
use crate::base::{IdExhaustionError, IdKind};
use crate::base::{
    ArrestId, CaseWitnessId, CharacterId, EntityRef, EvidenceId, InvestigationId,
    InvestigationWorkId, OrganizationId, SimTime,
};
use crate::intelligence::intelligence_system::{missing_in, IntelligenceError, ValidatedInformation};
use crate::intelligence::{CaseActivitySignal, InformationRecord, SignalView};
use crate::legal::case_knowledge::{
    activity_subject, is_activity_token, is_witness_token, police_case,
    prepare_case_activity_knowledge, prepare_case_witness_knowledge,
    spec_activity_for_status,
};
use crate::legal::store::{
    cancelled, only_investigations_differ, promoted_subjects, scheduled_headroom, with_lead,
    with_status,
};
use crate::legal::{
    Admissibility, EvidenceKind, EvidenceRecord, EvidenceReliability, EvidenceStrength,
    InvestigationRecord, InvestigationStatus, InvestigationWorkCancellation,
    InvestigationWorkCancellationReason, InvestigationWorkFocus, InvestigationWorkKind,
};
use crate::seqs::{first_index, lemma_first_index_is, lemma_first_index_none};
use crate::state::AppState;
use crate::text::{is_blank, spec_is_blank};
use crate::world::OrganizationKind;

pub mod autonomous_staffing;
pub mod cold_case_decay;
pub mod incident_intake;
pub mod staffing;

verus! {

/// Why a case transaction was refused.
#[allow(inconsistent_fields)]
#[derive(Debug, PartialEq, Eq)]
pub enum InvestigationError {
    EmptyTitle,
    NoSubjects,
    MissingOrganization(OrganizationId),
    InvalidOwnerKind(OrganizationId),
    MissingEntity(EntityRef),
    MissingInvestigation(InvestigationId),
    MissingCharacter(CharacterId),
    InvestigatorOwnerMismatch { investigator: CharacterId, owner: OrganizationId },
    DetainedInvestigator { investigator: CharacterId, arrest: ArrestId },
    InvestigatorIsCaseSubject { investigation: InvestigationId, investigator: CharacterId },
    InvestigatorIsCaseWitness {
        investigation: InvestigationId,
        investigator: CharacterId,
        witness: CaseWitnessId,
    },
    MissingInvestigationCapability(CharacterId),
    LeadSeatFilled { investigation: InvestigationId, lead: CharacterId },
    InvestigatorAtCaseCapacity { investigator: CharacterId },
    StaleInvestigation { investigation: InvestigationId, expected: u32, found: u32 },
    StaleInvestigator { investigator: CharacterId, expected: u32, found: u32 },
    DiscoveryInFuture,
    CustodianMismatch { investigation: InvestigationId, custodian: OrganizationId },
    InactiveInvestigation,
    NoIncidentEvidence,
    UnsubstantiatedIncidentCharacterSubject { character: CharacterId },
    UnsubstantiatedIncidentSubject { subject: EntityRef },
    StaleIncidentShelf { expected: Option<(InvestigationId, u32)>, found: Option<(InvestigationId, u32)> },
    InvalidCaseOrigin(EntityRef),
    ForensicAnalysisRequiresInvestigationWork,
    InformantStatementRequiresDisclosure,
    InvalidInvestigationTransition { status: InvestigationStatus, transition: InvestigationTransition },
    ScheduledWorkBlocksTransition { investigation: InvestigationId, work: InvestigationWorkId },
    ActiveArrestBlocksTransition { investigation: InvestigationId, arrest: ArrestId },
    WitnessIsCaseSubject { character: CharacterId },
    WitnessIsLeadInvestigator { investigation: InvestigationId, character: CharacterId },
    WitnessSubjectOutsideIncident { character: CharacterId, subject: EntityRef },
    DuplicateIncidentWitness { investigation: InvestigationId, witness: CharacterId, existing: CaseWitnessId },
    IncidentEvidenceCountOverflow,
    CaseKnowledge(IntelligenceError),
    IdExhaustion(IdExhaustionError),
    VersionCapacity(VersionedRecord),
}

/// A lifecycle move of a case.
#[derive(Clone, Copy, Debug, PartialEq, Eq, Structural)]
pub enum InvestigationTransition {
    Suspend,
    Resume,
    Close,
}

/// A case file an institution wants to open.
#[derive(Debug)]
pub struct InvestigationDraft {
    pub owner: OrganizationId,
    pub title: String,
    pub subjects: Vec<EntityRef>,
}

/// Evidence an institution wants to file with one of its cases.
#[derive(Clone, Copy, Debug, PartialEq, Eq, Structural)]
pub struct EvidenceDraft {
    pub investigation: InvestigationId,
    pub custodian: OrganizationId,
    pub subject: EntityRef,
    pub origin: Option<EntityRef>,
    pub kind: EvidenceKind,
    pub strength: EvidenceStrength,
    pub reliability: EvidenceReliability,
    pub admissibility: Admissibility,
    pub discovered_at: SimTime,
}

/// Evidence good enough to make its subject an identified case subject: neither Weak, nor
/// Questionable, nor known to be inadmissible.
pub open spec fn spec_actionable(strength: EvidenceStrength, reliability: EvidenceReliability, admissibility: Admissibility) -> bool {
    strength != EvidenceStrength::Weak && reliability != EvidenceReliability::Questionable
        && admissibility != Admissibility::Inadmissible
}

pub fn evidence_assessment_is_actionable_case_lead(strength: EvidenceStrength, reliability: EvidenceReliability, admissibility: Admissibility) -> (r: bool)
    ensures
        r == spec_actionable(strength, reliability, admissibility),
{
    strength != EvidenceStrength::Weak && reliability != EvidenceReliability::Questionable
        && admissibility != Admissibility::Inadmissible
}

/// Institutions that may own case files.
pub open spec fn can_own_cases(kind: OrganizationKind) -> bool {
    kind == OrganizationKind::LawEnforcement || kind == OrganizationKind::LegalAuthority
}

// ---------------------------------------------------------------------------------------------
// Opening a case.

/// The first reason a case cannot be opened.
pub open spec fn open_error(state: AppState, owner: OrganizationId, title: Seq<char>, subjects: Seq<EntityRef>) -> Option<InvestigationError> {
    if spec_is_blank(title) {
        Some(InvestigationError::EmptyTitle)
    } else if subjects.len() == 0 {
        Some(InvestigationError::NoSubjects)
    } else if !state.world.organization_present(owner) {
        Some(InvestigationError::MissingOrganization(owner))
    } else if !can_own_cases(state.world.spec_kind(owner)->0) {
        Some(InvestigationError::InvalidOwnerKind(owner))
    } else {
        match first_index(subjects, missing_in(state)) {
            Some(i) => Some(InvestigationError::MissingEntity(subjects[i])),
            None => None,
        }
    }
}

/// Whether `rec` is the freshly opened active file for `draft`, with no lead yet.
pub open spec fn is_opened_record(rec: InvestigationRecord, id: InvestigationId, owner: OrganizationId, title: Seq<char>, subjects: Seq<EntityRef>, now: SimTime) -> bool {
    &&& rec.id == id
    &&& rec.owner == owner
    &&& rec.title@ == title
    &&& rec.status == InvestigationStatus::Active
    &&& rec.lead_investigator is None
    &&& rec.declared_subjects@ == subjects
    &&& rec.subjects@ == subjects
    &&& rec.opened_at == now
    &&& rec.origin is None
    &&& rec.last_activity_at == now
    &&& rec.version == 1
}

#[verifier::loop_isolation(false)]
pub(crate) fn validate_investigation_draft(state: &AppState, owner: OrganizationId, title: &String, subjects: &Vec<EntityRef>) -> (r: Result<(), InvestigationError>)
    ensures
        match open_error(*state, owner, title@, subjects@) {
            Some(e) => r matches Err(x) && x == e,
            None => r is Ok,
        },
{
    if is_blank(title.as_str()) {
        return Err(InvestigationError::EmptyTitle);
    }
    if subjects.len() == 0 {
        return Err(InvestigationError::NoSubjects);
    }
    match state.world.organization_kind(owner) {
        None => {
            return Err(InvestigationError::MissingOrganization(owner));
        },
        Some(kind) => {
            if kind != OrganizationKind::LawEnforcement && kind != OrganizationKind::LegalAuthority {
                return Err(InvestigationError::InvalidOwnerKind(owner));
            }
        },
    }
    let mut i: usize = 0;
    while i < subjects.len()
        invariant
            i <= subjects.len(),
            forall|j: int| 0 <= j < i ==> !missing_in(*state)(#[trigger] subjects@[j]),
        decreases subjects.len() - i,
    {
        if !state.is_entity_present(subjects[i]) {
            proof {
                lemma_first_index_is(subjects@, missing_in(*state), i as int);
            }
            return Err(InvestigationError::MissingEntity(subjects[i]));
        }
        i = i + 1;
    }
    proof {
        lemma_first_index_none(subjects@, missing_in(*state));
    }
    Ok(())
}

/// A case file that passed validation.
#[derive(Debug)]
pub struct ValidatedInvestigation {
    draft: InvestigationDraft,
}

impl ValidatedInvestigation {
    pub closed spec fn spec_owner(&self) -> OrganizationId {
        self.draft.owner
    }

    pub closed spec fn spec_title(&self) -> Seq<char> {
        self.draft.title@
    }

    pub closed spec fn spec_subjects(&self) -> Seq<EntityRef> {
        self.draft.subjects@
    }

    /// Re-validates the draft and opens the next case file: active, unstaffed, its declared
    /// subjects its only subjects, opened now.
    pub fn commit(self, state: &mut AppState) -> (r: Result<InvestigationId, InvestigationError>)
        requires
            old(state).wf(),
        ensures
            final(state).wf(),
            match open_error(*old(state), self.spec_owner(), self.spec_title(), self.spec_subjects()) {
                Some(e) => r matches Err(x) && x == e && *final(state) == *old(state),
                None => if old(state).legal.investigations@.len() >= u32::MAX {
                    r matches Err(x) && x == InvestigationError::IdExhaustion(IdExhaustionError::Exhausted { kind: IdKind::Investigation }) && *final(state)
                        == *old(state)
                } else {
                    let id = InvestigationId((old(state).legal.investigations@.len() + 1) as u32);
                    &&& r == Ok::<InvestigationId, InvestigationError>(id)
                    &&& final(state).legal.investigations@.len() == old(state).legal.investigations@.len() + 1
                    &&& final(state).legal.investigations@.drop_last() == old(state).legal.investigations@
                    &&& is_opened_record(
                        final(state).legal.investigations@.last(),
                        id,
                        self.spec_owner(),
                        self.spec_title(),
                        self.spec_subjects(),
                        old(state).now,
                    )
                    &&& only_investigations_differ(final(state).legal, old(state).legal)
                    &&& final(state).world == old(state).world
                    &&& final(state).intelligence == old(state).intelligence
                    &&& final(state).now == old(state).now
                    &&& final(state).rng == old(state).rng
                },
            },
    {
        validate_investigation_draft(state, self.draft.owner, &self.draft.title, &self.draft.subjects)?;
        let len = state.legal.investigations.len();
        if len >= u32::MAX as usize {
            return Err(InvestigationError::IdExhaustion(IdExhaustionError::Exhausted { kind: IdKind::Investigation }));
        }
        let id = InvestigationId((len + 1) as u32);
        let now = state.now;
        let InvestigationDraft { owner, title, subjects } = self.draft;
        let declared = copy_entities(&subjects);
        state.legal.insert_investigation(
            InvestigationRecord {
                id,
                owner,
                title,
                status: InvestigationStatus::Active,
                lead_investigator: None,
                declared_subjects: declared,
                subjects,
                opened_at: now,
                origin: None,
                last_activity_at: now,
                version: 1,
            },
        );
        proof {
            assert(state.legal.investigations@.drop_last() =~= old(state).legal.investigations@);
        }
        Ok(id)
    }
}

/// A copy of a list of entity references.
pub fn copy_entities(v: &Vec<EntityRef>) -> (r: Vec<EntityRef>)
    ensures
        r@ == v@,
{
    let mut r: Vec<EntityRef> = Vec::new();
    let mut i: usize = 0;
    while i < v.len()
        invariant
            i <= v.len(),
            r@ == v@.take(i as int),
        decreases v.len() - i,
    {
        r.push(v[i]);
        assert(v@.take(i + 1) =~= v@.take(i as int).push(v@[i as int]));
        i = i + 1;
    }
    assert(v@.take(v.len() as int) =~= v@);
    r
}

/// Validates opening a case file.
pub fn validate_open_investigation(state: &AppState, draft: InvestigationDraft) -> (r: Result<ValidatedInvestigation, InvestigationError>)
    ensures
        match open_error(*state, draft.owner, draft.title@, draft.subjects@) {
            Some(e) => r matches Err(x) && x == e,
            None => r matches Ok(t) && t.spec_owner() == draft.owner && t.spec_title() == draft.title@
                && t.spec_subjects() == draft.subjects@,
        },
{
    validate_investigation_draft(state, draft.owner, &draft.title, &draft.subjects)?;
    Ok(ValidatedInvestigation { draft })
}

// ---------------------------------------------------------------------------------------------
// Lifecycle transitions.

/// Active cases may be suspended or closed; suspended cases may be resumed or closed; closed
/// cases are final.
pub open spec fn transition_allowed(status: InvestigationStatus, transition: InvestigationTransition) -> bool {
    match (status, transition) {
        (InvestigationStatus::Active, InvestigationTransition::Suspend) => true,
        (InvestigationStatus::Suspended, InvestigationTransition::Resume) => true,
        (InvestigationStatus::Active, InvestigationTransition::Close) => true,
        (InvestigationStatus::Suspended, InvestigationTransition::Close) => true,
        _ => false,
    }
}

pub open spec fn next_status(transition: InvestigationTransition) -> InvestigationStatus {
    match transition {
        InvestigationTransition::Suspend => InvestigationStatus::Suspended,
        InvestigationTransition::Resume => InvestigationStatus::Active,
        InvestigationTransition::Close => InvestigationStatus::Closed,
    }
}

/// The first reason the case's current relations forbid the move: scheduled detective work
/// blocks every move, and an active detention blocks shelving.
pub open spec fn transition_dependency_error(state: AppState, investigation: InvestigationId, transition: InvestigationTransition) -> Option<InvestigationError> {
    let rec = state.legal.spec_investigation(investigation)->0;
    if !transition_allowed(rec.status, transition) {
        Some(InvestigationError::InvalidInvestigationTransition { status: rec.status, transition })
    } else if state.legal.spec_scheduled_work_in(investigation) is Some {
        Some(
            InvestigationError::ScheduledWorkBlocksTransition {
                investigation,
                work: state.legal.spec_scheduled_work_in(investigation)->0,
            },
        )
    } else if transition == InvestigationTransition::Suspend && state.legal.spec_detained_arrest_in(
        investigation,
    ) is Some {
        Some(
            InvestigationError::ActiveArrestBlocksTransition {
                investigation,
                arrest: state.legal.spec_detained_arrest_in(investigation)->0,
            },
        )
    } else if transition == InvestigationTransition::Resume && !state.world.organization_present(
        rec.owner,
    ) {
        Some(InvestigationError::MissingOrganization(rec.owner))
    } else {
        None
    }
}

fn validate_investigation_transition_dependencies(state: &AppState, investigation: InvestigationId, transition: InvestigationTransition) -> (r: Result<(), InvestigationError>)
    requires
        state.legal.spec_investigation(investigation) is Some,
    ensures
        match transition_dependency_error(*state, investigation, transition) {
            Some(e) => r matches Err(x) && x == e,
            None => r is Ok,
        },
{
    let rec = match state.legal.get_investigation(investigation) {
        Some(rec) => rec,
        None => {
            return Err(InvestigationError::MissingInvestigation(investigation));
        },
    };
    let allowed = match (rec.status, transition) {
        (InvestigationStatus::Active, InvestigationTransition::Suspend) => true,
        (InvestigationStatus::Suspended, InvestigationTransition::Resume) => true,
        (InvestigationStatus::Active, InvestigationTransition::Close) => true,
        (InvestigationStatus::Suspended, InvestigationTransition::Close) => true,
        _ => false,
    };
    if !allowed {
        return Err(InvestigationError::InvalidInvestigationTransition { status: rec.status, transition });
    }
    if let Some(work) = state.legal.scheduled_work_in_investigation(investigation) {
        return Err(InvestigationError::ScheduledWorkBlocksTransition { investigation, work });
    }
    if transition == InvestigationTransition::Suspend {
        if let Some(arrest) = state.legal.detained_arrest_in_investigation(investigation) {
            return Err(InvestigationError::ActiveArrestBlocksTransition { investigation, arrest });
        }
    }
    if transition == InvestigationTransition::Resume && state.world.get_organization(rec.owner).is_none() {
        return Err(InvestigationError::MissingOrganization(rec.owner));
    }
    Ok(())
}

/// A lifecycle move that passed validation, pinned to the case version it saw.
#[derive(Debug)]
pub struct ValidatedInvestigationTransition {
    investigation: InvestigationId,
    transition: InvestigationTransition,
    expected_version: u32,
}

/// Whether `rec` is the lead's persisted knowledge of the case's activity, as
/// `is_activity_token` describes it, under `id`.
pub open spec fn is_activity_record(rec: InformationRecord, state: AppState, investigation: InvestigationId, activity: CaseActivitySignal, lead: CharacterId, id: crate::base::InformationId) -> bool {
    let case_rec = state.legal.spec_investigation(investigation)->0;
    &&& rec.id == id
    &&& rec.holder == crate::intelligence::KnowledgeHolder::Character(lead)
    &&& rec.source_kind == crate::intelligence::InformationSourceKind::DirectObservation
    &&& rec.topic == crate::intelligence::InformationTopic::LegalActivity
    &&& rec.source_entity == Some(EntityRef::Organization(case_rec.owner))
    &&& rec.subject == activity_subject(case_rec, investigation)
    &&& rec.observed_at == state.now
    &&& rec.recorded_at == state.now
    &&& rec.signal_view() == Some(SignalView::CaseActivity(activity))
    &&& rec.derived_from is None
    &&& rec.summary@ == crate::legal::case_knowledge::activity_summary(
        activity,
        state.world.spec_organization(case_rec.owner)->0.name@,
        case_rec.title@,
    )
}

/// Whether the lead's activity knowledge for the case can be recorded: the lead exists, and the
/// fact's subject exists and may carry a case-activity fact.
pub open spec fn activity_knowledge_ready(state: AppState, investigation: InvestigationId, activity: CaseActivitySignal, lead: CharacterId) -> bool {
    let subject = activity_subject(state.legal.spec_investigation(investigation)->0, investigation);
    &&& state.world.character_present(lead)
    &&& state.entity_present(subject)
    &&& SignalView::CaseActivity(activity).compatible(crate::intelligence::InformationTopic::LegalActivity, subject)
}

impl ValidatedInvestigationTransition {
    pub closed spec fn spec_investigation(&self) -> InvestigationId {
        self.investigation
    }

    pub closed spec fn spec_transition(&self) -> InvestigationTransition {
        self.transition
    }

    pub closed spec fn spec_expected_version(&self) -> u32 {
        self.expected_version
    }

    /// Whether the case's lead keeps knowledge that this move refreshes.
    pub open spec fn refreshes_lead(&self, state: AppState) -> bool {
        state.legal.spec_investigation(self.spec_investigation())->0.lead_investigator is Some
            && police_case(state, self.spec_investigation())
    }

    /// The first reason the move cannot be committed now.
    pub open spec fn commit_error(&self, state: AppState) -> Option<InvestigationError> {
        let inv = self.spec_investigation();
        match state.legal.spec_investigation(inv) {
            None => Some(InvestigationError::MissingInvestigation(inv)),
            Some(rec) => if rec.version != self.spec_expected_version() {
                Some(
                    InvestigationError::StaleInvestigation {
                        investigation: inv,
                        expected: self.spec_expected_version(),
                        found: rec.version,
                    },
                )
            } else if rec.version == u32::MAX {
                Some(InvestigationError::VersionCapacity(VersionedRecord::Investigation))
            } else if transition_dependency_error(state, inv, self.spec_transition()) is Some {
                transition_dependency_error(state, inv, self.spec_transition())
            } else if self.refreshes_lead(state) && !state.world.organization_present(rec.owner) {
                Some(InvestigationError::MissingOrganization(rec.owner))
            } else {
                None
            }
        }
    }

    /// Re-checks the case version and relations, then moves the case: its status changes, a
    /// shelved or closed case releases its lead, and a police lead's activity knowledge is
    /// refreshed with the new state.
    pub fn commit(self, state: &mut AppState) -> (r: Result<(), InvestigationError>)
        requires
            old(state).wf(),
        ensures
            final(state).wf(),
            self.commit_error(*old(state)) matches Some(e) ==> (r matches Err(x) && x == e
                && *final(state) == *old(state)),
            r is Err ==> *final(state) == *old(state),
            self.commit_error(*old(state)) is None ==> {
                let inv = self.spec_investigation();
                let rec = old(state).legal.spec_investigation(inv)->0;
                let activity = spec_activity_for_status(next_status(self.spec_transition()));
                if self.refreshes_lead(*old(state)) {
                    let lead = rec.lead_investigator->0;
                    if !activity_knowledge_ready(*old(state), inv, activity, lead) {
                        r is Err
                    } else if old(state).intelligence.records@.len() >= u32::MAX {
                        r matches Err(x) && x == InvestigationError::IdExhaustion(IdExhaustionError::Exhausted { kind: IdKind::Information })
                    } else {
                        &&& r is Ok
                        &&& final(state).legal.investigations@ == old(state).legal.investigations@.update(
                            inv.0 - 1,
                            with_status(rec, next_status(self.spec_transition()), old(state).now),
                        )
                        &&& only_investigations_differ(final(state).legal, old(state).legal)
                        &&& final(state).intelligence.records@.len() == old(state).intelligence.records@.len() + 1
                        &&& final(state).intelligence.records@.drop_last() == old(state).intelligence.records@
                        &&& is_activity_record(
                            final(state).intelligence.records@.last(),
                            *old(state),
                            inv,
                            activity,
                            lead,
                            crate::base::InformationId((old(state).intelligence.records@.len() + 1) as u32),
                        )
                        &&& final(state).world == old(state).world
                        &&& final(state).now == old(state).now
                        &&& final(state).rng == old(state).rng
                    }
                } else {
                    &&& r is Ok
                    &&& final(state).legal.investigations@ == old(state).legal.investigations@.update(
                        inv.0 - 1,
                        with_status(rec, next_status(self.spec_transition()), old(state).now),
                    )
                    &&& only_investigations_differ(final(state).legal, old(state).legal)
                    &&& final(state).intelligence == old(state).intelligence
                    &&& final(state).world == old(state).world
                    &&& final(state).now == old(state).now
                    &&& final(state).rng == old(state).rng
                }
            },
    {
        let inv = self.investigation;
        let (version, lead, owner) = match state.legal.get_investigation(inv) {
            Some(rec) => (rec.version, rec.lead_investigator, rec.owner),
            None => {
                return Err(InvestigationError::MissingInvestigation(inv));
            },
        };
        if version != self.expected_version {
            return Err(
                InvestigationError::StaleInvestigation {
                    investigation: inv,
                    expected: self.expected_version,
                    found: version,
                },
            );
        }
        if version == u32::MAX {
            return Err(InvestigationError::VersionCapacity(VersionedRecord::Investigation));
        }
        validate_investigation_transition_dependencies(state, inv, self.transition)?;
        let status = match self.transition {
            InvestigationTransition::Suspend => InvestigationStatus::Suspended,
            InvestigationTransition::Resume => InvestigationStatus::Active,
            InvestigationTransition::Close => InvestigationStatus::Closed,
        };
        let activity = crate::legal::case_knowledge::activity_for_status(status);
        let police = match state.world.organization_kind(owner) {
            Some(kind) => kind == OrganizationKind::LawEnforcement,
            None => false,
        };
        let knowledge = match lead {
            Some(l) => {
                if police && state.world.get_organization(owner).is_none() {
                    return Err(InvestigationError::MissingOrganization(owner));
                }
                if police {
                    match prepare_case_activity_knowledge(state, inv, activity, l) {
                        Ok(k) => k,
                        Err(e) => {
                            return Err(InvestigationError::CaseKnowledge(e));
                        },
                    }
                } else {
                    None
                }
            },
            None => None,
        };
        if knowledge.is_some() && state.intelligence.records.len() >= u32::MAX as usize {
            return Err(InvestigationError::IdExhaustion(IdExhaustionError::Exhausted { kind: IdKind::Information }));
        }
        let now = state.now;
        state.legal.set_investigation_status((inv.0 - 1) as usize, status, now);
        if let Some(k) = knowledge {
            let _ = k.commit(state);
            proof {
                assert(state.intelligence.records@.drop_last() =~= old(state).intelligence.records@);
            }
        }
        Ok(())
    }
}

/// Validates a lifecycle move of a case.
pub fn validate_transition_investigation(state: &AppState, investigation: InvestigationId, transition: InvestigationTransition) -> (r: Result<ValidatedInvestigationTransition, InvestigationError>)
    ensures
        match state.legal.spec_investigation(investigation) {
            None => r matches Err(x) && x == InvestigationError::MissingInvestigation(investigation),
            Some(rec) => if rec.version == u32::MAX {
                r matches Err(x) && x == InvestigationError::VersionCapacity(VersionedRecord::Investigation)
            } else {
                match transition_dependency_error(*state, investigation, transition) {
                    Some(e) => r matches Err(x) && x == e,
                    None => r matches Ok(t) && t.spec_investigation() == investigation
                        && t.spec_transition() == transition && t.spec_expected_version()
                        == rec.version,
                }
            },
        },
{
    let version = match state.legal.get_investigation(investigation) {
        Some(rec) => rec.version,
        None => {
            return Err(InvestigationError::MissingInvestigation(investigation));
        },
    };
    if version == u32::MAX {
        return Err(InvestigationError::VersionCapacity(VersionedRecord::Investigation));
    }
    validate_investigation_transition_dependencies(state, investigation, transition)?;
    Ok(ValidatedInvestigationTransition { investigation, transition, expected_version: version })
}


// ---------------------------------------------------------------------------------------------
// Filing evidence.

/// Work-derived analyses and informant statements come only from their own production paths.
pub open spec fn evidence_kind_error(kind: EvidenceKind) -> Option<InvestigationError> {
    match kind {
        EvidenceKind::ForensicAnalysis => Some(InvestigationError::ForensicAnalysisRequiresInvestigationWork),
        EvidenceKind::InformantStatement => Some(InvestigationError::InformantStatementRequiresDisclosure),
        _ => None,
    }
}

/// The first reason `d` cannot be filed.
pub open spec fn evidence_error(state: AppState, d: EvidenceDraft) -> Option<InvestigationError> {
    if evidence_kind_error(d.kind) is Some {
        evidence_kind_error(d.kind)
    } else {
        match state.legal.spec_investigation(d.investigation) {
            None => Some(InvestigationError::MissingInvestigation(d.investigation)),
            Some(rec) => if rec.status != InvestigationStatus::Active {
                Some(InvestigationError::InactiveInvestigation)
            } else if !state.world.organization_present(d.custodian) {
                Some(InvestigationError::MissingOrganization(d.custodian))
            } else if d.custodian != rec.owner {
                Some(
                    InvestigationError::CustodianMismatch {
                        investigation: d.investigation,
                        custodian: d.custodian,
                    },
                )
            } else if !state.entity_present(d.subject) {
                Some(InvestigationError::MissingEntity(d.subject))
            } else if d.origin is Some && !state.entity_present(d.origin->0) {
                Some(InvestigationError::MissingEntity(d.origin->0))
            } else if d.discovered_at.0 > state.now.0 {
                Some(InvestigationError::DiscoveryInFuture)
            } else {
                None
            },
        }
    }
}

/// The pending interview that actionable evidence against its own witness makes moot.
pub open spec fn invalidated_interview(state: AppState, d: EvidenceDraft) -> Option<InvestigationWorkId> {
    if spec_actionable(d.strength, d.reliability, d.admissibility) {
        match d.subject {
            EntityRef::Character(c) => match state.legal.spec_case_witness_for(d.investigation, c) {
                Some(w) => state.legal.spec_scheduled_work_for_focus(
                    d.investigation,
                    InvestigationWorkKind::WitnessInterview,
                    InvestigationWorkFocus::Witness(w),
                ),
                None => None,
            },
            _ => None,
        }
    } else {
        None
    }
}

/// Whether filing `d` leaves the case room for every revision its remaining scheduled work may
/// still need.
pub open spec fn evidence_capacity_ok(state: AppState, d: EvidenceDraft) -> bool {
    state.legal.spec_investigation(d.investigation)->0.version + 1 + scheduled_headroom(
        state.legal.work@,
        d.investigation,
        invalidated_interview(state, d),
    ) <= u32::MAX
}

#[verifier::loop_isolation(false)]
fn validate_evidence_draft(state: &AppState, d: &EvidenceDraft) -> (r: Result<(), InvestigationError>)
    ensures
        match evidence_error(*state, *d) {
            Some(e) => r matches Err(x) && x == e,
            None => r is Ok,
        },
{
    match d.kind {
        EvidenceKind::ForensicAnalysis => {
            return Err(InvestigationError::ForensicAnalysisRequiresInvestigationWork);
        },
        EvidenceKind::InformantStatement => {
            return Err(InvestigationError::InformantStatementRequiresDisclosure);
        },
        _ => {},
    }
    let (status, owner) = match state.legal.get_investigation(d.investigation) {
        Some(rec) => (rec.status, rec.owner),
        None => {
            return Err(InvestigationError::MissingInvestigation(d.investigation));
        },
    };
    if status != InvestigationStatus::Active {
        return Err(InvestigationError::InactiveInvestigation);
    }
    if state.world.get_organization(d.custodian).is_none() {
        return Err(InvestigationError::MissingOrganization(d.custodian));
    }
    if d.custodian != owner {
        return Err(
            InvestigationError::CustodianMismatch {
                investigation: d.investigation,
                custodian: d.custodian,
            },
        );
    }
    if !state.is_entity_present(d.subject) {
        return Err(InvestigationError::MissingEntity(d.subject));
    }
    if let Some(origin) = d.origin {
        if !state.is_entity_present(origin) {
            return Err(InvestigationError::MissingEntity(origin));
        }
    }
    if d.discovered_at.0 > state.now.0 {
        return Err(InvestigationError::DiscoveryInFuture);
    }
    Ok(())
}

fn invalidated_interview_for(state: &AppState, d: &EvidenceDraft) -> (r: Option<InvestigationWorkId>)
    ensures
        r == invalidated_interview(*state, *d),
{
    if !evidence_assessment_is_actionable_case_lead(d.strength, d.reliability, d.admissibility) {
        return None;
    }
    match d.subject {
        EntityRef::Character(c) => match state.legal.case_witness_for(d.investigation, c) {
            Some(w) => state.legal.scheduled_work_for_focus(
                d.investigation,
                InvestigationWorkKind::WitnessInterview,
                InvestigationWorkFocus::Witness(w),
            ),
            None => None,
        },
        _ => None,
    }
}

fn ensure_evidence_capacity(state: &AppState, d: &EvidenceDraft) -> (r: Result<(), InvestigationError>)
    requires
        state.legal.spec_investigation(d.investigation) is Some,
    ensures
        r is Ok <==> evidence_capacity_ok(*state, *d),
        r is Err ==> (r matches Err(x) && x == InvestigationError::VersionCapacity(VersionedRecord::Investigation)),
{
    let version = match state.legal.get_investigation(d.investigation) {
        Some(rec) => rec.version,
        None => {
            return Err(InvestigationError::VersionCapacity(VersionedRecord::Investigation));
        },
    };
    let excluded = invalidated_interview_for(state, d);
    let headroom = state.legal.scheduled_work_investigation_headroom(d.investigation, excluded);
    proof {
        crate::legal::store::lemma_scheduled_headroom_bounds(state.legal.work@, d.investigation, excluded);
    }
    if version as u64 + 1 + headroom as u64 > u32::MAX as u64 {
        return Err(InvestigationError::VersionCapacity(VersionedRecord::Investigation));
    }
    Ok(())
}

/// The evidence record `d` files under `id`.
pub open spec fn filed_evidence(d: EvidenceDraft, id: EvidenceId) -> EvidenceRecord {
    EvidenceRecord {
        id,
        investigation: d.investigation,
        custodian: d.custodian,
        subject: d.subject,
        origin: d.origin,
        source: None,
        derived_from: None,
        kind: d.kind,
        strength: d.strength,
        reliability: d.reliability,
        admissibility: d.admissibility,
        discovered_at: d.discovered_at,
    }
}

/// Evidence that passed validation, pinned to the case version it saw.
#[derive(Debug)]
pub struct ValidatedEvidence {
    draft: EvidenceDraft,
    expected_investigation_version: u32,
}

impl ValidatedEvidence {
    pub closed spec fn spec_draft(&self) -> EvidenceDraft {
        self.draft
    }

    pub closed spec fn spec_expected_version(&self) -> u32 {
        self.expected_investigation_version
    }

    /// The first reason the evidence cannot be filed now.
    pub open spec fn commit_error(&self, state: AppState) -> Option<InvestigationError> {
        let d = self.spec_draft();
        if evidence_error(state, d) is Some {
            evidence_error(state, d)
        } else if state.legal.spec_investigation(d.investigation)->0.version
            != self.spec_expected_version() {
            Some(
                InvestigationError::StaleInvestigation {
                    investigation: d.investigation,
                    expected: self.spec_expected_version(),
                    found: state.legal.spec_investigation(d.investigation)->0.version,
                },
            )
        } else if !evidence_capacity_ok(state, d) {
            Some(InvestigationError::VersionCapacity(VersionedRecord::Investigation))
        } else if invalidated_interview(state, d) is Some && state.legal.spec_work(
            invalidated_interview(state, d)->0,
        )->0.version == u32::MAX {
            Some(InvestigationError::VersionCapacity(VersionedRecord::InvestigationWork))
        } else if state.legal.evidence@.len() >= u32::MAX {
            Some(InvestigationError::IdExhaustion(IdExhaustionError::Exhausted { kind: IdKind::Evidence }))
        } else {
            None
        }
    }

    /// Files the evidence: the next evidence record is created, the case is revised now,
    /// actionable evidence identifies its subject, and an interview of a witness who thereby
    /// became a subject is cancelled.
    pub fn commit(self, state: &mut AppState) -> (r: Result<EvidenceId, InvestigationError>)
        requires
            old(state).wf(),
        ensures
            final(state).wf(),
            match self.commit_error(*old(state)) {
                Some(e) => r matches Err(x) && x == e && *final(state) == *old(state),
                None => {
                    let d = self.spec_draft();
                    let id = EvidenceId((old(state).legal.evidence@.len() + 1) as u32);
                    let before = old(state).legal.spec_investigation(d.investigation)->0;
                    let after = final(state).legal.spec_investigation(d.investigation)->0;
                    &&& r == Ok::<EvidenceId, InvestigationError>(id)
                    &&& final(state).legal.evidence@ == old(state).legal.evidence@.push(filed_evidence(d, id))
                    &&& final(state).legal.investigations@.len() == old(state).legal.investigations@.len()
                    &&& forall|i: int|
                        0 <= i < old(state).legal.investigations@.len() && i != d.investigation.0 - 1
                            ==> final(state).legal.investigations@[i] == old(state).legal.investigations@[i]
                    &&& after.subjects@ == promoted_subjects(
                        before.subjects@,
                        d.subject,
                        spec_actionable(d.strength, d.reliability, d.admissibility),
                    )
                    &&& after.status == before.status
                    &&& after.lead_investigator == before.lead_investigator
                    &&& after.last_activity_at == old(state).now
                    &&& after.version == before.version + 1
                    &&& final(state).legal.work@ == match invalidated_interview(*old(state), d) {
                        Some(w) => old(state).legal.work@.update(
                            w.0 - 1,
                            cancelled(
                                old(state).legal.work@[w.0 - 1],
                                InvestigationWorkCancellation {
                                    cancelled_at: old(state).now,
                                    reason: InvestigationWorkCancellationReason::WitnessBecameCaseSubject(id),
                                },
                            ),
                        ),
                        None => old(state).legal.work@,
                    }
                    &&& final(state).legal.arrests == old(state).legal.arrests
                    &&& final(state).legal.case_witnesses == old(state).legal.case_witnesses
                    &&& final(state).legal.informants == old(state).legal.informants
                    &&& final(state).legal.disclosures == old(state).legal.disclosures
                    &&& final(state).world == old(state).world
                    &&& final(state).intelligence == old(state).intelligence
                    &&& final(state).now == old(state).now
                    &&& final(state).rng == old(state).rng
                },
            },
    {
        let d = self.draft;
        validate_evidence_draft(state, &d)?;
        let version = match state.legal.get_investigation(d.investigation) {
            Some(rec) => rec.version,
            None => {
                return Err(InvestigationError::MissingInvestigation(d.investigation));
            },
        };
        if version != self.expected_investigation_version {
            return Err(
                InvestigationError::StaleInvestigation {
                    investigation: d.investigation,
                    expected: self.expected_investigation_version,
                    found: version,
                },
            );
        }
        ensure_evidence_capacity(state, &d)?;
        let invalidated = invalidated_interview_for(state, &d);
        proof {
            crate::legal::store::lemma_scheduled_headroom_bounds(
                state.legal.work@,
                d.investigation,
                invalidated,
            );
            if let Some(w) = invalidated {
                lemma_scheduled_focus_present(state.legal, d.investigation, w);
            }
        }
        if let Some(w) = invalidated {
            match state.legal.get_investigation_work(w) {
                Some(rec) => {
                    if rec.version == u32::MAX {
                        return Err(InvestigationError::VersionCapacity(VersionedRecord::InvestigationWork));
                    }
                },
                None => {},
            }
        }
        let len = state.legal.evidence.len();
        if len >= u32::MAX as usize {
            return Err(InvestigationError::IdExhaustion(IdExhaustionError::Exhausted { kind: IdKind::Evidence }));
        }
        let id = EvidenceId((len + 1) as u32);
        let now = state.now;
        if let Some(w) = invalidated {
            proof {
                lemma_scheduled_focus_present(old(state).legal, d.investigation, w);
            }
            state.legal.cancel_work(
                (w.0 - 1) as usize,
                InvestigationWorkCancellation {
                    cancelled_at: now,
                    reason: InvestigationWorkCancellationReason::WitnessBecameCaseSubject(id),
                },
            );
        }
        let actionable = evidence_assessment_is_actionable_case_lead(d.strength, d.reliability, d.admissibility);
        state.legal.insert_evidence(
            EvidenceRecord {
                id,
                investigation: d.investigation,
                custodian: d.custodian,
                subject: d.subject,
                origin: d.origin,
                source: None,
                derived_from: None,
                kind: d.kind,
                strength: d.strength,
                reliability: d.reliability,
                admissibility: d.admissibility,
                discovered_at: d.discovered_at,
            },
            actionable,
            now,
        );
        Ok(id)
    }
}

/// A scheduled-work query only ever names present work.
proof fn lemma_scheduled_focus_present(legal: crate::legal::LegalState, inv: InvestigationId, w: InvestigationWorkId)
    requires
        legal.wf(),
        exists|f: InvestigationWorkFocus, k: InvestigationWorkKind|
            legal.spec_scheduled_work_for_focus(inv, k, f) == Some(w),
    ensures
        1 <= w.0 <= legal.work@.len(),
{
    let (f, k) = choose|f: InvestigationWorkFocus, k: InvestigationWorkKind|
        legal.spec_scheduled_work_for_focus(inv, k, f) == Some(w);
    crate::seqs::lemma_first_index_props(legal.work@, crate::legal::scheduled_on_focus(inv, k, f));
}

/// Validates filing evidence with a case.
pub fn validate_add_evidence(state: &AppState, draft: EvidenceDraft) -> (r: Result<ValidatedEvidence, InvestigationError>)
    ensures
        match evidence_error(*state, draft) {
            Some(e) => r matches Err(x) && x == e,
            None => if !evidence_capacity_ok(*state, draft) {
                r matches Err(x) && x == InvestigationError::VersionCapacity(VersionedRecord::Investigation)
            } else {
                r matches Ok(t) && t.spec_draft() == draft && t.spec_expected_version()
                    == state.legal.spec_investigation(draft.investigation)->0.version
            },
        },
{
    validate_evidence_draft(state, &draft)?;
    let version = match state.legal.get_investigation(draft.investigation) {
        Some(rec) => rec.version,
        None => {
            return Err(InvestigationError::MissingInvestigation(draft.investigation));
        },
    };
    ensure_evidence_capacity(state, &draft)?;
    Ok(ValidatedEvidence { draft, expected_investigation_version: version })
}

} // verus!
