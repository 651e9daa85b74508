//! Knowledge validation and recording: every information record enters the state through a
//! validated token, and knowledge moves between holders only through internal transfers.

use vstd::prelude::*;
use crate::base::{IdExhaustionError, IdKind};
use crate::base::{
    ArrestId, CharacterId, EntityRef, InformationId, InvestigationId, OrganizationId, SimTime,
};
use crate::intelligence::{
    InformationRecord, InformationSignal, InformationSourceKind, InformationTopic,
    KnowledgeHolder, LegalPersonStatusSignal, Reliability, SignalView, Specificity,
};
use crate::seqs::{first_index, lemma_first_index_is, lemma_first_index_none};
use crate::state::AppState;
use crate::text::{is_blank, spec_is_blank};

verus! {

/// Why knowledge could not be recorded or transferred.
#[derive(Debug, PartialEq, Eq)]
pub enum IntelligenceError {
    EmptySummary,
    MissingCharacter(CharacterId),
    MissingOrganization(OrganizationId),
    MissingInformation(InformationId),
    MissingArrest(ArrestId),
    MissingEntity(EntityRef),
    ObservationInFuture,
    InvalidSignal { signal: InformationSignal, topic: InformationTopic, subject: EntityRef },
    InternalReportRequiresTransfer,
    ContactSourceRequiresDisclosure(InformationSourceKind),
    SystemSourceRequiresOwner(InformationSourceKind),
    InternalReportMissingProvenance,
    InternalReportSourceMismatch,
    InvalidSystemSourceKind(InformationSourceKind),
    SameHolder,
    DuplicateTransfer {
        source_information: InformationId,
        recipient: KnowledgeHolder,
        existing: InformationId,
    },
    TransferNotPermitted { source_holder: KnowledgeHolder, recipient: KnowledgeHolder },
    StaleTransferCharacter { character: CharacterId, expected: u32, found: u32 },
    IdExhaustion(IdExhaustionError),
}

/// Two errors agree, signals compared by meaning.
pub open spec fn same_error(e: IntelligenceError, f: IntelligenceError) -> bool {
    match (e, f) {
        (
            IntelligenceError::InvalidSignal { signal: s1, topic: t1, subject: u1 },
            IntelligenceError::InvalidSignal { signal: s2, topic: t2, subject: u2 },
        ) => s1@ == s2@ && t1 == t2 && u1 == u2,
        (IntelligenceError::InvalidSignal { .. }, _) => false,
        (_, IntelligenceError::InvalidSignal { .. }) => false,
        _ => e == f,
    }
}

/// Knowledge a holder is about to record.
#[derive(Debug)]
pub struct InformationDraft {
    pub holder: KnowledgeHolder,
    pub source_kind: InformationSourceKind,
    pub topic: InformationTopic,
    pub source_entity: Option<EntityRef>,
    pub subject: EntityRef,
    pub observed_at: SimTime,
    pub reliability: Reliability,
    pub specificity: Specificity,
    pub summary: String,
}

/// A request to pass an information record to another holder.
#[derive(Clone, Copy, Debug, PartialEq, Eq, Structural)]
pub struct InformationTransferDraft {
    pub source: InformationId,
    pub recipient: KnowledgeHolder,
}

/// Knowledge that passed validation and may be committed.
#[derive(Debug)]
pub struct ValidatedInformation {
    draft: InformationDraft,
    signal: Option<InformationSignal>,
    derived_from: Option<InformationId>,
}

/// Identity and holder of the record a validated token will create.
#[derive(Clone, Copy, Debug, PartialEq, Eq, Structural)]
pub struct PlannedInformationSource {
    pub id: InformationId,
    pub holder: KnowledgeHolder,
}

impl ValidatedInformation {
    pub closed spec fn spec_draft(&self) -> InformationDraft {
        self.draft
    }

    pub closed spec fn spec_signal(&self) -> Option<InformationSignal> {
        self.signal
    }

    pub closed spec fn spec_derived_from(&self) -> Option<InformationId> {
        self.derived_from
    }

    pub open spec fn signal_view(&self) -> Option<SignalView> {
        match self.spec_signal() {
            Some(s) => Some(s@),
            None => None,
        }
    }

    /// Why the record this token creates cannot stand beside `len` earlier records: it is
    /// derived from a record that is not among them, or it is an internal report derived from
    /// nothing.
    pub open spec fn derivation_error(&self, len: nat) -> Option<IntelligenceError> {
        match self.spec_derived_from() {
            Some(src) => if 1 <= src.0 <= len {
                None
            } else {
                Some(IntelligenceError::MissingInformation(src))
            },
            None => if self.spec_draft().source_kind == InformationSourceKind::InternalReport {
                Some(IntelligenceError::InternalReportMissingProvenance)
            } else {
                None
            },
        }
    }

    /// The record this token creates under `id` at `now`.
    pub open spec fn record(&self, id: InformationId, now: SimTime) -> InformationRecord {
        InformationRecord {
            id,
            holder: self.spec_draft().holder,
            source_kind: self.spec_draft().source_kind,
            topic: self.spec_draft().topic,
            source_entity: self.spec_draft().source_entity,
            subject: self.spec_draft().subject,
            observed_at: self.spec_draft().observed_at,
            recorded_at: now,
            reliability: self.spec_draft().reliability,
            specificity: self.spec_draft().specificity,
            signal: self.spec_signal(),
            derived_from: self.spec_derived_from(),
            summary: self.spec_draft().summary,
        }
    }

    /// The identifier and holder of the record a commit would create now.
    pub fn planned_source(&self, state: &AppState) -> (r: PlannedInformationSource)
        requires
            state.intelligence.records@.len() < u32::MAX,
        ensures
            r.id.0 == state.intelligence.records@.len() + 1,
            r.holder == self.spec_draft().holder,
    {
        PlannedInformationSource {
            id: InformationId((state.intelligence.records.len() + 1) as u32),
            holder: self.draft.holder,
        }
    }

    /// Persists the validated knowledge as the next information record, stamped with the
    /// current instant.
    pub fn commit(self, state: &mut AppState) -> (r: Result<InformationId, IntelligenceError>)
        requires
            old(state).wf(),
        ensures
            final(state).wf(),
            old(state).intelligence.records@.len() < u32::MAX && self.derivation_error(
                old(state).intelligence.records@.len(),
            ) is Some ==> r == Err::<InformationId, IntelligenceError>(
                self.derivation_error(old(state).intelligence.records@.len())->0,
            ) && *final(state) == *old(state),
            old(state).intelligence.records@.len() < u32::MAX && self.derivation_error(
                old(state).intelligence.records@.len(),
            ) is None ==> {
                let id = InformationId((old(state).intelligence.records@.len() + 1) as u32);
                &&& r matches Ok(got) && got == id
                &&& final(state).intelligence.records@ == old(state).intelligence.records@.push(
                    self.record(id, old(state).now),
                )
                &&& final(state).world == old(state).world
                &&& final(state).legal == old(state).legal
                &&& final(state).now == old(state).now
                &&& final(state).rng == old(state).rng
            },
            old(state).intelligence.records@.len() >= u32::MAX ==> (r matches Err(
                IntelligenceError::IdExhaustion(IdExhaustionError::Exhausted { kind: IdKind::Information }),
            ) && *final(state) == *old(state)),
    {
        let len = state.intelligence.records.len();
        if len >= u32::MAX as usize {
            return Err(IntelligenceError::IdExhaustion(IdExhaustionError::Exhausted { kind: IdKind::Information }));
        }
        match self.derived_from {
            Some(src) => {
                if src.0 < 1 || src.0 as usize > len {
                    return Err(IntelligenceError::MissingInformation(src));
                }
            },
            None => {
                if self.draft.source_kind == InformationSourceKind::InternalReport {
                    return Err(IntelligenceError::InternalReportMissingProvenance);
                }
            },
        }
        let id = InformationId((len + 1) as u32);
        let now = state.now;
        let ValidatedInformation { draft, signal, derived_from } = self;
        state.intelligence.records.push(
            InformationRecord {
                id,
                holder: draft.holder,
                source_kind: draft.source_kind,
                topic: draft.topic,
                source_entity: draft.source_entity,
                subject: draft.subject,
                observed_at: draft.observed_at,
                recorded_at: now,
                reliability: draft.reliability,
                specificity: draft.specificity,
                signal,
                derived_from,
                summary: draft.summary,
            },
        );
        Ok(id)
    }
}

/// Where a holder is missing from the world, the error naming it.
pub open spec fn holder_error(state: AppState, holder: KnowledgeHolder) -> Option<IntelligenceError> {
    match holder {
        KnowledgeHolder::Character(id) => if state.world.character_present(id) {
            None
        } else {
            Some(IntelligenceError::MissingCharacter(id))
        },
        KnowledgeHolder::Organization(id) => if state.world.organization_present(id) {
            None
        } else {
            Some(IntelligenceError::MissingOrganization(id))
        },
    }
}

/// The first reason a draft cannot be recorded, checked in order: summary, holder, subject,
/// source entity, observation time.
pub open spec fn draft_error(state: AppState, draft: InformationDraft) -> Option<IntelligenceError> {
    if spec_is_blank(draft.summary@) {
        Some(IntelligenceError::EmptySummary)
    } else if holder_error(state, draft.holder) is Some {
        holder_error(state, draft.holder)
    } else if !state.entity_present(draft.subject) {
        Some(IntelligenceError::MissingEntity(draft.subject))
    } else if draft.source_entity is Some && !state.entity_present(draft.source_entity->0) {
        Some(IntelligenceError::MissingEntity(draft.source_entity->0))
    } else if draft.observed_at.0 > state.now.0 {
        Some(IntelligenceError::ObservationInFuture)
    } else {
        None
    }
}

/// Whether a legal-person fact names the character its episode belongs to, and whether that
/// episode already existed when the fact was observed.
pub open spec fn history_matches(state: AppState, subject: EntityRef, observed_at: SimTime, signal: SignalView) -> bool {
    match signal {
        SignalView::LegalPersonStatus(LegalPersonStatusSignal::CaseWitness { investigation }) => {
            match subject {
                EntityRef::Character(c) => match state.legal.spec_case_witness_for(
                    investigation,
                    c,
                ) {
                    Some(w) => match state.legal.spec_case_witness(w) {
                        Some(rec) => rec.registered_at.0 <= observed_at.0,
                        None => false,
                    },
                    None => false,
                },
                _ => false,
            }
        },
        SignalView::LegalPersonStatus(LegalPersonStatusSignal::Detained { arrest }) => {
            match subject {
                EntityRef::Character(c) => match state.legal.spec_arrest(arrest) {
                    Some(a) => a.character == c && a.arrested_at.0 <= observed_at.0 && match a.released_at {
                        Some(t) => observed_at.0 <= t.0,
                        None => true,
                    },
                    None => false,
                },
                _ => false,
            }
        },
        _ => true,
    }
}

pub open spec fn missing_in(state: AppState) -> spec_fn(EntityRef) -> bool {
    |e: EntityRef| !state.entity_present(e)
}

/// The first reason a signal cannot ride on a draft.
pub open spec fn signal_error(state: AppState, draft: InformationDraft, signal: InformationSignal) -> Option<IntelligenceError> {
    let invalid = IntelligenceError::InvalidSignal {
        signal,
        topic: draft.topic,
        subject: draft.subject,
    };
    if !signal@.compatible(draft.topic, draft.subject) {
        Some(invalid)
    } else if signal@ matches SignalView::LegalPersonStatus(LegalPersonStatusSignal::Detained { arrest })
        && state.legal.spec_arrest(arrest) is None {
        Some(IntelligenceError::MissingArrest(signal@->LegalPersonStatus_0->arrest))
    } else if !history_matches(state, draft.subject, draft.observed_at, signal@) {
        Some(invalid)
    } else {
        match first_index(signal@.referenced(), missing_in(state)) {
            Some(i) => Some(IntelligenceError::MissingEntity(signal@.referenced()[i])),
            None => None,
        }
    }
}

pub fn validate_holder_exists(state: &AppState, holder: KnowledgeHolder) -> (r: Result<(), IntelligenceError>)
    ensures
        match holder_error(*state, holder) {
            Some(e) => r matches Err(x) && x == e,
            None => r is Ok,
        },
{
    match holder {
        KnowledgeHolder::Character(id) => {
            if state.world.get_character(id).is_none() {
                return Err(IntelligenceError::MissingCharacter(id));
            }
        },
        KnowledgeHolder::Organization(id) => {
            if state.world.get_organization(id).is_none() {
                return Err(IntelligenceError::MissingOrganization(id));
            }
        },
    }
    Ok(())
}

pub fn validate_information_draft(state: &AppState, draft: &InformationDraft) -> (r: Result<(), IntelligenceError>)
    ensures
        match draft_error(*state, *draft) {
            Some(e) => r matches Err(x) && x == e,
            None => r is Ok,
        },
{
    if is_blank(draft.summary.as_str()) {
        return Err(IntelligenceError::EmptySummary);
    }
    validate_holder_exists(state, draft.holder)?;
    if !state.is_entity_present(draft.subject) {
        return Err(IntelligenceError::MissingEntity(draft.subject));
    }
    if let Some(source) = draft.source_entity {
        if !state.is_entity_present(source) {
            return Err(IntelligenceError::MissingEntity(source));
        }
    }
    if draft.observed_at.0 > state.now.0 {
        return Err(IntelligenceError::ObservationInFuture);
    }
    Ok(())
}

/// Whether a typed fact's legal episode belongs to its subject and predates the observation.
/// A release in the same minute remains admissible.
pub fn information_signal_matches_subject_history(state: &AppState, subject: EntityRef, observed_at: SimTime, signal: &InformationSignal) -> (r: bool)
    ensures
        r == history_matches(*state, subject, observed_at, signal@),
{
    match signal {
        InformationSignal::LegalPersonStatus(LegalPersonStatusSignal::CaseWitness { investigation }) => {
            let c = match subject {
                EntityRef::Character(c) => c,
                _ => {
                    return false;
                },
            };
            match state.legal.case_witness_for(*investigation, c) {
                Some(w) => match state.legal.get_case_witness(w) {
                    Some(record) => record.registered_at.0 <= observed_at.0,
                    None => false,
                },
                None => false,
            }
        },
        InformationSignal::LegalPersonStatus(LegalPersonStatusSignal::Detained { arrest }) => {
            let c = match subject {
                EntityRef::Character(c) => c,
                _ => {
                    return false;
                },
            };
            match state.legal.get_arrest(*arrest) {
                Some(a) => a.character == c && a.arrested_at.0 <= observed_at.0 && match a.released_at {
                    Some(t) => observed_at.0 <= t.0,
                    None => true,
                },
                None => false,
            }
        },
        _ => true,
    }
}

#[verifier::loop_isolation(false)]
pub fn validate_information_signal(state: &AppState, draft: &InformationDraft, signal: &InformationSignal) -> (r: Result<(), IntelligenceError>)
    ensures
        match signal_error(*state, *draft, *signal) {
            Some(e) => r matches Err(x) && same_error(x, e),
            None => r is Ok,
        },
{
    if !signal.is_compatible(draft.topic, draft.subject) {
        return Err(
            IntelligenceError::InvalidSignal {
                signal: signal.duplicate(),
                topic: draft.topic,
                subject: draft.subject,
            },
        );
    }
    if let InformationSignal::LegalPersonStatus(LegalPersonStatusSignal::Detained { arrest }) = signal {
        if state.legal.get_arrest(*arrest).is_none() {
            return Err(IntelligenceError::MissingArrest(*arrest));
        }
    }
    if !information_signal_matches_subject_history(state, draft.subject, draft.observed_at, signal) {
        return Err(
            IntelligenceError::InvalidSignal {
                signal: signal.duplicate(),
                topic: draft.topic,
                subject: draft.subject,
            },
        );
    }
    let referenced = signal.referenced_entities();
    let mut i: usize = 0;
    while i < referenced.len()
        invariant
            i <= referenced.len(),
            referenced@ == signal@.referenced(),
            forall|j: int| 0 <= j < i ==> !missing_in(*state)(#[trigger] referenced@[j]),
        decreases referenced.len() - i,
    {
        if !state.is_entity_present(referenced[i]) {
            proof {
                lemma_first_index_is(referenced@, missing_in(*state), i as int);
            }
            return Err(IntelligenceError::MissingEntity(referenced[i]));
        }
        i = i + 1;
    }
    proof {
        lemma_first_index_none(referenced@, missing_in(*state));
    }
    Ok(())
}

/// Source kinds a holder may record directly: first-hand observation and street rumor.
pub open spec fn direct_source_error(kind: InformationSourceKind) -> Option<IntelligenceError> {
    if kind == InformationSourceKind::InternalReport {
        Some(IntelligenceError::InternalReportRequiresTransfer)
    } else if kind.spec_is_contact_derivation() {
        Some(IntelligenceError::ContactSourceRequiresDisclosure(kind))
    } else if kind == InformationSourceKind::DirectObservation || kind
        == InformationSourceKind::StreetRumor {
        None
    } else {
        Some(IntelligenceError::SystemSourceRequiresOwner(kind))
    }
}

/// Source kinds only an owning system may author.
pub open spec fn system_source_error(kind: InformationSourceKind) -> Option<IntelligenceError> {
    match kind {
        InformationSourceKind::Accounting | InformationSourceKind::Surveillance
        | InformationSourceKind::AcquiredRecords | InformationSourceKind::AfterAction => None,
        _ => Some(IntelligenceError::InvalidSystemSourceKind(kind)),
    }
}

pub fn validate_direct_recording_source_kind(kind: InformationSourceKind) -> (r: Result<(), IntelligenceError>)
    ensures
        match direct_source_error(kind) {
            Some(e) => r matches Err(x) && x == e,
            None => r is Ok,
        },
{
    if kind == InformationSourceKind::InternalReport {
        return Err(IntelligenceError::InternalReportRequiresTransfer);
    }
    if kind.is_contact_derivation() {
        return Err(IntelligenceError::ContactSourceRequiresDisclosure(kind));
    }
    match kind {
        InformationSourceKind::DirectObservation | InformationSourceKind::StreetRumor => Ok(()),
        _ => Err(IntelligenceError::SystemSourceRequiresOwner(kind)),
    }
}

pub fn validate_system_recording_source_kind(kind: InformationSourceKind) -> (r: Result<(), IntelligenceError>)
    ensures
        match system_source_error(kind) {
            Some(e) => r matches Err(x) && x == e,
            None => r is Ok,
        },
{
    match kind {
        InformationSourceKind::Accounting | InformationSourceKind::Surveillance
        | InformationSourceKind::AcquiredRecords | InformationSourceKind::AfterAction => Ok(()),
        _ => Err(IntelligenceError::InvalidSystemSourceKind(kind)),
    }
}

/// Validates first-hand or rumored knowledge without a typed signal.
pub fn validate_record_information(state: &AppState, draft: InformationDraft) -> (r: Result<ValidatedInformation, IntelligenceError>)
    ensures
        match direct_source_error(draft.source_kind) {
            Some(e) => r matches Err(x) && x == e,
            None => match draft_error(*state, draft) {
                Some(e) => r matches Err(x) && x == e,
                None => r matches Ok(t) && t.spec_draft() == draft && t.spec_signal() is None
                    && t.spec_derived_from() is None,
            },
        },
{
    validate_direct_recording_source_kind(draft.source_kind)?;
    validate_information_draft(state, &draft)?;
    Ok(ValidatedInformation { draft, signal: None, derived_from: None })
}

/// Validates knowledge authored by an owning system (accounting, surveillance, acquired
/// records, after-action review).
pub fn validate_record_system_information(state: &AppState, draft: InformationDraft) -> (r: Result<ValidatedInformation, IntelligenceError>)
    ensures
        match system_source_error(draft.source_kind) {
            Some(e) => r matches Err(x) && x == e,
            None => match draft_error(*state, draft) {
                Some(e) => r matches Err(x) && x == e,
                None => r matches Ok(t) && t.spec_draft() == draft && t.spec_signal() is None
                    && t.spec_derived_from() is None,
            },
        },
{
    validate_system_recording_source_kind(draft.source_kind)?;
    validate_information_draft(state, &draft)?;
    Ok(ValidatedInformation { draft, signal: None, derived_from: None })
}

/// Validates first-hand or rumored knowledge carrying a typed signal.
pub fn validate_record_information_with_signal(state: &AppState, draft: InformationDraft, signal: InformationSignal) -> (r: Result<ValidatedInformation, IntelligenceError>)
    ensures
        match direct_source_error(draft.source_kind) {
            Some(e) => r matches Err(x) && x == e,
            None => match draft_error(*state, draft) {
                Some(e) => r matches Err(x) && x == e,
                None => match signal_error(*state, draft, signal) {
                    Some(e) => r matches Err(x) && same_error(x, e),
                    None => r matches Ok(t) && t.spec_draft() == draft && t.spec_signal()
                        == Some(signal) && t.spec_derived_from() is None,
                },
            },
        },
{
    validate_direct_recording_source_kind(draft.source_kind)?;
    validate_information_draft(state, &draft)?;
    validate_information_signal(state, &draft, &signal)?;
    Ok(ValidatedInformation { draft, signal: Some(signal), derived_from: None })
}

/// Validates system-authored knowledge carrying a typed signal.
pub fn validate_record_system_information_with_signal(state: &AppState, draft: InformationDraft, signal: InformationSignal) -> (r: Result<ValidatedInformation, IntelligenceError>)
    ensures
        match system_source_error(draft.source_kind) {
            Some(e) => r matches Err(x) && x == e,
            None => match draft_error(*state, draft) {
                Some(e) => r matches Err(x) && x == e,
                None => match signal_error(*state, draft, signal) {
                    Some(e) => r matches Err(x) && same_error(x, e),
                    None => r matches Ok(t) && t.spec_draft() == draft && t.spec_signal()
                        == Some(signal) && t.spec_derived_from() is None,
                },
            },
        },
{
    validate_system_recording_source_kind(draft.source_kind)?;
    validate_information_draft(state, &draft)?;
    validate_information_signal(state, &draft, &signal)?;
    Ok(ValidatedInformation { draft, signal: Some(signal), derived_from: None })
}

/// Whether the planned-registration exception applies: a first-hand witness fact about the
/// witness, observed now, about a persisted investigation.
pub open spec fn planned_witness_fact_ok(state: AppState, draft: InformationDraft, investigation: InvestigationId, witness: CharacterId) -> bool {
    &&& draft.source_kind == InformationSourceKind::DirectObservation
    &&& draft.subject == EntityRef::Character(witness)
    &&& draft.observed_at == state.now
    &&& draft.topic == InformationTopic::LegalActivity
    &&& state.entity_present(EntityRef::Investigation(investigation))
}

/// Validates a lead's knowledge of a witness whose registration commits in the same
/// transaction, before the registration itself exists.
pub fn validate_record_planned_case_witness_information(state: &AppState, draft: InformationDraft, investigation: InvestigationId, witness: CharacterId) -> (r: Result<ValidatedInformation, IntelligenceError>)
    ensures
        match direct_source_error(draft.source_kind) {
            Some(e) => r matches Err(x) && x == e,
            None => match draft_error(*state, draft) {
                Some(e) => r matches Err(x) && x == e,
                None => if planned_witness_fact_ok(*state, draft, investigation, witness) {
                    r matches Ok(t) && t.spec_draft() == draft && (t.spec_signal() matches Some(s)
                        && s@ == SignalView::LegalPersonStatus(
                        LegalPersonStatusSignal::CaseWitness { investigation },
                    )) && t.spec_derived_from() is None
                } else {
                    r matches Err(IntelligenceError::InvalidSignal { signal, topic, subject })
                        && signal@ == SignalView::LegalPersonStatus(
                        LegalPersonStatusSignal::CaseWitness { investigation },
                    ) && topic == draft.topic && subject == draft.subject
                },
            },
        },
{
    validate_direct_recording_source_kind(draft.source_kind)?;
    validate_information_draft(state, &draft)?;
    let signal = InformationSignal::LegalPersonStatus(
        LegalPersonStatusSignal::CaseWitness { investigation },
    );
    if draft.source_kind != InformationSourceKind::DirectObservation || draft.subject
        != EntityRef::Character(witness) || draft.observed_at != state.now
        || !signal.is_compatible(draft.topic, draft.subject) || !state.is_entity_present(
        EntityRef::Investigation(investigation),
    ) {
        return Err(
            IntelligenceError::InvalidSignal { signal, topic: draft.topic, subject: draft.subject },
        );
    }
    Ok(ValidatedInformation { draft, signal: Some(signal), derived_from: None })
}


/// Whether `character` is a current member of `organization`.
pub open spec fn member_of(state: AppState, character: CharacterId, organization: OrganizationId) -> bool {
    match state.world.spec_character(character) {
        Some(rec) => rec.organization == Some(organization),
        None => false,
    }
}

/// Knowledge moves between an organization and its members, or between two members of one
/// organization; never between two organizations.
pub open spec fn transfer_permitted(state: AppState, source: KnowledgeHolder, recipient: KnowledgeHolder) -> bool {
    match (source, recipient) {
        (KnowledgeHolder::Character(c), KnowledgeHolder::Organization(o)) => member_of(state, c, o),
        (KnowledgeHolder::Organization(o), KnowledgeHolder::Character(c)) => member_of(state, c, o),
        (KnowledgeHolder::Character(a), KnowledgeHolder::Character(b)) => match state.world.spec_character(a) {
            Some(ra) => ra.organization is Some && match state.world.spec_character(b) {
                Some(rb) => rb.organization == ra.organization,
                None => false,
            },
            None => false,
        },
        (KnowledgeHolder::Organization(_), KnowledgeHolder::Organization(_)) => false,
    }
}

/// The first reason two holders cannot exchange knowledge.
pub open spec fn relationship_error(state: AppState, source: KnowledgeHolder, recipient: KnowledgeHolder) -> Option<IntelligenceError> {
    if holder_error(state, source) is Some {
        holder_error(state, source)
    } else if holder_error(state, recipient) is Some {
        holder_error(state, recipient)
    } else if !transfer_permitted(state, source, recipient) {
        Some(IntelligenceError::TransferNotPermitted { source_holder: source, recipient })
    } else {
        None
    }
}

/// The membership version of a character holder, which a transfer token pins.
pub open spec fn holder_version(state: AppState, holder: KnowledgeHolder) -> Seq<(CharacterId, u32)> {
    match holder {
        KnowledgeHolder::Character(c) => seq![(c, state.world.spec_character(c)->0.version)],
        KnowledgeHolder::Organization(_) => Seq::empty(),
    }
}

pub open spec fn holder_versions(state: AppState, source: KnowledgeHolder, recipient: KnowledgeHolder) -> Seq<(CharacterId, u32)> {
    holder_version(state, source) + holder_version(state, recipient)
}

/// The refusal for a transfer that already happened.
pub open spec fn duplicate_error(state: AppState, source: InformationId, recipient: KnowledgeHolder) -> Option<IntelligenceError> {
    match state.intelligence.spec_internal_transfer_for(source, recipient) {
        Some(i) => Some(
            IntelligenceError::DuplicateTransfer {
                source_information: source,
                recipient,
                existing: state.intelligence.records@[i].id,
            },
        ),
        None => None,
    }
}

/// Validated permission to pass one record to one holder, pinned to the membership versions
/// of the characters involved.
#[derive(Debug)]
pub struct ValidatedInformationTransfer {
    source: InformationId,
    recipient: KnowledgeHolder,
    expected_versions: Vec<(CharacterId, u32)>,
}

/// A pinned character that is gone or whose membership changed since validation.
pub open spec fn stale_version(state: AppState) -> spec_fn((CharacterId, u32)) -> bool {
    |p: (CharacterId, u32)|
        match state.world.spec_character(p.0) {
            Some(rec) => rec.version != p.1,
            None => true,
        }
}

pub open spec fn version_error(state: AppState, versions: Seq<(CharacterId, u32)>) -> Option<IntelligenceError> {
    match first_index(versions, stale_version(state)) {
        Some(i) => match state.world.spec_character(versions[i].0) {
            Some(rec) => Some(
                IntelligenceError::StaleTransferCharacter {
                    character: versions[i].0,
                    expected: versions[i].1,
                    found: rec.version,
                },
            ),
            None => Some(IntelligenceError::MissingCharacter(versions[i].0)),
        },
        None => None,
    }
}

/// The internal report a transfer of `source` to `recipient` records.
pub open spec fn transfer_draft(source: InformationRecord, recipient: KnowledgeHolder) -> InformationDraft {
    InformationDraft {
        holder: recipient,
        source_kind: InformationSourceKind::InternalReport,
        topic: source.topic,
        source_entity: Some(source.holder.spec_entity()),
        subject: source.subject,
        observed_at: source.observed_at,
        reliability: source.reliability,
        specificity: source.specificity,
        summary: source.summary,
    }
}

/// Whether `rec` is the internal report that passes `source` to `recipient` under `id` at `now`,
/// carrying the same fact and naming its source as provenance.
pub open spec fn is_transfer_record(rec: InformationRecord, source: InformationRecord, recipient: KnowledgeHolder, id: InformationId, now: SimTime) -> bool {
    &&& rec.id == id
    &&& rec.holder == recipient
    &&& rec.source_kind == InformationSourceKind::InternalReport
    &&& rec.topic == source.topic
    &&& rec.source_entity == Some(source.holder.spec_entity())
    &&& rec.subject == source.subject
    &&& rec.observed_at == source.observed_at
    &&& rec.recorded_at == now
    &&& rec.reliability == source.reliability
    &&& rec.specificity == source.specificity
    &&& rec.signal_view() == source.signal_view()
    &&& rec.derived_from == Some(source.id)
    &&& rec.summary@ == source.summary@
}

/// The first reason an internal report draft cannot be derived from `source`.
pub open spec fn internal_transfer_error(state: AppState, draft: InformationDraft, source: InformationId) -> Option<IntelligenceError> {
    if draft.source_kind != InformationSourceKind::InternalReport || draft.source_entity is None {
        Some(IntelligenceError::InternalReportMissingProvenance)
    } else if draft_error(state, draft) is Some {
        draft_error(state, draft)
    } else if state.intelligence.spec_get(source) is None {
        Some(IntelligenceError::MissingInformation(source))
    } else if draft.source_entity != Some(state.intelligence.spec_get(source)->0.holder.spec_entity()) {
        Some(IntelligenceError::InternalReportSourceMismatch)
    } else {
        match state.intelligence.spec_get(source)->0.signal {
            Some(sig) => signal_error(state, draft, sig),
            None => None,
        }
    }
}

impl ValidatedInformationTransfer {
    pub closed spec fn spec_source(&self) -> InformationId {
        self.source
    }

    pub closed spec fn spec_recipient(&self) -> KnowledgeHolder {
        self.recipient
    }

    pub closed spec fn spec_versions(&self) -> Seq<(CharacterId, u32)> {
        self.expected_versions@
    }

    /// The first reason committing the transfer now would fail.
    pub open spec fn commit_error(&self, state: AppState) -> Option<IntelligenceError> {
        match state.intelligence.spec_get(self.spec_source()) {
            None => Some(IntelligenceError::MissingInformation(self.spec_source())),
            Some(src) => if version_error(state, self.spec_versions()) is Some {
                version_error(state, self.spec_versions())
            } else if relationship_error(state, src.holder, self.spec_recipient()) is Some {
                relationship_error(state, src.holder, self.spec_recipient())
            } else if duplicate_error(state, self.spec_source(), self.spec_recipient()) is Some {
                duplicate_error(state, self.spec_source(), self.spec_recipient())
            } else if internal_transfer_error(
                state,
                transfer_draft(src, self.spec_recipient()),
                self.spec_source(),
            ) is Some {
                internal_transfer_error(
                    state,
                    transfer_draft(src, self.spec_recipient()),
                    self.spec_source(),
                )
            } else if state.intelligence.records@.len() >= u32::MAX {
                Some(IntelligenceError::IdExhaustion(IdExhaustionError::Exhausted { kind: IdKind::Information }))
            } else {
                None
            },
        }
    }

    /// Re-checks membership, relationship and duplication against the current state, then
    /// records the recipient's internal report derived from the source record.
    pub fn commit(self, state: &mut AppState) -> (r: Result<InformationId, IntelligenceError>)
        requires
            old(state).wf(),
        ensures
            final(state).wf(),
            match self.commit_error(*old(state)) {
                Some(e) => r matches Err(x) && same_error(x, e) && *final(state) == *old(state),
                None => {
                    let id = InformationId((old(state).intelligence.records@.len() + 1) as u32);
                    &&& r == Ok::<InformationId, IntelligenceError>(id)
                    &&& final(state).intelligence.records@.len() == old(state).intelligence.records@.len() + 1
                    &&& final(state).intelligence.records@.drop_last() == old(state).intelligence.records@
                    &&& is_transfer_record(
                        final(state).intelligence.records@.last(),
                        old(state).intelligence.spec_get(self.spec_source())->0,
                        self.spec_recipient(),
                        id,
                        old(state).now,
                    )
                    &&& final(state).world == old(state).world
                    &&& final(state).legal == old(state).legal
                    &&& final(state).now == old(state).now
                    &&& final(state).rng == old(state).rng
                },
            },
    {
        let token = {
            let source = match state.intelligence.get_information(self.source) {
                Some(rec) => rec,
                None => {
                    return Err(IntelligenceError::MissingInformation(self.source));
                },
            };
            check_expected_versions(state, &self.expected_versions)?;
            validate_transfer_relationship(state, source.holder, self.recipient)?;
            ensure_transfer_not_duplicate(state, self.source, self.recipient)?;
            let draft = build_transfer_draft(source, self.recipient);
            validate_internal_transfer_information(state, draft, self.source)?
        };
        let ghost src = old(state).intelligence.spec_get(self.spec_source())->0;
        let r = token.commit(state);
        proof {
            if old(state).intelligence.records@.len() < u32::MAX {
                assert(final(state).intelligence.records@.drop_last() =~= old(state).intelligence.records@);
            }
        }
        r
    }
}

/// Checks that every pinned character still exists with the version it had at validation.
fn check_expected_versions(state: &AppState, versions: &Vec<(CharacterId, u32)>) -> (r: Result<(), IntelligenceError>)
    ensures
        match version_error(*state, versions@) {
            Some(e) => r matches Err(x) && x == e,
            None => r is Ok,
        },
{
    let mut i: usize = 0;
    while i < versions.len()
        invariant
            i <= versions.len(),
            forall|j: int| 0 <= j < i ==> !stale_version(*state)(#[trigger] versions@[j]),
        decreases versions.len() - i,
    {
        let (character, expected) = versions[i];
        match state.world.get_character(character) {
            Some(rec) => {
                if rec.version != expected {
                    proof {
                        lemma_first_index_is(versions@, stale_version(*state), i as int);
                    }
                    return Err(
                        IntelligenceError::StaleTransferCharacter {
                            character,
                            expected,
                            found: rec.version,
                        },
                    );
                }
            },
            None => {
                proof {
                    lemma_first_index_is(versions@, stale_version(*state), i as int);
                }
                return Err(IntelligenceError::MissingCharacter(character));
            },
        }
        i = i + 1;
    }
    proof {
        lemma_first_index_none(versions@, stale_version(*state));
    }
    Ok(())
}

/// Checks both holders and their relationship, and pins the membership versions of the
/// characters involved.
fn validate_transfer_relationship(state: &AppState, source: KnowledgeHolder, recipient: KnowledgeHolder) -> (r: Result<Vec<(CharacterId, u32)>, IntelligenceError>)
    ensures
        match relationship_error(*state, source, recipient) {
            Some(e) => r matches Err(x) && x == e,
            None => r matches Ok(v) && v@ == holder_versions(*state, source, recipient),
        },
{
    validate_holder_exists(state, source)?;
    validate_holder_exists(state, recipient)?;
    let permitted = match (source, recipient) {
        (KnowledgeHolder::Character(c), KnowledgeHolder::Organization(o)) => match state.world.get_character(c) {
            Some(rec) => rec.organization == Some(o),
            None => false,
        },
        (KnowledgeHolder::Organization(o), KnowledgeHolder::Character(c)) => match state.world.get_character(c) {
            Some(rec) => rec.organization == Some(o),
            None => false,
        },
        (KnowledgeHolder::Character(a), KnowledgeHolder::Character(b)) => match state.world.get_character(a) {
            Some(ra) => match ra.organization {
                Some(org) => match state.world.get_character(b) {
                    Some(rb) => rb.organization == Some(org),
                    None => false,
                },
                None => false,
            },
            None => false,
        },
        (KnowledgeHolder::Organization(_), KnowledgeHolder::Organization(_)) => false,
    };
    if !permitted {
        return Err(IntelligenceError::TransferNotPermitted { source_holder: source, recipient });
    }
    let mut versions: Vec<(CharacterId, u32)> = Vec::new();
    if let KnowledgeHolder::Character(c) = source {
        let version = match state.world.get_character(c) {
            Some(rec) => rec.version,
            None => {
                return Err(IntelligenceError::MissingCharacter(c));
            },
        };
        versions.push((c, version));
    }
    if let KnowledgeHolder::Character(c) = recipient {
        let version = match state.world.get_character(c) {
            Some(rec) => rec.version,
            None => {
                return Err(IntelligenceError::MissingCharacter(c));
            },
        };
        versions.push((c, version));
    }
    assert(versions@ =~= holder_versions(*state, source, recipient));
    Ok(versions)
}

/// Refuses a transfer whose internal report already exists.
fn ensure_transfer_not_duplicate(state: &AppState, source: InformationId, recipient: KnowledgeHolder) -> (r: Result<(), IntelligenceError>)
    ensures
        match duplicate_error(*state, source, recipient) {
            Some(e) => r matches Err(x) && x == e,
            None => r is Ok,
        },
{
    match state.intelligence.internal_transfer_for(source, recipient) {
        Some(existing) => Err(
            IntelligenceError::DuplicateTransfer { source_information: source, recipient, existing },
        ),
        None => Ok(()),
    }
}

/// The internal report draft that passes `source` to `recipient`.
fn build_transfer_draft(source: &InformationRecord, recipient: KnowledgeHolder) -> (r: InformationDraft)
    ensures
        r.holder == recipient,
        r.source_kind == InformationSourceKind::InternalReport,
        r.topic == source.topic,
        r.source_entity == Some(source.holder.spec_entity()),
        r.subject == source.subject,
        r.observed_at == source.observed_at,
        r.reliability == source.reliability,
        r.specificity == source.specificity,
        r.summary@ == source.summary@,
{
    InformationDraft {
        holder: recipient,
        source_kind: InformationSourceKind::InternalReport,
        topic: source.topic,
        source_entity: Some(source.holder.entity()),
        subject: source.subject,
        observed_at: source.observed_at,
        reliability: source.reliability,
        specificity: source.specificity,
        summary: crate::text::owned_text(source.summary.as_str()),
    }
}

/// Validates an internal report: it must name its source holder as provenance, and a typed
/// fact it carries must still hold for the recipient's record.
fn validate_internal_transfer_information(state: &AppState, draft: InformationDraft, source: InformationId) -> (r: Result<ValidatedInformation, IntelligenceError>)
    ensures
        match internal_transfer_error(*state, draft, source) {
            Some(e) => r matches Err(x) && same_error(x, e),
            None => r matches Ok(t) && t.spec_draft() == draft && t.signal_view()
                == state.intelligence.spec_get(source)->0.signal_view() && t.spec_derived_from()
                == Some(source),
        },
{
    if draft.source_kind != InformationSourceKind::InternalReport || draft.source_entity.is_none() {
        return Err(IntelligenceError::InternalReportMissingProvenance);
    }
    validate_information_draft(state, &draft)?;
    let source_record = match state.intelligence.get_information(source) {
        Some(rec) => rec,
        None => {
            return Err(IntelligenceError::MissingInformation(source));
        },
    };
    if draft.source_entity != Some(source_record.holder.entity()) {
        return Err(IntelligenceError::InternalReportSourceMismatch);
    }
    let signal = match &source_record.signal {
        Some(sig) => {
            validate_information_signal(state, &draft, sig)?;
            Some(sig.duplicate())
        },
        None => None,
    };
    Ok(ValidatedInformation { draft, signal, derived_from: Some(source) })
}

/// Validates passing an existing record to another holder.
pub fn validate_information_transfer(state: &AppState, draft: InformationTransferDraft) -> (r: Result<ValidatedInformationTransfer, IntelligenceError>)
    ensures
        match state.intelligence.spec_get(draft.source) {
            None => r matches Err(x) && x == IntelligenceError::MissingInformation(draft.source),
            Some(src) => if src.holder == draft.recipient {
                r matches Err(x) && x == IntelligenceError::SameHolder
            } else {
                match relationship_error(*state, src.holder, draft.recipient) {
                    Some(e) => r matches Err(x) && x == e,
                    None => match duplicate_error(*state, draft.source, draft.recipient) {
                        Some(e) => r matches Err(x) && x == e,
                        None => r matches Ok(t) && t.spec_source() == draft.source
                            && t.spec_recipient() == draft.recipient && t.spec_versions()
                            == holder_versions(*state, src.holder, draft.recipient),
                    },
                }
            },
        },
{
    let source_holder = match state.intelligence.get_information(draft.source) {
        Some(rec) => rec.holder,
        None => {
            return Err(IntelligenceError::MissingInformation(draft.source));
        },
    };
    if source_holder == draft.recipient {
        return Err(IntelligenceError::SameHolder);
    }
    let expected_versions = validate_transfer_relationship(state, source_holder, draft.recipient)?;
    ensure_transfer_not_duplicate(state, draft.source, draft.recipient)?;
    Ok(ValidatedInformationTransfer { source: draft.source, recipient: draft.recipient, expected_versions })
}

} // verus!
