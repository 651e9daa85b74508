//! Legal records (cases, evidence, custody, witnesses, informants, detective work) and the
//! queries every legal system reads them through.

use vstd::prelude::*;
use crate::base::{
    ArrestId, CaseWitnessId, CharacterId, EntityRef, EvidenceId, InformantDisclosureId,
    InformantId, InformationId, InvestigationId, InvestigationWorkId, OrganizationId, Rating,
    SimTime,
};
use crate::seqs::{first_index, lemma_first_index_is, lemma_first_index_none, lemma_filter_take_step};

pub mod store;
pub mod case_graph;
pub mod case_knowledge;
pub mod investigation_system;
pub mod witness_system;
pub mod custody;
pub mod arrest_system;
pub mod investigation_work_execution;
pub mod informant_system;

verus! {

#[derive(Clone, Copy, Debug, PartialEq, Eq, Structural, Hash)]
pub enum InvestigationStatus {
    Active,
    Suspended,
    Closed,
}

#[derive(Clone, Copy, Debug, PartialEq, Eq, Structural, Hash)]
pub enum EvidenceKind {
    WitnessTestimony,
    VehicleDescription,
    Fingerprint,
    RecoveredProperty,
    FinancialRecord,
    Surveillance,
    CommunicationRecord,
    KnownAssociation,
    Document,
    Ballistics,
    ForensicAnalysis,
    InformantStatement,
}

impl EvidenceKind {
    /// Physical, documentary and recorded material a detective can develop by review.
    pub open spec fn spec_is_reviewable(self) -> bool {
        match self {
            EvidenceKind::VehicleDescription | EvidenceKind::Fingerprint
            | EvidenceKind::RecoveredProperty | EvidenceKind::FinancialRecord
            | EvidenceKind::Surveillance | EvidenceKind::CommunicationRecord
            | EvidenceKind::Document | EvidenceKind::Ballistics => true,
            _ => false,
        }
    }

    pub fn is_reviewable(self) -> (r: bool)
        ensures
            r == self.spec_is_reviewable(),
    {
        match self {
            EvidenceKind::VehicleDescription | EvidenceKind::Fingerprint
            | EvidenceKind::RecoveredProperty | EvidenceKind::FinancialRecord
            | EvidenceKind::Surveillance | EvidenceKind::CommunicationRecord
            | EvidenceKind::Document | EvidenceKind::Ballistics => true,
            _ => false,
        }
    }
}

/// Evidentiary weight, from weakest to strongest.
#[derive(Clone, Copy, Debug, PartialEq, Eq, Structural, Hash)]
pub enum EvidenceStrength {
    Weak,
    Corroborating,
    Strong,
    Direct,
}

/// Institutional trust in evidence, from least to most reliable.
#[derive(Clone, Copy, Debug, PartialEq, Eq, Structural, Hash)]
pub enum EvidenceReliability {
    Questionable,
    Mixed,
    Credible,
    HighlyReliable,
}

#[derive(Clone, Copy, Debug, PartialEq, Eq, Structural, Hash)]
pub enum Admissibility {
    Unknown,
    Admissible,
    Disputed,
    Inadmissible,
}

impl EvidenceStrength {
    pub open spec fn rank(self) -> int {
        match self {
            EvidenceStrength::Weak => 0,
            EvidenceStrength::Corroborating => 1,
            EvidenceStrength::Strong => 2,
            EvidenceStrength::Direct => 3,
        }
    }

    pub fn rank_of(self) -> (r: u8)
        ensures
            r == self.rank(),
    {
        match self {
            EvidenceStrength::Weak => 0,
            EvidenceStrength::Corroborating => 1,
            EvidenceStrength::Strong => 2,
            EvidenceStrength::Direct => 3,
        }
    }
}

impl EvidenceReliability {
    pub open spec fn rank(self) -> int {
        match self {
            EvidenceReliability::Questionable => 0,
            EvidenceReliability::Mixed => 1,
            EvidenceReliability::Credible => 2,
            EvidenceReliability::HighlyReliable => 3,
        }
    }

    pub fn rank_of(self) -> (r: u8)
        ensures
            r == self.rank(),
    {
        match self {
            EvidenceReliability::Questionable => 0,
            EvidenceReliability::Mixed => 1,
            EvidenceReliability::Credible => 2,
            EvidenceReliability::HighlyReliable => 3,
        }
    }
}

#[derive(Clone, Copy, Debug, PartialEq, Eq, Structural, Hash)]
pub enum ArrestStatus {
    Detained,
    Released,
}

#[derive(Clone, Copy, Debug, PartialEq, Eq, Structural, Hash)]
pub enum WitnessCooperation {
    Hostile,
    Reluctant,
    Cooperative,
}

#[derive(Clone, Copy, Debug, PartialEq, Eq, Structural, Hash)]
pub enum InvestigationWorkKind {
    EvidenceReview,
    WitnessInterview,
}

/// What a piece of detective work is aimed at.
#[derive(Clone, Copy, Debug, PartialEq, Eq, Structural, Hash)]
pub enum InvestigationWorkFocus {
    Evidence(EvidenceId),
    Witness(CaseWitnessId),
}

impl InvestigationWorkFocus {
    pub fn evidence(id: EvidenceId) -> (r: Self)
        ensures
            r == InvestigationWorkFocus::Evidence(id),
    {
        InvestigationWorkFocus::Evidence(id)
    }

    pub fn witness(id: CaseWitnessId) -> (r: Self)
        ensures
            r == InvestigationWorkFocus::Witness(id),
    {
        InvestigationWorkFocus::Witness(id)
    }

    pub open spec fn spec_evidence_id(self) -> Option<EvidenceId> {
        match self {
            InvestigationWorkFocus::Evidence(e) => Some(e),
            _ => None,
        }
    }

    pub open spec fn spec_witness_id(self) -> Option<CaseWitnessId> {
        match self {
            InvestigationWorkFocus::Witness(w) => Some(w),
            _ => None,
        }
    }

    pub fn evidence_id(self) -> (r: Option<EvidenceId>)
        ensures
            r == self.spec_evidence_id(),
    {
        match self {
            InvestigationWorkFocus::Evidence(e) => Some(e),
            _ => None,
        }
    }

    pub fn witness_id(self) -> (r: Option<CaseWitnessId>)
        ensures
            r == self.spec_witness_id(),
    {
        match self {
            InvestigationWorkFocus::Witness(w) => Some(w),
            _ => None,
        }
    }
}

#[derive(Clone, Copy, Debug, PartialEq, Eq, Structural, Hash)]
pub enum InvestigationWorkStatus {
    Scheduled,
    Completed,
    Cancelled,
}

#[derive(Clone, Copy, Debug, PartialEq, Eq, Structural, Hash)]
pub enum InvestigationWorkOutcome {
    Developed,
    Connected,
    Inconclusive,
}

/// The frozen inputs of one work resolution.
#[derive(Clone, Copy, Debug, PartialEq, Eq, Structural, Hash)]
pub struct InvestigationWorkFactors {
    pub investigation_capability: Rating,
    pub source_support: Rating,
    pub difficulty: u8,
    pub variance: i8,
}

impl InvestigationWorkFactors {
    pub fn investigation_capability(&self) -> (r: Rating)
        ensures
            r == self.investigation_capability,
    {
        self.investigation_capability
    }

    pub fn source_support(&self) -> (r: Rating)
        ensures
            r == self.source_support,
    {
        self.source_support
    }

    pub fn difficulty(&self) -> (r: u8)
        ensures
            r == self.difficulty,
    {
        self.difficulty
    }

    pub fn variance(&self) -> (r: i8)
        ensures
            r == self.variance,
    {
        self.variance
    }
}

#[derive(Clone, Copy, Debug, PartialEq, Eq, Structural, Hash)]
pub struct InvestigationWorkResolution {
    pub resolved_at: SimTime,
    pub outcome: InvestigationWorkOutcome,
    pub factors: InvestigationWorkFactors,
    pub margin: i16,
    pub derived_evidence: Option<EvidenceId>,
}

impl InvestigationWorkResolution {
    pub fn outcome(&self) -> (r: InvestigationWorkOutcome)
        ensures
            r == self.outcome,
    {
        self.outcome
    }

    pub fn derived_evidence(&self) -> (r: Option<EvidenceId>)
        ensures
            r == self.derived_evidence,
    {
        self.derived_evidence
    }
}

#[derive(Clone, Copy, Debug, PartialEq, Eq, Structural, Hash)]
pub enum InvestigationWorkCancellationReason {
    InvestigatorDetained(ArrestId),
    WitnessBecameCaseSubject(EvidenceId),
}

#[derive(Clone, Copy, Debug, PartialEq, Eq, Structural, Hash)]
pub struct InvestigationWorkCancellation {
    pub cancelled_at: SimTime,
    pub reason: InvestigationWorkCancellationReason,
}

impl InvestigationWorkCancellation {
    pub fn reason(&self) -> (r: InvestigationWorkCancellationReason)
        ensures
            r == self.reason,
    {
        self.reason
    }
}

/// An institution's case file.
#[derive(Debug)]
pub struct InvestigationRecord {
    pub id: InvestigationId,
    pub owner: OrganizationId,
    pub title: String,
    pub status: InvestigationStatus,
    pub lead_investigator: Option<CharacterId>,
    /// The subjects the file was opened or resumed with.
    pub declared_subjects: Vec<EntityRef>,
    /// Declared subjects plus every entity actionable evidence has since identified.
    pub subjects: Vec<EntityRef>,
    pub opened_at: SimTime,
    /// The operation or enterprise whose exposure opened the file, if any.
    pub origin: Option<EntityRef>,
    pub last_activity_at: SimTime,
    pub version: u32,
}

impl InvestigationRecord {
    pub fn id(&self) -> (r: InvestigationId)
        ensures
            r == self.id,
    {
        self.id
    }

    pub fn owner(&self) -> (r: OrganizationId)
        ensures
            r == self.owner,
    {
        self.owner
    }

    pub fn status(&self) -> (r: InvestigationStatus)
        ensures
            r == self.status,
    {
        self.status
    }

    pub fn lead_investigator(&self) -> (r: Option<CharacterId>)
        ensures
            r == self.lead_investigator,
    {
        self.lead_investigator
    }

    pub fn subjects(&self) -> (r: &Vec<EntityRef>)
        ensures
            r@ == self.subjects@,
    {
        &self.subjects
    }

    pub fn declared_subjects(&self) -> (r: &Vec<EntityRef>)
        ensures
            r@ == self.declared_subjects@,
    {
        &self.declared_subjects
    }

    pub fn origin(&self) -> (r: Option<EntityRef>)
        ensures
            r == self.origin,
    {
        self.origin
    }

    pub fn last_activity_at(&self) -> (r: SimTime)
        ensures
            r == self.last_activity_at,
    {
        self.last_activity_at
    }

    pub fn version(&self) -> (r: u32)
        ensures
            r == self.version,
    {
        self.version
    }

    pub fn title(&self) -> (r: &str)
        ensures
            r@ == self.title@,
    {
        self.title.as_str()
    }
}

/// One evidence record held by a case's authority.
#[derive(Clone, Copy, Debug, PartialEq, Eq, Structural, Hash)]
pub struct EvidenceRecord {
    pub id: EvidenceId,
    pub investigation: InvestigationId,
    pub custodian: OrganizationId,
    pub subject: EntityRef,
    pub origin: Option<EntityRef>,
    /// The named person the material came from (witnesses, informants).
    pub source: Option<EntityRef>,
    /// The single evidence record this one was developed from, if any.
    pub derived_from: Option<EvidenceId>,
    pub kind: EvidenceKind,
    pub strength: EvidenceStrength,
    pub reliability: EvidenceReliability,
    pub admissibility: Admissibility,
    pub discovered_at: SimTime,
}

impl EvidenceRecord {
    pub fn id(&self) -> (r: EvidenceId)
        ensures
            r == self.id,
    {
        self.id
    }

    pub fn investigation(&self) -> (r: InvestigationId)
        ensures
            r == self.investigation,
    {
        self.investigation
    }

    pub fn subject(&self) -> (r: EntityRef)
        ensures
            r == self.subject,
    {
        self.subject
    }

    pub fn origin(&self) -> (r: Option<EntityRef>)
        ensures
            r == self.origin,
    {
        self.origin
    }

    pub fn source(&self) -> (r: Option<EntityRef>)
        ensures
            r == self.source,
    {
        self.source
    }

    pub fn derived_from(&self) -> (r: Option<EvidenceId>)
        ensures
            r == self.derived_from,
    {
        self.derived_from
    }

    pub fn kind(&self) -> (r: EvidenceKind)
        ensures
            r == self.kind,
    {
        self.kind
    }

    pub fn strength(&self) -> (r: EvidenceStrength)
        ensures
            r == self.strength,
    {
        self.strength
    }

    pub fn reliability(&self) -> (r: EvidenceReliability)
        ensures
            r == self.reliability,
    {
        self.reliability
    }

    pub fn admissibility(&self) -> (r: Admissibility)
        ensures
            r == self.admissibility,
    {
        self.admissibility
    }
}

/// A custody episode.
#[derive(Debug)]
pub struct ArrestRecord {
    pub id: ArrestId,
    pub character: CharacterId,
    pub authority: OrganizationId,
    pub investigation: InvestigationId,
    pub evidence: Vec<EvidenceId>,
    pub arrested_at: SimTime,
    pub released_at: Option<SimTime>,
    pub status: ArrestStatus,
    pub version: u32,
}

impl ArrestRecord {
    pub fn id(&self) -> (r: ArrestId)
        ensures
            r == self.id,
    {
        self.id
    }

    pub fn character(&self) -> (r: CharacterId)
        ensures
            r == self.character,
    {
        self.character
    }

    pub fn status(&self) -> (r: ArrestStatus)
        ensures
            r == self.status,
    {
        self.status
    }

    pub fn released_at(&self) -> (r: Option<SimTime>)
        ensures
            r == self.released_at,
    {
        self.released_at
    }

    pub fn version(&self) -> (r: u32)
        ensures
            r == self.version,
    {
        self.version
    }
}

/// A named witness registered with a case.
#[derive(Clone, Copy, Debug, PartialEq, Eq, Structural, Hash)]
pub struct CaseWitnessRecord {
    pub id: CaseWitnessId,
    pub investigation: InvestigationId,
    pub witness: CharacterId,
    /// The entity the witness can testify about, fixed at registration.
    pub subject: EntityRef,
    pub cooperation: WitnessCooperation,
    pub registered_at: SimTime,
    /// Testimony evidence recorded from this witness, once given.
    pub statement: Option<EvidenceId>,
    pub interview_attempts: u8,
    pub version: u32,
}

/// A confidential-source relationship.
#[derive(Clone, Copy, Debug, PartialEq, Eq, Structural, Hash)]
pub struct InformantRecord {
    pub id: InformantId,
    pub character: CharacterId,
    pub handler: OrganizationId,
    pub established_at: SimTime,
}

/// One fact an informant passed into one case.
#[derive(Clone, Copy, Debug, PartialEq, Eq, Structural, Hash)]
pub struct InformantDisclosureRecord {
    pub id: InformantDisclosureId,
    pub informant: InformantId,
    pub investigation: InvestigationId,
    pub source_information: InformationId,
    pub evidence: EvidenceId,
    pub disclosed_at: SimTime,
}

/// A scheduled, completed or cancelled piece of detective work.
#[derive(Clone, Copy, Debug, PartialEq, Eq, Structural, Hash)]
pub struct InvestigationWorkRecord {
    pub id: InvestigationWorkId,
    pub investigation: InvestigationId,
    pub investigator: CharacterId,
    pub kind: InvestigationWorkKind,
    pub focus: InvestigationWorkFocus,
    /// The evidence an evidence review works from.
    pub source_evidence: Option<EvidenceId>,
    pub scheduled_at: SimTime,
    pub due_at: SimTime,
    pub status: InvestigationWorkStatus,
    pub resolution: Option<InvestigationWorkResolution>,
    pub cancellation: Option<InvestigationWorkCancellation>,
    pub version: u32,
}

impl InvestigationWorkRecord {
    pub fn status(&self) -> (r: InvestigationWorkStatus)
        ensures
            r == self.status,
    {
        self.status
    }

    pub fn due_at(&self) -> (r: SimTime)
        ensures
            r == self.due_at,
    {
        self.due_at
    }

    pub fn resolution(&self) -> (r: Option<InvestigationWorkResolution>)
        ensures
            r == self.resolution,
    {
        self.resolution
    }

    pub fn cancellation(&self) -> (r: Option<InvestigationWorkCancellation>)
        ensures
            r == self.cancellation,
    {
        self.cancellation
    }
}

/// Every legal record, each kind in identifier order.
pub struct LegalState {
    pub investigations: Vec<InvestigationRecord>,
    pub evidence: Vec<EvidenceRecord>,
    pub arrests: Vec<ArrestRecord>,
    pub case_witnesses: Vec<CaseWitnessRecord>,
    pub informants: Vec<InformantRecord>,
    pub disclosures: Vec<InformantDisclosureRecord>,
    pub work: Vec<InvestigationWorkRecord>,
}

pub open spec fn detained_of(c: CharacterId) -> spec_fn(ArrestRecord) -> bool {
    |a: ArrestRecord| a.character == c && a.status == ArrestStatus::Detained
}

pub open spec fn detained_in(inv: InvestigationId) -> spec_fn(ArrestRecord) -> bool {
    |a: ArrestRecord| a.investigation == inv && a.status == ArrestStatus::Detained
}

pub open spec fn active_led_by(c: CharacterId) -> spec_fn(InvestigationRecord) -> bool {
    |r: InvestigationRecord| r.status == InvestigationStatus::Active && r.lead_investigator == Some(c)
}

pub open spec fn scheduled_for_investigator(c: CharacterId) -> spec_fn(InvestigationWorkRecord) -> bool {
    |w: InvestigationWorkRecord| w.investigator == c && w.status == InvestigationWorkStatus::Scheduled
}

pub open spec fn scheduled_in(inv: InvestigationId) -> spec_fn(InvestigationWorkRecord) -> bool {
    |w: InvestigationWorkRecord| w.investigation == inv && w.status == InvestigationWorkStatus::Scheduled
}

pub open spec fn scheduled_on_focus(inv: InvestigationId, kind: InvestigationWorkKind, focus: InvestigationWorkFocus) -> spec_fn(InvestigationWorkRecord) -> bool {
    |w: InvestigationWorkRecord|
        w.investigation == inv && w.kind == kind && w.focus == focus && w.status
            == InvestigationWorkStatus::Scheduled
}

pub open spec fn review_attempt_of(e: EvidenceId) -> spec_fn(InvestigationWorkRecord) -> bool {
    |w: InvestigationWorkRecord|
        w.kind == InvestigationWorkKind::EvidenceReview && w.focus == InvestigationWorkFocus::Evidence(e)
            && w.status != InvestigationWorkStatus::Cancelled
}

pub open spec fn witness_of(inv: InvestigationId, c: CharacterId) -> spec_fn(CaseWitnessRecord) -> bool {
    |w: CaseWitnessRecord| w.investigation == inv && w.witness == c
}

/// Whether two arrests hold the same character in custody at once.
pub open spec fn both_detain(a: ArrestRecord, b: ArrestRecord) -> bool {
    a.character == b.character && a.status == ArrestStatus::Detained && b.status == ArrestStatus::Detained
}

/// Whether two disclosures carry the same fact into the same case.
pub open spec fn same_disclosure(a: InformantDisclosureRecord, b: InformantDisclosureRecord) -> bool {
    a.investigation == b.investigation && a.source_information == b.source_information
}

/// Whether two informant records tie the same character to the same handler.
pub open spec fn same_informant_relationship(a: InformantRecord, b: InformantRecord) -> bool {
    a.character == b.character && a.handler == b.handler
}

pub open spec fn informant_of(c: CharacterId, handler: OrganizationId) -> spec_fn(InformantRecord) -> bool {
    |r: InformantRecord| r.character == c && r.handler == handler
}

pub open spec fn disclosure_of(inv: InvestigationId, info: InformationId) -> spec_fn(InformantDisclosureRecord) -> bool {
    |d: InformantDisclosureRecord| d.investigation == inv && d.source_information == info
}

pub open spec fn forensic_from(e: EvidenceId) -> spec_fn(EvidenceRecord) -> bool {
    |r: EvidenceRecord| r.derived_from == Some(e) && r.kind == EvidenceKind::ForensicAnalysis
}

pub open spec fn evidence_in(inv: InvestigationId) -> spec_fn(EvidenceRecord) -> bool {
    |r: EvidenceRecord| r.investigation == inv
}

pub open spec fn evidence_ids(s: Seq<EvidenceRecord>) -> Seq<EvidenceId> {
    s.map_values(|r: EvidenceRecord| r.id)
}

pub proof fn lemma_evidence_ids_push(s: Seq<EvidenceRecord>, x: EvidenceRecord)
    ensures
        evidence_ids(s.push(x)) == evidence_ids(s).push(x.id),
{
    assert(evidence_ids(s.push(x)) =~= evidence_ids(s).push(x.id));
}

/// Whether two pieces of work are both scheduled for one investigator.
pub open spec fn both_scheduled_for_one(a: InvestigationWorkRecord, b: InvestigationWorkRecord) -> bool {
    a.status == InvestigationWorkStatus::Scheduled && b.status == InvestigationWorkStatus::Scheduled && a.investigator
        == b.investigator
}

/// Whether a focus is of the kind that a kind of work takes: an evidence review works from an
/// evidence item, an interview from a registered witness.
pub open spec fn focus_fits_kind(kind: InvestigationWorkKind, focus: InvestigationWorkFocus) -> bool {
    match kind {
        InvestigationWorkKind::EvidenceReview => focus is Evidence,
        InvestigationWorkKind::WitnessInterview => focus is Witness,
    }
}

impl LegalState {
    pub open spec fn wf(self) -> bool {
        &&& forall|i: int|
            0 <= i < self.investigations@.len() ==> (#[trigger] self.investigations@[i]).id.0 == i
                + 1
        &&& forall|i: int| 0 <= i < self.evidence@.len() ==> (#[trigger] self.evidence@[i]).id.0 == i + 1
        &&& forall|i: int| 0 <= i < self.arrests@.len() ==> (#[trigger] self.arrests@[i]).id.0 == i + 1
        &&& forall|i: int|
            0 <= i < self.case_witnesses@.len() ==> (#[trigger] self.case_witnesses@[i]).id.0 == i
                + 1
        &&& forall|i: int|
            0 <= i < self.informants@.len() ==> (#[trigger] self.informants@[i]).id.0 == i + 1
        &&& forall|i: int|
            0 <= i < self.disclosures@.len() ==> (#[trigger] self.disclosures@[i]).id.0 == i + 1
        &&& forall|i: int| 0 <= i < self.work@.len() ==> (#[trigger] self.work@[i]).id.0 == i + 1
        &&& forall|i: int|
            0 <= i < self.work@.len() ==> focus_fits_kind((#[trigger] self.work@[i]).kind, self.work@[i].focus)
        &&& forall|i: int|
            0 <= i < self.evidence@.len() ==> 1 <= (#[trigger] self.evidence@[i]).investigation.0
                <= self.investigations@.len()
        &&& forall|i: int|
            0 <= i < self.arrests@.len() ==> 1 <= (#[trigger] self.arrests@[i]).investigation.0
                <= self.investigations@.len()
        &&& forall|i: int|
            0 <= i < self.case_witnesses@.len() ==> 1 <= (#[trigger] self.case_witnesses@[i]).investigation.0
                <= self.investigations@.len()
        &&& forall|i: int|
            0 <= i < self.work@.len() ==> 1 <= (#[trigger] self.work@[i]).investigation.0
                <= self.investigations@.len()
        &&& forall|i: int|
            0 <= i < self.investigations@.len() && (#[trigger] self.investigations@[i]).status
                != InvestigationStatus::Active ==> self.investigations@[i].lead_investigator is None
        &&& forall|i: int, j: int|
            0 <= i < self.investigations@.len() && 0 <= j < self.investigations@.len() && i != j
                && (#[trigger] self.investigations@[i]).lead_investigator is Some
                ==> (#[trigger] self.investigations@[j]).lead_investigator != self.investigations@[i].lead_investigator
        &&& forall|i: int, j: int|
            0 <= i < j < self.informants@.len() ==> !same_informant_relationship(
                #[trigger] self.informants@[i],
                #[trigger] self.informants@[j],
            )
        &&& forall|i: int, j: int|
            0 <= i < j < self.arrests@.len() ==> !both_detain(
                #[trigger] self.arrests@[i],
                #[trigger] self.arrests@[j],
            )
        &&& forall|i: int, j: int|
            0 <= i < j < self.work@.len() ==> !both_scheduled_for_one(#[trigger] self.work@[i], #[trigger] self.work@[j])
        &&& forall|i: int, j: int|
            0 <= i < j < self.disclosures@.len() ==> !same_disclosure(
                #[trigger] self.disclosures@[i],
                #[trigger] self.disclosures@[j],
            )
    }

    pub open spec fn spec_investigation(self, id: InvestigationId) -> Option<InvestigationRecord> {
        if 1 <= id.0 <= self.investigations@.len() {
            Some(self.investigations@[id.0 - 1])
        } else {
            None
        }
    }

    pub open spec fn spec_evidence(self, id: EvidenceId) -> Option<EvidenceRecord> {
        if 1 <= id.0 <= self.evidence@.len() {
            Some(self.evidence@[id.0 - 1])
        } else {
            None
        }
    }

    pub open spec fn spec_arrest(self, id: ArrestId) -> Option<ArrestRecord> {
        if 1 <= id.0 <= self.arrests@.len() {
            Some(self.arrests@[id.0 - 1])
        } else {
            None
        }
    }

    pub open spec fn spec_case_witness(self, id: CaseWitnessId) -> Option<CaseWitnessRecord> {
        if 1 <= id.0 <= self.case_witnesses@.len() {
            Some(self.case_witnesses@[id.0 - 1])
        } else {
            None
        }
    }

    pub open spec fn spec_informant(self, id: InformantId) -> Option<InformantRecord> {
        if 1 <= id.0 <= self.informants@.len() {
            Some(self.informants@[id.0 - 1])
        } else {
            None
        }
    }

    pub open spec fn spec_work(self, id: InvestigationWorkId) -> Option<InvestigationWorkRecord> {
        if 1 <= id.0 <= self.work@.len() {
            Some(self.work@[id.0 - 1])
        } else {
            None
        }
    }

    pub fn get_investigation(&self, id: InvestigationId) -> (r: Option<&InvestigationRecord>)
        ensures
            r is Some <==> self.spec_investigation(id) is Some,
            r matches Some(rec) ==> *rec == self.spec_investigation(id)->0,
    {
        if id.0 >= 1 && ((id.0 - 1) as usize) < self.investigations.len() {
            Some(&self.investigations[(id.0 - 1) as usize])
        } else {
            None
        }
    }

    pub fn get_evidence(&self, id: EvidenceId) -> (r: Option<EvidenceRecord>)
        ensures
            r == self.spec_evidence(id),
    {
        if id.0 >= 1 && ((id.0 - 1) as usize) < self.evidence.len() {
            Some(self.evidence[(id.0 - 1) as usize])
        } else {
            None
        }
    }

    pub fn get_arrest(&self, id: ArrestId) -> (r: Option<&ArrestRecord>)
        ensures
            r is Some <==> self.spec_arrest(id) is Some,
            r matches Some(rec) ==> *rec == self.spec_arrest(id)->0,
    {
        if id.0 >= 1 && ((id.0 - 1) as usize) < self.arrests.len() {
            Some(&self.arrests[(id.0 - 1) as usize])
        } else {
            None
        }
    }

    pub fn get_case_witness(&self, id: CaseWitnessId) -> (r: Option<CaseWitnessRecord>)
        ensures
            r == self.spec_case_witness(id),
    {
        if id.0 >= 1 && ((id.0 - 1) as usize) < self.case_witnesses.len() {
            Some(self.case_witnesses[(id.0 - 1) as usize])
        } else {
            None
        }
    }

    pub fn get_informant(&self, id: InformantId) -> (r: Option<InformantRecord>)
        ensures
            r == self.spec_informant(id),
    {
        if id.0 >= 1 && ((id.0 - 1) as usize) < self.informants.len() {
            Some(self.informants[(id.0 - 1) as usize])
        } else {
            None
        }
    }

    pub fn get_investigation_work(&self, id: InvestigationWorkId) -> (r: Option<InvestigationWorkRecord>)
        ensures
            r == self.spec_work(id),
    {
        if id.0 >= 1 && ((id.0 - 1) as usize) < self.work.len() {
            Some(self.work[(id.0 - 1) as usize])
        } else {
            None
        }
    }

    /// The first detention that currently holds `character`.
    pub open spec fn spec_active_arrest_for(self, c: CharacterId) -> Option<ArrestId> {
        match first_index(self.arrests@, detained_of(c)) {
            Some(i) => Some(self.arrests@[i].id),
            None => None,
        }
    }

    pub fn active_arrest_for_character(&self, c: CharacterId) -> (r: Option<ArrestId>)
        ensures
            r == self.spec_active_arrest_for(c),
    {
        let mut i: usize = 0;
        while i < self.arrests.len()
            invariant
                i <= self.arrests.len(),
                forall|j: int| 0 <= j < i ==> !detained_of(c)(#[trigger] self.arrests@[j]),
            decreases self.arrests.len() - i,
        {
            if self.arrests[i].character == c && self.arrests[i].status == ArrestStatus::Detained {
                proof {
                    lemma_first_index_is(self.arrests@, detained_of(c), i as int);
                }
                return Some(self.arrests[i].id);
            }
            i = i + 1;
        }
        proof {
            lemma_first_index_none(self.arrests@, detained_of(c));
        }
        None
    }

    /// The first detention under a case.
    pub open spec fn spec_detained_arrest_in(self, inv: InvestigationId) -> Option<ArrestId> {
        match first_index(self.arrests@, detained_in(inv)) {
            Some(i) => Some(self.arrests@[i].id),
            None => None,
        }
    }

    pub fn detained_arrest_in_investigation(&self, inv: InvestigationId) -> (r: Option<ArrestId>)
        ensures
            r == self.spec_detained_arrest_in(inv),
    {
        let mut i: usize = 0;
        while i < self.arrests.len()
            invariant
                i <= self.arrests.len(),
                forall|j: int| 0 <= j < i ==> !detained_in(inv)(#[trigger] self.arrests@[j]),
            decreases self.arrests.len() - i,
        {
            if self.arrests[i].investigation == inv && self.arrests[i].status
                == ArrestStatus::Detained {
                proof {
                    lemma_first_index_is(self.arrests@, detained_in(inv), i as int);
                }
                return Some(self.arrests[i].id);
            }
            i = i + 1;
        }
        proof {
            lemma_first_index_none(self.arrests@, detained_in(inv));
        }
        None
    }

    /// The first active case `c` leads.
    pub open spec fn spec_active_investigation_for(self, c: CharacterId) -> Option<InvestigationId> {
        match first_index(self.investigations@, active_led_by(c)) {
            Some(i) => Some(self.investigations@[i].id),
            None => None,
        }
    }

    pub fn active_investigation_for_investigator(&self, c: CharacterId) -> (r: Option<InvestigationId>)
        ensures
            r == self.spec_active_investigation_for(c),
    {
        let mut i: usize = 0;
        while i < self.investigations.len()
            invariant
                i <= self.investigations.len(),
                forall|j: int| 0 <= j < i ==> !active_led_by(c)(#[trigger] self.investigations@[j]),
            decreases self.investigations.len() - i,
        {
            let hit = self.investigations[i].status == InvestigationStatus::Active && match self.investigations[i].lead_investigator {
                Some(l) => l == c,
                None => false,
            };
            assert(hit == active_led_by(c)(self.investigations@[i as int]));
            if hit {
                proof {
                    lemma_first_index_is(self.investigations@, active_led_by(c), i as int);
                }
                return Some(self.investigations[i].id);
            }
            i = i + 1;
        }
        proof {
            lemma_first_index_none(self.investigations@, active_led_by(c));
        }
        None
    }

    /// The first scheduled work `c` holds.
    pub open spec fn spec_scheduled_work_for(self, c: CharacterId) -> Option<InvestigationWorkId> {
        match first_index(self.work@, scheduled_for_investigator(c)) {
            Some(i) => Some(self.work@[i].id),
            None => None,
        }
    }

    pub fn scheduled_work_for_investigator(&self, c: CharacterId) -> (r: Option<InvestigationWorkId>)
        ensures
            r == self.spec_scheduled_work_for(c),
    {
        let mut i: usize = 0;
        while i < self.work.len()
            invariant
                i <= self.work.len(),
                forall|j: int| 0 <= j < i ==> !scheduled_for_investigator(c)(#[trigger] self.work@[j]),
            decreases self.work.len() - i,
        {
            if self.work[i].investigator == c && self.work[i].status
                == InvestigationWorkStatus::Scheduled {
                proof {
                    lemma_first_index_is(self.work@, scheduled_for_investigator(c), i as int);
                }
                return Some(self.work[i].id);
            }
            i = i + 1;
        }
        proof {
            lemma_first_index_none(self.work@, scheduled_for_investigator(c));
        }
        None
    }

    /// The first scheduled work on a case.
    pub open spec fn spec_scheduled_work_in(self, inv: InvestigationId) -> Option<InvestigationWorkId> {
        match first_index(self.work@, scheduled_in(inv)) {
            Some(i) => Some(self.work@[i].id),
            None => None,
        }
    }

    pub fn scheduled_work_in_investigation(&self, inv: InvestigationId) -> (r: Option<InvestigationWorkId>)
        ensures
            r == self.spec_scheduled_work_in(inv),
    {
        let mut i: usize = 0;
        while i < self.work.len()
            invariant
                i <= self.work.len(),
                forall|j: int| 0 <= j < i ==> !scheduled_in(inv)(#[trigger] self.work@[j]),
            decreases self.work.len() - i,
        {
            if self.work[i].investigation == inv && self.work[i].status
                == InvestigationWorkStatus::Scheduled {
                proof {
                    lemma_first_index_is(self.work@, scheduled_in(inv), i as int);
                }
                return Some(self.work[i].id);
            }
            i = i + 1;
        }
        proof {
            lemma_first_index_none(self.work@, scheduled_in(inv));
        }
        None
    }

    /// The scheduled work that already covers a case focus.
    pub open spec fn spec_scheduled_work_for_focus(self, inv: InvestigationId, kind: InvestigationWorkKind, focus: InvestigationWorkFocus) -> Option<InvestigationWorkId> {
        match first_index(self.work@, scheduled_on_focus(inv, kind, focus)) {
            Some(i) => Some(self.work@[i].id),
            None => None,
        }
    }

    pub fn scheduled_work_for_focus(&self, inv: InvestigationId, kind: InvestigationWorkKind, focus: InvestigationWorkFocus) -> (r: Option<InvestigationWorkId>)
        ensures
            r == self.spec_scheduled_work_for_focus(inv, kind, focus),
    {
        let mut i: usize = 0;
        while i < self.work.len()
            invariant
                i <= self.work.len(),
                forall|j: int|
                    0 <= j < i ==> !scheduled_on_focus(inv, kind, focus)(#[trigger] self.work@[j]),
            decreases self.work.len() - i,
        {
            if self.work[i].investigation == inv && self.work[i].kind == kind && self.work[i].focus
                == focus && self.work[i].status == InvestigationWorkStatus::Scheduled {
                proof {
                    lemma_first_index_is(self.work@, scheduled_on_focus(inv, kind, focus), i as int);
                }
                return Some(self.work[i].id);
            }
            i = i + 1;
        }
        proof {
            lemma_first_index_none(self.work@, scheduled_on_focus(inv, kind, focus));
        }
        None
    }

    /// The review that scheduled or completed work already spent on an evidence record.
    pub open spec fn spec_review_attempt(self, e: EvidenceId) -> Option<InvestigationWorkId> {
        match first_index(self.work@, review_attempt_of(e)) {
            Some(i) => Some(self.work@[i].id),
            None => None,
        }
    }

    pub fn evidence_review_attempt(&self, e: EvidenceId) -> (r: Option<InvestigationWorkId>)
        ensures
            r == self.spec_review_attempt(e),
    {
        let mut i: usize = 0;
        while i < self.work.len()
            invariant
                i <= self.work.len(),
                forall|j: int| 0 <= j < i ==> !review_attempt_of(e)(#[trigger] self.work@[j]),
            decreases self.work.len() - i,
        {
            if self.work[i].kind == InvestigationWorkKind::EvidenceReview && self.work[i].focus
                == InvestigationWorkFocus::Evidence(e) && self.work[i].status
                != InvestigationWorkStatus::Cancelled {
                proof {
                    lemma_first_index_is(self.work@, review_attempt_of(e), i as int);
                }
                return Some(self.work[i].id);
            }
            i = i + 1;
        }
        proof {
            lemma_first_index_none(self.work@, review_attempt_of(e));
        }
        None
    }

    /// The registration of `c` as a witness in a case.
    pub open spec fn spec_case_witness_for(self, inv: InvestigationId, c: CharacterId) -> Option<CaseWitnessId> {
        match first_index(self.case_witnesses@, witness_of(inv, c)) {
            Some(i) => Some(self.case_witnesses@[i].id),
            None => None,
        }
    }

    pub fn case_witness_for(&self, inv: InvestigationId, c: CharacterId) -> (r: Option<CaseWitnessId>)
        ensures
            r == self.spec_case_witness_for(inv, c),
    {
        let mut i: usize = 0;
        while i < self.case_witnesses.len()
            invariant
                i <= self.case_witnesses.len(),
                forall|j: int| 0 <= j < i ==> !witness_of(inv, c)(#[trigger] self.case_witnesses@[j]),
            decreases self.case_witnesses.len() - i,
        {
            if self.case_witnesses[i].investigation == inv && self.case_witnesses[i].witness == c {
                proof {
                    lemma_first_index_is(self.case_witnesses@, witness_of(inv, c), i as int);
                }
                return Some(self.case_witnesses[i].id);
            }
            i = i + 1;
        }
        proof {
            lemma_first_index_none(self.case_witnesses@, witness_of(inv, c));
        }
        None
    }

    /// The relationship `c` already has with `handler`.
    pub open spec fn spec_informant_for(self, c: CharacterId, handler: OrganizationId) -> Option<InformantId> {
        match first_index(self.informants@, informant_of(c, handler)) {
            Some(i) => Some(self.informants@[i].id),
            None => None,
        }
    }

    pub fn informant_for(&self, c: CharacterId, handler: OrganizationId) -> (r: Option<InformantId>)
        ensures
            r == self.spec_informant_for(c, handler),
    {
        let mut i: usize = 0;
        while i < self.informants.len()
            invariant
                i <= self.informants.len(),
                forall|j: int| 0 <= j < i ==> !informant_of(c, handler)(#[trigger] self.informants@[j]),
            decreases self.informants.len() - i,
        {
            if self.informants[i].character == c && self.informants[i].handler == handler {
                proof {
                    lemma_first_index_is(self.informants@, informant_of(c, handler), i as int);
                }
                return Some(self.informants[i].id);
            }
            i = i + 1;
        }
        proof {
            lemma_first_index_none(self.informants@, informant_of(c, handler));
        }
        None
    }

    /// The disclosure that already brought a fact into a case.
    pub open spec fn spec_disclosure_for(self, inv: InvestigationId, info: InformationId) -> Option<InformantDisclosureId> {
        match first_index(self.disclosures@, disclosure_of(inv, info)) {
            Some(i) => Some(self.disclosures@[i].id),
            None => None,
        }
    }

    pub fn informant_disclosure_for_case_information(&self, inv: InvestigationId, info: InformationId) -> (r: Option<InformantDisclosureId>)
        ensures
            r == self.spec_disclosure_for(inv, info),
    {
        let mut i: usize = 0;
        while i < self.disclosures.len()
            invariant
                i <= self.disclosures.len(),
                forall|j: int| 0 <= j < i ==> !disclosure_of(inv, info)(#[trigger] self.disclosures@[j]),
            decreases self.disclosures.len() - i,
        {
            if self.disclosures[i].investigation == inv && self.disclosures[i].source_information
                == info {
                proof {
                    lemma_first_index_is(self.disclosures@, disclosure_of(inv, info), i as int);
                }
                return Some(self.disclosures[i].id);
            }
            i = i + 1;
        }
        proof {
            lemma_first_index_none(self.disclosures@, disclosure_of(inv, info));
        }
        None
    }

    /// The forensic analysis already developed from an evidence record.
    pub open spec fn spec_forensic_from(self, e: EvidenceId) -> Option<EvidenceId> {
        match first_index(self.evidence@, forensic_from(e)) {
            Some(i) => Some(self.evidence@[i].id),
            None => None,
        }
    }

    pub fn forensic_analysis_of(&self, e: EvidenceId) -> (r: Option<EvidenceId>)
        ensures
            r == self.spec_forensic_from(e),
    {
        let mut i: usize = 0;
        while i < self.evidence.len()
            invariant
                i <= self.evidence.len(),
                forall|j: int| 0 <= j < i ==> !forensic_from(e)(#[trigger] self.evidence@[j]),
            decreases self.evidence.len() - i,
        {
            let from_e = match self.evidence[i].derived_from {
                Some(d) => d == e,
                None => false,
            };
            let hit = from_e && self.evidence[i].kind == EvidenceKind::ForensicAnalysis;
            assert(hit == forensic_from(e)(self.evidence@[i as int]));
            if hit {
                proof {
                    lemma_first_index_is(self.evidence@, forensic_from(e), i as int);
                }
                return Some(self.evidence[i].id);
            }
            i = i + 1;
        }
        proof {
            lemma_first_index_none(self.evidence@, forensic_from(e));
        }
        None
    }

    /// Identifiers of a case's evidence, in identifier order.
    pub fn evidence_for_investigation(&self, inv: InvestigationId) -> (r: Vec<EvidenceId>)
        ensures
            r@ == evidence_ids(self.evidence@.filter(evidence_in(inv))),
    {
        let mut r: Vec<EvidenceId> = Vec::new();
        let mut i: usize = 0;
        while i < self.evidence.len()
            invariant
                i <= self.evidence.len(),
                r@ == evidence_ids(self.evidence@.take(i as int).filter(evidence_in(inv))),
            decreases self.evidence.len() - i,
        {
            proof {
                lemma_filter_take_step(self.evidence@, evidence_in(inv), i as int);
                lemma_evidence_ids_push(
                    self.evidence@.take(i as int).filter(evidence_in(inv)),
                    self.evidence@[i as int],
                );
            }
            if self.evidence[i].investigation == inv {
                r.push(self.evidence[i].id);
            }
            i = i + 1;
        }
        assert(self.evidence@.take(self.evidence.len() as int) =~= self.evidence@);
        r
    }
}


pub open spec fn has_subject(e: EntityRef) -> spec_fn(InvestigationRecord) -> bool {
    |r: InvestigationRecord| r.subjects@.contains(e)
}

pub open spec fn of_kind(kind: EvidenceKind) -> spec_fn(EvidenceRecord) -> bool {
    |r: EvidenceRecord| r.kind == kind
}

pub open spec fn from_origin(e: EntityRef) -> spec_fn(EvidenceRecord) -> bool {
    |r: EvidenceRecord| r.origin == Some(e)
}

pub open spec fn investigation_ids(s: Seq<InvestigationRecord>) -> Seq<InvestigationId> {
    s.map_values(|r: InvestigationRecord| r.id)
}

pub open spec fn is_active_case() -> spec_fn(InvestigationRecord) -> bool {
    |r: InvestigationRecord| r.status == InvestigationStatus::Active
}

pub open spec fn is_detention() -> spec_fn(ArrestRecord) -> bool {
    |a: ArrestRecord| a.status == ArrestStatus::Detained
}

pub open spec fn arrest_ids(s: Seq<ArrestRecord>) -> Seq<ArrestId> {
    s.map_values(|a: ArrestRecord| a.id)
}

impl LegalState {
    /// The active cases, in identifier order.
    pub fn active_investigations(&self) -> (r: Vec<InvestigationId>)
        ensures
            r@ == investigation_ids(self.investigations@.filter(is_active_case())),
    {
        let mut r: Vec<InvestigationId> = Vec::new();
        let mut i: usize = 0;
        while i < self.investigations.len()
            invariant
                i <= self.investigations.len(),
                r@ == investigation_ids(self.investigations@.take(i as int).filter(is_active_case())),
            decreases self.investigations.len() - i,
        {
            proof {
                lemma_filter_take_step(self.investigations@, is_active_case(), i as int);
                let f = self.investigations@.take(i as int).filter(is_active_case());
                assert(investigation_ids(f.push(self.investigations@[i as int])) =~= investigation_ids(f).push(
                    self.investigations@[i as int].id,
                ));
            }
            if self.investigations[i].status == InvestigationStatus::Active {
                r.push(self.investigations[i].id);
            }
            i = i + 1;
        }
        assert(self.investigations@.take(self.investigations@.len() as int) =~= self.investigations@);
        r
    }

    /// The arrests whose detainee is still in custody, in identifier order.
    pub fn detained_arrests(&self) -> (r: Vec<ArrestId>)
        ensures
            r@ == arrest_ids(self.arrests@.filter(is_detention())),
    {
        let mut r: Vec<ArrestId> = Vec::new();
        let mut i: usize = 0;
        while i < self.arrests.len()
            invariant
                i <= self.arrests.len(),
                r@ == arrest_ids(self.arrests@.take(i as int).filter(is_detention())),
            decreases self.arrests.len() - i,
        {
            proof {
                lemma_filter_take_step(self.arrests@, is_detention(), i as int);
                let f = self.arrests@.take(i as int).filter(is_detention());
                assert(arrest_ids(f.push(self.arrests@[i as int])) =~= arrest_ids(f).push(self.arrests@[i as int].id));
            }
            if self.arrests[i].status == ArrestStatus::Detained {
                r.push(self.arrests[i].id);
            }
            i = i + 1;
        }
        assert(self.arrests@.take(self.arrests@.len() as int) =~= self.arrests@);
        r
    }

    /// Cases whose subjects include `e`, in identifier order.
    pub fn investigations_for_subject(&self, e: EntityRef) -> (r: Vec<InvestigationId>)
        ensures
            r@ == investigation_ids(self.investigations@.filter(has_subject(e))),
    {
        let mut r: Vec<InvestigationId> = Vec::new();
        let mut i: usize = 0;
        while i < self.investigations.len()
            invariant
                i <= self.investigations.len(),
                r@ == investigation_ids(self.investigations@.take(i as int).filter(has_subject(e))),
            decreases self.investigations.len() - i,
        {
            proof {
                lemma_filter_take_step(self.investigations@, has_subject(e), i as int);
                let f = self.investigations@.take(i as int).filter(has_subject(e));
                assert(investigation_ids(f.push(self.investigations@[i as int])) =~= investigation_ids(f).push(
                    self.investigations@[i as int].id,
                ));
            }
            if crate::base::entity_vec_contains(&self.investigations[i].subjects, e) {
                r.push(self.investigations[i].id);
            }
            i = i + 1;
        }
        assert(self.investigations@.take(self.investigations.len() as int) =~= self.investigations@);
        r
    }

    /// Evidence of kind `kind`, in identifier order.
    pub fn evidence_of_kind(&self, kind: EvidenceKind) -> (r: Vec<EvidenceId>)
        ensures
            r@ == evidence_ids(self.evidence@.filter(of_kind(kind))),
    {
        let mut r: Vec<EvidenceId> = Vec::new();
        let mut i: usize = 0;
        while i < self.evidence.len()
            invariant
                i <= self.evidence.len(),
                r@ == evidence_ids(self.evidence@.take(i as int).filter(of_kind(kind))),
            decreases self.evidence.len() - i,
        {
            proof {
                lemma_filter_take_step(self.evidence@, of_kind(kind), i as int);
                lemma_evidence_ids_push(self.evidence@.take(i as int).filter(of_kind(kind)), self.evidence@[i as int]);
            }
            if self.evidence[i].kind == kind {
                r.push(self.evidence[i].id);
            }
            i = i + 1;
        }
        assert(self.evidence@.take(self.evidence.len() as int) =~= self.evidence@);
        r
    }

    /// Evidence whose origin is `e`, in identifier order.
    pub fn evidence_from_origin(&self, e: EntityRef) -> (r: Vec<EvidenceId>)
        ensures
            r@ == evidence_ids(self.evidence@.filter(from_origin(e))),
    {
        let mut r: Vec<EvidenceId> = Vec::new();
        let mut i: usize = 0;
        while i < self.evidence.len()
            invariant
                i <= self.evidence.len(),
                r@ == evidence_ids(self.evidence@.take(i as int).filter(from_origin(e))),
            decreases self.evidence.len() - i,
        {
            proof {
                lemma_filter_take_step(self.evidence@, from_origin(e), i as int);
                lemma_evidence_ids_push(self.evidence@.take(i as int).filter(from_origin(e)), self.evidence@[i as int]);
            }
            if self.evidence[i].origin == Some(e) {
                r.push(self.evidence[i].id);
            }
            i = i + 1;
        }
        assert(self.evidence@.take(self.evidence.len() as int) =~= self.evidence@);
        r
    }
}

} // verus!
