//! Routing an incident into casework in one transaction: the incident either continues the
//! owner's most relevant suspended shelf or opens a fresh case, and brings its evidence and
//! named witness with it.

use vstd::prelude::*;
use crate::base::VersionedRecord;
use crate::base::{IdExhaustionError, IdKind};
use crate::base::{CaseWitnessId, CharacterId, EntityRef, EvidenceId, InvestigationId, OrganizationId, SimTime};
use crate::legal::investigation_system::{
    evidence_kind_error, open_error, spec_actionable, transition_dependency_error,
    validate_investigation_draft, validate_transition_investigation, InvestigationError,
    InvestigationTransition,
};
use crate::legal::store::{adds_to, extended, promoted_subjects, touched, with_status};
use crate::legal::{
    Admissibility, CaseWitnessRecord, EvidenceKind, EvidenceRecord, EvidenceReliability,
    EvidenceStrength, InvestigationRecord, InvestigationStatus, WitnessCooperation,
};
use crate::seqs::{first_index, lemma_first_index_is, lemma_first_index_none};
use crate::state::AppState;

verus! {

/// One piece of evidence an incident produced.
#[derive(Clone, Copy, Debug, PartialEq, Eq, Structural)]
pub struct IncidentEvidenceDraft {
    pub subject: EntityRef,
    pub origin: Option<EntityRef>,
    pub kind: EvidenceKind,
    pub strength: EvidenceStrength,
    pub reliability: EvidenceReliability,
    pub admissibility: Admissibility,
    pub discovered_at: SimTime,
}

/// The person an incident names as a witness, and whom they can testify about.
#[derive(Clone, Copy, Debug, PartialEq, Eq, Structural)]
pub struct IncidentWitnessDraft {
    pub character: CharacterId,
    pub subject: EntityRef,
    pub cooperation: WitnessCooperation,
}

/// An incident an institution takes in as casework.
#[derive(Debug)]
pub struct IncidentIntakeDraft {
    pub owner: OrganizationId,
    pub title: String,
    pub subjects: Vec<EntityRef>,
    pub evidence: Vec<IncidentEvidenceDraft>,
    /// The operation or enterprise whose exposure the incident is, if any.
    pub origin: Option<EntityRef>,
    /// Organizations the incident was reported to; routing does not read them.
    pub notified_organizations: Vec<OrganizationId>,
    pub witness: Option<IncidentWitnessDraft>,
}

/// The first reason one incident evidence draft cannot be filed.
pub open spec fn incident_evidence_error(state: AppState, e: IncidentEvidenceDraft) -> Option<InvestigationError> {
    if evidence_kind_error(e.kind) is Some {
        evidence_kind_error(e.kind)
    } else if !state.entity_present(e.subject) {
        Some(InvestigationError::MissingEntity(e.subject))
    } else if e.origin is Some && !state.entity_present(e.origin->0) {
        Some(InvestigationError::MissingEntity(e.origin->0))
    } else if e.discovered_at.0 > state.now.0 {
        Some(InvestigationError::DiscoveryInFuture)
    } else {
        None
    }
}

pub open spec fn faulty_evidence(state: AppState) -> spec_fn(IncidentEvidenceDraft) -> bool {
    |e: IncidentEvidenceDraft| incident_evidence_error(state, e) is Some
}

/// Whether the incident backs `subject`: it is the incident's origin, or the incident carries
/// evidence about it, actionable evidence where the subject is a person.
pub open spec fn substantiated(subject: EntityRef, origin: Option<EntityRef>, evidence: Seq<IncidentEvidenceDraft>) -> bool {
    ||| origin == Some(subject)
    ||| exists|k: int|
        0 <= k < evidence.len() && (#[trigger] evidence[k]).subject == subject && (subject is Character
            ==> spec_actionable(evidence[k].strength, evidence[k].reliability, evidence[k].admissibility))
}

pub open spec fn unsubstantiated(origin: Option<EntityRef>, evidence: Seq<IncidentEvidenceDraft>) -> spec_fn(EntityRef) -> bool {
    |s: EntityRef| !substantiated(s, origin, evidence)
}

pub open spec fn unsubstantiated_error(subject: EntityRef) -> InvestigationError {
    match subject {
        EntityRef::Character(c) => InvestigationError::UnsubstantiatedIncidentCharacterSubject { character: c },
        _ => InvestigationError::UnsubstantiatedIncidentSubject { subject },
    }
}

/// Whether the witness's subject belongs to the incident: its origin, a subject, or the subject
/// of some of its evidence.
pub open spec fn witness_subject_in_incident(subject: EntityRef, origin: Option<EntityRef>, subjects: Seq<EntityRef>, evidence: Seq<IncidentEvidenceDraft>) -> bool {
    ||| origin == Some(subject)
    ||| subjects.contains(subject)
    ||| exists|k: int| 0 <= k < evidence.len() && (#[trigger] evidence[k]).subject == subject
}

/// The first reason the named witness cannot come with the incident.
pub open spec fn incident_witness_error(state: AppState, w: IncidentWitnessDraft, origin: Option<EntityRef>, subjects: Seq<EntityRef>, evidence: Seq<IncidentEvidenceDraft>) -> Option<InvestigationError> {
    if !state.world.character_present(w.character) {
        Some(InvestigationError::MissingEntity(EntityRef::Character(w.character)))
    } else if subjects.contains(EntityRef::Character(w.character)) {
        Some(InvestigationError::WitnessIsCaseSubject { character: w.character })
    } else if !state.entity_present(w.subject) {
        Some(InvestigationError::MissingEntity(w.subject))
    } else if !witness_subject_in_incident(w.subject, origin, subjects, evidence) {
        Some(InvestigationError::WitnessSubjectOutsideIncident { character: w.character, subject: w.subject })
    } else {
        None
    }
}

/// The first reason the incident itself is malformed, whatever case it would land in: it needs
/// the header of a case, some evidence, an operation or enterprise as its origin if it has one,
/// a witness who belongs to it, well-formed evidence, and evidence behind every subject.
pub open spec fn incident_error(state: AppState, owner: OrganizationId, title: Seq<char>, subjects: Seq<EntityRef>, evidence: Seq<IncidentEvidenceDraft>, origin: Option<EntityRef>, witness: Option<IncidentWitnessDraft>) -> Option<InvestigationError> {
    if open_error(state, owner, title, subjects) is Some {
        open_error(state, owner, title, subjects)
    } else if evidence.len() == 0 {
        Some(InvestigationError::NoIncidentEvidence)
    } else if origin is Some && !(origin->0 is Operation || origin->0 is Enterprise) {
        Some(InvestigationError::InvalidCaseOrigin(origin->0))
    } else if origin is Some && !state.entity_present(origin->0) {
        Some(InvestigationError::MissingEntity(origin->0))
    } else if witness is Some && incident_witness_error(state, witness->0, origin, subjects, evidence) is Some {
        incident_witness_error(state, witness->0, origin, subjects, evidence)
    } else if first_index(evidence, faulty_evidence(state)) is Some {
        incident_evidence_error(state, evidence[first_index(evidence, faulty_evidence(state))->0])
    } else if first_index(subjects, unsubstantiated(origin, evidence)) is Some {
        Some(unsubstantiated_error(subjects[first_index(subjects, unsubstantiated(origin, evidence))->0]))
    } else {
        None
    }
}

impl IncidentIntakeDraft {
    pub open spec fn spec_error(&self, state: AppState) -> Option<InvestigationError> {
        incident_error(state, self.owner, self.title@, self.subjects@, self.evidence@, self.origin, self.witness)
    }
}

fn validate_incident_evidence(state: &AppState, e: &IncidentEvidenceDraft) -> (r: Result<(), InvestigationError>)
    ensures
        match incident_evidence_error(*state, *e) {
            Some(x) => r == Err::<(), InvestigationError>(x),
            None => r is Ok,
        },
{
    match e.kind {
        EvidenceKind::ForensicAnalysis => {
            return Err(InvestigationError::ForensicAnalysisRequiresInvestigationWork);
        },
        EvidenceKind::InformantStatement => {
            return Err(InvestigationError::InformantStatementRequiresDisclosure);
        },
        _ => {},
    }
    if !state.is_entity_present(e.subject) {
        return Err(InvestigationError::MissingEntity(e.subject));
    }
    if let Some(o) = e.origin {
        if !state.is_entity_present(o) {
            return Err(InvestigationError::MissingEntity(o));
        }
    }
    if e.discovered_at.0 > state.now.0 {
        return Err(InvestigationError::DiscoveryInFuture);
    }
    Ok(())
}

/// Whether some evidence in `evidence` is about `subject`, actionable evidence if `need_actionable`.
fn incident_has_evidence_about(evidence: &Vec<IncidentEvidenceDraft>, subject: EntityRef, need_actionable: bool) -> (r: bool)
    ensures
        r == exists|k: int|
            0 <= k < evidence@.len() && (#[trigger] evidence@[k]).subject == subject && (need_actionable
                ==> spec_actionable(evidence@[k].strength, evidence@[k].reliability, evidence@[k].admissibility)),
{
    let mut k: usize = 0;
    while k < evidence.len()
        invariant
            k <= evidence.len(),
            forall|j: int|
                0 <= j < k ==> !((#[trigger] evidence@[j]).subject == subject && (need_actionable
                    ==> spec_actionable(evidence@[j].strength, evidence@[j].reliability, evidence@[j].admissibility))),
        decreases evidence.len() - k,
    {
        let e = evidence[k];
        if e.subject == subject && (!need_actionable || crate::legal::investigation_system::evidence_assessment_is_actionable_case_lead(
            e.strength,
            e.reliability,
            e.admissibility,
        )) {
            return true;
        }
        k = k + 1;
    }
    false
}

fn validate_incident_witness(state: &AppState, w: &IncidentWitnessDraft, origin: Option<EntityRef>, subjects: &Vec<EntityRef>, evidence: &Vec<IncidentEvidenceDraft>) -> (r: Result<(), InvestigationError>)
    ensures
        match incident_witness_error(*state, *w, origin, subjects@, evidence@) {
            Some(x) => r == Err::<(), InvestigationError>(x),
            None => r is Ok,
        },
{
    if state.world.get_character(w.character).is_none() {
        return Err(InvestigationError::MissingEntity(EntityRef::Character(w.character)));
    }
    if crate::base::entity_vec_contains(subjects, EntityRef::Character(w.character)) {
        return Err(InvestigationError::WitnessIsCaseSubject { character: w.character });
    }
    if !state.is_entity_present(w.subject) {
        return Err(InvestigationError::MissingEntity(w.subject));
    }
    let in_incident = origin == Some(w.subject) || crate::base::entity_vec_contains(subjects, w.subject)
        || incident_has_evidence_about(evidence, w.subject, false);
    if !in_incident {
        return Err(InvestigationError::WitnessSubjectOutsideIncident { character: w.character, subject: w.subject });
    }
    Ok(())
}

/// Checks the incident itself, whatever case it would land in.
#[verifier::loop_isolation(false)]
fn validate_incident_intake_dependencies(state: &AppState, draft: &IncidentIntakeDraft) -> (r: Result<(), InvestigationError>)
    ensures
        match draft.spec_error(*state) {
            Some(x) => r == Err::<(), InvestigationError>(x),
            None => r is Ok,
        },
{
    validate_investigation_draft(state, draft.owner, &draft.title, &draft.subjects)?;
    if draft.evidence.len() == 0 {
        return Err(InvestigationError::NoIncidentEvidence);
    }
    if let Some(o) = draft.origin {
        match o {
            EntityRef::Operation(_) | EntityRef::Enterprise(_) => {},
            _ => {
                return Err(InvestigationError::InvalidCaseOrigin(o));
            },
        }
        if !state.is_entity_present(o) {
            return Err(InvestigationError::MissingEntity(o));
        }
    }
    if let Some(w) = draft.witness {
        validate_incident_witness(state, &w, draft.origin, &draft.subjects, &draft.evidence)?;
    }
    let mut k: usize = 0;
    while k < draft.evidence.len()
        invariant
            k <= draft.evidence.len(),
            forall|j: int| 0 <= j < k ==> !faulty_evidence(*state)(#[trigger] draft.evidence@[j]),
        decreases draft.evidence.len() - k,
    {
        let e = draft.evidence[k];
        match validate_incident_evidence(state, &e) {
            Ok(()) => {},
            Err(x) => {
                proof {
                    lemma_first_index_is(draft.evidence@, faulty_evidence(*state), k as int);
                }
                return Err(x);
            },
        }
        k = k + 1;
    }
    proof {
        lemma_first_index_none(draft.evidence@, faulty_evidence(*state));
    }
    let mut i: usize = 0;
    while i < draft.subjects.len()
        invariant
            i <= draft.subjects.len(),
            forall|j: int| 0 <= j < i ==> !unsubstantiated(draft.origin, draft.evidence@)(#[trigger] draft.subjects@[j]),
        decreases draft.subjects.len() - i,
    {
        let s = draft.subjects[i];
        if draft.origin != Some(s) {
            let is_person = match s {
                EntityRef::Character(_) => true,
                _ => false,
            };
            if !incident_has_evidence_about(&draft.evidence, s, is_person) {
                proof {
                    lemma_first_index_is(draft.subjects@, unsubstantiated(draft.origin, draft.evidence@), i as int);
                }
                return match s {
                    EntityRef::Character(c) => Err(InvestigationError::UnsubstantiatedIncidentCharacterSubject { character: c }),
                    _ => Err(InvestigationError::UnsubstantiatedIncidentSubject { subject: s }),
                };
            }
        }
        i = i + 1;
    }
    proof {
        lemma_first_index_none(draft.subjects@, unsubstantiated(draft.origin, draft.evidence@));
    }
    Ok(())
}

// ---------------------------------------------------------------------------------------------
// Finding the shelf an incident continues.

/// How many distinct entities of `draft` the case subjects `record` hold.
pub open spec fn overlap(record: Seq<EntityRef>, draft: Seq<EntityRef>) -> nat
    decreases draft.len(),
{
    if draft.len() == 0 {
        0
    } else {
        let rest = overlap(record, draft.drop_last());
        if record.contains(draft.last()) && !draft.drop_last().contains(draft.last()) {
            rest + 1
        } else {
            rest
        }
    }
}

pub proof fn lemma_overlap_bound(record: Seq<EntityRef>, draft: Seq<EntityRef>)
    ensures
        overlap(record, draft) <= draft.len(),
    decreases draft.len(),
{
    if draft.len() > 0 {
        lemma_overlap_bound(record, draft.drop_last());
    }
}

/// Whether `rec` is a shelf the incident may continue: the owner's suspended case that an
/// operation or enterprise originated and that shares subject matter with the incident.
pub open spec fn shelf_eligible(rec: InvestigationRecord, owner: OrganizationId, subjects: Seq<EntityRef>) -> bool {
    &&& rec.owner == owner
    &&& rec.status == InvestigationStatus::Suspended
    &&& rec.origin is Some
    &&& overlap(rec.subjects@, subjects) > 0
}

/// Whether shelf `a` is more relevant to the incident than shelf `b`: the same origin first, then
/// broader shared subject matter, then more recent activity, then the earlier case.
pub open spec fn shelf_outranks(a: InvestigationRecord, b: InvestigationRecord, subjects: Seq<EntityRef>, origin: Option<EntityRef>) -> bool {
    let ma = a.origin == origin;
    let mb = b.origin == origin;
    let oa = overlap(a.subjects@, subjects);
    let ob = overlap(b.subjects@, subjects);
    if ma != mb {
        ma
    } else if oa != ob {
        oa > ob
    } else if a.last_activity_at.0 != b.last_activity_at.0 {
        a.last_activity_at.0 > b.last_activity_at.0
    } else {
        a.id.0 < b.id.0
    }
}

/// Whether case `i` is the eligible shelf that outranks every other eligible shelf.
pub open spec fn is_best_shelf(invs: Seq<InvestigationRecord>, owner: OrganizationId, subjects: Seq<EntityRef>, origin: Option<EntityRef>, i: int) -> bool {
    &&& 0 <= i < invs.len()
    &&& shelf_eligible(invs[i], owner, subjects)
    &&& forall|j: int|
        0 <= j < invs.len() && j != i && shelf_eligible(#[trigger] invs[j], owner, subjects)
            ==> shelf_outranks(invs[i], invs[j], subjects, origin)
}

/// The shelf an incident of `owner` about `subjects` from `origin` continues, with the version
/// it has now; none when the owner has no eligible shelf.
pub open spec fn resumable_shelf(state: AppState, owner: OrganizationId, subjects: Seq<EntityRef>, origin: Option<EntityRef>) -> Option<(InvestigationId, u32)> {
    let invs = state.legal.investigations@;
    if exists|i: int| is_best_shelf(invs, owner, subjects, origin, i) {
        let i = choose|i: int| is_best_shelf(invs, owner, subjects, origin, i);
        Some((invs[i].id, invs[i].version))
    } else {
        None
    }
}

/// Whether `v` holds `e` among its first `n` entries.
fn contains_before(v: &Vec<EntityRef>, n: usize, e: EntityRef) -> (r: bool)
    requires
        n <= v.len(),
    ensures
        r == v@.take(n as int).contains(e),
{
    let mut i: usize = 0;
    while i < n
        invariant
            i <= n <= v.len(),
            forall|j: int| 0 <= j < i ==> v@[j] != e,
        decreases n - i,
    {
        if v[i] == e {
            assert(v@.take(n as int)[i as int] == e);
            return true;
        }
        i = i + 1;
    }
    assert forall|j: int| 0 <= j < n implies v@.take(n as int)[j] != e by {}
    false
}

fn count_overlap(record: &Vec<EntityRef>, draft: &Vec<EntityRef>) -> (r: usize)
    ensures
        r == overlap(record@, draft@),
{
    let mut count: usize = 0;
    let mut j: usize = 0;
    while j < draft.len()
        invariant
            j <= draft.len(),
            count == overlap(record@, draft@.take(j as int)),
            count <= j,
        decreases draft.len() - j,
    {
        let e = draft[j];
        proof {
            assert(draft@.take(j + 1).drop_last() =~= draft@.take(j as int));
            assert(draft@.take(j + 1).last() == e);
        }
        if crate::base::entity_vec_contains(record, e) && !contains_before(draft, j, e) {
            count = count + 1;
        }
        j = j + 1;
    }
    assert(draft@.take(draft.len() as int) =~= draft@);
    count
}

/// Finds the shelf an incident continues, as `resumable_shelf` names it.
#[verifier::loop_isolation(false)]
fn find_resumable_shelf(state: &AppState, owner: OrganizationId, subjects: &Vec<EntityRef>, origin: Option<EntityRef>) -> (r: Option<(InvestigationId, u32)>)
    requires
        state.wf(),
    ensures
        r == resumable_shelf(*state, owner, subjects@, origin),
{
    let invs = &state.legal.investigations;
    let ghost s = invs@;
    let mut best: Option<usize> = None;
    let mut best_overlap: usize = 0;
    let mut i: usize = 0;
    while i < invs.len()
        invariant
            i <= invs.len(),
            s == invs@,
            forall|k: int| 0 <= k < s.len() ==> (#[trigger] s[k]).id.0 == k + 1,
            match best {
                Some(b) => {
                    &&& b < i
                    &&& shelf_eligible(s[b as int], owner, subjects@)
                    &&& best_overlap == overlap(s[b as int].subjects@, subjects@)
                    &&& forall|j: int|
                        0 <= j < i && j != b && shelf_eligible(#[trigger] s[j], owner, subjects@)
                            ==> shelf_outranks(s[b as int], s[j], subjects@, origin)
                },
                None => forall|j: int| 0 <= j < i ==> !shelf_eligible(#[trigger] s[j], owner, subjects@),
            },
        decreases invs.len() - i,
    {
        let rec = &invs[i];
        if rec.owner == owner && rec.status == InvestigationStatus::Suspended && rec.origin.is_some() {
            let o = count_overlap(&rec.subjects, subjects);
            if o > 0 {
                let better = match best {
                    None => true,
                    Some(b) => {
                        let cur = &invs[b];
                        let ma = rec.origin == origin;
                        let mb = cur.origin == origin;
                        if ma != mb {
                            ma
                        } else if o != best_overlap {
                            o > best_overlap
                        } else if rec.last_activity_at.0 != cur.last_activity_at.0 {
                            rec.last_activity_at.0 > cur.last_activity_at.0
                        } else {
                            rec.id.0 < cur.id.0
                        }
                    },
                };
                if better {
                    best = Some(i);
                    best_overlap = o;
                }
            }
        }
        i = i + 1;
    }
    match best {
        Some(b) => {
            proof {
                assert(is_best_shelf(s, owner, subjects@, origin, b as int));
                let c = choose|c: int| is_best_shelf(s, owner, subjects@, origin, c);
                if c != b {
                    assert(shelf_outranks(s[b as int], s[c], subjects@, origin));
                    assert(shelf_outranks(s[c], s[b as int], subjects@, origin));
                }
            }
            Some((invs[b].id, invs[b].version))
        },
        None => {
            proof {
                assert forall|c: int| !is_best_shelf(s, owner, subjects@, origin, c) by {}
            }
            None
        },
    }
}

// ---------------------------------------------------------------------------------------------
// The transaction.

/// What an intake did: the case it landed in, whether that was a resumed shelf, the evidence it
/// filed in order, and the witness it registered.
#[derive(Debug, PartialEq, Eq)]
pub struct IncidentIntakeOutcome {
    pub investigation: InvestigationId,
    pub resumed_shelf: bool,
    pub evidence: Vec<EvidenceId>,
    pub case_witness: Option<CaseWitnessId>,
}

/// An intake that passed validation, pinned to the shelf (and its version) it continues.
#[derive(Debug)]
pub struct ValidatedIncidentIntake {
    draft: IncidentIntakeDraft,
    resuming: Option<(InvestigationId, u32)>,
}

/// The subjects after incident evidence was filed in order: actionable evidence identifies its
/// subject, once.
pub open spec fn promoted_by(subjects: Seq<EntityRef>, evidence: Seq<IncidentEvidenceDraft>) -> Seq<EntityRef>
    decreases evidence.len(),
{
    if evidence.len() == 0 {
        subjects
    } else {
        let e = evidence.last();
        promoted_subjects(
            promoted_by(subjects, evidence.drop_last()),
            e.subject,
            spec_actionable(e.strength, e.reliability, e.admissibility),
        )
    }
}

/// The record incident evidence `e` becomes under `id` in case `inv` held by `owner`.
pub open spec fn intake_evidence_record(e: IncidentEvidenceDraft, id: EvidenceId, inv: InvestigationId, owner: OrganizationId) -> EvidenceRecord {
    EvidenceRecord {
        id,
        investigation: inv,
        custodian: owner,
        subject: e.subject,
        origin: e.origin,
        source: None,
        derived_from: None,
        kind: e.kind,
        strength: e.strength,
        reliability: e.reliability,
        admissibility: e.admissibility,
        discovered_at: e.discovered_at,
    }
}

/// The records the incident's evidence becomes, numbered from `first`.
pub open spec fn intake_evidence_records(evidence: Seq<IncidentEvidenceDraft>, first: nat, inv: InvestigationId, owner: OrganizationId) -> Seq<EvidenceRecord> {
    Seq::new(evidence.len(), |k: int| intake_evidence_record(evidence[k], EvidenceId((first + k) as u32), inv, owner))
}

/// The record the incident's witness becomes under `id` in case `inv` at `now`.
pub open spec fn intake_witness_record(w: IncidentWitnessDraft, id: CaseWitnessId, inv: InvestigationId, now: SimTime) -> CaseWitnessRecord {
    CaseWitnessRecord {
        id,
        investigation: inv,
        witness: w.character,
        subject: w.subject,
        cooperation: w.cooperation,
        registered_at: now,
        statement: None,
        interview_attempts: 0,
        version: 1,
    }
}

/// How many revisions the incident's witness and evidence give the case.
pub open spec fn filing_advances(evidence: Seq<IncidentEvidenceDraft>, witness: Option<IncidentWitnessDraft>) -> int {
    evidence.len() + (if witness is Some { 1int } else { 0int })
}

pub open spec fn route_error(state: AppState, owner: OrganizationId, title: Seq<char>, subjects: Seq<EntityRef>, evidence: Seq<IncidentEvidenceDraft>, origin: Option<EntityRef>, witness: Option<IncidentWitnessDraft>, resuming: Option<(InvestigationId, u32)>) -> Option<InvestigationError> {
    let found = resumable_shelf(state, owner, subjects, origin);
    let n = evidence.len();
    let advances = filing_advances(evidence, witness);
    if incident_error(
        state,
        owner,
        title,
        subjects,
        evidence,
        origin,
        witness,
    ) is Some {
        incident_error(
            state,
            owner,
            title,
            subjects,
            evidence,
            origin,
            witness,
        )
    } else if found != resuming {
        Some(InvestigationError::StaleIncidentShelf { expected: resuming, found })
    } else {
        match resuming {
            Some((shelf, _)) => {
                let rec = state.legal.spec_investigation(shelf)->0;
                if rec.version == u32::MAX {
                    Some(InvestigationError::VersionCapacity(VersionedRecord::Investigation))
                } else if transition_dependency_error(state, shelf, InvestigationTransition::Resume) is Some {
                    transition_dependency_error(state, shelf, InvestigationTransition::Resume)
                } else if witness is Some && rec.subjects@.contains(
                    EntityRef::Character(witness->0.character),
                ) {
                    Some(InvestigationError::WitnessIsCaseSubject { character: witness->0.character })
                } else if witness is Some && state.legal.spec_case_witness_for(
                    shelf,
                    witness->0.character,
                ) is Some {
                    Some(
                        InvestigationError::DuplicateIncidentWitness {
                            investigation: shelf,
                            witness: witness->0.character,
                            existing: state.legal.spec_case_witness_for(shelf, witness->0.character)->0,
                        },
                    )
                } else if n > u32::MAX {
                    Some(InvestigationError::IncidentEvidenceCountOverflow)
                } else if rec.version + 1 + (if adds_to(rec.declared_subjects@, subjects) {
                    1int
                } else {
                    0int
                }) + advances > u32::MAX {
                    Some(InvestigationError::VersionCapacity(VersionedRecord::Investigation))
                } else {
                    None
                }
            },
            None => if n > u32::MAX {
                Some(InvestigationError::IncidentEvidenceCountOverflow)
            } else if 1 + advances > u32::MAX {
                Some(InvestigationError::VersionCapacity(VersionedRecord::Investigation))
            } else {
                None
            },
        }
    }
}

impl ValidatedIncidentIntake {
    pub closed spec fn spec_owner(&self) -> OrganizationId {
        self.draft.owner
    }

    pub closed spec fn spec_title(&self) -> Seq<char> {
        self.draft.title@
    }

    pub closed spec fn spec_subjects(&self) -> Seq<EntityRef> {
        self.draft.subjects@
    }

    pub closed spec fn spec_evidence(&self) -> Seq<IncidentEvidenceDraft> {
        self.draft.evidence@
    }

    pub closed spec fn spec_origin(&self) -> Option<EntityRef> {
        self.draft.origin
    }

    pub closed spec fn spec_witness(&self) -> Option<IncidentWitnessDraft> {
        self.draft.witness
    }

    pub closed spec fn spec_resuming(&self) -> Option<(InvestigationId, u32)> {
        self.resuming
    }

    /// The first reason the routing decided at validation no longer holds: the incident must
    /// still be well formed and still find the same shelf; a shelf must still be resumable,
    /// must not hold the witness as a subject or already as a witness, and must take every
    /// revision the intake gives it; a fresh case must take them too.
    pub open spec fn current_error(&self, state: AppState) -> Option<InvestigationError> {
        route_error(
            state,
            self.spec_owner(),
            self.spec_title(),
            self.spec_subjects(),
            self.spec_evidence(),
            self.spec_origin(),
            self.spec_witness(),
            self.spec_resuming(),
        )
    }

    /// Whether every identifier the intake needs is still free.
    pub open spec fn ids_available(&self, state: AppState) -> bool {
        &&& self.spec_resuming() is None ==> state.legal.investigations@.len() < u32::MAX
        &&& state.legal.evidence@.len() + self.spec_evidence().len() <= u32::MAX
        &&& self.spec_witness() is Some ==> state.legal.case_witnesses@.len() < u32::MAX
    }

    /// The first identifier space that cannot number what the intake creates: the new case,
    /// then its evidence, then its witness.
    pub open spec fn exhausted_kind(&self, state: AppState) -> IdKind {
        if self.spec_resuming() is None && state.legal.investigations@.len() >= u32::MAX {
            IdKind::Investigation
        } else if state.legal.evidence@.len() + self.spec_evidence().len() > u32::MAX {
            IdKind::Evidence
        } else {
            IdKind::CaseWitness
        }
    }

    /// The case the intake lands in.
    pub open spec fn spec_target(&self, state: AppState) -> InvestigationId {
        match self.spec_resuming() {
            Some((shelf, _)) => shelf,
            None => InvestigationId((state.legal.investigations@.len() + 1) as u32),
        }
    }

    /// Re-checks the routing decision without mutating anything.
    pub fn ensure_current(&self, state: &AppState) -> (r: Result<(), InvestigationError>)
        requires
            state.wf(),
        ensures
            match self.current_error(*state) {
                Some(e) => r == Err::<(), InvestigationError>(e),
                None => r is Ok,
            },
    {
        validate_incident_intake_dependencies(state, &self.draft)?;
        let found = find_resumable_shelf(state, self.draft.owner, &self.draft.subjects, self.draft.origin);
        if !same_shelf(found, self.resuming) {
            return Err(InvestigationError::StaleIncidentShelf { expected: self.resuming, found });
        }
        let n = self.draft.evidence.len();
        let w: u64 = if self.draft.witness.is_some() {
            1
        } else {
            0
        };
        match self.resuming {
            Some((shelf, _)) => {
                proof {
                    let invs = state.legal.investigations@;
                    assert(resumable_shelf(*state, self.draft.owner, self.draft.subjects@, self.draft.origin) is Some);
                    assert(exists|i: int| is_best_shelf(invs, self.draft.owner, self.draft.subjects@, self.draft.origin, i));
                    let i = choose|i: int| is_best_shelf(invs, self.draft.owner, self.draft.subjects@, self.draft.origin, i);
                    assert(invs[i].id.0 == i + 1);
                    assert(state.legal.spec_investigation(shelf) == Some(invs[i]));
                }
                validate_transition_investigation(state, shelf, InvestigationTransition::Resume)?;
                let rec = match state.legal.get_investigation(shelf) {
                    Some(rec) => rec,
                    None => {
                        return Err(InvestigationError::MissingInvestigation(shelf));
                    },
                };
                if let Some(wd) = self.draft.witness {
                    if crate::base::entity_vec_contains(&rec.subjects, EntityRef::Character(wd.character)) {
                        return Err(InvestigationError::WitnessIsCaseSubject { character: wd.character });
                    }
                    if let Some(existing) = state.legal.case_witness_for(shelf, wd.character) {
                        return Err(
                            InvestigationError::DuplicateIncidentWitness {
                                investigation: shelf,
                                witness: wd.character,
                                existing,
                            },
                        );
                    }
                }
                if n > u32::MAX as usize {
                    return Err(InvestigationError::IncidentEvidenceCountOverflow);
                }
                let context: u64 = if declared_gains(&rec.declared_subjects, &self.draft.subjects) {
                    1
                } else {
                    0
                };
                if rec.version as u64 + 1 + context + w + n as u64 > u32::MAX as u64 {
                    return Err(InvestigationError::VersionCapacity(VersionedRecord::Investigation));
                }
            },
            None => {
                if n > u32::MAX as usize {
                    return Err(InvestigationError::IncidentEvidenceCountOverflow);
                }
                if 1 + w + n as u64 > u32::MAX as u64 {
                    return Err(InvestigationError::VersionCapacity(VersionedRecord::Investigation));
                }
            },
        }
        Ok(())
    }
}

fn same_shelf(a: Option<(InvestigationId, u32)>, b: Option<(InvestigationId, u32)>) -> (r: bool)
    ensures
        r == (a == b),
{
    match (a, b) {
        (Some((x, v)), Some((y, u))) => x.0 == y.0 && v == u,
        (None, None) => true,
        _ => false,
    }
}

/// Whether `added` holds an entity that `base` lacks.
fn declared_gains(base: &Vec<EntityRef>, added: &Vec<EntityRef>) -> (r: bool)
    ensures
        r == adds_to(base@, added@),
{
    let mut j: usize = 0;
    while j < added.len()
        invariant
            j <= added.len(),
            forall|k: int| 0 <= k < j ==> base@.contains(#[trigger] added@[k]),
        decreases added.len() - j,
    {
        if !crate::base::entity_vec_contains(base, added[j]) {
            return true;
        }
        j = j + 1;
    }
    false
}

/// Validates taking an incident in: the incident must be well formed, and the shelf it will
/// continue, if any, is decided now.
pub fn validate_incident_intake(state: &AppState, draft: IncidentIntakeDraft) -> (r: Result<ValidatedIncidentIntake, InvestigationError>)
    requires
        state.wf(),
    ensures
        match r {
            Ok(t) => {
                &&& t.spec_owner() == draft.owner
                &&& t.spec_title() == draft.title@
                &&& t.spec_subjects() == draft.subjects@
                &&& t.spec_evidence() == draft.evidence@
                &&& t.spec_origin() == draft.origin
                &&& t.spec_witness() == draft.witness
                &&& t.spec_resuming() == resumable_shelf(*state, draft.owner, draft.subjects@, draft.origin)
                &&& t.current_error(*state) is None
            },
            Err(e) => route_error(
                *state,
                draft.owner,
                draft.title@,
                draft.subjects@,
                draft.evidence@,
                draft.origin,
                draft.witness,
                resumable_shelf(*state, draft.owner, draft.subjects@, draft.origin),
            ) == Some(e),
        },
{
    validate_incident_intake_dependencies(state, &draft)?;
    let resuming = find_resumable_shelf(state, draft.owner, &draft.subjects, draft.origin);
    let validated = ValidatedIncidentIntake { draft, resuming };
    validated.ensure_current(state)?;
    Ok(validated)
}

/// Whether `after` is `before` with only its subjects, activity clock and version changed.
pub open spec fn same_case_header(before: InvestigationRecord, after: InvestigationRecord) -> bool {
    &&& after.id == before.id
    &&& after.owner == before.owner
    &&& after.title == before.title
    &&& after.status == before.status
    &&& after.lead_investigator == before.lead_investigator
    &&& after.declared_subjects == before.declared_subjects
    &&& after.opened_at == before.opened_at
    &&& after.origin == before.origin
}

/// Files an incident's evidence with case `inv` in order, each piece revising the case.
#[verifier::rlimit(40)]
fn file_incident_evidence(state: &mut AppState, inv: InvestigationId, owner: OrganizationId, evidence: &Vec<IncidentEvidenceDraft>) -> (ids: Vec<EvidenceId>)
    requires
        old(state).wf(),
        old(state).legal.spec_investigation(inv) is Some,
        old(state).legal.spec_investigation(inv)->0.version + evidence@.len() <= u32::MAX,
        old(state).legal.evidence@.len() + evidence@.len() <= u32::MAX,
    ensures
        final(state).wf(),
        ids@ == Seq::new(evidence@.len(), |k: int| EvidenceId((old(state).legal.evidence@.len() + 1 + k) as u32)),
        final(state).legal.evidence@ == old(state).legal.evidence@ + intake_evidence_records(
            evidence@,
            old(state).legal.evidence@.len() + 1,
            inv,
            owner,
        ),
        final(state).legal.investigations@.len() == old(state).legal.investigations@.len(),
        forall|i: int|
            0 <= i < old(state).legal.investigations@.len() && i != inv.0 - 1
                ==> final(state).legal.investigations@[i] == old(state).legal.investigations@[i],
        ({
            let before = old(state).legal.investigations@[inv.0 - 1];
            let after = final(state).legal.investigations@[inv.0 - 1];
            &&& same_case_header(before, after)
            &&& after.subjects@ == promoted_by(before.subjects@, evidence@)
            &&& after.version == before.version + evidence@.len()
            &&& after.last_activity_at == (if evidence@.len() > 0 { old(state).now } else { before.last_activity_at })
        }),
        final(state).legal.arrests == old(state).legal.arrests,
        final(state).legal.case_witnesses == old(state).legal.case_witnesses,
        final(state).legal.informants == old(state).legal.informants,
        final(state).legal.disclosures == old(state).legal.disclosures,
        final(state).legal.work == old(state).legal.work,
        final(state).world == old(state).world,
        final(state).intelligence == old(state).intelligence,
        final(state).now == old(state).now,
        final(state).rng == old(state).rng,
{
    let ghost start = *state;
    let ghost first = start.legal.evidence@.len() + 1;
    let ghost before = start.legal.investigations@[inv.0 - 1];
    let now = state.now;
    let mut ids: Vec<EvidenceId> = Vec::new();
    let mut k: usize = 0;
    while k < evidence.len()
        invariant
            k <= evidence.len(),
            state.wf(),
            state.now == now,
            now == start.now,
            first == start.legal.evidence@.len() + 1,
            start.legal.spec_investigation(inv) is Some,
            before == start.legal.investigations@[inv.0 - 1],
            before.version + evidence@.len() <= u32::MAX,
            start.legal.evidence@.len() + evidence@.len() <= u32::MAX,
            ids@ == Seq::new(k as nat, |j: int| EvidenceId((first + j) as u32)),
            state.legal.evidence@ == start.legal.evidence@ + intake_evidence_records(
                evidence@.take(k as int),
                first,
                inv,
                owner,
            ),
            state.legal.investigations@.len() == start.legal.investigations@.len(),
            forall|i: int|
                0 <= i < start.legal.investigations@.len() && i != inv.0 - 1
                    ==> state.legal.investigations@[i] == start.legal.investigations@[i],
            same_case_header(before, state.legal.investigations@[inv.0 - 1]),
            state.legal.investigations@[inv.0 - 1].subjects@ == promoted_by(before.subjects@, evidence@.take(k as int)),
            state.legal.investigations@[inv.0 - 1].version == before.version + k,
            state.legal.investigations@[inv.0 - 1].last_activity_at == (if k > 0 { now } else { before.last_activity_at }),
            state.legal.arrests == start.legal.arrests,
            state.legal.case_witnesses == start.legal.case_witnesses,
            state.legal.informants == start.legal.informants,
            state.legal.disclosures == start.legal.disclosures,
            state.legal.work == start.legal.work,
            state.world == start.world,
            state.intelligence == start.intelligence,
            state.rng == start.rng,
        decreases evidence.len() - k,
    {
        let e = evidence[k];
        let len = state.legal.evidence.len();
        let id = EvidenceId((len + 1) as u32);
        let actionable = crate::legal::investigation_system::evidence_assessment_is_actionable_case_lead(
            e.strength,
            e.reliability,
            e.admissibility,
        );
        let rec = EvidenceRecord {
            id,
            investigation: inv,
            custodian: owner,
            subject: e.subject,
            origin: e.origin,
            source: None,
            derived_from: None,
            kind: e.kind,
            strength: e.strength,
            reliability: e.reliability,
            admissibility: e.admissibility,
            discovered_at: e.discovered_at,
        };
        proof {
            assert(len == start.legal.evidence@.len() + k);
            assert(rec == intake_evidence_record(evidence@[k as int], EvidenceId((first + k) as u32), inv, owner));
            assert(evidence@.take(k + 1).drop_last() =~= evidence@.take(k as int));
            assert(evidence@.take(k + 1).last() == e);
            assert(intake_evidence_records(evidence@.take(k + 1), first, inv, owner) =~= intake_evidence_records(
                evidence@.take(k as int),
                first,
                inv,
                owner,
            ).push(rec));
        }
        state.legal.insert_evidence(rec, actionable, now);
        ids.push(id);
        proof {
            assert(ids@ =~= Seq::new((k + 1) as nat, |j: int| EvidenceId((first + j) as u32)));
            assert(state.legal.evidence@ =~= start.legal.evidence@ + intake_evidence_records(
                evidence@.take(k + 1),
                first,
                inv,
                owner,
            ));
        }
        k = k + 1;
    }
    proof {
        assert(evidence@.take(evidence@.len() as int) =~= evidence@);
    }
    ids
}

/// Whether `rec` is the fresh case an intake opened under `id` at `now`, after its witness and
/// evidence were filed.
pub open spec fn is_intake_opened(rec: InvestigationRecord, id: InvestigationId, owner: OrganizationId, title: Seq<char>, subjects: Seq<EntityRef>, evidence: Seq<IncidentEvidenceDraft>, origin: Option<EntityRef>, witness: Option<IncidentWitnessDraft>, now: SimTime) -> bool {
    &&& rec.id == id
    &&& rec.owner == owner
    &&& rec.title@ == title
    &&& rec.status == InvestigationStatus::Active
    &&& rec.lead_investigator is None
    &&& rec.declared_subjects@ == subjects
    &&& rec.subjects@ == promoted_by(subjects, evidence)
    &&& rec.opened_at == now
    &&& rec.origin == origin
    &&& rec.last_activity_at == now
    &&& rec.version == 1 + filing_advances(evidence, witness)
}

/// Whether `after` is shelf `before` resumed by an intake at `now`: active again, its declared
/// and current subjects extended by the incident's, then the witness and evidence filed.
pub open spec fn is_intake_resumed(before: InvestigationRecord, after: InvestigationRecord, subjects: Seq<EntityRef>, evidence: Seq<IncidentEvidenceDraft>, witness: Option<IncidentWitnessDraft>, now: SimTime) -> bool {
    &&& after.id == before.id
    &&& after.owner == before.owner
    &&& after.title == before.title
    &&& after.status == InvestigationStatus::Active
    &&& after.lead_investigator == before.lead_investigator
    &&& after.declared_subjects@ == extended(before.declared_subjects@, subjects)
    &&& after.subjects@ == promoted_by(extended(before.subjects@, subjects), evidence)
    &&& after.opened_at == before.opened_at
    &&& after.origin == before.origin
    &&& after.last_activity_at == now
    &&& after.version == before.version + 1 + (if adds_to(before.declared_subjects@, subjects) {
        1int
    } else {
        0int
    }) + filing_advances(evidence, witness)
}

impl ValidatedIncidentIntake {
    /// Re-checks the routing, then lands the incident: a shelf is resumed through the case's
    /// lifecycle and takes the incident's subjects, or a fresh case is opened with them; the
    /// witness is registered and the evidence filed in order, each revising the case.
    #[verifier::rlimit(60)]
    pub fn commit(self, state: &mut AppState) -> (r: Result<IncidentIntakeOutcome, InvestigationError>)
        requires
            old(state).wf(),
        ensures
            final(state).wf(),
            match self.current_error(*old(state)) {
                Some(e) => r == Err::<IncidentIntakeOutcome, InvestigationError>(e) && *final(state) == *old(state),
                None => if !self.ids_available(*old(state)) {
                    r == Err::<IncidentIntakeOutcome, InvestigationError>(
                        InvestigationError::IdExhaustion(IdExhaustionError::Exhausted { kind: self.exhausted_kind(*old(state)) }),
                    )
                        && *final(state) == *old(state)
                } else {
                    let target = self.spec_target(*old(state));
                    let evidence = self.spec_evidence();
                    let first = old(state).legal.evidence@.len() + 1;
                    let witness_id = CaseWitnessId((old(state).legal.case_witnesses@.len() + 1) as u32);
                    let now = old(state).now;
                    &&& r matches Ok(out) && out.investigation == target && out.resumed_shelf == (
                    self.spec_resuming() is Some) && out.evidence@ == Seq::new(
                        evidence.len(),
                        |k: int| EvidenceId((first + k) as u32),
                    ) && out.case_witness == (if self.spec_witness() is Some {
                        Some(witness_id)
                    } else {
                        None
                    })
                    &&& final(state).legal.evidence@ == old(state).legal.evidence@ + intake_evidence_records(
                        evidence,
                        first,
                        target,
                        self.spec_owner(),
                    )
                    &&& final(state).legal.case_witnesses@ == (match self.spec_witness() {
                        Some(w) => old(state).legal.case_witnesses@.push(intake_witness_record(w, witness_id, target, now)),
                        None => old(state).legal.case_witnesses@,
                    })
                    &&& match self.spec_resuming() {
                        Some((shelf, _)) => {
                            &&& final(state).legal.investigations@.len() == old(state).legal.investigations@.len()
                            &&& forall|i: int|
                                0 <= i < old(state).legal.investigations@.len() && i != shelf.0 - 1
                                    ==> final(state).legal.investigations@[i] == old(state).legal.investigations@[i]
                            &&& is_intake_resumed(
                                old(state).legal.investigations@[shelf.0 - 1],
                                final(state).legal.investigations@[shelf.0 - 1],
                                self.spec_subjects(),
                                evidence,
                                self.spec_witness(),
                                now,
                            )
                        },
                        None => {
                            &&& final(state).legal.investigations@.len() == old(state).legal.investigations@.len() + 1
                            &&& final(state).legal.investigations@.drop_last() == old(state).legal.investigations@
                            &&& is_intake_opened(
                                final(state).legal.investigations@.last(),
                                target,
                                self.spec_owner(),
                                self.spec_title(),
                                self.spec_subjects(),
                                evidence,
                                self.spec_origin(),
                                self.spec_witness(),
                                now,
                            )
                        },
                    }
                    &&& final(state).legal.arrests == old(state).legal.arrests
                    &&& final(state).legal.informants == old(state).legal.informants
                    &&& final(state).legal.disclosures == old(state).legal.disclosures
                    &&& final(state).legal.work == old(state).legal.work
                    &&& final(state).world == old(state).world
                    &&& final(state).intelligence == old(state).intelligence
                    &&& final(state).now == old(state).now
                    &&& final(state).rng == old(state).rng
                },
            },
    {
        self.ensure_current(state)?;
        let n = self.draft.evidence.len();
        if self.resuming.is_none() && state.legal.investigations.len() >= u32::MAX as usize {
            return Err(InvestigationError::IdExhaustion(IdExhaustionError::Exhausted { kind: IdKind::Investigation }));
        }
        if state.legal.evidence.len() > u32::MAX as usize - n {
            return Err(InvestigationError::IdExhaustion(IdExhaustionError::Exhausted { kind: IdKind::Evidence }));
        }
        if self.draft.witness.is_some() && state.legal.case_witnesses.len() >= u32::MAX as usize {
            return Err(InvestigationError::IdExhaustion(IdExhaustionError::Exhausted { kind: IdKind::CaseWitness }));
        }
        let ghost start = *state;
        let now = state.now;
        let ValidatedIncidentIntake { draft, resuming } = self;
        let IncidentIntakeDraft { owner, title, subjects, evidence, origin, notified_organizations: _, witness } = draft;
        let target = match resuming {
            Some((shelf, _)) => {
                let ghost shelf_before = start.legal.investigations@[shelf.0 - 1];
                proof {
                    let invs = start.legal.investigations@;
                    let i = choose|i: int| is_best_shelf(invs, owner, subjects@, origin, i);
                    assert(invs[i].id.0 == i + 1);
                    assert(shelf_before.status == InvestigationStatus::Suspended);
                }
                let transition = match validate_transition_investigation(state, shelf, InvestigationTransition::Resume) {
                    Ok(t) => t,
                    Err(e) => {
                        return Err(e);
                    },
                };
                match transition.commit(state) {
                    Ok(()) => {},
                    Err(e) => {
                        return Err(e);
                    },
                }
                let ghost resumed = *state;
                assert(resumed.legal.investigations@[shelf.0 - 1] == with_status(
                    shelf_before,
                    InvestigationStatus::Active,
                    now,
                ));
                state.legal.extend_incident_subjects((shelf.0 - 1) as usize, &subjects);
                shelf
            },
            None => {
                let id = InvestigationId((state.legal.investigations.len() + 1) as u32);
                let declared = crate::legal::investigation_system::copy_entities(&subjects);
                state.legal.insert_investigation(
                    InvestigationRecord {
                        id,
                        owner,
                        title,
                        status: InvestigationStatus::Active,
                        lead_investigator: None,
                        declared_subjects: declared,
                        subjects,
                        opened_at: now,
                        origin,
                        last_activity_at: now,
                        version: 1,
                    },
                );
                id
            },
        };
        let ghost staged = *state;
        let case_witness = match witness {
            Some(w) => {
                let id = CaseWitnessId((state.legal.case_witnesses.len() + 1) as u32);
                state.legal.insert_case_witness(
                    CaseWitnessRecord {
                        id,
                        investigation: target,
                        witness: w.character,
                        subject: w.subject,
                        cooperation: w.cooperation,
                        registered_at: now,
                        statement: None,
                        interview_attempts: 0,
                        version: 1,
                    },
                );
                Some(id)
            },
            None => None,
        };
        let ghost witnessed = *state;
        let ids = file_incident_evidence(state, target, owner, &evidence);
        Ok(
            IncidentIntakeOutcome {
                investigation: target,
                resumed_shelf: resuming.is_some(),
                evidence: ids,
                case_witness,
            },
        )
    }
}

/// Continuity of origin comes first when an incident picks the shelf it continues: whenever one
/// of the owner's eligible shelves was opened from the incident's own origin, the shelf the
/// incident continues was opened from that origin too, however broadly other shelves share its
/// subjects.
pub proof fn law_same_origin_shelf_is_resumed(state: AppState, owner: OrganizationId, subjects: Seq<EntityRef>, origin: Option<EntityRef>, j: int)
    requires
        state.wf(),
        0 <= j < state.legal.investigations@.len(),
        shelf_eligible(state.legal.investigations@[j], owner, subjects),
        state.legal.investigations@[j].origin == origin,
    ensures
        resumable_shelf(state, owner, subjects, origin) matches Some((id, _)) ==> state.legal.spec_investigation(id) is Some
            && state.legal.spec_investigation(id)->0.origin == origin,
{
    let invs = state.legal.investigations@;
    if exists|i: int| is_best_shelf(invs, owner, subjects, origin, i) {
        let i = choose|i: int| is_best_shelf(invs, owner, subjects, origin, i);
        assert(invs[i].id.0 == i + 1);
        if invs[i].origin != origin {
            assert(i != j);
            assert(shelf_outranks(invs[i], invs[j], subjects, origin));
        }
    }
}

} // verus!
