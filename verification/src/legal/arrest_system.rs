//! Evidence-backed custody: validating and committing an arrest (which preempts the detainee's
//! scheduled detective work and lead seat), releasing a detainee, and the custody window.

use vstd::prelude::*;
use crate::base::{IdExhaustionError, IdKind};
use crate::base::VersionedRecord;
use crate::base::{
    ArrestId, CharacterId, EntityRef, EvidenceId, InvestigationId, InvestigationWorkId,
    OrganizationId, SimDuration, SimTime,
};
use crate::legal::custody::{
    distinct_sources, evidence_at, evidence_qualifies_for_custody, independent_sources,
    lemma_distinct_sources_len, meets_custody_bar, source_of, spec_custody_release_at,
    spec_qualifies_for_custody, CustodyCorroborationSource,
};
use crate::legal::store::{cancelled, revised, without_lead};
use crate::legal::{
    Admissibility, ArrestRecord, ArrestStatus, EvidenceRecord, EvidenceReliability,
    EvidenceStrength, InvestigationRecord, InvestigationStatus, InvestigationWorkCancellation,
    InvestigationWorkCancellationReason, InvestigationWorkRecord, LegalState,
};
use crate::registry::Registry;
use crate::seqs::{first_index, last_index, lemma_first_index_is, lemma_first_index_none, lemma_last_index_props};
use crate::state::AppState;
use crate::world::OrganizationKind;

verus! {

/// Why custody was refused.
#[allow(inconsistent_fields)]
#[derive(Clone, Copy, Debug, PartialEq, Eq, Structural)]
pub enum ArrestError {
    MissingCharacter(CharacterId),
    InsufficientEvidence { evidence: EvidenceId, strength: EvidenceStrength, reliability: EvidenceReliability },
    InadmissibleEvidence { evidence: EvidenceId, admissibility: Admissibility },
    MissingInvestigation(InvestigationId),
    InactiveInvestigation(InvestigationId),
    InvalidAuthority(OrganizationId),
    CharacterNotSubject { character: CharacterId, investigation: InvestigationId },
    NoEvidence,
    InsufficientIndependentEvidence { found: usize, required: u8 },
    NoStrongIndependentEvidence,
    MissingEvidence(EvidenceId),
    EvidenceInvestigationMismatch { evidence: EvidenceId, investigation: InvestigationId },
    EvidenceCustodianMismatch { evidence: EvidenceId, authority: OrganizationId },
    EvidenceSubjectMismatch { evidence: EvidenceId, character: CharacterId },
    AlreadyDetained { character: CharacterId, arrest: ArrestId },
    RepeatCustodyWithoutNewEvidence {
        character: CharacterId,
        investigation: InvestigationId,
        prior_arrest: ArrestId,
        released_at: SimTime,
    },
    StaleInvestigation { investigation: InvestigationId, expected: u32, found: u32 },
    StaleCharacter { character: CharacterId, expected: u32, found: u32 },
    StaleArrestTime { expected: SimTime, found: SimTime },
    CustodyResponsibilitiesChanged { character: CharacterId },
    MissingArrest(ArrestId),
    NotDetained(ArrestId),
    StaleArrest { arrest: ArrestId, expected: u32, found: u32 },
    StaleWork { work: InvestigationWorkId, expected: u32, found: u32 },
    IdExhaustion(IdExhaustionError),
    VersionCapacity(VersionedRecord),
}

/// A requested detention of `character` in `investigation`, citing case evidence.
#[derive(Debug)]
pub struct ArrestDraft {
    pub character: CharacterId,
    pub investigation: InvestigationId,
    pub evidence: Vec<EvidenceId>,
}

/// The first thing wrong with citing `id` against `character` in a case owned by `owner`.
pub open spec fn citation_error(state: AppState, character: CharacterId, investigation: InvestigationId, owner: OrganizationId, id: EvidenceId) -> Option<ArrestError> {
    match state.legal.spec_evidence(id) {
        None => Some(ArrestError::MissingEvidence(id)),
        Some(e) => if e.investigation != investigation {
            Some(ArrestError::EvidenceInvestigationMismatch { evidence: id, investigation })
        } else if e.custodian != owner {
            Some(ArrestError::EvidenceCustodianMismatch { evidence: id, authority: owner })
        } else if e.subject != EntityRef::Character(character) {
            Some(ArrestError::EvidenceSubjectMismatch { evidence: id, character })
        } else if !spec_qualifies_for_custody(e) {
            if e.admissibility == Admissibility::Inadmissible {
                Some(ArrestError::InadmissibleEvidence { evidence: id, admissibility: e.admissibility })
            } else {
                Some(
                    ArrestError::InsufficientEvidence {
                        evidence: id,
                        strength: e.strength,
                        reliability: e.reliability,
                    },
                )
            }
        } else {
            None
        },
    }
}

pub open spec fn bad_citation(state: AppState, character: CharacterId, investigation: InvestigationId, owner: OrganizationId) -> spec_fn(EvidenceId) -> bool {
    |id: EvidenceId| citation_error(state, character, investigation, owner, id) is Some
}

pub open spec fn released_of(investigation: InvestigationId, character: CharacterId) -> spec_fn(ArrestRecord) -> bool {
    |a: ArrestRecord| a.investigation == investigation && a.character == character && a.status
        == ArrestStatus::Released
}

/// When a released detention ended.
pub open spec fn release_instant(a: ArrestRecord) -> SimTime {
    match a.released_at {
        Some(t) => t,
        None => a.arrested_at,
    }
}

/// Whether some cited record was discovered at or after `t`.
pub open spec fn newer_citation(ev: Seq<EvidenceRecord>, ids: Seq<EvidenceId>, t: SimTime) -> bool {
    exists|i: int|
        0 <= i < ids.len() && #[trigger] evidence_at(ev, ids[i]) is Some && evidence_at(ev, ids[i])->0.discovered_at.0
            >= t.0
}

/// Renewed custody in the same case, after the latest release of the same person, needs a later
/// custody minute and evidence from the release minute or later.
pub open spec fn repeat_custody(state: AppState, investigation: InvestigationId, character: CharacterId, ids: Seq<EvidenceId>) -> Option<(ArrestId, SimTime)> {
    match last_index(state.legal.arrests@, released_of(investigation, character)) {
        Some(i) => {
            let a = state.legal.arrests@[i];
            let t = release_instant(a);
            if state.now.0 <= t.0 || !newer_citation(state.legal.evidence@, ids, t) {
                Some((a.id, t))
            } else {
                None
            }
        },
        None => None,
    }
}

pub open spec fn pair_first<A, B>(p: (A, B)) -> A {
    p.0
}

pub open spec fn pair_second<A, B>(p: (A, B)) -> B {
    p.1
}

/// The first reason the detention is refused, in the order the checks run. An explicit arrest
/// may renew custody after a release; only the autonomous policy refuses to.
pub open spec fn arrest_error(state: AppState, character: CharacterId, investigation: InvestigationId, ids: Seq<EvidenceId>, minimum: u8) -> Option<ArrestError> {
    if !state.world.character_present(character) {
        Some(ArrestError::MissingCharacter(character))
    } else if state.legal.spec_active_arrest_for(character) is Some {
        Some(ArrestError::AlreadyDetained { character, arrest: state.legal.spec_active_arrest_for(character)->0 })
    } else {
        match state.legal.spec_investigation(investigation) {
            None => Some(ArrestError::MissingInvestigation(investigation)),
            Some(rec) => if rec.status != InvestigationStatus::Active {
                Some(ArrestError::InactiveInvestigation(investigation))
            } else if !rec.subjects@.contains(EntityRef::Character(character)) {
                Some(ArrestError::CharacterNotSubject { character, investigation })
            } else if state.world.spec_kind(rec.owner) != Some(OrganizationKind::LawEnforcement) {
                Some(ArrestError::InvalidAuthority(rec.owner))
            } else if ids.len() == 0 {
                Some(ArrestError::NoEvidence)
            } else if first_index(ids, bad_citation(state, character, investigation, rec.owner)) is Some {
                citation_error(
                    state,
                    character,
                    investigation,
                    rec.owner,
                    ids[first_index(ids, bad_citation(state, character, investigation, rec.owner))->0],
                )
            } else if distinct_sources(state.legal.evidence@, ids, false).len() < minimum {
                Some(
                    ArrestError::InsufficientIndependentEvidence {
                        found: distinct_sources(state.legal.evidence@, ids, false).len() as usize,
                        required: minimum,
                    },
                )
            } else if distinct_sources(state.legal.evidence@, ids, true).len() == 0 {
                Some(ArrestError::NoStrongIndependentEvidence)
            } else {
                None
            },
        }
    }
}

fn check_citation(state: &AppState, character: CharacterId, investigation: InvestigationId, owner: OrganizationId, id: EvidenceId) -> (r: Result<(), ArrestError>)
    ensures
        match citation_error(*state, character, investigation, owner, id) {
            Some(e) => r == Err::<(), ArrestError>(e),
            None => r is Ok,
        },
{
    let e = match state.legal.get_evidence(id) {
        Some(e) => e,
        None => {
            return Err(ArrestError::MissingEvidence(id));
        },
    };
    if e.investigation != investigation {
        return Err(ArrestError::EvidenceInvestigationMismatch { evidence: id, investigation });
    }
    if e.custodian != owner {
        return Err(ArrestError::EvidenceCustodianMismatch { evidence: id, authority: owner });
    }
    if e.subject != EntityRef::Character(character) {
        return Err(ArrestError::EvidenceSubjectMismatch { evidence: id, character });
    }
    if !evidence_qualifies_for_custody(&e) {
        if e.admissibility == Admissibility::Inadmissible {
            return Err(ArrestError::InadmissibleEvidence { evidence: id, admissibility: e.admissibility });
        }
        return Err(
            ArrestError::InsufficientEvidence { evidence: id, strength: e.strength, reliability: e.reliability },
        );
    }
    Ok(())
}

/// The latest released detention of `character` in `investigation`.
fn latest_released_arrest(state: &AppState, investigation: InvestigationId, character: CharacterId) -> (r: Option<usize>)
    ensures
        match r {
            Some(j) => last_index(state.legal.arrests@, released_of(investigation, character)) == Some(j as int),
            None => last_index(state.legal.arrests@, released_of(investigation, character)) is None,
        },
{
    let mut latest: Option<usize> = None;
    let mut i: usize = 0;
    while i < state.legal.arrests.len()
        invariant
            i <= state.legal.arrests.len(),
            match latest {
                Some(j) => last_index(state.legal.arrests@.take(i as int), released_of(investigation, character)) == Some(j as int),
                None => last_index(state.legal.arrests@.take(i as int), released_of(investigation, character)) is None,
            },
        decreases state.legal.arrests.len() - i,
    {
        proof {
            assert(state.legal.arrests@.take(i + 1).drop_last() =~= state.legal.arrests@.take(i as int));
        }
        let a = &state.legal.arrests[i];
        if a.investigation == investigation && a.character == character && a.status == ArrestStatus::Released {
            latest = Some(i);
        }
        i = i + 1;
    }
    assert(state.legal.arrests@.take(state.legal.arrests.len() as int) =~= state.legal.arrests@);
    latest
}

fn has_newer_citation(state: &AppState, ids: &Vec<EvidenceId>, t: SimTime) -> (r: bool)
    ensures
        r == newer_citation(state.legal.evidence@, ids@, t),
{
    let mut i: usize = 0;
    while i < ids.len()
        invariant
            i <= ids.len(),
            forall|j: int|
                0 <= j < i ==> !(#[trigger] evidence_at(state.legal.evidence@, ids@[j]) is Some
                    && evidence_at(state.legal.evidence@, ids@[j])->0.discovered_at.0 >= t.0),
        decreases ids.len() - i,
    {
        match state.legal.get_evidence(ids[i]) {
            Some(e) => {
                if e.discovered_at.0 >= t.0 {
                    assert(evidence_at(state.legal.evidence@, ids@[i as int]) is Some);
                    return true;
                }
            },
            None => {},
        }
        i = i + 1;
    }
    false
}

fn repeat_custody_without_new_evidence(state: &AppState, investigation: InvestigationId, character: CharacterId, ids: &Vec<EvidenceId>) -> (r: Option<(ArrestId, SimTime)>)
    ensures
        r == repeat_custody(*state, investigation, character, ids@),
{
    proof {
        lemma_last_index_props(state.legal.arrests@, released_of(investigation, character));
    }
    match latest_released_arrest(state, investigation, character) {
        Some(i) => {
            assert(last_index(state.legal.arrests@, released_of(investigation, character)) == Some(i as int));
            let a = &state.legal.arrests[i];
            assert(*a == state.legal.arrests@[i as int]);
            let t = match a.released_at {
                Some(t) => t,
                None => a.arrested_at,
            };
            let id = a.id;
            if state.now.0 <= t.0 || !has_newer_citation(state, ids, t) {
                Some((id, t))
            } else {
                None
            }
        },
        None => None,
    }
}

/// Checks everything custody depends on and returns the arresting authority.
#[verifier::loop_isolation(false)]
fn validate_arrest_dependencies(state: &AppState, character: CharacterId, investigation: InvestigationId, ids: &Vec<EvidenceId>, minimum: u8) -> (r: Result<OrganizationId, ArrestError>)
    ensures
        match arrest_error(*state, character, investigation, ids@, minimum) {
            Some(e) => r == Err::<OrganizationId, ArrestError>(e),
            None => r == Ok::<OrganizationId, ArrestError>(state.legal.spec_investigation(investigation)->0.owner),
        },
{
    if state.world.get_character(character).is_none() {
        return Err(ArrestError::MissingCharacter(character));
    }
    if let Some(arrest) = state.legal.active_arrest_for_character(character) {
        return Err(ArrestError::AlreadyDetained { character, arrest });
    }
    let rec = match state.legal.get_investigation(investigation) {
        Some(rec) => rec,
        None => {
            return Err(ArrestError::MissingInvestigation(investigation));
        },
    };
    if rec.status != InvestigationStatus::Active {
        return Err(ArrestError::InactiveInvestigation(investigation));
    }
    if !crate::base::entity_vec_contains(&rec.subjects, EntityRef::Character(character)) {
        return Err(ArrestError::CharacterNotSubject { character, investigation });
    }
    let owner = rec.owner;
    if state.world.organization_kind(owner) != Some(OrganizationKind::LawEnforcement) {
        return Err(ArrestError::InvalidAuthority(owner));
    }
    if ids.len() == 0 {
        return Err(ArrestError::NoEvidence);
    }
    let ghost bad = bad_citation(*state, character, investigation, owner);
    let mut i: usize = 0;
    while i < ids.len()
        invariant
            i <= ids.len(),
            forall|j: int| 0 <= j < i ==> !bad(#[trigger] ids@[j]),
        decreases ids.len() - i,
    {
        let checked = check_citation(state, character, investigation, owner, ids[i]);
        if checked.is_err() {
            proof {
                lemma_first_index_is(ids@, bad, i as int);
            }
            return checked.map(|u: ()| owner);
        }
        i = i + 1;
    }
    proof {
        lemma_first_index_none(ids@, bad);
    }
    let sources = independent_sources(&state.legal.evidence, ids, false);
    if sources.len() < minimum as usize {
        return Err(ArrestError::InsufficientIndependentEvidence { found: sources.len(), required: minimum });
    }
    let strong = independent_sources(&state.legal.evidence, ids, true);
    if strong.len() == 0 {
        return Err(ArrestError::NoStrongIndependentEvidence);
    }
    Ok(owner)
}

/// Case files after custody preempts the detainee: cancelling their scheduled work revises that
/// work's case, and the case they lead loses its lead; neither is investigative activity.
pub open spec fn preempted_cases(invs: Seq<InvestigationRecord>, work_case: Option<InvestigationId>, lead_case: Option<InvestigationId>) -> Seq<InvestigationRecord> {
    let s1 = match work_case {
        Some(i) => invs.update(i.0 - 1, revised(invs[i.0 - 1])),
        None => invs,
    };
    match lead_case {
        Some(i) => s1.update(i.0 - 1, without_lead(s1[i.0 - 1])),
        None => s1,
    }
}

/// The case whose version a scheduled work's cancellation advances.
pub open spec fn work_case(legal: LegalState, work: Option<InvestigationWorkId>) -> Option<InvestigationId> {
    match work {
        Some(w) => Some(legal.spec_work(w)->0.investigation),
        None => None,
    }
}

/// The record whose version would overflow when the preempted records cannot take custody's
/// revisions: the detainee's scheduled work when it has none left, otherwise a case.
pub open spec fn preemption_capacity_kind(legal: LegalState, work: Option<InvestigationWorkId>) -> VersionedRecord {
    match work {
        Some(w) => if legal.spec_work(w)->0.version == u32::MAX {
            VersionedRecord::InvestigationWork
        } else {
            VersionedRecord::Investigation
        },
        None => VersionedRecord::Investigation,
    }
}

/// Whether the preempted records can take the revisions custody makes.
pub open spec fn preemption_capacity_ok(legal: LegalState, work: Option<InvestigationWorkId>, lead_case: Option<InvestigationId>) -> bool {
    &&& work matches Some(w) ==> legal.spec_work(w)->0.version < u32::MAX && legal.spec_investigation(
        legal.spec_work(w)->0.investigation,
    )->0.version < u32::MAX
    &&& lead_case matches Some(i) ==> legal.spec_investigation(i)->0.version < u32::MAX
    &&& (work is Some && lead_case is Some && work_case(legal, work) == lead_case) ==> legal.spec_investigation(
        lead_case->0,
    )->0.version + 2 <= u32::MAX
}

/// Scheduled work and active case files only ever name present records.
proof fn lemma_responsibilities_present(legal: LegalState, c: CharacterId)
    requires
        legal.wf(),
    ensures
        legal.spec_scheduled_work_for(c) matches Some(w) ==> legal.spec_work(w) is Some
            && legal.spec_work(w)->0.id == w && legal.spec_work(w)->0.investigator == c,
        legal.spec_active_investigation_for(c) matches Some(i) ==> legal.spec_investigation(i) is Some
            && legal.spec_investigation(i)->0.id == i,
{
    crate::seqs::lemma_first_index_props(legal.work@, crate::legal::scheduled_for_investigator(c));
    crate::seqs::lemma_first_index_props(legal.investigations@, crate::legal::active_led_by(c));
}

fn check_preemption_capacity(state: &AppState, work: Option<InvestigationWorkId>, lead_case: Option<InvestigationId>) -> (r: Result<(), ArrestError>)
    requires
        work matches Some(w) ==> state.legal.spec_work(w) is Some && state.legal.spec_investigation(
            state.legal.spec_work(w)->0.investigation,
        ) is Some,
        lead_case matches Some(i) ==> state.legal.spec_investigation(i) is Some,
    ensures
        r is Ok <==> preemption_capacity_ok(state.legal, work, lead_case),
        r is Err ==> r == Err::<(), ArrestError>(ArrestError::VersionCapacity(preemption_capacity_kind(state.legal, work))),
{
    let mut same = false;
    if let Some(w) = work {
        let rec = match state.legal.get_investigation_work(w) {
            Some(rec) => rec,
            None => {
                return Err(ArrestError::VersionCapacity(VersionedRecord::InvestigationWork));
            },
        };
        if rec.version == u32::MAX {
            return Err(ArrestError::VersionCapacity(VersionedRecord::InvestigationWork));
        }
        let v = match state.legal.get_investigation(rec.investigation) {
            Some(inv) => inv.version,
            None => {
                return Err(ArrestError::VersionCapacity(VersionedRecord::Investigation));
            },
        };
        if v == u32::MAX {
            return Err(ArrestError::VersionCapacity(VersionedRecord::Investigation));
        }
        same = lead_case == Some(rec.investigation);
    }
    if let Some(i) = lead_case {
        let v = match state.legal.get_investigation(i) {
            Some(inv) => inv.version,
            None => {
                return Err(ArrestError::VersionCapacity(VersionedRecord::Investigation));
            },
        };
        if v == u32::MAX {
            return Err(ArrestError::VersionCapacity(VersionedRecord::Investigation));
        }
        if same && v > u32::MAX - 2 {
            return Err(ArrestError::VersionCapacity(VersionedRecord::Investigation));
        }
    }
    Ok(())
}

/// A detention that passed validation, pinned to the time, versions and responsibilities it saw.
#[derive(Debug)]
pub struct ValidatedArrest {
    draft: ArrestDraft,
    authority: OrganizationId,
    minimum: u8,
    expected_investigation_version: u32,
    expected_character_version: u32,
    validated_at: SimTime,
    work: Option<(InvestigationWorkId, u32)>,
    lead_case: Option<InvestigationId>,
}

/// Whether `a` is the new detention under `id`.
pub open spec fn is_new_arrest(a: ArrestRecord, id: ArrestId, character: CharacterId, investigation: InvestigationId, authority: OrganizationId, ids: Seq<EvidenceId>, now: SimTime) -> bool {
    &&& a.id == id
    &&& a.character == character
    &&& a.authority == authority
    &&& a.investigation == investigation
    &&& a.evidence@ == ids
    &&& a.arrested_at == now
    &&& a.released_at is None
    &&& a.status == ArrestStatus::Detained
    &&& a.version == 1
}

impl ValidatedArrest {
    pub closed spec fn spec_character(&self) -> CharacterId {
        self.draft.character
    }

    pub closed spec fn spec_investigation(&self) -> InvestigationId {
        self.draft.investigation
    }

    pub closed spec fn spec_evidence(&self) -> Seq<EvidenceId> {
        self.draft.evidence@
    }

    pub closed spec fn spec_minimum(&self) -> u8 {
        self.minimum
    }

    pub closed spec fn spec_authority(&self) -> OrganizationId {
        self.authority
    }

    pub closed spec fn spec_investigation_version(&self) -> u32 {
        self.expected_investigation_version
    }

    pub closed spec fn spec_character_version(&self) -> u32 {
        self.expected_character_version
    }

    pub closed spec fn spec_validated_at(&self) -> SimTime {
        self.validated_at
    }

    pub closed spec fn spec_work(&self) -> Option<(InvestigationWorkId, u32)> {
        self.work
    }

    pub closed spec fn spec_lead_case(&self) -> Option<InvestigationId> {
        self.lead_case
    }

    pub open spec fn spec_work_id(&self) -> Option<InvestigationWorkId> {
        match self.spec_work() {
            Some(p) => Some(p.0),
            None => None,
        }
    }

    /// The first reason the detention cannot be committed now.
    pub open spec fn commit_error(&self, state: AppState) -> Option<ArrestError> {
        let c = self.spec_character();
        let inv = self.spec_investigation();
        if state.now != self.spec_validated_at() {
            Some(ArrestError::StaleArrestTime { expected: self.spec_validated_at(), found: state.now })
        } else if state.legal.spec_investigation(inv) is None {
            Some(ArrestError::MissingInvestigation(inv))
        } else if state.legal.spec_investigation(inv)->0.version != self.spec_investigation_version() {
            Some(
                ArrestError::StaleInvestigation {
                    investigation: inv,
                    expected: self.spec_investigation_version(),
                    found: state.legal.spec_investigation(inv)->0.version,
                },
            )
        } else if state.world.spec_character(c) is None {
            Some(ArrestError::MissingCharacter(c))
        } else if state.world.spec_character(c)->0.version != self.spec_character_version() {
            Some(
                ArrestError::StaleCharacter {
                    character: c,
                    expected: self.spec_character_version(),
                    found: state.world.spec_character(c)->0.version,
                },
            )
        } else if arrest_error(state, c, inv, self.spec_evidence(), self.spec_minimum()) is Some {
            arrest_error(state, c, inv, self.spec_evidence(), self.spec_minimum())
        } else if state.legal.spec_scheduled_work_for(c) != self.spec_work_id()
            || state.legal.spec_active_investigation_for(c) != self.spec_lead_case() {
            Some(ArrestError::CustodyResponsibilitiesChanged { character: c })
        } else if self.spec_work() is Some && state.legal.spec_work(self.spec_work_id()->0)->0.version
            != pair_second(self.spec_work()->0) {
            Some(
                ArrestError::StaleWork {
                    work: self.spec_work_id()->0,
                    expected: pair_second(self.spec_work()->0),
                    found: state.legal.spec_work(self.spec_work_id()->0)->0.version,
                },
            )
        } else if !preemption_capacity_ok(state.legal, self.spec_work_id(), self.spec_lead_case()) {
            Some(ArrestError::VersionCapacity(preemption_capacity_kind(state.legal, self.spec_work_id())))
        } else if state.legal.arrests@.len() >= u32::MAX {
            Some(ArrestError::IdExhaustion(IdExhaustionError::Exhausted { kind: IdKind::Arrest }))
        } else {
            None
        }
    }

    /// Re-checks everything, then detains: the detainee's scheduled work is cancelled with the
    /// arrest as its reason, the case they lead loses its lead, and the detention is recorded.
    pub fn commit(self, state: &mut AppState) -> (r: Result<ArrestId, ArrestError>)
        requires
            old(state).wf(),
        ensures
            final(state).wf(),
            match self.commit_error(*old(state)) {
                Some(e) => r == Err::<ArrestId, ArrestError>(e) && *final(state) == *old(state),
                None => {
                    let id = ArrestId((old(state).legal.arrests@.len() + 1) as u32);
                    let now = old(state).now;
                    &&& r == Ok::<ArrestId, ArrestError>(id)
                    &&& final(state).legal.arrests@.len() == old(state).legal.arrests@.len() + 1
                    &&& final(state).legal.arrests@.drop_last() == old(state).legal.arrests@
                    &&& is_new_arrest(
                        final(state).legal.arrests@.last(),
                        id,
                        self.spec_character(),
                        self.spec_investigation(),
                        old(state).legal.spec_investigation(self.spec_investigation())->0.owner,
                        self.spec_evidence(),
                        now,
                    )
                    &&& meets_custody_bar(old(state).legal.evidence@, self.spec_evidence(), self.spec_minimum())
                    &&& final(state).legal.work@ == match self.spec_work_id() {
                        Some(w) => old(state).legal.work@.update(
                            w.0 - 1,
                            cancelled(
                                old(state).legal.work@[w.0 - 1],
                                InvestigationWorkCancellation {
                                    cancelled_at: now,
                                    reason: InvestigationWorkCancellationReason::InvestigatorDetained(id),
                                },
                            ),
                        ),
                        None => old(state).legal.work@,
                    }
                    &&& final(state).legal.investigations@ == preempted_cases(
                        old(state).legal.investigations@,
                        work_case(old(state).legal, self.spec_work_id()),
                        self.spec_lead_case(),
                    )
                    &&& final(state).legal.evidence == old(state).legal.evidence
                    &&& final(state).legal.case_witnesses == old(state).legal.case_witnesses
                    &&& final(state).legal.informants == old(state).legal.informants
                    &&& final(state).legal.disclosures == old(state).legal.disclosures
                    &&& final(state).world == old(state).world
                    &&& final(state).intelligence == old(state).intelligence
                    &&& final(state).now == old(state).now
                    &&& final(state).rng == old(state).rng
                },
            },
    {
        let c = self.draft.character;
        let inv = self.draft.investigation;
        if state.now != self.validated_at {
            return Err(ArrestError::StaleArrestTime { expected: self.validated_at, found: state.now });
        }
        let inv_version = match state.legal.get_investigation(inv) {
            Some(rec) => rec.version,
            None => {
                return Err(ArrestError::MissingInvestigation(inv));
            },
        };
        if inv_version != self.expected_investigation_version {
            return Err(
                ArrestError::StaleInvestigation {
                    investigation: inv,
                    expected: self.expected_investigation_version,
                    found: inv_version,
                },
            );
        }
        let ch_version = match state.world.get_character(c) {
            Some(ch) => ch.version,
            None => {
                return Err(ArrestError::MissingCharacter(c));
            },
        };
        if ch_version != self.expected_character_version {
            return Err(
                ArrestError::StaleCharacter {
                    character: c,
                    expected: self.expected_character_version,
                    found: ch_version,
                },
            );
        }
        let authority = validate_arrest_dependencies(state, c, inv, &self.draft.evidence, self.minimum)?;
        proof {
            crate::seqs::lemma_first_index_props(
                self.draft.evidence@,
                bad_citation(*state, c, inv, state.legal.spec_investigation(inv)->0.owner),
            );
        }
        assert(meets_custody_bar(state.legal.evidence@, self.draft.evidence@, self.minimum));
        let current_work = state.legal.scheduled_work_for_investigator(c);
        let current_lead = state.legal.active_investigation_for_investigator(c);
        let expected_work = match self.work {
            Some(p) => Some(p.0),
            None => None,
        };
        if current_work != expected_work || current_lead != self.lead_case {
            return Err(ArrestError::CustodyResponsibilitiesChanged { character: c });
        }
        proof {
            lemma_responsibilities_present(state.legal, c);
            if let Some(w) = current_work {
                assert(state.legal.work@[w.0 - 1].investigation == state.legal.spec_work(w)->0.investigation);
            }
        }
        let mut work_inv: Option<InvestigationId> = None;
        if let Some((w, expected)) = self.work {
            let rec = match state.legal.get_investigation_work(w) {
                Some(rec) => rec,
                None => {
                    return Err(ArrestError::VersionCapacity(VersionedRecord::InvestigationWork));
                },
            };
            if rec.version != expected {
                return Err(ArrestError::StaleWork { work: w, expected, found: rec.version });
            }
            work_inv = Some(rec.investigation);
        }
        check_preemption_capacity(state, expected_work, self.lead_case)?;
        let len = state.legal.arrests.len();
        if len >= u32::MAX as usize {
            return Err(ArrestError::IdExhaustion(IdExhaustionError::Exhausted { kind: IdKind::Arrest }));
        }
        let id = ArrestId((len + 1) as u32);
        let now = state.now;
        proof {
            lemma_distinct_sources_len(state.legal.evidence@, self.draft.evidence@, false);
            crate::seqs::lemma_first_index_props(state.legal.arrests@, crate::legal::detained_of(c));
        }
        if let Some(w) = expected_work {
            state.legal.cancel_work(
                (w.0 - 1) as usize,
                InvestigationWorkCancellation {
                    cancelled_at: now,
                    reason: InvestigationWorkCancellationReason::InvestigatorDetained(id),
                },
            );
            if let Some(wi) = work_inv {
                state.legal.revise_investigation((wi.0 - 1) as usize);
            }
        }
        if let Some(lc) = self.lead_case {
            state.legal.release_lead((lc.0 - 1) as usize);
        }
        let ArrestDraft { character, investigation, evidence } = self.draft;
        state.legal.arrests.push(
            ArrestRecord {
                id,
                character,
                authority,
                investigation,
                evidence,
                arrested_at: now,
                released_at: None,
                status: ArrestStatus::Detained,
                version: 1,
            },
        );
        proof {
            assert(state.legal.arrests@.drop_last() =~= old(state).legal.arrests@);
        }
        Ok(id)
    }
}


/// What a detention token validated against `state` holds: the draft, the authored bar, the
/// clock, the versions of the case and of the person, and the work and case the person had.
pub open spec fn arrest_validated(registry: Registry, state: AppState, draft: ArrestDraft, t: ValidatedArrest) -> bool {
    let c = draft.character;
    &&& t.spec_character() == c
    &&& t.spec_investigation() == draft.investigation
    &&& t.spec_evidence() == draft.evidence@
    &&& t.spec_minimum() == registry.legal.minimum_arrest_qualifying_evidence
    &&& t.spec_validated_at() == state.now
    &&& t.spec_investigation_version() == state.legal.spec_investigation(draft.investigation)->0.version
    &&& t.spec_character_version() == state.world.spec_character(c)->0.version
    &&& t.spec_work() == match state.legal.spec_scheduled_work_for(c) {
        Some(w) => Some((w, state.legal.spec_work(w)->0.version)),
        None => None,
    }
    &&& t.spec_lead_case() == state.legal.spec_active_investigation_for(c)
}

/// Validates detaining `draft.character` in `draft.investigation` on the cited evidence.
pub fn validate_arrest(registry: &Registry, state: &AppState, draft: ArrestDraft) -> (r: Result<ValidatedArrest, ArrestError>)
    requires
        state.wf(),
    ensures
        ({
            let minimum = registry.legal.minimum_arrest_qualifying_evidence;
            let c = draft.character;
            match arrest_error(*state, c, draft.investigation, draft.evidence@, minimum) {
                Some(e) => r == Err::<ValidatedArrest, ArrestError>(e),
                None => if !preemption_capacity_ok(
                    state.legal,
                    state.legal.spec_scheduled_work_for(c),
                    state.legal.spec_active_investigation_for(c),
                ) {
                    r == Err::<ValidatedArrest, ArrestError>(ArrestError::VersionCapacity(preemption_capacity_kind(state.legal, state.legal.spec_scheduled_work_for(c))))
                } else {
                    r matches Ok(t) && arrest_validated(*registry, *state, draft, t)
                },
            }
        }),
{
    let minimum = registry.legal().minimum_arrest_qualifying_evidence();
    let c = draft.character;
    let authority = validate_arrest_dependencies(state, c, draft.investigation, &draft.evidence, minimum)?;
    let inv_version = match state.legal.get_investigation(draft.investigation) {
        Some(rec) => rec.version,
        None => {
            return Err(ArrestError::MissingInvestigation(draft.investigation));
        },
    };
    let ch_version = match state.world.get_character(c) {
        Some(ch) => ch.version,
        None => {
            return Err(ArrestError::MissingCharacter(c));
        },
    };
    let work_id = state.legal.scheduled_work_for_investigator(c);
    let lead_case = state.legal.active_investigation_for_investigator(c);
    proof {
        lemma_responsibilities_present(state.legal, c);
        if let Some(w) = work_id {
            assert(state.legal.work@[w.0 - 1].investigation == state.legal.spec_work(w)->0.investigation);
        }
    }
    check_preemption_capacity(state, work_id, lead_case)?;
    let work = match work_id {
        Some(w) => match state.legal.get_investigation_work(w) {
            Some(rec) => Some((w, rec.version)),
            None => None,
        },
        None => None,
    };
    Ok(
        ValidatedArrest {
            draft,
            authority,
            minimum,
            expected_investigation_version: inv_version,
            expected_character_version: ch_version,
            validated_at: state.now,
            work,
            lead_case,
        },
    )
}

/// `a` released at `now`.
pub open spec fn released(a: ArrestRecord, now: SimTime) -> ArrestRecord {
    ArrestRecord {
        status: ArrestStatus::Released,
        released_at: Some(now),
        version: (a.version + 1) as u32,
        ..a
    }
}

impl LegalState {
    /// Ends a detention at `now`.
    pub fn release_arrest(&mut self, index: usize, now: SimTime)
        requires
            old(self).wf(),
            index < old(self).arrests@.len(),
            old(self).arrests@[index as int].version < u32::MAX,
        ensures
            final(self).wf(),
            final(self).arrests@ == old(self).arrests@.update(
                index as int,
                released(old(self).arrests@[index as int], now),
            ),
            final(self).investigations == old(self).investigations,
            final(self).evidence == old(self).evidence,
            final(self).case_witnesses == old(self).case_witnesses,
            final(self).informants == old(self).informants,
            final(self).disclosures == old(self).disclosures,
            final(self).work == old(self).work,
    {
        let version = self.arrests[index].version;
        self.arrests[index].status = ArrestStatus::Released;
        self.arrests[index].released_at = Some(now);
        self.arrests[index].version = version + 1;
    }
}

/// A release that passed validation, pinned to the detention's version.
#[derive(Debug)]
pub struct ValidatedRelease {
    arrest: ArrestId,
    expected_version: u32,
}

impl ValidatedRelease {
    pub closed spec fn spec_arrest(&self) -> ArrestId {
        self.arrest
    }

    pub closed spec fn spec_expected_version(&self) -> u32 {
        self.expected_version
    }

    pub open spec fn commit_error(&self, state: AppState) -> Option<ArrestError> {
        match state.legal.spec_arrest(self.spec_arrest()) {
            None => Some(ArrestError::MissingArrest(self.spec_arrest())),
            Some(a) => if a.version != self.spec_expected_version() {
                Some(
                    ArrestError::StaleArrest {
                        arrest: self.spec_arrest(),
                        expected: self.spec_expected_version(),
                        found: a.version,
                    },
                )
            } else if a.status != ArrestStatus::Detained {
                Some(ArrestError::NotDetained(self.spec_arrest()))
            } else if a.version == u32::MAX {
                Some(ArrestError::VersionCapacity(VersionedRecord::Arrest))
            } else {
                None
            },
        }
    }

    /// Re-checks the detention and releases the detainee now.
    pub fn commit(self, state: &mut AppState) -> (r: Result<(), ArrestError>)
        requires
            old(state).wf(),
        ensures
            final(state).wf(),
            match self.commit_error(*old(state)) {
                Some(e) => r == Err::<(), ArrestError>(e) && *final(state) == *old(state),
                None => {
                    &&& r is Ok
                    &&& final(state).legal.arrests@ == old(state).legal.arrests@.update(
                        self.spec_arrest().0 - 1,
                        released(old(state).legal.arrests@[self.spec_arrest().0 - 1], old(state).now),
                    )
                    &&& final(state).legal.investigations == old(state).legal.investigations
                    &&& final(state).legal.evidence == old(state).legal.evidence
                    &&& final(state).legal.case_witnesses == old(state).legal.case_witnesses
                    &&& final(state).legal.informants == old(state).legal.informants
                    &&& final(state).legal.disclosures == old(state).legal.disclosures
                    &&& final(state).legal.work == old(state).legal.work
                    &&& final(state).world == old(state).world
                    &&& final(state).intelligence == old(state).intelligence
                    &&& final(state).now == old(state).now
                    &&& final(state).rng == old(state).rng
                },
            },
    {
        let (version, status) = match state.legal.get_arrest(self.arrest) {
            Some(a) => (a.version, a.status),
            None => {
                return Err(ArrestError::MissingArrest(self.arrest));
            },
        };
        if version != self.expected_version {
            return Err(ArrestError::StaleArrest { arrest: self.arrest, expected: self.expected_version, found: version });
        }
        if status != ArrestStatus::Detained {
            return Err(ArrestError::NotDetained(self.arrest));
        }
        if version == u32::MAX {
            return Err(ArrestError::VersionCapacity(VersionedRecord::Arrest));
        }
        let now = state.now;
        state.legal.release_arrest((self.arrest.0 - 1) as usize, now);
        Ok(())
    }
}

/// Validates releasing a detainee.
pub fn validate_release_arrest(state: &AppState, arrest: ArrestId) -> (r: Result<ValidatedRelease, ArrestError>)
    ensures
        match state.legal.spec_arrest(arrest) {
            None => r == Err::<ValidatedRelease, ArrestError>(ArrestError::MissingArrest(arrest)),
            Some(a) => if a.status != ArrestStatus::Detained {
                r == Err::<ValidatedRelease, ArrestError>(ArrestError::NotDetained(arrest))
            } else if a.version == u32::MAX {
                r == Err::<ValidatedRelease, ArrestError>(ArrestError::VersionCapacity(VersionedRecord::Arrest))
            } else {
                r matches Ok(t) && t.spec_arrest() == arrest && t.spec_expected_version() == a.version
            },
        },
{
    let (version, status) = match state.legal.get_arrest(arrest) {
        Some(a) => (a.version, a.status),
        None => {
            return Err(ArrestError::MissingArrest(arrest));
        },
    };
    if status != ArrestStatus::Detained {
        return Err(ArrestError::NotDetained(arrest));
    }
    if version == u32::MAX {
        return Err(ArrestError::VersionCapacity(VersionedRecord::Arrest));
    }
    Ok(ValidatedRelease { arrest, expected_version: version })
}

/// A detention whose authored custody window has run out by `now`.
pub open spec fn custody_due(now: SimTime, maximum: SimDuration) -> spec_fn(ArrestRecord) -> bool {
    |a: ArrestRecord| a.status == ArrestStatus::Detained && now.0 >= spec_custody_release_at(a.arrested_at, maximum).0
}

pub open spec fn arrest_ids(s: Seq<ArrestRecord>) -> Seq<ArrestId> {
    s.map_values(|a: ArrestRecord| a.id)
}

/// Releases every detainee whose custody window has elapsed, in identifier order, and returns
/// their arrests. Where one of them can take no further revision nothing is released.
#[verifier::loop_isolation(false)]
pub fn apply_due_custody_releases(state: &mut AppState, maximum: SimDuration) -> (r: Result<Vec<ArrestId>, ArrestError>)
    requires
        old(state).wf(),
    ensures
        final(state).wf(),
        ({
            let due = custody_due(old(state).now, maximum);
            let olds = old(state).legal.arrests@;
            if exists|i: int| 0 <= i < olds.len() && due(#[trigger] olds[i]) && olds[i].version == u32::MAX {
                r == Err::<Vec<ArrestId>, ArrestError>(ArrestError::VersionCapacity(VersionedRecord::Arrest)) && *final(state) == *old(state)
            } else {
                &&& r matches Ok(ids) && ids@ == arrest_ids(olds.filter(due))
                &&& final(state).legal.arrests@.len() == olds.len()
                &&& forall|i: int|
                    0 <= i < olds.len() ==> #[trigger] final(state).legal.arrests@[i] == if due(olds[i]) {
                        released(olds[i], old(state).now)
                    } else {
                        olds[i]
                    }
                &&& final(state).legal.investigations == old(state).legal.investigations
                &&& final(state).legal.evidence == old(state).legal.evidence
                &&& final(state).legal.case_witnesses == old(state).legal.case_witnesses
                &&& final(state).legal.informants == old(state).legal.informants
                &&& final(state).legal.disclosures == old(state).legal.disclosures
                &&& final(state).legal.work == old(state).legal.work
                &&& final(state).world == old(state).world
                &&& final(state).intelligence == old(state).intelligence
                &&& final(state).now == old(state).now
                &&& final(state).rng == old(state).rng
            }
        }),
{
    let now = state.now;
    let ghost due = custody_due(now, maximum);
    let ghost olds = state.legal.arrests@;
    let n = state.legal.arrests.len();
    let mut i: usize = 0;
    while i < n
        invariant
            n == olds.len(),
            olds == state.legal.arrests@,
            due == custody_due(now, maximum),
            i <= n,
            forall|j: int| 0 <= j < i ==> !(due(#[trigger] olds[j]) && olds[j].version == u32::MAX),
        decreases n - i,
    {
        let a = &state.legal.arrests[i];
        let at = crate::legal::custody::custody_release_at(a.arrested_at, maximum);
        if a.status == ArrestStatus::Detained && now.0 >= at.0 && a.version == u32::MAX {
            assert(due(olds[i as int]) && olds[i as int].version == u32::MAX);
            return Err(ArrestError::VersionCapacity(VersionedRecord::Arrest));
        }
        i = i + 1;
    }
    let mut released_ids: Vec<ArrestId> = Vec::new();
    let mut k: usize = 0;
    while k < n
        invariant
            n == olds.len(),
            due == custody_due(now, maximum),
            now == old(state).now,
            k <= n,
            state.wf(),
            forall|j: int| 0 <= j < n ==> !(due(#[trigger] olds[j]) && olds[j].version == u32::MAX),
            state.legal.arrests@.len() == n,
            forall|j: int|
                0 <= j < n ==> #[trigger] state.legal.arrests@[j] == if j < k && due(olds[j]) {
                    released(olds[j], now)
                } else {
                    olds[j]
                },
            released_ids@ == arrest_ids(olds.take(k as int).filter(due)),
            state.legal.investigations == old(state).legal.investigations,
            state.legal.evidence == old(state).legal.evidence,
            state.legal.case_witnesses == old(state).legal.case_witnesses,
            state.legal.informants == old(state).legal.informants,
            state.legal.disclosures == old(state).legal.disclosures,
            state.legal.work == old(state).legal.work,
            state.world == old(state).world,
            state.intelligence == old(state).intelligence,
            state.now == now,
            state.rng == old(state).rng,
        decreases n - k,
    {
        proof {
            crate::seqs::lemma_filter_take_step(olds, due, k as int);
            assert(arrest_ids(olds.take(k as int).filter(due).push(olds[k as int])) =~= arrest_ids(
                olds.take(k as int).filter(due),
            ).push(olds[k as int].id));
        }
        let (status, arrested_at, id) = {
            let a = &state.legal.arrests[k];
            (a.status, a.arrested_at, a.id)
        };
        let at = crate::legal::custody::custody_release_at(arrested_at, maximum);
        if status == ArrestStatus::Detained && now.0 >= at.0 {
            let ghost before = state.legal.arrests@;
            state.legal.release_arrest(k, now);
            released_ids.push(id);
            proof {
                assert forall|j: int| 0 <= j < n implies #[trigger] state.legal.arrests@[j] == if j < k + 1 && due(olds[j]) {
                    released(olds[j], now)
                } else {
                    olds[j]
                } by {
                    if j != k {
                        assert(state.legal.arrests@[j] == before[j]);
                    }
                }
            }
        }
        k = k + 1;
    }
    proof {
        assert(olds.take(n as int) =~= olds);
    }
    Ok(released_ids)
}


/// One arrestable subject in one police case, with the evidence that would be cited.
struct AutonomousArrestCandidate {
    investigation: InvestigationId,
    character: CharacterId,
    evidence: Vec<EvidenceId>,
    independent_sources: usize,
    strong_sources: usize,
}

/// Whether `e` is case evidence about `character` held by the case's own authority.
pub open spec fn case_evidence_about(investigation: InvestigationId, owner: OrganizationId, character: CharacterId) -> spec_fn(EvidenceRecord) -> bool {
    |e: EvidenceRecord| e.investigation == investigation && e.custodian == owner && e.subject
        == EntityRef::Character(character)
}

/// The identifiers of the case's own evidence about `character`, in identifier order.
pub open spec fn case_custody_ids(ev: Seq<EvidenceRecord>, investigation: InvestigationId, owner: OrganizationId, character: CharacterId) -> Seq<EvidenceId> {
    ev.filter(case_evidence_about(investigation, owner, character)).map_values(|e: EvidenceRecord| e.id)
}

/// The record a custody citation of `id` names: the primary record it was developed from where
/// that primary is itself custody-grade, else `id` itself.
pub open spec fn cite_for(ev: Seq<EvidenceRecord>, id: EvidenceId) -> EvidenceId {
    match evidence_at(ev, id) {
        Some(e) => match e.derived_from {
            Some(s) => if evidence_at(ev, s) is Some && spec_qualifies_for_custody(evidence_at(ev, s)->0) {
                s
            } else {
                id
            },
            None => id,
        },
        None => id,
    }
}

pub open spec fn source_is(s: CustodyCorroborationSource) -> spec_fn((CustodyCorroborationSource, EvidenceId)) -> bool {
    |p: (CustodyCorroborationSource, EvidenceId)| p.0 == s
}

/// One citation per independent source among `ids`, sources in order of first appearance: the
/// smallest record any of the source's records names.
pub open spec fn source_citations(ev: Seq<EvidenceRecord>, ids: Seq<EvidenceId>) -> Seq<(CustodyCorroborationSource, EvidenceId)>
    decreases ids.len(),
{
    if ids.len() == 0 {
        Seq::empty()
    } else {
        let rest = source_citations(ev, ids.drop_last());
        let id = ids.last();
        match source_of(ev, id) {
            None => rest,
            Some(src) => {
                let c = cite_for(ev, id);
                match first_index(rest, source_is(src)) {
                    None => rest.push((src, c)),
                    Some(j) => if c.0 < rest[j].1.0 {
                        rest.update(j, (src, c))
                    } else {
                        rest
                    },
                }
            },
        }
    }
}

pub open spec fn id_at_least(x: EvidenceId) -> spec_fn(EvidenceId) -> bool {
    |y: EvidenceId| y.0 >= x.0
}

/// `s` with `x` placed before the first identifier not smaller than it, unless already there.
pub open spec fn insert_ascending(s: Seq<EvidenceId>, x: EvidenceId) -> Seq<EvidenceId> {
    match first_index(s, id_at_least(x)) {
        None => s.push(x),
        Some(at) => if s[at] == x {
            s
        } else {
            s.insert(at, x)
        },
    }
}

/// The cited records of `cites`, in ascending identifier order without repeats.
pub open spec fn ascending_citations(cites: Seq<(CustodyCorroborationSource, EvidenceId)>) -> Seq<EvidenceId>
    decreases cites.len(),
{
    if cites.len() == 0 {
        Seq::empty()
    } else {
        insert_ascending(ascending_citations(cites.drop_last()), cites.last().1)
    }
}

/// The records an autonomous arrest of `character` in case `investigation` cites: one per
/// independent source of the case's own evidence about them, in ascending order.
pub open spec fn autonomous_citations(ev: Seq<EvidenceRecord>, investigation: InvestigationId, owner: OrganizationId, character: CharacterId) -> Seq<EvidenceId> {
    ascending_citations(source_citations(ev, case_custody_ids(ev, investigation, owner, character)))
}

/// What the autonomous policy would detain `character` on in case `investigation`: the cited
/// records and the numbers of independent and of strong independent sources. Nothing where they
/// are already detained, where the case's evidence about them does not meet the custody bar, or
/// where renewed custody in the case would lack new evidence.
pub open spec fn custody_candidate(state: AppState, minimum: u8, investigation: InvestigationId, owner: OrganizationId, character: CharacterId) -> Option<(Seq<EvidenceId>, nat, nat)> {
    let ev = state.legal.evidence@;
    let ids = case_custody_ids(ev, investigation, owner, character);
    let cites = autonomous_citations(ev, investigation, owner, character);
    let n = distinct_sources(ev, ids, false).len();
    let k = distinct_sources(ev, ids, true).len();
    if state.legal.spec_active_arrest_for(character) is Some || n < minimum || k == 0 || repeat_custody(
        state,
        investigation,
        character,
        cites,
    ) is Some {
        None
    } else {
        Some((cites, n, k))
    }
}

impl AutonomousArrestCandidate {
    spec fn view(self) -> (InvestigationId, CharacterId, Seq<EvidenceId>, nat, nat) {
        (self.investigation, self.character, self.evidence@, self.independent_sources as nat, self.strong_sources as nat)
    }
}

/// The identifiers of the case's own evidence about `character`, in identifier order.
fn collect_case_custody_ids(ev: &Vec<EvidenceRecord>, investigation: InvestigationId, owner: OrganizationId, character: CharacterId) -> (r: Vec<EvidenceId>)
    ensures
        r@ == case_custody_ids(ev@, investigation, owner, character),
{
    let ghost p = case_evidence_about(investigation, owner, character);
    let mut r: Vec<EvidenceId> = Vec::new();
    let mut i: usize = 0;
    while i < ev.len()
        invariant
            i <= ev.len(),
            p == case_evidence_about(investigation, owner, character),
            r@ == ev@.take(i as int).filter(p).map_values(|e: EvidenceRecord| e.id),
        decreases ev.len() - i,
    {
        proof {
            crate::seqs::lemma_filter_take_step(ev@, p, i as int);
            let f = ev@.take(i as int).filter(p);
            assert(f.push(ev@[i as int]).map_values(|e: EvidenceRecord| e.id) =~= f.map_values(
                |e: EvidenceRecord| e.id,
            ).push(ev@[i as int].id));
        }
        let e = &ev[i];
        if e.investigation == investigation && e.custodian == owner && e.subject == EntityRef::Character(character) {
            r.push(e.id);
        }
        i = i + 1;
    }
    proof {
        assert(ev@.take(ev@.len() as int) =~= ev@);
    }
    r
}

fn cite_for_exec(ev: &Vec<EvidenceRecord>, id: EvidenceId) -> (r: EvidenceId)
    ensures
        r == cite_for(ev@, id),
{
    if id.0 < 1 || (id.0 - 1) as usize >= ev.len() {
        return id;
    }
    match ev[(id.0 - 1) as usize].derived_from {
        Some(s) => {
            if s.0 >= 1 && ((s.0 - 1) as usize) < ev.len() && evidence_qualifies_for_custody(&ev[(s.0 - 1) as usize]) {
                s
            } else {
                id
            }
        },
        None => id,
    }
}

/// One citation per independent source among `ids`.
fn collect_source_citations(ev: &Vec<EvidenceRecord>, ids: &Vec<EvidenceId>) -> (r: Vec<(CustodyCorroborationSource, EvidenceId)>)
    ensures
        r@ == source_citations(ev@, ids@),
{
    let mut r: Vec<(CustodyCorroborationSource, EvidenceId)> = Vec::new();
    let mut k: usize = 0;
    while k < ids.len()
        invariant
            k <= ids@.len(),
            r@ == source_citations(ev@, ids@.take(k as int)),
        decreases ids@.len() - k,
    {
        let id = ids[k];
        proof {
            assert(ids@.take(k + 1).drop_last() =~= ids@.take(k as int));
            assert(ids@.take(k + 1).last() == id);
        }
        match crate::legal::custody::corroboration_source_of(ev, id) {
            None => {},
            Some(src) => {
                let c = cite_for_exec(ev, id);
                let mut j: usize = 0;
                while j < r.len() && r[j].0 != src
                    invariant
                        j <= r@.len(),
                        forall|m: int| 0 <= m < j ==> !source_is(src)(#[trigger] r@[m]),
                    decreases r@.len() - j,
                {
                    j = j + 1;
                }
                if j < r.len() {
                    proof {
                        crate::seqs::lemma_first_index_is(r@, source_is(src), j as int);
                    }
                    if c.0 < r[j].1.0 {
                        r.set(j, (src, c));
                    }
                } else {
                    proof {
                        crate::seqs::lemma_first_index_none(r@, source_is(src));
                    }
                    r.push((src, c));
                }
            },
        }
        k = k + 1;
    }
    proof {
        assert(ids@.take(ids@.len() as int) =~= ids@);
    }
    r
}

/// Places `x` in the ascending list `v` unless it is already there.
fn insert_ascending_exec(v: &mut Vec<EvidenceId>, x: EvidenceId)
    ensures
        final(v)@ == insert_ascending(old(v)@, x),
{
    let mut at: usize = 0;
    while at < v.len() && v[at].0 < x.0
        invariant
            at <= v@.len(),
            forall|m: int| 0 <= m < at ==> !id_at_least(x)(#[trigger] v@[m]),
        decreases v@.len() - at,
    {
        at = at + 1;
    }
    if at < v.len() {
        proof {
            crate::seqs::lemma_first_index_is(v@, id_at_least(x), at as int);
        }
        if v[at].0 != x.0 {
            v.insert(at, x);
        }
    } else {
        proof {
            crate::seqs::lemma_first_index_none(v@, id_at_least(x));
        }
        v.push(x);
    }
}

fn collect_ascending_citations(cites: &Vec<(CustodyCorroborationSource, EvidenceId)>) -> (r: Vec<EvidenceId>)
    ensures
        r@ == ascending_citations(cites@),
{
    let mut r: Vec<EvidenceId> = Vec::new();
    let mut k: usize = 0;
    while k < cites.len()
        invariant
            k <= cites@.len(),
            r@ == ascending_citations(cites@.take(k as int)),
        decreases cites@.len() - k,
    {
        proof {
            assert(cites@.take(k + 1).drop_last() =~= cites@.take(k as int));
            assert(cites@.take(k + 1).last() == cites@[k as int]);
        }
        insert_ascending_exec(&mut r, cites[k].1);
        k = k + 1;
    }
    proof {
        assert(cites@.take(cites@.len() as int) =~= cites@);
    }
    r
}

/// What the autonomous policy would detain `character` on in case `investigation`, where it
/// would detain them there at all.
fn resolve_autonomous_arrest_candidate(minimum: u8, state: &AppState, investigation: InvestigationId, owner: OrganizationId, character: CharacterId) -> (r: Option<AutonomousArrestCandidate>)
    requires
        state.wf(),
    ensures
        match custody_candidate(*state, minimum, investigation, owner, character) {
            None => r is None,
            Some(t) => r matches Some(cand) && cand@ == (investigation, character, t.0, t.1, t.2),
        },
{
    if state.legal.active_arrest_for_character(character).is_some() {
        return None;
    }
    let ev = &state.legal.evidence;
    let ids = collect_case_custody_ids(ev, investigation, owner, character);
    let independent = independent_sources(ev, &ids, false);
    let strong = independent_sources(ev, &ids, true);
    if independent.len() < minimum as usize || strong.len() == 0 {
        return None;
    }
    let cites = collect_source_citations(ev, &ids);
    let citations = collect_ascending_citations(&cites);
    if repeat_custody_without_new_evidence(state, investigation, character, &citations).is_some() {
        return None;
    }
    Some(
        AutonomousArrestCandidate {
            investigation,
            character,
            evidence: citations,
            independent_sources: independent.len(),
            strong_sources: strong.len(),
        },
    )
}

/// A custody candidate as the policy weighs it: case, person, cited records, independent
/// sources, strong independent sources.
pub type CustodyCandidateView = (InvestigationId, CharacterId, Seq<EvidenceId>, nat, nat);

/// Whether the police institution's custody policy looks at case `rec`: an active case of a
/// law-enforcement authority.
pub open spec fn custody_case(state: AppState, rec: InvestigationRecord) -> bool {
    rec.status == InvestigationStatus::Active && state.world.spec_kind(rec.owner) == Some(
        OrganizationKind::LawEnforcement,
    )
}

/// The custody candidates among the subjects of case `rec`, in subject order.
pub open spec fn case_custody_candidates(state: AppState, minimum: u8, rec: InvestigationRecord, subjects: Seq<EntityRef>) -> Seq<CustodyCandidateView>
    decreases subjects.len(),
{
    if subjects.len() == 0 {
        Seq::empty()
    } else {
        let rest = case_custody_candidates(state, minimum, rec, subjects.drop_last());
        match subjects.last() {
            EntityRef::Character(c) => match custody_candidate(state, minimum, rec.id, rec.owner, c) {
                Some(t) => rest.push((rec.id, c, t.0, t.1, t.2)),
                None => rest,
            },
            _ => rest,
        }
    }
}

/// The custody candidates of the police cases among `invs`, case by case.
pub open spec fn custody_candidates(state: AppState, minimum: u8, invs: Seq<InvestigationRecord>) -> Seq<CustodyCandidateView>
    decreases invs.len(),
{
    if invs.len() == 0 {
        Seq::empty()
    } else {
        let rest = custody_candidates(state, minimum, invs.drop_last());
        let rec = invs.last();
        if custody_case(state, rec) {
            rest + case_custody_candidates(state, minimum, rec, rec.subjects@)
        } else {
            rest
        }
    }
}

/// Whether candidate `a` outranks `b`: more independent sources, then more strong independent
/// sources, then the earlier case.
pub open spec fn outranks(a: CustodyCandidateView, b: CustodyCandidateView) -> bool {
    a.3 > b.3 || (a.3 == b.3 && (a.4 > b.4 || (a.4 == b.4 && a.0.0 < b.0.0)))
}

/// Whether `chosen` holds, in ascending order of the person, one candidate per person among
/// `cands`: one no other candidate for the same person outranks.
pub open spec fn custody_choice(cands: Seq<CustodyCandidateView>, chosen: Seq<CustodyCandidateView>) -> bool {
    &&& forall|a: int, b: int| 0 <= a < b < chosen.len() ==> (#[trigger] chosen[a]).1.0 < (#[trigger] chosen[b]).1.0
    &&& forall|k: int| 0 <= k < chosen.len() ==> cands.contains(#[trigger] chosen[k])
    &&& forall|k: int, y: CustodyCandidateView|
        0 <= k < chosen.len() && #[trigger] cands.contains(y) && y.1 == (#[trigger] chosen[k]).1 ==> !outranks(y, chosen[k])
    &&& forall|y: CustodyCandidateView| #[trigger] cands.contains(y) ==> exists|k: int| 0 <= k < chosen.len() && (#[trigger] chosen[k]).1 == y.1
}

proof fn lemma_case_candidates_free(state: AppState, minimum: u8, rec: InvestigationRecord, subjects: Seq<EntityRef>)
    ensures
        forall|k: int|
            0 <= k < case_custody_candidates(state, minimum, rec, subjects).len() ==> state.legal.spec_active_arrest_for(
                (#[trigger] case_custody_candidates(state, minimum, rec, subjects)[k]).1,
            ) is None && case_custody_candidates(state, minimum, rec, subjects)[k].0 == rec.id,
    decreases subjects.len(),
{
    if subjects.len() > 0 {
        lemma_case_candidates_free(state, minimum, rec, subjects.drop_last());
    }
}

/// Every candidate of the pass is someone who is not in custody.
proof fn lemma_candidates_free(state: AppState, minimum: u8, invs: Seq<InvestigationRecord>)
    ensures
        forall|k: int|
            0 <= k < custody_candidates(state, minimum, invs).len() ==> state.legal.spec_active_arrest_for(
                (#[trigger] custody_candidates(state, minimum, invs)[k]).1,
            ) is None,
    decreases invs.len(),
{
    if invs.len() > 0 {
        lemma_candidates_free(state, minimum, invs.drop_last());
        lemma_case_candidates_free(state, minimum, invs.last(), invs.last().subjects@);
    }
}

fn outranks_exec(a: &AutonomousArrestCandidate, b: &AutonomousArrestCandidate) -> (r: bool)
    ensures
        r == outranks(a@, b@),
{
    if a.independent_sources != b.independent_sources {
        a.independent_sources > b.independent_sources
    } else if a.strong_sources != b.strong_sources {
        a.strong_sources > b.strong_sources
    } else {
        a.investigation.0 < b.investigation.0
    }
}

spec fn views(v: Seq<AutonomousArrestCandidate>) -> Seq<CustodyCandidateView> {
    v.map_values(|c: AutonomousArrestCandidate| c@)
}

/// The custody candidates of every police case, case by case and subject by subject.
fn collect_custody_candidates(minimum: u8, state: &AppState) -> (r: Vec<AutonomousArrestCandidate>)
    requires
        state.wf(),
    ensures
        views(r@) == custody_candidates(*state, minimum, state.legal.investigations@),
{
    let mut candidates: Vec<AutonomousArrestCandidate> = Vec::new();
    let n = state.legal.investigations.len();
    let mut i: usize = 0;
    while i < n
        invariant
            state.wf(),
            i <= n,
            n == state.legal.investigations@.len(),
            views(candidates@) == custody_candidates(*state, minimum, state.legal.investigations@.take(i as int)),
        decreases n - i,
    {
        let rec = &state.legal.investigations[i];
        proof {
            assert(state.legal.investigations@.take(i + 1).drop_last() =~= state.legal.investigations@.take(i as int));
            assert(state.legal.investigations@.take(i + 1).last() == *rec);
        }
        let police = state.world.organization_kind(rec.owner) == Some(OrganizationKind::LawEnforcement);
        if rec.status == InvestigationStatus::Active && police {
            let ghost base = views(candidates@);
            let mut j: usize = 0;
            while j < rec.subjects.len()
                invariant
                    state.wf(),
                    i < n,
                    n == state.legal.investigations@.len(),
                    *rec == state.legal.investigations@[i as int],
                    j <= rec.subjects@.len(),
                    views(candidates@) == base + case_custody_candidates(*state, minimum, *rec, rec.subjects@.take(j as int)),
                decreases rec.subjects@.len() - j,
            {
                proof {
                    assert(rec.subjects@.take(j + 1).drop_last() =~= rec.subjects@.take(j as int));
                    assert(rec.subjects@.take(j + 1).last() == rec.subjects@[j as int]);
                }
                if let EntityRef::Character(c) = rec.subjects[j] {
                    let found = resolve_autonomous_arrest_candidate(minimum, state, rec.id, rec.owner, c);
                    if let Some(cand) = found {
                        let ghost before = candidates@;
                        candidates.push(cand);
                        proof {
                            assert(views(candidates@) =~= views(before).push(cand@));
                        }
                    }
                }
                j = j + 1;
            }
            proof {
                assert(rec.subjects@.take(rec.subjects@.len() as int) =~= rec.subjects@);
            }
        }
        i = i + 1;
    }
    proof {
        assert(state.legal.investigations@.take(n as int) =~= state.legal.investigations@);
    }
    candidates
}

proof fn lemma_outranks_order(a: CustodyCandidateView, b: CustodyCandidateView, c: CustodyCandidateView)
    ensures
        !(outranks(a, b) && outranks(b, a)),
        outranks(a, b) && outranks(b, c) ==> outranks(a, c),
        !outranks(a, a),
{
}

/// Keeps, per person, the candidate no other candidate for them outranks, in ascending order of
/// the person.
fn choose_custody(candidates: Vec<AutonomousArrestCandidate>) -> (r: Vec<AutonomousArrestCandidate>)
    requires
        forall|a: int, b: int|
            0 <= a < b < candidates@.len() && (#[trigger] candidates@[a]).character == (#[trigger] candidates@[b]).character
                && candidates@[a].investigation == candidates@[b].investigation ==> candidates@[a]@ == candidates@[b]@,
    ensures
        custody_choice(views(candidates@), views(r@)),
{
    let ghost orig = views(candidates@);
    let mut rem = candidates;
    let mut chosen: Vec<AutonomousArrestCandidate> = Vec::new();
    let ghost mut t: int = 0;
    while rem.len() > 0
        invariant
            0 <= t <= orig.len(),
            views(rem@) == orig.skip(t),
            forall|a: int, b: int|
                0 <= a < b < orig.len() && (#[trigger] orig[a]).1 == (#[trigger] orig[b]).1 && orig[a].0 == orig[b].0
                    ==> orig[a] == orig[b],
            forall|a: int, b: int| 0 <= a < b < chosen@.len() ==> (#[trigger] chosen@[a]).character.0 < (#[trigger] chosen@[b]).character.0,
            forall|k: int| 0 <= k < chosen@.len() ==> orig.contains(#[trigger] chosen@[k]@),
            forall|k: int, y: CustodyCandidateView|
                0 <= k < chosen@.len() && #[trigger] orig.contains(y) && y.1 == (#[trigger] chosen@[k]).character ==> !outranks(y, chosen@[k]@),
            forall|q: int|
                0 <= q < t ==> (exists|k: int| 0 <= k < chosen@.len() && (#[trigger] chosen@[k]).character == (#[trigger] orig[q]).1)
                    || (exists|z: int| t <= z < orig.len() && #[trigger] orig[z].1 == orig[q].1 && outranks(orig[z], orig[q])),
        decreases rem@.len(),
    {
        let ghost rem_vec = rem@;
        let ghost rem_before = views(rem@);
        let cand = rem.remove(0);
        proof {
            assert(views(rem@) =~= rem_before.drop_first());
            assert(rem_before[0] == rem_vec[0]@);
            assert(orig.skip(t)[0] == orig[t]);
            assert(cand@ == orig[t]);
        }
        let mut best = true;
        let mut j: usize = 0;
        while j < rem.len()
            invariant
                j <= rem@.len(),
                best <==> forall|m: int| 0 <= m < j ==> !((#[trigger] rem@[m]).character == cand.character && outranks(rem@[m]@, cand@)),
            decreases rem@.len() - j,
        {
            if rem[j].character == cand.character && outranks_exec(&rem[j], &cand) {
                best = false;
            }
            j = j + 1;
        }
        let mut k: usize = 0;
        while k < chosen.len() && chosen[k].character != cand.character
            invariant
                k <= chosen@.len(),
                forall|m: int| 0 <= m < k ==> (#[trigger] chosen@[m]).character != cand.character,
            decreases chosen@.len() - k,
        {
            k = k + 1;
        }
        let taken = k < chosen.len();
        proof {
            assert forall|m: int| 0 <= m < rem@.len() implies (#[trigger] rem@[m])@ == orig[t + 1 + m] by {
                assert(views(rem@)[m] == rem@[m]@);
                assert(orig.skip(t + 1)[m] == orig[t + 1 + m]);
            }
        }
        let ghost before = chosen@;
        let ghost mut ins_at: int = -1;
        if best && !taken {
            let mut at: usize = 0;
            while at < chosen.len() && chosen[at].character.0 < cand.character.0
                invariant
                    at <= chosen@.len(),
                    forall|m: int| 0 <= m < at ==> (#[trigger] chosen@[m]).character.0 < cand.character.0,
                decreases chosen@.len() - at,
            {
                at = at + 1;
            }
            proof {
                // Nobody already considered for this person outranks the candidate.
                assert forall|y: CustodyCandidateView| #[trigger] orig.contains(y) && y.1 == cand.character implies !outranks(y, cand@) by {
                    let q = choose|q: int| 0 <= q < orig.len() && orig[q] == y;
                    if q < t {
                        if exists|z: int| t <= z < orig.len() && #[trigger] orig[z].1 == orig[q].1 && outranks(orig[z], orig[q]) {
                            let z = choose|z: int| t <= z < orig.len() && #[trigger] orig[z].1 == orig[q].1 && outranks(orig[z], orig[q]);
                            lemma_outranks_order(orig[z], y, cand@);
                            lemma_outranks_order(y, cand@, orig[z]);
                            if z > t {
                                assert(rem@[z - t - 1]@ == orig[z]);
                            }
                        } else {
                            let kk = choose|kk: int| 0 <= kk < before.len() && (#[trigger] before[kk]).character == orig[q].1;
                        }
                    } else if q > t {
                        assert(rem@[q - t - 1]@ == orig[q]);
                    } else {
                        lemma_outranks_order(y, y, y);
                    }
                }
                ins_at = at as int;
            }
            chosen.insert(at, cand);
            proof {
                assert forall|a: int, b: int| 0 <= a < b < chosen@.len() implies (#[trigger] chosen@[a]).character.0
                    < (#[trigger] chosen@[b]).character.0 by {
                    if b < at as int {
                        assert(chosen@[a] == before[a] && chosen@[b] == before[b]);
                    } else if b == at as int {
                        assert(chosen@[a] == before[a]);
                    } else if a == at as int {
                        assert(chosen@[b] == before[b - 1]);
                        if at < before.len() {
                            assert(before[at as int].character.0 >= cand.character.0);
                            assert(before[at as int].character != cand.character);
                        }
                    } else if a < at as int {
                        assert(chosen@[a] == before[a] && chosen@[b] == before[b - 1]);
                    } else {
                        assert(chosen@[a] == before[a - 1] && chosen@[b] == before[b - 1]);
                    }
                }
            }
        }
        proof {
            // Where each earlier chosen candidate now sits.
            assert forall|kk: int| 0 <= kk < before.len() implies chosen@[if ins_at >= 0 && kk >= ins_at {
                kk + 1
            } else {
                kk
            }] == #[trigger] before[kk] by {}
            let newt = t + 1;
            assert forall|q: int| 0 <= q < newt implies (exists|kk: int|
                0 <= kk < chosen@.len() && (#[trigger] chosen@[kk]).character == (#[trigger] orig[q]).1) || (exists|z: int|
                newt <= z < orig.len() && #[trigger] orig[z].1 == orig[q].1 && outranks(orig[z], orig[q])) by {
                // How a person the pass already considered is accounted for.
                if q == t || (!(exists|kk: int| 0 <= kk < before.len() && (#[trigger] before[kk]).character == orig[q].1) && !(exists|z: int|
                    newt <= z < orig.len() && #[trigger] orig[z].1 == orig[q].1 && outranks(orig[z], orig[q]))) {
                    // The person's remaining claim rests on this candidate.
                    if q < t {
                        let z = choose|z: int| t <= z < orig.len() && #[trigger] orig[z].1 == orig[q].1 && outranks(orig[z], orig[q]);
                        assert(z == t);
                    }
                    if ins_at >= 0 {
                        assert(chosen@[ins_at] == cand);
                    } else if taken {
                        assert(chosen@[k as int].character == cand.character);
                    } else {
                        let m = choose|m: int| 0 <= m < rem@.len() && !!((#[trigger] rem@[m]).character == cand.character && outranks(rem@[m]@, cand@));
                        assert(rem@[m]@ == orig[t + 1 + m]);
                        if q < t {
                            lemma_outranks_order(orig[t + 1 + m], cand@, orig[q]);
                        }
                    }
                } else if exists|kk: int| 0 <= kk < before.len() && (#[trigger] before[kk]).character == orig[q].1 {
                    let kk = choose|kk: int| 0 <= kk < before.len() && (#[trigger] before[kk]).character == orig[q].1;
                    let nk = if ins_at >= 0 && kk >= ins_at {
                        kk + 1
                    } else {
                        kk
                    };
                    assert(chosen@[nk] == before[kk]);
                }
            }
            t = newt;
        }
    }
    proof {
        assert(orig.skip(t).len() == 0);
        let out = views(chosen@);
        assert forall|k: int| 0 <= k < chosen@.len() implies #[trigger] out[k] == chosen@[k]@ by {}
        assert forall|y: CustodyCandidateView| #[trigger] orig.contains(y) implies exists|k: int|
            0 <= k < out.len() && (#[trigger] out[k]).1 == y.1 by {
            let q = choose|q: int| 0 <= q < orig.len() && orig[q] == y;
            let kk = choose|kk: int| 0 <= kk < chosen@.len() && (#[trigger] chosen@[kk]).character == orig[q].1;
            assert(out[kk] == chosen@[kk]@);
        }
        assert forall|k: int, y: CustodyCandidateView|
            0 <= k < out.len() && #[trigger] orig.contains(y) && y.1 == (#[trigger] out[k]).1 implies !outranks(y, out[k]) by {
            assert(out[k] == chosen@[k]@);
        }
        assert forall|a: int, b: int| 0 <= a < b < out.len() implies (#[trigger] out[a]).1.0 < (#[trigger] out[b]).1.0 by {
            assert(out[a] == chosen@[a]@ && out[b] == chosen@[b]@);
        }
        assert forall|k: int| 0 <= k < out.len() implies orig.contains(#[trigger] out[k]) by {
            assert(out[k] == chosen@[k]@);
        }
    }
    chosen
}

proof fn lemma_case_candidates_determined(state: AppState, minimum: u8, rec: InvestigationRecord, subjects: Seq<EntityRef>)
    ensures
        forall|k: int|
            0 <= k < case_custody_candidates(state, minimum, rec, subjects).len() ==> {
                let y = #[trigger] case_custody_candidates(state, minimum, rec, subjects)[k];
                y.0 == rec.id && custody_candidate(state, minimum, rec.id, rec.owner, y.1) == Some((y.2, y.3, y.4))
            },
    decreases subjects.len(),
{
    if subjects.len() > 0 {
        lemma_case_candidates_determined(state, minimum, rec, subjects.drop_last());
    }
}

/// A candidate is fixed by its case and person: the same pair never yields two different ones.
proof fn lemma_candidates_determined(state: AppState, minimum: u8, n: int)
    requires
        state.wf(),
        0 <= n <= state.legal.investigations@.len(),
    ensures
        forall|k: int|
            0 <= k < custody_candidates(state, minimum, state.legal.investigations@.take(n)).len() ==> {
                let y = #[trigger] custody_candidates(state, minimum, state.legal.investigations@.take(n))[k];
                custody_candidate(state, minimum, y.0, state.legal.spec_investigation(y.0)->0.owner, y.1) == Some(
                    (y.2, y.3, y.4),
                )
            },
    decreases n,
{
    let invs = state.legal.investigations@;
    if n > 0 {
        assert(invs.take(n).drop_last() =~= invs.take(n - 1));
        assert(invs.take(n).last() == invs[n - 1]);
        lemma_candidates_determined(state, minimum, n - 1);
        let rec = invs[n - 1];
        lemma_case_candidates_determined(state, minimum, rec, rec.subjects@);
        let rest = custody_candidates(state, minimum, invs.take(n - 1));
        if custody_case(state, rec) {
            let more = case_custody_candidates(state, minimum, rec, rec.subjects@);
            assert forall|k: int| 0 <= k < (rest + more).len() implies {
                let y = #[trigger] (rest + more)[k];
                custody_candidate(state, minimum, y.0, state.legal.spec_investigation(y.0)->0.owner, y.1) == Some(
                    (y.2, y.3, y.4),
                )
            } by {
                if k < rest.len() {
                    assert((rest + more)[k] == rest[k]);
                } else {
                    assert((rest + more)[k] == more[k - rest.len()]);
                    assert(state.legal.spec_investigation(rec.id) == Some(rec));
                }
            }
        }
    }
}

proof fn lemma_preempted_owners(invs: Seq<InvestigationRecord>, work_case: Option<InvestigationId>, lead_case: Option<InvestigationId>)
    requires
        work_case matches Some(i) ==> 1 <= i.0 <= invs.len(),
        lead_case matches Some(i) ==> 1 <= i.0 <= invs.len(),
    ensures
        preempted_cases(invs, work_case, lead_case).len() == invs.len(),
        forall|j: int| 0 <= j < invs.len() ==> (#[trigger] preempted_cases(invs, work_case, lead_case)[j]).owner == invs[j].owner,
{
}

/// Whether `a` is the `k`-th detention the autonomous pass over `state` makes, for `cand`.
pub open spec fn autonomous_arrest_record(a: ArrestRecord, state: AppState, cand: CustodyCandidateView, k: int) -> bool {
    is_new_arrest(
        a,
        ArrestId((state.legal.arrests@.len() + k + 1) as u32),
        cand.1,
        cand.0,
        state.legal.spec_investigation(cand.0)->0.owner,
        cand.2,
        state.now,
    )
}

/// Why detaining candidate `cand` (case, person, cited evidence) fails on `state`, if it does:
/// the arrest rules, then the revisions the preempted work and cases would need, then the
/// arrest identifiers.
pub open spec fn custody_step_error(minimum: u8, state: AppState, cand: CustodyCandidateView) -> Option<ArrestError> {
    let c = cand.1;
    match arrest_error(state, c, cand.0, cand.2, minimum) {
        Some(e) => Some(e),
        None => if !preemption_capacity_ok(
            state.legal,
            state.legal.spec_scheduled_work_for(c),
            state.legal.spec_active_investigation_for(c),
        ) {
            Some(ArrestError::VersionCapacity(preemption_capacity_kind(state.legal, state.legal.spec_scheduled_work_for(c))))
        } else if state.legal.arrests@.len() >= u32::MAX {
            Some(ArrestError::IdExhaustion(IdExhaustionError::Exhausted { kind: IdKind::Arrest }))
        } else {
            None
        }
    }
}

/// Whether `after` is `before` with candidate `cand` detained through the canonical arrest
/// transaction: the detention is recorded under the next identifier, the person's scheduled
/// work is cancelled with the arrest as its reason, the case whose work that was is revised,
/// the case they lead loses its lead, and nothing else changes.
pub open spec fn detention_applied(after: AppState, before: AppState, cand: CustodyCandidateView) -> bool {
    let c = cand.1;
    let id = ArrestId((before.legal.arrests@.len() + 1) as u32);
    let now = before.now;
    let work = before.legal.spec_scheduled_work_for(c);
    &&& after.legal.arrests@.len() == before.legal.arrests@.len() + 1
    &&& after.legal.arrests@.drop_last() == before.legal.arrests@
    &&& is_new_arrest(
        after.legal.arrests@.last(),
        id,
        c,
        cand.0,
        before.legal.spec_investigation(cand.0)->0.owner,
        cand.2,
        now,
    )
    &&& after.legal.work@ == match work {
        Some(w) => before.legal.work@.update(
            w.0 - 1,
            cancelled(
                before.legal.work@[w.0 - 1],
                InvestigationWorkCancellation {
                    cancelled_at: now,
                    reason: InvestigationWorkCancellationReason::InvestigatorDetained(id),
                },
            ),
        ),
        None => before.legal.work@,
    }
    &&& after.legal.investigations@ == preempted_cases(
        before.legal.investigations@,
        work_case(before.legal, work),
        before.legal.spec_active_investigation_for(c),
    )
    &&& after.legal.evidence == before.legal.evidence
    &&& after.legal.case_witnesses == before.legal.case_witnesses
    &&& after.legal.informants == before.legal.informants
    &&& after.legal.disclosures == before.legal.disclosures
    &&& after.world == before.world
    &&& after.intelligence == before.intelligence
    &&& after.now == before.now
    &&& after.rng == before.rng
}

/// Whether `steps` runs the chosen detentions in order from `before`: each state is the one
/// before it with the next chosen candidate detained, and every detention taken succeeded.
pub open spec fn custody_trace(minimum: u8, before: AppState, chosen: Seq<CustodyCandidateView>, steps: Seq<AppState>) -> bool {
    &&& 1 <= steps.len() <= chosen.len() + 1
    &&& steps[0] == before
    &&& forall|q: int|
        0 <= q < steps.len() - 1 ==> custody_step_error(minimum, #[trigger] steps[q], chosen[q]) is None
            && detention_applied(steps[q + 1], steps[q], chosen[q])
}

/// What the custody pass ends with, given the chosen candidates and the run of detentions: the
/// state after the last detention made, and either every chosen person detained, with their
/// new arrest identifiers in order, or the refusal of the first detention that failed.
pub open spec fn custody_pass_result(
    minimum: u8,
    before: AppState,
    after: AppState,
    r: Result<Vec<ArrestId>, ArrestError>,
    chosen: Seq<CustodyCandidateView>,
    steps: Seq<AppState>,
) -> bool {
    let n = before.legal.arrests@.len();
    let k = steps.len() - 1;
    &&& custody_choice(custody_candidates(before, minimum, before.legal.investigations@), chosen)
    &&& custody_trace(minimum, before, chosen, steps)
    &&& after == steps.last()
    &&& match r {
        Ok(v) => k == chosen.len() && v@ == Seq::new(chosen.len(), |q: int| ArrestId((n + q + 1) as u32)),
        Err(e) => k < chosen.len() && custody_step_error(minimum, steps[k], chosen[k]) == Some(e),
    }
}

/// On a fresh token, committing fails only when the arrest identifiers are spent.
proof fn lemma_fresh_arrest_commit(registry: Registry, state: AppState, draft: ArrestDraft, t: ValidatedArrest)
    requires
        state.wf(),
        arrest_error(
            state,
            draft.character,
            draft.investigation,
            draft.evidence@,
            registry.legal.minimum_arrest_qualifying_evidence,
        ) is None,
        arrest_validated(registry, state, draft, t),
        preemption_capacity_ok(
            state.legal,
            state.legal.spec_scheduled_work_for(draft.character),
            state.legal.spec_active_investigation_for(draft.character),
        ),
    ensures
        t.commit_error(state) == (if state.legal.arrests@.len() >= u32::MAX {
            Some(ArrestError::IdExhaustion(IdExhaustionError::Exhausted { kind: IdKind::Arrest }))
        } else {
            None::<ArrestError>
        }),
{
}

/// The police institution's evidence-to-custody step: across active police cases, every
/// identified person with enough usable independent evidence becomes a candidate; each person is
/// detained once, in the case whose evidence outranks their other cases, in ascending order of
/// the person, each through the canonical arrest transaction. A refused detention ends the pass
/// with the error, keeping the detentions already made.
#[verifier::rlimit(100)]
#[verifier::spinoff_prover]
pub fn apply_autonomous_evidence_arrests(registry: &Registry, state: &mut AppState) -> (r: Result<Vec<ArrestId>, ArrestError>)
    requires
        old(state).wf(),
    ensures
        final(state).wf(),
        exists|chosen: Seq<CustodyCandidateView>, steps: Seq<AppState>|
            #[trigger] custody_pass_result(
                registry.legal.minimum_arrest_qualifying_evidence,
                *old(state),
                *final(state),
                r,
                chosen,
                steps,
            ),
{
    let minimum = registry.legal().minimum_arrest_qualifying_evidence();
    let candidates = collect_custody_candidates(minimum, state);
    let ghost cands = views(candidates@);
    proof {
        assert(state.legal.investigations@.take(state.legal.investigations@.len() as int) =~= state.legal.investigations@);
        lemma_candidates_determined(*state, minimum, state.legal.investigations@.len() as int);
        lemma_candidates_free(*state, minimum, state.legal.investigations@);
        assert forall|a: int, b: int|
            0 <= a < b < candidates@.len() && (#[trigger] candidates@[a]).character == (#[trigger] candidates@[b]).character
                && candidates@[a].investigation == candidates@[b].investigation implies candidates@[a]@ == candidates@[b]@ by {
            assert(cands[a] == candidates@[a]@ && cands[b] == candidates@[b]@);
        }
    }
    let mut chosen = choose_custody(candidates);
    let ghost picks = views(chosen@);
    let ghost s0 = *state;
    let ghost n = state.legal.arrests@.len();
    proof {
        assert forall|k: int| 0 <= k < picks.len() implies s0.legal.spec_active_arrest_for((#[trigger] picks[k]).1) is None by {
            let q = choose|q: int| 0 <= q < cands.len() && cands[q] == picks[k];
        }
    }
    let mut arrests: Vec<ArrestId> = Vec::new();
    let mut k: usize = 0;
    let ghost mut steps: Seq<AppState> = seq![*state];
    while chosen.len() > 0
        invariant
            steps.len() == k + 1,
            steps.last() == *state,
            custody_trace(minimum, s0, picks, steps),
            s0 == *old(state),
            s0.wf(),
            n == s0.legal.arrests@.len(),
            minimum == registry.legal.minimum_arrest_qualifying_evidence,
            custody_choice(cands, picks),
            cands == custody_candidates(s0, minimum, s0.legal.investigations@),
            forall|q: int| 0 <= q < picks.len() ==> s0.legal.spec_active_arrest_for((#[trigger] picks[q]).1) is None,
            k + chosen@.len() == picks.len(),
            views(chosen@) == picks.skip(k as int),
            state.wf(),
            state.legal.arrests@.len() == n + k,
            state.legal.arrests@.subrange(0, n as int) == s0.legal.arrests@,
            forall|m: int|
                n <= m < state.legal.arrests@.len() ==> autonomous_arrest_record(
                    #[trigger] state.legal.arrests@[m],
                    s0,
                    picks[m - n],
                    m - n,
                ),
            arrests@ == Seq::new(k as nat, |q: int| ArrestId((n + q + 1) as u32)),
            state.legal.investigations@.len() == s0.legal.investigations@.len(),
            forall|j: int|
                0 <= j < s0.legal.investigations@.len() ==> (#[trigger] state.legal.investigations@[j]).owner
                    == s0.legal.investigations@[j].owner,
            state.legal.evidence == s0.legal.evidence,
            state.world == s0.world,
            state.intelligence == s0.intelligence,
            state.now == s0.now,
        decreases chosen@.len(),
    {
        let ghost chosen_before = chosen@;
        let cand = chosen.remove(0);
        let ghost c = cand.character;
        proof {
            assert(views(chosen_before)[0] == cand@);
            assert(picks.skip(k as int)[0] == picks[k as int]);
            assert(cand@ == picks[k as int]);
            assert forall|m: int| 0 <= m < chosen@.len() implies #[trigger] views(chosen@)[m] == picks.skip(k + 1)[m] by {
                assert(chosen@[m] == chosen_before[m + 1]);
                assert(views(chosen_before)[m + 1] == picks.skip(k as int)[m + 1]);
            }
            assert(views(chosen@) =~= picks.skip(k + 1));
            // The person is not in custody: not before the pass, and the pass detained others.
            crate::seqs::lemma_first_index_props(s0.legal.arrests@, crate::legal::detained_of(c));
            assert forall|j: int| 0 <= j < state.legal.arrests@.len() implies !crate::legal::detained_of(c)(
                #[trigger] state.legal.arrests@[j],
            ) by {
                if j < n {
                    assert(state.legal.arrests@.subrange(0, n as int)[j] == state.legal.arrests@[j]);
                } else {
                    assert(autonomous_arrest_record(state.legal.arrests@[j], s0, picks[j - n], j - n));
                    assert(picks[j - n].1.0 < picks[k as int].1.0);
                }
            }
            crate::seqs::lemma_first_index_none(state.legal.arrests@, crate::legal::detained_of(c));
        }
        if state.legal.active_arrest_for_character(cand.character).is_some() {
            continue;
        }
        let draft = ArrestDraft { character: cand.character, investigation: cand.investigation, evidence: cand.evidence };
        let token = match validate_arrest(registry, state, draft) {
            Ok(t) => t,
            Err(e) => {
                proof {
                    assert(custody_choice(custody_candidates(s0, minimum, s0.legal.investigations@), picks));
                    assert(custody_step_error(minimum, steps[k as int], picks[k as int]) == Some(e));
                    assert(custody_pass_result(minimum, *old(state), *state, Err(e), picks, steps));
                }
                return Err(e);
            },
        };
        let ghost prev = *state;
        proof {
            lemma_fresh_arrest_commit(*registry, *state, draft, token);
        }
        proof {
            crate::seqs::lemma_first_index_props(state.legal.work@, crate::legal::scheduled_for_investigator(c));
            crate::seqs::lemma_first_index_props(state.legal.investigations@, crate::legal::active_led_by(c));
            if let Some(w) = state.legal.spec_scheduled_work_for(c) {
                assert(state.legal.work@[w.0 - 1].id == w);
            }
        }
        let id = match token.commit(state) {
            Ok(id) => id,
            Err(e) => {
                proof {
                    assert(*state == prev);
                    assert(custody_choice(custody_candidates(s0, minimum, s0.legal.investigations@), picks));
                    assert(custody_step_error(minimum, steps[k as int], picks[k as int]) == Some(e));
                    assert(custody_pass_result(minimum, *old(state), *state, Err(e), picks, steps));
                }
                return Err(e);
            },
        };
        proof {
            assert(custody_step_error(minimum, prev, picks[k as int]) is None);
            assert(detention_applied(*state, prev, picks[k as int]));
            let ghost old_steps = steps;
            steps = steps.push(*state);
            assert forall|q: int|
                0 <= q < steps.len() - 1 implies custody_step_error(minimum, #[trigger] steps[q], picks[q]) is None
                    && detention_applied(steps[q + 1], steps[q], picks[q]) by {
                if q < old_steps.len() - 1 {
                    assert(steps[q] == old_steps[q] && steps[q + 1] == old_steps[q + 1]);
                } else {
                    assert(steps[q] == prev);
                }
            }
        }
        proof {
            lemma_preempted_owners(
                prev.legal.investigations@,
                work_case(prev.legal, prev.legal.spec_scheduled_work_for(c)),
                prev.legal.spec_active_investigation_for(c),
            );
            assert(state.legal.arrests@.subrange(0, n as int) =~= prev.legal.arrests@.subrange(0, n as int));
            assert forall|m: int| n <= m < state.legal.arrests@.len() implies autonomous_arrest_record(
                #[trigger] state.legal.arrests@[m],
                s0,
                picks[m - n],
                m - n,
            ) by {
                if m < state.legal.arrests@.len() - 1 {
                    assert(state.legal.arrests@[m] == prev.legal.arrests@[m]);
                }
            }
        }
        arrests.push(id);
        k = k + 1;
        proof {
            assert(arrests@ =~= Seq::new(k as nat, |q: int| ArrestId((n + q + 1) as u32)));
        }
    }
    proof {
        assert(custody_choice(custody_candidates(s0, minimum, s0.legal.investigations@), picks));
        assert(custody_pass_result(minimum, *old(state), *state, Ok(arrests), picks, steps));
    }
    Ok(arrests)
}

/// Releasing a detention ends the person's custody: since nobody is held in two detentions at
/// once, once their detention is released they are held in none, while the released arrest
/// stays on record.
pub proof fn law_release_ends_custody(before: AppState, after: LegalState, arrest: ArrestId)
    requires
        before.wf(),
        before.legal.spec_arrest(arrest) is Some,
        before.legal.spec_arrest(arrest)->0.status == ArrestStatus::Detained,
        after.arrests@ == before.legal.arrests@.update(
            arrest.0 - 1,
            released(before.legal.arrests@[arrest.0 - 1], before.now),
        ),
    ensures
        after.spec_active_arrest_for(before.legal.spec_arrest(arrest)->0.character) is None,
        after.spec_arrest(arrest) == Some(released(before.legal.arrests@[arrest.0 - 1], before.now)),
{
    let a = before.legal.arrests@[arrest.0 - 1];
    let c = a.character;
    assert forall|j: int| 0 <= j < after.arrests@.len() implies !crate::legal::detained_of(c)(
        #[trigger] after.arrests@[j],
    ) by {
        if j != arrest.0 - 1 && after.arrests@[j].status == ArrestStatus::Detained && after.arrests@[j].character == c {
            let x = if j < arrest.0 - 1 { j } else { arrest.0 - 1 };
            let y = if j < arrest.0 - 1 { arrest.0 - 1 } else { j };
            assert(crate::legal::both_detain(before.legal.arrests@[x], before.legal.arrests@[y]));
        }
    }
    crate::seqs::lemma_first_index_none(after.arrests@, crate::legal::detained_of(c));
}

/// A detention that validated against a state commits on that same state: every check that
/// committing repeats passed when the token was made, as long as an arrest identifier is left.
pub proof fn law_validated_arrest_commits(registry: Registry, state: AppState, draft: ArrestDraft, t: ValidatedArrest)
    requires
        state.wf(),
        arrest_error(
            state,
            draft.character,
            draft.investigation,
            draft.evidence@,
            registry.legal.minimum_arrest_qualifying_evidence,
        ) is None,
        arrest_validated(registry, state, draft, t),
        preemption_capacity_ok(
            state.legal,
            state.legal.spec_scheduled_work_for(draft.character),
            state.legal.spec_active_investigation_for(draft.character),
        ),
        state.legal.arrests@.len() < u32::MAX,
    ensures
        t.commit_error(state) is None,
{
}

/// Releasing a detention that validated against a state commits on that same state.
pub proof fn law_validated_release_commits(state: AppState, arrest: ArrestId, t: ValidatedRelease)
    requires
        state.wf(),
        state.legal.spec_arrest(arrest) is Some,
        state.legal.spec_arrest(arrest)->0.status == ArrestStatus::Detained,
        state.legal.spec_arrest(arrest)->0.version < u32::MAX,
        t.spec_arrest() == arrest,
        t.spec_expected_version() == state.legal.spec_arrest(arrest)->0.version,
    ensures
        t.commit_error(state) is None,
{
}

proof fn lemma_case_candidate_origin(state: AppState, minimum: u8, rec: InvestigationRecord, subjects: Seq<EntityRef>)
    ensures
        forall|y: CustodyCandidateView|
            #[trigger] case_custody_candidates(state, minimum, rec, subjects).contains(y) ==> y.0 == rec.id
                && subjects.contains(EntityRef::Character(y.1)) && custody_candidate(state, minimum, rec.id, rec.owner, y.1)
                == Some((y.2, y.3, y.4)),
    decreases subjects.len(),
{
    if subjects.len() > 0 {
        let init = subjects.drop_last();
        lemma_case_candidate_origin(state, minimum, rec, init);
        let rest = case_custody_candidates(state, minimum, rec, init);
        assert forall|y: CustodyCandidateView|
            #[trigger] case_custody_candidates(state, minimum, rec, subjects).contains(y) implies y.0 == rec.id
                && subjects.contains(EntityRef::Character(y.1)) && custody_candidate(state, minimum, rec.id, rec.owner, y.1)
                == Some((y.2, y.3, y.4)) by {
            if rest.contains(y) {
                let q = choose|q: int| 0 <= q < init.len() && init[q] == EntityRef::Character(y.1);
                assert(subjects[q] == init[q]);
            } else {
                let k = choose|k: int|
                    0 <= k < case_custody_candidates(state, minimum, rec, subjects).len()
                        && case_custody_candidates(state, minimum, rec, subjects)[k] == y;
                if k < rest.len() {
                    assert(rest[k] == y);
                }
                assert(subjects[subjects.len() - 1] == subjects.last());
            }
        }
    }
}

proof fn lemma_candidate_origin(state: AppState, minimum: u8, invs: Seq<InvestigationRecord>)
    ensures
        forall|y: CustodyCandidateView|
            #[trigger] custody_candidates(state, minimum, invs).contains(y) ==> exists|j: int|
                0 <= j < invs.len() && (#[trigger] invs[j]).id == y.0 && custody_case(state, invs[j])
                    && invs[j].subjects@.contains(EntityRef::Character(y.1)) && custody_candidate(
                    state,
                    minimum,
                    y.0,
                    invs[j].owner,
                    y.1,
                ) == Some((y.2, y.3, y.4)),
    decreases invs.len(),
{
    if invs.len() > 0 {
        let init = invs.drop_last();
        let rec = invs.last();
        lemma_candidate_origin(state, minimum, init);
        lemma_case_candidate_origin(state, minimum, rec, rec.subjects@);
        let rest = custody_candidates(state, minimum, init);
        assert forall|y: CustodyCandidateView| #[trigger] custody_candidates(state, minimum, invs).contains(y) implies exists|j: int|
            0 <= j < invs.len() && (#[trigger] invs[j]).id == y.0 && custody_case(state, invs[j])
                && invs[j].subjects@.contains(EntityRef::Character(y.1)) && custody_candidate(
                state,
                minimum,
                y.0,
                invs[j].owner,
                y.1,
            ) == Some((y.2, y.3, y.4)) by {
            if rest.contains(y) {
                let j = choose|j: int|
                    0 <= j < init.len() && (#[trigger] init[j]).id == y.0 && custody_case(state, init[j])
                        && init[j].subjects@.contains(EntityRef::Character(y.1)) && custody_candidate(
                        state,
                        minimum,
                        y.0,
                        init[j].owner,
                        y.1,
                    ) == Some((y.2, y.3, y.4));
                assert(invs[j] == init[j]);
            } else {
                let all = custody_candidates(state, minimum, invs);
                let extra = case_custody_candidates(state, minimum, rec, rec.subjects@);
                assert(custody_case(state, rec));
                assert(all == rest + extra);
                let k = choose|k: int| 0 <= k < all.len() && all[k] == y;
                if k < rest.len() {
                    assert(rest[k] == y);
                }
                assert(extra[k - rest.len()] == y);
                assert(extra.contains(y));
                assert(invs[invs.len() - 1] == rec);
            }
        }
    }
}

/// The evidence-to-custody pass, taken whole: nobody is detained twice in one pass, and every
/// detention it makes is of someone not already in custody, a subject of an active case owned
/// by a law-enforcement organization, with at least the authored number of independent sources
/// among the case's custody-grade evidence on them, one of them Strong or Direct.
pub proof fn law_autonomous_custody_pass(state: AppState, minimum: u8, chosen: Seq<CustodyCandidateView>)
    requires
        state.wf(),
        custody_choice(custody_candidates(state, minimum, state.legal.investigations@), chosen),
    ensures
        forall|a: int, b: int| 0 <= a < b < chosen.len() ==> (#[trigger] chosen[a]).1 != (#[trigger] chosen[b]).1,
        forall|k: int|
            0 <= k < chosen.len() ==> {
                let y = #[trigger] chosen[k];
                let rec = state.legal.spec_investigation(y.0)->0;
                &&& state.legal.spec_investigation(y.0) is Some
                &&& rec.status == InvestigationStatus::Active
                &&& state.world.spec_kind(rec.owner) == Some(OrganizationKind::LawEnforcement)
                &&& rec.subjects@.contains(EntityRef::Character(y.1))
                &&& state.legal.spec_active_arrest_for(y.1) is None
                &&& y.3 == distinct_sources(state.legal.evidence@, case_custody_ids(state.legal.evidence@, y.0, rec.owner, y.1), false).len()
                &&& y.3 >= minimum
                &&& y.4 == distinct_sources(state.legal.evidence@, case_custody_ids(state.legal.evidence@, y.0, rec.owner, y.1), true).len()
                &&& y.4 > 0
            },
{
    let invs = state.legal.investigations@;
    lemma_candidate_origin(state, minimum, invs);
    assert forall|k: int| 0 <= k < chosen.len() implies {
        let y = #[trigger] chosen[k];
        let rec = state.legal.spec_investigation(y.0)->0;
        &&& state.legal.spec_investigation(y.0) is Some
        &&& rec.status == InvestigationStatus::Active
        &&& state.world.spec_kind(rec.owner) == Some(OrganizationKind::LawEnforcement)
        &&& rec.subjects@.contains(EntityRef::Character(y.1))
        &&& state.legal.spec_active_arrest_for(y.1) is None
        &&& y.3 == distinct_sources(state.legal.evidence@, case_custody_ids(state.legal.evidence@, y.0, rec.owner, y.1), false).len()
        &&& y.3 >= minimum
        &&& y.4 == distinct_sources(state.legal.evidence@, case_custody_ids(state.legal.evidence@, y.0, rec.owner, y.1), true).len()
        &&& y.4 > 0
    } by {
        let y = chosen[k];
        assert(custody_candidates(state, minimum, invs).contains(y));
        let j = choose|j: int|
            0 <= j < invs.len() && (#[trigger] invs[j]).id == y.0 && custody_case(state, invs[j])
                && invs[j].subjects@.contains(EntityRef::Character(y.1)) && custody_candidate(
                state,
                minimum,
                y.0,
                invs[j].owner,
                y.1,
            ) == Some((y.2, y.3, y.4));
        assert(invs[j].id.0 == j + 1);
    }
}

/// Every detention the custody pass makes cites only custody-grade evidence of its own case about
/// the detained person, held by the case's owner, with at least the authored number of
/// independent sources among the citations and one of them Strong or Direct; and the pass
/// leaves the evidence as it found it.
pub proof fn law_custody_pass_citations(minimum: u8, before: AppState, chosen: Seq<CustodyCandidateView>, steps: Seq<AppState>, q: int)
    requires
        custody_trace(minimum, before, chosen, steps),
        0 <= q < steps.len() - 1,
    ensures
        steps[q].legal.evidence == before.legal.evidence,
        ({
            let st = steps[q];
            let y = chosen[q];
            &&& st.legal.spec_investigation(y.0) is Some
            &&& forall|i: int|
                0 <= i < y.2.len() ==> {
                    let e = st.legal.spec_evidence(#[trigger] y.2[i]);
                    &&& e is Some
                    &&& e->0.investigation == y.0
                    &&& e->0.custodian == st.legal.spec_investigation(y.0)->0.owner
                    &&& e->0.subject == EntityRef::Character(y.1)
                    &&& spec_qualifies_for_custody(e->0)
                }
            &&& meets_custody_bar(st.legal.evidence@, y.2, minimum)
        }),
    decreases q,
{
    if q > 0 {
        law_custody_pass_citations(minimum, before, chosen, steps, q - 1);
        assert(detention_applied(steps[q], steps[q - 1], chosen[q - 1]));
    }
    let st = steps[q];
    let y = chosen[q];
    assert(custody_step_error(minimum, st, y) is None);
    let rec = st.legal.spec_investigation(y.0)->0;
    crate::seqs::lemma_first_index_props(y.2, bad_citation(st, y.1, y.0, rec.owner));
    assert forall|i: int| 0 <= i < y.2.len() implies {
        let e = st.legal.spec_evidence(#[trigger] y.2[i]);
        &&& e is Some
        &&& e->0.investigation == y.0
        &&& e->0.custodian == st.legal.spec_investigation(y.0)->0.owner
        &&& e->0.subject == EntityRef::Character(y.1)
        &&& spec_qualifies_for_custody(e->0)
    } by {
        assert(!bad_citation(st, y.1, y.0, rec.owner)(y.2[i]));
    }
}

} // verus!
