//! The primitive writes of the legal record store. Each keeps identifiers dense and states
//! exactly which record changes and how; the owning systems decide when a write is allowed.

use vstd::prelude::*;
use crate::base::{CharacterId, EntityRef, SimTime};
use crate::legal::{
    EvidenceRecord, InvestigationRecord, InvestigationStatus, InvestigationWorkCancellation,
    InvestigationWorkRecord, InvestigationWorkStatus, LegalState,
};

verus! {

/// `rec` revised at `now`: the activity clock moves to `now` and the version advances.
pub open spec fn touched(rec: InvestigationRecord, now: SimTime) -> InvestigationRecord {
    InvestigationRecord { last_activity_at: now, version: (rec.version + 1) as u32, ..rec }
}

/// `rec` revised without new investigative activity: only the version advances.
pub open spec fn revised(rec: InvestigationRecord) -> InvestigationRecord {
    InvestigationRecord { version: (rec.version + 1) as u32, ..rec }
}

/// `rec` after its lead was taken away from it, which is no investigative activity.
pub open spec fn without_lead(rec: InvestigationRecord) -> InvestigationRecord {
    InvestigationRecord { lead_investigator: None, ..revised(rec) }
}

/// `rec` after a lifecycle change: leaving the active state releases the lead seat.
pub open spec fn with_status(rec: InvestigationRecord, status: InvestigationStatus, now: SimTime) -> InvestigationRecord {
    InvestigationRecord {
        status,
        lead_investigator: if status == InvestigationStatus::Active {
            rec.lead_investigator
        } else {
            None
        },
        ..touched(rec, now)
    }
}

/// `rec` with a new occupant of its lead seat.
pub open spec fn with_lead(rec: InvestigationRecord, lead: Option<CharacterId>, now: SimTime) -> InvestigationRecord {
    InvestigationRecord { lead_investigator: lead, ..touched(rec, now) }
}

/// The subject list after evidence about `subject` arrives: actionable evidence identifies its
/// subject, once.
pub open spec fn promoted_subjects(subjects: Seq<EntityRef>, subject: EntityRef, actionable: bool) -> Seq<EntityRef> {
    if actionable && !subjects.contains(subject) {
        subjects.push(subject)
    } else {
        subjects
    }
}

/// Whether only the case files differ between two stores.
pub open spec fn only_investigations_differ(a: LegalState, b: LegalState) -> bool {
    &&& a.evidence == b.evidence
    &&& a.arrests == b.arrests
    &&& a.case_witnesses == b.case_witnesses
    &&& a.informants == b.informants
    &&& a.disclosures == b.disclosures
    &&& a.work == b.work
}

/// `w` cancelled with `cancellation`; its version advances.
pub open spec fn cancelled(w: InvestigationWorkRecord, cancellation: InvestigationWorkCancellation) -> InvestigationWorkRecord {
    InvestigationWorkRecord {
        status: InvestigationWorkStatus::Cancelled,
        cancellation: Some(cancellation),
        version: (w.version + 1) as u32,
        ..w
    }
}

impl LegalState {
    /// Cancels a piece of detective work.
    pub fn cancel_work(&mut self, index: usize, cancellation: InvestigationWorkCancellation)
        requires
            old(self).wf(),
            index < old(self).work@.len(),
            old(self).work@[index as int].version < u32::MAX,
        ensures
            final(self).wf(),
            final(self).work@ == old(self).work@.update(
                index as int,
                cancelled(old(self).work@[index as int], cancellation),
            ),
            final(self).investigations == old(self).investigations,
            final(self).evidence == old(self).evidence,
            final(self).arrests == old(self).arrests,
            final(self).case_witnesses == old(self).case_witnesses,
            final(self).informants == old(self).informants,
            final(self).disclosures == old(self).disclosures,
    {
        let mut w = self.work[index];
        w.status = InvestigationWorkStatus::Cancelled;
        w.cancellation = Some(cancellation);
        w.version = w.version + 1;
        self.work.set(index, w);
    }

    /// Appends a new case file.
    pub fn insert_investigation(&mut self, rec: InvestigationRecord)
        requires
            old(self).wf(),
            rec.status != InvestigationStatus::Active ==> rec.lead_investigator is None,
            rec.lead_investigator is None,
            rec.id.0 == old(self).investigations@.len() + 1,
        ensures
            final(self).wf(),
            final(self).investigations@ == old(self).investigations@.push(rec),
            only_investigations_differ(*final(self), *old(self)),
    {
        self.investigations.push(rec);
    }

    /// Moves a case to `status` at `now`.
    pub fn set_investigation_status(&mut self, index: usize, status: InvestigationStatus, now: SimTime)
        requires
            old(self).wf(),
            index < old(self).investigations@.len(),
            old(self).investigations@[index as int].version < u32::MAX,
        ensures
            final(self).wf(),
            final(self).investigations@ == old(self).investigations@.update(
                index as int,
                with_status(old(self).investigations@[index as int], status, now),
            ),
            only_investigations_differ(*final(self), *old(self)),
    {
        let version = self.investigations[index].version;
        self.investigations[index].status = status;
        if status != InvestigationStatus::Active {
            self.investigations[index].lead_investigator = None;
        }
        self.investigations[index].last_activity_at = now;
        self.investigations[index].version = version + 1;
    }

    /// Seats `lead` (or empties the seat) at `now`.
    pub fn set_lead_investigator(&mut self, index: usize, lead: Option<CharacterId>, now: SimTime)
        requires
            old(self).wf(),
            index < old(self).investigations@.len(),
            lead is Some ==> old(self).investigations@[index as int].status == InvestigationStatus::Active,
            lead is Some ==> forall|j: int|
                0 <= j < old(self).investigations@.len() && j != index ==> (#[trigger] old(self).investigations@[j]).lead_investigator
                    != lead,
            old(self).investigations@[index as int].version < u32::MAX,
        ensures
            final(self).wf(),
            final(self).investigations@ == old(self).investigations@.update(
                index as int,
                with_lead(old(self).investigations@[index as int], lead, now),
            ),
            only_investigations_differ(*final(self), *old(self)),
    {
        let version = self.investigations[index].version;
        self.investigations[index].lead_investigator = lead;
        self.investigations[index].last_activity_at = now;
        self.investigations[index].version = version + 1;
    }

    /// Revises a case without recording activity.
    pub fn revise_investigation(&mut self, index: usize)
        requires
            old(self).wf(),
            index < old(self).investigations@.len(),
            old(self).investigations@[index as int].version < u32::MAX,
        ensures
            final(self).wf(),
            final(self).investigations@ == old(self).investigations@.update(
                index as int,
                revised(old(self).investigations@[index as int]),
            ),
            only_investigations_differ(*final(self), *old(self)),
    {
        let version = self.investigations[index].version;
        self.investigations[index].version = version + 1;
    }

    /// Empties a case's lead seat without recording activity.
    pub fn release_lead(&mut self, index: usize)
        requires
            old(self).wf(),
            index < old(self).investigations@.len(),
            old(self).investigations@[index as int].version < u32::MAX,
        ensures
            final(self).wf(),
            final(self).investigations@ == old(self).investigations@.update(
                index as int,
                without_lead(old(self).investigations@[index as int]),
            ),
            only_investigations_differ(*final(self), *old(self)),
    {
        let version = self.investigations[index].version;
        self.investigations[index].lead_investigator = None;
        self.investigations[index].version = version + 1;
    }

    /// Revises a case at `now` without changing anything else about it.
    pub fn touch_investigation(&mut self, index: usize, now: SimTime)
        requires
            old(self).wf(),
            index < old(self).investigations@.len(),
            old(self).investigations@[index as int].version < u32::MAX,
        ensures
            final(self).wf(),
            final(self).investigations@ == old(self).investigations@.update(
                index as int,
                touched(old(self).investigations@[index as int], now),
            ),
            only_investigations_differ(*final(self), *old(self)),
    {
        let version = self.investigations[index].version;
        self.investigations[index].last_activity_at = now;
        self.investigations[index].version = version + 1;
    }

    /// Files new evidence with its case: the case is revised at `now`, and actionable evidence
    /// adds its subject to the case's subjects.
    pub fn insert_evidence(&mut self, rec: EvidenceRecord, actionable: bool, now: SimTime)
        requires
            old(self).wf(),
            rec.id.0 == old(self).evidence@.len() + 1,
            old(self).spec_investigation(rec.investigation) is Some,
            old(self).spec_investigation(rec.investigation)->0.version < u32::MAX,
        ensures
            final(self).wf(),
            final(self).evidence@ == old(self).evidence@.push(rec),
            final(self).investigations@.len() == old(self).investigations@.len(),
            forall|i: int|
                0 <= i < old(self).investigations@.len() && i != rec.investigation.0 - 1
                    ==> final(self).investigations@[i] == old(self).investigations@[i],
            ({
                let before = old(self).investigations@[rec.investigation.0 - 1];
                let after = final(self).investigations@[rec.investigation.0 - 1];
                &&& after.subjects@ == promoted_subjects(before.subjects@, rec.subject, actionable)
                &&& after.id == before.id
                &&& after.owner == before.owner
                &&& after.title == before.title
                &&& after.status == before.status
                &&& after.lead_investigator == before.lead_investigator
                &&& after.declared_subjects == before.declared_subjects
                &&& after.opened_at == before.opened_at
                &&& after.origin == before.origin
                &&& after.last_activity_at == now
                &&& after.version == before.version + 1
            }),
            final(self).arrests == old(self).arrests,
            final(self).case_witnesses == old(self).case_witnesses,
            final(self).informants == old(self).informants,
            final(self).disclosures == old(self).disclosures,
            final(self).work == old(self).work,
    {
        let index = (rec.investigation.0 - 1) as usize;
        if actionable && !crate::base::entity_vec_contains(&self.investigations[index].subjects, rec.subject) {
            self.investigations[index].subjects.push(rec.subject);
        }
        let version = self.investigations[index].version;
        self.investigations[index].last_activity_at = now;
        self.investigations[index].version = version + 1;
        self.evidence.push(rec);
    }
}


/// Revisions of its case that a scheduled piece of work may still need to resolve: a developed
/// review adds derived evidence and completes; a connected interview adds testimony, records the
/// statement and completes.
pub open spec fn resolution_headroom(kind: crate::legal::InvestigationWorkKind) -> int {
    match kind {
        crate::legal::InvestigationWorkKind::EvidenceReview => 2,
        crate::legal::InvestigationWorkKind::WitnessInterview => 3,
    }
}

/// The largest resolution headroom owed to scheduled work of case `inv` in `works`, leaving out
/// `excluded`.
pub open spec fn scheduled_headroom(works: Seq<InvestigationWorkRecord>, inv: crate::base::InvestigationId, excluded: Option<crate::base::InvestigationWorkId>) -> int
    decreases works.len(),
{
    if works.len() == 0 {
        0
    } else {
        let rest = scheduled_headroom(works.drop_last(), inv, excluded);
        let w = works.last();
        if w.investigation == inv && w.status == InvestigationWorkStatus::Scheduled && Some(w.id)
            != excluded && resolution_headroom(w.kind) > rest {
            resolution_headroom(w.kind)
        } else {
            rest
        }
    }
}

pub proof fn lemma_scheduled_headroom_bounds(works: Seq<InvestigationWorkRecord>, inv: crate::base::InvestigationId, excluded: Option<crate::base::InvestigationWorkId>)
    ensures
        0 <= scheduled_headroom(works, inv, excluded) <= 3,
    decreases works.len(),
{
    if works.len() > 0 {
        lemma_scheduled_headroom_bounds(works.drop_last(), inv, excluded);
    }
}

impl LegalState {
    /// The largest resolution headroom owed to the case's scheduled work, leaving out `excluded`.
    pub fn scheduled_work_investigation_headroom(&self, inv: crate::base::InvestigationId, excluded: Option<crate::base::InvestigationWorkId>) -> (r: u32)
        ensures
            r == scheduled_headroom(self.work@, inv, excluded),
    {
        let mut h: u32 = 0;
        let mut i: usize = 0;
        while i < self.work.len()
            invariant
                i <= self.work.len(),
                h == scheduled_headroom(self.work@.take(i as int), inv, excluded),
            decreases self.work.len() - i,
        {
            let w = self.work[i];
            proof {
                assert(self.work@.take(i + 1).drop_last() =~= self.work@.take(i as int));
                lemma_scheduled_headroom_bounds(self.work@.take(i as int), inv, excluded);
            }
            let cost: u32 = match w.kind {
                crate::legal::InvestigationWorkKind::EvidenceReview => 2,
                crate::legal::InvestigationWorkKind::WitnessInterview => 3,
            };
            let excluded_here = match excluded {
                Some(x) => x == w.id,
                None => false,
            };
            if w.investigation == inv && w.status == InvestigationWorkStatus::Scheduled && !excluded_here
                && cost > h {
                h = cost;
            }
            i = i + 1;
        }
        assert(self.work@.take(self.work.len() as int) =~= self.work@);
        h
    }
}


/// `w` completed with `resolution`; its version advances.
pub open spec fn completed(w: InvestigationWorkRecord, resolution: crate::legal::InvestigationWorkResolution) -> InvestigationWorkRecord {
    InvestigationWorkRecord {
        status: InvestigationWorkStatus::Completed,
        resolution: Some(resolution),
        version: (w.version + 1) as u32,
        ..w
    }
}

/// `w` after giving the statement recorded as `evidence`: one more attempt, two revisions.
pub open spec fn with_statement(w: crate::legal::CaseWitnessRecord, evidence: crate::base::EvidenceId) -> crate::legal::CaseWitnessRecord {
    crate::legal::CaseWitnessRecord {
        statement: Some(evidence),
        interview_attempts: (w.interview_attempts + 1) as u8,
        version: (w.version + 2) as u32,
        ..w
    }
}

/// `w` after an interview that produced nothing: one more attempt, one revision.
pub open spec fn attempted(w: crate::legal::CaseWitnessRecord) -> crate::legal::CaseWitnessRecord {
    crate::legal::CaseWitnessRecord {
        interview_attempts: (w.interview_attempts + 1) as u8,
        version: (w.version + 1) as u32,
        ..w
    }
}

impl LegalState {
    /// Completes a piece of detective work.
    pub fn complete_work(&mut self, index: usize, resolution: crate::legal::InvestigationWorkResolution)
        requires
            old(self).wf(),
            index < old(self).work@.len(),
            old(self).work@[index as int].version < u32::MAX,
        ensures
            final(self).wf(),
            final(self).work@ == old(self).work@.update(index as int, completed(old(self).work@[index as int], resolution)),
            final(self).investigations == old(self).investigations,
            final(self).evidence == old(self).evidence,
            final(self).arrests == old(self).arrests,
            final(self).case_witnesses == old(self).case_witnesses,
            final(self).informants == old(self).informants,
            final(self).disclosures == old(self).disclosures,
    {
        let mut w = self.work[index];
        w.status = InvestigationWorkStatus::Completed;
        w.resolution = Some(resolution);
        w.version = w.version + 1;
        self.work.set(index, w);
    }

    /// Records a witness's statement.
    pub fn record_witness_statement(&mut self, index: usize, evidence: crate::base::EvidenceId)
        requires
            old(self).wf(),
            index < old(self).case_witnesses@.len(),
            old(self).case_witnesses@[index as int].version + 2 <= u32::MAX,
            old(self).case_witnesses@[index as int].interview_attempts < u8::MAX,
        ensures
            final(self).wf(),
            final(self).case_witnesses@ == old(self).case_witnesses@.update(
                index as int,
                with_statement(old(self).case_witnesses@[index as int], evidence),
            ),
            final(self).investigations == old(self).investigations,
            final(self).evidence == old(self).evidence,
            final(self).arrests == old(self).arrests,
            final(self).work == old(self).work,
            final(self).informants == old(self).informants,
            final(self).disclosures == old(self).disclosures,
    {
        let mut w = self.case_witnesses[index];
        w.statement = Some(evidence);
        w.interview_attempts = w.interview_attempts + 1;
        w.version = w.version + 2;
        self.case_witnesses.set(index, w);
    }

    /// Counts an interview attempt that produced no statement.
    pub fn record_witness_attempt(&mut self, index: usize)
        requires
            old(self).wf(),
            index < old(self).case_witnesses@.len(),
            old(self).case_witnesses@[index as int].version < u32::MAX,
            old(self).case_witnesses@[index as int].interview_attempts < u8::MAX,
        ensures
            final(self).wf(),
            final(self).case_witnesses@ == old(self).case_witnesses@.update(
                index as int,
                attempted(old(self).case_witnesses@[index as int]),
            ),
            final(self).investigations == old(self).investigations,
            final(self).evidence == old(self).evidence,
            final(self).arrests == old(self).arrests,
            final(self).work == old(self).work,
            final(self).informants == old(self).informants,
            final(self).disclosures == old(self).disclosures,
    {
        let mut w = self.case_witnesses[index];
        w.interview_attempts = w.interview_attempts + 1;
        w.version = w.version + 1;
        self.case_witnesses.set(index, w);
    }
}

/// `base` with every entity of `added` it lacks appended, in order.
pub open spec fn extended(base: Seq<EntityRef>, added: Seq<EntityRef>) -> Seq<EntityRef>
    decreases added.len(),
{
    if added.len() == 0 {
        base
    } else {
        let e = extended(base, added.drop_last());
        if e.contains(added.last()) {
            e
        } else {
            e.push(added.last())
        }
    }
}

/// Whether `added` holds an entity that `base` lacks.
pub open spec fn adds_to(base: Seq<EntityRef>, added: Seq<EntityRef>) -> bool {
    exists|j: int| 0 <= j < added.len() && !base.contains(#[trigger] added[j])
}

proof fn lemma_extended_step(base: Seq<EntityRef>, added: Seq<EntityRef>, j: int)
    requires
        0 <= j < added.len(),
    ensures
        extended(base, added.take(j + 1)) == (if extended(base, added.take(j)).contains(added[j]) {
            extended(base, added.take(j))
        } else {
            extended(base, added.take(j)).push(added[j])
        }),
{
    assert(added.take(j + 1).drop_last() =~= added.take(j));
}

/// Extending holds exactly the entities of both sequences, and it leaves the length alone
/// exactly when nothing was missing.
proof fn lemma_extended_props(base: Seq<EntityRef>, added: Seq<EntityRef>)
    ensures
        forall|x: EntityRef| #[trigger] extended(base, added).contains(x) <==> base.contains(x) || added.contains(x),
        extended(base, added).len() >= base.len(),
        extended(base, added).len() == base.len() <==> !adds_to(base, added),
    decreases added.len(),
{
    if added.len() > 0 {
        let rest = added.drop_last();
        let last = added.last();
        lemma_extended_props(base, rest);
        let e = extended(base, rest);
        assert forall|x: EntityRef| added.contains(x) <==> rest.contains(x) || x == last by {
            if added.contains(x) {
                let j = choose|j: int| 0 <= j < added.len() && added[j] == x;
                if j < rest.len() {
                    assert(rest[j] == x);
                }
            }
            if rest.contains(x) {
                let j = choose|j: int| 0 <= j < rest.len() && rest[j] == x;
                assert(added[j] == x);
            }
            if x == last {
                assert(added[added.len() - 1] == x);
            }
        }
        assert(adds_to(base, added) <==> adds_to(base, rest) || !base.contains(last)) by {
            if adds_to(base, rest) {
                let j = choose|j: int| 0 <= j < rest.len() && !base.contains(#[trigger] rest[j]);
                assert(added[j] == rest[j]);
            }
            if !base.contains(last) {
                assert(!base.contains(added[added.len() - 1]));
            }
            if adds_to(base, added) {
                let j = choose|j: int| 0 <= j < added.len() && !base.contains(#[trigger] added[j]);
                if j < rest.len() {
                    assert(rest[j] == added[j]);
                }
            }
        }
        assert forall|x: EntityRef| #[trigger] extended(base, added).contains(x) <==> base.contains(x) || added.contains(x) by {
            assert(e.contains(x) <==> base.contains(x) || rest.contains(x));
            if !e.contains(last) {
                let p = e.push(last);
                assert(extended(base, added) == p);
                if p.contains(x) {
                    let i = choose|i: int| 0 <= i < p.len() && p[i] == x;
                    if i < e.len() {
                        assert(e[i] == x);
                    }
                }
                if e.contains(x) {
                    let i = choose|i: int| 0 <= i < e.len() && e[i] == x;
                    assert(p[i] == x);
                }
                if x == last {
                    assert(p[e.len() as int] == x);
                }
            }
        }
        if e.contains(last) {
            assert(extended(base, added) == e);
            if !base.contains(last) {
                assert(rest.contains(last));
                let j = choose|j: int| 0 <= j < rest.len() && rest[j] == last;
                assert(!base.contains(rest[j]));
                assert(adds_to(base, rest));
            }
            assert(adds_to(base, added) == adds_to(base, rest));
        } else {
            assert(extended(base, added) == e.push(last));
            assert(!base.contains(last));
            assert(adds_to(base, added));
        }
    }
}

fn extend_entities(v: &mut Vec<EntityRef>, added: &Vec<EntityRef>)
    ensures
        final(v)@ == extended(old(v)@, added@),
{
    let mut j: usize = 0;
    while j < added.len()
        invariant
            j <= added.len(),
            v@ == extended(old(v)@, added@.take(j as int)),
        decreases added.len() - j,
    {
        proof {
            lemma_extended_step(old(v)@, added@, j as int);
        }
        let e = added[j];
        if !crate::base::entity_vec_contains(v, e) {
            v.push(e);
        }
        j = j + 1;
    }
    assert(added@.take(added.len() as int) =~= added@);
}

impl LegalState {
    /// Adds an incident's subjects to a case's declared and current subjects; the case is
    /// revised when its declared subjects grew. Returns whether they did.
    pub fn extend_incident_subjects(&mut self, index: usize, added: &Vec<EntityRef>) -> (grew: bool)
        requires
            old(self).wf(),
            index < old(self).investigations@.len(),
            old(self).investigations@[index as int].version < u32::MAX,
        ensures
            final(self).wf(),
            grew == adds_to(old(self).investigations@[index as int].declared_subjects@, added@),
            final(self).investigations@.len() == old(self).investigations@.len(),
            forall|i: int|
                0 <= i < old(self).investigations@.len() && i != index
                    ==> final(self).investigations@[i] == old(self).investigations@[i],
            ({
                let before = old(self).investigations@[index as int];
                let after = final(self).investigations@[index as int];
                &&& after.declared_subjects@ == extended(before.declared_subjects@, added@)
                &&& after.subjects@ == extended(before.subjects@, added@)
                &&& after.id == before.id
                &&& after.owner == before.owner
                &&& after.title == before.title
                &&& after.status == before.status
                &&& after.lead_investigator == before.lead_investigator
                &&& after.opened_at == before.opened_at
                &&& after.origin == before.origin
                &&& after.last_activity_at == before.last_activity_at
                &&& after.version == before.version + (if grew { 1int } else { 0int })
            }),
            only_investigations_differ(*final(self), *old(self)),
    {
        let ghost before = self.investigations@[index as int];
        proof {
            lemma_extended_props(before.declared_subjects@, added@);
        }
        let n = self.investigations[index].declared_subjects.len();
        extend_entities(&mut self.investigations[index].declared_subjects, added);
        extend_entities(&mut self.investigations[index].subjects, added);
        let grew = self.investigations[index].declared_subjects.len() != n;
        if grew {
            let version = self.investigations[index].version;
            self.investigations[index].version = version + 1;
        }
        grew
    }

    /// Registers a named witness with an existing case, revising the case at the witness's
    /// registration time.
    pub fn insert_case_witness(&mut self, rec: crate::legal::CaseWitnessRecord)
        requires
            old(self).wf(),
            rec.id.0 == old(self).case_witnesses@.len() + 1,
            old(self).spec_investigation(rec.investigation) is Some,
            old(self).spec_investigation(rec.investigation)->0.version < u32::MAX,
        ensures
            final(self).wf(),
            final(self).case_witnesses@ == old(self).case_witnesses@.push(rec),
            final(self).investigations@ == old(self).investigations@.update(
                rec.investigation.0 - 1,
                touched(old(self).investigations@[rec.investigation.0 - 1], rec.registered_at),
            ),
            final(self).evidence == old(self).evidence,
            final(self).arrests == old(self).arrests,
            final(self).informants == old(self).informants,
            final(self).disclosures == old(self).disclosures,
            final(self).work == old(self).work,
    {
        self.touch_investigation((rec.investigation.0 - 1) as usize, rec.registered_at);
        self.case_witnesses.push(rec);
    }
}

} // verus!
