//! Staffing a case's lead seat, by hand or by the institution's own assignment policy.

use vstd::prelude::*;
use crate::base::VersionedRecord;
use crate::base::{IdExhaustionError, IdKind};
use crate::base::{CharacterId, EntityRef, InformationId, InvestigationId};
use crate::intelligence::intelligence_system::{history_matches, ValidatedInformation};
use crate::intelligence::{
    CaseActivitySignal, InformationRecord, InformationSourceKind, InformationTopic,
    KnowledgeHolder, LegalPersonStatusSignal, SignalView,
};
use crate::legal::case_knowledge::{
    is_activity_token, is_witness_token, police_case, prepare_case_activity_knowledge,
    prepare_case_witness_knowledge, witness_summary,
};
use crate::legal::investigation_system::{
    activity_knowledge_ready, is_activity_record, InvestigationError,
};
use crate::legal::store::{only_investigations_differ, with_lead};
use crate::legal::{CaseWitnessRecord, InvestigationStatus, LegalState};
use crate::state::AppState;
use crate::world::OrganizationKind;

verus! {

/// The first reason `investigator` cannot take the lead seat of `investigation`.
pub open spec fn assignment_error(state: AppState, investigation: InvestigationId, investigator: CharacterId) -> Option<InvestigationError> {
    match state.legal.spec_investigation(investigation) {
        None => Some(InvestigationError::MissingInvestigation(investigation)),
        Some(rec) => if rec.status != InvestigationStatus::Active {
            Some(InvestigationError::InactiveInvestigation)
        } else {
            match state.world.spec_character(investigator) {
                None => Some(InvestigationError::MissingCharacter(investigator)),
                Some(ch) => if state.legal.spec_active_arrest_for(investigator) is Some {
                    Some(
                        InvestigationError::DetainedInvestigator {
                            investigator,
                            arrest: state.legal.spec_active_arrest_for(investigator)->0,
                        },
                    )
                } else if rec.subjects@.contains(EntityRef::Character(investigator)) {
                    Some(InvestigationError::InvestigatorIsCaseSubject { investigation, investigator })
                } else if state.legal.spec_case_witness_for(investigation, investigator) is Some {
                    Some(
                        InvestigationError::InvestigatorIsCaseWitness {
                            investigation,
                            investigator,
                            witness: state.legal.spec_case_witness_for(investigation, investigator)->0,
                        },
                    )
                } else if ch.organization != Some(rec.owner) {
                    Some(InvestigationError::InvestigatorOwnerMismatch { investigator, owner: rec.owner })
                } else if state.legal.spec_active_investigation_for(investigator) is Some {
                    Some(InvestigationError::InvestigatorAtCaseCapacity { investigator })
                } else if ch.investigation is None {
                    Some(InvestigationError::MissingInvestigationCapability(investigator))
                } else if rec.lead_investigator is Some {
                    Some(InvestigationError::LeadSeatFilled { investigation, lead: rec.lead_investigator->0 })
                } else {
                    None
                },
            }
        },
    }
}

fn validate_investigator_assignment_dependencies(state: &AppState, investigation: InvestigationId, investigator: CharacterId) -> (r: Result<(), InvestigationError>)
    ensures
        match assignment_error(*state, investigation, investigator) {
            Some(e) => r matches Err(x) && x == e,
            None => r is Ok,
        },
{
    let rec = match state.legal.get_investigation(investigation) {
        Some(rec) => rec,
        None => {
            return Err(InvestigationError::MissingInvestigation(investigation));
        },
    };
    if rec.status != InvestigationStatus::Active {
        return Err(InvestigationError::InactiveInvestigation);
    }
    let ch = match state.world.get_character(investigator) {
        Some(ch) => ch,
        None => {
            return Err(InvestigationError::MissingCharacter(investigator));
        },
    };
    if let Some(arrest) = state.legal.active_arrest_for_character(investigator) {
        return Err(InvestigationError::DetainedInvestigator { investigator, arrest });
    }
    if crate::base::entity_vec_contains(&rec.subjects, EntityRef::Character(investigator)) {
        return Err(InvestigationError::InvestigatorIsCaseSubject { investigation, investigator });
    }
    if let Some(witness) = state.legal.case_witness_for(investigation, investigator) {
        return Err(InvestigationError::InvestigatorIsCaseWitness { investigation, investigator, witness });
    }
    if ch.organization != Some(rec.owner) {
        return Err(InvestigationError::InvestigatorOwnerMismatch { investigator, owner: rec.owner });
    }
    if state.legal.active_investigation_for_investigator(investigator).is_some() {
        return Err(InvestigationError::InvestigatorAtCaseCapacity { investigator });
    }
    if ch.investigation.is_none() {
        return Err(InvestigationError::MissingInvestigationCapability(investigator));
    }
    if let Some(lead) = rec.lead_investigator {
        return Err(InvestigationError::LeadSeatFilled { investigation, lead });
    }
    Ok(())
}

/// A lead assignment that passed validation, pinned to the case and investigator versions.
#[derive(Debug)]
pub struct ValidatedInvestigatorAssignment {
    investigation: InvestigationId,
    investigator: CharacterId,
    expected_investigation_version: u32,
    expected_investigator_version: u32,
}

pub open spec fn witness_in(inv: InvestigationId) -> spec_fn(CaseWitnessRecord) -> bool {
    |w: CaseWitnessRecord| w.investigation == inv
}

/// The registered witnesses of a case, in registration order.
pub open spec fn case_witness_list(legal: LegalState, inv: InvestigationId) -> Seq<CaseWitnessRecord> {
    legal.case_witnesses@.filter(witness_in(inv))
}

/// Whether every registered witness of the case can become first-hand knowledge of its lead.
pub open spec fn witness_knowledge_ready(state: AppState, inv: InvestigationId) -> bool {
    forall|k: int|
        0 <= k < case_witness_list(state.legal, inv).len() ==> {
            let w = #[trigger] case_witness_list(state.legal, inv)[k];
            &&& state.world.character_present(w.witness)
            &&& history_matches(
                state,
                EntityRef::Character(w.witness),
                state.now,
                SignalView::LegalPersonStatus(LegalPersonStatusSignal::CaseWitness { investigation: inv }),
            )
        }
}

/// Whether `rec` is the lead's persisted knowledge that `witness` is registered in the case.
pub open spec fn is_witness_record(rec: InformationRecord, state: AppState, inv: InvestigationId, witness: CharacterId, lead: CharacterId, id: InformationId) -> bool {
    let case_rec = state.legal.spec_investigation(inv)->0;
    &&& rec.id == id
    &&& rec.holder == KnowledgeHolder::Character(lead)
    &&& rec.source_kind == InformationSourceKind::DirectObservation
    &&& rec.topic == InformationTopic::LegalActivity
    &&& rec.source_entity == Some(EntityRef::Organization(case_rec.owner))
    &&& rec.subject == EntityRef::Character(witness)
    &&& rec.observed_at == state.now
    &&& rec.recorded_at == state.now
    &&& rec.signal_view() == Some(
        SignalView::LegalPersonStatus(LegalPersonStatusSignal::CaseWitness { investigation: inv }),
    )
    &&& rec.derived_from is None
    &&& rec.summary@ == witness_summary(state.world.spec_character(witness)->0.name@, case_rec.title@)
}

impl ValidatedInvestigatorAssignment {
    pub closed spec fn spec_investigation(&self) -> InvestigationId {
        self.investigation
    }

    pub closed spec fn spec_investigator(&self) -> CharacterId {
        self.investigator
    }

    pub closed spec fn spec_investigation_version(&self) -> u32 {
        self.expected_investigation_version
    }

    pub closed spec fn spec_investigator_version(&self) -> u32 {
        self.expected_investigator_version
    }

    /// The first reason the assignment cannot be committed now.
    pub open spec fn commit_error(&self, state: AppState) -> Option<InvestigationError> {
        let inv = self.spec_investigation();
        let c = self.spec_investigator();
        match state.legal.spec_investigation(inv) {
            None => Some(InvestigationError::MissingInvestigation(inv)),
            Some(rec) => if rec.version != self.spec_investigation_version() {
                Some(
                    InvestigationError::StaleInvestigation {
                        investigation: inv,
                        expected: self.spec_investigation_version(),
                        found: rec.version,
                    },
                )
            } else if rec.version + 2 > u32::MAX {
                Some(InvestigationError::VersionCapacity(VersionedRecord::Investigation))
            } else {
                match state.world.spec_character(c) {
                    None => Some(InvestigationError::MissingCharacter(c)),
                    Some(ch) => if ch.version != self.spec_investigator_version() {
                        Some(
                            InvestigationError::StaleInvestigator {
                                investigator: c,
                                expected: self.spec_investigator_version(),
                                found: ch.version,
                            },
                        )
                    } else {
                        assignment_error(state, inv, c)
                    },
                }
            },
        }
    }

    /// Whether the lead's first-hand case knowledge can be recorded in full.
    pub open spec fn knowledge_ready(&self, state: AppState) -> bool {
        let inv = self.spec_investigation();
        !police_case(state, inv) || (activity_knowledge_ready(
            state,
            inv,
            CaseActivitySignal::Active,
            self.spec_investigator(),
        ) && witness_knowledge_ready(state, inv) && state.intelligence.records@.len() + 1
            + case_witness_list(state.legal, inv).len() <= u32::MAX)
    }

    /// Re-checks both versions and the seat, then seats the investigator; a police lead comes
    /// to know first-hand that the case is actively worked and who its registered witnesses are.
    #[verifier::loop_isolation(false)]
    pub fn commit(self, state: &mut AppState) -> (r: Result<(), InvestigationError>)
        requires
            old(state).wf(),
        ensures
            final(state).wf(),
            self.commit_error(*old(state)) matches Some(e) ==> (r matches Err(x) && x == e),
            r is Err ==> *final(state) == *old(state),
            self.commit_error(*old(state)) is None ==> (r is Ok <==> self.knowledge_ready(*old(state))),
            r is Ok ==> {
                let inv = self.spec_investigation();
                let c = self.spec_investigator();
                let rec = old(state).legal.spec_investigation(inv)->0;
                let n = old(state).intelligence.records@.len();
                let witnesses = case_witness_list(old(state).legal, inv);
                &&& self.commit_error(*old(state)) is None
                &&& final(state).legal.investigations@ == old(state).legal.investigations@.update(
                    inv.0 - 1,
                    with_lead(rec, Some(c), old(state).now),
                )
                &&& only_investigations_differ(final(state).legal, old(state).legal)
                &&& final(state).world == old(state).world
                &&& final(state).now == old(state).now
                &&& final(state).rng == old(state).rng
                &&& final(state).intelligence.records@.subrange(0, n as int) == old(state).intelligence.records@
                &&& if police_case(*old(state), inv) {
                    &&& final(state).intelligence.records@.len() == n + 1 + witnesses.len()
                    &&& is_activity_record(
                        final(state).intelligence.records@[n as int],
                        *old(state),
                        inv,
                        CaseActivitySignal::Active,
                        c,
                        InformationId((n + 1) as u32),
                    )
                    &&& forall|k: int|
                        0 <= k < witnesses.len() ==> is_witness_record(
                            #[trigger] final(state).intelligence.records@[n + 1 + k],
                            *old(state),
                            inv,
                            witnesses[k].witness,
                            c,
                            InformationId((n + 2 + k) as u32),
                        )
                } else {
                    final(state).intelligence.records@.len() == n
                }
            },
    {
        let inv = self.investigation;
        let c = self.investigator;
        let (version, owner) = match state.legal.get_investigation(inv) {
            Some(rec) => (rec.version, rec.owner),
            None => {
                return Err(InvestigationError::MissingInvestigation(inv));
            },
        };
        if version != self.expected_investigation_version {
            return Err(
                InvestigationError::StaleInvestigation {
                    investigation: inv,
                    expected: self.expected_investigation_version,
                    found: version,
                },
            );
        }
        if version > u32::MAX - 2 {
            return Err(InvestigationError::VersionCapacity(VersionedRecord::Investigation));
        }
        let ch_version = match state.world.get_character(c) {
            Some(ch) => ch.version,
            None => {
                return Err(InvestigationError::MissingCharacter(c));
            },
        };
        if ch_version != self.expected_investigator_version {
            return Err(
                InvestigationError::StaleInvestigator {
                    investigator: c,
                    expected: self.expected_investigator_version,
                    found: ch_version,
                },
            );
        }
        validate_investigator_assignment_dependencies(state, inv, c)?;
        let police = match state.world.organization_kind(owner) {
            Some(kind) => kind == OrganizationKind::LawEnforcement,
            None => false,
        };
        let ghost n = state.intelligence.records@.len();
        let ghost witnesses = case_witness_list(state.legal, inv);
        let mut tokens: Vec<ValidatedInformation> = Vec::new();
        if police {
            proof {
                // The owner is the investigator's own organization, which the world keeps present.
                assert(state.world.characters@[c.0 - 1].organization == Some(owner));
            }
            match prepare_case_activity_knowledge(state, inv, CaseActivitySignal::Active, c) {
                Ok(Some(t)) => {
                    tokens.push(t);
                },
                Ok(None) => {},
                Err(e) => {
                    return Err(InvestigationError::CaseKnowledge(e));
                },
            }
            let mut i: usize = 0;
            while i < state.legal.case_witnesses.len()
                invariant
                    i <= state.legal.case_witnesses.len(),
                    state.world.organization_present(owner),
                    police_case(*state, inv),
                    tokens@.len() == 1 + state.legal.case_witnesses@.take(i as int).filter(witness_in(inv)).len(),
                    is_activity_token(tokens@[0], *state, inv, CaseActivitySignal::Active, c),
                    forall|k: int|
                        0 <= k < tokens@.len() - 1 ==> is_witness_token(
                            #[trigger] tokens@[k + 1],
                            *state,
                            inv,
                            state.legal.case_witnesses@.take(i as int).filter(witness_in(inv))[k].witness,
                            c,
                        ),
                    forall|k: int|
                        0 <= k < state.legal.case_witnesses@.take(i as int).filter(witness_in(inv)).len()
                            ==> {
                            let w = #[trigger] state.legal.case_witnesses@.take(i as int).filter(witness_in(inv))[k];
                            &&& state.world.character_present(w.witness)
                            &&& history_matches(
                                *state,
                                EntityRef::Character(w.witness),
                                state.now,
                                SignalView::LegalPersonStatus(
                                    LegalPersonStatusSignal::CaseWitness { investigation: inv },
                                ),
                            )
                        },
                decreases state.legal.case_witnesses.len() - i,
            {
                let w = state.legal.case_witnesses[i];
                proof {
                    crate::seqs::lemma_filter_take_step(state.legal.case_witnesses@, witness_in(inv), i as int);
                }
                if w.investigation == inv {
                    if state.world.get_character(w.witness).is_none() {
                        proof {
                            lemma_witness_list_member(state.legal, inv, i as int);
                        }
                        return Err(InvestigationError::MissingCharacter(w.witness));
                    }
                    match prepare_case_witness_knowledge(state, inv, w.witness, c) {
                        Ok(Some(t)) => {
                            tokens.push(t);
                        },
                        Ok(None) => {},
                        Err(e) => {
                            proof {
                                lemma_witness_list_member(state.legal, inv, i as int);
                            }
                            return Err(InvestigationError::CaseKnowledge(e));
                        },
                    }
                }
                i = i + 1;
            }
            proof {
                assert(state.legal.case_witnesses@.take(state.legal.case_witnesses@.len() as int)
                    =~= state.legal.case_witnesses@);
            }
        }
        let count = state.intelligence.records.len();
        if tokens.len() > 0 && (count > u32::MAX as usize || tokens.len() > u32::MAX as usize - count) {
            return Err(InvestigationError::IdExhaustion(IdExhaustionError::Exhausted { kind: IdKind::Information }));
        }
        let now = state.now;
        proof {
            crate::seqs::lemma_first_index_props(state.legal.investigations@, crate::legal::active_led_by(c));
            assert forall|j: int| 0 <= j < state.legal.investigations@.len() && j != inv.0 - 1 implies (#[trigger] state.legal.investigations@[j]).lead_investigator
                != Some(c) by {
                if state.legal.investigations@[j].lead_investigator == Some(c) {
                    assert(crate::legal::active_led_by(c)(state.legal.investigations@[j]));
                }
            }
        }
        proof {
            assert forall|j: int| 0 <= j < tokens@.len() implies (#[trigger] tokens@[j]).spec_derived_from() is None
                && tokens@[j].spec_draft().source_kind == crate::intelligence::InformationSourceKind::DirectObservation by {
                if j > 0 {
                    assert(tokens@[(j - 1) + 1] == tokens@[j]);
                }
            }
        }
        state.legal.set_lead_investigator((inv.0 - 1) as usize, Some(c), now);
        let ghost mid = *state;
        let ghost all = tokens@;
        let mut k: usize = 0;
        while tokens.len() > 0
            invariant
                state.wf(),
                k + tokens@.len() == all.len(),
                tokens@ == all.subrange(k as int, all.len() as int),
                all.len() > 0 ==> n + all.len() <= u32::MAX,
                state.intelligence.records@.len() == n + k,
                state.intelligence.records@.subrange(0, n as int) == old(state).intelligence.records@,
                forall|j: int|
                    0 <= j < k ==> (#[trigger] state.intelligence.records@[n + j]) == all[j].record(
                        InformationId((n + j + 1) as u32),
                        now,
                    ),
                state.legal == mid.legal,
                state.world == old(state).world,
                state.now == now,
                state.rng == old(state).rng,
                forall|j: int|
                    0 <= j < all.len() ==> (#[trigger] all[j]).spec_derived_from() is None && all[j].spec_draft().source_kind
                        == crate::intelligence::InformationSourceKind::DirectObservation,
            decreases tokens.len(),
        {
            let t = tokens.remove(0);
            let ghost before = state.intelligence.records@;
            proof {
                assert(tokens@.len() + 1 + k == all.len());
                assert(all[k as int] == t);
            }
            let _ = t.commit(state);
            proof {
                assert(state.intelligence.records@.subrange(0, n as int) =~= before.subrange(0, n as int));
                assert forall|j: int| 0 <= j < k + 1 implies (#[trigger] state.intelligence.records@[n + j])
                    == all[j].record(InformationId((n + j + 1) as u32), now) by {
                    if j < k {
                        assert(state.intelligence.records@[n + j] == before[n + j]);
                    }
                }
            }
            k = k + 1;
        }
        proof {
            if police {
                assert forall|j: int| 0 <= j < witnesses.len() implies is_witness_record(
                    #[trigger] state.intelligence.records@[n + 1 + j],
                    *old(state),
                    inv,
                    witnesses[j].witness,
                    c,
                    InformationId((n + 2 + j) as u32),
                ) by {
                    assert(state.intelligence.records@[n + (j + 1)] == all[j + 1].record(
                        InformationId((n + (j + 1) + 1) as u32),
                        now,
                    ));
                }
                assert(state.intelligence.records@[n as int] == all[0].record(
                    InformationId((n + 0 + 1) as u32),
                    now,
                ));
            }
        }
        Ok(())
    }
}

proof fn lemma_witness_list_member(legal: LegalState, inv: InvestigationId, i: int)
    requires
        0 <= i < legal.case_witnesses@.len(),
        legal.case_witnesses@[i].investigation == inv,
    ensures
        case_witness_list(legal, inv).contains(legal.case_witnesses@[i]),
{
    legal.case_witnesses@.lemma_filter_contains(witness_in(inv), i);
}

/// Validates seating `investigator` as the lead of `investigation`.
pub fn validate_assign_investigator(state: &AppState, investigation: InvestigationId, investigator: CharacterId) -> (r: Result<ValidatedInvestigatorAssignment, InvestigationError>)
    ensures
        match assignment_error(*state, investigation, investigator) {
            Some(e) => r matches Err(x) && x == e,
            None => if state.legal.spec_investigation(investigation)->0.version + 2 > u32::MAX {
                r matches Err(x) && x == InvestigationError::VersionCapacity(VersionedRecord::Investigation)
            } else {
                r matches Ok(t) && t.spec_investigation() == investigation && t.spec_investigator()
                    == investigator && t.spec_investigation_version()
                    == state.legal.spec_investigation(investigation)->0.version
                    && t.spec_investigator_version() == state.world.spec_character(
                    investigator,
                )->0.version
            },
        },
{
    validate_investigator_assignment_dependencies(state, investigation, investigator)?;
    let version = match state.legal.get_investigation(investigation) {
        Some(rec) => rec.version,
        None => {
            return Err(InvestigationError::MissingInvestigation(investigation));
        },
    };
    if version > u32::MAX - 2 {
        return Err(InvestigationError::VersionCapacity(VersionedRecord::Investigation));
    }
    let ch_version = match state.world.get_character(investigator) {
        Some(ch) => ch.version,
        None => {
            return Err(InvestigationError::MissingCharacter(investigator));
        },
    };
    Ok(
        ValidatedInvestigatorAssignment {
            investigation,
            investigator,
            expected_investigation_version: version,
            expected_investigator_version: ch_version,
        },
    )
}

/// Checks that seating `c` as lead of `inv` can record all of the lead's first-hand case
/// knowledge, and says how many registered witnesses that knowledge covers besides the case's
/// activity; `None` when the case is not a police case and the lead learns nothing first-hand.
pub(crate) fn check_lead_knowledge(state: &AppState, inv: InvestigationId, c: CharacterId) -> (r: Result<Option<usize>, InvestigationError>)
    requires
        state.wf(),
        state.legal.spec_investigation(inv) is Some,
    ensures
        !police_case(*state, inv) ==> r == Ok::<Option<usize>, InvestigationError>(None),
        police_case(*state, inv) ==> (r is Ok <==> (activity_knowledge_ready(*state, inv, CaseActivitySignal::Active, c)
            && witness_knowledge_ready(*state, inv))),
        police_case(*state, inv) ==> (r matches Ok(x) ==> x == Some(case_witness_list(state.legal, inv).len() as usize)),
{
    let owner = match state.legal.get_investigation(inv) {
        Some(rec) => rec.owner,
        None => {
            return Ok(None);
        },
    };
    let police = match state.world.organization_kind(owner) {
        Some(kind) => kind == OrganizationKind::LawEnforcement,
        None => false,
    };
    if !police {
        return Ok(None);
    }
    match prepare_case_activity_knowledge(state, inv, CaseActivitySignal::Active, c) {
        Ok(Some(_)) => {},
        Ok(None) => {
            return Ok(None);
        },
        Err(e) => {
            return Err(InvestigationError::CaseKnowledge(e));
        },
    }
    let mut count: usize = 0;
    let mut i: usize = 0;
    while i < state.legal.case_witnesses.len()
        invariant
            i <= state.legal.case_witnesses.len(),
            state.wf(),
            state.world.organization_present(owner),
            owner == state.legal.spec_investigation(inv)->0.owner,
            police_case(*state, inv),
            activity_knowledge_ready(*state, inv, CaseActivitySignal::Active, c),
            count == state.legal.case_witnesses@.take(i as int).filter(witness_in(inv)).len(),
            count <= i,
            forall|k: int|
                0 <= k < state.legal.case_witnesses@.take(i as int).filter(witness_in(inv)).len() ==> {
                    let w = #[trigger] state.legal.case_witnesses@.take(i as int).filter(witness_in(inv))[k];
                    &&& state.world.character_present(w.witness)
                    &&& history_matches(
                        *state,
                        EntityRef::Character(w.witness),
                        state.now,
                        SignalView::LegalPersonStatus(LegalPersonStatusSignal::CaseWitness { investigation: inv }),
                    )
                },
        decreases state.legal.case_witnesses.len() - i,
    {
        let w = state.legal.case_witnesses[i];
        proof {
            crate::seqs::lemma_filter_take_step(state.legal.case_witnesses@, witness_in(inv), i as int);
        }
        if w.investigation == inv {
            if state.world.get_character(w.witness).is_none() {
                proof {
                    lemma_witness_list_member(state.legal, inv, i as int);
                }
                return Err(InvestigationError::MissingCharacter(w.witness));
            }
            match prepare_case_witness_knowledge(state, inv, w.witness, c) {
                Ok(Some(_)) => {
                    count = count + 1;
                },
                Ok(None) => {},
                Err(e) => {
                    proof {
                        lemma_witness_list_member(state.legal, inv, i as int);
                    }
                    return Err(InvestigationError::CaseKnowledge(e));
                },
            }
        }
        i = i + 1;
    }
    proof {
        assert(state.legal.case_witnesses@.take(state.legal.case_witnesses@.len() as int) =~= state.legal.case_witnesses@);
    }
    Ok(Some(count))
}

} // verus!
