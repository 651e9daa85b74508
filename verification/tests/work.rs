use crimocracy::base::{
    CaseWitnessId, CharacterId, EntityRef, EvidenceId, InvestigationId, InvestigationWorkId,
    OrganizationId, Rating, SimTime,
};
use crimocracy::invariants::{validate_state, validate_state_against_registry};
use crimocracy::legal::investigation_system::staffing::validate_assign_investigator;
use crimocracy::legal::investigation_system::{
    validate_add_evidence, validate_open_investigation, EvidenceDraft, InvestigationDraft,
};
use crimocracy::legal::investigation_work_execution::resolution::{
    decide_investigation_work_resolution, validate_investigation_work_resolution_plan,
    InvestigationWorkRandomness,
};
use crimocracy::legal::arrest_system::{validate_arrest, ArrestDraft};
use crimocracy::legal::investigation_work_execution::autonomous_scheduling::{
    apply_evidence_review_scheduling, apply_investigation_work_scheduling,
    apply_witness_interview_scheduling,
};
use crimocracy::legal::investigation_work_execution::detention_cancellation::validate_cancel_investigation_work_for_detention;
use crimocracy::legal::investigation_work_execution::{
    validate_schedule_investigation_work, InvestigationWorkDraft, InvestigationWorkError,
    VersionedRecord,
};
use crimocracy::legal::witness_system::{validate_register_case_witness, validate_set_witness_cooperation, CaseWitnessDraft};
use crimocracy::legal::{
    Admissibility, EvidenceKind, EvidenceReliability, EvidenceStrength,
    InvestigationWorkCancellationReason, InvestigationWorkFocus, InvestigationWorkKind,
    InvestigationWorkOutcome, InvestigationWorkStatus, WitnessCooperation,
};
use crimocracy::registry::{build_registry, Registry};
use crimocracy::state::{insert_character, insert_organization, AppState};
use crimocracy::world::{CharacterDraft, OrganizationDraft, OrganizationKind};

struct WorkFixture {
    state: AppState,
    police: OrganizationId,
    investigation: InvestigationId,
    investigator: CharacterId,
    second_investigator: CharacterId,
    first: CharacterId,
    middle: CharacterId,
    target: CharacterId,
    witness: CharacterId,
    first_evidence: EvidenceId,
}

fn rating(value: u8) -> Rating {
    Rating::try_new(value).expect("test rating must be valid")
}

fn plain_person(state: &mut AppState, name: &str, organization: Option<OrganizationId>) -> CharacterId {
    insert_character(state, CharacterDraft { name: name.to_owned(), organization, investigation: None, safety: None })
        .expect("character fixture should validate")
}

struct TestEvidenceDraft {
    investigation: InvestigationId,
    police: OrganizationId,
    subject: EntityRef,
    origin: EntityRef,
    kind: EvidenceKind,
    strength: EvidenceStrength,
    reliability: EvidenceReliability,
    admissibility: Admissibility,
}

fn add_evidence(state: &mut AppState, draft: TestEvidenceDraft) -> EvidenceId {
    let now = state.now();
    validate_add_evidence(
        state,
        EvidenceDraft {
            investigation: draft.investigation,
            custodian: draft.police,
            subject: draft.subject,
            origin: Some(draft.origin),
            kind: draft.kind,
            strength: draft.strength,
            reliability: draft.reliability,
            admissibility: draft.admissibility,
            discovered_at: now,
        },
    )
    .expect("evidence fixture should validate")
    .commit(state)
    .expect("evidence fixture should commit")
}

fn make_fixture(
    investigator_skill: u8,
    strength: EvidenceStrength,
    reliability: EvidenceReliability,
    admissibility: Admissibility,
) -> WorkFixture {
    let mut state = AppState::new(0x1A7E_5731);
    let police = insert_organization(
        &mut state,
        OrganizationDraft { name: "Pattern Bureau".to_owned(), kind: OrganizationKind::LawEnforcement },
    )
    .expect("police fixture should validate");
    let criminal = insert_organization(
        &mut state,
        OrganizationDraft { name: "Pattern Crew".to_owned(), kind: OrganizationKind::Criminal },
    )
    .expect("criminal fixture should validate");
    let investigator = insert_character(
        &mut state,
        CharacterDraft {
            name: "Detective Harlan".to_owned(),
            organization: Some(police),
            investigation: Some(rating(investigator_skill)),
            safety: None,
        },
    )
    .expect("investigator fixture should validate");
    let second_investigator = insert_character(
        &mut state,
        CharacterDraft {
            name: "Detective Vera".to_owned(),
            organization: Some(police),
            investigation: Some(rating(investigator_skill)),
            safety: None,
        },
    )
    .expect("second investigator fixture should validate");
    let first = plain_person(&mut state, "Frank Dello", Some(criminal));
    let middle = plain_person(&mut state, "Maria Vale", Some(criminal));
    let target = plain_person(&mut state, "Fulton Garage Manager", Some(criminal));
    let witness = plain_person(&mut state, "Independent Case Witness", None);
    let investigation = validate_open_investigation(
        &state,
        InvestigationDraft {
            owner: police,
            title: "Vehicle association inquiry".to_owned(),
            subjects: vec![EntityRef::Character(first)],
        },
    )
    .expect("investigation fixture should validate")
    .commit(&mut state)
    .expect("investigation fixture should commit");
    validate_assign_investigator(&state, investigation, investigator)
        .expect("investigator assignment should validate")
        .commit(&mut state)
        .expect("investigator assignment should commit");
    let first_evidence = add_evidence(
        &mut state,
        TestEvidenceDraft {
            investigation,
            police,
            subject: EntityRef::Character(middle),
            origin: EntityRef::Character(first),
            kind: EvidenceKind::Fingerprint,
            strength,
            reliability,
            admissibility,
        },
    );
    add_evidence(
        &mut state,
        TestEvidenceDraft {
            investigation,
            police,
            subject: EntityRef::Character(target),
            origin: EntityRef::Character(middle),
            kind: EvidenceKind::KnownAssociation,
            strength,
            reliability,
            admissibility,
        },
    );
    WorkFixture { state, police, investigation, investigator, second_investigator, first, middle, target, witness, first_evidence }
}

fn review_draft(fixture: &WorkFixture, evidence: EvidenceId) -> InvestigationWorkDraft {
    InvestigationWorkDraft {
        investigation: fixture.investigation,
        investigator: fixture.investigator,
        kind: InvestigationWorkKind::EvidenceReview,
        focus: InvestigationWorkFocus::evidence(evidence),
    }
}

fn interview_draft(fixture: &WorkFixture, case_witness: CaseWitnessId) -> InvestigationWorkDraft {
    InvestigationWorkDraft {
        investigation: fixture.investigation,
        investigator: fixture.investigator,
        kind: InvestigationWorkKind::WitnessInterview,
        focus: InvestigationWorkFocus::witness(case_witness),
    }
}

fn register_witness(fixture: &mut WorkFixture, witness: CharacterId, subject: EntityRef) -> CaseWitnessId {
    validate_register_case_witness(
        &fixture.state,
        CaseWitnessDraft {
            investigation: fixture.investigation,
            witness,
            subject,
            cooperation: WitnessCooperation::Cooperative,
        },
    )
    .expect("case witness should validate")
    .commit(&mut fixture.state)
    .expect("case witness should commit")
}

fn resolve_now(registry: &Registry, state: &mut AppState, work: InvestigationWorkId) -> InvestigationWorkOutcome {
    let due = state.legal().get_investigation_work(work).expect("work should persist").due_at();
    state.set_now(due);
    let plan = decide_investigation_work_resolution(registry, state, work, InvestigationWorkRandomness::new(0))
        .expect("due work should resolve through the canonical decision path");
    let outcome = plan.outcome();
    validate_investigation_work_resolution_plan(registry, state, plan)
        .expect("resolution should validate")
        .commit(state)
        .expect("resolution should commit");
    outcome
}

fn case_version_of(state: &AppState, investigation: InvestigationId) -> u32 {
    state.legal().get_investigation(investigation).expect("investigation should persist").version()
}

#[test]
fn held_work_schedule_rejects_clock_overflow_before_work_id_is_consumed() {
    let registry = build_registry();
    let mut fixture =
        make_fixture(80, EvidenceStrength::Strong, EvidenceReliability::Credible, Admissibility::Admissible);
    let validated =
        validate_schedule_investigation_work(&registry, &fixture.state, review_draft(&fixture, fixture.first_evidence))
            .expect("work should validate before the clock moves");
    let duration = registry.get_investigation_work(InvestigationWorkKind::EvidenceReview).duration();
    fixture.state.set_now(SimTime::from_minutes(u64::MAX - u64::from(duration.as_minutes()) + 1));
    let work_count = fixture.state.legal().work.len();

    let error = validated.commit(&mut fixture.state).expect_err("held work token must reject an unrepresentable due time");
    assert_eq!(error, InvestigationWorkError::SimulationTimeOverflow);
    assert_eq!(fixture.state.legal().work.len(), work_count);
    assert_eq!(fixture.state.legal().work.len(), 0);
}

#[test]
fn evidence_review_scheduling_requires_full_resolution_version_headroom() {
    let registry = build_registry();
    let mut fixture =
        make_fixture(90, EvidenceStrength::Strong, EvidenceReliability::Credible, Admissibility::Admissible);
    let index = (fixture.investigation.0 - 1) as usize;
    fixture.state.legal.investigations[index].version = u32::MAX - 2;
    assert!(validate_state(&fixture.state), "near-terminal active investigation should remain structurally valid");

    let error =
        validate_schedule_investigation_work(&registry, &fixture.state, review_draft(&fixture, fixture.first_evidence))
            .expect_err("review scheduling must reserve its schedule plus worst-case resolution revisions");
    assert_eq!(error, InvestigationWorkError::VersionCapacity(VersionedRecord::Investigation));
    assert!(apply_evidence_review_scheduling(&registry, &mut fixture.state)
        .expect("autonomous review maintenance should defer terminal-rail work")
        .is_empty());
    assert_eq!(fixture.state.legal().work.len(), 0);
    assert!(validate_state(&fixture.state), "deferred near-terminal case should remain valid");
}

#[test]
fn evidence_review_scheduling_accepts_exact_resolution_headroom_boundary() {
    let registry = build_registry();
    let mut fixture =
        make_fixture(90, EvidenceStrength::Strong, EvidenceReliability::Credible, Admissibility::Admissible);
    let index = (fixture.investigation.0 - 1) as usize;
    fixture.state.legal.investigations[index].version = u32::MAX - 3;

    let outcome = apply_investigation_work_scheduling(&registry, &mut fixture.state)
        .expect("exact review resolution headroom must still permit scheduling");
    assert_eq!(outcome.evidence_reviews.len(), 1);
    assert!(outcome.witness_interviews.is_empty());
    let work = outcome.evidence_reviews[0];
    let record = fixture.state.legal().get_investigation_work(work).expect("boundary review should persist");
    assert_eq!(record.focus, InvestigationWorkFocus::evidence(fixture.first_evidence));
    assert_eq!(case_version_of(&fixture.state, fixture.investigation), u32::MAX - 2);
    let outcome = resolve_now(&registry, &mut fixture.state, work);
    assert_eq!(outcome, InvestigationWorkOutcome::Developed);
    assert_eq!(case_version_of(&fixture.state, fixture.investigation), u32::MAX);
    assert!(validate_state(&fixture.state), "exact review boundary state should remain valid");
}

#[test]
fn witness_interview_scheduling_requires_case_and_witness_resolution_headroom() {
    let registry = build_registry();
    let mut fixture =
        make_fixture(90, EvidenceStrength::Strong, EvidenceReliability::Credible, Admissibility::Admissible);
    let witness = fixture.witness;
    let target = fixture.target;
    let case_witness = register_witness(&mut fixture, witness, EntityRef::Character(target));
    let index = (fixture.investigation.0 - 1) as usize;
    let original_version = fixture.state.legal.investigations[index].version;
    fixture.state.legal.investigations[index].version = u32::MAX - 3;

    let error = validate_schedule_investigation_work(&registry, &fixture.state, interview_draft(&fixture, case_witness))
        .expect_err("interview scheduling must reserve four case revisions from the current state");
    assert_eq!(error, InvestigationWorkError::VersionCapacity(VersionedRecord::Investigation));
    assert!(apply_witness_interview_scheduling(&registry, &mut fixture.state)
        .expect("autonomous interview maintenance should defer a near-terminal case")
        .is_empty());

    fixture.state.legal.investigations[index].version = original_version;
    let witness_index = (case_witness.0 - 1) as usize;
    fixture.state.legal.case_witnesses[witness_index].version = u32::MAX - 1;
    let error = validate_schedule_investigation_work(&registry, &fixture.state, interview_draft(&fixture, case_witness))
        .expect_err("interview scheduling must reserve two possible witness revisions");
    assert_eq!(error, InvestigationWorkError::VersionCapacity(VersionedRecord::CaseWitness));
    assert!(apply_witness_interview_scheduling(&registry, &mut fixture.state)
        .expect("autonomous interview maintenance should skip exhausted witness headroom")
        .is_empty());
    assert_eq!(fixture.state.legal().work.len(), 0);
    assert!(validate_state(&fixture.state), "deferred witness work state should remain valid");
}

#[test]
fn witness_interview_scheduling_accepts_exact_case_and_witness_headroom_boundaries() {
    let registry = build_registry();
    let mut fixture =
        make_fixture(90, EvidenceStrength::Strong, EvidenceReliability::Credible, Admissibility::Admissible);
    let interview_case = validate_open_investigation(
        &fixture.state,
        InvestigationDraft {
            owner: fixture.police,
            title: "Exact witness headroom case".to_owned(),
            subjects: vec![EntityRef::Character(fixture.target)],
        },
    )
    .expect("boundary witness case should validate")
    .commit(&mut fixture.state)
    .expect("boundary witness case should commit");
    validate_assign_investigator(&fixture.state, interview_case, fixture.second_investigator)
        .expect("boundary witness investigator should validate")
        .commit(&mut fixture.state)
        .expect("boundary witness investigator should commit");
    let case_witness = validate_register_case_witness(
        &fixture.state,
        CaseWitnessDraft {
            investigation: interview_case,
            witness: fixture.witness,
            subject: EntityRef::Character(fixture.target),
            cooperation: WitnessCooperation::Cooperative,
        },
    )
    .expect("boundary case witness should validate")
    .commit(&mut fixture.state)
    .expect("boundary case witness should commit");
    let index = (interview_case.0 - 1) as usize;
    fixture.state.legal.investigations[index].version = u32::MAX - 4;
    let witness_index = (case_witness.0 - 1) as usize;
    fixture.state.legal.case_witnesses[witness_index].version = u32::MAX - 2;

    let outcome = apply_investigation_work_scheduling(&registry, &mut fixture.state)
        .expect("exact interview case and witness headroom must permit scheduling");
    assert_eq!(outcome.witness_interviews.len(), 1);
    let record = fixture
        .state
        .legal()
        .get_investigation_work(outcome.witness_interviews[0])
        .expect("boundary interview should persist");
    assert_eq!(record.focus, InvestigationWorkFocus::witness(case_witness));
    assert!(validate_state(&fixture.state), "exact interview boundary state should remain valid");
}

#[test]
fn direct_interview_scheduling_rejects_witness_who_already_gave_statement() {
    let registry = build_registry();
    let mut fixture = make_fixture(80, EvidenceStrength::Weak, EvidenceReliability::Mixed, Admissibility::Unknown);
    let witness = fixture.witness;
    let target = fixture.target;
    let case_witness = register_witness(&mut fixture, witness, EntityRef::Character(target));
    let work = validate_schedule_investigation_work(&registry, &fixture.state, interview_draft(&fixture, case_witness))
        .expect("first interview should validate")
        .commit(&mut fixture.state)
        .expect("first interview should commit");
    assert_eq!(resolve_now(&registry, &mut fixture.state, work), InvestigationWorkOutcome::Connected);
    assert!(fixture.state.legal().get_case_witness(case_witness).expect("witness should persist").statement.is_some());

    let error = validate_schedule_investigation_work(&registry, &fixture.state, interview_draft(&fixture, case_witness))
        .expect_err("a statemented witness must not consume another detective interview");
    assert_eq!(error, InvestigationWorkError::WitnessAlreadyStatemented { witness: case_witness });
    assert!(validate_state(&fixture.state), "rejected redundant interview must leave valid state");
}

#[test]
fn interview_statement_uses_registered_subject_despite_other_case_evidence() {
    let registry = build_registry();
    let mut fixture =
        make_fixture(90, EvidenceStrength::Strong, EvidenceReliability::Credible, Admissibility::Admissible);
    let (investigation, police, first, middle, witness) =
        (fixture.investigation, fixture.police, fixture.first, fixture.middle, fixture.witness);
    add_evidence(
        &mut fixture.state,
        TestEvidenceDraft {
            investigation,
            police,
            subject: EntityRef::Character(first),
            origin: EntityRef::Character(middle),
            kind: EvidenceKind::Document,
            strength: EvidenceStrength::Direct,
            reliability: EvidenceReliability::Questionable,
            admissibility: Admissibility::Admissible,
        },
    );
    let case_witness = register_witness(&mut fixture, witness, EntityRef::Character(first));
    let work = validate_schedule_investigation_work(&registry, &fixture.state, interview_draft(&fixture, case_witness))
        .expect("witness interview should validate")
        .commit(&mut fixture.state)
        .expect("witness interview should commit");
    assert_eq!(resolve_now(&registry, &mut fixture.state, work), InvestigationWorkOutcome::Connected);
    let statement_id = fixture
        .state
        .legal()
        .get_case_witness(case_witness)
        .expect("case witness should persist")
        .statement
        .expect("connected interview must persist its statement");
    let statement = fixture.state.legal().get_evidence(statement_id).expect("persisted statement should resolve");
    assert_eq!(
        statement.subject(),
        EntityRef::Character(first),
        "later or stronger case evidence must not make a witness testify about a different subject"
    );
    assert_eq!(statement.source(), Some(EntityRef::Character(witness)));
    assert!(validate_state(&fixture.state), "statement-selection fixture should remain valid");
}

#[test]
fn actionable_evidence_against_witness_cancels_pending_interview_and_blocks_future_interviews() {
    let registry = build_registry();
    let mut fixture = make_fixture(80, EvidenceStrength::Weak, EvidenceReliability::Mixed, Admissibility::Unknown);
    let witness = fixture.witness;
    let first = fixture.first;
    let case_witness = register_witness(&mut fixture, witness, EntityRef::Character(first));
    let work = validate_schedule_investigation_work(&registry, &fixture.state, interview_draft(&fixture, case_witness))
        .expect("witness interview should initially schedule")
        .commit(&mut fixture.state)
        .expect("witness interview should commit");

    let now = fixture.state.now();
    let promotion = validate_add_evidence(
        &fixture.state,
        EvidenceDraft {
            investigation: fixture.investigation,
            custodian: fixture.police,
            subject: EntityRef::Character(witness),
            origin: None,
            kind: EvidenceKind::Document,
            strength: EvidenceStrength::Strong,
            reliability: EvidenceReliability::Credible,
            admissibility: Admissibility::Unknown,
            discovered_at: now,
        },
    )
    .expect("new evidence against the witness should validate")
    .commit(&mut fixture.state)
    .expect("new evidence should promote the witness into the case subject set");

    let record = fixture.state.legal().get_investigation_work(work).expect("invalidated interview should remain historical");
    assert_eq!(record.status(), InvestigationWorkStatus::Cancelled);
    assert_eq!(
        record.cancellation().expect("invalidated interview should record cancellation").reason(),
        InvestigationWorkCancellationReason::WitnessBecameCaseSubject(promotion)
    );
    assert!(fixture
        .state
        .legal()
        .get_investigation(fixture.investigation)
        .expect("investigation should persist")
        .subjects()
        .contains(&EntityRef::Character(witness)));
    assert_eq!(
        validate_schedule_investigation_work(&registry, &fixture.state, interview_draft(&fixture, case_witness))
            .expect_err("a promoted case subject cannot be scheduled as a witness again"),
        InvestigationWorkError::WitnessIsCaseSubject { witness: case_witness, character: witness }
    );
    assert!(validate_state(&fixture.state), "witness-role invalidation should leave valid state");
    assert!(validate_state_against_registry(&registry, &fixture.state).is_ok());
}

#[test]
fn scheduling_is_versioned_and_deduplicated_per_focus() {
    let registry = build_registry();
    let mut fixture =
        make_fixture(90, EvidenceStrength::Strong, EvidenceReliability::Credible, Admissibility::Admissible);
    let stale_schedule =
        validate_schedule_investigation_work(&registry, &fixture.state, review_draft(&fixture, fixture.first_evidence))
            .expect("initial schedule token should validate");
    let (investigation, police, middle, target) = (fixture.investigation, fixture.police, fixture.middle, fixture.target);
    add_evidence(
        &mut fixture.state,
        TestEvidenceDraft {
            investigation,
            police,
            subject: EntityRef::Character(middle),
            origin: EntityRef::Character(target),
            kind: EvidenceKind::KnownAssociation,
            strength: EvidenceStrength::Weak,
            reliability: EvidenceReliability::Mixed,
            admissibility: Admissibility::Unknown,
        },
    );
    assert!(matches!(stale_schedule.commit(&mut fixture.state), Err(InvestigationWorkError::StaleInvestigation { .. })));

    let work =
        validate_schedule_investigation_work(&registry, &fixture.state, review_draft(&fixture, fixture.first_evidence))
            .expect("fresh schedule should validate after case change")
            .commit(&mut fixture.state)
            .expect("fresh schedule should commit");
    assert_eq!(
        validate_schedule_investigation_work(&registry, &fixture.state, review_draft(&fixture, fixture.first_evidence))
            .expect_err("same focus must not schedule duplicate work"),
        InvestigationWorkError::DuplicateScheduledWork { work }
    );
    assert!(validate_state(&fixture.state), "scheduled work dependencies should remain valid");
}

#[test]
fn investigator_cannot_hold_two_scheduled_casework_tasks() {
    let registry = build_registry();
    let mut fixture =
        make_fixture(90, EvidenceStrength::Strong, EvidenceReliability::Credible, Admissibility::Admissible);
    let witness = plain_person(&mut fixture.state, "Capacity Witness", None);
    let first = fixture.first;
    let case_witness = register_witness(&mut fixture, witness, EntityRef::Character(first));
    let review =
        validate_schedule_investigation_work(&registry, &fixture.state, review_draft(&fixture, fixture.first_evidence))
            .expect("first detective task should validate")
            .commit(&mut fixture.state)
            .expect("first detective task should schedule");

    let error = validate_schedule_investigation_work(&registry, &fixture.state, interview_draft(&fixture, case_witness))
        .expect_err("one detective cannot start overlapping authored-duration work");
    assert_eq!(error, InvestigationWorkError::InvestigatorBusy { investigator: fixture.investigator, work: review });
    let scheduled = fixture
        .state
        .legal()
        .work
        .iter()
        .filter(|work| work.investigator == fixture.investigator && work.status() == InvestigationWorkStatus::Scheduled)
        .count();
    assert_eq!(scheduled, 1);
    assert!(validate_state(&fixture.state), "busy-investigator rejection should preserve state");
}

fn add_case_evidence(fixture: &mut WorkFixture, subject: EntityRef, origin: EntityRef, kind: EvidenceKind, strength: EvidenceStrength) -> EvidenceId {
    let (investigation, police) = (fixture.investigation, fixture.police);
    add_evidence(
        &mut fixture.state,
        TestEvidenceDraft {
            investigation,
            police,
            subject,
            origin,
            kind,
            strength,
            reliability: EvidenceReliability::Credible,
            admissibility: Admissibility::Admissible,
        },
    )
}

#[test]
fn autonomous_evidence_review_advances_to_each_reviewable_source_once() {
    let registry = build_registry();
    let mut fixture =
        make_fixture(90, EvidenceStrength::Strong, EvidenceReliability::Credible, Admissibility::Admissible);
    let (target, middle) = (fixture.target, fixture.middle);
    let later_source = add_case_evidence(
        &mut fixture,
        EntityRef::Character(target),
        EntityRef::Character(middle),
        EvidenceKind::Document,
        EvidenceStrength::Strong,
    );

    let first = apply_evidence_review_scheduling(&registry, &mut fixture.state).expect("first autonomous review should schedule");
    assert_eq!(first.len(), 1);
    assert_eq!(
        fixture.state.legal().get_investigation_work(first[0]).expect("first review should persist").focus,
        InvestigationWorkFocus::evidence(fixture.first_evidence)
    );
    resolve_now(&registry, &mut fixture.state, first[0]);

    let second = apply_evidence_review_scheduling(&registry, &mut fixture.state)
        .expect("later reviewable evidence should remain actionable");
    assert_eq!(second.len(), 1);
    assert_eq!(
        fixture.state.legal().get_investigation_work(second[0]).expect("second review should persist").focus,
        InvestigationWorkFocus::evidence(later_source),
        "a completed review of one source must not make later reviewable evidence inert"
    );
    resolve_now(&registry, &mut fixture.state, second[0]);
    assert!(
        apply_evidence_review_scheduling(&registry, &mut fixture.state)
            .expect("exhausted review scheduling should resolve")
            .is_empty(),
        "each reviewable source receives one autonomous attempt"
    );
    assert!(validate_state(&fixture.state), "multi-source review state should remain valid");
}

#[test]
fn combined_autonomous_scheduler_handles_review_and_interview_cases_in_one_pass() {
    let registry = build_registry();
    let mut fixture =
        make_fixture(90, EvidenceStrength::Strong, EvidenceReliability::Credible, Admissibility::Admissible);
    let interview_case = validate_open_investigation(
        &fixture.state,
        InvestigationDraft {
            owner: fixture.police,
            title: "Parallel witness inquiry".to_owned(),
            subjects: vec![EntityRef::Character(fixture.target)],
        },
    )
    .expect("parallel witness case should validate")
    .commit(&mut fixture.state)
    .expect("parallel witness case should commit");
    validate_assign_investigator(&fixture.state, interview_case, fixture.second_investigator)
        .expect("second detective assignment should validate")
        .commit(&mut fixture.state)
        .expect("second detective assignment should commit");
    let (police, target, middle, witness) = (fixture.police, fixture.target, fixture.middle, fixture.witness);
    add_evidence(
        &mut fixture.state,
        TestEvidenceDraft {
            investigation: interview_case,
            police,
            subject: EntityRef::Character(target),
            origin: EntityRef::Character(middle),
            kind: EvidenceKind::KnownAssociation,
            strength: EvidenceStrength::Strong,
            reliability: EvidenceReliability::Credible,
            admissibility: Admissibility::Admissible,
        },
    );
    let case_witness = validate_register_case_witness(
        &fixture.state,
        CaseWitnessDraft {
            investigation: interview_case,
            witness,
            subject: EntityRef::Character(target),
            cooperation: WitnessCooperation::Cooperative,
        },
    )
    .expect("parallel case witness should validate")
    .commit(&mut fixture.state)
    .expect("parallel case witness should commit");

    let outcome = apply_investigation_work_scheduling(&registry, &mut fixture.state)
        .expect("combined autonomous scheduling should resolve");
    assert_eq!(outcome.evidence_reviews.len(), 1);
    assert_eq!(outcome.witness_interviews.len(), 1);
    assert_eq!(
        fixture.state.legal().get_investigation_work(outcome.evidence_reviews[0]).expect("review should persist").focus,
        InvestigationWorkFocus::evidence(fixture.first_evidence)
    );
    assert_eq!(
        fixture.state.legal().get_investigation_work(outcome.witness_interviews[0]).expect("interview should persist").focus,
        InvestigationWorkFocus::witness(case_witness)
    );
    assert!(validate_state(&fixture.state), "combined scheduling state should validate");
}

#[test]
fn autonomous_evidence_review_uses_discovery_time_before_evidence_id() {
    let registry = build_registry();
    let mut fixture =
        make_fixture(90, EvidenceStrength::Strong, EvidenceReliability::Credible, Admissibility::Admissible);
    let initial = apply_evidence_review_scheduling(&registry, &mut fixture.state).expect("initial autonomous review should schedule");
    assert_eq!(initial.len(), 1);
    resolve_now(&registry, &mut fixture.state, initial[0]);

    let current = fixture.state.now();
    let draft = |kind: EvidenceKind, discovered_at: SimTime, fixture: &WorkFixture| EvidenceDraft {
        investigation: fixture.investigation,
        custodian: fixture.police,
        subject: EntityRef::Character(fixture.target),
        origin: Some(EntityRef::Character(fixture.middle)),
        kind,
        strength: EvidenceStrength::Strong,
        reliability: EvidenceReliability::Credible,
        admissibility: Admissibility::Admissible,
        discovered_at,
    };
    let newer = validate_add_evidence(&fixture.state, draft(EvidenceKind::Document, current, &fixture))
        .expect("newer evidence should validate")
        .commit(&mut fixture.state)
        .expect("newer evidence should commit");
    let older_discovery =
        SimTime::from_minutes(current.as_minutes().checked_sub(1).expect("resolved work fixture must advance beyond campaign start"));
    let older_but_later_recorded =
        validate_add_evidence(&fixture.state, draft(EvidenceKind::FinancialRecord, older_discovery, &fixture))
            .expect("retrospective evidence should validate")
            .commit(&mut fixture.state)
            .expect("retrospective evidence should commit");
    assert!(newer < older_but_later_recorded, "fixture must make evidence ID order disagree with discovery order");

    let scheduled = apply_evidence_review_scheduling(&registry, &mut fixture.state).expect("retrospective evidence review should schedule");
    assert_eq!(scheduled.len(), 1);
    assert_eq!(
        fixture.state.legal().get_investigation_work(scheduled[0]).expect("retrospective evidence review should persist").focus,
        InvestigationWorkFocus::evidence(older_but_later_recorded),
        "institutional review should prioritize when evidence was discovered, not when its ID was allocated"
    );
    assert!(validate_state(&fixture.state), "discovery-priority state should validate");
}

#[test]
fn autonomous_evidence_review_does_not_repeat_an_inconclusive_attempt() {
    let registry = build_registry();
    let mut fixture = make_fixture(0, EvidenceStrength::Weak, EvidenceReliability::Questionable, Admissibility::Inadmissible);
    let scheduled = apply_evidence_review_scheduling(&registry, &mut fixture.state)
        .expect("weak reviewable evidence should still receive one review attempt");
    assert_eq!(scheduled.len(), 1);
    assert_eq!(resolve_now(&registry, &mut fixture.state, scheduled[0]), InvestigationWorkOutcome::Inconclusive);

    assert!(
        apply_evidence_review_scheduling(&registry, &mut fixture.state)
            .expect("completed inconclusive source should be exhausted")
            .is_empty(),
        "autonomous casework must not retry one inconclusive source forever"
    );
    assert_eq!(
        validate_schedule_investigation_work(&registry, &fixture.state, review_draft(&fixture, fixture.first_evidence))
            .expect_err("direct scheduling must not reroll an inconclusive completed review"),
        InvestigationWorkError::EvidenceReviewAlreadyAttempted { evidence: fixture.first_evidence, work: scheduled[0] }
    );
    assert_eq!(fixture.state.legal().evidence_review_attempt(fixture.first_evidence), Some(scheduled[0]));
    assert!(validate_state(&fixture.state), "inconclusive review state should remain valid");
}

#[test]
fn custody_cancelled_evidence_review_is_retryable_after_restaffing() {
    let registry = build_registry();
    let mut fixture =
        make_fixture(90, EvidenceStrength::Strong, EvidenceReliability::Credible, Admissibility::Admissible);
    let first_review = apply_evidence_review_scheduling(&registry, &mut fixture.state).expect("initial review should schedule")[0];

    let misconduct_case = validate_open_investigation(
        &fixture.state,
        InvestigationDraft {
            owner: fixture.police,
            title: "Detective misconduct inquiry".to_owned(),
            subjects: vec![EntityRef::Character(fixture.investigator)],
        },
    )
    .expect("misconduct case should validate")
    .commit(&mut fixture.state)
    .expect("misconduct case should commit");
    let (police, investigator, first, second) = (fixture.police, fixture.investigator, fixture.first, fixture.second_investigator);
    let misconduct_evidence = add_evidence(
        &mut fixture.state,
        TestEvidenceDraft {
            investigation: misconduct_case,
            police,
            subject: EntityRef::Character(investigator),
            origin: EntityRef::Character(first),
            kind: EvidenceKind::Document,
            strength: EvidenceStrength::Strong,
            reliability: EvidenceReliability::Credible,
            admissibility: Admissibility::Admissible,
        },
    );
    let misconduct_corroboration = add_evidence(
        &mut fixture.state,
        TestEvidenceDraft {
            investigation: misconduct_case,
            police,
            subject: EntityRef::Character(investigator),
            origin: EntityRef::Character(second),
            kind: EvidenceKind::KnownAssociation,
            strength: EvidenceStrength::Corroborating,
            reliability: EvidenceReliability::Credible,
            admissibility: Admissibility::Admissible,
        },
    );
    validate_arrest(
        &registry,
        &fixture.state,
        ArrestDraft {
            character: investigator,
            investigation: misconduct_case,
            evidence: vec![misconduct_evidence, misconduct_corroboration],
        },
    )
    .expect("detective arrest should validate")
    .commit(&mut fixture.state)
    .expect("detective arrest should cancel scheduled work");
    assert_eq!(
        fixture.state.legal().get_investigation_work(first_review).expect("cancelled review should remain history").status(),
        InvestigationWorkStatus::Cancelled
    );
    assert!(fixture.state.legal().scheduled_work_for_investigator(investigator).is_none());
    validate_assign_investigator(&fixture.state, fixture.investigation, second)
        .expect("replacement detective should validate")
        .commit(&mut fixture.state)
        .expect("replacement detective should commit");

    let retried = apply_evidence_review_scheduling(&registry, &mut fixture.state).expect("cancelled source should be retryable after restaffing");
    assert_eq!(retried.len(), 1);
    let retry = fixture.state.legal().get_investigation_work(retried[0]).expect("retried review should persist");
    assert_eq!(retry.investigator, second);
    assert_eq!(retry.focus, InvestigationWorkFocus::evidence(fixture.first_evidence));
    assert_eq!(fixture.state.legal().evidence_review_attempt(fixture.first_evidence), Some(retried[0]));
    assert!(validate_state(&fixture.state), "retried review state should remain valid");
}

#[test]
fn witness_interview_scheduling_stops_after_the_authored_attempt_limit() {
    let registry = build_registry();
    let mut fixture = make_fixture(0, EvidenceStrength::Weak, EvidenceReliability::Mixed, Admissibility::Unknown);
    let case_witness = validate_register_case_witness(
        &fixture.state,
        CaseWitnessDraft {
            investigation: fixture.investigation,
            witness: fixture.witness,
            subject: EntityRef::Character(fixture.first),
            cooperation: WitnessCooperation::Hostile,
        },
    )
    .expect("case witness registration should validate")
    .commit(&mut fixture.state)
    .expect("case witness registration should commit");

    let limit = u32::from(registry.legal().witness_interview_attempt_limit());
    for attempt in 1..=limit {
        let scheduled = apply_witness_interview_scheduling(&registry, &mut fixture.state).expect("interview scheduling pass should resolve");
        assert_eq!(scheduled.len(), 1, "attempt {attempt} should schedule exactly one interview");
        resolve_now(&registry, &mut fixture.state, scheduled[0]);
    }
    let witness = fixture.state.legal().get_case_witness(case_witness).expect("case witness should persist");
    assert_eq!(u32::from(witness.interview_attempts), limit, "every completed interview counts against the budget");
    assert!(apply_witness_interview_scheduling(&registry, &mut fixture.state)
        .expect("exhausted scheduling pass should resolve")
        .is_empty());
    let direct_error = validate_schedule_investigation_work(&registry, &fixture.state, interview_draft(&fixture, case_witness))
        .expect_err("direct canonical scheduling must enforce the same authored attempt limit");
    assert_eq!(
        direct_error,
        InvestigationWorkError::WitnessInterviewLimitReached {
            witness: case_witness,
            attempts: u8::try_from(limit).expect("authored attempt limit must fit u8"),
            limit: registry.legal().witness_interview_attempt_limit(),
        }
    );
    assert!(validate_state(&fixture.state), "capped interview state should validate");
    assert!(validate_state_against_registry(&registry, &fixture.state).is_ok());
}

#[test]
fn witness_interview_scheduling_prioritizes_unattempted_witness_before_retry() {
    let registry = build_registry();
    let mut fixture = make_fixture(0, EvidenceStrength::Weak, EvidenceReliability::Mixed, Admissibility::Unknown);
    let (investigation, witness, first, middle) = (fixture.investigation, fixture.witness, fixture.first, fixture.middle);
    let first_witness = validate_register_case_witness(
        &fixture.state,
        CaseWitnessDraft { investigation, witness, subject: EntityRef::Character(first), cooperation: WitnessCooperation::Hostile },
    )
    .expect("first witness registration should validate")
    .commit(&mut fixture.state)
    .expect("first witness registration should commit");
    let first_interview = apply_witness_interview_scheduling(&registry, &mut fixture.state).expect("first interview scheduling should resolve")[0];
    assert_eq!(resolve_now(&registry, &mut fixture.state, first_interview), InvestigationWorkOutcome::Inconclusive);
    assert_eq!(fixture.state.legal().get_case_witness(first_witness).expect("first witness should persist").interview_attempts, 1);

    let untouched_witness = validate_register_case_witness(
        &fixture.state,
        CaseWitnessDraft { investigation, witness: middle, subject: EntityRef::Character(first), cooperation: WitnessCooperation::Hostile },
    )
    .expect("second witness registration should validate")
    .commit(&mut fixture.state)
    .expect("second witness registration should commit");

    let scheduled = apply_witness_interview_scheduling(&registry, &mut fixture.state).expect("fresh-witness scheduling should resolve");
    assert_eq!(scheduled.len(), 1);
    assert_eq!(
        fixture.state.legal().get_investigation_work(scheduled[0]).expect("scheduled interview should persist").focus,
        InvestigationWorkFocus::witness(untouched_witness),
        "an untouched witness should be interviewed before retrying an earlier failed witness"
    );
    assert!(validate_state(&fixture.state), "fresh-witness priority state should validate");
}

#[test]
fn evidence_review_develops_case_owned_evidence_without_inventing_subjects() {
    let registry = build_registry();
    let mut fixture =
        make_fixture(90, EvidenceStrength::Strong, EvidenceReliability::Credible, Admissibility::Admissible);
    let now = fixture.state.now();
    let fingerprint = validate_add_evidence(
        &fixture.state,
        EvidenceDraft {
            investigation: fixture.investigation,
            custodian: fixture.police,
            subject: EntityRef::Character(fixture.first),
            origin: None,
            kind: EvidenceKind::Fingerprint,
            strength: EvidenceStrength::Corroborating,
            reliability: EvidenceReliability::Mixed,
            admissibility: Admissibility::Unknown,
            discovered_at: now,
        },
    )
    .expect("fingerprint evidence should validate")
    .commit(&mut fixture.state)
    .expect("fingerprint evidence should commit");
    let subjects_before = fixture.state.legal().get_investigation(fixture.investigation).expect("investigation should persist").subjects().clone();
    let draft = review_draft(&fixture, fingerprint);
    let work = validate_schedule_investigation_work(&registry, &fixture.state, draft)
        .expect("case-owned fingerprint should support evidence review")
        .commit(&mut fixture.state)
        .expect("evidence review should schedule");
    assert_eq!(
        fixture.state.legal().get_investigation_work(work).expect("scheduled evidence review should persist").due_at(),
        SimTime::from_minutes(180)
    );
    assert_eq!(resolve_now(&registry, &mut fixture.state, work), InvestigationWorkOutcome::Developed);
    let record = fixture.state.legal().get_investigation_work(work).expect("completed evidence review should persist");
    let resolution = record.resolution().expect("review should have a resolution");
    assert_eq!(resolution.outcome(), InvestigationWorkOutcome::Developed);
    let derived_id = resolution.derived_evidence().expect("successful evidence review should derive forensic analysis");
    let source = fixture.state.legal().get_evidence(fingerprint).expect("source fingerprint should persist");
    let derived = fixture.state.legal().get_evidence(derived_id).expect("forensic analysis should persist");
    assert_eq!(derived.kind(), EvidenceKind::ForensicAnalysis);
    assert_eq!(derived.subject(), source.subject());
    assert_eq!(derived.origin(), source.origin());
    assert_eq!(derived.strength(), source.strength());
    assert_eq!(derived.reliability(), EvidenceReliability::Credible);
    assert_eq!(derived.admissibility(), source.admissibility());
    assert_eq!(derived.derived_from(), Some(fingerprint));
    assert_eq!(
        fixture.state.legal().get_investigation(fixture.investigation).expect("investigation should persist after review").subjects(),
        &subjects_before
    );
    assert!(matches!(
        validate_schedule_investigation_work(&registry, &fixture.state, draft),
        Err(InvestigationWorkError::EvidenceAlreadyReviewed { evidence, derived }) if evidence == fingerprint && derived == derived_id
    ));
    assert!(validate_state(&fixture.state), "evidence review state should validate");
    assert!(validate_state_against_registry(&registry, &fixture.state).is_ok());
}

#[test]
fn autonomous_witness_scheduler_starts_only_one_interview_per_detective() {
    let registry = build_registry();
    let mut fixture =
        make_fixture(85, EvidenceStrength::Strong, EvidenceReliability::Credible, Admissibility::Admissible);
    let first = fixture.first;
    for name in ["First Capacity Witness", "Second Capacity Witness"] {
        let witness = plain_person(&mut fixture.state, name, None);
        register_witness(&mut fixture, witness, EntityRef::Character(first));
    }
    let scheduled = apply_witness_interview_scheduling(&registry, &mut fixture.state).expect("autonomous witness scheduling should resolve");
    assert_eq!(scheduled.len(), 1);
    assert!(apply_witness_interview_scheduling(&registry, &mut fixture.state)
        .expect("busy detective should be a normal scheduling deferral")
        .is_empty());
    let live = fixture
        .state
        .legal()
        .work
        .iter()
        .filter(|work| work.investigator == fixture.investigator && work.status() == InvestigationWorkStatus::Scheduled)
        .count();
    assert_eq!(live, 1, "a single detective must not interview multiple witnesses in parallel");
    assert!(validate_state(&fixture.state), "serialized witness scheduling should validate");
}

#[test]
fn detention_cancellation_token_stales_when_case_changes_before_commit() {
    let registry = build_registry();
    let mut fixture =
        make_fixture(80, EvidenceStrength::Strong, EvidenceReliability::Credible, Admissibility::Admissible);
    let work = validate_schedule_investigation_work(&registry, &fixture.state, review_draft(&fixture, fixture.first_evidence))
        .expect("review work should validate")
        .commit(&mut fixture.state)
        .expect("review work should schedule");
    let cancellation = validate_cancel_investigation_work_for_detention(&fixture.state, fixture.investigator)
        .expect("detention cancellation should validate")
        .expect("scheduled investigator should have work to cancel");
    assert_eq!(cancellation.work(), work);
    let expected_version = case_version_of(&fixture.state, fixture.investigation);

    let (investigation, police, target, middle) = (fixture.investigation, fixture.police, fixture.target, fixture.middle);
    add_evidence(
        &mut fixture.state,
        TestEvidenceDraft {
            investigation,
            police,
            subject: EntityRef::Character(target),
            origin: EntityRef::Character(middle),
            kind: EvidenceKind::Document,
            strength: EvidenceStrength::Strong,
            reliability: EvidenceReliability::Credible,
            admissibility: Admissibility::Admissible,
        },
    );
    let found_version = case_version_of(&fixture.state, fixture.investigation);
    assert_eq!(found_version, expected_version + 1);
    assert_eq!(
        cancellation.ensure_current(&fixture.state).expect_err("case mutation must stale the cancellation token"),
        InvestigationWorkError::StaleInvestigation {
            investigation: fixture.investigation,
            expected: expected_version,
            found: found_version,
        }
    );
    assert_eq!(
        fixture.state.legal().get_investigation_work(work).expect("stale cancellation must preserve work").status(),
        InvestigationWorkStatus::Scheduled
    );
    assert!(validate_state(&fixture.state), "stale cancellation must leave valid state");
}

#[test]
fn detention_cancellation_cancels_the_detainees_work_with_the_arrest_as_reason() {
    let registry = build_registry();
    let mut fixture =
        make_fixture(80, EvidenceStrength::Strong, EvidenceReliability::Credible, Admissibility::Admissible);
    assert!(validate_cancel_investigation_work_for_detention(&fixture.state, fixture.investigator)
        .expect("an idle investigator validates")
        .is_none());
    let work = validate_schedule_investigation_work(&registry, &fixture.state, review_draft(&fixture, fixture.first_evidence))
        .expect("review work should validate")
        .commit(&mut fixture.state)
        .expect("review work should schedule");
    let before = case_version_of(&fixture.state, fixture.investigation);
    let cancellation = validate_cancel_investigation_work_for_detention(&fixture.state, fixture.investigator)
        .expect("detention cancellation should validate")
        .expect("scheduled investigator should have work to cancel");
    let arrest = crimocracy::base::ArrestId(7);
    cancellation.commit(&mut fixture.state, arrest).expect("current cancellation should commit");
    let record = fixture.state.legal().get_investigation_work(work).expect("cancelled work remains history");
    assert_eq!(record.status(), InvestigationWorkStatus::Cancelled);
    assert_eq!(
        record.cancellation.expect("cancelled work records why").reason,
        InvestigationWorkCancellationReason::InvestigatorDetained(arrest)
    );
    assert_eq!(case_version_of(&fixture.state, fixture.investigation), before + 1);
    assert!(validate_state(&fixture.state));
}

#[test]
fn autonomous_work_scheduler_skips_unschedulable_terminal_horizon() {
    let registry = build_registry();
    let mut fixture =
        make_fixture(80, EvidenceStrength::Strong, EvidenceReliability::Credible, Admissibility::Admissible);
    let duration = registry.get_investigation_work(InvestigationWorkKind::EvidenceReview).duration();
    fixture.state.set_now(SimTime::from_minutes(u64::MAX - u64::from(duration.as_minutes()) + 1));
    let direct_error = match validate_schedule_investigation_work(
        &registry,
        &fixture.state,
        review_draft(&fixture, fixture.first_evidence),
    ) {
        Ok(_) => panic!("direct scheduling must still report the unrepresentable due time"),
        Err(error) => error,
    };
    assert_eq!(direct_error, InvestigationWorkError::SimulationTimeOverflow);
    let version_before = case_version_of(&fixture.state, fixture.investigation);
    let work_before = fixture.state.legal().work.len();

    let scheduled = apply_investigation_work_scheduling(&registry, &mut fixture.state)
        .expect("terminal clock capacity is a valid no-action autonomous scheduling state");
    assert!(scheduled.evidence_reviews.is_empty());
    assert!(scheduled.witness_interviews.is_empty());
    assert_eq!(fixture.state.legal().work.len(), work_before);
    assert_eq!(
        case_version_of(&fixture.state, fixture.investigation),
        version_before,
        "autonomous scheduling must not mutate when no work can finish before the clock horizon"
    );
    assert!(validate_state(&fixture.state), "terminal scheduling state should remain valid");
}

#[test]
fn restore_rejects_malformed_evidence_review_focus_without_panicking() {
    let registry = build_registry();
    let mut fixture =
        make_fixture(80, EvidenceStrength::Strong, EvidenceReliability::Credible, Admissibility::Admissible);
    let work = validate_schedule_investigation_work(&registry, &fixture.state, review_draft(&fixture, fixture.first_evidence))
        .expect("canonical evidence review should validate")
        .commit(&mut fixture.state)
        .expect("canonical evidence review should schedule");
    assert!(fixture.state.legal().get_investigation_work(work).is_some(), "scheduled evidence review should persist");
    assert!(validate_state(&fixture.state), "canonical evidence-review state should validate");

    let index = (work.0 - 1) as usize;
    fixture.state.legal.work[index].focus = InvestigationWorkFocus::witness(CaseWitnessId(u32::MAX));
    assert!(!validate_state(&fixture.state), "malformed evidence-review focus must fail validation without panicking");
    assert_eq!(
        validate_state_against_registry(&registry, &fixture.state),
        Err(crimocracy::invariants::StateValidationError::InvalidState)
    );
}

#[test]
fn later_witness_pressure_does_not_rewrite_completed_interview_support() {
    let registry = build_registry();
    let mut fixture =
        make_fixture(90, EvidenceStrength::Strong, EvidenceReliability::Credible, Admissibility::Admissible);
    let (witness, first) = (fixture.witness, fixture.first);
    let case_witness = register_witness(&mut fixture, witness, EntityRef::Character(first));
    let work = validate_schedule_investigation_work(&registry, &fixture.state, interview_draft(&fixture, case_witness))
        .expect("witness interview should schedule")
        .commit(&mut fixture.state)
        .expect("witness interview should commit");
    let duration = registry.get_investigation_work(InvestigationWorkKind::WitnessInterview).duration();
    fixture.state.advance_clock(duration);
    let plan = decide_investigation_work_resolution(&registry, &fixture.state, work, InvestigationWorkRandomness::new(0))
        .expect("due cooperative interview should resolve");
    assert_eq!(plan.outcome(), InvestigationWorkOutcome::Connected);
    validate_investigation_work_resolution_plan(&registry, &fixture.state, plan)
        .expect("fresh interview resolution should validate")
        .commit(&mut fixture.state)
        .expect("interview resolution should commit");
    let historical_support = fixture
        .state
        .legal()
        .get_investigation_work(work)
        .and_then(|record| record.resolution())
        .expect("completed interview should retain its resolution")
        .factors
        .source_support();
    assert_eq!(historical_support.value(), 85);

    validate_set_witness_cooperation(&fixture.state, case_witness, WitnessCooperation::Hostile)
        .expect("later witness pressure should be able to change cooperation")
        .commit(&mut fixture.state)
        .expect("later cooperation change should commit");
    assert_eq!(
        fixture.state.legal().get_case_witness(case_witness).expect("witness should persist").cooperation,
        WitnessCooperation::Hostile
    );
    assert_eq!(
        fixture
            .state
            .legal()
            .get_investigation_work(work)
            .and_then(|record| record.resolution())
            .expect("historical interview should persist")
            .factors
            .source_support(),
        historical_support,
        "later intimidation must affect future interviews, not the completed interview"
    );
    assert_eq!(
        validate_state_against_registry(&registry, &fixture.state),
        Ok(()),
        "later cooperation changes must not retroactively invalidate completed work"
    );
}
