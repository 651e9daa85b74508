use crimocracy::base::{CharacterId, EntityRef, InvestigationId, OrganizationId, Rating, SimDuration};
use crimocracy::intelligence::{CaseActivitySignal, InformationSignal, InformationTopic, KnowledgeHolder};
use crimocracy::invariants::{validate_state, validate_state_against_registry};
use crimocracy::legal::investigation_system::autonomous_staffing::apply_autonomous_investigator_staffing;
use crimocracy::legal::investigation_system::cold_case_decay::apply_cold_case_decay;
use crimocracy::legal::investigation_system::incident_intake::{
    validate_incident_intake, IncidentEvidenceDraft, IncidentIntakeDraft,
};
use crimocracy::legal::investigation_system::{
    validate_add_evidence, validate_open_investigation, EvidenceDraft, InvestigationDraft,
};
use crimocracy::legal::investigation_work_execution::autonomous_scheduling::apply_investigation_work_scheduling;
use crimocracy::legal::investigation_work_execution::resolution::{
    decide_investigation_work_resolution, validate_investigation_work_resolution_plan,
    InvestigationWorkRandomness,
};
use crimocracy::legal::witness_system::{validate_register_case_witness, CaseWitnessDraft};
use crimocracy::legal::{
    Admissibility, EvidenceKind, EvidenceReliability, EvidenceStrength, InvestigationWorkFocus,
    InvestigationWorkKind, WitnessCooperation,
};
use crimocracy::registry::build_registry;
use crimocracy::state::{insert_character, insert_operation, insert_organization, AppState};
use crimocracy::world::{CharacterDraft, OrganizationDraft, OrganizationKind};

fn rating(value: u8) -> Rating {
    Rating::try_new(value).expect("test rating must be valid")
}

fn organization(state: &mut AppState, name: &str, kind: OrganizationKind) -> OrganizationId {
    insert_organization(state, OrganizationDraft { name: name.to_owned(), kind }).expect("organization fixture should validate")
}

fn person(state: &mut AppState, name: &str, organization: Option<OrganizationId>) -> CharacterId {
    insert_character(state, CharacterDraft { name: name.to_owned(), organization, investigation: None, safety: None })
        .expect("character fixture should validate")
}

fn insert_test_investigator(state: &mut AppState, organization: OrganizationId, name: &str, skill: u8) -> CharacterId {
    insert_character(
        state,
        CharacterDraft { name: name.to_owned(), organization: Some(organization), investigation: Some(rating(skill)), safety: None },
    )
    .expect("investigator fixture should validate")
}

fn open_case(state: &mut AppState, owner: OrganizationId, title: &str, subjects: Vec<EntityRef>) -> InvestigationId {
    validate_open_investigation(state, InvestigationDraft { owner, title: title.to_owned(), subjects })
        .expect("investigation should validate")
        .commit(state)
        .expect("investigation should commit")
}

fn add_evidence(state: &mut AppState, investigation: InvestigationId, custodian: OrganizationId, subject: EntityRef, strength: EvidenceStrength) {
    let now = state.now();
    validate_add_evidence(
        state,
        EvidenceDraft {
            investigation,
            custodian,
            subject,
            origin: None,
            kind: EvidenceKind::Fingerprint,
            strength,
            reliability: EvidenceReliability::Credible,
            admissibility: Admissibility::Admissible,
            discovered_at: now,
        },
    )
    .expect("evidence should validate")
    .commit(state)
    .expect("evidence should commit");
}

fn lead_of(state: &AppState, investigation: InvestigationId) -> Option<CharacterId> {
    state.legal().get_investigation(investigation).expect("case should persist").lead_investigator()
}

struct KnowledgeFixture {
    state: AppState,
    detective: CharacterId,
}

fn make_test_knowledge_fixture() -> KnowledgeFixture {
    let mut state = AppState::new(0xCADE_5EED);
    let police = organization(&mut state, "Knowledge Precinct", OrganizationKind::LawEnforcement);
    let criminal = organization(&mut state, "Knowledge Crew", OrganizationKind::Criminal);
    person(&mut state, "Knowledge Boss", Some(criminal));
    let detective = insert_test_investigator(&mut state, police, "Knowledge Detective", 80);
    KnowledgeFixture { state, detective }
}

fn police_of(state: &AppState) -> OrganizationId {
    state
        .world
        .organizations
        .iter()
        .find(|org| org.kind == OrganizationKind::LawEnforcement)
        .map(|org| org.id)
        .expect("police fixture must exist")
}

fn criminal_of(state: &AppState) -> OrganizationId {
    state
        .world
        .organizations
        .iter()
        .find(|org| org.kind == OrganizationKind::Criminal)
        .map(|org| org.id)
        .expect("criminal fixture must exist")
}

fn open_operation_case(state: &mut AppState) -> InvestigationId {
    let police = police_of(state);
    let criminal = criminal_of(state);
    let origin = insert_operation(state, criminal).expect("origin operation should commit");
    let now = state.now();
    validate_incident_intake(
        state,
        IncidentIntakeDraft {
            owner: police,
            title: "Incident linked to a test burglary".to_owned(),
            subjects: vec![EntityRef::Operation(origin)],
            evidence: vec![IncidentEvidenceDraft {
                subject: EntityRef::Operation(origin),
                origin: Some(EntityRef::Operation(origin)),
                kind: EvidenceKind::Surveillance,
                strength: EvidenceStrength::Weak,
                reliability: EvidenceReliability::Questionable,
                admissibility: Admissibility::Unknown,
                discovered_at: now,
            }],
            origin: Some(EntityRef::Operation(origin)),
            notified_organizations: vec![criminal],
            witness: None,
        },
    )
    .expect("incident intake should validate")
    .commit(state)
    .expect("incident intake should commit")
    .investigation
}

fn activity_knowledge(state: &AppState, holder: CharacterId) -> Vec<(CaseActivitySignal, String)> {
    state
        .intelligence()
        .information_for_holder_by_topic(KnowledgeHolder::Character(holder), InformationTopic::LegalActivity)
        .into_iter()
        .map(|id| {
            let record = state.intelligence().get_information(id).expect("held knowledge should persist");
            match record.signal() {
                Some(InformationSignal::CaseActivity(activity)) => (*activity, record.summary().to_owned()),
                other => panic!("lead knowledge should carry a case-activity signal, found {:?}", other),
            }
        })
        .collect()
}

#[test]
fn autonomous_staffing_assigns_best_available_detective_and_respects_active_case_capacity() {
    let registry = build_registry();
    let mut state = AppState::new(0x57AF_F193);
    let police = organization(&mut state, "Staffing Bureau", OrganizationKind::LawEnforcement);
    let criminal = organization(&mut state, "Staffing Crew", OrganizationKind::Criminal);
    let junior = insert_test_investigator(&mut state, police, "Junior", 70);
    let senior = insert_test_investigator(&mut state, police, "Senior", 92);
    let first = open_case(&mut state, police, "First autonomous staffing inquiry", vec![EntityRef::Organization(criminal)]);

    let staffed = apply_autonomous_investigator_staffing(&mut state).expect("available detectives should staff the first case");
    assert_eq!(staffed, vec![(first, senior)]);
    assert_eq!(lead_of(&state, first), Some(senior));

    let second = open_case(&mut state, police, "Second autonomous staffing inquiry", vec![EntityRef::Organization(criminal)]);
    let staffed =
        apply_autonomous_investigator_staffing(&mut state).expect("remaining detective should staff the second case");
    assert_eq!(staffed, vec![(second, junior)]);
    assert_eq!(lead_of(&state, second), Some(junior));
    assert!(apply_autonomous_investigator_staffing(&mut state).expect("already staffed cases should be a no-op").is_empty());
    assert!(validate_state(&state), "autonomous staffing state should validate");
    validate_state_against_registry(&registry, &state).expect("autonomous staffing state should match authored state");
}

#[test]
fn staffing_records_lead_held_active_case_knowledge() {
    let _registry = build_registry();
    let mut fixture = make_test_knowledge_fixture();
    let investigation = open_operation_case(&mut fixture.state);
    assert!(activity_knowledge(&fixture.state, fixture.detective).is_empty());

    let staffed = apply_autonomous_investigator_staffing(&mut fixture.state).expect("staffing pass must succeed");
    assert_eq!(staffed, vec![(investigation, fixture.detective)]);

    let held = activity_knowledge(&fixture.state, fixture.detective);
    assert_eq!(held.len(), 1, "staffing records exactly one activity knowledge record");
    assert_eq!(held[0].0, CaseActivitySignal::Active);
    assert!(held[0].1.contains("Knowledge Precinct"));
    assert!(validate_state(&fixture.state));
}

#[test]
fn cold_shelving_refreshes_the_leads_knowledge_to_shelved() {
    let registry = build_registry();
    let mut fixture = make_test_knowledge_fixture();
    let investigation = open_operation_case(&mut fixture.state);
    apply_autonomous_investigator_staffing(&mut fixture.state).expect("staffing pass must succeed");

    let window = registry.legal().cold_case_window();
    fixture.state.advance_clock(SimDuration::from_minutes(window.as_minutes() + 60));
    let decay = apply_cold_case_decay(&mut fixture.state, window).expect("decay must succeed");
    assert_eq!(decay.suspended, vec![investigation]);

    let held = activity_knowledge(&fixture.state, fixture.detective);
    assert_eq!(held.len(), 2, "active plus refreshed shelved knowledge");
    assert!(held.iter().any(|(activity, _)| *activity == CaseActivitySignal::Shelved), "shelving refreshes the lead's knowledge");
    assert!(validate_state(&fixture.state));
}

#[test]
fn late_reviewable_evidence_is_scheduled_after_case_was_already_staffed() {
    let registry = build_registry();
    let mut state = AppState::new(0x1A7E_1A7E);
    let police = organization(&mut state, "Late Evidence Bureau", OrganizationKind::LawEnforcement);
    let criminal = organization(&mut state, "Late Evidence Crew", OrganizationKind::Criminal);
    let investigator = insert_test_investigator(&mut state, police, "Detective Later", 80);
    let suspect = person(&mut state, "Late Evidence Suspect", Some(criminal));
    let witness = person(&mut state, "Early Witness", None);
    let investigation = open_case(&mut state, police, "Evidence arrives later", vec![EntityRef::Character(suspect)]);
    validate_register_case_witness(
        &state,
        CaseWitnessDraft {
            investigation,
            witness,
            subject: EntityRef::Character(suspect),
            cooperation: WitnessCooperation::Cooperative,
        },
    )
    .expect("witness registration should validate")
    .commit(&mut state)
    .expect("witness registration should commit");

    // First minute: the case is staffed and its witness interview starts; nothing is reviewable.
    let staffed = apply_autonomous_investigator_staffing(&mut state).expect("staffing should resolve");
    assert_eq!(staffed, vec![(investigation, investigator)]);
    let first = apply_investigation_work_scheduling(&registry, &mut state).expect("scheduling should resolve");
    assert!(first.evidence_reviews.is_empty());
    assert_eq!(first.witness_interviews.len(), 1);
    let interview = first.witness_interviews[0];

    let now = state.now();
    let fingerprint = validate_add_evidence(
        &state,
        EvidenceDraft {
            investigation,
            custodian: police,
            subject: EntityRef::Character(suspect),
            origin: None,
            kind: EvidenceKind::Fingerprint,
            strength: EvidenceStrength::Strong,
            reliability: EvidenceReliability::Credible,
            admissibility: Admissibility::Admissible,
            discovered_at: now,
        },
    )
    .expect("late fingerprint should validate")
    .commit(&mut state)
    .expect("late fingerprint should commit");

    // Second minute: nothing to staff, and the busy detective defers the late evidence.
    assert!(
        apply_autonomous_investigator_staffing(&mut state).expect("staffing should resolve").is_empty(),
        "the case was already staffed before the evidence arrived"
    );
    let second = apply_investigation_work_scheduling(&registry, &mut state).expect("scheduling should resolve");
    assert!(second.evidence_reviews.is_empty());
    assert!(second.witness_interviews.is_empty());

    let due = state.legal().get_investigation_work(interview).expect("interview should persist").due_at();
    state.set_now(due);
    let plan = decide_investigation_work_resolution(&registry, &state, interview, InvestigationWorkRandomness::new(0))
        .expect("due interview should resolve");
    validate_investigation_work_resolution_plan(&registry, &state, plan)
        .expect("resolution should validate")
        .commit(&mut state)
        .expect("resolution should commit");

    let review_pass = apply_investigation_work_scheduling(&registry, &mut state).expect("scheduling should resolve");
    assert_eq!(review_pass.evidence_reviews.len(), 1);
    assert!(review_pass.witness_interviews.is_empty());
    let review = state.legal().get_investigation_work(review_pass.evidence_reviews[0]).expect("late-evidence review should persist");
    assert_eq!(review.kind, InvestigationWorkKind::EvidenceReview);
    assert_eq!(review.focus, InvestigationWorkFocus::evidence(fingerprint));
    assert_eq!(
        state
            .legal()
            .work
            .iter()
            .filter(|work| work.investigation == investigation && work.kind == InvestigationWorkKind::WitnessInterview)
            .count(),
        1,
        "the completed interview remains history while the deferred review starts"
    );
    assert!(validate_state(&state), "late evidence scheduling state should validate");
    validate_state_against_registry(&registry, &state).expect("late evidence scheduling should remain registry-valid");
}

#[test]
fn scarce_detective_goes_to_the_case_with_more_actionable_evidence() {
    let mut state = AppState::new(0x5CA2_CE01);
    let police = organization(&mut state, "Scarcity Bureau", OrganizationKind::LawEnforcement);
    let criminal = organization(&mut state, "Scarcity Crew", OrganizationKind::Criminal);
    let detective = insert_test_investigator(&mut state, police, "Only Detective", 75);
    let suspect = person(&mut state, "Scarcity Suspect", Some(criminal));
    let earlier = open_case(&mut state, police, "Earlier thin inquiry", vec![EntityRef::Organization(criminal)]);
    let later = open_case(&mut state, police, "Later substantial inquiry", vec![EntityRef::Character(suspect)]);
    add_evidence(&mut state, earlier, police, EntityRef::Organization(criminal), EvidenceStrength::Weak);
    add_evidence(&mut state, later, police, EntityRef::Character(suspect), EvidenceStrength::Strong);

    let staffed = apply_autonomous_investigator_staffing(&mut state).expect("staffing should resolve");
    assert_eq!(staffed, vec![(later, detective)], "substance outranks case creation order");
    assert_eq!(lead_of(&state, earlier), None);
    assert!(validate_state(&state));
}

#[test]
fn staffing_skips_detectives_who_are_case_subjects_and_leaves_other_authorities_alone() {
    let mut state = AppState::new(0x5CA2_CE02);
    let police = organization(&mut state, "Subject Bureau", OrganizationKind::LawEnforcement);
    let other = organization(&mut state, "Neighbouring Bureau", OrganizationKind::LawEnforcement);
    let suspect_detective = insert_test_investigator(&mut state, police, "Suspected Detective", 95);
    let clean_detective = insert_test_investigator(&mut state, police, "Clean Detective", 60);
    insert_test_investigator(&mut state, other, "Foreign Detective", 99);
    let case = open_case(&mut state, police, "Internal affairs inquiry", vec![EntityRef::Character(suspect_detective)]);

    let staffed = apply_autonomous_investigator_staffing(&mut state).expect("staffing should resolve");
    assert_eq!(staffed, vec![(case, clean_detective)]);
    assert!(validate_state(&state));
}

#[test]
fn staffing_without_a_fitting_detective_changes_nothing() {
    let mut state = AppState::new(0x5CA2_CE03);
    let police = organization(&mut state, "Empty Bureau", OrganizationKind::LawEnforcement);
    let criminal = organization(&mut state, "Empty Crew", OrganizationKind::Criminal);
    person(&mut state, "Desk Clerk", Some(police));
    let case = open_case(&mut state, police, "Unstaffable inquiry", vec![EntityRef::Organization(criminal)]);
    let records = state.intelligence().information_count();

    let staffed = apply_autonomous_investigator_staffing(&mut state).expect("staffing should resolve");
    assert!(staffed.is_empty());
    assert_eq!(lead_of(&state, case), None);
    assert_eq!(state.intelligence().information_count(), records);
}
