use crimocracy::base::{EntityRef, OrganizationId, SimTime};
use crimocracy::invariants::{validate_state, validate_state_against_registry};
use crimocracy::legal::investigation_system::incident_intake::{
    validate_incident_intake, IncidentEvidenceDraft, IncidentIntakeDraft, IncidentWitnessDraft,
};
use crimocracy::legal::investigation_system::{
    validate_transition_investigation, InvestigationError, InvestigationTransition,
};
use crimocracy::legal::{
    Admissibility, EvidenceKind, EvidenceReliability, EvidenceStrength, InvestigationStatus,
    WitnessCooperation,
};
use crimocracy::registry::build_registry;
use crimocracy::state::{insert_character, insert_operation, insert_organization, AppState};
use crimocracy::world::{CharacterDraft, OrganizationDraft, OrganizationKind};

fn organization(state: &mut AppState, name: &str, kind: OrganizationKind) -> OrganizationId {
    insert_organization(state, OrganizationDraft { name: name.to_owned(), kind }).expect("organization fixture should validate")
}

fn evidence_about(subject: EntityRef, origin: Option<EntityRef>, kind: EvidenceKind, strength: EvidenceStrength, reliability: EvidenceReliability, now: SimTime) -> IncidentEvidenceDraft {
    IncidentEvidenceDraft {
        subject,
        origin,
        kind,
        strength,
        reliability,
        admissibility: Admissibility::Unknown,
        discovered_at: now,
    }
}

#[test]
fn incident_intake_cannot_forge_informant_statement() {
    let mut state = AppState::new(0x14F0_5EED);
    let police = organization(&mut state, "Intake Bureau", OrganizationKind::LawEnforcement);
    let criminal = organization(&mut state, "Intake Crew", OrganizationKind::Criminal);
    let now = state.now();

    let error = match validate_incident_intake(
        &state,
        IncidentIntakeDraft {
            owner: police,
            title: "Forged statement inquiry".to_owned(),
            subjects: vec![EntityRef::Organization(criminal)],
            evidence: vec![evidence_about(
                EntityRef::Organization(criminal),
                None,
                EvidenceKind::InformantStatement,
                EvidenceStrength::Strong,
                EvidenceReliability::Credible,
                now,
            )],
            origin: None,
            notified_organizations: Vec::new(),
            witness: None,
        },
    ) {
        Ok(_) => panic!("incident intake must reject informant statements"),
        Err(error) => error,
    };
    assert_eq!(error, InvestigationError::InformantStatementRequiresDisclosure);
    assert_eq!(
        state.legal().evidence.iter().filter(|record| record.kind() == EvidenceKind::InformantStatement).count(),
        0
    );
    assert!(state.legal().investigations.is_empty());
    assert!(validate_state(&state));
}

#[test]
fn incident_intake_resumes_a_matching_suspended_shelf_instead_of_opening_a_parallel_case() {
    let registry = build_registry();
    let mut state = AppState::new(0x0E51_4E2F);
    let police = organization(&mut state, "Shelf Bureau", OrganizationKind::LawEnforcement);
    let criminal = organization(&mut state, "Shelf Crew", OrganizationKind::Criminal);
    let origin = insert_operation(&mut state, criminal).expect("origin operation should commit");

    let make_draft = |title: &str, now: SimTime| IncidentIntakeDraft {
        owner: police,
        title: title.to_owned(),
        subjects: vec![EntityRef::Operation(origin)],
        evidence: vec![evidence_about(
            EntityRef::Operation(origin),
            Some(EntityRef::Operation(origin)),
            EvidenceKind::Surveillance,
            EvidenceStrength::Weak,
            EvidenceReliability::Questionable,
            now,
        )],
        origin: Some(EntityRef::Operation(origin)),
        notified_organizations: vec![criminal],
        witness: None,
    };

    let first = validate_incident_intake(&state, make_draft("First exposure inquiry", state.now()))
        .expect("first intake should validate")
        .commit(&mut state)
        .expect("first intake should commit");
    assert!(!first.resumed_shelf);

    validate_transition_investigation(&state, first.investigation, InvestigationTransition::Suspend)
        .expect("shelving should validate")
        .commit(&mut state)
        .expect("shelving should commit");

    let second = validate_incident_intake(&state, make_draft("Second exposure inquiry", state.now()))
        .expect("second intake should validate")
        .commit(&mut state)
        .expect("second intake should resume the shelf");
    assert_eq!(second.investigation, first.investigation);
    assert!(second.resumed_shelf);
    assert_eq!(
        state.legal().evidence_for_investigation(first.investigation).len(),
        2,
        "the shelf carries its original and the new exposure evidence"
    );
    assert!(state
        .legal()
        .investigations
        .iter()
        .any(|case| case.id() == first.investigation && case.status() == InvestigationStatus::Active));
    assert_eq!(state.legal().investigations.iter().filter(|case| case.owner() == police).count(), 1);

    let now = state.now();
    let unrelated = validate_incident_intake(
        &state,
        IncidentIntakeDraft {
            owner: police,
            title: "Unrelated inquiry".to_owned(),
            subjects: vec![EntityRef::Organization(criminal)],
            evidence: vec![evidence_about(
                EntityRef::Organization(criminal),
                None,
                EvidenceKind::Document,
                EvidenceStrength::Corroborating,
                EvidenceReliability::Credible,
                now,
            )],
            origin: None,
            notified_organizations: Vec::new(),
            witness: None,
        },
    )
    .expect("unrelated intake should validate")
    .commit(&mut state)
    .expect("unrelated intake should open a fresh case");
    assert!(!unrelated.resumed_shelf);
    assert_ne!(unrelated.investigation, first.investigation);
    assert!(validate_state(&state), "resumed shelf state should remain structurally valid");
    assert_eq!(validate_state_against_registry(&registry, &state), Ok(()));
}

#[test]
fn incident_intake_registers_its_witness_and_rejects_an_unsubstantiated_person() {
    let mut state = AppState::new(0x0E51_4E30);
    let police = organization(&mut state, "Witness Bureau", OrganizationKind::LawEnforcement);
    let criminal = organization(&mut state, "Witness Crew", OrganizationKind::Criminal);
    let suspect = insert_character(
        &mut state,
        CharacterDraft { name: "Named Suspect".to_owned(), organization: Some(criminal), investigation: None, safety: None },
    )
    .expect("suspect should validate");
    let bystander = insert_character(
        &mut state,
        CharacterDraft { name: "Bystander".to_owned(), organization: None, investigation: None, safety: None },
    )
    .expect("bystander should validate");
    let now = state.now();
    let weak = evidence_about(
        EntityRef::Character(suspect),
        None,
        EvidenceKind::Surveillance,
        EvidenceStrength::Weak,
        EvidenceReliability::Mixed,
        now,
    );
    let error = validate_incident_intake(
        &state,
        IncidentIntakeDraft {
            owner: police,
            title: "Thin lead".to_owned(),
            subjects: vec![EntityRef::Character(suspect)],
            evidence: vec![weak],
            origin: None,
            notified_organizations: Vec::new(),
            witness: None,
        },
    )
    .expect_err("weak evidence cannot name a person as a case subject");
    assert_eq!(error, InvestigationError::UnsubstantiatedIncidentCharacterSubject { character: suspect });

    let strong = evidence_about(
        EntityRef::Character(suspect),
        None,
        EvidenceKind::Document,
        EvidenceStrength::Strong,
        EvidenceReliability::Credible,
        now,
    );
    let outcome = validate_incident_intake(
        &state,
        IncidentIntakeDraft {
            owner: police,
            title: "Solid lead".to_owned(),
            subjects: vec![EntityRef::Character(suspect)],
            evidence: vec![strong, weak],
            origin: None,
            notified_organizations: Vec::new(),
            witness: Some(IncidentWitnessDraft {
                character: bystander,
                subject: EntityRef::Character(suspect),
                cooperation: WitnessCooperation::Cooperative,
            }),
        },
    )
    .expect("substantiated intake should validate")
    .commit(&mut state)
    .expect("substantiated intake should commit");
    assert_eq!(outcome.evidence.len(), 2);
    let witness = outcome.case_witness.expect("the named witness should be registered");
    let record = state.legal().get_case_witness(witness).expect("witness should persist");
    assert_eq!(record.witness, bystander);
    assert_eq!(record.investigation, outcome.investigation);
    let case = state.legal().get_investigation(outcome.investigation).expect("case should persist");
    assert_eq!(case.version(), 4, "opening, the witness and two evidence records each count once");
    assert!(validate_state(&state));
}
