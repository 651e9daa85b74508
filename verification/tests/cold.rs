use crimocracy::base::{EntityRef, OrganizationId, SimDuration, SimTime};
use crimocracy::invariants::validate_state;
use crimocracy::legal::arrest_system::{validate_arrest, ArrestDraft};
use crimocracy::legal::investigation_system::cold_case_decay::{apply_cold_case_decay, ColdCaseDecayOutcome};
use crimocracy::legal::investigation_system::incident_intake::{
    validate_incident_intake, IncidentEvidenceDraft, IncidentIntakeDraft,
};
use crimocracy::legal::investigation_system::{
    validate_open_investigation, validate_transition_investigation, InvestigationDraft,
    InvestigationTransition,
};
use crimocracy::legal::{Admissibility, EvidenceKind, EvidenceReliability, EvidenceStrength, InvestigationStatus};
use crimocracy::registry::build_registry;
use crimocracy::state::{insert_character, insert_operation, insert_organization, AppState};
use crimocracy::world::{CharacterDraft, OrganizationDraft, OrganizationKind};

fn organization(state: &mut AppState, name: &str, kind: OrganizationKind) -> OrganizationId {
    insert_organization(state, OrganizationDraft { name: name.to_owned(), kind }).expect("organization fixture should validate")
}

fn member(state: &mut AppState, name: &str, organization: OrganizationId) -> crimocracy::base::CharacterId {
    insert_character(
        state,
        CharacterDraft { name: name.to_owned(), organization: Some(organization), investigation: None, safety: None },
    )
    .expect("member fixture should validate")
}

fn strong_evidence(subject: EntityRef, origin: EntityRef, kind: EvidenceKind, now: SimTime) -> IncidentEvidenceDraft {
    IncidentEvidenceDraft {
        subject,
        origin: Some(origin),
        kind,
        strength: EvidenceStrength::Strong,
        reliability: EvidenceReliability::HighlyReliable,
        admissibility: Admissibility::Admissible,
        discovered_at: now,
    }
}

#[test]
fn operation_originated_cases_cool_and_reopen_through_the_canonical_transition() {
    let mut state = AppState::new(0xC01D_1933);
    let police = organization(&mut state, "Cold Case Precinct", OrganizationKind::LawEnforcement);
    let criminal = organization(&mut state, "Cold Case Crew", OrganizationKind::Criminal);
    let leader = member(&mut state, "Cold Case Leader", criminal);
    let origin = insert_operation(&mut state, criminal).expect("origin operation should commit");
    let now = state.now();
    let case = validate_incident_intake(
        &state,
        IncidentIntakeDraft {
            owner: police,
            title: "Sober incident inquiry".to_owned(),
            subjects: vec![EntityRef::Operation(origin)],
            evidence: vec![IncidentEvidenceDraft {
                subject: EntityRef::Operation(origin),
                origin: Some(EntityRef::Operation(origin)),
                kind: EvidenceKind::Surveillance,
                strength: EvidenceStrength::Weak,
                reliability: EvidenceReliability::Questionable,
                admissibility: Admissibility::Unknown,
                discovered_at: now,
            }],
            origin: Some(EntityRef::Operation(origin)),
            notified_organizations: vec![criminal],
            witness: None,
        },
    )
    .expect("incident intake should validate")
    .commit(&mut state)
    .expect("incident intake should commit")
    .investigation;
    let institution_authored = validate_open_investigation(
        &state,
        InvestigationDraft {
            owner: police,
            title: "Institution-authored case stays put".to_owned(),
            subjects: vec![EntityRef::Organization(criminal)],
        },
    )
    .expect("institution-authored case should validate")
    .commit(&mut state)
    .expect("institution-authored case should commit");

    let identified = validate_incident_intake(
        &state,
        IncidentIntakeDraft {
            owner: police,
            title: "Identified incident inquiry".to_owned(),
            subjects: vec![EntityRef::Operation(origin), EntityRef::Character(leader)],
            evidence: vec![strong_evidence(
                EntityRef::Character(leader),
                EntityRef::Operation(origin),
                EvidenceKind::KnownAssociation,
                now,
            )],
            origin: Some(EntityRef::Operation(origin)),
            notified_organizations: vec![criminal],
            witness: None,
        },
    )
    .expect("identified incident intake should validate")
    .commit(&mut state)
    .expect("identified incident intake should commit")
    .investigation;
    state.advance_clock(SimDuration::from_minutes(121));
    let suspended = apply_cold_case_decay(&mut state, SimDuration::from_minutes(120)).expect("cold-case decay should resolve");
    assert_eq!(suspended, ColdCaseDecayOutcome { suspended: vec![case], closed: Vec::new() });
    assert_eq!(state.legal().get_investigation(case).expect("cold case should persist").status(), InvestigationStatus::Suspended);
    assert_eq!(
        state.legal().get_investigation(institution_authored).expect("institution-authored case should persist").status(),
        InvestigationStatus::Active
    );
    assert_eq!(
        state.legal().get_investigation(identified).expect("identified case should persist").status(),
        InvestigationStatus::Active
    );
    assert!(validate_state(&state), "cold decay state should validate");

    validate_transition_investigation(&state, case, InvestigationTransition::Resume)
        .expect("resume should validate")
        .commit(&mut state)
        .expect("resume should commit");
    let resumed = state.legal().get_investigation(case).expect("resumed case should persist");
    assert_eq!(resumed.status(), InvestigationStatus::Active);
    assert_eq!(resumed.last_activity_at(), state.now(), "resuming refreshes institutional activity");
    assert!(validate_state(&state), "resumed cold case state should validate");
}

#[test]
fn cold_case_decay_closes_a_fully_worked_case_whose_every_subject_is_detained() {
    let registry = build_registry();
    let mut state = AppState::new(0xC1EA_1933);
    let police = organization(&mut state, "Cleared Case Precinct", OrganizationKind::LawEnforcement);
    let criminal = organization(&mut state, "Cleared Case Crew", OrganizationKind::Criminal);
    member(&mut state, "Cleared Case Leader", criminal);
    let lieutenant = member(&mut state, "Cleared Case Lieutenant", criminal);
    let origin = insert_operation(&mut state, criminal).expect("origin operation should commit");
    let now = state.now();
    let intake = validate_incident_intake(
        &state,
        IncidentIntakeDraft {
            owner: police,
            title: "Cleared identified inquiry".to_owned(),
            subjects: vec![EntityRef::Operation(origin), EntityRef::Character(lieutenant)],
            evidence: vec![
                strong_evidence(EntityRef::Character(lieutenant), EntityRef::Operation(origin), EvidenceKind::KnownAssociation, now),
                strong_evidence(EntityRef::Character(lieutenant), EntityRef::Operation(origin), EvidenceKind::Document, now),
            ],
            origin: Some(EntityRef::Operation(origin)),
            notified_organizations: vec![criminal],
            witness: None,
        },
    )
    .expect("identified incident intake should validate")
    .commit(&mut state)
    .expect("identified incident intake should commit");
    let identified = intake.investigation;

    validate_arrest(
        &registry,
        &state,
        ArrestDraft { character: lieutenant, investigation: identified, evidence: intake.evidence.clone() },
    )
    .expect("evidence-backed arrest should validate")
    .commit(&mut state)
    .expect("evidence-backed arrest should commit");

    state.advance_clock(SimDuration::from_minutes(121));
    let decayed = apply_cold_case_decay(&mut state, SimDuration::from_minutes(120)).expect("cold-case decay should resolve");
    assert_eq!(decayed, ColdCaseDecayOutcome { suspended: Vec::new(), closed: vec![identified] });
    assert_eq!(
        state.legal().get_investigation(identified).map(|record| record.status()),
        Some(InvestigationStatus::Closed)
    );
    assert!(validate_state(&state), "cleared-case state should validate");
}

#[test]
fn cold_case_decay_waits_for_a_full_window() {
    let mut state = AppState::new(0xC1EA_1934);
    let police = organization(&mut state, "Patient Precinct", OrganizationKind::LawEnforcement);
    let criminal = organization(&mut state, "Patient Crew", OrganizationKind::Criminal);
    let origin = insert_operation(&mut state, criminal).expect("origin operation should commit");
    let now = state.now();
    let case = validate_incident_intake(
        &state,
        IncidentIntakeDraft {
            owner: police,
            title: "Fresh exposure".to_owned(),
            subjects: vec![EntityRef::Operation(origin)],
            evidence: vec![IncidentEvidenceDraft {
                subject: EntityRef::Operation(origin),
                origin: Some(EntityRef::Operation(origin)),
                kind: EvidenceKind::Surveillance,
                strength: EvidenceStrength::Weak,
                reliability: EvidenceReliability::Questionable,
                admissibility: Admissibility::Unknown,
                discovered_at: now,
            }],
            origin: Some(EntityRef::Operation(origin)),
            notified_organizations: Vec::new(),
            witness: None,
        },
    )
    .expect("intake should validate")
    .commit(&mut state)
    .expect("intake should commit")
    .investigation;
    state.advance_clock(SimDuration::from_minutes(119));
    let outcome = apply_cold_case_decay(&mut state, SimDuration::from_minutes(120)).expect("decay should resolve");
    assert_eq!(outcome, ColdCaseDecayOutcome { suspended: Vec::new(), closed: Vec::new() });
    state.advance_clock(SimDuration::from_minutes(1));
    let outcome = apply_cold_case_decay(&mut state, SimDuration::from_minutes(120)).expect("decay should resolve");
    assert_eq!(outcome, ColdCaseDecayOutcome { suspended: vec![case], closed: Vec::new() });
}
