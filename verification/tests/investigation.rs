use crimocracy::base::{CharacterId, EntityRef, OrganizationId, Rating, SimDuration};
use crimocracy::invariants::{validate_state, validate_state_against_registry};
use crimocracy::legal::investigation_system::staffing::validate_assign_investigator;
use crimocracy::legal::investigation_system::{
    validate_add_evidence, validate_open_investigation, validate_transition_investigation,
    EvidenceDraft, InvestigationDraft, InvestigationError, InvestigationTransition,
};
use crimocracy::legal::investigation_work_execution::resolution::{
    decide_investigation_work_resolution, validate_investigation_work_resolution_plan,
    InvestigationWorkRandomness,
};
use crimocracy::legal::investigation_work_execution::{
    validate_schedule_investigation_work, InvestigationWorkDraft,
};
use crimocracy::legal::{
    Admissibility, EvidenceKind, EvidenceReliability, EvidenceStrength, InvestigationStatus,
    InvestigationWorkFocus, InvestigationWorkKind,
};
use crimocracy::registry::build_registry;
use crimocracy::state::{
    insert_character, insert_organization, validate_reassign_character, AppState, WorldError,
};
use crimocracy::world::{CharacterDraft, OrganizationDraft, OrganizationKind};

fn rating(value: u8) -> Rating {
    Rating::try_new(value).expect("test rating must be valid")
}

fn organization(state: &mut AppState, name: &str, kind: OrganizationKind) -> OrganizationId {
    insert_organization(state, OrganizationDraft { name: name.to_owned(), kind }).expect("organization fixture should validate")
}

fn person(state: &mut AppState, name: &str, organization: Option<OrganizationId>) -> CharacterId {
    insert_character(state, CharacterDraft { name: name.to_owned(), organization, investigation: None, safety: None })
        .expect("character fixture should validate")
}

fn insert_test_investigator(state: &mut AppState, organization: OrganizationId, name: &str, skill: u8) -> CharacterId {
    insert_character(
        state,
        CharacterDraft { name: name.to_owned(), organization: Some(organization), investigation: Some(rating(skill)), safety: None },
    )
    .expect("investigator fixture should validate")
}

fn open_case(state: &mut AppState, owner: OrganizationId, title: &str, subjects: Vec<EntityRef>) -> crimocracy::base::InvestigationId {
    validate_open_investigation(state, InvestigationDraft { owner, title: title.to_owned(), subjects })
        .expect("investigation should validate")
        .commit(state)
        .expect("investigation should commit")
}

fn evidence_draft(
    state: &AppState,
    investigation: crimocracy::base::InvestigationId,
    custodian: OrganizationId,
    subject: EntityRef,
    kind: EvidenceKind,
    strength: EvidenceStrength,
    reliability: EvidenceReliability,
) -> EvidenceDraft {
    EvidenceDraft {
        investigation,
        custodian,
        subject,
        origin: None,
        kind,
        strength,
        reliability,
        admissibility: Admissibility::Unknown,
        discovered_at: state.now(),
    }
}

#[test]
fn investigation_suspend_resume_is_versioned_persistent_and_disables_active_mutation() {
    let registry = build_registry();
    let mut state = AppState::new(0x5A5E_1931);
    let police = organization(&mut state, "Lifecycle Bureau", OrganizationKind::LawEnforcement);
    let criminal = organization(&mut state, "Lifecycle Crew", OrganizationKind::Criminal);
    let detective = insert_test_investigator(&mut state, police, "Harlan", 82);
    let second_detective = insert_test_investigator(&mut state, police, "Meyer", 74);
    let investigation = open_case(&mut state, police, "Suspended conspiracy inquiry", vec![EntityRef::Organization(criminal)]);
    validate_assign_investigator(&state, investigation, detective)
        .expect("lead assignment should validate")
        .commit(&mut state)
        .expect("lead assignment should commit");

    let stale_suspend = validate_transition_investigation(&state, investigation, InvestigationTransition::Suspend)
        .expect("suspension should initially validate");
    let draft = evidence_draft(
        &state,
        investigation,
        police,
        EntityRef::Organization(criminal),
        EvidenceKind::Surveillance,
        EvidenceStrength::Weak,
        EvidenceReliability::Questionable,
    );
    validate_add_evidence(&state, draft)
        .expect("case mutation should validate before suspension")
        .commit(&mut state)
        .expect("case mutation should commit");
    assert!(matches!(stale_suspend.commit(&mut state), Err(InvestigationError::StaleInvestigation { .. })));

    validate_transition_investigation(&state, investigation, InvestigationTransition::Suspend)
        .expect("fresh suspension should validate")
        .commit(&mut state)
        .expect("fresh suspension should commit");
    assert_eq!(
        state.legal().get_investigation(investigation).expect("investigation should exist").status(),
        InvestigationStatus::Suspended
    );

    let draft = evidence_draft(
        &state,
        investigation,
        police,
        EntityRef::Organization(criminal),
        EvidenceKind::Document,
        EvidenceStrength::Corroborating,
        EvidenceReliability::Credible,
    );
    let evidence_error = match validate_add_evidence(&state, draft) {
        Ok(_) => panic!("suspended investigation must reject new evidence"),
        Err(error) => error,
    };
    assert_eq!(evidence_error, InvestigationError::InactiveInvestigation);
    let staffing_error = validate_assign_investigator(&state, investigation, second_detective)
        .expect_err("suspended investigation must reject new staffing");
    assert_eq!(staffing_error, InvestigationError::InactiveInvestigation);

    validate_transition_investigation(&state, investigation, InvestigationTransition::Resume)
        .expect("valid retained staffing should permit resume")
        .commit(&mut state)
        .expect("resume should commit");
    assert_eq!(
        state.legal().get_investigation(investigation).expect("resumed investigation should exist").status(),
        InvestigationStatus::Active
    );
    assert!(validate_state(&state), "resumed investigation should be structurally valid");
    assert_eq!(validate_state_against_registry(&registry, &state), Ok(()));
}

#[test]
fn scheduled_detective_work_blocks_case_transition_until_resolution_then_close_is_terminal() {
    let registry = build_registry();
    let mut state = AppState::new(0xC105_E193);
    let police = organization(&mut state, "Closure Bureau", OrganizationKind::LawEnforcement);
    let other_police = organization(&mut state, "Harbor Bureau", OrganizationKind::LawEnforcement);
    let criminal = organization(&mut state, "Closure Crew", OrganizationKind::Criminal);
    let detective = insert_test_investigator(&mut state, police, "Doyle", 90);
    let first = person(&mut state, "First Subject", Some(criminal));
    let middle = person(&mut state, "Middle Subject", Some(criminal));
    let target = person(&mut state, "Target Subject", Some(criminal));
    let investigation = open_case(&mut state, police, "Pattern closure inquiry", vec![EntityRef::Character(first)]);
    validate_assign_investigator(&state, investigation, detective)
        .expect("lead assignment should validate")
        .commit(&mut state)
        .expect("lead assignment should commit");

    for (subject, origin) in [
        (EntityRef::Character(middle), EntityRef::Character(first)),
        (EntityRef::Character(target), EntityRef::Character(middle)),
    ] {
        let mut draft = evidence_draft(
            &state,
            investigation,
            police,
            subject,
            if subject == EntityRef::Character(middle) { EvidenceKind::Fingerprint } else { EvidenceKind::KnownAssociation },
            EvidenceStrength::Strong,
            EvidenceReliability::Credible,
        );
        draft.origin = Some(origin);
        draft.admissibility = Admissibility::Admissible;
        validate_add_evidence(&state, draft)
            .expect("path evidence should validate")
            .commit(&mut state)
            .expect("path evidence should commit");
    }
    let reviewable = state
        .legal()
        .evidence
        .iter()
        .find(|e| e.kind == EvidenceKind::Fingerprint)
        .expect("fingerprint evidence should exist")
        .id;
    let work = validate_schedule_investigation_work(
        &registry,
        &state,
        InvestigationWorkDraft {
            investigation,
            investigator: detective,
            kind: InvestigationWorkKind::EvidenceReview,
            focus: InvestigationWorkFocus::evidence(reviewable),
        },
    )
    .expect("evidence review should validate")
    .commit(&mut state)
    .expect("pattern analysis should schedule");

    for transition in [InvestigationTransition::Suspend, InvestigationTransition::Close] {
        assert_eq!(
            validate_transition_investigation(&state, investigation, transition)
                .expect_err("scheduled work must block case lifecycle transition"),
            InvestigationError::ScheduledWorkBlocksTransition { investigation, work }
        );
    }

    state.advance_clock(SimDuration::from_minutes(360));
    let plan = decide_investigation_work_resolution(&registry, &state, work, InvestigationWorkRandomness::new(0))
        .expect("due work should resolve");
    validate_investigation_work_resolution_plan(&registry, &state, plan)
        .expect("fresh work plan should validate")
        .commit(&mut state)
        .expect("work resolution should commit");
    validate_transition_investigation(&state, investigation, InvestigationTransition::Close)
        .expect("completed work should permit case closure")
        .commit(&mut state)
        .expect("case closure should commit");
    assert_eq!(
        state.legal().get_investigation(investigation).expect("closed case should exist").status(),
        InvestigationStatus::Closed
    );

    validate_reassign_character(&state, detective, Some(other_police))
        .expect("closed historical case must not lock investigator membership")
        .commit(&mut state)
        .expect("detective transfer after closure should commit");
    for transition in [InvestigationTransition::Suspend, InvestigationTransition::Resume, InvestigationTransition::Close] {
        assert_eq!(
            validate_transition_investigation(&state, investigation, transition).expect_err("closed case must be terminal"),
            InvestigationError::InvalidInvestigationTransition { status: InvestigationStatus::Closed, transition }
        );
    }
    assert!(validate_state(&state), "closed case should remain structurally valid");
    assert_eq!(validate_state_against_registry(&registry, &state), Ok(()));
}

#[test]
fn suspending_a_case_releases_its_investigator_and_resume_restafs_from_the_free_pool() {
    let mut state = AppState::new(0x5A57_AFF1);
    let police = organization(&mut state, "Original Bureau", OrganizationKind::LawEnforcement);
    let other_police = organization(&mut state, "Transferred Bureau", OrganizationKind::LawEnforcement);
    let criminal = organization(&mut state, "Resume Crew", OrganizationKind::Criminal);
    let detective = insert_test_investigator(&mut state, police, "Reed", 80);
    let investigation = open_case(&mut state, police, "Retained staffing inquiry", vec![EntityRef::Organization(criminal)]);
    validate_assign_investigator(&state, investigation, detective)
        .expect("lead assignment should validate")
        .commit(&mut state)
        .expect("lead assignment should commit");

    validate_transition_investigation(&state, investigation, InvestigationTransition::Suspend)
        .expect("suspension should validate")
        .commit(&mut state)
        .expect("suspension should commit");
    assert!(state.legal().get_investigation(investigation).expect("suspended case should exist").lead_investigator().is_none());
    validate_reassign_character(&state, detective, Some(other_police))
        .expect("released detective should be free to transfer")
        .commit(&mut state)
        .expect("detective transfer should commit");

    validate_transition_investigation(&state, investigation, InvestigationTransition::Resume)
        .expect("a released shelf always resumes; staffing re-applies later")
        .commit(&mut state)
        .expect("resume should commit");
    let resumed = state.legal().get_investigation(investigation).expect("resumed case should exist");
    assert_eq!(resumed.status(), InvestigationStatus::Active);
    assert!(resumed.lead_investigator().is_none());
    assert!(state
        .legal()
        .investigations
        .iter()
        .any(|case| case.id == investigation && case.status == InvestigationStatus::Active && case.lead_investigator.is_none()));
    assert!(validate_state(&state), "resumed case should remain structurally valid");
}

#[test]
fn suspending_a_case_frees_its_investigator_for_other_casework() {
    let mut state = AppState::new(0x51E5_1A7E);
    let police = organization(&mut state, "Central Detectives", OrganizationKind::LawEnforcement);
    let detective = insert_test_investigator(&mut state, police, "Vera", 80);
    let shelved = open_case(&mut state, police, "Shelved ledger inquiry", vec![EntityRef::Organization(police)]);
    validate_assign_investigator(&state, shelved, detective)
        .expect("lead assignment should validate")
        .commit(&mut state)
        .expect("lead assignment should commit");
    validate_transition_investigation(&state, shelved, InvestigationTransition::Suspend)
        .expect("suspension should validate")
        .commit(&mut state)
        .expect("suspension should commit");

    let replacement = open_case(&mut state, police, "Active harbor inquiry", vec![EntityRef::Organization(police)]);
    validate_assign_investigator(&state, replacement, detective)
        .expect("a shelved case must not hold its investigator back")
        .commit(&mut state)
        .expect("second lead assignment should commit");

    validate_transition_investigation(&state, shelved, InvestigationTransition::Resume)
        .expect("resume re-engages the case without retained staffing")
        .commit(&mut state)
        .expect("resume should commit");
    assert!(state.legal().get_investigation(shelved).expect("resumed case should exist").lead_investigator().is_none());
    let third = open_case(&mut state, police, "Third inquiry", vec![EntityRef::Organization(police)]);
    assert_eq!(
        validate_assign_investigator(&state, third, detective)
            .expect_err("an investigator already leading another active case cannot take a third"),
        InvestigationError::InvestigatorAtCaseCapacity { investigator: detective }
    );
    assert!(validate_state(&state), "rejected assignment should preserve structural validity");
}

#[test]
fn investigator_staffing_is_versioned_indexed_and_blocks_foreign_reassignment() {
    let mut state = AppState::new(0xD37E_C71E);
    let police = organization(&mut state, "Central Detectives", OrganizationKind::LawEnforcement);
    let other_police = organization(&mut state, "Harbor Detectives", OrganizationKind::LawEnforcement);
    let criminal = organization(&mut state, "South Ward Crew", OrganizationKind::Criminal);
    let first = insert_test_investigator(&mut state, police, "Harlan", 82);
    let second = insert_test_investigator(&mut state, police, "Meyer", 74);
    let investigation = open_case(&mut state, police, "South Ward conspiracy", vec![EntityRef::Organization(criminal)]);

    validate_assign_investigator(&state, investigation, first)
        .expect("lead assignment should validate")
        .commit(&mut state)
        .expect("lead assignment should commit");
    assert_eq!(
        validate_assign_investigator(&state, investigation, second)
            .expect_err("an active case has a single lead seat while its current lead is assigned"),
        InvestigationError::LeadSeatFilled { investigation, lead: first }
    );

    let record = state.legal().get_investigation(investigation).expect("investigation should exist");
    assert_eq!(record.lead_investigator(), Some(first));
    assert_eq!(state.legal().active_investigation_for_investigator(first), Some(investigation));

    let error = validate_reassign_character(&state, first, Some(other_police))
        .expect_err("active case assignment must block organization reassignment");
    assert_eq!(error, WorldError::ActiveInvestigationAssignment { character: first, investigation });

    validate_transition_investigation(&state, investigation, InvestigationTransition::Suspend)
        .expect("suspension should validate")
        .commit(&mut state)
        .expect("suspension should commit");
    validate_reassign_character(&state, first, Some(other_police))
        .expect("released investigator should be free to transfer")
        .commit(&mut state)
        .expect("released investigator transfer should commit");
    assert_eq!(state.legal().active_investigation_for_investigator(first), None);
    assert!(validate_state(&state), "staffed investigation should remain structurally valid");
}

#[test]
fn investigator_assignment_token_rejects_case_changes_after_validation() {
    let mut state = AppState::new(0x57A1_ECA5);
    let police = organization(&mut state, "Versioned Case Bureau", OrganizationKind::LawEnforcement);
    let criminal = organization(&mut state, "Versioned Case Crew", OrganizationKind::Criminal);
    let detective = insert_test_investigator(&mut state, police, "Doyle", 79);
    let investigation = open_case(&mut state, police, "Changing evidence file", vec![EntityRef::Organization(criminal)]);
    let assignment = validate_assign_investigator(&state, investigation, detective)
        .expect("assignment should validate against initial case version");

    let draft = evidence_draft(
        &state,
        investigation,
        police,
        EntityRef::Organization(criminal),
        EvidenceKind::Surveillance,
        EvidenceStrength::Weak,
        EvidenceReliability::Questionable,
    );
    validate_add_evidence(&state, draft)
        .expect("new evidence should validate")
        .commit(&mut state)
        .expect("new evidence should commit");

    let error = assignment.commit(&mut state).expect_err("case mutation must invalidate older staffing token");
    assert_eq!(error, InvestigationError::StaleInvestigation { investigation, expected: 1, found: 2 });
    assert_eq!(state.legal().get_investigation(investigation).expect("investigation should exist").lead_investigator(), None);
    assert!(validate_state(&state), "stale token rejection must leave state valid");
}

#[test]
fn weak_evidence_does_not_promote_a_character_to_identified_suspect() {
    let mut state = AppState::new(0x0DD_555);
    let police = organization(&mut state, "Promotion Bureau", OrganizationKind::LawEnforcement);
    let suspect = person(&mut state, "Ray Cusack", None);
    let outfit = organization(&mut state, "Promotion Outfit", OrganizationKind::Criminal);
    let investigation = open_case(&mut state, police, "Weak tip inquiry", vec![EntityRef::Organization(outfit)]);

    let draft = evidence_draft(
        &state,
        investigation,
        police,
        EntityRef::Character(suspect),
        EvidenceKind::Document,
        EvidenceStrength::Weak,
        EvidenceReliability::Questionable,
    );
    let weak_tip = validate_add_evidence(&state, draft)
        .expect("weak evidence should validate")
        .commit(&mut state)
        .expect("weak evidence should commit");
    assert!(
        !state
            .legal()
            .get_investigation(investigation)
            .expect("investigation should exist")
            .subjects()
            .contains(&EntityRef::Character(suspect)),
        "weak evidence must not promote a character to case subject"
    );

    let draft = evidence_draft(
        &state,
        investigation,
        police,
        EntityRef::Character(suspect),
        EvidenceKind::Surveillance,
        EvidenceStrength::Corroborating,
        EvidenceReliability::Mixed,
    );
    let corroboration = validate_add_evidence(&state, draft)
        .expect("corroborating evidence should validate")
        .commit(&mut state)
        .expect("corroborating evidence should commit");
    assert!(state
        .legal()
        .get_investigation(investigation)
        .expect("investigation should exist")
        .subjects()
        .contains(&EntityRef::Character(suspect)));
    assert_ne!(weak_tip, corroboration);
    assert!(validate_state(&state), "subject promotion state should validate");
}

#[test]
fn opening_a_case_rejects_blank_titles_and_unknown_subjects() {
    let mut state = AppState::new(7);
    let police = organization(&mut state, "Intake Bureau", OrganizationKind::LawEnforcement);
    let crew = organization(&mut state, "Intake Crew", OrganizationKind::Criminal);
    assert_eq!(
        validate_open_investigation(&state, InvestigationDraft { owner: police, title: "   ".to_owned(), subjects: vec![EntityRef::Organization(crew)] })
            .expect_err("a blank title is refused"),
        InvestigationError::EmptyTitle
    );
    assert_eq!(
        validate_open_investigation(&state, InvestigationDraft { owner: police, title: "No subjects".to_owned(), subjects: Vec::new() })
            .expect_err("a case needs a subject"),
        InvestigationError::NoSubjects
    );
    assert_eq!(
        validate_open_investigation(&state, InvestigationDraft { owner: crew, title: "Crew file".to_owned(), subjects: vec![EntityRef::Organization(police)] })
            .expect_err("criminal organizations do not own cases"),
        InvestigationError::InvalidOwnerKind(crew)
    );
    let ghost = CharacterId::from_raw(42);
    assert_eq!(
        validate_open_investigation(&state, InvestigationDraft { owner: police, title: "Ghost".to_owned(), subjects: vec![EntityRef::Character(ghost)] })
            .expect_err("subjects must exist"),
        InvestigationError::MissingEntity(EntityRef::Character(ghost))
    );
}

#[test]
fn identifier_exhaustion_names_the_exhausted_identifier_space() {
    let mut state = crimocracy::state::AppState::new(7);
    state.world.neighborhoods = u32::MAX;
    state.world.businesses = u32::MAX - 1;
    assert_eq!(
        crimocracy::state::insert_neighborhood(&mut state),
        Err(crimocracy::state::WorldError::IdExhaustion(crimocracy::base::IdExhaustionError::Exhausted {
            kind: crimocracy::base::IdKind::Neighborhood,
        }))
    );
    assert_eq!(state.world.neighborhoods, u32::MAX);
    assert!(crimocracy::state::insert_business(&mut state).is_ok());
    assert_eq!(
        crimocracy::state::insert_business(&mut state),
        Err(crimocracy::state::WorldError::IdExhaustion(crimocracy::base::IdExhaustionError::Exhausted {
            kind: crimocracy::base::IdKind::Business,
        }))
    );
}
