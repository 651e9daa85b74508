use crimocracy::base::{CharacterId, EntityRef, InformationId, InvestigationId, OrganizationId};
use crimocracy::intelligence::intelligence_system::{validate_record_information, InformationDraft};
use crimocracy::intelligence::{
    InformationSourceKind, InformationTopic, KnowledgeHolder, Reliability, Specificity,
};
use crimocracy::invariants::validate_state;
use crimocracy::base::SimDuration;
use crimocracy::legal::arrest_system::{validate_arrest, validate_release_arrest, ArrestDraft};
use crimocracy::legal::informant_system::autonomous_disclosure::apply_informant_disclosures;
use crimocracy::legal::informant_system::detainee_recruitment::{
    apply_detainee_informant_recruitment, detainee_recruitment_candidates, RecruitmentCandidate,
};
use crimocracy::legal::investigation_system::cold_case_decay::apply_cold_case_decay;
use crimocracy::legal::investigation_system::incident_intake::{
    validate_incident_intake, IncidentEvidenceDraft, IncidentIntakeDraft,
};
use crimocracy::legal::InvestigationStatus;
use crimocracy::state::insert_operation;
use crimocracy::legal::informant_system::{
    resolve_informant_flip_chance, validate_establish_informant, validate_record_informant_disclosure,
    InformantDisclosureDraft, InformantDraft, InformantError,
};
use crimocracy::legal::investigation_system::{
    validate_add_evidence, validate_open_investigation, validate_transition_investigation, EvidenceDraft,
    InvestigationDraft, InvestigationError, InvestigationTransition,
};
use crimocracy::legal::{Admissibility, EvidenceKind, EvidenceReliability, EvidenceStrength};
use crimocracy::registry::build_registry;
use crimocracy::state::{
    insert_character, insert_organization, validate_reassign_character, AppState, WorldError,
};
use crimocracy::world::{CharacterDraft, OrganizationDraft, OrganizationKind};

struct Fixture {
    state: AppState,
    police: OrganizationId,
    criminal: OrganizationId,
    member: CharacterId,
    investigation: InvestigationId,
}

fn fixture() -> Fixture {
    let mut state = AppState::new(0x1F0A_1934);
    let police = insert_organization(
        &mut state,
        OrganizationDraft { name: "Confidential Source Bureau".to_owned(), kind: OrganizationKind::LawEnforcement },
    )
    .expect("police fixture should validate");
    let criminal = insert_organization(
        &mut state,
        OrganizationDraft { name: "Harbor Crew".to_owned(), kind: OrganizationKind::Criminal },
    )
    .expect("criminal fixture should validate");
    let member = insert_character(
        &mut state,
        CharacterDraft { name: "Leo Trent".to_owned(), organization: Some(criminal), investigation: None, safety: None },
    )
    .expect("member fixture should validate");
    let investigation = validate_open_investigation(
        &state,
        InvestigationDraft {
            owner: police,
            title: "Harbor organization inquiry".to_owned(),
            subjects: vec![EntityRef::Organization(criminal)],
        },
    )
    .expect("investigation fixture should validate")
    .commit(&mut state)
    .expect("investigation fixture should commit");
    Fixture { state, police, criminal, member, investigation }
}

fn record_personal_information(fixture: &mut Fixture) -> InformationId {
    let now = fixture.state.now();
    validate_record_information(
        &fixture.state,
        InformationDraft {
            holder: KnowledgeHolder::Character(fixture.member),
            source_kind: InformationSourceKind::DirectObservation,
            topic: InformationTopic::Personnel,
            source_entity: None,
            subject: EntityRef::Organization(fixture.criminal),
            observed_at: now,
            reliability: Reliability::GenerallyReliable,
            specificity: Specificity::Specific,
            summary: "The member directly observed the crew's current personnel structure.".to_owned(),
        },
    )
    .expect("personal information should validate")
    .commit(&mut fixture.state)
    .expect("personal information should commit")
}

fn establish(fixture: &mut Fixture) -> crimocracy::base::InformantId {
    validate_establish_informant(&fixture.state, InformantDraft { character: fixture.member, handler: fixture.police })
        .expect("informant establishment should validate")
        .commit(&mut fixture.state)
        .expect("informant establishment should commit")
}

fn informant_statement_count(state: &AppState) -> usize {
    state.legal().evidence.iter().filter(|record| record.kind() == EvidenceKind::InformantStatement).count()
}

#[test]
fn disclosure_requires_personal_knowledge_and_creates_provenance_evidence() {
    let mut fixture = fixture();
    let informant = establish(&mut fixture);
    assert_eq!(
        validate_reassign_character(&fixture.state, fixture.member, Some(fixture.police))
            .expect_err("an informant cannot join the organization handling that relationship"),
        WorldError::InformantHandlerConflict { character: fixture.member, handler: fixture.police, informant }
    );
    let now = fixture.state.now();
    let organization_information = validate_record_information(
        &fixture.state,
        InformationDraft {
            holder: KnowledgeHolder::Organization(fixture.police),
            source_kind: InformationSourceKind::DirectObservation,
            topic: InformationTopic::Personnel,
            source_entity: None,
            subject: EntityRef::Organization(fixture.criminal),
            observed_at: now,
            reliability: Reliability::GenerallyReliable,
            specificity: Specificity::Specific,
            summary: "The bureau has separate knowledge about the crew's personnel.".to_owned(),
        },
    )
    .expect("organization information should validate")
    .commit(&mut fixture.state)
    .expect("organization information should commit");
    assert_eq!(
        validate_record_informant_disclosure(
            &fixture.state,
            InformantDisclosureDraft {
                informant,
                investigation: fixture.investigation,
                source_information: organization_information,
            },
        )
        .expect_err("informants cannot disclose knowledge held only by their handler"),
        InformantError::InformationNotHeldByInformant { information: organization_information, character: fixture.member }
    );
    let information = record_personal_information(&mut fixture);

    let disclosure = validate_record_informant_disclosure(
        &fixture.state,
        InformantDisclosureDraft { informant, investigation: fixture.investigation, source_information: information },
    )
    .expect("personal informant knowledge should be disclosable")
    .commit(&mut fixture.state)
    .expect("validated disclosure should commit");

    let disclosure_record = *fixture
        .state
        .legal()
        .disclosures
        .iter()
        .find(|record| record.id == disclosure)
        .expect("disclosure should persist");
    let evidence = fixture.state.legal().get_evidence(disclosure_record.evidence).expect("informant evidence should persist");
    assert_eq!(evidence.kind(), EvidenceKind::InformantStatement);
    assert_eq!(evidence.strength(), EvidenceStrength::Strong);
    assert_eq!(evidence.reliability(), EvidenceReliability::Credible);
    assert_eq!(evidence.admissibility(), Admissibility::Unknown);
    assert_eq!(evidence.source(), Some(EntityRef::Character(fixture.member)));
    assert_eq!(evidence.subject(), EntityRef::Organization(fixture.criminal));
    assert_eq!(disclosure_record.source_information, information);
    assert_eq!(
        fixture
            .state
            .legal()
            .disclosures
            .iter()
            .filter(|record| record.source_information == information)
            .map(|record| record.id)
            .collect::<Vec<_>>(),
        vec![disclosure]
    );
    assert!(matches!(
        validate_record_informant_disclosure(
            &fixture.state,
            InformantDisclosureDraft { informant, investigation: fixture.investigation, source_information: information },
        ),
        Err(InformantError::DuplicateDisclosure { disclosure: existing, .. }) if existing == disclosure
    ));
    assert!(validate_state(&fixture.state), "canonical disclosure state should validate");
}

#[test]
fn disclosure_rejects_personal_information_unrelated_to_the_case() {
    let mut fixture = fixture();
    let unrelated = insert_organization(
        &mut fixture.state,
        OrganizationDraft { name: "Unrelated Outfit".to_owned(), kind: OrganizationKind::Criminal },
    )
    .expect("unrelated organization should validate");
    let informant = establish(&mut fixture);
    let now = fixture.state.now();
    let information = validate_record_information(
        &fixture.state,
        InformationDraft {
            holder: KnowledgeHolder::Character(fixture.member),
            source_kind: InformationSourceKind::DirectObservation,
            topic: InformationTopic::Personnel,
            source_entity: None,
            subject: EntityRef::Organization(unrelated),
            observed_at: now,
            reliability: Reliability::GenerallyReliable,
            specificity: Specificity::Specific,
            summary: "The source knows unrelated personnel facts.".to_owned(),
        },
    )
    .expect("unrelated personal information should validate")
    .commit(&mut fixture.state)
    .expect("unrelated personal information should commit");

    assert_eq!(
        validate_record_informant_disclosure(
            &fixture.state,
            InformantDisclosureDraft { informant, investigation: fixture.investigation, source_information: information },
        )
        .expect_err("handler ownership must not turn unrelated knowledge into case evidence"),
        InformantError::InformationCaseMismatch {
            information,
            subject: EntityRef::Organization(unrelated),
            investigation: fixture.investigation,
        }
    );
    assert_eq!(fixture.state.legal().disclosures.len(), 0);
    assert!(validate_state(&fixture.state));
}

#[test]
fn generic_evidence_path_cannot_forge_informant_statement() {
    let fixture = fixture();
    let error = match validate_add_evidence(
        &fixture.state,
        EvidenceDraft {
            investigation: fixture.investigation,
            custodian: fixture.police,
            subject: EntityRef::Organization(fixture.criminal),
            origin: None,
            kind: EvidenceKind::InformantStatement,
            strength: EvidenceStrength::Strong,
            reliability: EvidenceReliability::Credible,
            admissibility: Admissibility::Unknown,
            discovered_at: fixture.state.now(),
        },
    ) {
        Ok(_) => panic!("generic evidence path must reject informant statements"),
        Err(error) => error,
    };
    assert_eq!(error, InvestigationError::InformantStatementRequiresDisclosure);
    assert_eq!(informant_statement_count(&fixture.state), 0);
    assert!(validate_state(&fixture.state));
}

#[test]
fn disclosure_token_rejects_case_change_without_partial_mutation() {
    let mut fixture = fixture();
    let informant = establish(&mut fixture);
    let information = record_personal_information(&mut fixture);
    let stale = validate_record_informant_disclosure(
        &fixture.state,
        InformantDisclosureDraft { informant, investigation: fixture.investigation, source_information: information },
    )
    .expect("disclosure should initially validate");

    let now = fixture.state.now();
    validate_add_evidence(
        &fixture.state,
        EvidenceDraft {
            investigation: fixture.investigation,
            custodian: fixture.police,
            subject: EntityRef::Organization(fixture.criminal),
            origin: None,
            kind: EvidenceKind::Surveillance,
            strength: EvidenceStrength::Weak,
            reliability: EvidenceReliability::Questionable,
            admissibility: Admissibility::Unknown,
            discovered_at: now,
        },
    )
    .expect("independent case mutation should validate")
    .commit(&mut fixture.state)
    .expect("independent case mutation should commit");

    assert!(matches!(stale.commit(&mut fixture.state), Err(InformantError::StaleInvestigation { .. })));
    assert_eq!(informant_statement_count(&fixture.state), 0);
    assert_eq!(
        fixture.state.legal().disclosures.iter().filter(|record| record.source_information == information).count(),
        0
    );
    assert!(validate_state(&fixture.state), "stale rejection should leave valid state");
}

#[test]
fn active_counsel_materially_reduces_detainee_flip_risk() {
    let legal = build_registry().legal();
    assert_eq!(resolve_informant_flip_chance(legal, 100, false), 75);
    assert_eq!(resolve_informant_flip_chance(legal, 100, true), 50);
    assert_eq!(resolve_informant_flip_chance(legal, 0, false), 25);
    assert_eq!(resolve_informant_flip_chance(legal, 0, true), 0);
}

fn disclosure_record(state: &AppState, id: crimocracy::base::InformantDisclosureId) -> crimocracy::legal::InformantDisclosureRecord {
    *state.legal().disclosures.iter().find(|record| record.id == id).expect("autonomous disclosure should persist")
}

#[test]
fn autonomous_disclosure_matches_active_case_subjects_not_only_operation_origins() {
    let mut fixture = fixture();
    let informant = establish(&mut fixture);
    let information = record_personal_information(&mut fixture);

    let disclosures = apply_informant_disclosures(&mut fixture.state)
        .expect("relevant personal knowledge should flow into an active handler case");
    assert_eq!(disclosures.len(), 1);
    let disclosure = disclosure_record(&fixture.state, disclosures[0]);
    assert_eq!(disclosure.informant, informant);
    assert_eq!(disclosure.investigation, fixture.investigation);
    assert_eq!(disclosure.source_information, information);
    assert_eq!(informant_statement_count(&fixture.state), 1);
    assert!(validate_state(&fixture.state), "subject-matched disclosure state should validate");
}

#[test]
fn autonomous_disclosure_reaches_each_matching_case_in_one_pass() {
    let mut fixture = fixture();
    let informant = establish(&mut fixture);
    let information = record_personal_information(&mut fixture);
    let second_case = validate_open_investigation(
        &fixture.state,
        InvestigationDraft {
            owner: fixture.police,
            title: "Parallel harbor organization inquiry".to_owned(),
            subjects: vec![EntityRef::Organization(fixture.criminal)],
        },
    )
    .expect("parallel case with the same subject should validate")
    .commit(&mut fixture.state)
    .expect("parallel case should commit");
    assert!(fixture.investigation < second_case);

    let first_pass = apply_informant_disclosures(&mut fixture.state).expect("first disclosure pass should resolve");
    assert_eq!(first_pass.len(), 2);
    let cases: Vec<InvestigationId> = first_pass
        .iter()
        .map(|id| {
            let record = disclosure_record(&fixture.state, *id);
            assert_eq!(record.informant, informant);
            assert_eq!(record.source_information, information);
            record.investigation
        })
        .collect();
    assert_eq!(
        cases,
        vec![fixture.investigation, second_case],
        "case creation order must not delay the same held fact for another matching active file"
    );
    assert!(
        apply_informant_disclosures(&mut fixture.state).expect("exhausted disclosures should resolve").is_empty(),
        "one personal fact should reach every relevant active case once, then stop"
    );
    assert!(validate_state(&fixture.state), "multi-case disclosure state should remain valid");
}

#[test]
fn informant_disclosure_refreshes_all_matching_originated_cases_before_cold_decay() {
    let registry = build_registry();
    let mut state = AppState::new(0x1F0A_C01D);
    let police = insert_organization(
        &mut state,
        OrganizationDraft { name: "Parallel Case Bureau".to_owned(), kind: OrganizationKind::LawEnforcement },
    )
    .expect("police fixture should validate");
    let criminal = insert_organization(
        &mut state,
        OrganizationDraft { name: "Parallel Case Crew".to_owned(), kind: OrganizationKind::Criminal },
    )
    .expect("criminal fixture should validate");
    let source = insert_character(
        &mut state,
        CharacterDraft { name: "Parallel Case Source".to_owned(), organization: Some(criminal), investigation: None, safety: None },
    )
    .expect("source fixture should validate");

    state.advance_clock(SimDuration::from_minutes(1));
    let informant = validate_establish_informant(&state, InformantDraft { character: source, handler: police })
        .expect("informant establishment should validate")
        .commit(&mut state)
        .expect("informant establishment should commit");
    let now = state.now();
    let information = validate_record_information(
        &state,
        InformationDraft {
            holder: KnowledgeHolder::Character(source),
            source_kind: InformationSourceKind::DirectObservation,
            topic: InformationTopic::Personnel,
            source_entity: None,
            subject: EntityRef::Organization(criminal),
            observed_at: now,
            reliability: Reliability::GenerallyReliable,
            specificity: Specificity::Specific,
            summary: "The source knows the crew's current personnel structure.".to_owned(),
        },
    )
    .expect("source information should validate")
    .commit(&mut state)
    .expect("source information should commit");

    let cold_window = registry.legal().cold_case_window();
    let mut cases = Vec::new();
    for index in 0..2 {
        let origin = insert_operation(&mut state, criminal).expect("future surveillance origin should commit");
        let now = state.now();
        let case = validate_incident_intake(
            &state,
            IncidentIntakeDraft {
                owner: police,
                title: format!("Parallel originated case {}", index + 1),
                subjects: vec![EntityRef::Organization(criminal)],
                evidence: vec![IncidentEvidenceDraft {
                    subject: EntityRef::Organization(criminal),
                    origin: Some(EntityRef::Operation(origin)),
                    kind: EvidenceKind::Surveillance,
                    strength: EvidenceStrength::Weak,
                    reliability: EvidenceReliability::Questionable,
                    admissibility: Admissibility::Unknown,
                    discovered_at: now,
                }],
                origin: Some(EntityRef::Operation(origin)),
                notified_organizations: Vec::new(),
                witness: None,
            },
        )
        .expect("distinct active incident should open its own originated case")
        .commit(&mut state)
        .expect("originated case should commit")
        .investigation;
        cases.push(case);
    }
    assert_ne!(cases[0], cases[1]);

    // The minute the cold window would elapse: disclosures run before cold-case decay.
    state.advance_clock(SimDuration::from_minutes(cold_window.as_minutes()));
    let disclosures = apply_informant_disclosures(&mut state).expect("disclosure pass should resolve");
    let decay = apply_cold_case_decay(&mut state, cold_window).expect("cold-case decay should resolve");
    assert_eq!(disclosures.len(), 2);
    assert!(decay.suspended.is_empty());
    let disclosed: Vec<InvestigationId> = disclosures
        .iter()
        .map(|id| {
            let disclosure = disclosure_record(&state, *id);
            assert_eq!(disclosure.informant, informant);
            assert_eq!(disclosure.source_information, information);
            disclosure.investigation
        })
        .collect();
    assert_eq!(disclosed, cases);
    for case in cases {
        let investigation = state.legal().get_investigation(case).expect("refreshed case should persist");
        assert_eq!(investigation.status(), InvestigationStatus::Active);
        assert_eq!(investigation.last_activity_at(), state.now());
    }
    assert!(validate_state(&state), "same-minute disclosure state should validate");
}

#[test]
fn disclosure_pass_skips_a_case_without_version_room_and_serves_the_others() {
    let mut fixture = fixture();
    establish(&mut fixture);
    let information = record_personal_information(&mut fixture);
    let second_case = validate_open_investigation(
        &fixture.state,
        InvestigationDraft {
            owner: fixture.police,
            title: "Parallel roomy inquiry".to_owned(),
            subjects: vec![EntityRef::Organization(fixture.criminal)],
        },
    )
    .expect("second case should validate")
    .commit(&mut fixture.state)
    .expect("second case should commit");
    let index = (fixture.investigation.0 - 1) as usize;
    fixture.state.legal.investigations[index].version = u32::MAX;

    let disclosures = apply_informant_disclosures(&mut fixture.state).expect("disclosure pass should resolve");
    assert_eq!(disclosures.len(), 1);
    let record = disclosure_record(&fixture.state, disclosures[0]);
    assert_eq!(record.investigation, second_case);
    assert_eq!(record.source_information, information);
    assert_eq!(fixture.state.legal().get_investigation(fixture.investigation).expect("full case persists").version(), u32::MAX);
}

#[test]
fn disclosure_pass_without_informants_changes_nothing() {
    let mut fixture = fixture();
    record_personal_information(&mut fixture);
    let before = fixture.state.legal().disclosures.len();
    assert!(apply_informant_disclosures(&mut fixture.state).expect("empty pass should resolve").is_empty());
    assert_eq!(fixture.state.legal().disclosures.len(), before);
    assert_eq!(informant_statement_count(&fixture.state), 0);
}

/// Opens a case on `suspect` with two strong items of evidence and detains them in it.
fn detain(fixture: &mut Fixture, suspect: CharacterId, title: &str) -> crimocracy::base::ArrestId {
    let registry = build_registry();
    let case = validate_open_investigation(
        &fixture.state,
        InvestigationDraft { owner: fixture.police, title: title.to_owned(), subjects: vec![EntityRef::Character(suspect)] },
    )
    .expect("subject case should validate")
    .commit(&mut fixture.state)
    .expect("subject case should commit");
    let mut evidence = Vec::new();
    for (kind, strength) in [
        (EvidenceKind::KnownAssociation, EvidenceStrength::Strong),
        (EvidenceKind::Document, EvidenceStrength::Corroborating),
    ] {
        let now = fixture.state.now();
        evidence.push(
            validate_add_evidence(
                &fixture.state,
                EvidenceDraft {
                    investigation: case,
                    custodian: fixture.police,
                    subject: EntityRef::Character(suspect),
                    origin: None,
                    kind,
                    strength,
                    reliability: EvidenceReliability::HighlyReliable,
                    admissibility: Admissibility::Admissible,
                    discovered_at: now,
                },
            )
            .expect("case evidence should validate")
            .commit(&mut fixture.state)
            .expect("case evidence should commit"),
        );
    }
    validate_arrest(&registry, &fixture.state, ArrestDraft { character: suspect, investigation: case, evidence })
        .expect("custody arrest should validate")
        .commit(&mut fixture.state)
        .expect("custody arrest should commit")
}

#[test]
fn recruitment_skips_a_detainee_already_informing_for_the_handler() {
    let registry = build_registry();
    let mut fixture = fixture();
    // The member already works for this handler from an earlier stint; a re-arrest must not
    // draw a second recruitment decision.
    establish(&mut fixture);
    let member = fixture.member;
    detain(&mut fixture, member, "Member custody inquiry");

    fixture.state.advance_clock(registry.legal().informant_decision_delay());
    let candidates = detainee_recruitment_candidates(&registry, &fixture.state, &Vec::new())
        .expect("recruitment scan should resolve");
    assert!(candidates.is_empty());
    let recruited = apply_detainee_informant_recruitment(&registry, &mut fixture.state, &Vec::new(), &Vec::new())
        .expect("recruitment pass should resolve without aborting the tick");
    assert!(recruited.is_empty());
    assert_eq!(fixture.state.legal().informants.len(), 1);
    assert!(validate_state(&fixture.state), "post-pass state should validate");
}

#[test]
fn detainee_gets_one_decision_at_the_authored_delay_and_flips_under_their_chance() {
    let registry = build_registry();
    let mut fixture = fixture();
    let member = fixture.member;
    let arrest = detain(&mut fixture, member, "Custody decision inquiry");

    // Before the authored delay nobody is due.
    assert!(detainee_recruitment_candidates(&registry, &fixture.state, &Vec::new())
        .expect("early scan should resolve")
        .is_empty());
    fixture.state.advance_clock(registry.legal().informant_decision_delay());
    let candidates = detainee_recruitment_candidates(&registry, &fixture.state, &Vec::new())
        .expect("due scan should resolve");
    assert_eq!(
        candidates,
        vec![RecruitmentCandidate { arrest, character: member, handler: fixture.police, chance: 25 }]
    );
    // Counsel lowers the chance by the authored reduction.
    let counselled = detainee_recruitment_candidates(&registry, &fixture.state, &vec![arrest])
        .expect("counselled scan should resolve");
    assert_eq!(counselled[0].chance, 0);

    // A roll at the chance does not flip; the state is unchanged.
    let none = apply_detainee_informant_recruitment(&registry, &mut fixture.state, &Vec::new(), &vec![25])
        .expect("failed flip should resolve");
    assert!(none.is_empty());
    assert!(fixture.state.legal().informants.is_empty());
    // A roll under the chance flips the detainee into a source for the arresting authority.
    let recruited = apply_detainee_informant_recruitment(&registry, &mut fixture.state, &Vec::new(), &vec![24])
        .expect("successful flip should resolve");
    assert_eq!(recruited.len(), 1);
    let record = fixture.state.legal().informants[0];
    assert_eq!(record.id, recruited[0]);
    assert_eq!(record.character, member);
    assert_eq!(record.handler, fixture.police);
    assert!(validate_state(&fixture.state));

    // A minute later the decision is no longer due.
    fixture.state.advance_clock(SimDuration::from_minutes(1));
    assert!(detainee_recruitment_candidates(&registry, &fixture.state, &Vec::new())
        .expect("late scan should resolve")
        .is_empty());
}

#[test]
fn per_tick_scan_indexes_track_lifecycle_transitions() {
    let mut fixture = fixture();
    assert_eq!(fixture.state.legal().active_investigations(), vec![fixture.investigation]);

    // Custody: an evidence-backed arrest enters the detained scan surface, and its release
    // through the canonical path leaves it.
    let member = fixture.member;
    let arrest = detain(&mut fixture, member, "Member custody inquiry");
    let case = InvestigationId(fixture.investigation.0 + 1);
    assert_eq!(fixture.state.legal().detained_arrests(), vec![arrest]);

    // An established informant enters the disclosure scan surface.
    let informant = establish(&mut fixture);
    assert_eq!(fixture.state.legal().informants.iter().map(|record| record.id).collect::<Vec<_>>(), vec![informant]);

    // Suspension leaves the active-case scan surface; resume re-enters it.
    validate_transition_investigation(&fixture.state, fixture.investigation, InvestigationTransition::Suspend)
        .expect("suspension should validate")
        .commit(&mut fixture.state)
        .expect("suspension should commit");
    assert_eq!(fixture.state.legal().active_investigations(), vec![case]);
    validate_transition_investigation(&fixture.state, fixture.investigation, InvestigationTransition::Resume)
        .expect("resume should validate")
        .commit(&mut fixture.state)
        .expect("resume should commit");
    assert_eq!(fixture.state.legal().active_investigations(), vec![fixture.investigation, case]);

    validate_release_arrest(&fixture.state, arrest)
        .expect("release should validate")
        .commit(&mut fixture.state)
        .expect("release should commit");
    assert!(fixture.state.legal().detained_arrests().is_empty());

    // The informant relationship outlives the custody that produced it.
    assert_eq!(fixture.state.legal().informants.iter().map(|record| record.id).collect::<Vec<_>>(), vec![informant]);
    assert!(validate_state(&fixture.state), "post-transition state should validate");
}

#[test]
fn state_validation_rejects_a_second_relationship_and_a_repeated_disclosure() {
    let mut fixture = fixture();
    let informant = establish(&mut fixture);
    let information = record_personal_information(&mut fixture);
    validate_record_informant_disclosure(
        &fixture.state,
        InformantDisclosureDraft { informant, investigation: fixture.investigation, source_information: information },
    )
    .expect("disclosure should validate")
    .commit(&mut fixture.state)
    .expect("disclosure should commit");
    assert!(validate_state(&fixture.state));

    let mut repeated = fixture.state.legal.disclosures[0];
    repeated.id = crimocracy::base::InformantDisclosureId(2);
    fixture.state.legal.disclosures.push(repeated);
    assert!(!validate_state(&fixture.state), "one fact enters one case once");
    fixture.state.legal.disclosures.pop();

    let mut second = fixture.state.legal.informants[0];
    second.id = crimocracy::base::InformantId(2);
    fixture.state.legal.informants.push(second);
    assert!(!validate_state(&fixture.state), "a character informs a handler through one relationship");
}

#[test]
fn state_validation_rejects_two_detentions_of_one_person_and_off_scale_ratings() {
    let mut fixture = fixture();
    let member = fixture.member;
    detain(&mut fixture, member, "Double custody inquiry");
    assert!(validate_state(&fixture.state));
    let first = &fixture.state.legal.arrests[0];
    let copy = crimocracy::legal::ArrestRecord {
        id: crimocracy::base::ArrestId(2),
        character: first.character,
        authority: first.authority,
        investigation: first.investigation,
        evidence: first.evidence.clone(),
        arrested_at: first.arrested_at,
        released_at: None,
        status: crimocracy::legal::ArrestStatus::Detained,
        version: 1,
    };
    fixture.state.legal.arrests.push(copy);
    assert!(!validate_state(&fixture.state), "nobody is held in two detentions at once");
    fixture.state.legal.arrests.pop();

    fixture.state.world.characters[0].safety = Some(crimocracy::base::Rating(101));
    assert!(!validate_state(&fixture.state), "ratings lie on the 0..=100 scale");
}

#[test]
fn informant_relationship_is_exclusive_and_save_round_trip_preserves_history() {
    let mut fixture = fixture();
    let informant = validate_establish_informant(
        &fixture.state,
        InformantDraft { character: fixture.member, handler: fixture.police },
    )
    .expect("informant establishment should validate")
    .commit(&mut fixture.state)
    .expect("informant establishment should commit");
    let information = record_personal_information(&mut fixture);
    let disclosure = validate_record_informant_disclosure(
        &fixture.state,
        InformantDisclosureDraft { informant, investigation: fixture.investigation, source_information: information },
    )
    .expect("disclosure should validate")
    .commit(&mut fixture.state)
    .expect("disclosure should commit");

    // The relationship is exclusive: a second establishment for the same pair is rejected.
    assert!(matches!(
        validate_establish_informant(&fixture.state, InformantDraft { character: fixture.member, handler: fixture.police }),
        Err(InformantError::AlreadyInformant { .. })
    ));
    assert_eq!(
        fixture.state.legal().get_informant(informant).expect("relationship should persist").id,
        informant
    );
    assert_eq!(
        fixture
            .state
            .legal()
            .disclosures
            .iter()
            .find(|record| record.id == disclosure)
            .expect("disclosure should persist")
            .source_information,
        information
    );
    assert!(validate_state(&fixture.state), "informant history should validate");
}
