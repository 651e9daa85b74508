use crimocracy::base::{
    ArrestId, CharacterId, EntityRef, EvidenceId, InvestigationId, OrganizationId, Rating, SimTime,
};
use crimocracy::intelligence::intelligence_system::{validate_record_information, InformationDraft};
use crimocracy::intelligence::{
    InformationSourceKind, InformationTopic, KnowledgeHolder, Reliability, Specificity,
};
use crimocracy::invariants::{validate_state, validate_state_against_registry, StateValidationError};
use crimocracy::legal::arrest_system::{
    apply_autonomous_evidence_arrests, apply_due_custody_releases, validate_arrest,
    validate_release_arrest, ArrestDraft, ArrestError,
};
use crimocracy::legal::informant_system::{
    validate_establish_informant, validate_record_informant_disclosure, InformantDisclosureDraft,
    InformantDraft,
};
use crimocracy::legal::investigation_system::staffing::validate_assign_investigator;
use crimocracy::legal::investigation_system::{
    validate_add_evidence, validate_open_investigation, validate_transition_investigation,
    EvidenceDraft, InvestigationDraft, InvestigationError, InvestigationTransition,
};
use crimocracy::legal::custody::evidence_qualifies_for_custody;
use crimocracy::legal::investigation_system::incident_intake::{
    validate_incident_intake, IncidentEvidenceDraft, IncidentIntakeDraft,
};
use crimocracy::legal::investigation_work_execution::resolution::{
    decide_investigation_work_resolution, validate_investigation_work_resolution_plan,
    InvestigationWorkRandomness,
};
use crimocracy::legal::investigation_work_execution::{
    validate_schedule_investigation_work, InvestigationWorkDraft, VersionedRecord,
};
use crimocracy::legal::{
    Admissibility, ArrestStatus, EvidenceKind, EvidenceReliability, EvidenceStrength,
    InvestigationWorkCancellationReason, InvestigationWorkFocus, InvestigationWorkKind,
    InvestigationWorkStatus,
};
use crimocracy::registry::{build_registry, Registry};
use crimocracy::state::{
    insert_character, insert_operation, insert_organization, validate_reassign_character, AppState, WorldError,
};
use crimocracy::world::{CharacterDraft, OrganizationDraft, OrganizationKind};

struct Fixture {
    registry: Registry,
    state: AppState,
    police: OrganizationId,
    suspect: CharacterId,
    investigation: InvestigationId,
    evidence: EvidenceId,
}

fn person(name: &str, organization: Option<OrganizationId>) -> CharacterDraft {
    CharacterDraft { name: name.to_owned(), organization, investigation: None, safety: None }
}

fn detective_draft(name: &str, organization: OrganizationId, skill: u8) -> CharacterDraft {
    CharacterDraft {
        name: name.to_owned(),
        organization: Some(organization),
        investigation: Some(Rating::try_new(skill).expect("investigation capability should validate")),
        safety: None,
    }
}

fn organization(state: &mut AppState, name: &str, kind: OrganizationKind) -> OrganizationId {
    insert_organization(state, OrganizationDraft { name: name.to_owned(), kind })
        .expect("organization fixture should validate")
}

fn open_case(state: &mut AppState, owner: OrganizationId, title: &str, subjects: Vec<EntityRef>) -> InvestigationId {
    validate_open_investigation(state, InvestigationDraft { owner, title: title.to_owned(), subjects })
        .expect("investigation should validate")
        .commit(state)
        .expect("investigation should commit")
}

fn fixture() -> Fixture {
    let registry = build_registry();
    let mut state = AppState::new(0xA22E_5701);
    let crew = organization(&mut state, "Custody Test Crew", OrganizationKind::Criminal);
    let police = organization(&mut state, "Custody Test Police", OrganizationKind::LawEnforcement);
    let suspect = insert_character(&mut state, person("Case Subject", Some(crew))).expect("suspect should validate");
    let investigation = open_case(&mut state, police, "Evidence-backed custody test", vec![EntityRef::Character(suspect)]);
    let evidence = add_character_evidence(&mut state, police, investigation, suspect);
    Fixture { registry, state, police, suspect, investigation, evidence }
}

fn add_character_evidence(
    state: &mut AppState,
    police: OrganizationId,
    investigation: InvestigationId,
    suspect: CharacterId,
) -> EvidenceId {
    let now = state.now();
    validate_add_evidence(
        state,
        EvidenceDraft {
            investigation,
            custodian: police,
            subject: EntityRef::Character(suspect),
            origin: None,
            kind: EvidenceKind::Document,
            strength: EvidenceStrength::Strong,
            reliability: EvidenceReliability::HighlyReliable,
            admissibility: Admissibility::Admissible,
            discovered_at: now,
        },
    )
    .expect("case evidence should validate")
    .commit(state)
    .expect("case evidence should commit")
}

fn arrest_fixture(fixture: &mut Fixture) -> ArrestId {
    let corroborating = add_character_evidence(&mut fixture.state, fixture.police, fixture.investigation, fixture.suspect);
    validate_arrest(
        &fixture.registry,
        &fixture.state,
        ArrestDraft {
            character: fixture.suspect,
            investigation: fixture.investigation,
            evidence: vec![fixture.evidence, corroborating],
        },
    )
    .expect("evidence-backed arrest should validate")
    .commit(&mut fixture.state)
    .expect("evidence-backed arrest should commit")
}

fn add_two_same_source_informant_statements(fixture: &mut Fixture) -> Vec<EvidenceId> {
    let criminal = fixture
        .state
        .world()
        .get_character(fixture.suspect)
        .and_then(|record| record.organization())
        .expect("suspect fixture should belong to a criminal organization");
    let source = insert_character(&mut fixture.state, person("Single Confidential Source", Some(criminal)))
        .expect("confidential-source fixture should validate");
    let informant = validate_establish_informant(&fixture.state, InformantDraft { character: source, handler: fixture.police })
        .expect("informant relationship should validate")
        .commit(&mut fixture.state)
        .expect("informant relationship should commit");

    let mut statement_evidence = Vec::new();
    for (topic, summary) in [
        (InformationTopic::Personnel, "The source identifies the suspect through personnel knowledge."),
        (InformationTopic::OperationalOutcome, "The source independently describes the suspect's operational activity."),
    ] {
        let now = fixture.state.now();
        let information = validate_record_information(
            &fixture.state,
            InformationDraft {
                holder: KnowledgeHolder::Character(source),
                source_kind: InformationSourceKind::DirectObservation,
                topic,
                source_entity: None,
                subject: EntityRef::Character(fixture.suspect),
                observed_at: now,
                reliability: Reliability::DirectAccess,
                specificity: Specificity::Precise,
                summary: summary.to_owned(),
            },
        )
        .expect("source information should validate")
        .commit(&mut fixture.state)
        .expect("source information should commit");
        let disclosure = validate_record_informant_disclosure(
            &fixture.state,
            InformantDisclosureDraft { informant, investigation: fixture.investigation, source_information: information },
        )
        .expect("relevant source disclosure should validate")
        .commit(&mut fixture.state)
        .expect("source disclosure should commit");
        let evidence = fixture
            .state
            .legal()
            .disclosures
            .iter()
            .find(|record| record.id == disclosure)
            .expect("source disclosure should persist")
            .evidence;
        statement_evidence.push(evidence);
    }
    assert_eq!(statement_evidence.len(), 2);
    statement_evidence
}

#[test]
fn autonomous_arrest_prefers_stronger_case_over_earlier_investigation_id() {
    let mut fixture = fixture();
    add_character_evidence(&mut fixture.state, fixture.police, fixture.investigation, fixture.suspect);
    let stronger_case = open_case(
        &mut fixture.state,
        fixture.police,
        "Later stronger custody case",
        vec![EntityRef::Character(fixture.suspect)],
    );
    assert!(stronger_case > fixture.investigation);
    for _ in 0..3 {
        add_character_evidence(&mut fixture.state, fixture.police, stronger_case, fixture.suspect);
    }

    let arrests = apply_autonomous_evidence_arrests(&fixture.registry, &mut fixture.state)
        .expect("competing arrestable cases should resolve");
    assert_eq!(arrests.len(), 1);
    assert_eq!(
        fixture.state.legal().get_arrest(arrests[0]).expect("autonomous arrest should persist").investigation,
        stronger_case,
        "evidentiary strength must outrank investigation creation order"
    );
    assert!(validate_state(&fixture.state), "stronger-case custody state should validate");
}

#[test]
fn repeated_statements_from_one_named_source_count_as_one_corroborator() {
    let mut fixture = fixture();
    let mut statement_evidence = add_two_same_source_informant_statements(&mut fixture);

    let error = validate_arrest(
        &fixture.registry,
        &fixture.state,
        ArrestDraft {
            character: fixture.suspect,
            investigation: fixture.investigation,
            evidence: statement_evidence.clone(),
        },
    )
    .expect_err("two statements from one named source must remain one corroborator");
    assert_eq!(
        error,
        ArrestError::InsufficientIndependentEvidence {
            found: 1,
            required: fixture.registry.legal().minimum_arrest_qualifying_evidence(),
        }
    );

    statement_evidence.push(fixture.evidence);
    validate_arrest(
        &fixture.registry,
        &fixture.state,
        ArrestDraft { character: fixture.suspect, investigation: fixture.investigation, evidence: statement_evidence },
    )
    .expect("one named source plus one independent primary fact should satisfy corroboration");
    assert!(validate_state(&fixture.state), "same-source disclosure state should remain valid");
}

#[test]
fn direct_arrest_requires_authored_independent_corroboration() {
    let fixture = fixture();
    let error = validate_arrest(
        &fixture.registry,
        &fixture.state,
        ArrestDraft { character: fixture.suspect, investigation: fixture.investigation, evidence: vec![fixture.evidence] },
    )
    .expect_err("one strong fact must not bypass the authored custody corroboration bar");
    assert_eq!(
        error,
        ArrestError::InsufficientIndependentEvidence {
            found: 1,
            required: fixture.registry.legal().minimum_arrest_qualifying_evidence(),
        }
    );
}

#[test]
fn registry_validation_rejects_detention_persisted_past_maximum_custody() {
    let mut fixture = fixture();
    let arrest = arrest_fixture(&mut fixture);
    let maximum_detention = fixture.registry.legal().maximum_detention();
    let later = fixture.state.now().as_minutes() + u64::from(maximum_detention.as_minutes()) + 1;
    fixture.state.set_now(SimTime::from_minutes(later));

    assert!(validate_state(&fixture.state), "release-safe structure alone cannot know the authored custody duration");
    assert_eq!(
        validate_state_against_registry(&fixture.registry, &fixture.state),
        Err(StateValidationError::InvalidArrest { arrest })
    );
}

#[test]
fn registry_validation_rejects_release_recorded_after_maximum_custody() {
    let mut fixture = fixture();
    let arrest = arrest_fixture(&mut fixture);
    let maximum_detention = fixture.registry.legal().maximum_detention();
    let later = fixture.state.now().as_minutes() + u64::from(maximum_detention.as_minutes()) + 1;
    fixture.state.set_now(SimTime::from_minutes(later));
    validate_release_arrest(&fixture.state, arrest)
        .expect("structural release validation permits an explicit release at the current instant")
        .commit(&mut fixture.state)
        .expect("late fixture release should commit before registry-aware validation");

    assert!(validate_state(&fixture.state), "late released custody is structurally coherent without authored timing");
    assert_eq!(
        validate_state_against_registry(&fixture.registry, &fixture.state),
        Err(StateValidationError::InvalidArrest { arrest })
    );
}

#[test]
fn custody_release_horizon_overflow_clamps_to_last_representable_minute() {
    let mut fixture = fixture();
    let maximum_detention = fixture.registry.legal().maximum_detention();
    fixture
        .state
        .set_now(SimTime::from_minutes(u64::MAX - u64::from(maximum_detention.as_minutes()) + 1));
    let arrest = arrest_fixture(&mut fixture);

    let released = apply_due_custody_releases(&mut fixture.state, maximum_detention)
        .expect("custody before the clamped horizon should remain active");
    assert!(released.is_empty());

    fixture.state.set_now(SimTime::from_minutes(u64::MAX));
    assert_eq!(
        apply_due_custody_releases(&mut fixture.state, maximum_detention)
            .expect("last representable minute must release clamped custody"),
        vec![arrest]
    );
    let record = fixture.state.legal().get_arrest(arrest).expect("released arrest should remain persisted");
    assert_eq!(record.status(), ArrestStatus::Released);
    assert_eq!(record.released_at(), Some(SimTime::from_minutes(u64::MAX)));
    assert!(validate_state(&fixture.state));
}

#[test]
fn arrest_rejects_questionable_evidence_even_when_strong() {
    let mut fixture = fixture();
    let now = fixture.state.now();
    let questionable = validate_add_evidence(
        &fixture.state,
        EvidenceDraft {
            investigation: fixture.investigation,
            custodian: fixture.police,
            subject: EntityRef::Character(fixture.suspect),
            origin: None,
            kind: EvidenceKind::Surveillance,
            strength: EvidenceStrength::Strong,
            reliability: EvidenceReliability::Questionable,
            admissibility: Admissibility::Unknown,
            discovered_at: now,
        },
    )
    .expect("questionable material can remain part of an active investigation")
    .commit(&mut fixture.state)
    .expect("questionable material should persist as investigative evidence");

    let error = validate_arrest(
        &fixture.registry,
        &fixture.state,
        ArrestDraft { character: fixture.suspect, investigation: fixture.investigation, evidence: vec![questionable] },
    )
    .expect_err("questionable evidence must not justify custody merely because it is strong");
    assert_eq!(
        error,
        ArrestError::InsufficientEvidence {
            evidence: questionable,
            strength: EvidenceStrength::Strong,
            reliability: EvidenceReliability::Questionable,
        }
    );
    assert!(fixture.state.legal().active_arrest_for_character(fixture.suspect).is_none());
    assert!(validate_state(&fixture.state));
}

#[test]
fn autonomous_arrest_excludes_questionable_material_from_corroboration() {
    let mut fixture = fixture();
    let now = fixture.state.now();
    let questionable = validate_add_evidence(
        &fixture.state,
        EvidenceDraft {
            investigation: fixture.investigation,
            custodian: fixture.police,
            subject: EntityRef::Character(fixture.suspect),
            origin: None,
            kind: EvidenceKind::Surveillance,
            strength: EvidenceStrength::Strong,
            reliability: EvidenceReliability::Questionable,
            admissibility: Admissibility::Unknown,
            discovered_at: now,
        },
    )
    .expect("questionable surveillance should remain valid investigative material")
    .commit(&mut fixture.state)
    .expect("questionable surveillance should persist");

    assert!(
        apply_autonomous_evidence_arrests(&fixture.registry, &mut fixture.state)
            .expect("questionable evidence should be ignored rather than failing the pass")
            .is_empty(),
        "one reliable item plus one questionable item does not satisfy corroboration"
    );

    let corroborating = add_character_evidence(&mut fixture.state, fixture.police, fixture.investigation, fixture.suspect);
    let arrests = apply_autonomous_evidence_arrests(&fixture.registry, &mut fixture.state)
        .expect("two independently usable items should resolve to custody");
    assert_eq!(arrests.len(), 1);
    let arrest = fixture.state.legal().get_arrest(arrests[0]).expect("autonomous arrest should persist");
    assert_eq!(
        arrest.evidence,
        vec![fixture.evidence, corroborating],
        "questionable material stays in the case graph but is not cited as custody support"
    );
    assert!(!arrest.evidence.contains(&questionable));
    assert!(validate_state(&fixture.state));
}

#[test]
fn autonomous_arrest_is_evidence_driven_not_case_origin_driven() {
    let mut fixture = fixture();
    let second = add_character_evidence(&mut fixture.state, fixture.police, fixture.investigation, fixture.suspect);

    let arrests = apply_autonomous_evidence_arrests(&fixture.registry, &mut fixture.state)
        .expect("qualifying institution-authored evidence should resolve to custody");
    assert_eq!(arrests.len(), 1);
    let record = fixture.state.legal().get_arrest(arrests[0]).expect("autonomous arrest should persist");
    assert_eq!(record.character(), fixture.suspect);
    assert_eq!(record.investigation, fixture.investigation);
    assert_eq!(record.evidence, vec![fixture.evidence, second]);
    assert!(validate_state(&fixture.state), "evidence-driven custody state should validate");
}

#[test]
fn autonomous_arrest_leaves_legal_authority_cases_outside_police_custody() {
    let mut fixture = fixture();
    let legal_authority = organization(&mut fixture.state, "Municipal Investigative Authority", OrganizationKind::LegalAuthority);
    let investigation = open_case(
        &mut fixture.state,
        legal_authority,
        "Administrative corruption file",
        vec![EntityRef::Character(fixture.suspect)],
    );
    for kind in [EvidenceKind::Document, EvidenceKind::FinancialRecord] {
        let now = fixture.state.now();
        validate_add_evidence(
            &fixture.state,
            EvidenceDraft {
                investigation,
                custodian: legal_authority,
                subject: EntityRef::Character(fixture.suspect),
                origin: None,
                kind,
                strength: EvidenceStrength::Strong,
                reliability: EvidenceReliability::HighlyReliable,
                admissibility: Admissibility::Admissible,
                discovered_at: now,
            },
        )
        .expect("legal-authority evidence should validate")
        .commit(&mut fixture.state)
        .expect("legal-authority evidence should commit");
    }

    let arrests = apply_autonomous_evidence_arrests(&fixture.registry, &mut fixture.state)
        .expect("non-police investigative evidence must not break the autonomous custody pass");
    assert!(arrests.is_empty());
    assert!(fixture.state.legal().active_arrest_for_character(fixture.suspect).is_none());
    assert!(validate_state(&fixture.state), "legal-authority case should leave valid state");
}

#[test]
fn custody_cancels_scheduled_investigation_work_with_arrest_provenance() {
    let mut fixture = fixture();
    let second_authority = organization(&mut fixture.state, "Internal Affairs Authority", OrganizationKind::LawEnforcement);
    let detective = insert_character(&mut fixture.state, detective_draft("Investigated Detective", fixture.police, 85))
        .expect("detective should validate");
    let witness_subject = insert_character(&mut fixture.state, person("Separate Case Subject", None))
        .expect("separate case subject should validate");
    let work_case = open_case(&mut fixture.state, fixture.police, "Detective workload case", vec![EntityRef::Character(witness_subject)]);
    let work_evidence = add_character_evidence(&mut fixture.state, fixture.police, work_case, witness_subject);
    validate_assign_investigator(&fixture.state, work_case, detective)
        .expect("detective assignment should validate")
        .commit(&mut fixture.state)
        .expect("detective assignment should commit");
    let work = validate_schedule_investigation_work(
        &fixture.registry,
        &fixture.state,
        InvestigationWorkDraft {
            investigation: work_case,
            investigator: detective,
            kind: InvestigationWorkKind::EvidenceReview,
            focus: InvestigationWorkFocus::Evidence(work_evidence),
        },
    )
    .expect("detective work should validate")
    .commit(&mut fixture.state)
    .expect("detective work should commit");
    let work_case_activity_before_detention =
        fixture.state.legal().get_investigation(work_case).expect("work case should persist").last_activity_at();
    fixture.state.advance_clock(crimocracy::base::SimDuration::from_minutes(60));

    let arrest_case = open_case(&mut fixture.state, second_authority, "Detective corruption case", vec![EntityRef::Character(detective)]);
    let arrest_evidence = add_character_evidence(&mut fixture.state, second_authority, arrest_case, detective);
    let arrest_corroboration = add_character_evidence(&mut fixture.state, second_authority, arrest_case, detective);
    let detained_at = fixture.state.now();
    let arrest = validate_arrest(
        &fixture.registry,
        &fixture.state,
        ArrestDraft { character: detective, investigation: arrest_case, evidence: vec![arrest_evidence, arrest_corroboration] },
    )
    .expect("scheduled detective work should not immunize its owner from custody")
    .commit(&mut fixture.state)
    .expect("custody should cancel scheduled work atomically");

    let work_record = fixture.state.legal().get_investigation_work(work).expect("cancelled work should remain historical");
    assert_eq!(work_record.status(), InvestigationWorkStatus::Cancelled);
    assert!(work_record.resolution().is_none());
    let cancellation = work_record.cancellation().expect("cancelled work should retain custody provenance");
    assert_eq!(cancellation.cancelled_at, detained_at);
    assert_eq!(cancellation.reason(), InvestigationWorkCancellationReason::InvestigatorDetained(arrest));
    assert!(fixture.state.legal().scheduled_work_for_investigator(detective).is_none());
    assert_eq!(
        fixture.state.legal().get_investigation(work_case).expect("active case should persist").lead_investigator(),
        None,
        "custody must release the detective's active lead seat"
    );
    assert_eq!(
        fixture.state.legal().get_investigation(work_case).expect("detention-preempted case should persist").last_activity_at(),
        work_case_activity_before_detention,
        "unrelated detective custody must not manufacture fresh investigative activity"
    );
    assert!(validate_state(&fixture.state), "work-cancellation custody state should validate");
}

#[test]
fn custody_preflights_shared_case_version_budget_for_work_cancel_and_lead_release() {
    let mut fixture = fixture();
    let detective = insert_character(&mut fixture.state, detective_draft("Capacity Detective", fixture.police, 85))
        .expect("detective should validate");
    let subject = insert_character(&mut fixture.state, person("Capacity Case Subject", None)).expect("case subject should validate");
    let case = open_case(&mut fixture.state, fixture.police, "Capacity workload case", vec![EntityRef::Character(subject)]);
    let evidence = add_character_evidence(&mut fixture.state, fixture.police, case, subject);
    validate_assign_investigator(&fixture.state, case, detective)
        .expect("detective assignment should validate")
        .commit(&mut fixture.state)
        .expect("detective assignment should commit");
    let work = validate_schedule_investigation_work(
        &fixture.registry,
        &fixture.state,
        InvestigationWorkDraft {
            investigation: case,
            investigator: detective,
            kind: InvestigationWorkKind::EvidenceReview,
            focus: InvestigationWorkFocus::Evidence(evidence),
        },
    )
    .expect("detective work should validate")
    .commit(&mut fixture.state)
    .expect("detective work should commit");
    let arrest_case = open_case(&mut fixture.state, fixture.police, "Capacity detective custody case", vec![EntityRef::Character(detective)]);
    let arrest_evidence = add_character_evidence(&mut fixture.state, fixture.police, arrest_case, detective);
    let arrest_corroboration = add_character_evidence(&mut fixture.state, fixture.police, arrest_case, detective);

    fixture.state.legal.investigations[(case.0 - 1) as usize].version = u32::MAX - 1;
    let error = validate_arrest(
        &fixture.registry,
        &fixture.state,
        ArrestDraft { character: detective, investigation: arrest_case, evidence: vec![arrest_evidence, arrest_corroboration] },
    )
    .expect_err("custody must reject before two case-version advances exceed capacity");
    assert_eq!(error, ArrestError::VersionCapacity(VersionedRecord::Investigation));
    assert_eq!(
        fixture.state.legal().get_investigation(case).expect("rejected capacity preflight must preserve the case").version(),
        u32::MAX - 1
    );
    assert!(fixture
        .state
        .legal()
        .get_investigation_work(work)
        .is_some_and(|record| record.status() == InvestigationWorkStatus::Scheduled));
    assert_eq!(
        fixture.state.legal().get_investigation(case).expect("rejected arrest must preserve work-case staffing").lead_investigator(),
        Some(detective)
    );
    assert!(fixture.state.legal().active_arrest_for_character(detective).is_none());
}

#[test]
fn autonomous_custody_does_not_rearrest_a_released_subject_from_the_same_case() {
    let mut fixture = fixture();
    let corroborating = add_character_evidence(&mut fixture.state, fixture.police, fixture.investigation, fixture.suspect);
    let arrests = apply_autonomous_evidence_arrests(&fixture.registry, &mut fixture.state)
        .expect("two independent strong items should produce autonomous custody");
    assert_eq!(arrests.len(), 1);
    let first = arrests[0];
    assert_eq!(
        fixture.state.legal().get_arrest(first).expect("autonomous arrest should persist").evidence,
        vec![fixture.evidence, corroborating]
    );

    validate_release_arrest(&fixture.state, first)
        .expect("autonomous custody should remain canonically releasable")
        .commit(&mut fixture.state)
        .expect("release should commit");
    assert!(
        apply_autonomous_evidence_arrests(&fixture.registry, &mut fixture.state)
            .expect("post-release autonomous custody pass should resolve")
            .is_empty(),
        "unchanged evidence must not create an automatic release/re-arrest loop"
    );
    assert_eq!(
        fixture.state.legal().arrests.iter().filter(|a| a.investigation == fixture.investigation).count(),
        1
    );

    let explicit_rearrest = validate_arrest(
        &fixture.registry,
        &fixture.state,
        ArrestDraft {
            character: fixture.suspect,
            investigation: fixture.investigation,
            evidence: vec![fixture.evidence, corroborating],
        },
    )
    .expect("the canonical command may deliberately re-arrest after release")
    .commit(&mut fixture.state)
    .expect("explicit re-arrest should commit");
    assert_ne!(explicit_rearrest, first);
    assert!(validate_state(&fixture.state), "one-shot autonomous custody state should validate");
}

#[test]
fn arrest_validation_is_case_specific_and_stales_when_case_evidence_changes() {
    let mut fixture = fixture();
    let corroborating = add_character_evidence(&mut fixture.state, fixture.police, fixture.investigation, fixture.suspect);
    let stale = validate_arrest(
        &fixture.registry,
        &fixture.state,
        ArrestDraft {
            character: fixture.suspect,
            investigation: fixture.investigation,
            evidence: vec![fixture.evidence, corroborating],
        },
    )
    .expect("initial arrest plan should validate");
    add_character_evidence(&mut fixture.state, fixture.police, fixture.investigation, fixture.suspect);
    let error = stale.commit(&mut fixture.state).expect_err("case mutation must stale a previously validated arrest");
    assert!(matches!(error, ArrestError::StaleInvestigation { .. }));
    assert!(fixture.state.legal().active_arrest_for_character(fixture.suspect).is_none());

    let second_case = open_case(&mut fixture.state, fixture.police, "Separate case", vec![EntityRef::Character(fixture.suspect)]);
    let foreign_evidence = add_character_evidence(&mut fixture.state, fixture.police, second_case, fixture.suspect);
    let error = validate_arrest(
        &fixture.registry,
        &fixture.state,
        ArrestDraft { character: fixture.suspect, investigation: fixture.investigation, evidence: vec![foreign_evidence] },
    )
    .expect_err("evidence from another case must not support this arrest");
    assert_eq!(
        error,
        ArrestError::EvidenceInvestigationMismatch { evidence: foreign_evidence, investigation: fixture.investigation }
    );
    assert!(validate_state(&fixture.state), "rejected arrest attempts must preserve valid state");
}

#[test]
fn active_detention_blocks_case_suspension_and_membership_escape_until_release() {
    let mut fixture = fixture();
    let arrest = arrest_fixture(&mut fixture);

    let transition_error =
        validate_transition_investigation(&fixture.state, fixture.investigation, InvestigationTransition::Suspend)
            .expect_err("active detention must keep its source case unsuspended");
    assert_eq!(
        transition_error,
        InvestigationError::ActiveArrestBlocksTransition { investigation: fixture.investigation, arrest }
    );
    validate_transition_investigation(&fixture.state, fixture.investigation, InvestigationTransition::Close)
        .expect("a cleared case must close while its subject is in custody");
    let reassignment_error = validate_reassign_character(&fixture.state, fixture.suspect, None)
        .expect_err("detained character must not escape custody through reassignment");
    assert_eq!(reassignment_error, WorldError::ActiveArrestAssignment { character: fixture.suspect, arrest });

    validate_release_arrest(&fixture.state, arrest)
        .expect("detention should release")
        .commit(&mut fixture.state)
        .expect("release should commit");
    validate_transition_investigation(&fixture.state, fixture.investigation, InvestigationTransition::Close)
        .expect("released custody no longer requires an active source case")
        .commit(&mut fixture.state)
        .expect("case close should commit after release");
    validate_reassign_character(&fixture.state, fixture.suspect, None)
        .expect("released character should permit ordinary membership changes")
        .commit(&mut fixture.state)
        .expect("membership change should commit after release");
    assert!(validate_state(&fixture.state), "post-release lifecycle state should validate");
}

#[test]
fn released_detention_records_its_release_instant() {
    let mut fixture = fixture();
    let arrest = arrest_fixture(&mut fixture);
    fixture.state.advance_clock(crimocracy::base::SimDuration::from_minutes(30));
    validate_release_arrest(&fixture.state, arrest).expect("release should validate").commit(&mut fixture.state).expect("release should commit");
    let record = fixture.state.legal().get_arrest(arrest).expect("arrest should persist");
    assert_eq!(record.status(), ArrestStatus::Released);
    assert_eq!(record.released_at(), Some(SimTime::from_minutes(30)));
    assert_eq!(record.version(), 2);
    assert_eq!(
        validate_release_arrest(&fixture.state, arrest).expect_err("a released arrest cannot be released again"),
        ArrestError::NotDetained(arrest)
    );
}

#[test]
fn autonomous_arrest_can_cite_developed_evidence_when_primary_source_is_not_custody_grade() {
    let mut fixture = fixture();
    let case = open_case(&mut fixture.state, fixture.police, "Developed corroboration custody case", vec![EntityRef::Character(fixture.suspect)]);
    let now = fixture.state.now();
    let source = validate_add_evidence(
        &fixture.state,
        EvidenceDraft {
            investigation: case,
            custodian: fixture.police,
            subject: EntityRef::Character(fixture.suspect),
            origin: None,
            kind: EvidenceKind::Document,
            strength: EvidenceStrength::Corroborating,
            reliability: EvidenceReliability::Questionable,
            admissibility: Admissibility::Admissible,
            discovered_at: now,
        },
    )
    .expect("questionable source should remain valid investigative evidence")
    .commit(&mut fixture.state)
    .expect("questionable source should commit");
    let detective = insert_character(&mut fixture.state, detective_draft("Development Detective", fixture.police, 100))
        .expect("development detective should validate");
    validate_assign_investigator(&fixture.state, case, detective)
        .expect("development detective assignment should validate")
        .commit(&mut fixture.state)
        .expect("development detective assignment should commit");
    let work = validate_schedule_investigation_work(
        &fixture.registry,
        &fixture.state,
        InvestigationWorkDraft {
            investigation: case,
            investigator: detective,
            kind: InvestigationWorkKind::EvidenceReview,
            focus: InvestigationWorkFocus::evidence(source),
        },
    )
    .expect("questionable source review should schedule")
    .commit(&mut fixture.state)
    .expect("questionable source review should commit");
    let due = fixture.state.legal().get_investigation_work(work).expect("review should persist").due_at();
    fixture.state.set_now(due);
    let plan = decide_investigation_work_resolution(&fixture.registry, &fixture.state, work, InvestigationWorkRandomness::new(0))
        .expect("due review should resolve");
    validate_investigation_work_resolution_plan(&fixture.registry, &fixture.state, plan)
        .expect("resolution should validate")
        .commit(&mut fixture.state)
        .expect("resolution should commit");
    let derived = fixture
        .state
        .legal()
        .get_investigation_work(work)
        .and_then(|work| work.resolution())
        .and_then(|resolution| resolution.derived_evidence())
        .expect("high-skill review should develop qualifying forensic evidence");
    let developed = fixture.state.legal().get_evidence(derived).expect("developed forensic evidence should persist");
    assert_eq!(developed.strength(), EvidenceStrength::Corroborating);
    assert_eq!(developed.reliability(), EvidenceReliability::Mixed);
    assert!(!evidence_qualifies_for_custody(&fixture.state.legal().get_evidence(source).expect("primary source should persist")));
    assert!(evidence_qualifies_for_custody(&developed));
    let strong = add_character_evidence(&mut fixture.state, fixture.police, case, fixture.suspect);

    let arrests = apply_autonomous_evidence_arrests(&fixture.registry, &mut fixture.state)
        .expect("developed corroboration should produce a valid autonomous arrest");
    assert_eq!(arrests.len(), 1);
    let arrest = fixture.state.legal().get_arrest(arrests[0]).expect("developed-evidence arrest should persist");
    assert_eq!(arrest.investigation, case);
    let mut cited = arrest.evidence.clone();
    cited.sort();
    let mut expected = vec![derived, strong];
    expected.sort();
    assert_eq!(cited, expected);
    assert!(!arrest.evidence.contains(&source));
    assert!(validate_state(&fixture.state), "developed-evidence custody state should validate");
}

#[test]
fn restore_rejects_arrest_backed_by_nonqualifying_evidence() {
    let mut fixture = fixture();
    let arrest = arrest_fixture(&mut fixture);
    assert_eq!(validate_state_against_registry(&fixture.registry, &fixture.state), Ok(()));
    // A persisted state whose cited evidence was rewritten to a grade canonical arrest rejects
    // must not be accepted as authored state.
    let index = (fixture.evidence.0 - 1) as usize;
    fixture.state.legal.evidence[index].reliability = EvidenceReliability::Questionable;
    assert_eq!(
        validate_state_against_registry(&fixture.registry, &fixture.state),
        Err(StateValidationError::InvalidArrest { arrest })
    );
}

#[test]
fn derived_forensic_evidence_cannot_satisfy_the_custody_bar_alone() {
    let mut fixture = fixture();
    let crew = fixture.state.world.characters[(fixture.suspect.0 - 1) as usize]
        .organization
        .expect("suspect should hold membership");
    let detective = insert_character(&mut fixture.state, detective_draft("Forensic Detective", fixture.police, 90))
        .expect("detective fixture should validate");
    let operation = insert_operation(&mut fixture.state, crew).expect("operation should commit");
    // An operation-originated case with exactly one independent strong item on the suspect.
    let now = fixture.state.now();
    let outcome = validate_incident_intake(
        &fixture.state,
        IncidentIntakeDraft {
            owner: fixture.police,
            title: "Single-source inquiry".to_owned(),
            subjects: vec![EntityRef::Operation(operation), EntityRef::Character(fixture.suspect)],
            evidence: vec![IncidentEvidenceDraft {
                subject: EntityRef::Character(fixture.suspect),
                origin: Some(EntityRef::Operation(operation)),
                kind: EvidenceKind::Fingerprint,
                strength: EvidenceStrength::Strong,
                reliability: EvidenceReliability::HighlyReliable,
                admissibility: Admissibility::Admissible,
                discovered_at: now,
            }],
            origin: Some(EntityRef::Operation(operation)),
            notified_organizations: vec![crew],
            witness: None,
        },
    )
    .expect("originated case should validate")
    .commit(&mut fixture.state)
    .expect("originated case should commit");
    let case = outcome.investigation;
    let source = *outcome.evidence.first().expect("intake carries its evidence");
    validate_assign_investigator(&fixture.state, case, detective)
        .expect("case staffing should validate")
        .commit(&mut fixture.state)
        .expect("case staffing should commit");

    // Develop the source: the forensic derivative clones its subject and strength.
    let work = validate_schedule_investigation_work(
        &fixture.registry,
        &fixture.state,
        InvestigationWorkDraft {
            investigation: case,
            investigator: detective,
            kind: InvestigationWorkKind::EvidenceReview,
            focus: InvestigationWorkFocus::evidence(source),
        },
    )
    .expect("reviewable source should schedule")
    .commit(&mut fixture.state)
    .expect("review should commit");
    let due = fixture.state.legal().get_investigation_work(work).expect("review should persist").due_at();
    fixture.state.set_now(due);
    let plan = decide_investigation_work_resolution(&fixture.registry, &fixture.state, work, InvestigationWorkRandomness::new(0))
        .expect("due review should resolve");
    validate_investigation_work_resolution_plan(&fixture.registry, &fixture.state, plan)
        .expect("resolution should validate")
        .commit(&mut fixture.state)
        .expect("resolution should commit");
    let derived = fixture
        .state
        .legal()
        .get_investigation_work(work)
        .and_then(|work| work.resolution())
        .and_then(|resolution| resolution.derived_evidence())
        .expect("the review must have produced a forensic derivative");

    let error = validate_arrest(
        &fixture.registry,
        &fixture.state,
        ArrestDraft { character: fixture.suspect, investigation: case, evidence: vec![source, derived] },
    )
    .err()
    .expect("a source and its forensic derivative must remain one corroborating fact");
    assert_eq!(
        error,
        ArrestError::InsufficientIndependentEvidence {
            found: 1,
            required: fixture.registry.legal().minimum_arrest_qualifying_evidence(),
        }
    );

    // One independent item plus its own derivative is still one fact: no custody.
    assert!(
        apply_autonomous_evidence_arrests(&fixture.registry, &mut fixture.state)
            .expect("autonomous arrest pass should resolve")
            .is_empty(),
        "a derived analysis must not corroborate its own source"
    );

    // A second independent strong item completes the corroboration bar and custody follows.
    let second = add_character_evidence(&mut fixture.state, fixture.police, case, fixture.suspect);
    assert!(validate_arrest(
        &fixture.registry,
        &fixture.state,
        ArrestDraft { character: fixture.suspect, investigation: case, evidence: vec![derived, second] },
    )
    .is_ok(), "a forensic derivative may stand in for its source without creating a new source");
    let arrests = apply_autonomous_evidence_arrests(&fixture.registry, &mut fixture.state)
        .expect("autonomous arrest pass should resolve");
    assert_eq!(arrests.len(), 1);
    let record = fixture.state.legal().get_arrest(arrests[0]).expect("arrest record should persist");
    assert_eq!(record.character(), fixture.suspect);
    assert_eq!(record.evidence, vec![source, second], "autonomous custody cites the primary evidence sources");
    assert!(validate_state(&fixture.state), "custody state should remain valid");
}

#[test]
fn restore_rejects_arrest_with_duplicate_named_corroboration_source() {
    let mut fixture = fixture();
    let statement_evidence = add_two_same_source_informant_statements(&mut fixture);
    let first_statement = *statement_evidence.first().expect("same-source fixture should contain statement evidence");
    let arrest = validate_arrest(
        &fixture.registry,
        &fixture.state,
        ArrestDraft {
            character: fixture.suspect,
            investigation: fixture.investigation,
            evidence: vec![fixture.evidence, first_statement],
        },
    )
    .expect("one named source plus one primary fact should support a valid arrest")
    .commit(&mut fixture.state)
    .expect("valid mixed-source arrest should commit");
    assert_eq!(validate_state_against_registry(&fixture.registry, &fixture.state), Ok(()));

    // Rewrite the persisted arrest so that it cites only the two statements of one named source.
    let index = (arrest.0 - 1) as usize;
    assert_eq!(fixture.state.legal.arrests[index].id, arrest);
    assert_eq!(fixture.state.legal.arrests[index].evidence.len(), statement_evidence.len());
    fixture.state.legal.arrests[index].evidence = statement_evidence;
    assert_eq!(
        validate_state_against_registry(&fixture.registry, &fixture.state),
        Err(StateValidationError::InvalidArrest { arrest }),
        "restore must enforce the same named-source corroboration rule as runtime"
    );
}

#[test]
fn arrest_and_release_are_durable_indexed_lifecycle_records() {
    let mut fixture = fixture();
    let arrest = arrest_fixture(&mut fixture);
    let record = fixture.state.legal().get_arrest(arrest).expect("arrest should persist");
    assert_eq!(record.status(), ArrestStatus::Detained);
    assert_eq!(record.version(), 1);
    assert_eq!(record.authority, fixture.police);
    assert_eq!(record.evidence.len(), 2);
    assert!(record.evidence.contains(&fixture.evidence));
    let arrest_evidence = record.evidence.clone();
    assert_eq!(fixture.state.legal().active_arrest_for_character(fixture.suspect), Some(arrest));
    assert_eq!(
        fixture.state.legal().arrests.iter().filter(|record| record.investigation == fixture.investigation).count(),
        1
    );
    assert!(validate_state(&fixture.state), "detention state should validate");

    // Release at once, then a later evidence-backed arrest of the same person gets a fresh ID.
    validate_release_arrest(&fixture.state, arrest)
        .expect("detention should remain releasable")
        .commit(&mut fixture.state)
        .expect("detention release should commit");
    let rearrest = validate_arrest(
        &fixture.registry,
        &fixture.state,
        ArrestDraft { character: fixture.suspect, investigation: fixture.investigation, evidence: arrest_evidence },
    )
    .expect("released character should permit a later evidence-backed arrest")
    .commit(&mut fixture.state)
    .expect("later arrest should commit with a fresh ID");
    assert_ne!(rearrest, arrest);
    assert_eq!(fixture.state.legal().arrests.iter().filter(|record| record.character() == fixture.suspect).count(), 2);
    assert_eq!(fixture.state.legal().active_arrest_for_character(fixture.suspect), Some(rearrest));
    assert!(validate_state(&fixture.state), "re-arrest state should validate");

    // A separate detention released after 45 minutes keeps its history.
    let mut fixture = self::fixture();
    let arrest = arrest_fixture(&mut fixture);
    fixture.state.advance_clock(crimocracy::base::SimDuration::from_minutes(45));
    validate_release_arrest(&fixture.state, arrest)
        .expect("active detention should release")
        .commit(&mut fixture.state)
        .expect("release should commit");
    let released = fixture.state.legal().get_arrest(arrest).expect("released arrest history should persist");
    assert_eq!(released.status(), ArrestStatus::Released);
    assert_eq!(released.version(), 2);
    assert_eq!(released.released_at(), Some(fixture.state.now()));
    assert!(fixture.state.legal().active_arrest_for_character(fixture.suspect).is_none());
    assert_eq!(fixture.state.legal().arrests.iter().filter(|record| record.character() == fixture.suspect).count(), 1);
    assert!(validate_state(&fixture.state), "released custody history should validate");
}

#[test]
fn due_custody_release_bounds_detention_at_the_authored_window() {
    let mut fixture = fixture();
    let arrest = arrest_fixture(&mut fixture);
    let maximum_detention = fixture.registry.legal().maximum_detention();

    fixture
        .state
        .advance_clock(crimocracy::base::SimDuration::from_minutes(maximum_detention.as_minutes() - 1));
    assert!(
        apply_due_custody_releases(&mut fixture.state, maximum_detention)
            .expect("pre-deadline custody pass should resolve")
            .is_empty(),
        "detention must remain active until the complete authored window elapses"
    );
    assert_eq!(fixture.state.legal().get_arrest(arrest).map(|record| record.status()), Some(ArrestStatus::Detained));

    fixture.state.advance_clock(crimocracy::base::SimDuration::from_minutes(1));
    assert_eq!(
        apply_due_custody_releases(&mut fixture.state, maximum_detention).expect("deadline custody pass should resolve"),
        vec![arrest],
        "the custody pass must surface the authored custody release"
    );
    let record = fixture.state.legal().get_arrest(arrest).expect("released arrest remains durable history");
    assert_eq!(record.status(), ArrestStatus::Released);
    assert_eq!(record.released_at(), Some(fixture.state.now()));
    assert!(fixture.state.legal().active_arrest_for_character(fixture.suspect).is_none());
    assert!(validate_state(&fixture.state), "bounded custody release state should validate");
    assert_eq!(validate_state_against_registry(&fixture.registry, &fixture.state), Ok(()));
}

#[test]
fn release_of_a_detention_without_revisions_left_names_the_arrest_record() {
    let mut fixture = fixture();
    let arrest = arrest_fixture(&mut fixture);
    let index = (arrest.0 - 1) as usize;
    fixture.state.legal.arrests[index].version = u32::MAX;
    assert_eq!(
        validate_release_arrest(&fixture.state, arrest).expect_err("a detention at its last revision cannot be released"),
        ArrestError::VersionCapacity(VersionedRecord::Arrest)
    );
}
