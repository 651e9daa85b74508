use crimocracy::base::{EntityRef, EvidenceId, InvestigationId, OrganizationId};
use crimocracy::invariants::validate_state;
use crimocracy::legal::case_graph::{resolve_evidence_path, CaseGraphError};
use crimocracy::legal::investigation_system::{
    validate_add_evidence, validate_open_investigation, EvidenceDraft, InvestigationDraft,
    InvestigationError,
};
use crimocracy::legal::{Admissibility, EvidenceKind, EvidenceReliability, EvidenceStrength};
use crimocracy::state::{insert_character, insert_organization, AppState};
use crimocracy::world::{CharacterDraft, OrganizationDraft, OrganizationKind};

fn organization(state: &mut AppState, name: &str, kind: OrganizationKind) -> OrganizationId {
    insert_organization(state, OrganizationDraft { name: name.to_owned(), kind }).expect("organization fixture should validate")
}

fn associate(state: &mut AppState, name: &str, organization: OrganizationId) -> crimocracy::base::CharacterId {
    insert_character(
        state,
        CharacterDraft { name: name.to_owned(), organization: Some(organization), investigation: None, safety: None },
    )
    .expect("associate should validate")
}

fn open_case(state: &mut AppState, owner: OrganizationId, title: &str, subjects: Vec<EntityRef>) -> InvestigationId {
    validate_open_investigation(state, InvestigationDraft { owner, title: title.to_owned(), subjects })
        .expect("investigation should validate")
        .commit(state)
        .expect("investigation should commit")
}

fn add_link(
    state: &mut AppState,
    investigation: InvestigationId,
    custodian: OrganizationId,
    subject: EntityRef,
    origin: EntityRef,
    strength: EvidenceStrength,
) -> EvidenceId {
    let now = state.now();
    validate_add_evidence(
        state,
        EvidenceDraft {
            investigation,
            custodian,
            subject,
            origin: Some(origin),
            kind: EvidenceKind::KnownAssociation,
            strength,
            reliability: EvidenceReliability::Credible,
            admissibility: Admissibility::Unknown,
            discovered_at: now,
        },
    )
    .expect("graph evidence should validate")
    .commit(state)
    .expect("graph evidence should commit")
}

#[test]
fn evidence_path_uses_stable_shortest_case_owned_links() {
    let mut state = AppState::new(0xCA5E_6A4F);
    let police = organization(&mut state, "Graph Bureau", OrganizationKind::LawEnforcement);
    let criminal = organization(&mut state, "Graph Crew", OrganizationKind::Criminal);
    let first = associate(&mut state, "First Associate", criminal);
    let target = associate(&mut state, "Target Associate", criminal);
    let alternate = associate(&mut state, "Alternate Associate", criminal);
    let investigation = open_case(&mut state, police, "Linked associates", vec![EntityRef::Organization(criminal)]);

    let corroborating = EvidenceStrength::Corroborating;
    let first_edge = add_link(&mut state, investigation, police, EntityRef::Character(first), EntityRef::Organization(criminal), corroborating);
    let first_target_edge = add_link(&mut state, investigation, police, EntityRef::Character(target), EntityRef::Character(first), corroborating);
    add_link(&mut state, investigation, police, EntityRef::Character(alternate), EntityRef::Organization(criminal), corroborating);
    add_link(&mut state, investigation, police, EntityRef::Character(target), EntityRef::Character(alternate), corroborating);

    let unrelated_investigation = open_case(&mut state, police, "Separate direct link", vec![EntityRef::Character(target)]);
    let unrelated_direct_edge = add_link(
        &mut state,
        unrelated_investigation,
        police,
        EntityRef::Character(target),
        EntityRef::Organization(criminal),
        EvidenceStrength::Strong,
    );

    let path = resolve_evidence_path(&state, investigation, EntityRef::Organization(criminal), EntityRef::Character(target))
        .expect("case graph should resolve")
        .expect("target should be connected by case evidence");
    assert_eq!(path.links.len(), 2);
    assert_eq!(path.links[0].evidence, first_edge);
    assert_eq!(path.links[1].evidence, first_target_edge);
    assert_eq!(path.links[0].from, EntityRef::Organization(criminal));
    assert_eq!(path.links[1].to, EntityRef::Character(target));

    let unrelated_path =
        resolve_evidence_path(&state, unrelated_investigation, EntityRef::Organization(criminal), EntityRef::Character(target))
            .expect("separate case graph should resolve")
            .expect("separate case should contain its direct link");
    assert_eq!(unrelated_path.links.len(), 1);
    assert_eq!(unrelated_path.links[0].evidence, unrelated_direct_edge);
}

#[test]
fn evidence_path_handles_missing_cases_isolated_entities_and_trivial_queries() {
    let mut state = AppState::new(0xCA5E_6A50);
    let police = organization(&mut state, "Path Bureau", OrganizationKind::LawEnforcement);
    let criminal = organization(&mut state, "Path Crew", OrganizationKind::Criminal);
    let linked = associate(&mut state, "Linked", criminal);
    let loner = associate(&mut state, "Loner", criminal);
    let investigation = open_case(&mut state, police, "Sparse links", vec![EntityRef::Organization(criminal)]);
    add_link(&mut state, investigation, police, EntityRef::Character(linked), EntityRef::Organization(criminal), EvidenceStrength::Weak);

    let missing = InvestigationId(99);
    assert_eq!(
        resolve_evidence_path(&state, missing, EntityRef::Character(linked), EntityRef::Character(loner)),
        Err(CaseGraphError::MissingInvestigation(missing))
    );
    let itself = resolve_evidence_path(&state, investigation, EntityRef::Character(linked), EntityRef::Character(linked))
        .expect("query should resolve")
        .expect("an entity on case evidence reaches itself");
    assert!(itself.links.is_empty());
    assert_eq!(
        resolve_evidence_path(&state, investigation, EntityRef::Character(loner), EntityRef::Character(loner)),
        Ok(None)
    );
    assert_eq!(
        resolve_evidence_path(&state, investigation, EntityRef::Character(linked), EntityRef::Character(loner)),
        Ok(None)
    );
    let reverse = resolve_evidence_path(&state, investigation, EntityRef::Character(linked), EntityRef::Organization(criminal))
        .expect("query should resolve")
        .expect("links can be followed against the direction of the evidence");
    assert_eq!(reverse.links.len(), 1);
    assert_eq!(reverse.links[0].from, EntityRef::Character(linked));
}

#[test]
fn case_graph_indexes_track_shared_subjects_and_evidence_kinds() {
    let mut state = AppState::new(0xCA53_1933);
    let police = organization(&mut state, "Case Graph Precinct", OrganizationKind::LawEnforcement);
    let other_police = organization(&mut state, "Foreign Precinct", OrganizationKind::LawEnforcement);
    let criminal = organization(&mut state, "Case Graph Crew", OrganizationKind::Criminal);
    let character = associate(&mut state, "Case Graph Associate", criminal);

    let first = open_case(&mut state, police, "First linked incident", vec![EntityRef::Organization(criminal)]);
    let evidence = add_link(
        &mut state,
        first,
        police,
        EntityRef::Character(character),
        EntityRef::Organization(criminal),
        EvidenceStrength::Corroborating,
    );
    let second = open_case(&mut state, police, "Second linked incident", vec![EntityRef::Character(character)]);

    assert_eq!(state.legal().investigations_for_subject(EntityRef::Character(character)), vec![first, second]);
    assert_eq!(state.legal().evidence_of_kind(EvidenceKind::KnownAssociation), vec![evidence]);
    assert_eq!(state.legal().evidence_from_origin(EntityRef::Organization(criminal)), vec![evidence]);

    let now = state.now();
    let error = match validate_add_evidence(
        &state,
        EvidenceDraft {
            investigation: first,
            custodian: other_police,
            subject: EntityRef::Character(character),
            origin: None,
            kind: EvidenceKind::WitnessTestimony,
            strength: EvidenceStrength::Weak,
            reliability: EvidenceReliability::Questionable,
            admissibility: Admissibility::Unknown,
            discovered_at: now,
        },
    ) {
        Ok(_) => panic!("foreign precinct must not append evidence to another authority's case"),
        Err(error) => error,
    };
    assert_eq!(error, InvestigationError::CustodianMismatch { investigation: first, custodian: other_police });
    assert!(validate_state(&state), "case graph indexes should remain structurally valid");
}

#[test]
fn evidence_path_ties_follow_entity_order_and_first_evidence_not_filing_order() {
    let mut state = AppState::new(0xCA5E_7B11);
    let police = organization(&mut state, "Tie Bureau", OrganizationKind::LawEnforcement);
    let crew = organization(&mut state, "Tie Crew", OrganizationKind::Criminal);
    let lower = associate(&mut state, "Lower Associate", crew);
    let higher = associate(&mut state, "Higher Associate", crew);
    let target = associate(&mut state, "Tie Target", crew);
    let case = open_case(&mut state, police, "Tied chains", vec![EntityRef::Organization(crew)]);
    let weak = EvidenceStrength::Corroborating;
    // The chain through the higher-numbered associate is filed first.
    add_link(&mut state, case, police, EntityRef::Character(higher), EntityRef::Organization(crew), weak);
    add_link(&mut state, case, police, EntityRef::Character(target), EntityRef::Character(higher), weak);
    let crew_lower = add_link(&mut state, case, police, EntityRef::Character(lower), EntityRef::Organization(crew), weak);
    // A second record of the same pair comes after the first and is not used.
    add_link(&mut state, case, police, EntityRef::Character(lower), EntityRef::Organization(crew), weak);
    let lower_target = add_link(&mut state, case, police, EntityRef::Character(target), EntityRef::Character(lower), weak);

    let path = resolve_evidence_path(&state, case, EntityRef::Organization(crew), EntityRef::Character(target))
        .expect("case graph should resolve")
        .expect("target should be reachable");
    assert_eq!(path.links.len(), 2);
    assert_eq!(path.links[0].to, EntityRef::Character(lower));
    assert_eq!(path.links[0].evidence, crew_lower);
    assert_eq!(path.links[1].evidence, lower_target);
    let again = resolve_evidence_path(&state, case, EntityRef::Organization(crew), EntityRef::Character(target))
        .expect("case graph should resolve")
        .expect("target should be reachable");
    assert_eq!(again, path);
    assert!(validate_state(&state));
}
