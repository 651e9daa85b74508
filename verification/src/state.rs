//! The authoritative simulation state and the world transactions that create its entities.

use vstd::prelude::*;
use crate::base::VersionedRecord;
use crate::base::{IdExhaustionError, IdKind};
use crate::base::{
    ArrestId, BusinessId, CharacterId, EnterpriseId, EntityRef, InformantId, InvestigationId,
    NeighborhoodId, OperationId, OrganizationId, SimDuration, SimTime,
};
use crate::intelligence::IntelligenceState;
use crate::legal::LegalState;
use crate::text::is_blank;
use crate::world::{
    CharacterDraft, CharacterRecord, EnterpriseRecord, OperationRecord, OrganizationDraft,
    OrganizationRecord, WorldState,
};

verus! {

/// Everything the simulation persists, plus the clock and the investigation random stream.
pub struct AppState {
    pub now: SimTime,
    pub world: WorldState,
    pub legal: LegalState,
    pub intelligence: IntelligenceState,
    /// The seed state of the investigation random stream. It is carried and persisted with the
    /// state, but nothing in this library advances it: the passes that need chance (resolution
    /// variance, recruitment rolls) take their draws as arguments from the caller, which owns
    /// the drawing algorithm.
    pub rng: u64,
}

/// Why a world transaction was refused.
#[derive(Clone, Copy, Debug, PartialEq, Eq, Structural)]
pub enum WorldError {
    EmptyName,
    MissingOrganization(OrganizationId),
    MissingCharacter(CharacterId),
    InvalidRating,
    ActiveArrestAssignment { character: CharacterId, arrest: ArrestId },
    ActiveInvestigationAssignment { character: CharacterId, investigation: InvestigationId },
    InformantHandlerConflict { character: CharacterId, handler: OrganizationId, informant: InformantId },
    StaleCharacter { character: CharacterId, expected: u32, found: u32 },
    IdExhaustion(IdExhaustionError),
    VersionCapacity(VersionedRecord),
}

impl AppState {
    pub open spec fn wf(self) -> bool {
        &&& self.world.wf()
        &&& self.legal.wf()
        &&& self.intelligence.wf()
        &&& forall|i: int|
            0 <= i < self.legal.investigations@.len() ==> self.world.organization_present(
                (#[trigger] self.legal.investigations@[i]).owner,
            ) && (self.legal.investigations@[i].lead_investigator matches Some(c) ==> self.world.character_present(c))
    }

    /// Whether a referenced entity exists.
    pub open spec fn entity_present(self, e: EntityRef) -> bool {
        match e {
            EntityRef::Character(id) => 1 <= id.0 <= self.world.characters@.len(),
            EntityRef::Organization(id) => 1 <= id.0 <= self.world.organizations@.len(),
            EntityRef::Neighborhood(id) => 1 <= id.0 <= self.world.neighborhoods,
            EntityRef::Business(id) => 1 <= id.0 <= self.world.businesses,
            EntityRef::Operation(id) => 1 <= id.0 <= self.world.operations@.len(),
            EntityRef::Investigation(id) => 1 <= id.0 <= self.legal.investigations@.len(),
            EntityRef::Evidence(id) => 1 <= id.0 <= self.legal.evidence@.len(),
            EntityRef::Enterprise(id) => 1 <= id.0 <= self.world.enterprises@.len(),
        }
    }

    /// An empty campaign at minute zero whose investigation stream starts from `seed`.
    pub fn new(seed: u64) -> (s: AppState)
        ensures
            s.wf(),
            s.now == SimTime(0),
            s.rng == seed,
            s.world.organizations@.len() == 0,
            s.world.characters@.len() == 0,
            s.world.neighborhoods == 0,
            s.world.businesses == 0,
            s.world.operations@.len() == 0,
            s.world.enterprises@.len() == 0,
            s.legal.investigations@.len() == 0,
            s.legal.evidence@.len() == 0,
            s.legal.arrests@.len() == 0,
            s.legal.case_witnesses@.len() == 0,
            s.legal.informants@.len() == 0,
            s.legal.disclosures@.len() == 0,
            s.legal.work@.len() == 0,
            s.intelligence.records@.len() == 0,
    {
        AppState {
            now: SimTime(0),
            world: WorldState {
                organizations: Vec::new(),
                characters: Vec::new(),
                neighborhoods: 0,
                businesses: 0,
                operations: Vec::new(),
                enterprises: Vec::new(),
            },
            legal: LegalState {
                investigations: Vec::new(),
                evidence: Vec::new(),
                arrests: Vec::new(),
                case_witnesses: Vec::new(),
                informants: Vec::new(),
                disclosures: Vec::new(),
                work: Vec::new(),
            },
            intelligence: IntelligenceState::new(),
            rng: seed,
        }
    }

    pub fn now(&self) -> (r: SimTime)
        ensures
            r == self.now,
    {
        self.now
    }

    pub fn legal(&self) -> (r: &LegalState)
        ensures
            *r == self.legal,
    {
        &self.legal
    }

    pub fn world(&self) -> (r: &WorldState)
        ensures
            *r == self.world,
    {
        &self.world
    }

    pub fn intelligence(&self) -> (r: &IntelligenceState)
        ensures
            *r == self.intelligence,
    {
        &self.intelligence
    }

    /// Moves the clock forward by `duration`.
    pub fn advance_clock(&mut self, duration: SimDuration)
        requires
            old(self).now.0 + duration.0 <= u64::MAX,
        ensures
            final(self).now.0 == old(self).now.0 + duration.0,
            final(self).world == old(self).world,
            final(self).legal == old(self).legal,
            final(self).intelligence == old(self).intelligence,
            final(self).rng == old(self).rng,
    {
        self.now = SimTime(self.now.0 + duration.0 as u64);
    }

    /// Puts the clock at `now`.
    pub fn set_now(&mut self, now: SimTime)
        ensures
            final(self).now == now,
            final(self).world == old(self).world,
            final(self).legal == old(self).legal,
            final(self).intelligence == old(self).intelligence,
            final(self).rng == old(self).rng,
    {
        self.now = now;
    }

    pub fn is_entity_present(&self, e: EntityRef) -> (r: bool)
        ensures
            r == self.entity_present(e),
    {
        match e {
            EntityRef::Character(id) => 1 <= id.0 && (id.0 as usize) <= self.world.characters.len(),
            EntityRef::Organization(id) => 1 <= id.0 && (id.0 as usize)
                <= self.world.organizations.len(),
            EntityRef::Neighborhood(id) => 1 <= id.0 && id.0 <= self.world.neighborhoods,
            EntityRef::Business(id) => 1 <= id.0 && id.0 <= self.world.businesses,
            EntityRef::Operation(id) => 1 <= id.0 && (id.0 as usize) <= self.world.operations.len(),
            EntityRef::Investigation(id) => 1 <= id.0 && (id.0 as usize)
                <= self.legal.investigations.len(),
            EntityRef::Evidence(id) => 1 <= id.0 && (id.0 as usize) <= self.legal.evidence.len(),
            EntityRef::Enterprise(id) => 1 <= id.0 && (id.0 as usize)
                <= self.world.enterprises.len(),
        }
    }
}

/// The organization a draft would create.
pub open spec fn organization_from_draft(id: OrganizationId, draft: OrganizationDraft) -> OrganizationRecord {
    OrganizationRecord { id, name: draft.name, kind: draft.kind }
}

/// Creates an organization.
pub fn insert_organization(state: &mut AppState, draft: OrganizationDraft) -> (r: Result<OrganizationId, WorldError>)
    requires
        old(state).wf(),
    ensures
        final(state).wf(),
        spec_is_blank_name(draft.name@) ==> r == Err::<OrganizationId, WorldError>(WorldError::EmptyName),
        !spec_is_blank_name(draft.name@) && old(state).world.organizations@.len() < u32::MAX ==> r
            == Ok::<OrganizationId, WorldError>(OrganizationId((old(state).world.organizations@.len() + 1) as u32)),
        r is Err ==> *final(state) == *old(state),
        r matches Ok(id) ==> final(state).world.organizations@ == old(state).world.organizations@.push(
            organization_from_draft(id, draft),
        ) && final(state).world.characters == old(state).world.characters
            && final(state).world.operations == old(state).world.operations
            && final(state).world.enterprises == old(state).world.enterprises
            && final(state).world.neighborhoods == old(state).world.neighborhoods
            && final(state).world.businesses == old(state).world.businesses
            && final(state).legal == old(state).legal
            && final(state).intelligence == old(state).intelligence
            && final(state).now == old(state).now && final(state).rng == old(state).rng,
{
    if is_blank(draft.name.as_str()) {
        return Err(WorldError::EmptyName);
    }
    let len = state.world.organizations.len();
    if len >= u32::MAX as usize {
        return Err(WorldError::IdExhaustion(IdExhaustionError::Exhausted { kind: IdKind::Organization }));
    }
    let id = OrganizationId((len + 1) as u32);
    state.world.organizations.push(OrganizationRecord { id, name: draft.name, kind: draft.kind });
    Ok(id)
}

pub open spec fn spec_is_blank_name(name: Seq<char>) -> bool {
    crate::text::spec_is_blank(name)
}

/// The character a draft would create.
pub open spec fn character_from_draft(id: CharacterId, draft: CharacterDraft) -> CharacterRecord {
    CharacterRecord {
        id,
        name: draft.name,
        organization: draft.organization,
        investigation: draft.investigation,
        safety: draft.safety,
        version: 1,
    }
}

/// Why a character draft cannot be created, if it cannot.
pub open spec fn character_draft_error(state: AppState, draft: CharacterDraft) -> Option<WorldError> {
    if spec_is_blank_name(draft.name@) {
        Some(WorldError::EmptyName)
    } else if draft.organization is Some && !state.world.organization_present(
        draft.organization->0,
    ) {
        Some(WorldError::MissingOrganization(draft.organization->0))
    } else if (draft.investigation is Some && !draft.investigation->0.valid()) || (
    draft.safety is Some && !draft.safety->0.valid()) {
        Some(WorldError::InvalidRating)
    } else if state.world.characters@.len() >= u32::MAX {
        Some(WorldError::IdExhaustion(IdExhaustionError::Exhausted { kind: IdKind::Character }))
    } else {
        None
    }
}

/// Creates a character.
pub fn insert_character(state: &mut AppState, draft: CharacterDraft) -> (r: Result<CharacterId, WorldError>)
    requires
        old(state).wf(),
    ensures
        final(state).wf(),
        match character_draft_error(*old(state), draft) {
            Some(e) => r == Err::<CharacterId, WorldError>(e) && *final(state) == *old(state),
            None => {
                let id = CharacterId((old(state).world.characters@.len() + 1) as u32);
                &&& r == Ok::<CharacterId, WorldError>(id)
                &&& final(state).world.characters@ == old(state).world.characters@.push(
                    character_from_draft(id, draft),
                )
                &&& final(state).world.organizations == old(state).world.organizations
                &&& final(state).world.operations == old(state).world.operations
                &&& final(state).world.enterprises == old(state).world.enterprises
                &&& final(state).world.neighborhoods == old(state).world.neighborhoods
                &&& final(state).world.businesses == old(state).world.businesses
                &&& final(state).legal == old(state).legal
                &&& final(state).intelligence == old(state).intelligence
                &&& final(state).now == old(state).now
                &&& final(state).rng == old(state).rng
            },
        },
{
    if is_blank(draft.name.as_str()) {
        return Err(WorldError::EmptyName);
    }
    if let Some(org) = draft.organization {
        if state.world.get_organization(org).is_none() {
            return Err(WorldError::MissingOrganization(org));
        }
    }
    let bad_investigation = match draft.investigation {
        Some(r) => r.0 > 100,
        None => false,
    };
    let bad_safety = match draft.safety {
        Some(r) => r.0 > 100,
        None => false,
    };
    if bad_investigation || bad_safety {
        return Err(WorldError::InvalidRating);
    }
    let len = state.world.characters.len();
    if len >= u32::MAX as usize {
        return Err(WorldError::IdExhaustion(IdExhaustionError::Exhausted { kind: IdKind::Character }));
    }
    let id = CharacterId((len + 1) as u32);
    state.world.characters.push(
        CharacterRecord {
            id,
            name: draft.name,
            organization: draft.organization,
            investigation: draft.investigation,
            safety: draft.safety,
            version: 1,
        },
    );
    Ok(id)
}

/// Adds a neighborhood.
pub fn insert_neighborhood(state: &mut AppState) -> (r: Result<NeighborhoodId, WorldError>)
    requires
        old(state).wf(),
    ensures
        final(state).wf(),
        old(state).world.neighborhoods < u32::MAX ==> r == Ok::<NeighborhoodId, WorldError>(
            NeighborhoodId((old(state).world.neighborhoods + 1) as u32),
        ) && final(state).world.neighborhoods == old(state).world.neighborhoods + 1,
        old(state).world.neighborhoods == u32::MAX ==> r == Err::<NeighborhoodId, WorldError>(
            WorldError::IdExhaustion(IdExhaustionError::Exhausted { kind: IdKind::Neighborhood }),
        ) && *final(state) == *old(state),
        final(state).legal == old(state).legal,
        final(state).intelligence == old(state).intelligence,
        final(state).world.characters == old(state).world.characters,
        final(state).world.organizations == old(state).world.organizations,
        final(state).world.operations == old(state).world.operations,
        final(state).world.enterprises == old(state).world.enterprises,
        final(state).world.businesses == old(state).world.businesses,
        final(state).now == old(state).now,
{
    if state.world.neighborhoods == u32::MAX {
        return Err(WorldError::IdExhaustion(IdExhaustionError::Exhausted { kind: IdKind::Neighborhood }));
    }
    state.world.neighborhoods = state.world.neighborhoods + 1;
    Ok(NeighborhoodId(state.world.neighborhoods))
}

/// Adds a business.
pub fn insert_business(state: &mut AppState) -> (r: Result<BusinessId, WorldError>)
    requires
        old(state).wf(),
    ensures
        final(state).wf(),
        old(state).world.businesses < u32::MAX ==> r == Ok::<BusinessId, WorldError>(
            BusinessId((old(state).world.businesses + 1) as u32),
        ) && final(state).world.businesses == old(state).world.businesses + 1,
        old(state).world.businesses == u32::MAX ==> r == Err::<BusinessId, WorldError>(
            WorldError::IdExhaustion(IdExhaustionError::Exhausted { kind: IdKind::Business }),
        ) && *final(state) == *old(state),
        final(state).legal == old(state).legal,
        final(state).intelligence == old(state).intelligence,
        final(state).world.characters == old(state).world.characters,
        final(state).world.organizations == old(state).world.organizations,
        final(state).world.operations == old(state).world.operations,
        final(state).world.enterprises == old(state).world.enterprises,
        final(state).world.neighborhoods == old(state).world.neighborhoods,
        final(state).now == old(state).now,
{
    if state.world.businesses == u32::MAX {
        return Err(WorldError::IdExhaustion(IdExhaustionError::Exhausted { kind: IdKind::Business }));
    }
    state.world.businesses = state.world.businesses + 1;
    Ok(BusinessId(state.world.businesses))
}

/// Adds an operation run by `organization`.
pub fn insert_operation(state: &mut AppState, organization: OrganizationId) -> (r: Result<OperationId, WorldError>)
    requires
        old(state).wf(),
    ensures
        final(state).wf(),
        !old(state).world.organization_present(organization) ==> r == Err::<OperationId, WorldError>(
            WorldError::MissingOrganization(organization),
        ),
        old(state).world.organization_present(organization) && old(state).world.operations@.len()
            < u32::MAX ==> r == Ok::<OperationId, WorldError>(
            OperationId((old(state).world.operations@.len() + 1) as u32),
        ) && final(state).world.operations@ == old(state).world.operations@.push(
            OperationRecord {
                id: OperationId((old(state).world.operations@.len() + 1) as u32),
                responsible_organization: organization,
            },
        ),
        r is Err ==> *final(state) == *old(state),
        final(state).legal == old(state).legal,
        final(state).intelligence == old(state).intelligence,
        final(state).world.characters == old(state).world.characters,
        final(state).world.organizations == old(state).world.organizations,
        final(state).world.enterprises == old(state).world.enterprises,
        final(state).now == old(state).now,
{
    if state.world.get_organization(organization).is_none() {
        return Err(WorldError::MissingOrganization(organization));
    }
    let len = state.world.operations.len();
    if len >= u32::MAX as usize {
        return Err(WorldError::IdExhaustion(IdExhaustionError::Exhausted { kind: IdKind::Operation }));
    }
    let id = OperationId((len + 1) as u32);
    state.world.operations.push(OperationRecord { id, responsible_organization: organization });
    Ok(id)
}

/// Adds an enterprise run by `organization`.
pub fn insert_enterprise(state: &mut AppState, organization: OrganizationId) -> (r: Result<EnterpriseId, WorldError>)
    requires
        old(state).wf(),
    ensures
        final(state).wf(),
        !old(state).world.organization_present(organization) ==> r == Err::<EnterpriseId, WorldError>(
            WorldError::MissingOrganization(organization),
        ),
        old(state).world.organization_present(organization) && old(state).world.enterprises@.len()
            < u32::MAX ==> r == Ok::<EnterpriseId, WorldError>(
            EnterpriseId((old(state).world.enterprises@.len() + 1) as u32),
        ) && final(state).world.enterprises@ == old(state).world.enterprises@.push(
            EnterpriseRecord {
                id: EnterpriseId((old(state).world.enterprises@.len() + 1) as u32),
                organization,
            },
        ),
        r is Err ==> *final(state) == *old(state),
        final(state).legal == old(state).legal,
        final(state).intelligence == old(state).intelligence,
        final(state).world.characters == old(state).world.characters,
        final(state).world.organizations == old(state).world.organizations,
        final(state).world.operations == old(state).world.operations,
        final(state).now == old(state).now,
{
    if state.world.get_organization(organization).is_none() {
        return Err(WorldError::MissingOrganization(organization));
    }
    let len = state.world.enterprises.len();
    if len >= u32::MAX as usize {
        return Err(WorldError::IdExhaustion(IdExhaustionError::Exhausted { kind: IdKind::Enterprise }));
    }
    let id = EnterpriseId((len + 1) as u32);
    state.world.enterprises.push(EnterpriseRecord { id, organization });
    Ok(id)
}

/// A validated change of a character's organization membership.
#[derive(Debug)]
pub struct ValidatedCharacterReassignment {
    pub character: CharacterId,
    pub organization: Option<OrganizationId>,
    pub expected_version: u32,
}

/// Why a membership change is refused, if it is.
pub open spec fn reassignment_error(state: AppState, character: CharacterId, organization: Option<OrganizationId>) -> Option<WorldError> {
    if !state.world.character_present(character) {
        Some(WorldError::MissingCharacter(character))
    } else if organization is Some && !state.world.organization_present(organization->0) {
        Some(WorldError::MissingOrganization(organization->0))
    } else if state.legal.spec_active_arrest_for(character) is Some {
        Some(
            WorldError::ActiveArrestAssignment {
                character,
                arrest: state.legal.spec_active_arrest_for(character)->0,
            },
        )
    } else if state.legal.spec_active_investigation_for(character) is Some {
        Some(
            WorldError::ActiveInvestigationAssignment {
                character,
                investigation: state.legal.spec_active_investigation_for(character)->0,
            },
        )
    } else if organization is Some && state.legal.spec_informant_for(character, organization->0) is Some {
        Some(
            WorldError::InformantHandlerConflict {
                character,
                handler: organization->0,
                informant: state.legal.spec_informant_for(character, organization->0)->0,
            },
        )
    } else if state.world.spec_character(character)->0.version == u32::MAX {
        Some(WorldError::VersionCapacity(VersionedRecord::Character))
    } else {
        None
    }
}

/// Validates moving a character into `organization` (or out of every organization). A detained
/// character, a sitting case lead, or an informant joining their own handler cannot move.
pub fn validate_reassign_character(state: &AppState, character: CharacterId, organization: Option<OrganizationId>) -> (r: Result<ValidatedCharacterReassignment, WorldError>)
    ensures
        match reassignment_error(*state, character, organization) {
            Some(e) => r matches Err(x) && x == e,
            None => r matches Ok(t) && t.character == character && t.organization == organization
                && t.expected_version == state.world.spec_character(character)->0.version,
        },
{
    let record = match state.world.get_character(character) {
        Some(c) => c,
        None => {
            return Err(WorldError::MissingCharacter(character));
        },
    };
    if let Some(org) = organization {
        if state.world.get_organization(org).is_none() {
            return Err(WorldError::MissingOrganization(org));
        }
    }
    if let Some(arrest) = state.legal.active_arrest_for_character(character) {
        return Err(WorldError::ActiveArrestAssignment { character, arrest });
    }
    if let Some(investigation) = state.legal.active_investigation_for_investigator(character) {
        return Err(WorldError::ActiveInvestigationAssignment { character, investigation });
    }
    if let Some(org) = organization {
        if let Some(informant) = state.legal.informant_for(character, org) {
            return Err(WorldError::InformantHandlerConflict { character, handler: org, informant });
        }
    }
    if record.version == u32::MAX {
        return Err(WorldError::VersionCapacity(VersionedRecord::Character));
    }
    Ok(ValidatedCharacterReassignment { character, organization, expected_version: record.version })
}

impl ValidatedCharacterReassignment {
    /// Applies the membership change, provided nothing changed since validation.
    pub fn commit(self, state: &mut AppState) -> (r: Result<(), WorldError>)
        requires
            old(state).wf(),
        ensures
            final(state).wf(),
            r is Ok <==> (reassignment_error(*old(state), self.character, self.organization) is None
                && old(state).world.spec_character(self.character)->0.version
                == self.expected_version),
            r is Err ==> *final(state) == *old(state),
            r is Ok ==> {
                let i = self.character.0 - 1;
                let before = old(state).world.characters@[i];
                &&& final(state).world.characters@ == old(state).world.characters@.update(
                    i,
                    CharacterRecord {
                        organization: self.organization,
                        version: (before.version + 1) as u32,
                        ..before
                    },
                )
                &&& final(state).world.organizations == old(state).world.organizations
                &&& final(state).world.operations == old(state).world.operations
                &&& final(state).world.enterprises == old(state).world.enterprises
                &&& final(state).world.neighborhoods == old(state).world.neighborhoods
                &&& final(state).world.businesses == old(state).world.businesses
                &&& final(state).legal == old(state).legal
                &&& final(state).intelligence == old(state).intelligence
                &&& final(state).now == old(state).now
                &&& final(state).rng == old(state).rng
            },
    {
        let fresh = validate_reassign_character(state, self.character, self.organization)?;
        if fresh.expected_version != self.expected_version {
            return Err(
                WorldError::StaleCharacter {
                    character: self.character,
                    expected: self.expected_version,
                    found: fresh.expected_version,
                },
            );
        }
        let i = (self.character.0 - 1) as usize;
        state.world.characters[i].organization = self.organization;
        state.world.characters[i].version = state.world.characters[i].version + 1;
        assert(state.world.characters@ =~= old(state).world.characters@.update(
            i as int,
            CharacterRecord {
                organization: self.organization,
                version: (old(state).world.characters@[i as int].version + 1) as u32,
                ..old(state).world.characters@[i as int]
            },
        ));
        Ok(())
    }
}

} // verus!
