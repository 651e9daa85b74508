//! Organizations, characters and the other places and ventures that legal records can name.

use vstd::prelude::*;
use crate::base::{CharacterId, EnterpriseId, OperationId, OrganizationId, Rating};

verus! {

/// What kind of institution an organization is.
#[derive(Clone, Copy, Debug, PartialEq, Eq, Structural, Hash)]
pub enum OrganizationKind {
    Criminal,
    LawEnforcement,
    LegalAuthority,
    LegalServices,
    Prosecutor,
    Political,
    Press,
    Labor,
    Civic,
    Commercial,
}

#[derive(Debug)]
pub struct OrganizationRecord {
    pub id: OrganizationId,
    pub name: String,
    pub kind: OrganizationKind,
}

impl OrganizationRecord {
    pub fn id(&self) -> (r: OrganizationId)
        ensures
            r == self.id,
    {
        self.id
    }

    pub fn kind(&self) -> (r: OrganizationKind)
        ensures
            r == self.kind,
    {
        self.kind
    }

    pub fn name(&self) -> (r: &str)
        ensures
            r@ == self.name@,
    {
        self.name.as_str()
    }
}

#[derive(Debug)]
pub struct CharacterRecord {
    pub id: CharacterId,
    pub name: String,
    pub organization: Option<OrganizationId>,
    /// Investigation capability, for characters who have one.
    pub investigation: Option<Rating>,
    /// Strength of the character's safety drive, where it is modeled.
    pub safety: Option<Rating>,
    pub version: u32,
}

impl CharacterRecord {
    /// Whether the character's ratings lie on the 0..=100 scale.
    pub open spec fn ratings_valid(self) -> bool {
        &&& match self.investigation {
            Some(r) => r.valid(),
            None => true,
        }
        &&& match self.safety {
            Some(r) => r.valid(),
            None => true,
        }
    }

    pub fn id(&self) -> (r: CharacterId)
        ensures
            r == self.id,
    {
        self.id
    }

    pub fn organization(&self) -> (r: Option<OrganizationId>)
        ensures
            r == self.organization,
    {
        self.organization
    }

    pub fn investigation_capability(&self) -> (r: Option<Rating>)
        ensures
            r == self.investigation,
    {
        self.investigation
    }

    pub fn version(&self) -> (r: u32)
        ensures
            r == self.version,
    {
        self.version
    }

    pub fn name(&self) -> (r: &str)
        ensures
            r@ == self.name@,
    {
        self.name.as_str()
    }
}

/// An operation, known here by the organization responsible for it.
#[derive(Clone, Copy, Debug, PartialEq, Eq, Structural)]
pub struct OperationRecord {
    pub id: OperationId,
    pub responsible_organization: OrganizationId,
}

/// An enterprise, known here by the organization running it.
#[derive(Clone, Copy, Debug, PartialEq, Eq, Structural)]
pub struct EnterpriseRecord {
    pub id: EnterpriseId,
    pub organization: OrganizationId,
}

/// Every organization, character, neighborhood, business, operation and enterprise.
pub struct WorldState {
    pub organizations: Vec<OrganizationRecord>,
    pub characters: Vec<CharacterRecord>,
    pub neighborhoods: u32,
    pub businesses: u32,
    pub operations: Vec<OperationRecord>,
    pub enterprises: Vec<EnterpriseRecord>,
}

/// A new organization.
pub struct OrganizationDraft {
    pub name: String,
    pub kind: OrganizationKind,
}

/// A new character.
pub struct CharacterDraft {
    pub name: String,
    pub organization: Option<OrganizationId>,
    pub investigation: Option<Rating>,
    pub safety: Option<Rating>,
}

impl WorldState {
    pub open spec fn wf(self) -> bool {
        &&& forall|i: int|
            0 <= i < self.organizations@.len() ==> (#[trigger] self.organizations@[i]).id.0 == i
                + 1
        &&& forall|i: int|
            0 <= i < self.characters@.len() ==> (#[trigger] self.characters@[i]).id.0 == i + 1
        &&& forall|i: int|
            0 <= i < self.characters@.len() ==> match (#[trigger] self.characters@[i]).organization {
                Some(o) => self.organization_present(o),
                None => true,
            }
        &&& forall|i: int| 0 <= i < self.characters@.len() ==> (#[trigger] self.characters@[i]).ratings_valid()
        &&& forall|i: int|
            0 <= i < self.operations@.len() ==> (#[trigger] self.operations@[i]).id.0 == i + 1
                && self.organization_present(self.operations@[i].responsible_organization)
        &&& forall|i: int|
            0 <= i < self.enterprises@.len() ==> (#[trigger] self.enterprises@[i]).id.0 == i + 1
                && self.organization_present(self.enterprises@[i].organization)
    }

    pub open spec fn organization_present(self, id: OrganizationId) -> bool {
        1 <= id.0 <= self.organizations@.len()
    }

    pub open spec fn character_present(self, id: CharacterId) -> bool {
        1 <= id.0 <= self.characters@.len()
    }

    pub open spec fn spec_organization(self, id: OrganizationId) -> Option<OrganizationRecord> {
        if self.organization_present(id) {
            Some(self.organizations@[id.0 - 1])
        } else {
            None
        }
    }

    pub open spec fn spec_character(self, id: CharacterId) -> Option<CharacterRecord> {
        if self.character_present(id) {
            Some(self.characters@[id.0 - 1])
        } else {
            None
        }
    }

    pub open spec fn spec_operation(self, id: OperationId) -> Option<OperationRecord> {
        if 1 <= id.0 <= self.operations@.len() {
            Some(self.operations@[id.0 - 1])
        } else {
            None
        }
    }

    pub open spec fn spec_enterprise(self, id: EnterpriseId) -> Option<EnterpriseRecord> {
        if 1 <= id.0 <= self.enterprises@.len() {
            Some(self.enterprises@[id.0 - 1])
        } else {
            None
        }
    }

    /// The kind of an organization, where it exists.
    pub open spec fn spec_kind(self, id: OrganizationId) -> Option<OrganizationKind> {
        match self.spec_organization(id) {
            Some(o) => Some(o.kind),
            None => None,
        }
    }

    pub fn get_organization(&self, id: OrganizationId) -> (r: Option<&OrganizationRecord>)
        ensures
            r is Some <==> self.organization_present(id),
            r matches Some(o) ==> *o == self.spec_organization(id)->0,
    {
        if id.0 >= 1 && ((id.0 - 1) as usize) < self.organizations.len() {
            Some(&self.organizations[(id.0 - 1) as usize])
        } else {
            None
        }
    }

    pub fn get_character(&self, id: CharacterId) -> (r: Option<&CharacterRecord>)
        ensures
            r is Some <==> self.character_present(id),
            r matches Some(c) ==> *c == self.spec_character(id)->0,
    {
        if id.0 >= 1 && ((id.0 - 1) as usize) < self.characters.len() {
            Some(&self.characters[(id.0 - 1) as usize])
        } else {
            None
        }
    }

    pub fn get_operation(&self, id: OperationId) -> (r: Option<OperationRecord>)
        ensures
            r == self.spec_operation(id),
    {
        if id.0 >= 1 && ((id.0 - 1) as usize) < self.operations.len() {
            Some(self.operations[(id.0 - 1) as usize])
        } else {
            None
        }
    }

    pub fn get_enterprise(&self, id: EnterpriseId) -> (r: Option<EnterpriseRecord>)
        ensures
            r == self.spec_enterprise(id),
    {
        if id.0 >= 1 && ((id.0 - 1) as usize) < self.enterprises.len() {
            Some(self.enterprises[(id.0 - 1) as usize])
        } else {
            None
        }
    }

    pub fn organization_kind(&self, id: OrganizationId) -> (r: Option<OrganizationKind>)
        ensures
            r == self.spec_kind(id),
    {
        match self.get_organization(id) {
            Some(o) => Some(o.kind),
            None => None,
        }
    }
}

} // verus!
