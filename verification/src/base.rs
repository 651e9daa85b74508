//! Identifiers, simulation time, version rails and entity references shared by every system.

use vstd::prelude::*;

verus! {

/// Identifier of a character.
#[derive(Clone, Copy, Debug, PartialEq, Eq, Structural, PartialOrd, Ord, Hash)]
pub struct CharacterId(pub u32);

/// Identifier of an organization.
#[derive(Clone, Copy, Debug, PartialEq, Eq, Structural, PartialOrd, Ord, Hash)]
pub struct OrganizationId(pub u32);

/// Identifier of a neighborhood.
#[derive(Clone, Copy, Debug, PartialEq, Eq, Structural, PartialOrd, Ord, Hash)]
pub struct NeighborhoodId(pub u32);

/// Identifier of a business.
#[derive(Clone, Copy, Debug, PartialEq, Eq, Structural, PartialOrd, Ord, Hash)]
pub struct BusinessId(pub u32);

/// Identifier of an operation.
#[derive(Clone, Copy, Debug, PartialEq, Eq, Structural, PartialOrd, Ord, Hash)]
pub struct OperationId(pub u32);

/// Identifier of an enterprise.
#[derive(Clone, Copy, Debug, PartialEq, Eq, Structural, PartialOrd, Ord, Hash)]
pub struct EnterpriseId(pub u32);

/// Identifier of an investigation.
#[derive(Clone, Copy, Debug, PartialEq, Eq, Structural, PartialOrd, Ord, Hash)]
pub struct InvestigationId(pub u32);

/// Identifier of an evidence record.
#[derive(Clone, Copy, Debug, PartialEq, Eq, Structural, PartialOrd, Ord, Hash)]
pub struct EvidenceId(pub u32);

/// Identifier of an arrest.
#[derive(Clone, Copy, Debug, PartialEq, Eq, Structural, PartialOrd, Ord, Hash)]
pub struct ArrestId(pub u32);

/// Identifier of an information record.
#[derive(Clone, Copy, Debug, PartialEq, Eq, Structural, PartialOrd, Ord, Hash)]
pub struct InformationId(pub u32);

/// Identifier of a registered case witness.
#[derive(Clone, Copy, Debug, PartialEq, Eq, Structural, PartialOrd, Ord, Hash)]
pub struct CaseWitnessId(pub u32);

/// Identifier of an informant relationship.
#[derive(Clone, Copy, Debug, PartialEq, Eq, Structural, PartialOrd, Ord, Hash)]
pub struct InformantId(pub u32);

/// Identifier of an informant disclosure.
#[derive(Clone, Copy, Debug, PartialEq, Eq, Structural, PartialOrd, Ord, Hash)]
pub struct InformantDisclosureId(pub u32);

/// Identifier of scheduled investigation work.
#[derive(Clone, Copy, Debug, PartialEq, Eq, Structural, PartialOrd, Ord, Hash)]
pub struct InvestigationWorkId(pub u32);

impl CharacterId {
    pub fn from_raw(raw: u32) -> (id: Self)
        ensures
            id.0 == raw,
    {
        CharacterId(raw)
    }
}

impl OrganizationId {
    pub fn from_raw(raw: u32) -> (id: Self)
        ensures
            id.0 == raw,
    {
        OrganizationId(raw)
    }
}

impl NeighborhoodId {
    pub fn from_raw(raw: u32) -> (id: Self)
        ensures
            id.0 == raw,
    {
        NeighborhoodId(raw)
    }
}

impl BusinessId {
    pub fn from_raw(raw: u32) -> (id: Self)
        ensures
            id.0 == raw,
    {
        BusinessId(raw)
    }
}

impl EnterpriseId {
    pub fn from_raw(raw: u32) -> (id: Self)
        ensures
            id.0 == raw,
    {
        EnterpriseId(raw)
    }
}

impl InvestigationId {
    pub fn from_raw(raw: u32) -> (id: Self)
        ensures
            id.0 == raw,
    {
        InvestigationId(raw)
    }
}

impl ArrestId {
    pub fn from_raw(raw: u32) -> (id: Self)
        ensures
            id.0 == raw,
    {
        ArrestId(raw)
    }
}

impl InformationId {
    pub fn from_raw(raw: u32) -> (id: Self)
        ensures
            id.0 == raw,
    {
        InformationId(raw)
    }
}

/// A simulation instant, in minutes since campaign start.
#[derive(Clone, Copy, Debug, PartialEq, Eq, Structural, PartialOrd, Ord, Hash)]
pub struct SimTime(pub u64);

/// A span of simulated minutes.
#[derive(Clone, Copy, Debug, PartialEq, Eq, Structural, PartialOrd, Ord, Hash)]
pub struct SimDuration(pub u32);

impl SimTime {
    pub fn from_minutes(minutes: u64) -> (t: Self)
        ensures
            t.0 == minutes,
    {
        SimTime(minutes)
    }

    pub fn as_minutes(self) -> (m: u64)
        ensures
            m == self.0,
    {
        self.0
    }

    /// The instant `duration` minutes later, or `None` where the clock cannot represent it.
    pub fn checked_add(self, duration: SimDuration) -> (r: Option<SimTime>)
        ensures
            r == (if self.0 + duration.0 <= u64::MAX {
                Some(SimTime((self.0 + duration.0) as u64))
            } else {
                None
            }),
    {
        if self.0 <= u64::MAX - duration.0 as u64 {
            Some(SimTime(self.0 + duration.0 as u64))
        } else {
            None
        }
    }
}

impl SimDuration {
    pub fn from_minutes(minutes: u32) -> (d: Self)
        ensures
            d.0 == minutes,
    {
        SimDuration(minutes)
    }

    pub fn as_minutes(self) -> (m: u32)
        ensures
            m == self.0,
    {
        self.0
    }
}

/// Which record's version counter would overflow.
#[derive(Clone, Copy, Debug, PartialEq, Eq, Structural)]
pub enum VersionedRecord {
    Character,
    Investigation,
    CaseWitness,
    InvestigationWork,
    Arrest,
}

/// The kinds of record that are numbered from their own identifier space.
#[derive(Clone, Copy, Debug, PartialEq, Eq, Structural)]
pub enum IdKind {
    Organization,
    Character,
    Neighborhood,
    Business,
    Operation,
    Enterprise,
    Investigation,
    Evidence,
    Arrest,
    CaseWitness,
    Informant,
    InformantDisclosure,
    InvestigationWork,
    Information,
}

/// An identifier space has no fresh identifier left; `kind` names the space.
#[derive(Clone, Copy, Debug, PartialEq, Eq, Structural)]
pub enum IdExhaustionError {
    Exhausted { kind: IdKind },
}

/// A bounded 0..=100 rating.
#[derive(Clone, Copy, Debug, PartialEq, Eq, Structural, PartialOrd, Ord, Hash)]
pub struct Rating(pub u8);

impl Rating {
    pub open spec fn valid(self) -> bool {
        self.0 <= 100
    }

    pub fn try_new(value: u8) -> (r: Option<Rating>)
        ensures
            r == (if value <= 100 { Some(Rating(value)) } else { None }),
    {
        if value <= 100 {
            Some(Rating(value))
        } else {
            None
        }
    }

    pub fn value(self) -> (v: u8)
        ensures
            v == self.0,
    {
        self.0
    }
}

/// A typed reference to any persisted entity of the simulation.
#[derive(Clone, Copy, Debug, PartialEq, Eq, Structural, PartialOrd, Ord, Hash)]
pub enum EntityRef {
    Character(CharacterId),
    Organization(OrganizationId),
    Neighborhood(NeighborhoodId),
    Business(BusinessId),
    Operation(OperationId),
    Investigation(InvestigationId),
    Evidence(EvidenceId),
    Enterprise(EnterpriseId),
}

impl EntityRef {
    pub open spec fn spec_as_character(self) -> Option<CharacterId> {
        match self {
            EntityRef::Character(c) => Some(c),
            _ => None,
        }
    }

    pub fn as_character(self) -> (r: Option<CharacterId>)
        ensures
            r == self.spec_as_character(),
    {
        match self {
            EntityRef::Character(c) => Some(c),
            _ => None,
        }
    }
}

/// Whether `v` holds `e`, decided by a scan.
pub fn entity_vec_contains(v: &Vec<EntityRef>, e: EntityRef) -> (r: bool)
    ensures
        r == v@.contains(e),
{
    let mut i: usize = 0;
    while i < v.len()
        invariant
            i <= v.len(),
            forall|j: int| 0 <= j < i ==> v@[j] != e,
        decreases v.len() - i,
    {
        if v[i] == e {
            return true;
        }
        i = i + 1;
    }
    false
}

} // verus!
