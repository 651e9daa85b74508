//! Provenance-bearing information records; `intelligence_system` controls knowledge insertion.

pub mod intelligence_system;

use vstd::prelude::*;
use crate::base::{
    ArrestId, BusinessId, CharacterId, EntityRef, InformationId, InvestigationId, NeighborhoodId,
    OrganizationId, SimTime,
};

verus! {

/// Who holds a piece of knowledge.
#[derive(Clone, Copy, Debug, PartialEq, Eq, Structural, PartialOrd, Ord, Hash)]
pub enum KnowledgeHolder {
    Character(CharacterId),
    Organization(OrganizationId),
}

impl KnowledgeHolder {
    pub open spec fn spec_entity(self) -> EntityRef {
        match self {
            KnowledgeHolder::Character(id) => EntityRef::Character(id),
            KnowledgeHolder::Organization(id) => EntityRef::Organization(id),
        }
    }

    pub fn entity(self) -> (r: EntityRef)
        ensures
            r == self.spec_entity(),
    {
        match self {
            KnowledgeHolder::Character(id) => EntityRef::Character(id),
            KnowledgeHolder::Organization(id) => EntityRef::Organization(id),
        }
    }
}

/// How a holder came by a piece of information.
#[derive(Clone, Copy, Debug, PartialEq, Eq, Structural, Hash)]
pub enum InformationSourceKind {
    DirectObservation,
    StreetRumor,
    Accounting,
    Surveillance,
    AcquiredRecords,
    AfterAction,
    PoliceContact,
    PoliticalContact,
    ProfessionalContact,
    LegalContact,
    InternalReport,
}

impl InformationSourceKind {
    pub open spec fn spec_is_contact_derivation(self) -> bool {
        match self {
            InformationSourceKind::PoliceContact | InformationSourceKind::PoliticalContact
            | InformationSourceKind::ProfessionalContact | InformationSourceKind::LegalContact => true,
            _ => false,
        }
    }

    pub fn is_contact_derivation(self) -> (r: bool)
        ensures
            r == self.spec_is_contact_derivation(),
    {
        match self {
            InformationSourceKind::PoliceContact | InformationSourceKind::PoliticalContact
            | InformationSourceKind::ProfessionalContact | InformationSourceKind::LegalContact => true,
            _ => false,
        }
    }
}

/// What a piece of information is about.
#[derive(Clone, Copy, Debug, PartialEq, Eq, Structural, PartialOrd, Ord, Hash)]
pub enum InformationTopic {
    General,
    TargetSecurity,
    Personnel,
    Schedule,
    PoliceActivity,
    Route,
    FinancialPerformance,
    Relationship,
    LegalActivity,
    MarketAccess,
    OperationalOutcome,
    EnterpriseActivity,
}

/// Whether a case is being worked, shelved or closed.
#[derive(Clone, Copy, Debug, PartialEq, Eq, Structural, PartialOrd, Ord, Hash)]
pub enum CaseActivitySignal {
    Active,
    Shelved,
    Closed,
}

/// A legal role or custody fact about a person, bound to one legal episode.
#[derive(Clone, Copy, Debug, PartialEq, Eq, Structural, PartialOrd, Ord, Hash)]
pub enum LegalPersonStatusSignal {
    CaseWitness { investigation: InvestigationId },
    Detained { arrest: ArrestId },
}

/// Where an enterprise operates from.
#[derive(Clone, Copy, Debug, PartialEq, Eq, Structural, PartialOrd, Ord, Hash)]
pub enum EnterpriseLocationSignal {
    Business(BusinessId),
    Neighborhood(NeighborhoodId),
}

/// One non-wrapping interval of an approximate recurring patrol pattern. End minute 1440
/// represents midnight at the end of the day.
#[derive(Clone, Copy, Debug, PartialEq, Eq, Structural, PartialOrd, Ord, Hash)]
pub struct PatrolIntervalSignal {
    start_minute: u16,
    end_minute: u16,
}

/// Minutes in one simulated day.
pub const DAY_MINUTES_U16: u16 = 1440;

impl PatrolIntervalSignal {
    pub closed spec fn spec_start(self) -> u16 {
        self.start_minute
    }

    pub closed spec fn spec_end(self) -> u16 {
        self.end_minute
    }

    pub open spec fn spec_is_valid(self) -> bool {
        self.spec_start() < self.spec_end() && self.spec_start() < DAY_MINUTES_U16
            && self.spec_end() <= DAY_MINUTES_U16
    }

    pub fn try_new(start_minute: u16, end_minute: u16) -> (r: Option<PatrolIntervalSignal>)
        ensures
            r is Some <==> (start_minute < end_minute && start_minute < DAY_MINUTES_U16
                && end_minute <= DAY_MINUTES_U16),
            r matches Some(i) ==> i.spec_start() == start_minute && i.spec_end() == end_minute,
    {
        if start_minute < end_minute && start_minute < DAY_MINUTES_U16 && end_minute
            <= DAY_MINUTES_U16 {
            Some(PatrolIntervalSignal { start_minute, end_minute })
        } else {
            None
        }
    }

    pub fn start_minute(self) -> (r: u16)
        ensures
            r == self.spec_start(),
    {
        self.start_minute
    }

    pub fn end_minute(self) -> (r: u16)
        ensures
            r == self.spec_end(),
    {
        self.end_minute
    }

    pub fn is_valid(self) -> (r: bool)
        ensures
            r == self.spec_is_valid(),
    {
        self.start_minute < self.end_minute && self.start_minute < DAY_MINUTES_U16
            && self.end_minute <= DAY_MINUTES_U16
    }
}

/// Typed semantic facts carried by information. Character sets are kept in increasing
/// identifier order without repetition.
#[derive(Clone, Debug, PartialEq, Eq)]
pub enum InformationSignal {
    CaseActivity(CaseActivitySignal),
    LegalPersonStatus(LegalPersonStatusSignal),
    EnterpriseLocation(EnterpriseLocationSignal),
    PersonnelPresence { characters: Vec<CharacterId> },
    PatrolPattern { intervals: Vec<PatrolIntervalSignal> },
}

/// The mathematical content of a signal.
pub enum SignalView {
    CaseActivity(CaseActivitySignal),
    LegalPersonStatus(LegalPersonStatusSignal),
    EnterpriseLocation(EnterpriseLocationSignal),
    PersonnelPresence(Seq<CharacterId>),
    PatrolPattern(Seq<PatrolIntervalSignal>),
}

impl View for InformationSignal {
    type V = SignalView;

    open spec fn view(&self) -> SignalView {
        match self {
            InformationSignal::CaseActivity(a) => SignalView::CaseActivity(*a),
            InformationSignal::LegalPersonStatus(l) => SignalView::LegalPersonStatus(*l),
            InformationSignal::EnterpriseLocation(e) => SignalView::EnterpriseLocation(*e),
            InformationSignal::PersonnelPresence { characters } => SignalView::PersonnelPresence(
                characters@,
            ),
            InformationSignal::PatrolPattern { intervals } => SignalView::PatrolPattern(
                intervals@,
            ),
        }
    }
}

pub proof fn lemma_insert_contains<A>(s: Seq<A>, k: int, c: A)
    requires
        0 <= k <= s.len(),
    ensures
        forall|x: A| s.insert(k, c).contains(x) <==> (s.contains(x) || x == c),
{
    s.insert_ensures(k, c);
    assert forall|x: A| s.insert(k, c).contains(x) <==> (s.contains(x) || x == c) by {
        if s.insert(k, c).contains(x) && x != c {
            let idx = choose|idx: int| 0 <= idx < s.len() + 1 && #[trigger] s.insert(k, c)[idx] == x;
            if idx < k {
                assert(s[idx] == x);
            } else {
                assert(s[idx - 1] == x);
            }
        }
        if s.contains(x) {
            let idx = choose|idx: int| 0 <= idx < s.len() && #[trigger] s[idx] == x;
            if idx < k {
                assert(s.insert(k, c)[idx] == x);
            } else {
                assert(s.insert(k, c)[idx + 1] == x);
            }
        }
        if x == c {
            assert(s.insert(k, c)[k] == c);
        }
    }
}

/// Characters in strictly increasing identifier order.
pub open spec fn strictly_increasing(s: Seq<CharacterId>) -> bool {
    forall|i: int, j: int| 0 <= i < j < s.len() ==> s[i].0 < s[j].0
}

impl SignalView {
    /// Whether the signal's meaning fits the topic and subject of the record that carries it.
    pub open spec fn compatible(self, topic: InformationTopic, subject: EntityRef) -> bool {
        match self {
            SignalView::CaseActivity(_) => topic == InformationTopic::LegalActivity && (
            subject is Organization || subject is Operation || subject is Investigation
                || subject is Enterprise),
            SignalView::LegalPersonStatus(_) => topic == InformationTopic::LegalActivity
                && subject is Character,
            SignalView::EnterpriseLocation(_) => topic == InformationTopic::EnterpriseActivity
                && subject is Enterprise,
            SignalView::PersonnelPresence(cs) => cs.len() > 0 && topic
                == InformationTopic::Personnel && subject is Organization,
            SignalView::PatrolPattern(ivs) => ivs.len() > 0 && (forall|k: int|
                0 <= k < ivs.len() ==> (#[trigger] ivs[k]).spec_is_valid()) && topic
                == InformationTopic::PoliceActivity && subject is Neighborhood,
        }
    }

    /// Entities a signal names beyond its record's subject.
    pub open spec fn referenced(self) -> Seq<EntityRef> {
        match self {
            SignalView::LegalPersonStatus(LegalPersonStatusSignal::CaseWitness { investigation }) => seq![EntityRef::Investigation(investigation)],
            SignalView::EnterpriseLocation(EnterpriseLocationSignal::Business(b)) => seq![EntityRef::Business(b)],
            SignalView::EnterpriseLocation(EnterpriseLocationSignal::Neighborhood(n)) => seq![EntityRef::Neighborhood(n)],
            SignalView::PersonnelPresence(cs) => cs.map_values(|c: CharacterId| EntityRef::Character(c)),
            _ => Seq::empty(),
        }
    }
}

impl InformationSignal {
    /// A personnel-presence signal over the given characters, ordered and without repetition.
    pub fn personnel_presence(characters: Vec<CharacterId>) -> (r: InformationSignal)
        ensures
            r@ matches SignalView::PersonnelPresence(cs) && strictly_increasing(cs) && (forall|c: CharacterId|
                cs.contains(c) <==> characters@.contains(c)),
    {
        let mut sorted: Vec<CharacterId> = Vec::new();
        let mut i: usize = 0;
        while i < characters.len()
            invariant
                i <= characters.len(),
                strictly_increasing(sorted@),
                forall|c: CharacterId| sorted@.contains(c) <==> characters@.take(i as int).contains(c),
            decreases characters.len() - i,
        {
            let c = characters[i];
            let mut k: usize = 0;
            while k < sorted.len() && sorted[k].0 < c.0
                invariant
                    k <= sorted.len(),
                    forall|j: int| 0 <= j < k ==> sorted@[j].0 < c.0,
                decreases sorted.len() - k,
            {
                k = k + 1;
            }
            let ghost before = sorted@;
            if k < sorted.len() && sorted[k].0 == c.0 {
            } else {
                sorted.insert(k, c);
                proof {
                    before.insert_ensures(k as int, c);
                }
                assert forall|a: int, b: int| 0 <= a < b < sorted@.len() implies sorted@[a].0
                    < sorted@[b].0 by {
                    if b < k {
                    } else if a > k {
                        assert(sorted@[a] == before[a - 1]);
                        assert(sorted@[b] == before[b - 1]);
                    } else if a == k {
                        assert(sorted@[b] == before[b - 1]);
                        assert(before[k as int].0 >= c.0);
                        if b - 1 > k {
                            assert(before[k as int].0 < before[b - 1].0);
                        }
                    } else {
                        if b == k {
                        } else {
                            assert(sorted@[b] == before[b - 1]);
                        }
                    }
                }
            }
            assert(characters@.take(i + 1) =~= characters@.take(i as int).push(c));
            proof {
                if sorted@.len() > before.len() {
                    lemma_insert_contains(before, k as int, c);
                } else {
                    assert(before[k as int] == c);
                }
                assert forall|x: CharacterId| characters@.take(i as int).push(c).contains(x) <==> (
                characters@.take(i as int).contains(x) || x == c) by {
                    if characters@.take(i as int).push(c).contains(x) && x != c {
                        let idx = choose|idx: int|
                            0 <= idx < i + 1 && #[trigger] characters@.take(i as int).push(c)[idx]
                                == x;
                        assert(characters@.take(i as int)[idx] == x);
                    }
                    if characters@.take(i as int).contains(x) {
                        let idx = choose|idx: int|
                            0 <= idx < i && #[trigger] characters@.take(i as int)[idx] == x;
                        assert(characters@.take(i as int).push(c)[idx] == x);
                    }
                    if x == c {
                        assert(characters@.take(i as int).push(c)[i as int] == c);
                    }
                }
            }
            assert forall|x: CharacterId| #[trigger] sorted@.contains(x) <==> characters@.take(
                i + 1,
            ).contains(x) by {
                assert(before.contains(x) <==> characters@.take(i as int).contains(x));
            }
            i = i + 1;
        }
        assert(characters@.take(characters.len() as int) =~= characters@);
        InformationSignal::PersonnelPresence { characters: sorted }
    }

    /// A copy of the signal with the same meaning.
    pub fn duplicate(&self) -> (r: InformationSignal)
        ensures
            r@ == self@,
    {
        match self {
            InformationSignal::CaseActivity(a) => InformationSignal::CaseActivity(*a),
            InformationSignal::LegalPersonStatus(l) => InformationSignal::LegalPersonStatus(*l),
            InformationSignal::EnterpriseLocation(e) => InformationSignal::EnterpriseLocation(*e),
            InformationSignal::PersonnelPresence { characters } => {
                let mut copy: Vec<CharacterId> = Vec::new();
                let mut i: usize = 0;
                while i < characters.len()
                    invariant
                        i <= characters.len(),
                        copy@ == characters@.take(i as int),
                    decreases characters.len() - i,
                {
                    copy.push(characters[i]);
                    assert(characters@.take(i + 1) =~= characters@.take(i as int).push(
                        characters@[i as int],
                    ));
                    i = i + 1;
                }
                assert(characters@.take(characters.len() as int) =~= characters@);
                InformationSignal::PersonnelPresence { characters: copy }
            },
            InformationSignal::PatrolPattern { intervals } => {
                let mut copy: Vec<PatrolIntervalSignal> = Vec::new();
                let mut i: usize = 0;
                while i < intervals.len()
                    invariant
                        i <= intervals.len(),
                        copy@ == intervals@.take(i as int),
                    decreases intervals.len() - i,
                {
                    copy.push(intervals[i]);
                    assert(intervals@.take(i + 1) =~= intervals@.take(i as int).push(
                        intervals@[i as int],
                    ));
                    i = i + 1;
                }
                assert(intervals@.take(intervals.len() as int) =~= intervals@);
                InformationSignal::PatrolPattern { intervals: copy }
            },
        }
    }

    /// Whether the signal's meaning fits the topic and subject of the record that carries it.
    pub fn is_compatible(&self, topic: InformationTopic, subject: EntityRef) -> (r: bool)
        ensures
            r == self@.compatible(topic, subject),
    {
        match self {
            InformationSignal::CaseActivity(_) => topic == InformationTopic::LegalActivity
                && match subject {
                EntityRef::Organization(_) | EntityRef::Operation(_) | EntityRef::Investigation(_)
                | EntityRef::Enterprise(_) => true,
                _ => false,
            },
            InformationSignal::LegalPersonStatus(_) => topic == InformationTopic::LegalActivity
                && match subject {
                EntityRef::Character(_) => true,
                _ => false,
            },
            InformationSignal::EnterpriseLocation(_) => topic
                == InformationTopic::EnterpriseActivity && match subject {
                EntityRef::Enterprise(_) => true,
                _ => false,
            },
            InformationSignal::PersonnelPresence { characters } => characters.len() > 0 && topic
                == InformationTopic::Personnel && match subject {
                EntityRef::Organization(_) => true,
                _ => false,
            },
            InformationSignal::PatrolPattern { intervals } => {
                if intervals.len() == 0 || topic != InformationTopic::PoliceActivity {
                    return false;
                }
                match subject {
                    EntityRef::Neighborhood(_) => {},
                    _ => {
                        return false;
                    },
                }
                let mut i: usize = 0;
                while i < intervals.len()
                    invariant
                        i <= intervals.len(),
                        self@ == SignalView::PatrolPattern(intervals@),
                        forall|k: int| 0 <= k < i ==> (#[trigger] intervals@[k]).spec_is_valid(),
                    decreases intervals.len() - i,
                {
                    if !intervals[i].is_valid() {
                        proof {
                            let ivs = intervals@;
                            assert(!ivs[i as int].spec_is_valid());
                        }
                        return false;
                    }
                    i = i + 1;
                }
                true
            },
        }
    }

    /// Entities the signal names beyond its record's subject, in identifier order.
    pub fn referenced_entities(&self) -> (r: Vec<EntityRef>)
        ensures
            r@ == self@.referenced(),
    {
        match self {
            InformationSignal::LegalPersonStatus(
                LegalPersonStatusSignal::CaseWitness { investigation },
            ) => {
                let mut v = Vec::new();
                v.push(EntityRef::Investigation(*investigation));
                assert(v@ =~= seq![EntityRef::Investigation(*investigation)]);
                v
            },
            InformationSignal::EnterpriseLocation(EnterpriseLocationSignal::Business(b)) => {
                let mut v = Vec::new();
                v.push(EntityRef::Business(*b));
                assert(v@ =~= seq![EntityRef::Business(*b)]);
                v
            },
            InformationSignal::EnterpriseLocation(EnterpriseLocationSignal::Neighborhood(n)) => {
                let mut v = Vec::new();
                v.push(EntityRef::Neighborhood(*n));
                assert(v@ =~= seq![EntityRef::Neighborhood(*n)]);
                v
            },
            InformationSignal::PersonnelPresence { characters } => {
                let mut v: Vec<EntityRef> = Vec::new();
                let mut i: usize = 0;
                while i < characters.len()
                    invariant
                        i <= characters.len(),
                        v@ =~= characters@.take(i as int).map_values(
                            |c: CharacterId| EntityRef::Character(c),
                        ),
                    decreases characters.len() - i,
                {
                    v.push(EntityRef::Character(characters[i]));
                    assert(characters@.take(i + 1) =~= characters@.take(i as int).push(
                        characters@[i as int],
                    ));
                    i = i + 1;
                }
                assert(characters@.take(characters.len() as int) =~= characters@);
                v
            },
            _ => {
                let v = Vec::new();
                assert(v@ =~= Seq::<EntityRef>::empty());
                v
            },
        }
    }
}

/// How far the holder trusts where the information came from.
#[derive(Clone, Copy, Debug, PartialEq, Eq, Structural, PartialOrd, Ord, Hash)]
pub enum Reliability {
    Unknown,
    Unreliable,
    Mixed,
    GenerallyReliable,
    DirectAccess,
}

/// How precise the information is.
#[derive(Clone, Copy, Debug, PartialEq, Eq, Structural, PartialOrd, Ord, Hash)]
pub enum Specificity {
    Vague,
    General,
    Specific,
    Precise,
}

/// One persisted piece of knowledge with its provenance.
#[derive(Debug)]
pub struct InformationRecord {
    pub id: InformationId,
    pub holder: KnowledgeHolder,
    pub source_kind: InformationSourceKind,
    pub topic: InformationTopic,
    pub source_entity: Option<EntityRef>,
    pub subject: EntityRef,
    pub observed_at: SimTime,
    pub recorded_at: SimTime,
    pub reliability: Reliability,
    pub specificity: Specificity,
    pub signal: Option<InformationSignal>,
    /// The single record this one was derived from, where it was derived at all.
    pub derived_from: Option<InformationId>,
    pub summary: String,
}

impl InformationRecord {
    pub open spec fn signal_view(self) -> Option<SignalView> {
        match self.signal {
            Some(s) => Some(s@),
            None => None,
        }
    }

    pub fn id(&self) -> (r: InformationId)
        ensures
            r == self.id,
    {
        self.id
    }

    pub fn holder(&self) -> (r: KnowledgeHolder)
        ensures
            r == self.holder,
    {
        self.holder
    }

    pub fn source_kind(&self) -> (r: InformationSourceKind)
        ensures
            r == self.source_kind,
    {
        self.source_kind
    }

    pub fn topic(&self) -> (r: InformationTopic)
        ensures
            r == self.topic,
    {
        self.topic
    }

    pub fn source_entity(&self) -> (r: Option<EntityRef>)
        ensures
            r == self.source_entity,
    {
        self.source_entity
    }

    pub fn subject(&self) -> (r: EntityRef)
        ensures
            r == self.subject,
    {
        self.subject
    }

    pub fn observed_at(&self) -> (r: SimTime)
        ensures
            r == self.observed_at,
    {
        self.observed_at
    }

    pub fn recorded_at(&self) -> (r: SimTime)
        ensures
            r == self.recorded_at,
    {
        self.recorded_at
    }

    pub fn reliability(&self) -> (r: Reliability)
        ensures
            r == self.reliability,
    {
        self.reliability
    }

    pub fn specificity(&self) -> (r: Specificity)
        ensures
            r == self.specificity,
    {
        self.specificity
    }

    pub fn signal(&self) -> (r: Option<&InformationSignal>)
        ensures
            r is Some <==> self.signal is Some,
            r matches Some(s) ==> *s == self.signal->0,
    {
        match &self.signal {
            Some(s) => Some(s),
            None => None,
        }
    }

    pub fn derived_from(&self) -> (r: Option<InformationId>)
        ensures
            r == self.derived_from,
    {
        self.derived_from
    }

    pub fn summary(&self) -> (r: &str)
        ensures
            r@ == self.summary@,
    {
        self.summary.as_str()
    }
}

/// Whether a record's derivation is sound: what it was derived from is an earlier record, and
/// an internal report is always derived from one.
pub open spec fn derivation_ok(rec: InformationRecord) -> bool {
    &&& rec.derived_from matches Some(s) ==> 1 <= s.0 < rec.id.0
    &&& rec.source_kind == InformationSourceKind::InternalReport ==> rec.derived_from is Some
}

pub open spec fn ids_of(s: Seq<InformationRecord>) -> Seq<InformationId> {
    s.map_values(|rec: InformationRecord| rec.id)
}

pub proof fn lemma_ids_of_push(s: Seq<InformationRecord>, x: InformationRecord)
    ensures
        ids_of(s.push(x)) == ids_of(s).push(x.id),
{
    assert(ids_of(s.push(x)) =~= ids_of(s).push(x.id));
}

pub open spec fn held_by(holder: KnowledgeHolder) -> spec_fn(InformationRecord) -> bool {
    |rec: InformationRecord| rec.holder == holder
}

pub open spec fn held_on_topic(holder: KnowledgeHolder, topic: InformationTopic) -> spec_fn(InformationRecord) -> bool {
    |rec: InformationRecord| rec.holder == holder && rec.topic == topic
}

pub open spec fn held_about(holder: KnowledgeHolder, subject: EntityRef) -> spec_fn(InformationRecord) -> bool {
    |rec: InformationRecord| rec.holder == holder && rec.subject == subject
}

pub open spec fn derived_from_source(source: InformationId) -> spec_fn(InformationRecord) -> bool {
    |rec: InformationRecord| rec.derived_from == Some(source)
}

pub open spec fn internal_report_of(source: InformationId, recipient: KnowledgeHolder) -> spec_fn(InformationRecord) -> bool {
    |rec: InformationRecord|
        rec.source_kind == InformationSourceKind::InternalReport && rec.derived_from == Some(source)
            && rec.holder == recipient
}

/// Every information record, in identifier order.
pub struct IntelligenceState {
    pub records: Vec<InformationRecord>,
}

impl IntelligenceState {
    /// Identifiers are dense: record `i` has identifier `i + 1`.
    pub open spec fn wf(self) -> bool {
        &&& forall|i: int| 0 <= i < self.records@.len() ==> (#[trigger] self.records@[i]).id.0 == i + 1
        &&& forall|i: int| 0 <= i < self.records@.len() ==> derivation_ok(#[trigger] self.records@[i])
    }

    pub open spec fn spec_get(self, id: InformationId) -> Option<InformationRecord> {
        if 1 <= id.0 <= self.records@.len() {
            Some(self.records@[id.0 - 1])
        } else {
            None
        }
    }

    pub fn new() -> (r: IntelligenceState)
        ensures
            r.records@.len() == 0,
    {
        IntelligenceState { records: Vec::new() }
    }

    pub fn get_information(&self, id: InformationId) -> (r: Option<&InformationRecord>)
        ensures
            r is Some <==> self.spec_get(id) is Some,
            r matches Some(rec) ==> *rec == self.spec_get(id)->0,
    {
        if id.0 >= 1 && ((id.0 - 1) as usize) < self.records.len() {
            Some(&self.records[(id.0 - 1) as usize])
        } else {
            None
        }
    }

    /// Identifiers of the records a holder holds, in identifier order.
    pub fn information_for_holder(&self, holder: KnowledgeHolder) -> (r: Vec<InformationId>)
        ensures
            r@ == ids_of(self.records@.filter(held_by(holder))),
    {
        let mut r: Vec<InformationId> = Vec::new();
        let mut i: usize = 0;
        while i < self.records.len()
            invariant
                i <= self.records.len(),
                r@ == ids_of(self.records@.take(i as int).filter(held_by(holder))),
            decreases self.records.len() - i,
        {
            proof {
                crate::seqs::lemma_filter_take_step(self.records@, held_by(holder), i as int);
                lemma_ids_of_push(self.records@.take(i as int).filter(held_by(holder)), self.records@[i as int]);
            }
            if self.records[i].holder == holder {
                r.push(self.records[i].id);
            }
            i = i + 1;
        }
        assert(self.records@.take(self.records.len() as int) =~= self.records@);
        r
    }

    /// Identifiers of the records a holder holds on one topic, in identifier order.
    pub fn information_for_holder_by_topic(&self, holder: KnowledgeHolder, topic: InformationTopic) -> (r: Vec<InformationId>)
        ensures
            r@ == ids_of(self.records@.filter(held_on_topic(holder, topic))),
    {
        let mut r: Vec<InformationId> = Vec::new();
        let mut i: usize = 0;
        while i < self.records.len()
            invariant
                i <= self.records.len(),
                r@ == ids_of(self.records@.take(i as int).filter(held_on_topic(holder, topic))),
            decreases self.records.len() - i,
        {
            proof {
                crate::seqs::lemma_filter_take_step(self.records@, held_on_topic(holder, topic), i as int);
                lemma_ids_of_push(self.records@.take(i as int).filter(held_on_topic(holder, topic)), self.records@[i as int]);
            }
            if self.records[i].holder == holder && self.records[i].topic == topic {
                r.push(self.records[i].id);
            }
            i = i + 1;
        }
        assert(self.records@.take(self.records.len() as int) =~= self.records@);
        r
    }

    /// Identifiers of the records a holder holds about one subject, in identifier order.
    pub fn information_for_holder_subject(&self, holder: KnowledgeHolder, subject: EntityRef) -> (r: Vec<InformationId>)
        ensures
            r@ == ids_of(self.records@.filter(held_about(holder, subject))),
    {
        let mut r: Vec<InformationId> = Vec::new();
        let mut i: usize = 0;
        while i < self.records.len()
            invariant
                i <= self.records.len(),
                r@ == ids_of(self.records@.take(i as int).filter(held_about(holder, subject))),
            decreases self.records.len() - i,
        {
            proof {
                crate::seqs::lemma_filter_take_step(self.records@, held_about(holder, subject), i as int);
                lemma_ids_of_push(self.records@.take(i as int).filter(held_about(holder, subject)), self.records@[i as int]);
            }
            if self.records[i].holder == holder && self.records[i].subject == subject {
                r.push(self.records[i].id);
            }
            i = i + 1;
        }
        assert(self.records@.take(self.records.len() as int) =~= self.records@);
        r
    }

    /// Identifiers of the records derived from `source`, in identifier order.
    pub fn information_derived_from(&self, source: InformationId) -> (r: Vec<InformationId>)
        ensures
            r@ == ids_of(self.records@.filter(derived_from_source(source))),
    {
        let mut r: Vec<InformationId> = Vec::new();
        let mut i: usize = 0;
        while i < self.records.len()
            invariant
                i <= self.records.len(),
                r@ == ids_of(self.records@.take(i as int).filter(derived_from_source(source))),
            decreases self.records.len() - i,
        {
            proof {
                crate::seqs::lemma_filter_take_step(self.records@, derived_from_source(source), i as int);
                lemma_ids_of_push(self.records@.take(i as int).filter(derived_from_source(source)), self.records@[i as int]);
            }
            let matches = match self.records[i].derived_from {
                Some(d) => d == source,
                None => false,
            };
            if matches {
                r.push(self.records[i].id);
            }
            i = i + 1;
        }
        assert(self.records@.take(self.records.len() as int) =~= self.records@);
        r
    }

    /// The internal report through which `source` already reached `recipient`, if any.
    pub open spec fn spec_internal_transfer_for(self, source: InformationId, recipient: KnowledgeHolder) -> Option<int> {
        crate::seqs::first_index(self.records@, internal_report_of(source, recipient))
    }

    pub fn internal_transfer_for(&self, source: InformationId, recipient: KnowledgeHolder) -> (r: Option<InformationId>)
        ensures
            r == (match self.spec_internal_transfer_for(source, recipient) {
                Some(i) => Some(self.records@[i].id),
                None => None,
            }),
    {
        let ghost p = internal_report_of(source, recipient);
        let mut i: usize = 0;
        while i < self.records.len()
            invariant
                i <= self.records.len(),
                p == internal_report_of(source, recipient),
                forall|j: int| 0 <= j < i ==> !p(#[trigger] self.records@[j]),
            decreases self.records.len() - i,
        {
            let from_source = match self.records[i].derived_from {
                Some(d) => d == source,
                None => false,
            };
            let hit = self.records[i].source_kind == InformationSourceKind::InternalReport
                && from_source && self.records[i].holder == recipient;
            assert(hit == p(self.records@[i as int]));
            if hit {
                proof {
                    crate::seqs::lemma_first_index_is(self.records@, p, i as int);
                }
                return Some(self.records[i].id);
            }
            i = i + 1;
        }
        proof {
            crate::seqs::lemma_first_index_none(self.records@, p);
        }
        None
    }

    pub fn information_count(&self) -> (r: usize)
        ensures
            r == self.records@.len(),
    {
        self.records.len()
    }
}

/// Over records numbered densely from one, the identifiers of the records that satisfy `p` are
/// exactly theirs, in strictly ascending order.
pub proof fn lemma_dense_filter_ids(recs: Seq<InformationRecord>, p: spec_fn(InformationRecord) -> bool)
    requires
        forall|i: int| 0 <= i < recs.len() ==> (#[trigger] recs[i]).id.0 == i + 1,
    ensures
        forall|a: int, b: int|
            0 <= a < b < ids_of(recs.filter(p)).len() ==> (#[trigger] ids_of(recs.filter(p))[a]).0
                < (#[trigger] ids_of(recs.filter(p))[b]).0,
        forall|a: int| 0 <= a < ids_of(recs.filter(p)).len() ==> 1 <= (#[trigger] ids_of(recs.filter(p))[a]).0 <= recs.len(),
        forall|id: InformationId|
            #[trigger] ids_of(recs.filter(p)).contains(id) <==> (1 <= id.0 <= recs.len() && p(recs[id.0 - 1])),
    decreases recs.len(),
{
    reveal_with_fuel(Seq::filter, 1);
    if recs.len() > 0 {
        let s = recs.drop_last();
        let x = recs.last();
        assert forall|i: int| 0 <= i < s.len() implies (#[trigger] s[i]).id.0 == i + 1 by {
            assert(s[i] == recs[i]);
        }
        lemma_dense_filter_ids(s, p);
        assert(recs.filter(p) == (if p(x) { s.filter(p).push(x) } else { s.filter(p) }));
        let f = ids_of(s.filter(p));
        assert(x.id.0 == recs.len());
        if p(x) {
            lemma_ids_of_push(s.filter(p), x);
            assert forall|id: InformationId| #[trigger] f.push(x.id).contains(id) <==> (1 <= id.0 <= recs.len() && p(recs[id.0 - 1])) by {
                if f.push(x.id).contains(id) {
                    let k = choose|k: int| 0 <= k < f.push(x.id).len() && f.push(x.id)[k] == id;
                    if k < f.len() {
                        assert(f.contains(id));
                        assert(recs[id.0 - 1] == s[id.0 - 1]);
                    }
                }
                if 1 <= id.0 <= recs.len() && p(recs[id.0 - 1]) {
                    if id.0 == recs.len() {
                        assert(id == x.id);
                        assert(f.push(x.id)[f.len() as int] == id);
                    } else {
                        assert(recs[id.0 - 1] == s[id.0 - 1]);
                        assert(f.contains(id));
                        let k = choose|k: int| 0 <= k < f.len() && f[k] == id;
                        assert(f.push(x.id)[k] == id);
                    }
                }
            }
        } else {
            assert forall|id: InformationId| #[trigger] f.contains(id) <==> (1 <= id.0 <= recs.len() && p(recs[id.0 - 1])) by {
                if 1 <= id.0 <= recs.len() && p(recs[id.0 - 1]) && id.0 < recs.len() {
                    assert(recs[id.0 - 1] == s[id.0 - 1]);
                }
                if f.contains(id) {
                    assert(recs[id.0 - 1] == s[id.0 - 1]);
                }
            }
        }
    }
}

/// Looking an identifier up finds a record exactly when the identifier was issued (one up to
/// the number of records), and the record found carries that identifier.
pub proof fn law_information_lookup(s: IntelligenceState, id: InformationId)
    requires
        s.wf(),
    ensures
        s.spec_get(id) is Some <==> 1 <= id.0 <= s.records@.len(),
        s.spec_get(id) matches Some(rec) ==> rec.id == id,
{
}

/// A recorded fact resolves under the identifier its commit returned, and every earlier
/// identifier still resolves to what it did before.
pub proof fn law_committed_information_resolves(before: IntelligenceState, after: IntelligenceState, id: InformationId)
    requires
        before.wf(),
        id.0 == before.records@.len() + 1,
        after.records@.len() == before.records@.len() + 1,
        after.records@.drop_last() == before.records@,
        after.records@.last().id == id,
        derivation_ok(after.records@.last()),
    ensures
        after.wf(),
        after.spec_get(id) == Some(after.records@.last()),
        forall|other: InformationId| other != id ==> #[trigger] after.spec_get(other) == before.spec_get(other),
{
    assert forall|i: int| 0 <= i < after.records@.len() implies (#[trigger] after.records@[i]).id.0 == i + 1
        && derivation_ok(after.records@[i]) by {
        if i < before.records@.len() {
            assert(after.records@[i] == after.records@.drop_last()[i]);
            assert(derivation_ok(before.records@[i]));
        }
    }
    assert forall|other: InformationId| other != id implies #[trigger] after.spec_get(other) == before.spec_get(other) by {
        if 1 <= other.0 <= before.records@.len() {
            assert(after.records@[other.0 - 1] == after.records@.drop_last()[other.0 - 1]);
        }
    }
}

/// A holder's facts come back each exactly once, in strictly ascending identifier order, and
/// nothing else does.
pub proof fn law_holder_information_ascending(s: IntelligenceState, holder: KnowledgeHolder)
    requires
        s.wf(),
    ensures
        forall|a: int, b: int|
            0 <= a < b < ids_of(s.records@.filter(held_by(holder))).len() ==> (#[trigger] ids_of(
                s.records@.filter(held_by(holder)),
            )[a]).0 < (#[trigger] ids_of(s.records@.filter(held_by(holder)))[b]).0,
        forall|id: InformationId|
            #[trigger] ids_of(s.records@.filter(held_by(holder))).contains(id) <==> (s.spec_get(id) matches Some(
                rec,
            ) && rec.holder == holder),
{
    lemma_dense_filter_ids(s.records@, held_by(holder));
}

/// The facts derived from a source come back each exactly once, in strictly ascending
/// identifier order, and nothing else does.
pub proof fn law_derived_information_ascending(s: IntelligenceState, source: InformationId)
    requires
        s.wf(),
    ensures
        forall|a: int, b: int|
            0 <= a < b < ids_of(s.records@.filter(derived_from_source(source))).len() ==> (#[trigger] ids_of(
                s.records@.filter(derived_from_source(source)),
            )[a]).0 < (#[trigger] ids_of(s.records@.filter(derived_from_source(source)))[b]).0,
        forall|id: InformationId|
            #[trigger] ids_of(s.records@.filter(derived_from_source(source))).contains(id) <==> (s.spec_get(id)
                matches Some(rec) && rec.derived_from == Some(source)),
{
    lemma_dense_filter_ids(s.records@, derived_from_source(source));
}

} // verus!
