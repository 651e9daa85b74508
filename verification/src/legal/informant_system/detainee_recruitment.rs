//! The police pipeline from custody to confidential source: every detained member of a criminal
//! organization gets exactly one recruitment decision, one authored delay after the arrest.

use vstd::prelude::*;
use crate::base::{IdExhaustionError, IdKind};
use crate::base::{ArrestId, CharacterId, InformantId, OrganizationId, SimTime};
use crate::legal::informant_system::{
    establishment_error, resolve_informant_flip_chance, spec_flip_chance, validate_establish_informant,
    InformantDraft, InformantError,
};
use crate::legal::{ArrestRecord, ArrestStatus, InformantRecord};
use crate::registry::{LegalConfigDefinition, Registry};
use crate::state::AppState;
use crate::world::OrganizationKind;

verus! {

/// A detainee whose recruitment decision falls due now, with their percent chance to flip.
#[derive(Clone, Copy, Debug, PartialEq, Eq, Structural)]
pub struct RecruitmentCandidate {
    pub arrest: ArrestId,
    pub character: CharacterId,
    pub handler: OrganizationId,
    pub chance: u32,
}

/// Whether arrest `a` is a detention whose single recruitment decision falls due at `now`.
pub open spec fn decision_due(legal: LegalConfigDefinition, now: SimTime, a: ArrestRecord) -> bool {
    &&& a.status == ArrestStatus::Detained
    &&& now.0 >= legal.informant_decision_delay.0
    &&& a.arrested_at.0 == now.0 - legal.informant_decision_delay.0
}

/// What stops the pass at a due arrest: its detainee, or the detainee's organization, is missing.
pub open spec fn due_arrest_error(state: AppState, a: ArrestRecord) -> Option<InformantError> {
    match state.world.spec_character(a.character) {
        None => Some(InformantError::MissingCharacter(a.character)),
        Some(ch) => match ch.organization {
            Some(o) => if state.world.organization_present(o) {
                None
            } else {
                Some(InformantError::MissingOrganization(o))
            },
            None => None,
        },
    }
}

/// Whether the detainee of arrest `a` has an organization to inform on for the arresting
/// authority: a criminal organization other than the authority, which they do not already
/// inform on through a standing relationship.
pub open spec fn recruitable(state: AppState, a: ArrestRecord) -> bool {
    match state.world.spec_character(a.character)->0.organization {
        Some(o) => state.world.spec_kind(o) == Some(OrganizationKind::Criminal) && o != a.authority
            && state.legal.spec_informant_for(a.character, a.authority) is None,
        None => false,
    }
}

/// The strength of a character's safety drive, zero where it is not modeled.
pub open spec fn safety_of(state: AppState, c: CharacterId) -> u32 {
    match state.world.spec_character(c)->0.safety {
        Some(r) => r.0 as u32,
        None => 0,
    }
}

/// The candidate arrest `a` makes, its chance lowered where the detainee has active counsel.
pub open spec fn candidate_of(legal: LegalConfigDefinition, state: AppState, a: ArrestRecord, represented: Seq<ArrestId>) -> RecruitmentCandidate {
    RecruitmentCandidate {
        arrest: a.id,
        character: a.character,
        handler: a.authority,
        chance: spec_flip_chance(legal, safety_of(state, a.character), represented.contains(a.id)) as u32,
    }
}

/// The recruitment candidates among `arrests`, in arrest order, or the first due arrest that
/// stops the pass.
pub open spec fn recruitment_scan(legal: LegalConfigDefinition, state: AppState, arrests: Seq<ArrestRecord>, represented: Seq<ArrestId>) -> Result<Seq<RecruitmentCandidate>, InformantError>
    decreases arrests.len(),
{
    if arrests.len() == 0 {
        Ok(Seq::empty())
    } else {
        match recruitment_scan(legal, state, arrests.drop_last(), represented) {
            Err(e) => Err(e),
            Ok(rest) => {
                let a = arrests.last();
                if !decision_due(legal, state.now, a) {
                    Ok(rest)
                } else {
                    match due_arrest_error(state, a) {
                        Some(e) => Err(e),
                        None => if recruitable(state, a) {
                            Ok(rest.push(candidate_of(legal, state, a, represented)))
                        } else {
                            Ok(rest)
                        },
                    }
                }
            },
        }
    }
}

/// The recruitment candidates of `state`, in arrest order, or what stops the pass.
pub open spec fn recruitment_candidates(legal: LegalConfigDefinition, state: AppState, represented: Seq<ArrestId>) -> Result<Seq<RecruitmentCandidate>, InformantError> {
    recruitment_scan(legal, state, state.legal.arrests@, represented)
}

fn contains_arrest(v: &Vec<ArrestId>, x: ArrestId) -> (r: bool)
    ensures
        r == v@.contains(x),
{
    let mut i: usize = 0;
    while i < v.len()
        invariant
            i <= v.len(),
            forall|k: int| 0 <= k < i ==> v@[k] != x,
        decreases v.len() - i,
    {
        if v[i].0 == x.0 {
            return true;
        }
        i = i + 1;
    }
    false
}

/// The detainees whose recruitment decision falls due now, in arrest order, each with their
/// chance to flip; `represented` lists the arrests whose detainee has active counsel. Fails at
/// the first due arrest whose detainee or organization is missing.
pub fn detainee_recruitment_candidates(registry: &Registry, state: &AppState, represented: &Vec<ArrestId>) -> (r: Result<Vec<RecruitmentCandidate>, InformantError>)
    requires
        state.wf(),
    ensures
        match recruitment_candidates(registry.legal, *state, represented@) {
            Ok(cands) => r matches Ok(v) && v@ == cands,
            Err(e) => r == Err::<Vec<RecruitmentCandidate>, InformantError>(e),
        },
{
    let legal = registry.legal;
    let delay = legal.informant_decision_delay.0 as u64;
    let now = state.now.0;
    let arrests = &state.legal.arrests;
    let mut cands: Vec<RecruitmentCandidate> = Vec::new();
    let mut i: usize = 0;
    while i < arrests.len()
        invariant
            i <= arrests@.len(),
            state.wf(),
            *arrests == state.legal.arrests,
            legal == registry.legal,
            delay == legal.informant_decision_delay.0,
            now == state.now.0,
            recruitment_scan(legal, *state, arrests@.take(i as int), represented@) == Ok::<
                Seq<RecruitmentCandidate>,
                InformantError,
            >(cands@),
        decreases arrests@.len() - i,
    {
        let a = &arrests[i];
        proof {
            assert(arrests@.take(i + 1).drop_last() =~= arrests@.take(i as int));
            assert(arrests@.take(i + 1).last() == arrests@[i as int]);
        }
        let due = a.status == ArrestStatus::Detained && now >= delay && a.arrested_at.0 == now - delay;
        if due {
            let ch = match state.world.get_character(a.character) {
                Some(ch) => ch,
                None => {
                    proof {
                        lemma_scan_stops(legal, *state, arrests@, represented@, i as int);
                    }
                    return Err(InformantError::MissingCharacter(a.character));
                },
            };
            if let Some(o) = ch.organization {
                let kind = match state.world.organization_kind(o) {
                    Some(kind) => kind,
                    None => {
                        proof {
                            lemma_scan_stops(legal, *state, arrests@, represented@, i as int);
                        }
                        return Err(InformantError::MissingOrganization(o));
                    },
                };
                if kind == OrganizationKind::Criminal && o != a.authority && state.legal.informant_for(
                    a.character,
                    a.authority,
                ).is_none() {
                    let safety: u32 = match ch.safety {
                        Some(r) => r.0 as u32,
                        None => 0,
                    };
                    proof {
                        assert(state.world.characters@[a.character.0 - 1].ratings_valid());
                    }
                    let counsel = contains_arrest(represented, a.id);
                    let chance = resolve_informant_flip_chance(legal, safety, counsel);
                    cands.push(
                        RecruitmentCandidate { arrest: a.id, character: a.character, handler: a.authority, chance },
                    );
                }
            }
        }
        i = i + 1;
    }
    proof {
        assert(arrests@.take(arrests@.len() as int) =~= arrests@);
    }
    Ok(cands)
}

/// Once the scan stops at a due arrest, no later arrest restarts it.
proof fn lemma_scan_stops(legal: LegalConfigDefinition, state: AppState, arrests: Seq<ArrestRecord>, represented: Seq<ArrestId>, i: int)
    requires
        0 <= i < arrests.len(),
        recruitment_scan(legal, state, arrests.take(i + 1), represented) is Err,
    ensures
        recruitment_scan(legal, state, arrests, represented) == recruitment_scan(legal, state, arrests.take(i + 1), represented),
    decreases arrests.len() - i,
{
    if i + 1 == arrests.len() {
        assert(arrests.take(i + 1) =~= arrests);
    } else {
        assert(arrests.take(i + 2).drop_last() =~= arrests.take(i + 1));
        lemma_scan_stops(legal, state, arrests, represented, i + 1);
    }
}

/// The relationship a candidate's flip establishes.
pub open spec fn candidate_draft(c: RecruitmentCandidate) -> InformantDraft {
    InformantDraft { character: c.character, handler: c.handler }
}

/// The refusal of the first candidate, in order, whose relationship cannot be established.
pub open spec fn first_refusal(state: AppState, cands: Seq<RecruitmentCandidate>) -> Option<InformantError>
    decreases cands.len(),
{
    if cands.len() == 0 {
        None
    } else {
        match first_refusal(state, cands.drop_last()) {
            Some(e) => Some(e),
            None => establishment_error(state, candidate_draft(cands.last())),
        }
    }
}

/// The candidates who flip: those whose percentile roll falls under their chance.
pub open spec fn flipped(cands: Seq<RecruitmentCandidate>, rolls: Seq<u32>) -> Seq<RecruitmentCandidate>
    decreases cands.len(),
{
    if cands.len() == 0 || rolls.len() == 0 {
        Seq::empty()
    } else {
        let rest = flipped(cands.drop_last(), rolls.drop_last());
        if rolls.last() < cands.last().chance {
            rest.push(cands.last())
        } else {
            rest
        }
    }
}

/// The relationships the recruits of a pass over `state` establish, in order.
pub open spec fn recruit_records(state: AppState, recruits: Seq<RecruitmentCandidate>) -> Seq<InformantRecord> {
    Seq::new(
        recruits.len(),
        |k: int|
            InformantRecord {
                id: InformantId((state.legal.informants@.len() + k + 1) as u32),
                character: recruits[k].character,
                handler: recruits[k].handler,
                established_at: state.now,
            },
    )
}

pub open spec fn recruit_ids(state: AppState, recruits: Seq<RecruitmentCandidate>) -> Seq<InformantId> {
    Seq::new(recruits.len(), |k: int| InformantId((state.legal.informants@.len() + k + 1) as u32))
}

/// Candidates come from distinct detentions, so no detainee appears twice.
proof fn lemma_scan_distinct(legal: LegalConfigDefinition, state: AppState, n: int, represented: Seq<ArrestId>)
    requires
        state.wf(),
        0 <= n <= state.legal.arrests@.len(),
        recruitment_scan(legal, state, state.legal.arrests@.take(n), represented) is Ok,
    ensures
        ({
            let cs = recruitment_scan(legal, state, state.legal.arrests@.take(n), represented)->Ok_0;
            &&& forall|k: int|
                0 <= k < cs.len() ==> exists|i: int|
                    0 <= i < n && state.legal.arrests@[i].status == ArrestStatus::Detained
                        && #[trigger] cs[k].character == state.legal.arrests@[i].character
            &&& forall|a: int, b: int| 0 <= a < b < cs.len() ==> (#[trigger] cs[a]).character != (#[trigger] cs[b]).character
        }),
    decreases n,
{
    let arrests = state.legal.arrests@;
    if n > 0 {
        assert(arrests.take(n).drop_last() =~= arrests.take(n - 1));
        assert(arrests.take(n).last() == arrests[n - 1]);
        lemma_scan_distinct(legal, state, n - 1, represented);
        let rest = recruitment_scan(legal, state, arrests.take(n - 1), represented)->Ok_0;
        let cs = recruitment_scan(legal, state, arrests.take(n), represented)->Ok_0;
        let a = arrests[n - 1];
        if cs.len() > rest.len() {
            assert(cs == rest.push(candidate_of(legal, state, a, represented)));
            assert forall|k: int| 0 <= k < rest.len() implies (#[trigger] rest[k]).character != a.character by {
                let i = choose|i: int|
                    0 <= i < n - 1 && arrests[i].status == ArrestStatus::Detained && #[trigger] rest[k].character
                        == arrests[i].character;
                assert(!crate::legal::both_detain(arrests[i], arrests[n - 1]));
            }
            assert forall|k: int| 0 <= k < cs.len() implies exists|i: int|
                0 <= i < n && arrests[i].status == ArrestStatus::Detained && #[trigger] cs[k].character
                    == arrests[i].character by {
                if k < rest.len() {
                    assert(cs[k] == rest[k]);
                    let i = choose|i: int|
                        0 <= i < n - 1 && arrests[i].status == ArrestStatus::Detained && #[trigger] rest[k].character
                            == arrests[i].character;
                } else {
                    assert(cs[k].character == arrests[n - 1].character);
                }
            }
            assert forall|x: int, y: int| 0 <= x < y < cs.len() implies (#[trigger] cs[x]).character
                != (#[trigger] cs[y]).character by {
                if y < rest.len() {
                    assert(cs[x] == rest[x] && cs[y] == rest[y]);
                } else {
                    assert(cs[x] == rest[x]);
                }
            }
        } else {
            assert(cs == rest);
        }
    }
}

proof fn lemma_flipped_props(cands: Seq<RecruitmentCandidate>, rolls: Seq<u32>)
    requires
        forall|a: int, b: int| 0 <= a < b < cands.len() ==> (#[trigger] cands[a]).character != (#[trigger] cands[b]).character,
    ensures
        forall|k: int| 0 <= k < flipped(cands, rolls).len() ==> cands.contains(#[trigger] flipped(cands, rolls)[k]),
        forall|a: int, b: int|
            0 <= a < b < flipped(cands, rolls).len() ==> (#[trigger] flipped(cands, rolls)[a]).character
                != (#[trigger] flipped(cands, rolls)[b]).character,
    decreases cands.len(),
{
    if cands.len() > 0 && rolls.len() > 0 {
        let c1 = cands.drop_last();
        lemma_flipped_props(c1, rolls.drop_last());
        let rest = flipped(c1, rolls.drop_last());
        let f = flipped(cands, rolls);
        assert forall|k: int| 0 <= k < rest.len() implies cands.contains(#[trigger] rest[k]) by {
            let q = choose|q: int| 0 <= q < c1.len() && c1[q] == rest[k];
            assert(cands[q] == rest[k]);
        }
        if rolls.last() < cands.last().chance {
            assert(cands[cands.len() - 1] == cands.last());
            assert forall|k: int| 0 <= k < rest.len() implies (#[trigger] rest[k]).character != cands.last().character by {
                let q = choose|q: int| 0 <= q < c1.len() && c1[q] == rest[k];
                assert(cands[q] == rest[k]);
            }
            assert forall|a: int, b: int| 0 <= a < b < f.len() implies (#[trigger] f[a]).character != (#[trigger] f[b]).character by {
                if b < rest.len() {
                    assert(f[a] == rest[a] && f[b] == rest[b]);
                } else {
                    assert(f[a] == rest[a]);
                }
            }
            assert forall|k: int| 0 <= k < f.len() implies cands.contains(#[trigger] f[k]) by {
                if k < rest.len() {
                    assert(f[k] == rest[k]);
                }
            }
        }
    }
}

proof fn lemma_no_refusal(state: AppState, cands: Seq<RecruitmentCandidate>, k: int)
    requires
        first_refusal(state, cands) is None,
        0 <= k < cands.len(),
    ensures
        establishment_error(state, candidate_draft(cands[k])) is None,
    decreases cands.len(),
{
    if k < cands.len() - 1 {
        assert(cands.drop_last()[k] == cands[k]);
        lemma_no_refusal(state, cands.drop_last(), k);
    }
}

/// One recruitment pass: every detainee whose decision falls due now is a candidate (see
/// `detainee_recruitment_candidates`), and `rolls` holds one percentile roll per candidate, in
/// order; a candidate flips when their roll falls under their chance. The pass is all or
/// nothing: it fails, changing nothing, when some candidate's relationship cannot be
/// established, and fails with informant-identifier exhaustion, changing nothing, when the
/// flipped relationships cannot all be numbered.
pub fn apply_detainee_informant_recruitment(registry: &Registry, state: &mut AppState, represented: &Vec<ArrestId>, rolls: &Vec<u32>) -> (r: Result<Vec<InformantId>, InformantError>)
    requires
        old(state).wf(),
        recruitment_candidates(registry.legal, *old(state), represented@) matches Ok(cands) ==> rolls@.len()
            == cands.len(),
    ensures
        final(state).wf(),
        match recruitment_candidates(registry.legal, *old(state), represented@) {
            Err(e) => r == Err::<Vec<InformantId>, InformantError>(e) && *final(state) == *old(state),
            Ok(cands) => match first_refusal(*old(state), cands) {
                Some(e) => r == Err::<Vec<InformantId>, InformantError>(e) && *final(state) == *old(state),
                None => {
                    let recruits = flipped(cands, rolls@);
                    if old(state).legal.informants@.len() + recruits.len() > u32::MAX {
                        r == Err::<Vec<InformantId>, InformantError>(
                            InformantError::IdExhaustion(IdExhaustionError::Exhausted { kind: IdKind::Informant }),
                        ) && *final(state) == *old(state)
                    } else {
                        &&& r matches Ok(v) && v@ == recruit_ids(*old(state), recruits)
                        &&& final(state).legal.informants@ == old(state).legal.informants@ + recruit_records(
                            *old(state),
                            recruits,
                        )
                        &&& final(state).legal.investigations == old(state).legal.investigations
                        &&& final(state).legal.evidence == old(state).legal.evidence
                        &&& final(state).legal.arrests == old(state).legal.arrests
                        &&& final(state).legal.case_witnesses == old(state).legal.case_witnesses
                        &&& final(state).legal.disclosures == old(state).legal.disclosures
                        &&& final(state).legal.work == old(state).legal.work
                        &&& final(state).world == old(state).world
                        &&& final(state).intelligence == old(state).intelligence
                        &&& final(state).now == old(state).now
                        &&& final(state).rng == old(state).rng
                    }
                },
            },
        },
{
    let cands = detainee_recruitment_candidates(registry, state, represented)?;
    let mut k: usize = 0;
    while k < cands.len()
        invariant
            k <= cands@.len(),
            *state == *old(state),
            state.wf(),
            recruitment_candidates(registry.legal, *state, represented@) == Ok::<
                Seq<RecruitmentCandidate>,
                InformantError,
            >(cands@),
            first_refusal(*state, cands@.take(k as int)) is None,
        decreases cands@.len() - k,
    {
        let c = cands[k];
        proof {
            assert(cands@.take(k + 1).drop_last() =~= cands@.take(k as int));
            assert(cands@.take(k + 1).last() == c);
        }
        match validate_establish_informant(state, InformantDraft { character: c.character, handler: c.handler }) {
            Ok(_) => {},
            Err(e) => {
                proof {
                    lemma_refusal_stays(*state, cands@, k as int);
                }
                return Err(e);
            },
        }
        k = k + 1;
    }
    proof {
        assert(cands@.take(cands@.len() as int) =~= cands@);
        assert(state.legal.arrests@.take(state.legal.arrests@.len() as int) =~= state.legal.arrests@);
        lemma_scan_distinct(registry.legal, *state, state.legal.arrests@.len() as int, represented@);
    }
    let mut recruits: Vec<RecruitmentCandidate> = Vec::new();
    k = 0;
    while k < cands.len()
        invariant
            k <= cands@.len(),
            rolls@.len() == cands@.len(),
            recruits@ == flipped(cands@.take(k as int), rolls@.take(k as int)),
        decreases cands@.len() - k,
    {
        proof {
            assert(cands@.take(k + 1).drop_last() =~= cands@.take(k as int));
            assert(rolls@.take(k + 1).drop_last() =~= rolls@.take(k as int));
            assert(cands@.take(k + 1).last() == cands@[k as int]);
            assert(rolls@.take(k + 1).last() == rolls@[k as int]);
        }
        if rolls[k] < cands[k].chance {
            recruits.push(cands[k]);
        }
        k = k + 1;
    }
    proof {
        assert(cands@.take(cands@.len() as int) =~= cands@);
        assert(rolls@.take(rolls@.len() as int) =~= rolls@);
        lemma_flipped_props(cands@, rolls@);
    }
    let len = state.legal.informants.len();
    if recruits.len() > u32::MAX as usize || len > u32::MAX as usize - recruits.len() {
        return Err(InformantError::IdExhaustion(IdExhaustionError::Exhausted { kind: IdKind::Informant }));
    }
    let ghost s0 = *state;
    let mut ids: Vec<InformantId> = Vec::new();
    k = 0;
    while k < recruits.len()
        invariant
            k <= recruits@.len(),
            s0.wf(),
            len == s0.legal.informants@.len(),
            len + recruits@.len() <= u32::MAX,
            first_refusal(s0, cands@) is None,
            forall|m: int| 0 <= m < recruits@.len() ==> cands@.contains(#[trigger] recruits@[m]),
            forall|a: int, b: int|
                0 <= a < b < recruits@.len() ==> (#[trigger] recruits@[a]).character != (#[trigger] recruits@[b]).character,
            state.wf(),
            state.legal.informants@ == s0.legal.informants@ + recruit_records(s0, recruits@.take(k as int)),
            ids@ == recruit_ids(s0, recruits@.take(k as int)),
            state.legal.investigations == s0.legal.investigations,
            state.legal.evidence == s0.legal.evidence,
            state.legal.arrests == s0.legal.arrests,
            state.legal.case_witnesses == s0.legal.case_witnesses,
            state.legal.disclosures == s0.legal.disclosures,
            state.legal.work == s0.legal.work,
            state.world == s0.world,
            state.intelligence == s0.intelligence,
            state.now == s0.now,
            state.rng == s0.rng,
        decreases recruits@.len() - k,
    {
        let c = recruits[k];
        let d = InformantDraft { character: c.character, handler: c.handler };
        proof {
            let q = choose|q: int| 0 <= q < cands@.len() && cands@[q] == c;
            lemma_no_refusal(s0, cands@, q);
            crate::seqs::lemma_first_index_props(s0.legal.informants@, crate::legal::informant_of(c.character, c.handler));
            assert forall|j: int| 0 <= j < state.legal.informants@.len() implies !crate::legal::informant_of(
                c.character,
                c.handler,
            )(#[trigger] state.legal.informants@[j]) by {
                if j >= s0.legal.informants@.len() {
                    let m = j - s0.legal.informants@.len();
                    assert(recruits@.take(k as int)[m] == recruits@[m]);
                    assert(recruits@[m].character != recruits@[k as int].character);
                } else {
                    assert(state.legal.informants@[j] == s0.legal.informants@[j]);
                }
            }
            crate::seqs::lemma_first_index_none(state.legal.informants@, crate::legal::informant_of(c.character, c.handler));
            assert(establishment_error(*state, d) is None);
        }
        let token = validate_establish_informant(state, d).unwrap();
        let id = token.commit(state);
        proof {
            assert(id is Ok);
            assert(recruit_records(s0, recruits@.take(k + 1)) =~= recruit_records(s0, recruits@.take(k as int)).push(
                InformantRecord {
                    id: InformantId((len + k + 1) as u32),
                    character: c.character,
                    handler: c.handler,
                    established_at: s0.now,
                },
            ));
            assert(state.legal.informants@ =~= s0.legal.informants@ + recruit_records(s0, recruits@.take(k + 1)));
        }
        ids.push(InformantId((len + k + 1) as u32));
        proof {
            assert(ids@ =~= recruit_ids(s0, recruits@.take(k + 1)));
        }
        k = k + 1;
    }
    proof {
        assert(recruits@.take(recruits@.len() as int) =~= recruits@);
        assert(s0.legal.informants@ + recruit_records(s0, Seq::<RecruitmentCandidate>::empty()) =~= s0.legal.informants@);
    }
    Ok(ids)
}

/// Once some candidate is refused, the first refusal of the whole list is the first refusal.
proof fn lemma_refusal_stays(state: AppState, cands: Seq<RecruitmentCandidate>, k: int)
    requires
        0 <= k < cands.len(),
        first_refusal(state, cands.take(k)) is None,
        establishment_error(state, candidate_draft(cands[k])) is Some,
    ensures
        first_refusal(state, cands) == establishment_error(state, candidate_draft(cands[k])),
    decreases cands.len(),
{
    if k == cands.len() - 1 {
        assert(cands.drop_last() =~= cands.take(k));
    } else {
        assert(cands.drop_last().take(k) =~= cands.take(k));
        assert(cands.drop_last()[k] == cands[k]);
        lemma_refusal_stays(state, cands.drop_last(), k);
    }
}

} // verus!
