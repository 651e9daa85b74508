//! The institution's own staffing policy: scarce detectives go to the unstaffed cases with the
//! most substance first, each case to the most capable free detective of its authority.

use vstd::prelude::*;
use crate::base::{IdExhaustionError, IdKind};
use crate::base::{CharacterId, EntityRef, InvestigationId};
use crate::base::SimTime;
use crate::intelligence::CaseActivitySignal;
use crate::legal::case_knowledge::police_case;
use crate::intelligence::intelligence_system::history_matches;
use crate::intelligence::{LegalPersonStatusSignal, SignalView};
use crate::legal::investigation_system::staffing::{
    case_witness_list, check_lead_knowledge, validate_assign_investigator, witness_knowledge_ready,
};
use crate::legal::store::only_investigations_differ;
use crate::legal::investigation_system::{activity_knowledge_ready, spec_actionable, InvestigationError};
use crate::legal::store::with_lead;
use crate::legal::{EvidenceRecord, InvestigationRecord, InvestigationStatus};
use crate::state::AppState;

verus! {

/// How many records of `ev` are actionable evidence of case `inv`.
pub open spec fn actionable_count(ev: Seq<EvidenceRecord>, inv: InvestigationId) -> nat
    decreases ev.len(),
{
    if ev.len() == 0 {
        0
    } else {
        let e = ev.last();
        actionable_count(ev.drop_last(), inv) + (if e.investigation == inv && spec_actionable(
            e.strength,
            e.reliability,
            e.admissibility,
        ) {
            1nat
        } else {
            0nat
        })
    }
}

/// How many records of `ev` belong to case `inv`.
pub open spec fn case_evidence_count(ev: Seq<EvidenceRecord>, inv: InvestigationId) -> nat
    decreases ev.len(),
{
    if ev.len() == 0 {
        0
    } else {
        case_evidence_count(ev.drop_last(), inv) + (if ev.last().investigation == inv {
            1nat
        } else {
            0nat
        })
    }
}

/// The rank of the strongest evidence of case `inv` in `ev`; -1 when it has none.
pub open spec fn best_strength(ev: Seq<EvidenceRecord>, inv: InvestigationId) -> int
    decreases ev.len(),
{
    if ev.len() == 0 {
        -1
    } else {
        let rest = best_strength(ev.drop_last(), inv);
        let e = ev.last();
        if e.investigation == inv && e.strength.rank() > rest {
            e.strength.rank()
        } else {
            rest
        }
    }
}

/// The rank of the most reliable evidence of case `inv` in `ev`; -1 when it has none.
pub open spec fn best_reliability(ev: Seq<EvidenceRecord>, inv: InvestigationId) -> int
    decreases ev.len(),
{
    if ev.len() == 0 {
        -1
    } else {
        let rest = best_reliability(ev.drop_last(), inv);
        let e = ev.last();
        if e.investigation == inv && e.reliability.rank() > rest {
            e.reliability.rank()
        } else {
            rest
        }
    }
}

/// Whether case `a` has a stronger claim on a detective than case `b`: more actionable evidence,
/// then stronger, then more reliable evidence, then more evidence, then more recent activity,
/// then the earlier case.
pub open spec fn ranks_before(state: AppState, a: int, b: int) -> bool {
    let ev = state.legal.evidence@;
    let ra = state.legal.investigations@[a];
    let rb = state.legal.investigations@[b];
    let (na, nb) = (actionable_count(ev, ra.id), actionable_count(ev, rb.id));
    let (sa, sb) = (best_strength(ev, ra.id), best_strength(ev, rb.id));
    let (la, lb) = (best_reliability(ev, ra.id), best_reliability(ev, rb.id));
    let (ca, cb) = (case_evidence_count(ev, ra.id), case_evidence_count(ev, rb.id));
    if na != nb {
        na > nb
    } else if sa != sb {
        sa > sb
    } else if la != lb {
        la > lb
    } else if ca != cb {
        ca > cb
    } else if ra.last_activity_at.0 != rb.last_activity_at.0 {
        ra.last_activity_at.0 > rb.last_activity_at.0
    } else {
        a < b
    }
}

/// Whether case `i` wants a lead from the policy: active, unstaffed, and able to take the two
/// revisions staffing gives it.
pub open spec fn wants_lead(state: AppState, i: int) -> bool {
    let rec = state.legal.investigations@[i];
    &&& rec.status == InvestigationStatus::Active
    &&& rec.lead_investigator is None
    &&& rec.version <= u32::MAX - 2
}

/// The substance of one case, as `ranks_before` compares it.
pub struct CaseSubstance {
    pub actionable: u64,
    pub strength: i16,
    pub reliability: i16,
    pub evidence: u64,
    pub activity: u64,
}

pub open spec fn substance_of(state: AppState, i: int, k: CaseSubstance) -> bool {
    let ev = state.legal.evidence@;
    let rec = state.legal.investigations@[i];
    &&& k.actionable == actionable_count(ev, rec.id)
    &&& k.strength == best_strength(ev, rec.id)
    &&& k.reliability == best_reliability(ev, rec.id)
    &&& k.evidence == case_evidence_count(ev, rec.id)
    &&& k.activity == rec.last_activity_at.0
}

fn case_substance(state: &AppState, i: usize) -> (k: CaseSubstance)
    requires
        i < state.legal.investigations@.len(),
    ensures
        substance_of(*state, i as int, k),
{
    let inv = state.legal.investigations[i].id;
    let ev = &state.legal.evidence;
    let mut k = CaseSubstance { actionable: 0, strength: -1, reliability: -1, evidence: 0, activity: state.legal.investigations[i].last_activity_at.0 };
    let mut j: usize = 0;
    while j < ev.len()
        invariant
            j <= ev.len(),
            *ev == state.legal.evidence,
            k.actionable == actionable_count(ev@.take(j as int), inv),
            k.strength == best_strength(ev@.take(j as int), inv),
            k.reliability == best_reliability(ev@.take(j as int), inv),
            k.evidence == case_evidence_count(ev@.take(j as int), inv),
            k.actionable <= j,
            k.evidence <= j,
            -1 <= k.strength <= 3,
            -1 <= k.reliability <= 3,
            k.activity == state.legal.investigations@[i as int].last_activity_at.0,
            inv == state.legal.investigations@[i as int].id,
        decreases ev.len() - j,
    {
        let e = ev[j];
        proof {
            assert(ev@.take(j + 1).drop_last() =~= ev@.take(j as int));
            assert(ev@.take(j + 1).last() == e);
        }
        if e.investigation == inv {
            k.evidence = k.evidence + 1;
            if crate::legal::investigation_system::evidence_assessment_is_actionable_case_lead(
                e.strength,
                e.reliability,
                e.admissibility,
            ) {
                k.actionable = k.actionable + 1;
            }
            let s = e.strength.rank_of() as i16;
            if s > k.strength {
                k.strength = s;
            }
            let r = e.reliability.rank_of() as i16;
            if r > k.reliability {
                k.reliability = r;
            }
        }
        j = j + 1;
    }
    proof {
        assert(ev@.take(ev@.len() as int) =~= ev@);
    }
    k
}

fn substance_before(a: &CaseSubstance, ia: usize, b: &CaseSubstance, ib: usize) -> (r: bool)
    ensures
        r == (if a.actionable != b.actionable {
            a.actionable > b.actionable
        } else if a.strength != b.strength {
            a.strength > b.strength
        } else if a.reliability != b.reliability {
            a.reliability > b.reliability
        } else if a.evidence != b.evidence {
            a.evidence > b.evidence
        } else if a.activity != b.activity {
            a.activity > b.activity
        } else {
            ia < ib
        }),
{
    if a.actionable != b.actionable {
        a.actionable > b.actionable
    } else if a.strength != b.strength {
        a.strength > b.strength
    } else if a.reliability != b.reliability {
        a.reliability > b.reliability
    } else if a.evidence != b.evidence {
        a.evidence > b.evidence
    } else if a.activity != b.activity {
        a.activity > b.activity
    } else {
        ia < ib
    }
}

/// Whether `x` may lead case `i` under the policy: a member of its authority who can
/// investigate, is neither detained nor leading a case, and is neither a subject nor a witness
/// of it.
pub open spec fn fits_case(state: AppState, i: int, x: CharacterId) -> bool {
    let rec = state.legal.investigations@[i];
    &&& state.world.character_present(x)
    &&& state.world.spec_character(x)->0.organization == Some(rec.owner)
    &&& state.world.spec_character(x)->0.investigation is Some
    &&& state.legal.spec_active_arrest_for(x) is None
    &&& state.legal.spec_active_investigation_for(x) is None
    &&& !rec.subjects@.contains(EntityRef::Character(x))
    &&& state.legal.spec_case_witness_for(rec.id, x) is None
}

/// A detective's investigation capability.
pub open spec fn skill(state: AppState, x: CharacterId) -> int {
    (state.world.spec_character(x)->0.investigation->0).0 as int
}

/// Whether detective `x` is preferred to `y`: more capable, then the earlier character.
pub open spec fn preferred(state: AppState, x: CharacterId, y: CharacterId) -> bool {
    skill(state, x) > skill(state, y) || (skill(state, x) == skill(state, y) && x.0 < y.0)
}

/// The most capable detective who fits case `i` and is not in `used`.
fn best_detective(state: &AppState, i: usize, used: &Vec<CharacterId>) -> (r: Option<CharacterId>)
    requires
        state.wf(),
        i < state.legal.investigations@.len(),
    ensures
        match r {
            Some(x) => fits_case(*state, i as int, x) && !used@.contains(x) && forall|y: CharacterId|
                fits_case(*state, i as int, y) && !used@.contains(y) && y != x ==> preferred(*state, x, y),
            None => forall|y: CharacterId| fits_case(*state, i as int, y) ==> used@.contains(y),
        },
{
    let rec = &state.legal.investigations[i];
    let chars = &state.world.characters;
    let mut best: Option<CharacterId> = None;
    let mut j: usize = 0;
    while j < chars.len()
        invariant
            j <= chars.len(),
            state.wf(),
            *rec == state.legal.investigations@[i as int],
            *chars == state.world.characters,
            match best {
                Some(x) => 1 <= x.0 <= j && fits_case(*state, i as int, x) && !used@.contains(x) && forall|y: CharacterId|
                    1 <= y.0 <= j && fits_case(*state, i as int, y) && !used@.contains(y) && y != x ==> preferred(
                        *state,
                        x,
                        y,
                    ),
                None => forall|y: CharacterId| 1 <= y.0 <= j && fits_case(*state, i as int, y) ==> used@.contains(y),
            },
        decreases chars.len() - j,
    {
        let ch = &chars[j];
        let x = ch.id;
        proof {
            assert(x.0 == j + 1);
            assert(state.world.spec_character(x) == Some(state.world.characters@[j as int]));
        }
        let fits = ch.organization == Some(rec.owner) && ch.investigation.is_some()
            && state.legal.active_arrest_for_character(x).is_none()
            && state.legal.active_investigation_for_investigator(x).is_none()
            && !crate::base::entity_vec_contains(&rec.subjects, EntityRef::Character(x))
            && state.legal.case_witness_for(rec.id, x).is_none();
        if fits && !contains_character(used, x) {
            let take = match best {
                None => true,
                Some(b) => {
                    let bs = match state.world.characters[(b.0 - 1) as usize].investigation {
                        Some(r) => r.0,
                        None => 0,
                    };
                    let xs = match ch.investigation {
                        Some(r) => r.0,
                        None => 0,
                    };
                    xs > bs
                },
            };
            if take {
                best = Some(x);
            }
        }
        j = j + 1;
    }
    proof {
        assert forall|y: CharacterId| fits_case(*state, i as int, y) implies 1 <= y.0 <= chars@.len() by {}
    }
    best
}

fn contains_character(v: &Vec<CharacterId>, x: CharacterId) -> (r: bool)
    ensures
        r == v@.contains(x),
{
    let mut i: usize = 0;
    while i < v.len()
        invariant
            i <= v.len(),
            forall|k: int| 0 <= k < i ==> v@[k] != x,
        decreases v.len() - i,
    {
        if v[i].0 == x.0 {
            return true;
        }
        i = i + 1;
    }
    false
}

/// The characters chosen so far, in the order they were chosen.
pub open spec fn picked(choices: Seq<Option<CharacterId>>) -> Seq<CharacterId>
    decreases choices.len(),
{
    if choices.len() == 0 {
        Seq::empty()
    } else {
        let rest = picked(choices.drop_last());
        match choices.last() {
            Some(x) => rest.push(x),
            None => rest,
        }
    }
}

/// The staffed cases of a pass that considered the cases at `order` and chose `choices` for
/// them, each with its new lead.
pub open spec fn policy_picks(state: AppState, order: Seq<int>, choices: Seq<Option<CharacterId>>) -> Seq<(InvestigationId, CharacterId)>
    decreases choices.len(),
{
    if choices.len() == 0 || order.len() == 0 {
        Seq::empty()
    } else {
        let rest = policy_picks(state, order.drop_last(), choices.drop_last());
        match choices.last() {
            Some(x) => rest.push((state.legal.investigations@[order.last()].id, x)),
            None => rest,
        }
    }
}

/// Whether `ch` is what the policy picks for case `i` once the detectives in `used` are taken:
/// the preferred free detective who fits it, or nobody when every fitting detective is taken.
pub open spec fn choice_fits(state: AppState, i: int, used: Seq<CharacterId>, ch: Option<CharacterId>) -> bool {
    match ch {
        Some(x) => fits_case(state, i, x) && !used.contains(x) && forall|y: CharacterId|
            fits_case(state, i, y) && !used.contains(y) && y != x ==> preferred(state, x, y),
        None => forall|y: CharacterId| fits_case(state, i, y) ==> used.contains(y),
    }
}

/// Whether the cases at `order` were considered in rank order, each wanting a lead, and each
/// given what the policy picks for it.
pub open spec fn staffing_prefix(state: AppState, order: Seq<int>, choices: Seq<Option<CharacterId>>) -> bool {
    let n = state.legal.investigations@.len();
    &&& order.len() == choices.len()
    &&& forall|p: int| 0 <= p < order.len() ==> 0 <= #[trigger] order[p] < n && wants_lead(state, order[p])
    &&& forall|p: int, q: int| 0 <= p < q < order.len() ==> ranks_before(state, #[trigger] order[p], #[trigger] order[q])
    &&& forall|p: int| 0 <= p < order.len() ==> choice_fits(state, order[p], picked(choices.take(p)), #[trigger] choices[p])
}

/// Whether `order` and `choices` are one full staffing pass over `state`: every case that wants
/// a lead is considered, in rank order, and given what the policy picks for it.
pub open spec fn staffing_policy(state: AppState, order: Seq<int>, choices: Seq<Option<CharacterId>>) -> bool {
    &&& staffing_prefix(state, order, choices)
    &&& forall|j: int| 0 <= j < state.legal.investigations@.len() && wants_lead(state, j) ==> order.contains(j)
}

/// How many records of first-hand knowledge seating a lead in case `inv` writes: the case's
/// activity and each registered witness for a police case, none otherwise.
pub open spec fn lead_knowledge_size(state: AppState, inv: InvestigationId) -> nat {
    if police_case(state, inv) {
        1 + case_witness_list(state.legal, inv).len()
    } else {
        0
    }
}

/// Whether all first-hand knowledge that seating `c` as lead of `inv` gives can be recorded.
pub open spec fn lead_knowledge_ready(state: AppState, inv: InvestigationId, c: CharacterId) -> bool {
    !police_case(state, inv) || (activity_knowledge_ready(state, inv, CaseActivitySignal::Active, c)
        && witness_knowledge_ready(state, inv))
}

/// How many knowledge records staffing all of `plan` writes.
pub open spec fn knowledge_total(state: AppState, plan: Seq<(InvestigationId, CharacterId)>) -> nat
    decreases plan.len(),
{
    if plan.len() == 0 {
        0
    } else {
        knowledge_total(state, plan.drop_last()) + lead_knowledge_size(state, plan.last().0)
    }
}

/// The case files after each case of `plan` is given its lead at `now`, in turn.
pub open spec fn staffed_upto(invs: Seq<InvestigationRecord>, plan: Seq<(InvestigationId, CharacterId)>, now: SimTime) -> Seq<InvestigationRecord>
    decreases plan.len(),
{
    if plan.len() == 0 {
        invs
    } else {
        let prev = staffed_upto(invs, plan.drop_last(), now);
        let i = plan.last().0.0 - 1;
        prev.update(i, with_lead(prev[i], Some(plan.last().1), now))
    }
}

/// How many entries of `done` are still unset.
spec fn unprocessed(done: Seq<bool>) -> nat
    decreases done.len(),
{
    if done.len() == 0 {
        0
    } else {
        unprocessed(done.drop_last()) + if done.last() {
            0nat
        } else {
            1nat
        }
    }
}

proof fn lemma_unprocessed_set(done: Seq<bool>, b: int)
    requires
        0 <= b < done.len(),
        !done[b],
    ensures
        unprocessed(done.update(b, true)) < unprocessed(done),
    decreases done.len(),
{
    if b == done.len() - 1 {
        assert(done.update(b, true).drop_last() =~= done.drop_last());
    } else {
        lemma_unprocessed_set(done.drop_last(), b);
        assert(done.update(b, true).drop_last() =~= done.drop_last().update(b, true));
    }
}

proof fn lemma_ranks_before_transitive(state: AppState, a: int, b: int, c: int)
    requires
        ranks_before(state, a, b),
        ranks_before(state, b, c),
    ensures
        ranks_before(state, a, c),
{
}

proof fn lemma_ranks_before_total(state: AppState, a: int, b: int)
    requires
        a != b,
    ensures
        ranks_before(state, a, b) || ranks_before(state, b, a),
{
}

/// The best-ranked case that wants a lead and is not yet `done`.
fn next_case(state: &AppState, subs: &Vec<CaseSubstance>, done: &Vec<bool>) -> (r: Option<usize>)
    requires
        subs@.len() == state.legal.investigations@.len(),
        done@.len() == state.legal.investigations@.len(),
        forall|k: int| 0 <= k < subs@.len() ==> substance_of(*state, k, #[trigger] subs@[k]),
    ensures
        match r {
            Some(b) => {
                &&& b < done@.len()
                &&& !done@[b as int]
                &&& wants_lead(*state, b as int)
                &&& forall|k: int|
                    0 <= k < done@.len() && k != b && !done@[k] && wants_lead(*state, k) ==> ranks_before(
                        *state,
                        b as int,
                        k,
                    )
            },
            None => forall|k: int| 0 <= k < done@.len() && !done@[k] ==> !wants_lead(*state, k),
        },
{
    let n = done.len();
    let mut best: Option<usize> = None;
    let mut j: usize = 0;
    while j < n
        invariant
            j <= n,
            n == done@.len(),
            subs@.len() == n,
            n == state.legal.investigations@.len(),
            forall|k: int| 0 <= k < subs@.len() ==> substance_of(*state, k, #[trigger] subs@[k]),
            match best {
                Some(b) => {
                    &&& b < j
                    &&& !done@[b as int]
                    &&& wants_lead(*state, b as int)
                    &&& forall|k: int|
                        0 <= k < j && k != b && !done@[k] && wants_lead(*state, k) ==> ranks_before(
                            *state,
                            b as int,
                            k,
                        )
                },
                None => forall|k: int| 0 <= k < j && !done@[k] ==> !wants_lead(*state, k),
            },
        decreases n - j,
    {
        if !done[j] {
            let rec = &state.legal.investigations[j];
            if rec.status == InvestigationStatus::Active && rec.lead_investigator.is_none() && rec.version
                <= u32::MAX - 2 {
                match best {
                    None => {
                        best = Some(j);
                    },
                    Some(b) => {
                        let better = substance_before(&subs[j], j, &subs[b], b);
                        proof {
                            assert(substance_of(*state, j as int, subs@[j as int]));
                            assert(substance_of(*state, b as int, subs@[b as int]));
                        }
                        if better {
                            proof {
                                assert(ranks_before(*state, j as int, b as int));
                                assert forall|k: int|
                                    0 <= k < j + 1 && k != j && !done@[k] && wants_lead(*state, k) implies ranks_before(
                                    *state,
                                    j as int,
                                    k,
                                ) by {
                                    if k != b {
                                        lemma_ranks_before_transitive(*state, j as int, b as int, k);
                                    }
                                }
                            }
                            best = Some(j);
                        } else {
                            proof {
                                lemma_ranks_before_total(*state, j as int, b as int);
                            }
                        }
                    },
                }
            }
        }
        j = j + 1;
    }
    best
}

/// Whether each entry of `plan` seats a fitting detective in a case that wants a lead, no case
/// or detective twice.
pub open spec fn plan_fits(state: AppState, plan: Seq<(InvestigationId, CharacterId)>) -> bool {
    &&& forall|m: int|
        0 <= m < plan.len() ==> {
            let i = (#[trigger] plan[m]).0.0 - 1;
            &&& 0 <= i < state.legal.investigations@.len()
            &&& wants_lead(state, i)
            &&& fits_case(state, i, plan[m].1)
        }
    &&& forall|a: int, b: int|
        0 <= a < b < plan.len() ==> (#[trigger] plan[a]).0 != (#[trigger] plan[b]).0 && plan[a].1 != plan[b].1
}

/// One staffing pass, decided on `state` without changing it.
fn plan_staffing(state: &AppState) -> (r: (Vec<(InvestigationId, CharacterId)>, Ghost<Seq<int>>, Ghost<Seq<Option<CharacterId>>>))
    requires
        state.wf(),
    ensures
        staffing_policy(*state, r.1@, r.2@),
        r.0@ == policy_picks(*state, r.1@, r.2@),
        plan_fits(*state, r.0@),
{
    let n = state.legal.investigations.len();
    let mut subs: Vec<CaseSubstance> = Vec::new();
    let mut done: Vec<bool> = Vec::new();
    let mut i: usize = 0;
    while i < n
        invariant
            i <= n,
            n == state.legal.investigations@.len(),
            subs@.len() == i,
            done@.len() == i,
            forall|k: int| 0 <= k < i ==> !done@[k],
            forall|k: int| 0 <= k < i ==> substance_of(*state, k, #[trigger] subs@[k]),
        decreases n - i,
    {
        subs.push(case_substance(state, i));
        done.push(false);
        i = i + 1;
    }
    let mut used: Vec<CharacterId> = Vec::new();
    let mut plan: Vec<(InvestigationId, CharacterId)> = Vec::new();
    let ghost mut order: Seq<int> = Seq::empty();
    let ghost mut choices: Seq<Option<CharacterId>> = Seq::empty();
    loop
        invariant
            state.wf(),
            n == state.legal.investigations@.len(),
            subs@.len() == n,
            done@.len() == n,
            forall|k: int| 0 <= k < n ==> substance_of(*state, k, #[trigger] subs@[k]),
            staffing_prefix(*state, order, choices),
            forall|j: int| 0 <= j < n ==> (done@[j] <==> order.contains(j)),
            forall|p: int, j: int|
                0 <= p < order.len() && 0 <= j < n && wants_lead(*state, j) && !done@[j] ==> #[trigger] ranks_before(*state, order[p], j),
            used@ == picked(choices),
            plan@ == policy_picks(*state, order, choices),
            plan_fits(*state, plan@),
            used@.len() == plan@.len(),
            forall|m: int| 0 <= m < plan@.len() ==> used@[m] == (#[trigger] plan@[m]).1,
            forall|m: int| 0 <= m < plan@.len() ==> done@[(#[trigger] plan@[m]).0.0 - 1],
        ensures
            forall|k: int| 0 <= k < n && !done@[k] ==> !wants_lead(*state, k),
        decreases unprocessed(done@),
    {
        let next = next_case(state, &subs, &done);
        let b = match next {
            None => {
                break ;
            },
            Some(b) => b,
        };
        let x = best_detective(state, b, &used);
        let ghost old_order = order;
        let ghost old_choices = choices;
        let ghost old_done = done@;
        proof {
            lemma_unprocessed_set(done@, b as int);
            order = order.push(b as int);
            choices = choices.push(x);
            assert(choices.drop_last() =~= old_choices);
            assert(order.drop_last() =~= old_order);
            assert(choices.take(old_choices.len() as int) =~= old_choices);
            assert forall|p: int| 0 <= p < old_choices.len() implies choices.take(p) =~= old_choices.take(p) by {}
            assert forall|p: int| 0 <= p < order.len() implies choice_fits(
                *state,
                order[p],
                picked(choices.take(p)),
                #[trigger] choices[p],
            ) by {
                if p < old_choices.len() {
                    assert(choices.take(p) =~= old_choices.take(p));
                }
            }
            assert forall|p: int, q: int| 0 <= p < q < order.len() implies ranks_before(
                *state,
                #[trigger] order[p],
                #[trigger] order[q],
            ) by {
                if q == old_order.len() {
                    assert(order[p] == old_order[p]);
                }
            }
        }
        done.set(b, true);
        match x {
            Some(c) => {
                let id = state.legal.investigations[b].id;
                proof {
                    assert forall|m: int| 0 <= m < plan@.len() implies (#[trigger] plan@[m]).1 != c by {
                        assert(used@[m] == plan@[m].1);
                    }
                    assert forall|m: int| 0 <= m < plan@.len() implies (#[trigger] plan@[m]).0 != id by {
                        assert(old_done[plan@[m].0.0 - 1]);
                    }
                }
                used.push(c);
                plan.push((id, c));
            },
            None => {},
        }
        proof {
            assert forall|j: int| 0 <= j < n implies (done@[j] <==> order.contains(j)) by {
                if j == b {
                    assert(order[order.len() - 1] == j);
                } else {
                    if order.contains(j) {
                        let p = choose|p: int| 0 <= p < order.len() && order[p] == j;
                        assert(old_order[p] == j);
                    }
                    if old_order.contains(j) {
                        let p = choose|p: int| 0 <= p < old_order.len() && old_order[p] == j;
                        assert(order[p] == j);
                    }
                }
            }
            assert forall|p: int, j: int|
                0 <= p < order.len() && 0 <= j < n && wants_lead(*state, j) && !done@[j] implies #[trigger] ranks_before(*state, order[p], j) by {
                if p < old_order.len() {
                    assert(order[p] == old_order[p]);
                }
            }
        }
    }
    proof {
        assert forall|j: int| 0 <= j < n && wants_lead(*state, j) implies order.contains(j) by {
            assert(done@[j]);
        }
    }
    (plan, Ghost(order), Ghost(choices))
}

proof fn lemma_knowledge_total_prefix(state: AppState, plan: Seq<(InvestigationId, CharacterId)>, k: int)
    requires
        0 <= k <= plan.len(),
    ensures
        knowledge_total(state, plan.take(k)) <= knowledge_total(state, plan),
    decreases plan.len(),
{
    if k < plan.len() {
        lemma_knowledge_total_prefix(state, plan.drop_last(), k);
        assert(plan.drop_last().take(k) =~= plan.take(k));
    } else {
        assert(plan.take(k) =~= plan);
    }
}

/// Whether, from position `base` on, `records` hold lead by lead the first-hand knowledge that
/// the first `upto` new leads of `plan` record: for a police case, that the case is actively
/// worked, then each registered witness of the case, under consecutive identifiers.
pub open spec fn lead_knowledge_recorded(records: Seq<crate::intelligence::InformationRecord>, before: AppState, plan: Seq<(InvestigationId, CharacterId)>, upto: int) -> bool {
    forall|m: int|
        0 <= m < upto && police_case(before, (#[trigger] plan[m]).0) ==> {
            let off = (before.intelligence.records@.len() + knowledge_total(before, plan.take(m))) as int;
            let inv = plan[m].0;
            let c = plan[m].1;
            let ws = crate::legal::investigation_system::staffing::case_witness_list(before.legal, inv);
            &&& crate::legal::investigation_system::is_activity_record(
                records[off],
                before,
                inv,
                CaseActivitySignal::Active,
                c,
                crate::base::InformationId((off + 1) as u32),
            )
            &&& forall|k: int|
                0 <= k < ws.len() ==> crate::legal::investigation_system::staffing::is_witness_record(
                    #[trigger] records[off + 1 + k],
                    before,
                    inv,
                    ws[k].witness,
                    c,
                    crate::base::InformationId((off + 2 + k) as u32),
                )
        }
}

proof fn lemma_knowledge_total_step(state: AppState, plan: Seq<(InvestigationId, CharacterId)>, m: int, k: int)
    requires
        0 <= m < k <= plan.len(),
    ensures
        knowledge_total(state, plan.take(m)) + lead_knowledge_size(state, plan[m].0) <= knowledge_total(state, plan.take(k)),
{
    assert(plan.take(m + 1).drop_last() =~= plan.take(m));
    assert(plan.take(m + 1).last() == plan[m]);
    lemma_knowledge_total_prefix(state, plan.take(k), m + 1);
    assert(plan.take(k).take(m + 1) =~= plan.take(m + 1));
}

/// Checks that every lead of `plan` can record their first-hand case knowledge, and counts the
/// knowledge records staffing all of `plan` writes.
fn plan_knowledge(state: &AppState, plan: &Vec<(InvestigationId, CharacterId)>) -> (r: Result<u32, InvestigationError>)
    requires
        state.wf(),
        plan_fits(*state, plan@),
    ensures
        r is Ok <==> (forall|m: int| 0 <= m < plan@.len() ==> lead_knowledge_ready(*state, (#[trigger] plan@[m]).0, plan@[m].1))
            && knowledge_total(*state, plan@) <= u32::MAX,
        r matches Ok(t) ==> t == knowledge_total(*state, plan@),
{
    let mut total: u32 = 0;
    let mut k: usize = 0;
    while k < plan.len()
        invariant
            k <= plan@.len(),
            state.wf(),
            plan_fits(*state, plan@),
            total == knowledge_total(*state, plan@.take(k as int)),
            forall|m: int| 0 <= m < k ==> lead_knowledge_ready(*state, (#[trigger] plan@[m]).0, plan@[m].1),
        decreases plan@.len() - k,
    {
        let (inv, c) = plan[k];
        proof {
            assert(plan@.take(k + 1).drop_last() =~= plan@.take(k as int));
            assert(plan@.take(k + 1).last() == plan@[k as int]);
            lemma_knowledge_total_prefix(*state, plan@, k + 1);
        }
        match check_lead_knowledge(state, inv, c) {
            Err(e) => {
                return Err(e);
            },
            Ok(None) => {},
            Ok(Some(w)) => {
                if w >= (u32::MAX - total) as usize {
                    return Err(InvestigationError::IdExhaustion(IdExhaustionError::Exhausted { kind: IdKind::Information }));
                }
                total = total + 1 + w as u32;
            },
        }
        k = k + 1;
    }
    proof {
        assert(plan@.take(plan@.len() as int) =~= plan@);
    }
    Ok(total)
}

proof fn lemma_staffed_upto_len(invs: Seq<InvestigationRecord>, plan: Seq<(InvestigationId, CharacterId)>, now: SimTime)
    requires
        forall|m: int| 0 <= m < plan.len() ==> 0 <= (#[trigger] plan[m]).0.0 - 1 < invs.len(),
    ensures
        staffed_upto(invs, plan, now).len() == invs.len(),
    decreases plan.len(),
{
    if plan.len() > 0 {
        lemma_staffed_upto_len(invs, plan.drop_last(), now);
        assert(plan.drop_last().len() == plan.len() - 1);
        assert(plan[plan.len() - 1] == plan.last());
    }
}

proof fn lemma_staffed_upto_frame(invs: Seq<InvestigationRecord>, plan: Seq<(InvestigationId, CharacterId)>, now: SimTime, j: int)
    requires
        forall|m: int| 0 <= m < plan.len() ==> 0 <= (#[trigger] plan[m]).0.0 - 1 < invs.len(),
        forall|m: int| 0 <= m < plan.len() ==> (#[trigger] plan[m]).0.0 - 1 != j,
        0 <= j < invs.len(),
    ensures
        staffed_upto(invs, plan, now)[j] == invs[j],
    decreases plan.len(),
{
    if plan.len() > 0 {
        lemma_staffed_upto_len(invs, plan.drop_last(), now);
        lemma_staffed_upto_frame(invs, plan.drop_last(), now, j);
        assert(plan[plan.len() - 1] == plan.last());
    }
}

proof fn lemma_staffed_upto_leads(invs: Seq<InvestigationRecord>, plan: Seq<(InvestigationId, CharacterId)>, now: SimTime, c: CharacterId, j: int)
    requires
        forall|m: int| 0 <= m < plan.len() ==> 0 <= (#[trigger] plan[m]).0.0 - 1 < invs.len(),
        forall|m: int| 0 <= m < plan.len() ==> (#[trigger] plan[m]).1 != c,
        0 <= j < invs.len(),
        staffed_upto(invs, plan, now)[j].lead_investigator == Some(c),
    ensures
        invs[j].lead_investigator == Some(c),
        staffed_upto(invs, plan, now)[j].status == invs[j].status,
    decreases plan.len(),
{
    if plan.len() > 0 {
        let prev = staffed_upto(invs, plan.drop_last(), now);
        lemma_staffed_upto_len(invs, plan.drop_last(), now);
        assert(plan[plan.len() - 1] == plan.last());
        if j == plan.last().0.0 - 1 {
            assert(staffed_upto(invs, plan, now)[j].lead_investigator == Some(plan.last().1));
        } else {
            lemma_staffed_upto_leads(invs, plan.drop_last(), now, c, j);
        }
    }
}

/// Seats every lead of `plan` in turn; each records their first-hand case knowledge.
#[verifier::rlimit(40)]
fn commit_plan(state: &mut AppState, plan: &Vec<(InvestigationId, CharacterId)>)
    requires
        old(state).wf(),
        plan_fits(*old(state), plan@),
        forall|m: int| 0 <= m < plan@.len() ==> lead_knowledge_ready(*old(state), (#[trigger] plan@[m]).0, plan@[m].1),
        old(state).intelligence.records@.len() + knowledge_total(*old(state), plan@) <= u32::MAX,
    ensures
        final(state).wf(),
        final(state).legal.investigations@ == staffed_upto(old(state).legal.investigations@, plan@, old(state).now),
        only_investigations_differ(final(state).legal, old(state).legal),
        final(state).world == old(state).world,
        final(state).now == old(state).now,
        final(state).rng == old(state).rng,
        final(state).intelligence.records@.len() == old(state).intelligence.records@.len() + knowledge_total(
            *old(state),
            plan@,
        ),
        final(state).intelligence.records@.subrange(0, old(state).intelligence.records@.len() as int)
            == old(state).intelligence.records@,
        lead_knowledge_recorded(final(state).intelligence.records@, *old(state), plan@, plan@.len() as int),
{
    let ghost s0 = *state;
    let ghost n0 = state.intelligence.records@.len();
    let mut k: usize = 0;
    while k < plan.len()
        invariant
            k <= plan@.len(),
            s0.wf(),
            plan_fits(s0, plan@),
            forall|m: int| 0 <= m < plan@.len() ==> lead_knowledge_ready(s0, (#[trigger] plan@[m]).0, plan@[m].1),
            n0 == s0.intelligence.records@.len(),
            n0 + knowledge_total(s0, plan@) <= u32::MAX,
            state.wf(),
            state.legal.investigations@ == staffed_upto(s0.legal.investigations@, plan@.take(k as int), s0.now),
            only_investigations_differ(state.legal, s0.legal),
            state.world == s0.world,
            state.now == s0.now,
            state.rng == s0.rng,
            state.intelligence.records@.len() == n0 + knowledge_total(s0, plan@.take(k as int)),
            state.intelligence.records@.subrange(0, n0 as int) == s0.intelligence.records@,
            lead_knowledge_recorded(state.intelligence.records@, s0, plan@, k as int),
        decreases plan@.len() - k,
    {
        let (inv, c) = plan[k];
        let ghost s = *state;
        let ghost i = inv.0 - 1;
        let ghost done = plan@.take(k as int);
        proof {
            assert(plan@[k as int] == (inv, c));
            assert forall|m: int| 0 <= m < done.len() implies 0 <= (#[trigger] done[m]).0.0 - 1
                < s0.legal.investigations@.len() by {
                assert(done[m] == plan@[m]);
            }
            assert forall|m: int| 0 <= m < done.len() implies (#[trigger] done[m]).0.0 - 1 != i && done[m].1
                != c by {
                assert(done[m] == plan@[m]);
                assert(plan@[m].0 != plan@[k as int].0);
            }
            lemma_staffed_upto_len(s0.legal.investigations@, done, s0.now);
            lemma_staffed_upto_frame(s0.legal.investigations@, done, s0.now, i);
            // The new lead leads nothing: not before the pass, and the pass seated others.
            crate::seqs::lemma_first_index_props(s0.legal.investigations@, crate::legal::active_led_by(c));
            assert forall|j: int| 0 <= j < state.legal.investigations@.len() implies !crate::legal::active_led_by(c)(
                #[trigger] state.legal.investigations@[j],
            ) by {
                if state.legal.investigations@[j].lead_investigator == Some(c) {
                    lemma_staffed_upto_leads(s0.legal.investigations@, done, s0.now, c, j);
                    assert(!crate::legal::active_led_by(c)(s0.legal.investigations@[j]));
                }
            }
            crate::seqs::lemma_first_index_none(state.legal.investigations@, crate::legal::active_led_by(c));
            assert(state.legal.spec_investigation(inv) == s0.legal.spec_investigation(inv));
            assert(state.legal.spec_active_arrest_for(c) == s0.legal.spec_active_arrest_for(c));
            assert(state.legal.spec_case_witness_for(inv, c) == s0.legal.spec_case_witness_for(inv, c));
            assert(case_witness_list(state.legal, inv) == case_witness_list(s0.legal, inv));
            assert(police_case(*state, inv) == police_case(s0, inv));
            assert(plan@.take(k + 1).drop_last() =~= done);
            assert(plan@.take(k + 1).last() == plan@[k as int]);
            lemma_knowledge_total_prefix(s0, plan@, k + 1);
        }
        let t = validate_assign_investigator(state, inv, c).unwrap();
        proof {
            assert(activity_knowledge_ready(*state, inv, CaseActivitySignal::Active, c)
                == activity_knowledge_ready(s0, inv, CaseActivitySignal::Active, c));
            assert forall|q: int| 0 <= q < case_witness_list(state.legal, inv).len() implies history_matches(
                *state,
                EntityRef::Character((#[trigger] case_witness_list(state.legal, inv)[q]).witness),
                state.now,
                SignalView::LegalPersonStatus(LegalPersonStatusSignal::CaseWitness { investigation: inv }),
            ) == history_matches(
                s0,
                EntityRef::Character(case_witness_list(state.legal, inv)[q].witness),
                s0.now,
                SignalView::LegalPersonStatus(LegalPersonStatusSignal::CaseWitness { investigation: inv }),
            ) by {}
            assert(t.knowledge_ready(*state));
        }
        let ghost before = state.intelligence.records@;
        let ghost s_before = *state;
        let committed = t.commit(state);
        proof {
            assert(committed is Ok);
            assert(state.intelligence.records@.subrange(0, n0 as int) =~= before.subrange(0, n0 as int));
            let nk = before.len() as int;
            assert(nk == n0 + knowledge_total(s0, plan@.take(k as int)));
            assert forall|m: int|
                0 <= m < k + 1 && police_case(s0, (#[trigger] plan@[m]).0) implies {
                    let off = (s0.intelligence.records@.len() + knowledge_total(s0, plan@.take(m))) as int;
                    let inv2 = plan@[m].0;
                    let c2 = plan@[m].1;
                    let ws = case_witness_list(s0.legal, inv2);
                    &&& crate::legal::investigation_system::is_activity_record(
                        state.intelligence.records@[off],
                        s0,
                        inv2,
                        CaseActivitySignal::Active,
                        c2,
                        crate::base::InformationId((off + 1) as u32),
                    )
                    &&& forall|q: int|
                        0 <= q < ws.len() ==> crate::legal::investigation_system::staffing::is_witness_record(
                            #[trigger] state.intelligence.records@[off + 1 + q],
                            s0,
                            inv2,
                            ws[q].witness,
                            c2,
                            crate::base::InformationId((off + 2 + q) as u32),
                        )
                } by {
                let off = (s0.intelligence.records@.len() + knowledge_total(s0, plan@.take(m))) as int;
                let ws = case_witness_list(s0.legal, plan@[m].0);
                if m < k {
                    lemma_knowledge_total_step(s0, plan@, m, k as int);
                    assert(lead_knowledge_size(s0, plan@[m].0) == 1 + ws.len());
                    assert(state.intelligence.records@[off] == before[off]) by {
                        assert(state.intelligence.records@.subrange(0, nk as int)[off] == before[off]);
                    }
                    assert forall|q: int| 0 <= q < ws.len() implies #[trigger] state.intelligence.records@[off + 1 + q]
                        == before[off + 1 + q] by {
                        assert(state.intelligence.records@.subrange(0, nk as int)[off + 1 + q] == before[off + 1 + q]);
                    }
                } else {
                    assert(m == k);
                    assert(plan@[m] == (inv, c));
                    assert(off == nk);
                    assert(police_case(s_before, inv));
                }
            }
        }
        k = k + 1;
    }
    proof {
        assert(plan@.take(plan@.len() as int) =~= plan@);
    }
}

/// Whether `after` is `before` with every case of `plan` staffed in turn at `before.now`, and
/// each new lead's first-hand knowledge appended to the intelligence records.
pub open spec fn staffing_applied(after: AppState, before: AppState, plan: Seq<(InvestigationId, CharacterId)>) -> bool {
    &&& after.legal.investigations@ == staffed_upto(before.legal.investigations@, plan, before.now)
    &&& only_investigations_differ(after.legal, before.legal)
    &&& after.world == before.world
    &&& after.now == before.now
    &&& after.rng == before.rng
    &&& after.intelligence.records@.len() == before.intelligence.records@.len() + knowledge_total(before, plan)
    &&& after.intelligence.records@.subrange(0, before.intelligence.records@.len() as int)
        == before.intelligence.records@
    &&& lead_knowledge_recorded(after.intelligence.records@, before, plan, plan.len() as int)
}

/// One pass of the institution's staffing policy: the cases that want a lead, best-ranked first,
/// each get the preferred free detective of their authority who fits them. The pass is all or
/// nothing: it fails, changing nothing, when some new lead's first-hand knowledge cannot be
/// recorded, and staffs no case when the knowledge records of all new leads cannot be numbered.
pub fn apply_autonomous_investigator_staffing(state: &mut AppState) -> (r: Result<Vec<(InvestigationId, CharacterId)>, InvestigationError>)
    requires
        old(state).wf(),
    ensures
        final(state).wf(),
        r is Err ==> *final(state) == *old(state),
        exists|order: Seq<int>, choices: Seq<Option<CharacterId>>|
            #[trigger] staffing_policy(*old(state), order, choices) && {
                let plan = policy_picks(*old(state), order, choices);
                let numbered = old(state).intelligence.records@.len() + knowledge_total(*old(state), plan)
                    <= u32::MAX;
                &&& (r is Ok <==> (forall|m: int|
                    0 <= m < plan.len() ==> lead_knowledge_ready(*old(state), (#[trigger] plan[m]).0, plan[m].1))
                    && knowledge_total(*old(state), plan) <= u32::MAX)
                &&& (r is Ok && numbered ==> r->Ok_0@ == plan && staffing_applied(*final(state), *old(state), plan))
                &&& (r is Ok && !numbered ==> r->Ok_0@.len() == 0 && *final(state) == *old(state))
            },
{
    let (plan, order, choices) = plan_staffing(state);
    let total = match plan_knowledge(state, &plan) {
        Ok(total) => total,
        Err(e) => {
            proof {
                assert(staffing_policy(*state, order@, choices@));
            }
            return Err(e);
        },
    };
    let count = state.intelligence.records.len();
    if count > u32::MAX as usize || total as usize > u32::MAX as usize - count {
        proof {
            assert(staffing_policy(*state, order@, choices@));
        }
        return Ok(Vec::new());
    }
    let ghost before = *state;
    commit_plan(state, &plan);
    proof {
        assert(staffing_policy(before, order@, choices@));
    }
    Ok(plan)
}

proof fn lemma_picked_prefix(choices: Seq<Option<CharacterId>>, p: int, y: CharacterId)
    requires
        0 <= p <= choices.len(),
        picked(choices.take(p)).contains(y),
    ensures
        picked(choices).contains(y),
    decreases choices.len(),
{
    if p == choices.len() {
        assert(choices.take(p) =~= choices);
    } else {
        assert(choices.drop_last().take(p) =~= choices.take(p));
        lemma_picked_prefix(choices.drop_last(), p, y);
        let rest = picked(choices.drop_last());
        if let Some(x) = choices.last() {
            let k = choose|k: int| 0 <= k < rest.len() && rest[k] == y;
            assert(rest.push(x)[k] == y);
        }
    }
}

/// The detectives a pass chose are exactly the leads of the cases it staffs, and each staffed
/// case is one the pass considered, with the lead chosen for it.
proof fn lemma_policy_picks_props(state: AppState, order: Seq<int>, choices: Seq<Option<CharacterId>>)
    requires
        state.wf(),
        staffing_prefix(state, order, choices),
    ensures
        forall|y: CharacterId|
            #[trigger] picked(choices).contains(y) ==> exists|m: int|
                0 <= m < policy_picks(state, order, choices).len() && #[trigger] policy_picks(state, order, choices)[m].1
                    == y,
        forall|p: int|
            0 <= p < order.len() && (#[trigger] choices[p]) is Some ==> policy_picks(state, order, choices).contains(
                (state.legal.investigations@[order[p]].id, choices[p]->0),
            ),
        forall|m: int|
            0 <= m < policy_picks(state, order, choices).len() ==> exists|p: int|
                0 <= p < order.len() && (#[trigger] policy_picks(state, order, choices)[m]).0
                    == state.legal.investigations@[#[trigger] order[p]].id,
        forall|a: int, b: int|
            0 <= a < b < policy_picks(state, order, choices).len() ==> (#[trigger] policy_picks(state, order, choices)[a]).0
                != (#[trigger] policy_picks(state, order, choices)[b]).0,
    decreases choices.len(),
{
    let plan = policy_picks(state, order, choices);
    if choices.len() > 0 {
        let o1 = order.drop_last();
        let c1 = choices.drop_last();
        assert(staffing_prefix(state, o1, c1)) by {
            assert forall|p: int| 0 <= p < o1.len() implies choice_fits(
                state,
                o1[p],
                picked(c1.take(p)),
                #[trigger] c1[p],
            ) by {
                assert(c1.take(p) =~= choices.take(p));
                assert(choices[p] == c1[p]);
                assert(order[p] == o1[p]);
            }
            assert forall|p: int, q: int| 0 <= p < q < o1.len() implies ranks_before(
                state,
                #[trigger] o1[p],
                #[trigger] o1[q],
            ) by {
                assert(order[p] == o1[p] && order[q] == o1[q]);
            }
            assert forall|p: int| 0 <= p < o1.len() implies 0 <= #[trigger] o1[p] < state.legal.investigations@.len()
                && wants_lead(state, o1[p]) by {
                assert(order[p] == o1[p]);
            }
        }
        lemma_policy_picks_props(state, o1, c1);
        let rest = policy_picks(state, o1, c1);
        let last = choices.len() - 1;
        assert(choices[last] == choices.last());
        assert(order[last] == order.last());
        assert forall|y: CharacterId| #[trigger] picked(choices).contains(y) implies exists|m: int|
            0 <= m < plan.len() && #[trigger] plan[m].1 == y by {
            match choices.last() {
                Some(x) => {
                    assert(plan == rest.push((state.legal.investigations@[order.last()].id, x)));
                    if y == x {
                        assert(plan[rest.len() as int].1 == y);
                    } else {
                        let k = choose|k: int| 0 <= k < picked(choices).len() && picked(choices)[k] == y;
                        assert(picked(c1)[k] == y);
                        assert(picked(c1).contains(y));
                        let m = choose|m: int| 0 <= m < rest.len() && #[trigger] rest[m].1 == y;
                        assert(plan[m] == rest[m]);
                    }
                },
                None => {
                    assert(picked(c1).contains(y));
                },
            }
        }
        assert forall|p: int| 0 <= p < order.len() && (#[trigger] choices[p]) is Some implies plan.contains(
            (state.legal.investigations@[order[p]].id, choices[p]->0),
        ) by {
            if p < last {
                assert(c1[p] == choices[p] && o1[p] == order[p]);
                let t = (state.legal.investigations@[order[p]].id, choices[p]->0);
                assert(rest.contains(t));
                let k = choose|k: int| 0 <= k < rest.len() && rest[k] == t;
                match choices.last() {
                    Some(x) => {
                        assert(plan[k] == rest[k]);
                    },
                    None => {},
                }
            } else {
                assert(plan[rest.len() as int] == (state.legal.investigations@[order[p]].id, choices[p]->0));
            }
        }
        assert forall|a: int, b: int| 0 <= a < b < plan.len() implies (#[trigger] plan[a]).0 != (#[trigger] plan[b]).0 by {
            if b < rest.len() {
                assert(plan[a] == rest[a] && plan[b] == rest[b]);
            } else {
                assert(plan[a] == rest[a]);
                let p = choose|p: int| 0 <= p < o1.len() && (#[trigger] rest[a]).0 == state.legal.investigations@[#[trigger] o1[p]].id;
                assert(order[p] == o1[p]);
                assert(ranks_before(state, order[p], order[last]));
                assert(plan[b].0 == state.legal.investigations@[order[last]].id);
            }
        }
        assert forall|m: int| 0 <= m < plan.len() implies exists|p: int|
            0 <= p < order.len() && (#[trigger] plan[m]).0 == state.legal.investigations@[#[trigger] order[p]].id by {
            if m < rest.len() {
                assert(plan[m] == rest[m]);
                let p = choose|p: int| 0 <= p < o1.len() && (#[trigger] rest[m]).0 == state.legal.investigations@[#[trigger] o1[p]].id;
                assert(order[p] == o1[p]);
            } else {
                assert(plan[m].0 == state.legal.investigations@[order[last]].id);
            }
        }
    }
}

proof fn lemma_staffed_upto_seats(invs: Seq<InvestigationRecord>, plan: Seq<(InvestigationId, CharacterId)>, now: SimTime, m: int)
    requires
        forall|k: int| 0 <= k < plan.len() ==> 0 <= (#[trigger] plan[k]).0.0 - 1 < invs.len(),
        forall|a: int, b: int| 0 <= a < b < plan.len() ==> (#[trigger] plan[a]).0 != (#[trigger] plan[b]).0,
        0 <= m < plan.len(),
    ensures
        staffed_upto(invs, plan, now)[plan[m].0.0 - 1].lead_investigator == Some(plan[m].1),
        staffed_upto(invs, plan, now)[plan[m].0.0 - 1].status == invs[plan[m].0.0 - 1].status,
    decreases plan.len(),
{
    let i = plan[m].0.0 - 1;
    let rest = plan.drop_last();
    lemma_staffed_upto_len(invs, rest, now);
    assert(plan[plan.len() - 1] == plan.last());
    if m == plan.len() - 1 {
        assert forall|k: int| 0 <= k < rest.len() implies (#[trigger] rest[k]).0.0 - 1 != i by {
            assert(rest[k] == plan[k]);
        }
        lemma_staffed_upto_frame(invs, rest, now, i);
    } else {
        assert(rest[m] == plan[m]);
        lemma_staffed_upto_seats(invs, rest, now, m);
    }
}

proof fn lemma_policy_picks_none(state: AppState, order: Seq<int>, choices: Seq<Option<CharacterId>>)
    requires
        forall|p: int| 0 <= p < choices.len() ==> (#[trigger] choices[p]) is None,
    ensures
        policy_picks(state, order, choices).len() == 0,
    decreases choices.len(),
{
    if choices.len() > 0 && order.len() > 0 {
        assert(choices[choices.len() - 1] == choices.last());
        lemma_policy_picks_none(state, order.drop_last(), choices.drop_last());
    }
}

/// No detective fits a case that still wants a lead right after a staffing pass.
proof fn lemma_nobody_left_to_staff(before: AppState, after: AppState, order: Seq<int>, choices: Seq<Option<CharacterId>>, j: int, y: CharacterId)
    requires
        before.wf(),
        after.wf(),
        staffing_policy(before, order, choices),
        staffing_applied(after, before, policy_picks(before, order, choices)),
        0 <= j < after.legal.investigations@.len(),
        wants_lead(after, j),
    ensures
        !fits_case(after, j, y),
{
    let plan = policy_picks(before, order, choices);
    let invs = before.legal.investigations@;
    let n = invs.len();
    lemma_policy_picks_props(before, order, choices);
    assert forall|k: int| 0 <= k < plan.len() implies 0 <= (#[trigger] plan[k]).0.0 - 1 < n && wants_lead(
        before,
        plan[k].0.0 - 1,
    ) by {
        let p = choose|p: int| 0 <= p < order.len() && (#[trigger] plan[k]).0 == invs[#[trigger] order[p]].id;
        assert(0 <= order[p] < n);
    }
    lemma_staffed_upto_len(invs, plan, before.now);
    // A case the pass staffed no longer wants a lead.
    assert forall|k: int| 0 <= k < plan.len() implies (#[trigger] plan[k]).0.0 - 1 != j by {
        lemma_staffed_upto_seats(invs, plan, before.now, k);
    }
    lemma_staffed_upto_frame(invs, plan, before.now, j);
    assert(after.legal.investigations@[j] == invs[j]);
    // So the pass considered it and found nobody free who fits.
    assert(order.contains(j));
    let p = choose|p: int| 0 <= p < order.len() && order[p] == j;
    if choices[p] is Some {
        assert(plan.contains((invs[order[p]].id, choices[p]->0)));
        let k = choose|k: int| 0 <= k < plan.len() && plan[k] == (invs[order[p]].id, choices[p]->0);
        assert(plan[k].0.0 - 1 != j);
    }
    assert(choice_fits(before, order[p], picked(choices.take(p)), choices[p]));
    if fits_case(after, j, y) {
        // Whoever fits now fitted before the pass: the pass only seated leads in unstaffed cases.
        crate::seqs::lemma_first_index_props(after.legal.investigations@, crate::legal::active_led_by(y));
        crate::seqs::lemma_first_index_props(invs, crate::legal::active_led_by(y));
        if before.legal.spec_active_investigation_for(y) is Some {
            let i = crate::seqs::first_index(invs, crate::legal::active_led_by(y))->0;
            assert forall|k: int| 0 <= k < plan.len() implies (#[trigger] plan[k]).0.0 - 1 != i by {}
            lemma_staffed_upto_frame(invs, plan, before.now, i);
            assert(crate::legal::active_led_by(y)(after.legal.investigations@[i]));
        }
        assert(fits_case(before, j, y));
        assert(picked(choices.take(p)).contains(y));
        lemma_picked_prefix(choices, p, y);
        let m = choose|m: int| 0 <= m < plan.len() && #[trigger] plan[m].1 == y;
        lemma_staffed_upto_seats(invs, plan, before.now, m);
        let i = plan[m].0.0 - 1;
        assert(crate::legal::active_led_by(y)(after.legal.investigations@[i]));
    }
}

/// A staffing pass that staffed its whole plan leaves nothing for a second pass right after it:
/// every case it left unstaffed had all of its fitting detectives taken by the pass.
pub proof fn law_staffing_pass_settles(
    before: AppState,
    after: AppState,
    order: Seq<int>,
    choices: Seq<Option<CharacterId>>,
    next_order: Seq<int>,
    next_choices: Seq<Option<CharacterId>>,
)
    requires
        before.wf(),
        after.wf(),
        staffing_policy(before, order, choices),
        staffing_applied(after, before, policy_picks(before, order, choices)),
        staffing_policy(after, next_order, next_choices),
    ensures
        policy_picks(after, next_order, next_choices).len() == 0,
{
    assert forall|p: int| 0 <= p < next_choices.len() implies (#[trigger] next_choices[p]) is None by {
        let j = next_order[p];
        assert(choice_fits(after, j, picked(next_choices.take(p)), next_choices[p]));
        if let Some(x) = next_choices[p] {
            lemma_nobody_left_to_staff(before, after, order, choices, j, x);
        }
    }
    lemma_policy_picks_none(after, next_order, next_choices);
}

/// The records of `ev` that are actionable evidence of case `inv` in the plain sense: filed with
/// that case and neither Weak, nor Questionable, nor known to be inadmissible.
proof fn lemma_actionable_count_filter(ev: Seq<EvidenceRecord>, inv: InvestigationId)
    ensures
        actionable_count(ev, inv) == ev.filter(
            |e: EvidenceRecord|
                e.investigation == inv && e.strength != crate::legal::EvidenceStrength::Weak && e.reliability
                    != crate::legal::EvidenceReliability::Questionable && e.admissibility
                    != crate::legal::Admissibility::Inadmissible,
        ).len(),
    decreases ev.len(),
{
    reveal_with_fuel(Seq::filter, 1);
    if ev.len() > 0 {
        lemma_actionable_count_filter(ev.drop_last(), inv);
    }
}

/// Cases with more actionable evidence are staffed first: in a staffing pass, a case that wants a
/// lead and holds more records that are neither Weak, nor Questionable, nor known to be
/// inadmissible than another case that wants a lead is considered, and offered the preferred
/// free detective, before it.
pub proof fn law_staffing_prefers_actionable_evidence(
    state: AppState,
    order: Seq<int>,
    choices: Seq<Option<CharacterId>>,
    a: int,
    b: int,
)
    requires
        state.wf(),
        staffing_policy(state, order, choices),
        0 <= a < state.legal.investigations@.len(),
        0 <= b < state.legal.investigations@.len(),
        wants_lead(state, a),
        wants_lead(state, b),
        state.legal.evidence@.filter(
            |e: EvidenceRecord|
                e.investigation == state.legal.investigations@[a].id && e.strength != crate::legal::EvidenceStrength::Weak
                    && e.reliability != crate::legal::EvidenceReliability::Questionable && e.admissibility
                    != crate::legal::Admissibility::Inadmissible,
        ).len() > state.legal.evidence@.filter(
            |e: EvidenceRecord|
                e.investigation == state.legal.investigations@[b].id && e.strength != crate::legal::EvidenceStrength::Weak
                    && e.reliability != crate::legal::EvidenceReliability::Questionable && e.admissibility
                    != crate::legal::Admissibility::Inadmissible,
        ).len(),
    ensures
        order.contains(a),
        order.contains(b),
        forall|p: int, q: int| 0 <= p < order.len() && 0 <= q < order.len() && order[p] == a && order[q] == b ==> p < q,
{
    let ev = state.legal.evidence@;
    lemma_actionable_count_filter(ev, state.legal.investigations@[a].id);
    lemma_actionable_count_filter(ev, state.legal.investigations@[b].id);
    assert forall|p: int, q: int| 0 <= p < order.len() && 0 <= q < order.len() && order[p] == a && order[q] == b implies p < q by {
        if q < p {
            assert(ranks_before(state, order[q], order[p]));
        }
    }
}

} // verus!
