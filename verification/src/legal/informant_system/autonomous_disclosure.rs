//! The standing disclosure pass: every informant passes each fact they personally hold into
//! every active case of their handler that the fact belongs in, each fact into each case once.

use vstd::prelude::*;
use crate::base::{
    EntityRef, EvidenceId, InformantDisclosureId, InformantId, InformationId, InvestigationId,
    SimTime,
};
use crate::intelligence::KnowledgeHolder;
use crate::legal::informant_system::{
    disclosure_error, relevant_to, statement_evidence, validate_record_informant_disclosure,
    InformantDisclosureDraft, InformantError,
};
use crate::legal::investigation_system::spec_actionable;
use crate::legal::store::{promoted_subjects, scheduled_headroom};
use crate::legal::{
    same_informant_relationship, EvidenceRecord, InformantDisclosureRecord, InvestigationRecord,
    InvestigationStatus,
};
use crate::state::AppState;

verus! {

/// An informant, a fact they hold, and a case the fact may pass into.
pub type DisclosureCandidate = (InformantId, InformationId, InvestigationId);

/// Whether the informant holds the fact personally, and the case is an active case of the
/// informant's handler that the fact belongs in and has not yet received it.
pub open spec fn disclosure_candidate(state: AppState, t: DisclosureCandidate) -> bool {
    match state.legal.spec_informant(t.0) {
        None => false,
        Some(inf) => match state.intelligence.spec_get(t.1) {
            None => false,
            Some(info) => match state.legal.spec_investigation(t.2) {
                None => false,
                Some(case) => {
                    &&& info.holder == KnowledgeHolder::Character(inf.character)
                    &&& case.status == InvestigationStatus::Active
                    &&& case.owner == inf.handler
                    &&& relevant_to(info, case)
                    &&& state.legal.spec_disclosure_for(t.2, t.1) is None
                },
            },
        },
    }
}

/// The order in which candidates are taken: informant, then fact, then case.
pub open spec fn candidate_key(t: DisclosureCandidate) -> (int, int, int) {
    (t.0.0 as int, t.1.0 as int, t.2.0 as int)
}

pub open spec fn key_before(a: (int, int, int), b: (int, int, int)) -> bool {
    a.0 < b.0 || (a.0 == b.0 && (a.1 < b.1 || (a.1 == b.1 && a.2 < b.2)))
}

/// Whether `cands` holds, in order, exactly the candidates whose key comes before `bound`.
pub open spec fn collected_below(state: AppState, cands: Seq<DisclosureCandidate>, bound: (int, int, int)) -> bool {
    &&& forall|a: int, b: int|
        0 <= a < b < cands.len() ==> key_before(candidate_key(#[trigger] cands[a]), candidate_key(#[trigger] cands[b]))
    &&& forall|k: int|
        0 <= k < cands.len() ==> disclosure_candidate(state, #[trigger] cands[k]) && key_before(
            candidate_key(cands[k]),
            bound,
        )
    &&& forall|t: DisclosureCandidate|
        disclosure_candidate(state, t) && key_before(candidate_key(t), bound) ==> #[trigger] cands.contains(t)
}

/// Whether `cands` holds, in order, every disclosure candidate of `state`.
pub open spec fn all_candidates(state: AppState, cands: Seq<DisclosureCandidate>) -> bool {
    &&& forall|a: int, b: int|
        0 <= a < b < cands.len() ==> key_before(candidate_key(#[trigger] cands[a]), candidate_key(#[trigger] cands[b]))
    &&& forall|k: int| 0 <= k < cands.len() ==> disclosure_candidate(state, #[trigger] cands[k])
    &&& forall|t: DisclosureCandidate| disclosure_candidate(state, t) ==> #[trigger] cands.contains(t)
}

/// How many of `cands` go into case `c`.
pub open spec fn case_demand(cands: Seq<DisclosureCandidate>, c: InvestigationId) -> nat
    decreases cands.len(),
{
    if cands.len() == 0 {
        0
    } else {
        case_demand(cands.drop_last(), c) + if cands.last().2 == c {
            1nat
        } else {
            0nat
        }
    }
}

/// Whether case `c` cannot take all of its disclosures in `cands` together with the revisions
/// its scheduled work already holds in reserve.
pub open spec fn case_blocked(state: AppState, cands: Seq<DisclosureCandidate>, c: InvestigationId) -> bool {
    state.legal.spec_investigation(c)->0.version + case_demand(cands, c) + scheduled_headroom(
        state.legal.work@,
        c,
        None,
    ) > u32::MAX
}

/// The entries of `cs` whose case is not blocked by the demand of `all`.
pub open spec fn unblocked(state: AppState, all: Seq<DisclosureCandidate>, cs: Seq<DisclosureCandidate>) -> Seq<DisclosureCandidate>
    decreases cs.len(),
{
    if cs.len() == 0 {
        Seq::empty()
    } else {
        let rest = unblocked(state, all, cs.drop_last());
        if case_blocked(state, all, cs.last().2) {
            rest
        } else {
            rest.push(cs.last())
        }
    }
}

/// Appends the candidates for informant `f` and fact `i`, case by case.
fn push_case_candidates(state: &AppState, f: usize, i: usize, cands: &mut Vec<DisclosureCandidate>)
    requires
        state.wf(),
        f < state.legal.informants@.len(),
        i < state.intelligence.records@.len(),
        collected_below(*state, old(cands)@, (f + 1, i + 1, 1)),
    ensures
        collected_below(*state, final(cands)@, (f + 1, i + 2, 1)),
{
    let inf = state.legal.informants[f];
    let info = &state.intelligence.records[i];
    proof {
        assert(state.legal.spec_informant(inf.id) == Some(inf));
        assert(state.intelligence.spec_get(info.id) == Some(*info));
    }
    if info.holder != KnowledgeHolder::Character(inf.character) {
        proof {
            assert forall|t: DisclosureCandidate|
                disclosure_candidate(*state, t) && key_before(candidate_key(t), (f + 1, i + 2, 1)) implies #[trigger] cands@.contains(
                t,
            ) by {
                if !key_before(candidate_key(t), (f + 1, i + 1, 1)) {
                    assert(t.0 == inf.id && t.1 == info.id);
                }
            }
        }
        return;
    }
    let n = state.legal.investigations.len();
    let mut c: usize = 0;
    while c < n
        invariant
            c <= n,
            n == state.legal.investigations@.len(),
            state.wf(),
            f < state.legal.informants@.len(),
            i < state.intelligence.records@.len(),
            inf == state.legal.informants@[f as int],
            *info == state.intelligence.records@[i as int],
            state.legal.spec_informant(inf.id) == Some(inf),
            state.intelligence.spec_get(info.id) == Some(*info),
            info.holder == KnowledgeHolder::Character(inf.character),
            collected_below(*state, cands@, (f + 1, i + 1, c + 1)),
        decreases n - c,
    {
        let case = &state.legal.investigations[c];
        proof {
            assert(state.legal.spec_investigation(case.id) == Some(*case));
        }
        let relevant = case.origin == Some(info.subject) || crate::base::entity_vec_contains(&case.subjects, info.subject);
        let ghost t: DisclosureCandidate = (inf.id, info.id, case.id);
        if case.status == InvestigationStatus::Active && case.owner == inf.handler && relevant
            && state.legal.informant_disclosure_for_case_information(case.id, info.id).is_none() {
            let ghost before = cands@;
            cands.push((inf.id, info.id, case.id));
            proof {
                assert(disclosure_candidate(*state, t));
                assert forall|u: DisclosureCandidate|
                    disclosure_candidate(*state, u) && key_before(candidate_key(u), (f + 1, i + 1, c + 2)) implies #[trigger] cands@.contains(
                    u,
                ) by {
                    if key_before(candidate_key(u), (f + 1, i + 1, c + 1)) {
                        assert(before.contains(u));
                        let k = choose|k: int| 0 <= k < before.len() && before[k] == u;
                        assert(cands@[k] == u);
                    } else {
                        assert(u == t);
                        assert(cands@[before.len() as int] == u);
                    }
                }
            }
        } else {
            proof {
                assert(!disclosure_candidate(*state, t));
                assert forall|u: DisclosureCandidate|
                    disclosure_candidate(*state, u) && key_before(candidate_key(u), (f + 1, i + 1, c + 2)) implies #[trigger] cands@.contains(
                    u,
                ) by {
                    if !key_before(candidate_key(u), (f + 1, i + 1, c + 1)) {
                        assert(u == t);
                    }
                }
            }
        }
        c = c + 1;
    }
}

/// Appends the candidates for informant `f`, fact by fact.
fn push_informant_candidates(state: &AppState, f: usize, cands: &mut Vec<DisclosureCandidate>)
    requires
        state.wf(),
        f < state.legal.informants@.len(),
        collected_below(*state, old(cands)@, (f + 1, 1, 1)),
    ensures
        collected_below(*state, final(cands)@, (f + 2, 1, 1)),
{
    let n = state.intelligence.records.len();
    let mut i: usize = 0;
    while i < n
        invariant
            i <= n,
            n == state.intelligence.records@.len(),
            state.wf(),
            f < state.legal.informants@.len(),
            collected_below(*state, cands@, (f + 1, i + 1, 1)),
        decreases n - i,
    {
        push_case_candidates(state, f, i, cands);
        i = i + 1;
    }
}

/// Every disclosure candidate of `state`, in key order.
fn collect_candidates(state: &AppState) -> (r: Vec<DisclosureCandidate>)
    requires
        state.wf(),
    ensures
        all_candidates(*state, r@),
{
    let mut cands: Vec<DisclosureCandidate> = Vec::new();
    let n = state.legal.informants.len();
    let mut f: usize = 0;
    while f < n
        invariant
            f <= n,
            n == state.legal.informants@.len(),
            state.wf(),
            collected_below(*state, cands@, (f + 1, 1, 1)),
        decreases n - f,
    {
        push_informant_candidates(state, f, &mut cands);
        f = f + 1;
    }
    cands
}

/// The candidates whose cases can take every disclosure this pass has for them, in key order.
fn unblocked_candidates(state: &AppState, cands: &Vec<DisclosureCandidate>) -> (r: Vec<DisclosureCandidate>)
    requires
        state.wf(),
        all_candidates(*state, cands@),
    ensures
        r@ == unblocked(*state, cands@, cands@),
{
    let n = state.legal.investigations.len();
    let mut demand: Vec<usize> = Vec::new();
    let mut j: usize = 0;
    while j < n
        invariant
            j <= n,
            demand@.len() == j,
            forall|m: int| 0 <= m < j ==> demand@[m] == 0,
        decreases n - j,
    {
        demand.push(0);
        j = j + 1;
    }
    let mut k: usize = 0;
    while k < cands.len()
        invariant
            k <= cands@.len(),
            n == state.legal.investigations@.len(),
            state.wf(),
            all_candidates(*state, cands@),
            demand@.len() == n,
            forall|m: int|
                0 <= m < n ==> #[trigger] demand@[m] == case_demand(cands@.take(k as int), state.legal.investigations@[m].id)
                    && demand@[m] <= k,
        decreases cands@.len() - k,
    {
        let c = cands[k].2;
        proof {
            assert(disclosure_candidate(*state, cands@[k as int]));
            assert(cands@.take(k + 1).drop_last() =~= cands@.take(k as int));
            assert(cands@.take(k + 1).last() == cands@[k as int]);
        }
        let m = (c.0 - 1) as usize;
        let d = demand[m];
        demand.set(m, d + 1);
        k = k + 1;
    }
    proof {
        assert(cands@.take(cands@.len() as int) =~= cands@);
    }
    let mut kept: Vec<DisclosureCandidate> = Vec::new();
    k = 0;
    while k < cands.len()
        invariant
            k <= cands@.len(),
            n == state.legal.investigations@.len(),
            state.wf(),
            all_candidates(*state, cands@),
            demand@.len() == n,
            forall|m: int|
                0 <= m < n ==> #[trigger] demand@[m] == case_demand(cands@, state.legal.investigations@[m].id),
            kept@ == unblocked(*state, cands@, cands@.take(k as int)),
        decreases cands@.len() - k,
    {
        let c = cands[k].2;
        proof {
            assert(disclosure_candidate(*state, cands@[k as int]));
            assert(cands@.take(k + 1).drop_last() =~= cands@.take(k as int));
            assert(cands@.take(k + 1).last() == cands@[k as int]);
        }
        let m = (c.0 - 1) as usize;
        let version = state.legal.investigations[m].version;
        let headroom = state.legal.scheduled_work_investigation_headroom(c, None);
        proof {
            crate::legal::store::lemma_scheduled_headroom_bounds(state.legal.work@, c, None);
            assert(demand@[m as int] == case_demand(cands@, c));
        }
        let blocked = demand[m] > u32::MAX as usize || version as u64 + demand[m] as u64 + headroom as u64
            > u32::MAX as u64;
        if !blocked {
            kept.push(cands[k]);
        }
        k = k + 1;
    }
    proof {
        assert(cands@.take(cands@.len() as int) =~= cands@);
    }
    kept
}

/// The disclosure a candidate asks for.
pub open spec fn candidate_draft(t: DisclosureCandidate) -> InformantDisclosureDraft {
    InformantDisclosureDraft { informant: t.0, investigation: t.2, source_information: t.1 }
}

/// The informant statement the `k`-th disclosure of a pass over `state` files.
pub open spec fn pass_statement(state: AppState, t: DisclosureCandidate, k: int) -> EvidenceRecord {
    statement_evidence(
        state.intelligence.spec_get(t.1)->0,
        state.legal.spec_informant(t.0)->0,
        t.2,
        EvidenceId((state.legal.evidence@.len() + k + 1) as u32),
        state.now,
    )
}

pub open spec fn pass_statements(state: AppState, due: Seq<DisclosureCandidate>) -> Seq<EvidenceRecord> {
    Seq::new(due.len(), |k: int| pass_statement(state, due[k], k))
}

/// The record of the `k`-th disclosure of a pass over `state`.
pub open spec fn pass_record(state: AppState, t: DisclosureCandidate, k: int) -> InformantDisclosureRecord {
    InformantDisclosureRecord {
        id: InformantDisclosureId((state.legal.disclosures@.len() + k + 1) as u32),
        informant: t.0,
        investigation: t.2,
        source_information: t.1,
        evidence: EvidenceId((state.legal.evidence@.len() + k + 1) as u32),
        disclosed_at: state.now,
    }
}

pub open spec fn pass_records(state: AppState, due: Seq<DisclosureCandidate>) -> Seq<InformantDisclosureRecord> {
    Seq::new(due.len(), |k: int| pass_record(state, due[k], k))
}

/// How many of `es` are filed with case `c`.
pub open spec fn filed_into(es: Seq<EvidenceRecord>, c: InvestigationId) -> nat
    decreases es.len(),
{
    if es.len() == 0 {
        0
    } else {
        filed_into(es.drop_last(), c) + if es.last().investigation == c {
            1nat
        } else {
            0nat
        }
    }
}

/// The subjects of case `c` after each of `es` filed with it arrived in turn.
pub open spec fn subjects_after(subjects: Seq<EntityRef>, es: Seq<EvidenceRecord>, c: InvestigationId) -> Seq<EntityRef>
    decreases es.len(),
{
    if es.len() == 0 {
        subjects
    } else {
        let prev = subjects_after(subjects, es.drop_last(), c);
        let e = es.last();
        if e.investigation == c {
            promoted_subjects(prev, e.subject, spec_actionable(e.strength, e.reliability, e.admissibility))
        } else {
            prev
        }
    }
}

/// Whether `after` is case `before` once the evidence `es` filed with it arrived at `now`.
pub open spec fn disclosed_case(after: InvestigationRecord, before: InvestigationRecord, es: Seq<EvidenceRecord>, now: SimTime) -> bool {
    let n = filed_into(es, before.id);
    &&& after.id == before.id
    &&& after.owner == before.owner
    &&& after.title == before.title
    &&& after.status == before.status
    &&& after.lead_investigator == before.lead_investigator
    &&& after.declared_subjects == before.declared_subjects
    &&& after.opened_at == before.opened_at
    &&& after.origin == before.origin
    &&& after.subjects@ == subjects_after(before.subjects@, es, before.id)
    &&& after.version == before.version + n
    &&& after.last_activity_at == if n > 0 {
        now
    } else {
        before.last_activity_at
    }
}

/// Whether `after` is `before` with the disclosures `due` filed in turn.
pub open spec fn disclosures_applied(after: AppState, before: AppState, due: Seq<DisclosureCandidate>) -> bool {
    let es = pass_statements(before, due);
    &&& after.legal.evidence@ == before.legal.evidence@ + es
    &&& after.legal.disclosures@ == before.legal.disclosures@ + pass_records(before, due)
    &&& after.legal.investigations@.len() == before.legal.investigations@.len()
    &&& forall|j: int|
        0 <= j < before.legal.investigations@.len() ==> disclosed_case(
            #[trigger] after.legal.investigations@[j],
            before.legal.investigations@[j],
            es,
            before.now,
        )
    &&& after.legal.arrests == before.legal.arrests
    &&& after.legal.case_witnesses == before.legal.case_witnesses
    &&& after.legal.informants == before.legal.informants
    &&& after.legal.work == before.legal.work
    &&& after.world == before.world
    &&& after.intelligence == before.intelligence
    &&& after.now == before.now
    &&& after.rng == before.rng
}

proof fn lemma_subjects_after_keeps(subjects: Seq<EntityRef>, es: Seq<EvidenceRecord>, c: InvestigationId, s: EntityRef)
    requires
        subjects.contains(s),
    ensures
        subjects_after(subjects, es, c).contains(s),
    decreases es.len(),
{
    if es.len() > 0 {
        lemma_subjects_after_keeps(subjects, es.drop_last(), c, s);
        let prev = subjects_after(subjects, es.drop_last(), c);
        let e = es.last();
        if e.investigation == c && spec_actionable(e.strength, e.reliability, e.admissibility) && !prev.contains(e.subject) {
            let k = choose|k: int| 0 <= k < prev.len() && prev[k] == s;
            assert(prev.push(e.subject)[k] == s);
        }
    }
}

proof fn lemma_case_demand_prefix(cands: Seq<DisclosureCandidate>, k: int, c: InvestigationId)
    requires
        0 <= k <= cands.len(),
    ensures
        case_demand(cands.take(k), c) <= case_demand(cands, c),
    decreases cands.len(),
{
    if k < cands.len() {
        lemma_case_demand_prefix(cands.drop_last(), k, c);
        assert(cands.drop_last().take(k) =~= cands.take(k));
    } else {
        assert(cands.take(k) =~= cands);
    }
}

proof fn lemma_unblocked_props(state: AppState, all: Seq<DisclosureCandidate>, cs: Seq<DisclosureCandidate>)
    requires
        forall|a: int, b: int|
            0 <= a < b < cs.len() ==> key_before(candidate_key(#[trigger] cs[a]), candidate_key(#[trigger] cs[b])),
    ensures
        forall|p: int|
            0 <= p < unblocked(state, all, cs).len() ==> cs.contains(#[trigger] unblocked(state, all, cs)[p])
                && !case_blocked(state, all, unblocked(state, all, cs)[p].2),
        forall|a: int, b: int|
            0 <= a < b < unblocked(state, all, cs).len() ==> key_before(
                candidate_key(#[trigger] unblocked(state, all, cs)[a]),
                candidate_key(#[trigger] unblocked(state, all, cs)[b]),
            ),
        forall|c: InvestigationId|
            !case_blocked(state, all, c) ==> #[trigger] case_demand(unblocked(state, all, cs), c) == case_demand(cs, c),
    decreases cs.len(),
{
    if cs.len() > 0 {
        let rest = cs.drop_last();
        lemma_unblocked_props(state, all, rest);
        let u = unblocked(state, all, rest);
        assert forall|p: int| 0 <= p < u.len() implies cs.contains(#[trigger] u[p]) by {
            let q = choose|q: int| 0 <= q < rest.len() && rest[q] == u[p];
            assert(cs[q] == u[p]);
        }
        if !case_blocked(state, all, cs.last().2) {
            assert(u.push(cs.last()).drop_last() =~= u);
            assert forall|p: int| 0 <= p < u.len() implies key_before(candidate_key(#[trigger] u[p]), candidate_key(cs.last())) by {
                let q = choose|q: int| 0 <= q < rest.len() && rest[q] == u[p];
                assert(cs[q] == u[p]);
            }
            assert(cs.contains(cs.last())) by {
                assert(cs[cs.len() - 1] == cs.last());
            }
        }
        assert forall|c: InvestigationId| !case_blocked(state, all, c) implies #[trigger] case_demand(
            unblocked(state, all, cs),
            c,
        ) == case_demand(cs, c) by {
            assert(case_demand(u, c) == case_demand(rest, c));
            if !case_blocked(state, all, cs.last().2) {
                assert(u.push(cs.last()).drop_last() =~= u);
            }
        }
    }
}

proof fn lemma_pass_filed_into(state: AppState, due: Seq<DisclosureCandidate>, k: int, c: InvestigationId)
    requires
        0 <= k <= due.len(),
    ensures
        filed_into(pass_statements(state, due.take(k)), c) == case_demand(due.take(k), c),
    decreases k,
{
    if k > 0 {
        lemma_pass_filed_into(state, due, k - 1, c);
        assert(pass_statements(state, due.take(k)).drop_last() =~= pass_statements(state, due.take(k - 1)));
        assert(due.take(k).drop_last() =~= due.take(k - 1));
    }
}

/// Two disclosures of one pass never carry the same fact into the same case: a fact has one
/// holder, and a holder informs a handler through one relationship only.
proof fn lemma_due_pairs_distinct(state: AppState, due: Seq<DisclosureCandidate>, a: int, b: int)
    requires
        state.wf(),
        0 <= a < b < due.len(),
        forall|k: int| 0 <= k < due.len() ==> disclosure_candidate(state, #[trigger] due[k]),
        forall|x: int, y: int|
            0 <= x < y < due.len() ==> key_before(candidate_key(#[trigger] due[x]), candidate_key(#[trigger] due[y])),
    ensures
        due[a].2 != due[b].2 || due[a].1 != due[b].1,
{
    if due[a].2 == due[b].2 && due[a].1 == due[b].1 {
        assert(disclosure_candidate(state, due[a]));
        assert(disclosure_candidate(state, due[b]));
        assert(key_before(candidate_key(due[a]), candidate_key(due[b])));
        let fa = due[a].0.0 - 1;
        let fb = due[b].0.0 - 1;
        assert(same_informant_relationship(state.legal.informants@[fa], state.legal.informants@[fb]));
    }
}

/// Files each disclosure of `due` in turn.
#[verifier::rlimit(60)]
fn file_disclosures(state: &mut AppState, due: &Vec<DisclosureCandidate>)
    requires
        old(state).wf(),
        forall|k: int| 0 <= k < due@.len() ==> disclosure_candidate(*old(state), #[trigger] due@[k]),
        forall|x: int, y: int|
            0 <= x < y < due@.len() ==> key_before(candidate_key(#[trigger] due@[x]), candidate_key(#[trigger] due@[y])),
        forall|k: int|
            0 <= k < due@.len() ==> old(state).legal.spec_investigation((#[trigger] due@[k]).2)->0.version + case_demand(
                due@,
                due@[k].2,
            ) + scheduled_headroom(old(state).legal.work@, due@[k].2, None) <= u32::MAX,
        forall|k: int| 0 <= k < due@.len() ==> disclosure_error(*old(state), candidate_draft(#[trigger] due@[k])) is None,
        old(state).legal.evidence@.len() + due@.len() <= u32::MAX,
        old(state).legal.disclosures@.len() + due@.len() <= u32::MAX,
    ensures
        final(state).wf(),
        disclosures_applied(*final(state), *old(state), due@),
{
    let ghost s0 = *state;
    let mut k: usize = 0;
    proof {
        assert(pass_statements(s0, due@.take(0)) =~= Seq::<EvidenceRecord>::empty());
        assert(pass_records(s0, due@.take(0)) =~= Seq::<InformantDisclosureRecord>::empty());
        assert(s0.legal.evidence@ + Seq::<EvidenceRecord>::empty() =~= s0.legal.evidence@);
        assert(s0.legal.disclosures@ + Seq::<InformantDisclosureRecord>::empty() =~= s0.legal.disclosures@);
    }
    while k < due.len()
        invariant
            k <= due@.len(),
            s0.wf(),
            forall|m: int| 0 <= m < due@.len() ==> disclosure_candidate(s0, #[trigger] due@[m]),
            forall|x: int, y: int|
                0 <= x < y < due@.len() ==> key_before(candidate_key(#[trigger] due@[x]), candidate_key(#[trigger] due@[y])),
            forall|m: int|
                0 <= m < due@.len() ==> s0.legal.spec_investigation((#[trigger] due@[m]).2)->0.version + case_demand(
                    due@,
                    due@[m].2,
                ) + scheduled_headroom(s0.legal.work@, due@[m].2, None) <= u32::MAX,
            forall|m: int| 0 <= m < due@.len() ==> disclosure_error(s0, candidate_draft(#[trigger] due@[m])) is None,
            s0.legal.evidence@.len() + due@.len() <= u32::MAX,
            s0.legal.disclosures@.len() + due@.len() <= u32::MAX,
            state.wf(),
            disclosures_applied(*state, s0, due@.take(k as int)),
        decreases due@.len() - k,
    {
        let t = due[k];
        let d = InformantDisclosureDraft { informant: t.0, investigation: t.2, source_information: t.1 };
        let ghost es = pass_statements(s0, due@.take(k as int));
        let ghost recs = pass_records(s0, due@.take(k as int));
        let ghost c = t.2;
        let ghost j = c.0 - 1;
        proof {
            assert(due@[k as int] == t);
            assert(disclosure_candidate(s0, t));
            assert(disclosure_error(s0, d) is None);
            let case0 = s0.legal.investigations@[j];
            let info0 = s0.intelligence.spec_get(t.1)->0;
            assert(disclosed_case(state.legal.investigations@[j], case0, es, s0.now));
            if case0.subjects@.contains(info0.subject) {
                lemma_subjects_after_keeps(case0.subjects@, es, c, info0.subject);
            }
            // No disclosure of this fact into this case exists yet.
            crate::seqs::lemma_first_index_props(s0.legal.disclosures@, crate::legal::disclosure_of(c, t.1));
            assert forall|q: int| 0 <= q < state.legal.disclosures@.len() implies !crate::legal::disclosure_of(c, t.1)(
                #[trigger] state.legal.disclosures@[q],
            ) by {
                if q >= s0.legal.disclosures@.len() {
                    let m = q - s0.legal.disclosures@.len();
                    assert(state.legal.disclosures@[q] == recs[m]);
                    assert(due@.take(k as int)[m] == due@[m]);
                    lemma_due_pairs_distinct(s0, due@, m, k as int);
                } else {
                    assert(state.legal.disclosures@[q] == s0.legal.disclosures@[q]);
                }
            }
            crate::seqs::lemma_first_index_none(state.legal.disclosures@, crate::legal::disclosure_of(c, t.1));
            // The case still has room for this disclosure.
            lemma_pass_filed_into(s0, due@, k as int, c);
            assert(due@.take(k + 1).drop_last() =~= due@.take(k as int));
            assert(due@.take(k + 1).last() == t);
            lemma_case_demand_prefix(due@, k + 1, c);
            assert(state.legal.spec_investigation(c) == Some(state.legal.investigations@[j]));
            assert(disclosure_error(*state, d) is None);
        }
        let token = validate_record_informant_disclosure(state, d).unwrap();
        let ghost before = *state;
        let filed = token.commit(state);
        proof {
            assert(filed is Ok);
            let e = pass_statement(s0, t, k as int);
            let es1 = pass_statements(s0, due@.take(k + 1));
            let recs1 = pass_records(s0, due@.take(k + 1));
            assert(es1 =~= es.push(e));
            assert(recs1 =~= recs.push(pass_record(s0, t, k as int)));
            assert(state.legal.evidence@ =~= s0.legal.evidence@ + es1);
            assert(state.legal.disclosures@ =~= s0.legal.disclosures@ + recs1);
            assert(es1.drop_last() =~= es);
            assert forall|jj: int| 0 <= jj < s0.legal.investigations@.len() implies disclosed_case(
                #[trigger] state.legal.investigations@[jj],
                s0.legal.investigations@[jj],
                es1,
                s0.now,
            ) by {
                assert(disclosed_case(before.legal.investigations@[jj], s0.legal.investigations@[jj], es, s0.now));
            }
        }
        k = k + 1;
    }
    proof {
        assert(due@.take(due@.len() as int) =~= due@);
    }
}

/// The identifiers the disclosures of a pass over `state` are filed under.
pub open spec fn pass_ids(state: AppState, due: Seq<DisclosureCandidate>) -> Seq<InformantDisclosureId> {
    Seq::new(due.len(), |k: int| InformantDisclosureId((state.legal.disclosures@.len() + k + 1) as u32))
}

/// One disclosure pass: each informant passes every fact they personally hold into every active
/// case of their handler that the fact belongs in and has not yet received, in informant, fact
/// and case order. A case that cannot take all of its disclosures of the pass takes none of them;
/// when the records of the remaining disclosures cannot all be numbered, none is filed; and the
/// pass fails, filing nothing, when one of them is refused.
pub fn apply_informant_disclosures(state: &mut AppState) -> (r: Result<Vec<InformantDisclosureId>, InformantError>)
    requires
        old(state).wf(),
    ensures
        final(state).wf(),
        r is Err ==> *final(state) == *old(state),
        exists|cands: Seq<DisclosureCandidate>|
            #[trigger] all_candidates(*old(state), cands) && {
                let due = unblocked(*old(state), cands, cands);
                let numbered = old(state).legal.evidence@.len() + due.len() <= u32::MAX
                    && old(state).legal.disclosures@.len() + due.len() <= u32::MAX;
                &&& (!numbered ==> r is Ok && r->Ok_0@.len() == 0 && *final(state) == *old(state))
                &&& (numbered ==> (r is Ok <==> forall|k: int|
                    0 <= k < due.len() ==> disclosure_error(*old(state), candidate_draft(#[trigger] due[k])) is None))
                &&& (numbered && r is Ok ==> r->Ok_0@ == pass_ids(*old(state), due) && disclosures_applied(
                    *final(state),
                    *old(state),
                    due,
                ))
                &&& (r matches Err(e) ==> exists|k: int|
                    0 <= k < due.len() && disclosure_error(*old(state), candidate_draft(#[trigger] due[k])) == Some(e))
            },
{
    let cands = collect_candidates(state);
    let due = unblocked_candidates(state, &cands);
    proof {
        lemma_unblocked_props(*state, cands@, cands@);
    }
    let ev = state.legal.evidence.len();
    let dl = state.legal.disclosures.len();
    if due.len() > u32::MAX as usize || ev > u32::MAX as usize - due.len() || dl > u32::MAX as usize - due.len() {
        proof {
            assert(all_candidates(*state, cands@));
        }
        return Ok(Vec::new());
    }
    let mut k: usize = 0;
    while k < due.len()
        invariant
            k <= due@.len(),
            *state == *old(state),
            state.wf(),
            all_candidates(*state, cands@),
            due@ == unblocked(*state, cands@, cands@),
            state.legal.evidence@.len() + due@.len() <= u32::MAX,
            state.legal.disclosures@.len() + due@.len() <= u32::MAX,
            forall|m: int| 0 <= m < k ==> disclosure_error(*state, candidate_draft(#[trigger] due@[m])) is None,
        decreases due@.len() - k,
    {
        let t = due[k];
        let d = InformantDisclosureDraft { informant: t.0, investigation: t.2, source_information: t.1 };
        match validate_record_informant_disclosure(state, d) {
            Ok(_) => {},
            Err(e) => {
                proof {
                    assert(candidate_draft(due@[k as int]) == d);
                    assert(disclosure_error(*state, candidate_draft(due@[k as int])) == Some(e));
                    assert(all_candidates(*state, cands@));
                }
                return Err(e);
            },
        }
        k = k + 1;
    }
    let ghost s0 = *state;
    proof {
        assert forall|m: int| 0 <= m < due@.len() implies disclosure_candidate(s0, #[trigger] due@[m]) by {
            let q = choose|q: int| 0 <= q < cands@.len() && cands@[q] == due@[m];
        }
    }
    file_disclosures(state, &due);
    let mut ids: Vec<InformantDisclosureId> = Vec::new();
    k = 0;
    while k < due.len()
        invariant
            k <= due@.len(),
            dl == s0.legal.disclosures@.len(),
            dl + due@.len() <= u32::MAX,
            ids@ =~= pass_ids(s0, due@).take(k as int),
        decreases due@.len() - k,
    {
        ids.push(InformantDisclosureId((dl + k + 1) as u32));
        k = k + 1;
    }
    proof {
        assert(ids@ =~= pass_ids(s0, due@));
        assert(all_candidates(s0, cands@));
    }
    Ok(ids)
}

proof fn lemma_unblocked_complete(state: AppState, all: Seq<DisclosureCandidate>, cs: Seq<DisclosureCandidate>)
    ensures
        forall|t: DisclosureCandidate|
            cs.contains(t) && !case_blocked(state, all, t.2) ==> #[trigger] unblocked(state, all, cs).contains(t),
    decreases cs.len(),
{
    if cs.len() > 0 {
        let rest = cs.drop_last();
        lemma_unblocked_complete(state, all, rest);
        let u = unblocked(state, all, rest);
        assert forall|t: DisclosureCandidate|
            cs.contains(t) && !case_blocked(state, all, t.2) implies #[trigger] unblocked(state, all, cs).contains(t) by {
            let q = choose|q: int| 0 <= q < cs.len() && cs[q] == t;
            if q < rest.len() {
                assert(rest[q] == t);
                assert(u.contains(t));
                if !case_blocked(state, all, cs.last().2) {
                    let p = choose|p: int| 0 <= p < u.len() && u[p] == t;
                    assert(u.push(cs.last())[p] == t);
                }
            } else {
                assert(cs.last() == t);
                assert(u.push(t)[u.len() as int] == t);
            }
        }
    }
}

/// The disclosure pass, taken whole: the disclosures it files are distinct, in informant, fact
/// and case order; each passes a fact the informant personally holds into an active case of
/// the informant's handler that the fact belongs in and that had not received it; and every
/// such pending disclosure is filed unless its case lacks the revisions to take all of its
/// disclosures of the pass.
pub proof fn law_disclosure_pass(state: AppState, cands: Seq<DisclosureCandidate>)
    requires
        state.wf(),
        all_candidates(state, cands),
    ensures
        forall|a: int, b: int|
            0 <= a < b < unblocked(state, cands, cands).len() ==> key_before(
                candidate_key(#[trigger] unblocked(state, cands, cands)[a]),
                candidate_key(#[trigger] unblocked(state, cands, cands)[b]),
            ),
        forall|k: int|
            0 <= k < unblocked(state, cands, cands).len() ==> {
                let t = #[trigger] unblocked(state, cands, cands)[k];
                let inf = state.legal.spec_informant(t.0)->0;
                let info = state.intelligence.spec_get(t.1)->0;
                let case = state.legal.spec_investigation(t.2)->0;
                &&& state.legal.spec_informant(t.0) is Some
                &&& state.intelligence.spec_get(t.1) is Some
                &&& state.legal.spec_investigation(t.2) is Some
                &&& info.holder == KnowledgeHolder::Character(inf.character)
                &&& case.status == InvestigationStatus::Active
                &&& case.owner == inf.handler
                &&& relevant_to(info, case)
                &&& state.legal.spec_disclosure_for(t.2, t.1) is None
                &&& !case_blocked(state, cands, t.2)
            },
        forall|t: DisclosureCandidate|
            disclosure_candidate(state, t) && !case_blocked(state, cands, t.2) ==> #[trigger] unblocked(
                state,
                cands,
                cands,
            ).contains(t),
{
    lemma_unblocked_props(state, cands, cands);
    lemma_unblocked_complete(state, cands, cands);
    assert forall|k: int| 0 <= k < unblocked(state, cands, cands).len() implies disclosure_candidate(
        state,
        #[trigger] unblocked(state, cands, cands)[k],
    ) by {
        let t = unblocked(state, cands, cands)[k];
        assert(cands.contains(t));
        let q = choose|q: int| 0 <= q < cands.len() && cands[q] == t;
        assert(disclosure_candidate(state, cands[q]));
    }
}

} // verus!
