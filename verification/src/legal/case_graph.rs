//! Evidence paths inside one case: which chain of the case's own evidence connects two
//! entities. Only evidence that names both an origin and a subject links them; nothing else
//! about the world is read as legal knowledge.

use vstd::prelude::*;
use crate::base::{EntityRef, EvidenceId, InvestigationId};
use crate::legal::{EvidenceRecord, LegalState};
use crate::state::AppState;

verus! {

/// One step of a path: evidence of the case that connects `from` and `to`.
#[derive(Clone, Copy, Debug, PartialEq, Eq, Structural)]
pub struct EvidenceLink {
    pub from: EntityRef,
    pub to: EntityRef,
    pub evidence: EvidenceId,
}

/// A chain of case evidence leading from one entity to another.
#[derive(Debug, PartialEq, Eq)]
pub struct EvidencePath {
    pub investigation: InvestigationId,
    pub from: EntityRef,
    pub to: EntityRef,
    pub links: Vec<EvidenceLink>,
}

/// Why a path query could not be answered.
#[derive(Clone, Copy, Debug, PartialEq, Eq, Structural)]
pub enum CaseGraphError {
    MissingInvestigation(InvestigationId),
}

/// Whether record `r` is evidence of case `inv` that connects `a` and `b`, in either direction.
pub open spec fn case_link(r: EvidenceRecord, inv: InvestigationId, a: EntityRef, b: EntityRef) -> bool {
    &&& r.investigation == inv
    &&& r.origin is Some
    &&& ((r.origin->0 == a && r.subject == b) || (r.origin->0 == b && r.subject == a))
}

/// Whether `l` is a step along evidence of case `inv`.
pub open spec fn is_case_link(legal: LegalState, inv: InvestigationId, l: EvidenceLink) -> bool {
    legal.spec_evidence(l.evidence) is Some && case_link(legal.spec_evidence(l.evidence)->0, inv, l.from, l.to)
}

/// Whether some evidence of case `inv` connects `a` and `b`.
pub open spec fn adjacent(legal: LegalState, inv: InvestigationId, a: EntityRef, b: EntityRef) -> bool {
    exists|i: int| 0 <= i < legal.evidence@.len() && case_link(#[trigger] legal.evidence@[i], inv, a, b)
}

/// Whether `e` is an endpoint of some evidence of case `inv` that has an origin.
pub open spec fn in_case_graph(legal: LegalState, inv: InvestigationId, e: EntityRef) -> bool {
    exists|i: int|
        0 <= i < legal.evidence@.len() && (#[trigger] legal.evidence@[i]).investigation == inv
            && legal.evidence@[i].origin is Some && (legal.evidence@[i].origin->0 == e
            || legal.evidence@[i].subject == e)
}

/// Whether `links` leads from `from` to `to` along evidence of case `inv`, each step starting
/// where the previous one ended.
pub open spec fn is_evidence_path(legal: LegalState, inv: InvestigationId, from: EntityRef, to: EntityRef, links: Seq<EvidenceLink>) -> bool {
    &&& if links.len() == 0 {
        from == to
    } else {
        links[0].from == from && links.last().to == to
    }
    &&& forall|i: int, j: int|
        0 <= i && j == i + 1 && j < links.len() ==> (#[trigger] links[i]).to == (#[trigger] links[j]).from
    &&& forall|i: int| 0 <= i < links.len() ==> is_case_link(legal, inv, #[trigger] links[i])
}

/// Dropping the last step of a path leaves a path to where that step started.
pub proof fn lemma_path_prefix(legal: LegalState, inv: InvestigationId, from: EntityRef, to: EntityRef, links: Seq<EvidenceLink>)
    requires
        is_evidence_path(legal, inv, from, to, links),
        links.len() > 0,
    ensures
        is_evidence_path(legal, inv, from, links.last().from, links.drop_last()),
{
    let p = links.drop_last();
    assert forall|i: int, j: int| 0 <= i && j == i + 1 && j < p.len() implies (#[trigger] p[i]).to == (#[trigger] p[j]).from by {
        assert(links[i] == p[i] && links[j] == p[j]);
    }
    assert forall|i: int| 0 <= i < p.len() implies is_case_link(legal, inv, #[trigger] p[i]) by {
        assert(links[i] == p[i]);
    }
    if p.len() > 0 {
        assert(links[p.len() - 1].to == links[p.len() as int].from);
    }
}

/// A path extended by a step starting at its end is a path to where the step ends.
pub proof fn lemma_path_extend(legal: LegalState, inv: InvestigationId, from: EntityRef, u: EntityRef, links: Seq<EvidenceLink>, l: EvidenceLink)
    requires
        is_evidence_path(legal, inv, from, u, links),
        is_case_link(legal, inv, l),
        l.from == u,
    ensures
        is_evidence_path(legal, inv, from, l.to, links.push(l)),
{
    let q = links.push(l);
    assert forall|i: int, j: int| 0 <= i && j == i + 1 && j < q.len() implies (#[trigger] q[i]).to == (#[trigger] q[j]).from by {
        if j < links.len() {
            assert(q[i] == links[i] && q[j] == links[j]);
        } else {
            assert(q[i] == links.last());
        }
    }
    assert forall|i: int| 0 <= i < q.len() implies is_case_link(legal, inv, #[trigger] q[i]) by {
        if i < links.len() {
            assert(q[i] == links[i]);
        }
    }
}

/// A set of entities that holds `from` and every neighbour of its members holds the end of
/// every path from `from`.
pub proof fn lemma_closed_holds_paths(legal: LegalState, inv: InvestigationId, from: EntityRef, to: EntityRef, links: Seq<EvidenceLink>, nodes: Seq<EntityRef>)
    requires
        nodes.contains(from),
        is_evidence_path(legal, inv, from, to, links),
        forall|a: EntityRef, b: EntityRef| nodes.contains(a) && adjacent(legal, inv, a, b) ==> nodes.contains(b),
    ensures
        nodes.contains(to),
    decreases links.len(),
{
    if links.len() > 0 {
        let l = links.last();
        lemma_path_prefix(legal, inv, from, to, links);
        lemma_closed_holds_paths(legal, inv, from, l.from, links.drop_last(), nodes);
        assert(is_case_link(legal, inv, links[links.len() - 1]));
        let i = l.evidence.0 - 1;
        assert(case_link(legal.evidence@[i], inv, l.from, l.to));
        assert(adjacent(legal, inv, l.from, l.to));
    }
}

/// A path with a step touches the case graph at its start.
pub proof fn lemma_path_start_in_graph(legal: LegalState, inv: InvestigationId, from: EntityRef, to: EntityRef, links: Seq<EvidenceLink>)
    requires
        is_evidence_path(legal, inv, from, to, links),
        links.len() > 0,
    ensures
        in_case_graph(legal, inv, from),
{
    assert(is_case_link(legal, inv, links[0]));
    let i = links[0].evidence.0 - 1;
    let r = legal.evidence@[i];
    assert(r == legal.spec_evidence(links[0].evidence)->0);
}

/// The case's linking evidence in identifier order, each as its origin, subject and identifier.
fn case_edges(legal: &LegalState, inv: InvestigationId) -> (edges: Vec<(EntityRef, EntityRef, EvidenceId)>)
    requires
        legal.wf(),
    ensures
        forall|k: int|
            0 <= k < edges@.len() ==> {
                let e = (#[trigger] edges@[k]).2;
                &&& 1 <= e.0 <= legal.evidence@.len()
                &&& legal.evidence@[e.0 - 1].investigation == inv
                &&& legal.evidence@[e.0 - 1].origin == Some(edges@[k].0)
                &&& legal.evidence@[e.0 - 1].subject == edges@[k].1
            },
        forall|i: int|
            0 <= i < legal.evidence@.len() && (#[trigger] legal.evidence@[i]).investigation == inv
                && legal.evidence@[i].origin is Some ==> exists|k: int|
                0 <= k < edges@.len() && #[trigger] edges@[k] == (
                    legal.evidence@[i].origin->0,
                    legal.evidence@[i].subject,
                    legal.evidence@[i].id,
                ),
        forall|a: int, b: int| 0 <= a < b < edges@.len() ==> (#[trigger] edges@[a]).2.0 < (#[trigger] edges@[b]).2.0,
{
    let mut edges: Vec<(EntityRef, EntityRef, EvidenceId)> = Vec::new();
    let mut i: usize = 0;
    while i < legal.evidence.len()
        invariant
            i <= legal.evidence.len(),
            legal.wf(),
            forall|k: int|
                0 <= k < edges@.len() ==> {
                    let e = (#[trigger] edges@[k]).2;
                    &&& 1 <= e.0 <= legal.evidence@.len()
                    &&& legal.evidence@[e.0 - 1].investigation == inv
                    &&& legal.evidence@[e.0 - 1].origin == Some(edges@[k].0)
                    &&& legal.evidence@[e.0 - 1].subject == edges@[k].1
                },
            forall|j: int|
                0 <= j < i && (#[trigger] legal.evidence@[j]).investigation == inv
                    && legal.evidence@[j].origin is Some ==> exists|k: int|
                    0 <= k < edges@.len() && #[trigger] edges@[k] == (
                        legal.evidence@[j].origin->0,
                        legal.evidence@[j].subject,
                        legal.evidence@[j].id,
                    ),
            forall|k: int| 0 <= k < edges@.len() ==> (#[trigger] edges@[k]).2.0 <= i,
            forall|a: int, b: int| 0 <= a < b < edges@.len() ==> (#[trigger] edges@[a]).2.0 < (#[trigger] edges@[b]).2.0,
        decreases legal.evidence.len() - i,
    {
        let r = legal.evidence[i];
        if r.investigation == inv {
            if let Some(o) = r.origin {
                let ghost before = edges@;
                edges.push((o, r.subject, r.id));
                proof {
                    let last = edges@.len() - 1;
                    assert(edges@[last] == (o, r.subject, r.id));
                    assert forall|j: int|
                        0 <= j <= i && (#[trigger] legal.evidence@[j]).investigation == inv
                            && legal.evidence@[j].origin is Some implies exists|k: int|
                        0 <= k < edges@.len() && #[trigger] edges@[k] == (
                            legal.evidence@[j].origin->0,
                            legal.evidence@[j].subject,
                            legal.evidence@[j].id,
                        ) by {
                        if j < i {
                            let k = choose|k: int|
                                0 <= k < before.len() && #[trigger] before[k] == (
                                    legal.evidence@[j].origin->0,
                                    legal.evidence@[j].subject,
                                    legal.evidence@[j].id,
                                );
                            assert(edges@[k] == before[k]);
                        } else {
                            assert(edges@[last] == (
                                legal.evidence@[j].origin->0,
                                legal.evidence@[j].subject,
                                legal.evidence@[j].id,
                            ));
                        }
                    }
                }
            }
        }
        i = i + 1;
    }
    edges
}

/// Whether some edge has `e` as an endpoint.
fn touches_edges(edges: &Vec<(EntityRef, EntityRef, EvidenceId)>, e: EntityRef) -> (r: bool)
    ensures
        r == exists|k: int| 0 <= k < edges@.len() && ((#[trigger] edges@[k]).0 == e || edges@[k].1 == e),
{
    let mut k: usize = 0;
    while k < edges.len()
        invariant
            k <= edges.len(),
            forall|j: int| 0 <= j < k ==> !((#[trigger] edges@[j]).0 == e || edges@[j].1 == e),
        decreases edges.len() - k,
    {
        if edges[k].0 == e || edges[k].1 == e {
            return true;
        }
        k = k + 1;
    }
    false
}

/// `from` followed by both endpoints of every edge.
fn edge_nodes(edges: &Vec<(EntityRef, EntityRef, EvidenceId)>, from: EntityRef) -> (nodes: Vec<EntityRef>)
    ensures
        nodes@.contains(from),
        forall|k: int| 0 <= k < edges@.len() ==> nodes@.contains((#[trigger] edges@[k]).0) && nodes@.contains(edges@[k].1),
{
    let mut nodes: Vec<EntityRef> = Vec::new();
    nodes.push(from);
    let mut k: usize = 0;
    while k < edges.len()
        invariant
            k <= edges.len(),
            nodes@.len() >= 1,
            nodes@[0] == from,
            forall|j: int|
                0 <= j < k ==> nodes@.contains((#[trigger] edges@[j]).0) && nodes@.contains(edges@[j].1),
        decreases edges.len() - k,
    {
        let ghost before = nodes@;
        nodes.push(edges[k].0);
        nodes.push(edges[k].1);
        proof {
            assert(nodes@[nodes@.len() - 2] == edges@[k as int].0);
            assert(nodes@[nodes@.len() - 1] == edges@[k as int].1);
            assert forall|x: EntityRef| before.contains(x) implies nodes@.contains(x) by {
                let i = choose|i: int| 0 <= i < before.len() && before[i] == x;
                assert(nodes@[i] == x);
            }
        }
        k = k + 1;
    }
    assert(nodes@[0] == from);
    nodes
}

/// The rank of an entity's kind in declaration order, paired with its identifier.
pub open spec fn spec_entity_key(e: EntityRef) -> (u8, u32) {
    match e {
        EntityRef::Character(id) => (0, id.0),
        EntityRef::Organization(id) => (1, id.0),
        EntityRef::Neighborhood(id) => (2, id.0),
        EntityRef::Business(id) => (3, id.0),
        EntityRef::Operation(id) => (4, id.0),
        EntityRef::Investigation(id) => (5, id.0),
        EntityRef::Evidence(id) => (6, id.0),
        EntityRef::Enterprise(id) => (7, id.0),
    }
}

/// Lexicographic order on sort keys: by kind rank, then identifier.
pub open spec fn spec_key_below(a: (u8, u32), b: (u8, u32)) -> bool {
    a.0 < b.0 || (a.0 == b.0 && a.1 < b.1)
}

/// Entities with one sort key are one entity.
proof fn lemma_entity_key_injective(a: EntityRef, b: EntityRef)
    requires
        spec_entity_key(a) == spec_entity_key(b),
    ensures
        a == b,
{
}

/// The sort keys of the entities a path visits after its start, in order.
pub open spec fn path_keys(links: Seq<EvidenceLink>) -> Seq<(u8, u32)> {
    links.map_values(|l: EvidenceLink| spec_entity_key(l.to))
}

/// Lexicographic order on key sequences, from the first element.
pub open spec fn keys_below(a: Seq<(u8, u32)>, b: Seq<(u8, u32)>) -> bool
    decreases a.len(),
{
    if a.len() == 0 || b.len() == 0 {
        false
    } else if spec_key_below(a[0], b[0]) {
        true
    } else if a[0] == b[0] {
        keys_below(a.drop_first(), b.drop_first())
    } else {
        false
    }
}

proof fn lemma_same_from_first(a: Seq<(u8, u32)>, b: Seq<(u8, u32)>)
    requires
        a.len() == b.len(),
        a.len() > 0,
        a[0] == b[0],
        a.drop_first() == b.drop_first(),
    ensures
        a == b,
{
    assert forall|i: int| 0 <= i < a.len() implies a[i] == b[i] by {
        if i > 0 {
            assert(a[i] == a.drop_first()[i - 1]);
            assert(b[i] == b.drop_first()[i - 1]);
        }
    }
    assert(a =~= b);
}

proof fn lemma_keys_push(a: Seq<(u8, u32)>, b: Seq<(u8, u32)>, x: (u8, u32), y: (u8, u32))
    requires
        a.len() == b.len(),
    ensures
        keys_below(a.push(x), b.push(y)) == (keys_below(a, b) || (a == b && spec_key_below(x, y))),
    decreases a.len(),
{
    if a.len() == 0 {
        assert(a.push(x).drop_first() =~= Seq::<(u8, u32)>::empty());
        assert(b.push(y).drop_first() =~= Seq::<(u8, u32)>::empty());
        assert(a =~= b);
        assert(a.push(x)[0] == x);
        assert(b.push(y)[0] == y);
        assert(!keys_below(a.push(x).drop_first(), b.push(y).drop_first()));
    } else {
        assert(a.push(x).drop_first() =~= a.drop_first().push(x));
        assert(b.push(y).drop_first() =~= b.drop_first().push(y));
        lemma_keys_push(a.drop_first(), b.drop_first(), x, y);
        if a[0] == b[0] && a.drop_first() == b.drop_first() {
            lemma_same_from_first(a, b);
        }
        if a == b {
            assert(a.drop_first() == b.drop_first());
        }
        assert(a.push(x)[0] == a[0]);
        assert(b.push(y)[0] == b[0]);
    }
}

proof fn lemma_keys_total(a: Seq<(u8, u32)>, b: Seq<(u8, u32)>)
    requires
        a.len() == b.len(),
    ensures
        a == b || keys_below(a, b) || keys_below(b, a),
    decreases a.len(),
{
    if a.len() > 0 {
        lemma_keys_total(a.drop_first(), b.drop_first());
        if a[0] == b[0] && a.drop_first() == b.drop_first() {
            lemma_same_from_first(a, b);
        }
    } else {
        assert(a =~= b);
    }
}

proof fn lemma_keys_trans(a: Seq<(u8, u32)>, b: Seq<(u8, u32)>, c: Seq<(u8, u32)>)
    requires
        keys_below(a, b),
        keys_below(b, c),
    ensures
        keys_below(a, c),
    decreases a.len(),
{
    if a[0] == b[0] && b[0] == c[0] {
        lemma_keys_trans(a.drop_first(), b.drop_first(), c.drop_first());
    }
}

proof fn lemma_keys_irreflexive(a: Seq<(u8, u32)>)
    ensures
        !keys_below(a, a),
    decreases a.len(),
{
    if a.len() > 0 {
        lemma_keys_irreflexive(a.drop_first());
    }
}

proof fn lemma_keys_asymmetric(a: Seq<(u8, u32)>, b: Seq<(u8, u32)>)
    requires
        keys_below(a, b),
    ensures
        !keys_below(b, a),
{
    if keys_below(b, a) {
        lemma_keys_trans(a, b, a);
        lemma_keys_irreflexive(a);
    }
}

proof fn lemma_path_keys_push(p: Seq<EvidenceLink>, l: EvidenceLink)
    ensures
        path_keys(p.push(l)) == path_keys(p).push(spec_entity_key(l.to)),
        path_keys(p).len() == p.len(),
{
    assert(path_keys(p.push(l)) =~= path_keys(p).push(spec_entity_key(l.to)));
}

/// Whether step `l` goes through the earliest evidence of case `inv` that connects its ends.
pub open spec fn first_evidence(legal: LegalState, inv: InvestigationId, l: EvidenceLink) -> bool {
    forall|i: int|
        0 <= i < legal.evidence@.len() && case_link(#[trigger] legal.evidence@[i], inv, l.from, l.to) ==> l.evidence.0
            <= legal.evidence@[i].id.0
}

/// Whether `p` is the breadth-first chain from `from` to `v`: a shortest chain whose sequence
/// of entities, compared in entity order from the start, comes first among all shortest
/// chains, each step through the earliest evidence connecting its ends.
pub open spec fn is_least_path(legal: LegalState, inv: InvestigationId, from: EntityRef, v: EntityRef, p: Seq<EvidenceLink>) -> bool {
    &&& is_shortest(legal, inv, from, v, p)
    &&& forall|q: Seq<EvidenceLink>|
        #[trigger] is_evidence_path(legal, inv, from, v, q) && q.len() == p.len() ==> !keys_below(
            path_keys(q),
            path_keys(p),
        )
    &&& forall|i: int| 0 <= i < p.len() ==> first_evidence(legal, inv, #[trigger] p[i])
}

/// A sort key that orders entities as their declaration order does: by kind, then identifier.
fn entity_key(e: EntityRef) -> (k: (u8, u32))
    ensures
        k == spec_entity_key(e),
{
    match e {
        EntityRef::Character(id) => (0, id.0),
        EntityRef::Organization(id) => (1, id.0),
        EntityRef::Neighborhood(id) => (2, id.0),
        EntityRef::Business(id) => (3, id.0),
        EntityRef::Operation(id) => (4, id.0),
        EntityRef::Investigation(id) => (5, id.0),
        EntityRef::Evidence(id) => (6, id.0),
        EntityRef::Enterprise(id) => (7, id.0),
    }
}

fn key_below(a: (u8, u32), b: (u8, u32)) -> (r: bool)
    ensures
        r == spec_key_below(a, b),
{
    a.0 < b.0 || (a.0 == b.0 && a.1 < b.1)
}

/// Whether edge `k` connects `u` and `v` through evidence `e`.
pub open spec fn edge_connects(edges: Seq<(EntityRef, EntityRef, EvidenceId)>, k: int, u: EntityRef, v: EntityRef, e: EvidenceId) -> bool {
    &&& 0 <= k < edges.len()
    &&& edges[k].2 == e
    &&& ((edges[k].0 == u && edges[k].1 == v) || (edges[k].1 == u && edges[k].0 == v))
}

/// Whether edge `k` joins `u` and `w`, in either direction.
pub open spec fn edge_touches(edges: Seq<(EntityRef, EntityRef, EvidenceId)>, k: int, u: EntityRef, w: EntityRef) -> bool {
    &&& 0 <= k < edges.len()
    &&& ((edges[k].0 == u && edges[k].1 == w) || (edges[k].1 == u && edges[k].0 == w))
}

/// The least unvisited neighbour of `u` in entity order, with the evidence of the first edge
/// joining them; none when every neighbour along the edges is visited.
fn next_neighbour(edges: &Vec<(EntityRef, EntityRef, EvidenceId)>, visited: &Vec<EntityRef>, u: EntityRef) -> (r: Option<(EntityRef, EvidenceId)>)
    ensures
        match r {
            Some((v, e)) => {
                &&& !visited@.contains(v)
                &&& exists|k: int|
                    edge_connects(edges@, k, u, v, e) && forall|j: int| 0 <= j < k ==> !#[trigger] edge_touches(edges@, j, u, v)
                &&& forall|j: int, x: EntityRef|
                    #[trigger] edge_touches(edges@, j, u, x) && !visited@.contains(x) ==> !spec_key_below(
                        spec_entity_key(x),
                        spec_entity_key(v),
                    )
            },
            None => forall|k: int|
                0 <= k < edges@.len() ==> ((#[trigger] edges@[k]).0 == u ==> visited@.contains(edges@[k].1))
                    && (edges@[k].1 == u ==> visited@.contains(edges@[k].0)),
        },
{
    let mut best: Option<(EntityRef, EvidenceId)> = None;
    let mut k: usize = 0;
    while k < edges.len()
        invariant
            k <= edges.len(),
            match best {
                Some((v, e)) => {
                    &&& !visited@.contains(v)
                    &&& exists|kb: int|
                        kb < k && edge_connects(edges@, kb, u, v, e) && forall|j: int|
                            0 <= j < kb ==> !#[trigger] edge_touches(edges@, j, u, v)
                    &&& forall|j: int, x: EntityRef|
                        j < k && #[trigger] edge_touches(edges@, j, u, x) && !visited@.contains(x) ==> !spec_key_below(
                            spec_entity_key(x),
                            spec_entity_key(v),
                        )
                },
                None => forall|j: int|
                    0 <= j < k ==> ((#[trigger] edges@[j]).0 == u ==> visited@.contains(edges@[j].1))
                        && (edges@[j].1 == u ==> visited@.contains(edges@[j].0)),
            },
        decreases edges.len() - k,
    {
        let (eo, es, eid) = edges[k];
        let ghost best0 = best;
        if eo == u && !crate::base::entity_vec_contains(visited, es) {
            let take = match best {
                None => true,
                Some((b, _)) => key_below(entity_key(es), entity_key(b)),
            };
            if take {
                proof {
                    assert(edge_connects(edges@, k as int, u, es, eid));
                    assert forall|j: int| 0 <= j < k implies !#[trigger] edge_touches(edges@, j, u, es) by {
                        if edge_touches(edges@, j, u, es) {
                            match best0 {
                                None => {
                                    assert(edges@[j].0 == u || edges@[j].1 == u);
                                },
                                Some((b, _)) => {
                                    assert(!spec_key_below(spec_entity_key(es), spec_entity_key(b)));
                                },
                            }
                        }
                    }
                    assert forall|j: int, x: EntityRef|
                        j < k + 1 && #[trigger] edge_touches(edges@, j, u, x) && !visited@.contains(x) implies !spec_key_below(
                            spec_entity_key(x),
                            spec_entity_key(es),
                        ) by {
                        if j < k {
                            match best0 {
                                None => {
                                    assert(edges@[j].0 == u || edges@[j].1 == u);
                                },
                                Some((b, _)) => {
                                    assert(!spec_key_below(spec_entity_key(x), spec_entity_key(b)));
                                },
                            }
                        } else if x != es {
                            assert(edges@[j].1 == u && edges@[j].0 == x);
                            assert(x == u);
                        }
                    }
                }
                best = Some((es, eid));
            }
        }
        let ghost best1 = best;
        if es == u && !crate::base::entity_vec_contains(visited, eo) {
            let take = match best {
                None => true,
                Some((b, _)) => key_below(entity_key(eo), entity_key(b)),
            };
            if take {
                proof {
                    assert(edge_connects(edges@, k as int, u, eo, eid));
                    assert forall|j: int| 0 <= j < k implies !#[trigger] edge_touches(edges@, j, u, eo) by {
                        if edge_touches(edges@, j, u, eo) {
                            match best1 {
                                None => {
                                    assert(edges@[j].0 == u || edges@[j].1 == u);
                                },
                                Some((b, _)) => {
                                    assert(!spec_key_below(spec_entity_key(eo), spec_entity_key(b)));
                                },
                            }
                        }
                    }
                    assert forall|j: int, x: EntityRef|
                        j < k + 1 && #[trigger] edge_touches(edges@, j, u, x) && !visited@.contains(x) implies !spec_key_below(
                            spec_entity_key(x),
                            spec_entity_key(eo),
                        ) by {
                        if j < k || (j == k && eo == u) {
                            match best1 {
                                None => {
                                    assert(edges@[j].0 == u || edges@[j].1 == u);
                                },
                                Some((b, _)) => {
                                    assert(!spec_key_below(spec_entity_key(x), spec_entity_key(b)));
                                },
                            }
                        }
                    }
                }
                best = Some((eo, eid));
            }
        }
        proof {
            match best {
                Some((v, e)) => {
                    assert forall|j: int, x: EntityRef|
                        j < k + 1 && #[trigger] edge_touches(edges@, j, u, x) && !visited@.contains(x) implies !spec_key_below(
                            spec_entity_key(x),
                            spec_entity_key(v),
                        ) by {
                        if j == k {
                            if edges@[j].0 == u && edges@[j].1 == x {
                                assert(eo == u && es == x);
                            } else {
                                assert(es == u && eo == x);
                            }
                        }
                    }
                },
                None => {},
            }
        }
        k = k + 1;
    }
    best
}

/// A copy of a path's steps.
fn copy_links(v: &Vec<EvidenceLink>) -> (r: Vec<EvidenceLink>)
    ensures
        r@ == v@,
{
    let mut r: Vec<EvidenceLink> = Vec::new();
    let mut i: usize = 0;
    while i < v.len()
        invariant
            i <= v.len(),
            r@ == v@.take(i as int),
        decreases v.len() - i,
    {
        r.push(v[i]);
        assert(v@.take(i + 1) =~= v@.take(i as int).push(v@[i as int]));
        i = i + 1;
    }
    assert(v@.take(v.len() as int) =~= v@);
    r
}

/// A sequence without repeats inside another holds at most as many entries.
proof fn lemma_unique_within(a: Seq<EntityRef>, b: Seq<EntityRef>)
    requires
        a.no_duplicates(),
        forall|x: EntityRef| a.contains(x) ==> b.contains(x),
    ensures
        a.len() <= b.len(),
{
    a.unique_seq_to_set();
    b.lemma_cardinality_of_set();
    assert(a.to_set().subset_of(b.to_set()));
    vstd::set_lib::lemma_len_subset(a.to_set(), b.to_set());
}

/// Whether every path from `from` to `v` has more than `k` steps.
pub open spec fn farther_than(legal: LegalState, inv: InvestigationId, from: EntityRef, v: EntityRef, k: int) -> bool {
    forall|q: Seq<EvidenceLink>| #[trigger] is_evidence_path(legal, inv, from, v, q) ==> q.len() > k
}

/// Whether `p` is a path from `from` to `v` that no other path undercuts.
pub open spec fn is_shortest(legal: LegalState, inv: InvestigationId, from: EntityRef, v: EntityRef, p: Seq<EvidenceLink>) -> bool {
    &&& is_evidence_path(legal, inv, from, v, p)
    &&& forall|q: Seq<EvidenceLink>| #[trigger] is_evidence_path(legal, inv, from, v, q) ==> p.len() <= q.len()
}

/// There is one breadth-first chain: two chains that both come first in entity order among the
/// shortest chains, each step through its earliest evidence, are the same chain. So a path
/// query answers the same chain every time it is asked of the same state.
pub proof fn law_least_path_unique(legal: LegalState, inv: InvestigationId, from: EntityRef, v: EntityRef, p: Seq<EvidenceLink>, q: Seq<EvidenceLink>)
    requires
        legal.wf(),
        is_least_path(legal, inv, from, v, p),
        is_least_path(legal, inv, from, v, q),
    ensures
        p == q,
{
    assert(p.len() == q.len());
    assert(path_keys(p).len() == p.len() && path_keys(q).len() == q.len());
    lemma_keys_total(path_keys(p), path_keys(q));
    assert(path_keys(p) == path_keys(q));
    assert forall|i: int| 0 <= i < p.len() implies p[i].to == q[i].to by {
        assert(path_keys(p)[i] == spec_entity_key(p[i].to));
        assert(path_keys(q)[i] == spec_entity_key(q[i].to));
        lemma_entity_key_injective(p[i].to, q[i].to);
    }
    assert forall|i: int| 0 <= i < p.len() implies p[i].from == q[i].from by {
        if i == 0 {
        } else {
            assert(p[i - 1].to == p[i].from);
            assert(q[i - 1].to == q[i].from);
        }
    }
    assert forall|i: int| 0 <= i < p.len() implies p[i] == q[i] by {
        assert(is_case_link(legal, inv, p[i]));
        assert(is_case_link(legal, inv, q[i]));
        assert(first_evidence(legal, inv, p[i]));
        assert(first_evidence(legal, inv, q[i]));
        let a = p[i].evidence.0 - 1;
        let b = q[i].evidence.0 - 1;
        assert(legal.evidence@[a].id.0 == p[i].evidence.0);
        assert(legal.evidence@[b].id.0 == q[i].evidence.0);
        assert(case_link(legal.evidence@[b], inv, p[i].from, p[i].to));
        assert(case_link(legal.evidence@[a], inv, q[i].from, q[i].to));
    }
    assert(p =~= q);
}

/// Whether `edges` lists the linking evidence of case `inv`, in identifier order.
#[verifier::opaque]
pub open spec fn case_edge_list(legal: LegalState, inv: InvestigationId, edges: Seq<(EntityRef, EntityRef, EvidenceId)>) -> bool {
    &&& forall|k: int|
        0 <= k < edges.len() ==> {
            let e = (#[trigger] edges[k]).2;
            &&& 1 <= e.0 <= legal.evidence@.len()
            &&& legal.evidence@[e.0 - 1].investigation == inv
            &&& legal.evidence@[e.0 - 1].origin == Some(edges[k].0)
            &&& legal.evidence@[e.0 - 1].subject == edges[k].1
        }
    &&& forall|i: int|
        0 <= i < legal.evidence@.len() && (#[trigger] legal.evidence@[i]).investigation == inv
            && legal.evidence@[i].origin is Some ==> exists|k: int|
            0 <= k < edges.len() && #[trigger] edges[k] == (
                legal.evidence@[i].origin->0,
                legal.evidence@[i].subject,
                legal.evidence@[i].id,
            )
    &&& forall|a: int, b: int| 0 <= a < b < edges.len() ==> (#[trigger] edges[a]).2.0 < (#[trigger] edges[b]).2.0
}

/// Whether `paths` are breadth-first chains to the `visited` entities, and chains of one length
/// come in entity order.
#[verifier::opaque]
pub open spec fn least_and_ordered(legal: LegalState, inv: InvestigationId, from: EntityRef, visited: Seq<EntityRef>, paths: Seq<Vec<EvidenceLink>>) -> bool {
    &&& forall|j: int| 0 <= j < visited.len() ==> is_least_path(legal, inv, from, visited[j], (#[trigger] paths[j])@)
    &&& forall|a: int, b: int|
        0 <= a < b < visited.len() && (#[trigger] paths[a])@.len() == (#[trigger] paths[b])@.len() ==> keys_below(
            path_keys(paths[a]@),
            path_keys(paths[b]@),
        )
}

/// The step the search takes from the frontier entity at position `t` to a new neighbour `v`
/// along edge `k0` gives the breadth-first chain to `v`.
proof fn lemma_extend_least(
    legal: LegalState,
    inv: InvestigationId,
    from: EntityRef,
    edges: Seq<(EntityRef, EntityRef, EvidenceId)>,
    visited: Seq<EntityRef>,
    paths: Seq<Vec<EvidenceLink>>,
    frontier: Seq<usize>,
    t: int,
    level: int,
    v: EntityRef,
    k0: int,
)
    requires
        legal.wf(),
        case_edge_list(legal, inv, edges),
        visited.len() == paths.len(),
        visited.len() <= usize::MAX,
        0 <= t < frontier.len(),
        forall|i: int| 0 <= i < frontier.len() ==> (#[trigger] frontier[i]) < visited.len() && paths[frontier[i] as int]@.len() == level,
        forall|a: int, b: int| 0 <= a < b < frontier.len() ==> (#[trigger] frontier[a]) < (#[trigger] frontier[b]),
        least_and_ordered(legal, inv, from, visited, paths),
        forall|j: int| 0 <= j < visited.len() && (#[trigger] paths[j])@.len() == level ==> frontier.contains(j as usize),
        forall|j: int| 0 <= j < visited.len() ==> (#[trigger] paths[j])@.len() <= level + 1,
        forall|j: int, b: EntityRef|
            0 <= j < visited.len() && paths[j]@.len() < level && #[trigger] adjacent(legal, inv, visited[j], b)
                ==> visited.contains(b),
        forall|i: int, b: EntityRef|
            0 <= i < t && #[trigger] adjacent(legal, inv, visited[frontier[i] as int], b) ==> visited.contains(b),
        forall|w: EntityRef, q: Seq<EvidenceLink>|
            !visited.contains(w) && #[trigger] is_evidence_path(legal, inv, from, w, q) ==> q.len() > level,
        !visited.contains(v),
        edge_touches(edges, k0, visited[frontier[t] as int], v),
        forall|j: int| 0 <= j < k0 ==> !#[trigger] edge_touches(edges, j, visited[frontier[t] as int], v),
        is_shortest(
            legal,
            inv,
            from,
            v,
            paths[frontier[t] as int]@.push(EvidenceLink { from: visited[frontier[t] as int], to: v, evidence: edges[k0].2 }),
        ),
    ensures
        is_least_path(
            legal,
            inv,
            from,
            v,
            paths[frontier[t] as int]@.push(EvidenceLink { from: visited[frontier[t] as int], to: v, evidence: edges[k0].2 }),
        ),
{
    reveal(least_and_ordered);
    reveal(case_edge_list);
    let ui = frontier[t] as int;
    let u = visited[ui];
    let link = EvidenceLink { from: u, to: v, evidence: edges[k0].2 };
    let base = paths[ui]@;
    let p = base.push(link);
    lemma_path_keys_push(base, link);
    assert(is_least_path(legal, inv, from, u, base));
    assert forall|q: Seq<EvidenceLink>|
        #[trigger] is_evidence_path(legal, inv, from, v, q) && q.len() == p.len() implies !keys_below(path_keys(q), path_keys(p)) by {
        let l = q.last();
        lemma_path_prefix(legal, inv, from, v, q);
        let pre = q.drop_last();
        let w = l.from;
        assert(q =~= pre.push(l));
        lemma_path_keys_push(pre, l);
        assert(l.to == v);
        assert(pre.len() == level);
        assert(visited.contains(w));
        let j = choose|j: int| 0 <= j < visited.len() && visited[j] == w;
        assert(is_least_path(legal, inv, from, w, paths[j]@));
        assert(paths[j]@.len() <= level);
        assert(is_case_link(legal, inv, q[q.len() - 1]));
        let ei = l.evidence.0 - 1;
        assert(case_link(legal.evidence@[ei], inv, w, v));
        assert(adjacent(legal, inv, w, v));
        if paths[j]@.len() < level {
            assert(visited.contains(v));
        }
        assert(frontier.contains(j as usize));
        let t2 = choose|t2: int| 0 <= t2 < frontier.len() && frontier[t2] == j as usize;
        if t2 < t {
            assert(visited[frontier[t2] as int] == w);
            assert(visited.contains(v));
        }
        // the chain to `w` is no earlier than the one to `u`
        assert(!keys_below(path_keys(pre), path_keys(paths[j]@)));
        assert(!keys_below(path_keys(pre), path_keys(base))) by {
            if t2 > t {
                assert(frontier[t] < frontier[t2]);
                assert(keys_below(path_keys(base), path_keys(paths[j]@)));
                if keys_below(path_keys(pre), path_keys(base)) {
                    lemma_keys_trans(path_keys(pre), path_keys(base), path_keys(paths[j]@));
                }
            } else {
                assert(t2 == t);
                assert(j == ui);
            }
        }
        lemma_keys_push(path_keys(pre), path_keys(base), spec_entity_key(v), spec_entity_key(v));
    }
    assert forall|i: int| 0 <= i < p.len() implies first_evidence(legal, inv, #[trigger] p[i]) by {
        if i < base.len() {
            assert(p[i] == base[i]);
        } else {
            assert(p[i] == link);
            assert forall|x: int|
                0 <= x < legal.evidence@.len() && case_link(#[trigger] legal.evidence@[x], inv, u, v) implies link.evidence.0
                    <= legal.evidence@[x].id.0 by {
                let k = choose|k: int|
                    0 <= k < edges.len() && #[trigger] edges[k] == (
                        legal.evidence@[x].origin->0,
                        legal.evidence@[x].subject,
                        legal.evidence@[x].id,
                    );
                assert(edge_touches(edges, k, u, v));
                if k < k0 {
                    assert(!edge_touches(edges, k, u, v));
                }
                if k > k0 {
                    assert(edges[k0].2.0 < edges[k].2.0);
                }
            }
        }
    }
}

/// A neighbour found later in the search comes after every chain of its length found before it.
proof fn lemma_extend_order(
    legal: LegalState,
    inv: InvestigationId,
    from: EntityRef,
    visited: Seq<EntityRef>,
    paths: Seq<Vec<EvidenceLink>>,
    frontier: Seq<usize>,
    pos: Seq<int>,
    level_start: int,
    t: int,
    level: int,
    v: EntityRef,
    l: EvidenceLink,
)
    requires
        visited.len() == paths.len(),
        visited.len() <= usize::MAX,
        0 <= level_start <= visited.len(),
        0 <= t < frontier.len(),
        least_and_ordered(legal, inv, from, visited, paths),
        forall|i: int| 0 <= i < frontier.len() ==> (#[trigger] frontier[i]) < level_start && paths[frontier[i] as int]@.len() == level,
        forall|a: int, b: int| 0 <= a < b < frontier.len() ==> (#[trigger] frontier[a]) < (#[trigger] frontier[b]),
        forall|j: int| 0 <= j < level_start ==> (#[trigger] paths[j])@.len() <= level,
        pos.len() == visited.len() - level_start,
        forall|m: int|
            0 <= m < pos.len() ==> 0 <= #[trigger] pos[m] <= t && paths[level_start + m]@.len() == level + 1
                && paths[level_start + m]@.drop_last() == paths[frontier[pos[m]] as int]@
                && paths[level_start + m]@.last().to == visited[level_start + m],
        forall|m: int|
            0 <= m < pos.len() && #[trigger] pos[m] == t ==> !spec_key_below(
                spec_entity_key(v),
                spec_entity_key(visited[level_start + m]),
            ),
        !visited.contains(v),
        l.to == v,
    ensures
        forall|a: int|
            0 <= a < visited.len() && (#[trigger] paths[a])@.len() == level + 1 ==> keys_below(
                path_keys(paths[a]@),
                path_keys(paths[frontier[t] as int]@.push(l)),
            ),
{
    reveal(least_and_ordered);
    reveal(case_edge_list);
    let ui = frontier[t] as int;
    let base = paths[ui]@;
    lemma_path_keys_push(base, l);
    assert forall|a: int| 0 <= a < visited.len() && (#[trigger] paths[a])@.len() == level + 1 implies keys_below(
        path_keys(paths[a]@),
        path_keys(base.push(l)),
    ) by {
        let m = a - level_start;
        assert(m >= 0);
        let pa = frontier[pos[m]] as int;
        let pre = paths[pa]@;
        let la = paths[a]@.last();
        assert(paths[a]@ =~= pre.push(la));
        lemma_path_keys_push(pre, la);
        lemma_keys_push(path_keys(pre), path_keys(base), spec_entity_key(visited[a]), spec_entity_key(v));
        if pos[m] < t {
            assert(frontier[pos[m]] < frontier[t]);
            assert(keys_below(path_keys(pre), path_keys(base)));
        } else {
            assert(pa == ui);
            assert(visited[a] != v) by {
                assert(visited.contains(visited[a]));
            }
            if !spec_key_below(spec_entity_key(visited[a]), spec_entity_key(v)) {
                assert(!spec_key_below(spec_entity_key(v), spec_entity_key(visited[a])));
                lemma_entity_key_injective(visited[a], v);
            }
        }
    }
}

/// The step to a neighbour the search finds from the frontier entity at position `t` extends
/// that entity's chain into the breadth-first chain to the neighbour, which comes after every
/// chain of its length found before it.
proof fn lemma_child_found(
    legal: LegalState,
    inv: InvestigationId,
    from: EntityRef,
    edges: Seq<(EntityRef, EntityRef, EvidenceId)>,
    old_visited: Seq<EntityRef>,
    old_paths: Seq<Vec<EvidenceLink>>,
    visited: Seq<EntityRef>,
    paths: Seq<Vec<EvidenceLink>>,
    frontier: Seq<usize>,
    pos: Seq<int>,
    level_start: int,
    t: int,
    level: int,
    v: EntityRef,
    k0: int,
)
    requires
        legal.wf(),
        case_edge_list(legal, inv, edges),
        visited.len() == paths.len(),
        visited.len() <= usize::MAX,
        old_visited.len() == level_start,
        level_start <= visited.len(),
        0 <= t < frontier.len(),
        forall|j: int| 0 <= j < level_start ==> visited[j] == old_visited[j] && paths[j] == old_paths[j],
        forall|j: int| level_start <= j < visited.len() ==> (#[trigger] paths[j])@.len() == level + 1,
        least_and_ordered(legal, inv, from, visited, paths),
        forall|i: int|
            0 <= i < frontier.len() ==> (#[trigger] frontier[i]) < level_start && old_paths[frontier[i] as int]@.len() == level,
        forall|a: int, b: int| 0 <= a < b < frontier.len() ==> (#[trigger] frontier[a]) < (#[trigger] frontier[b]),
        forall|j: int|
            0 <= j < level_start ==> (#[trigger] old_paths[j])@.len() <= level && (old_paths[j]@.len() == level
                ==> frontier.contains(j as usize)),
        forall|j: int, b: EntityRef|
            0 <= j < level_start && old_paths[j]@.len() < level && #[trigger] adjacent(legal, inv, old_visited[j], b)
                ==> visited.contains(b),
        forall|i: int, b: EntityRef|
            0 <= i < t && #[trigger] adjacent(legal, inv, old_visited[frontier[i] as int], b) ==> visited.contains(b),
        forall|w: EntityRef, q: Seq<EvidenceLink>|
            !visited.contains(w) && #[trigger] is_evidence_path(legal, inv, from, w, q) ==> q.len() > level,
        pos.len() == visited.len() - level_start,
        forall|m: int|
            0 <= m < pos.len() ==> 0 <= #[trigger] pos[m] <= t && paths[level_start + m]@.drop_last()
                == paths[frontier[pos[m]] as int]@ && paths[level_start + m]@.last().to == visited[level_start + m],
        forall|m: int, j: int, x: EntityRef|
            #![trigger pos[m], edge_touches(edges, j, visited[frontier[t] as int], x)]
            0 <= m < pos.len() && pos[m] == t && edge_touches(edges, j, visited[frontier[t] as int], x) && !visited.contains(x)
                ==> !spec_key_below(spec_entity_key(x), spec_entity_key(visited[level_start + m])),
        !visited.contains(v),
        edge_touches(edges, k0, visited[frontier[t] as int], v),
        forall|j: int| 0 <= j < k0 ==> !#[trigger] edge_touches(edges, j, visited[frontier[t] as int], v),
        is_shortest(
            legal,
            inv,
            from,
            v,
            paths[frontier[t] as int]@.push(EvidenceLink { from: visited[frontier[t] as int], to: v, evidence: edges[k0].2 }),
        ),
    ensures
        ({
            let p = paths[frontier[t] as int]@.push(
                EvidenceLink { from: visited[frontier[t] as int], to: v, evidence: edges[k0].2 },
            );
            &&& is_least_path(legal, inv, from, v, p)
            &&& forall|a: int|
                0 <= a < visited.len() && (#[trigger] paths[a])@.len() == p.len() ==> keys_below(
                    path_keys(paths[a]@),
                    path_keys(p),
                )
        }),
{
    let u = visited[frontier[t] as int];
    assert forall|j: int| 0 <= j < visited.len() implies (#[trigger] paths[j])@.len() <= level + 1 by {
        if j < level_start {
            assert(paths[j] == old_paths[j]);
        }
    }
    assert forall|j: int| 0 <= j < visited.len() && (#[trigger] paths[j])@.len() == level implies frontier.contains(j as usize) by {
        if j < level_start {
            assert(paths[j] == old_paths[j]);
        }
    }
    assert forall|j: int, b: EntityRef|
        0 <= j < visited.len() && paths[j]@.len() < level && #[trigger] adjacent(legal, inv, visited[j], b) implies visited.contains(
        b,
    ) by {
        if j < level_start {
            assert(paths[j] == old_paths[j] && visited[j] == old_visited[j]);
        }
    }
    assert forall|i: int, b: EntityRef|
        0 <= i < t && #[trigger] adjacent(legal, inv, visited[frontier[i] as int], b) implies visited.contains(b) by {
        assert(visited[frontier[i] as int] == old_visited[frontier[i] as int]);
    }
    assert forall|i: int| 0 <= i < frontier.len() implies (#[trigger] frontier[i]) < visited.len() && paths[frontier[i] as int]@.len()
        == level by {
        assert(paths[frontier[i] as int] == old_paths[frontier[i] as int]);
    }
    assert forall|j: int| 0 <= j < level_start implies (#[trigger] paths[j])@.len() <= level by {
        assert(paths[j] == old_paths[j]);
    }
    lemma_extend_least(legal, inv, from, edges, visited, paths, frontier, t, level, v, k0);
    assert forall|m: int| 0 <= m < pos.len() && #[trigger] pos[m] == t implies !spec_key_below(
        spec_entity_key(v),
        spec_entity_key(visited[level_start + m]),
    ) by {
        assert(edge_touches(edges, k0, u, v));
    }
    lemma_extend_order(
        legal,
        inv,
        from,
        visited,
        paths,
        frontier,
        pos,
        level_start,
        t,
        level,
        v,
        EvidenceLink { from: u, to: v, evidence: edges[k0].2 },
    );
}

/// Recording a new neighbour keeps the chains breadth first and ordered, and keeps what is known
/// of the children found from each frontier entity.
proof fn lemma_push_child(
    legal: LegalState,
    inv: InvestigationId,
    from: EntityRef,
    edges: Seq<(EntityRef, EntityRef, EvidenceId)>,
    u: EntityRef,
    before: Seq<EntityRef>,
    paths_before: Seq<Vec<EvidenceLink>>,
    visited: Seq<EntityRef>,
    paths: Seq<Vec<EvidenceLink>>,
    frontier: Seq<usize>,
    pos_before: Seq<int>,
    pos: Seq<int>,
    level_start: int,
    t: int,
    level: int,
    v: EntityRef,
)
    requires
        before.len() == paths_before.len(),
        0 <= level_start <= before.len(),
        0 <= t < frontier.len(),
        visited == before.push(v),
        paths.len() == paths_before.len() + 1,
        paths.drop_last() == paths_before,
        pos == pos_before.push(t),
        pos_before.len() == before.len() - level_start,
        least_and_ordered(legal, inv, from, before, paths_before),
        is_least_path(legal, inv, from, v, paths.last()@),
        forall|a: int|
            0 <= a < before.len() && (#[trigger] paths_before[a])@.len() == paths.last()@.len() ==> keys_below(
                path_keys(paths_before[a]@),
                path_keys(paths.last()@),
            ),
        forall|i: int| 0 <= i < frontier.len() ==> (#[trigger] frontier[i]) < level_start,
        paths.last()@.len() > 0,
        paths.last()@.drop_last() == paths_before[frontier[t] as int]@,
        paths.last()@.last().to == v,
        forall|m: int|
            0 <= m < pos_before.len() ==> 0 <= #[trigger] pos_before[m] <= t && paths_before[level_start + m]@.drop_last()
                == paths_before[frontier[pos_before[m]] as int]@ && paths_before[level_start + m]@.last().to == before[level_start
                + m],
        forall|m: int, j: int, x: EntityRef|
            #![trigger pos_before[m], edge_touches(edges, j, u, x)]
            0 <= m < pos_before.len() && pos_before[m] == t && edge_touches(edges, j, u, x) && !before.contains(x)
                ==> !spec_key_below(spec_entity_key(x), spec_entity_key(before[level_start + m])),
        forall|j: int, x: EntityRef|
            #[trigger] edge_touches(edges, j, u, x) && !before.contains(x) ==> !spec_key_below(
                spec_entity_key(x),
                spec_entity_key(v),
            ),
    ensures
        least_and_ordered(legal, inv, from, visited, paths),
        forall|m: int|
            0 <= m < pos.len() ==> 0 <= #[trigger] pos[m] <= t && paths[level_start + m]@.drop_last()
                == paths[frontier[pos[m]] as int]@ && paths[level_start + m]@.last().to == visited[level_start + m],
        forall|m: int, j: int, x: EntityRef|
            #![trigger pos[m], edge_touches(edges, j, u, x)]
            0 <= m < pos.len() && pos[m] == t && edge_touches(edges, j, u, x) && !visited.contains(x)
                ==> !spec_key_below(spec_entity_key(x), spec_entity_key(visited[level_start + m])),
{
    reveal(least_and_ordered);
    reveal(case_edge_list);
    let n = before.len();
    assert forall|j: int| 0 <= j < visited.len() implies is_least_path(legal, inv, from, visited[j], (#[trigger] paths[j])@) by {
        if j < n {
            assert(visited[j] == before[j] && paths[j] == paths_before[j]);
        }
    }
    assert forall|a: int, b: int|
        0 <= a < b < visited.len() && (#[trigger] paths[a])@.len() == (#[trigger] paths[b])@.len() implies keys_below(
        path_keys(paths[a]@),
        path_keys(paths[b]@),
    ) by {
        assert(paths[a] == paths_before[a]);
        if b < n {
            assert(paths[b] == paths_before[b]);
        }
    }
    assert forall|m: int| 0 <= m < pos.len() implies 0 <= #[trigger] pos[m] <= t && paths[level_start + m]@.drop_last()
        == paths[frontier[pos[m]] as int]@ && paths[level_start + m]@.last().to == visited[level_start + m] by {
        if m < pos.len() - 1 {
            assert(pos[m] == pos_before[m]);
            assert(paths[frontier[pos[m]] as int] == paths_before[frontier[pos[m]] as int]);
            assert(paths[level_start + m] == paths_before[level_start + m]);
            assert(visited[level_start + m] == before[level_start + m]);
        } else {
            assert(paths[frontier[t] as int] == paths_before[frontier[t] as int]);
        }
    }
    assert forall|m: int, j: int, x: EntityRef|
        #![trigger pos[m], edge_touches(edges, j, u, x)]
        0 <= m < pos.len() && pos[m] == t && edge_touches(edges, j, u, x) && !visited.contains(x)
            implies !spec_key_below(spec_entity_key(x), spec_entity_key(visited[level_start + m])) by {
        assert(!before.contains(x)) by {
            if before.contains(x) {
                let i = choose|i: int| 0 <= i < before.len() && before[i] == x;
                assert(visited[i] == x);
            }
        }
        if m < pos.len() - 1 {
            assert(pos[m] == pos_before[m]);
            assert(visited[level_start + m] == before[level_start + m]);
        }
    }
}

/// The shortest chain of case evidence from `from` to `to`, breadth first: among equally short
/// chains, neighbours are explored in entity order and through their first evidence, so the
/// chain is the one whose entities come first in entity order (`is_least_path`). None when
/// `from` is on no case evidence, or no chain reaches `to`.
#[verifier::rlimit(100)]
#[verifier::spinoff_prover]
pub fn resolve_evidence_path(state: &AppState, investigation: InvestigationId, from: EntityRef, to: EntityRef) -> (r: Result<Option<EvidencePath>, CaseGraphError>)
    requires
        state.wf(),
    ensures
        state.legal.spec_investigation(investigation) is None ==> r == Err::<Option<EvidencePath>, CaseGraphError>(
            CaseGraphError::MissingInvestigation(investigation),
        ),
        state.legal.spec_investigation(investigation) is Some ==> (r matches Ok(found) && match found {
            Some(p) => {
                &&& p.investigation == investigation
                &&& p.from == from
                &&& p.to == to
                &&& in_case_graph(state.legal, investigation, from)
                &&& is_shortest(state.legal, investigation, from, to, p.links@)
                &&& is_least_path(state.legal, investigation, from, to, p.links@)
            },
            None => !in_case_graph(state.legal, investigation, from) || forall|q: Seq<EvidenceLink>|
                !is_evidence_path(state.legal, investigation, from, to, q),
        }),
{
    if state.legal.get_investigation(investigation).is_none() {
        return Err(CaseGraphError::MissingInvestigation(investigation));
    }
    let legal = &state.legal;
    let inv = investigation;
    let edges = case_edges(legal, inv);
    let from_in = touches_edges(&edges, from);
    proof {
        if from_in {
            let k = choose|k: int| 0 <= k < edges@.len() && ((#[trigger] edges@[k]).0 == from || edges@[k].1 == from);
            let i = edges@[k].2.0 - 1;
            assert(legal.evidence@[i].investigation == inv);
        } else {
            if in_case_graph(*legal, inv, from) {
                let i = choose|i: int|
                    0 <= i < legal.evidence@.len() && (#[trigger] legal.evidence@[i]).investigation == inv
                        && legal.evidence@[i].origin is Some && (legal.evidence@[i].origin->0 == from
                        || legal.evidence@[i].subject == from);
                let k = choose|k: int|
                    0 <= k < edges@.len() && #[trigger] edges@[k] == (
                        legal.evidence@[i].origin->0,
                        legal.evidence@[i].subject,
                        legal.evidence@[i].id,
                    );
                assert(edges@[k].0 == from || edges@[k].1 == from);
            }
        }
    }
    if !from_in {
        return Ok(None);
    }
    if from == to {
        let links: Vec<EvidenceLink> = Vec::new();
        return Ok(Some(EvidencePath { investigation, from, to, links }));
    }
    let universe = edge_nodes(&edges, from);
    let mut visited: Vec<EntityRef> = Vec::new();
    visited.push(from);
    let mut paths: Vec<Vec<EvidenceLink>> = Vec::new();
    paths.push(Vec::new());
    let mut frontier: Vec<usize> = Vec::new();
    frontier.push(0);
    let ghost mut level: int = 0;
    proof {
        assert(visited@.no_duplicates());
        assert forall|v: EntityRef, q: Seq<EvidenceLink>|
            !visited@.contains(v) && #[trigger] is_evidence_path(*legal, inv, from, v, q) implies q.len() > level by {
            if q.len() == 0 {
                assert(visited@[0] == from);
            }
        }
        assert forall|q: Seq<EvidenceLink>| #[trigger] is_evidence_path(*legal, inv, from, from, q) implies paths@[0]@.len() <= q.len() by {}
        assert(frontier@[0] == 0usize);
        reveal(case_edge_list);
        reveal(least_and_ordered);
        assert(case_edge_list(*legal, inv, edges@));
        assert(is_least_path(*legal, inv, from, visited@[0], paths@[0]@));
        assert(least_and_ordered(*legal, inv, from, visited@, paths@));
    }
    loop
        invariant
            legal.wf(),
            *legal == state.legal,
            inv == investigation,
            state.legal.spec_investigation(investigation) is Some,
            from != to,
            in_case_graph(*legal, inv, from),
            universe@.contains(from),
            forall|k: int| 0 <= k < edges@.len() ==> universe@.contains((#[trigger] edges@[k]).0) && universe@.contains(edges@[k].1),
            0 <= level,
            visited@.len() == paths@.len(),
            visited@.len() >= 1,
            visited@[0] == from,
            visited@.no_duplicates(),
            visited@.len() <= universe@.len(),
            forall|j: int| 0 <= j < visited@.len() ==> universe@.contains(#[trigger] visited@[j]),
            forall|j: int|
                0 <= j < visited@.len() ==> is_shortest(*legal, inv, from, visited@[j], (#[trigger] paths@[j])@)
                    && paths@[j]@.len() <= level,
            forall|t: int|
                0 <= t < frontier@.len() ==> (#[trigger] frontier@[t]) < visited@.len() && paths@[frontier@[t] as int]@.len()
                    == level,
            forall|j: int|
                0 <= j < visited@.len() && (#[trigger] paths@[j])@.len() == level ==> frontier@.contains(j as usize),
            forall|j: int, b: EntityRef|
                0 <= j < visited@.len() && paths@[j]@.len() < level && #[trigger] adjacent(*legal, inv, visited@[j], b)
                    ==> visited@.contains(b),
            forall|v: EntityRef, q: Seq<EvidenceLink>|
                !visited@.contains(v) && #[trigger] is_evidence_path(*legal, inv, from, v, q) ==> q.len() > level,
            !visited@.contains(to),
            least_and_ordered(*legal, inv, from, visited@, paths@),
            forall|a: int, b: int| 0 <= a < b < frontier@.len() ==> (#[trigger] frontier@[a]) < (#[trigger] frontier@[b]),
            case_edge_list(*legal, inv, edges@),
        decreases universe@.len() - visited@.len(),
    {
        let ghost level_start = visited@.len();
        let ghost old_visited = visited@;
        let ghost old_paths = paths@;
        proof {
            assert forall|j: int| 0 <= j < level_start implies (#[trigger] old_paths[j])@.len() <= level && (old_paths[j]@.len()
                == level ==> frontier@.contains(j as usize)) by {
                assert(old_paths[j] == paths@[j]);
            }
        }
        let mut next: Vec<usize> = Vec::new();
        let mut t: usize = 0;
        let ghost mut pos: Seq<int> = Seq::empty();
        while t < frontier.len()
            invariant
                legal.wf(),
                *legal == state.legal,
                inv == investigation,
                state.legal.spec_investigation(investigation) is Some,
                from != to,
                in_case_graph(*legal, inv, from),
                universe@.contains(from),
                forall|k: int| 0 <= k < edges@.len() ==> universe@.contains((#[trigger] edges@[k]).0) && universe@.contains(edges@[k].1),
                t <= frontier.len(),
                old_visited.len() == level_start,
                visited@.len() == paths@.len(),
                visited@.len() >= level_start,
                visited@.len() <= universe@.len(),
                forall|j: int| 0 <= j < level_start ==> visited@[j] == old_visited[j] && paths@[j] == old_paths[j],
                visited@.no_duplicates(),
                forall|j: int| 0 <= j < visited@.len() ==> universe@.contains(#[trigger] visited@[j]),
                forall|j: int|
                    0 <= j < visited@.len() ==> is_shortest(*legal, inv, from, visited@[j], (#[trigger] paths@[j])@),
                forall|j: int| level_start <= j < visited@.len() ==> (#[trigger] paths@[j])@.len() == level + 1,
                next@.len() == visited@.len() - level_start,
                forall|i: int| 0 <= i < next@.len() ==> (#[trigger] next@[i]) == level_start + i,
                forall|i: int, b: EntityRef|
                    0 <= i < t && #[trigger] adjacent(*legal, inv, old_visited[frontier@[i] as int], b) ==> visited@.contains(b),
                forall|j: int, b: EntityRef|
                    0 <= j < level_start && paths@[j]@.len() < level && #[trigger] adjacent(*legal, inv, visited@[j], b)
                        ==> visited@.contains(b),
                forall|v: EntityRef, q: Seq<EvidenceLink>|
                    !visited@.contains(v) && #[trigger] is_evidence_path(*legal, inv, from, v, q) ==> q.len() > level,
                !visited@.contains(to),
                least_and_ordered(*legal, inv, from, visited@, paths@),
                case_edge_list(*legal, inv, edges@),
                forall|i: int|
                    0 <= i < frontier@.len() ==> (#[trigger] frontier@[i]) < level_start && old_paths[frontier@[i] as int]@.len()
                        == level,
                forall|a: int, b: int| 0 <= a < b < frontier@.len() ==> (#[trigger] frontier@[a]) < (#[trigger] frontier@[b]),
                forall|j: int|
                    0 <= j < level_start ==> (#[trigger] old_paths[j])@.len() <= level && (old_paths[j]@.len() == level
                        ==> frontier@.contains(j as usize)),
                pos.len() == visited@.len() - level_start,
                forall|m: int|
                    0 <= m < pos.len() ==> 0 <= #[trigger] pos[m] < t && paths@[level_start + m]@.drop_last()
                        == paths@[frontier@[pos[m]] as int]@ && paths@[level_start + m]@.last().to == visited@[level_start + m],
            decreases frontier.len() - t,
        {
            let ui = frontier[t];
            let u = visited[ui];
            let ghost t_visited = visited@;
            loop
                invariant
                    legal.wf(),
                    *legal == state.legal,
                    inv == investigation,
                    state.legal.spec_investigation(investigation) is Some,
                    from != to,
                    in_case_graph(*legal, inv, from),
                    universe@.contains(from),
                    forall|k: int| 0 <= k < edges@.len() ==> universe@.contains((#[trigger] edges@[k]).0) && universe@.contains(edges@[k].1),
                    t < frontier.len(),
                    old_visited.len() == level_start,
                    ui == frontier@[t as int],
                    ui < level_start,
                    u == visited@[ui as int],
                    u == old_visited[ui as int],
                    paths@[ui as int]@.len() == level,
                    visited@.len() == paths@.len(),
                    visited@.len() >= t_visited.len(),
                    forall|x: EntityRef| t_visited.contains(x) ==> visited@.contains(x),
                    visited@.len() <= universe@.len(),
                    forall|j: int| 0 <= j < level_start ==> visited@[j] == old_visited[j] && paths@[j] == old_paths[j],
                    visited@.no_duplicates(),
                    forall|j: int| 0 <= j < visited@.len() ==> universe@.contains(#[trigger] visited@[j]),
                    forall|j: int|
                        0 <= j < visited@.len() ==> is_shortest(*legal, inv, from, visited@[j], (#[trigger] paths@[j])@),
                    forall|j: int| level_start <= j < visited@.len() ==> (#[trigger] paths@[j])@.len() == level + 1,
                    next@.len() == visited@.len() - level_start,
                    forall|i: int| 0 <= i < next@.len() ==> (#[trigger] next@[i]) == level_start + i,
                    forall|v: EntityRef, q: Seq<EvidenceLink>|
                        !visited@.contains(v) && #[trigger] is_evidence_path(*legal, inv, from, v, q) ==> q.len() > level,
                    !visited@.contains(to),
                    least_and_ordered(*legal, inv, from, visited@, paths@),
                    case_edge_list(*legal, inv, edges@),
                    forall|i: int|
                        0 <= i < frontier@.len() ==> (#[trigger] frontier@[i]) < level_start && old_paths[frontier@[i] as int]@.len()
                            == level,
                    forall|a: int, b: int| 0 <= a < b < frontier@.len() ==> (#[trigger] frontier@[a]) < (#[trigger] frontier@[b]),
                    forall|j: int|
                        0 <= j < level_start ==> (#[trigger] old_paths[j])@.len() <= level && (old_paths[j]@.len() == level
                            ==> frontier@.contains(j as usize)),
                    forall|j: int, b: EntityRef|
                        0 <= j < level_start && old_paths[j]@.len() < level && #[trigger] adjacent(*legal, inv, old_visited[j], b)
                            ==> visited@.contains(b),
                    forall|i: int, b: EntityRef|
                        0 <= i < t && #[trigger] adjacent(*legal, inv, old_visited[frontier@[i] as int], b) ==> visited@.contains(b),
                    pos.len() == visited@.len() - level_start,
                    forall|m: int|
                        0 <= m < pos.len() ==> 0 <= #[trigger] pos[m] <= t && paths@[level_start + m]@.drop_last()
                            == paths@[frontier@[pos[m]] as int]@ && paths@[level_start + m]@.last().to == visited@[level_start + m],
                    forall|m: int, j: int, x: EntityRef|
                        #![trigger pos[m], edge_touches(edges@, j, u, x)]
                        0 <= m < pos.len() && pos[m] == t as int && edge_touches(edges@, j, u, x) && !visited@.contains(x)
                            ==> !spec_key_below(spec_entity_key(x), spec_entity_key(visited@[level_start + m])),
                ensures
                    forall|b: EntityRef| adjacent(*legal, inv, u, b) ==> visited@.contains(b),
                decreases universe@.len() - visited@.len(),
            {
                match next_neighbour(&edges, &visited, u) {
                    None => {
                        proof {
                            reveal(case_edge_list);
                            assert forall|b: EntityRef| adjacent(*legal, inv, u, b) implies visited@.contains(b) by {
                                let i = choose|i: int| 0 <= i < legal.evidence@.len() && case_link(#[trigger] legal.evidence@[i], inv, u, b);
                                let k = choose|k: int|
                                    0 <= k < edges@.len() && #[trigger] edges@[k] == (
                                        legal.evidence@[i].origin->0,
                                        legal.evidence@[i].subject,
                                        legal.evidence@[i].id,
                                    );
                                assert(edges@[k].0 == u || edges@[k].1 == u);
                            }
                        }
                        break;
                    },
                    Some((v, e)) => {
                        let link = EvidenceLink { from: u, to: v, evidence: e };
                        proof {
                            reveal(case_edge_list);
                            let k = choose|k: int| edge_connects(edges@, k, u, v, e);
                            let i = e.0 - 1;
                            assert(legal.evidence@[i].id == e);
                            assert(is_case_link(*legal, inv, link));
                            lemma_path_extend(*legal, inv, from, u, paths@[ui as int]@, link);
                        }
                        let mut p = copy_links(&paths[ui]);
                        p.push(link);
                        proof {
                            assert(universe@.contains(v)) by {
                                let k = choose|k: int| edge_connects(edges@, k, u, v, e);
                                assert(universe@.contains(edges@[k].0) && universe@.contains(edges@[k].1));
                            }
                            assert(is_shortest(*legal, inv, from, v, p@)) by {
                                assert forall|q: Seq<EvidenceLink>| #[trigger] is_evidence_path(*legal, inv, from, v, q) implies p@.len() <= q.len() by {}
                            }
                        }
                        let vlen = visited.len();
                        proof {
                            assert(vlen == visited@.len());
                            let k0 = choose|k: int|
                                edge_connects(edges@, k, u, v, e) && forall|j: int|
                                    0 <= j < k ==> !#[trigger] edge_touches(edges@, j, u, v);
                            assert(edge_touches(edges@, k0, u, v));
                            assert(p@ == paths@[frontier@[t as int] as int]@.push(
                                EvidenceLink { from: visited@[frontier@[t as int] as int], to: v, evidence: edges@[k0].2 },
                            ));
                            lemma_child_found(
                                *legal,
                                inv,
                                from,
                                edges@,
                                old_visited,
                                old_paths,
                                visited@,
                                paths@,
                                frontier@,
                                pos,
                                level_start as int,
                                t as int,
                                level,
                                v,
                                k0,
                            );
                        }
                        if v == to {
                            return Ok(Some(EvidencePath { investigation, from, to, links: p }));
                        }
                        let ghost before = visited@;
                        let ghost paths_before = paths@;
                        visited.push(v);
                        paths.push(p);
                        next.push(visited.len() - 1);
                        proof {
                            let ghost pos_before = pos;
                            pos = pos.push(t as int);
                            assert(p@.drop_last() =~= paths_before[ui as int]@);
                            assert(paths@.drop_last() =~= paths_before);
                            lemma_push_child(
                                *legal,
                                inv,
                                from,
                                edges@,
                                u,
                                before,
                                paths_before,
                                visited@,
                                paths@,
                                frontier@,
                                pos_before,
                                pos,
                                level_start as int,
                                t as int,
                                level,
                                v,
                            );
                        }
                        proof {
                            assert(visited@.no_duplicates()) by {
                                assert forall|a: int, b: int| 0 <= a < b < visited@.len() implies visited@[a] != visited@[b] by {
                                    if b == visited@.len() - 1 {
                                        assert(before[a] == visited@[a]);
                                        assert(before.contains(visited@[a]));
                                    } else {
                                        assert(before[a] == visited@[a] && before[b] == visited@[b]);
                                    }
                                }
                            }
                            assert forall|x: EntityRef| before.contains(x) implies visited@.contains(x) by {
                                let i = choose|i: int| 0 <= i < before.len() && before[i] == x;
                                assert(visited@[i] == x);
                            }
                            assert forall|x: EntityRef| visited@.contains(x) implies universe@.contains(x) by {
                                let i = choose|i: int| 0 <= i < visited@.len() && visited@[i] == x;
                                assert(universe@.contains(visited@[i]));
                            }
                            lemma_unique_within(visited@, universe@);
                            assert(visited@[visited@.len() - 1] == v);
                        }
                    },
                }
            }
            t = t + 1;
        }
        if next.len() == 0 {
            proof {
                assert forall|a: EntityRef, b: EntityRef| visited@.contains(a) && adjacent(*legal, inv, a, b) implies visited@.contains(b) by {
                    let j = choose|j: int| 0 <= j < visited@.len() && visited@[j] == a;
                    assert(paths@[j] == old_paths[j]);
                    assert(old_paths[j]@.len() <= level);
                    if paths@[j]@.len() < level {
                        assert(visited@.contains(b));
                    } else {
                        assert(frontier@.contains(j as usize));
                        let i = choose|i: int| 0 <= i < frontier@.len() && frontier@[i] == j as usize;
                        assert(visited@[frontier@[i] as int] == a);
                    }
                }
                assert forall|q: Seq<EvidenceLink>| !is_evidence_path(*legal, inv, from, to, q) by {
                    if is_evidence_path(*legal, inv, from, to, q) {
                        assert(visited@.contains(visited@[0]));
                        lemma_closed_holds_paths(*legal, inv, from, to, q, visited@);
                    }
                }
            }
            return Ok(None);
        }
        proof {
            assert forall|j: int, b: EntityRef|
                0 <= j < visited@.len() && paths@[j]@.len() < level + 1 && #[trigger] adjacent(*legal, inv, visited@[j], b)
                    implies visited@.contains(b) by {
                if j >= level_start {
                    assert(paths@[j]@.len() == level + 1);
                } else if paths@[j]@.len() < level {
                } else {
                    assert(old_paths[j]@.len() == level);
                    assert(frontier@.contains(j as usize));
                    let i = choose|i: int| 0 <= i < frontier@.len() && frontier@[i] == j as usize;
                    assert(visited@[j] == old_visited[j]);
                    assert(old_visited[frontier@[i] as int] == visited@[j]);
                }
            }
            assert forall|v: EntityRef, q: Seq<EvidenceLink>|
                !visited@.contains(v) && #[trigger] is_evidence_path(*legal, inv, from, v, q) implies q.len() > level + 1 by {
                if q.len() == level + 1 {
                    let l = q.last();
                    lemma_path_prefix(*legal, inv, from, v, q);
                    let pre = q.drop_last();
                    let u = l.from;
                    if !visited@.contains(u) {
                        assert(is_evidence_path(*legal, inv, from, u, pre));
                    } else {
                        let j = choose|j: int| 0 <= j < visited@.len() && visited@[j] == u;
                        assert(is_shortest(*legal, inv, from, u, paths@[j]@));
                        assert(is_evidence_path(*legal, inv, from, u, pre));
                        assert(paths@[j]@.len() <= level);
                        assert(is_case_link(*legal, inv, q[q.len() - 1]));
                        let i = l.evidence.0 - 1;
                        assert(case_link(legal.evidence@[i], inv, u, v));
                        assert(adjacent(*legal, inv, u, v));
                        if paths@[j]@.len() < level {
                            assert(j < level_start);
                        } else {
                            assert(j < level_start);
                            assert(frontier@.contains(j as usize));
                            let i2 = choose|i2: int| 0 <= i2 < frontier@.len() && frontier@[i2] == j as usize;
                            assert(visited@[frontier@[i2] as int] == u);
                        }
                    }
                }
            }
            assert forall|j: int| 0 <= j < visited@.len() implies (#[trigger] paths@[j])@.len() <= level + 1 by {
                if j < level_start {
                    assert(paths@[j] == old_paths[j]);
                    assert(old_paths[j]@.len() <= level);
                }
            }
            assert forall|j: int| 0 <= j < visited@.len() && (#[trigger] paths@[j])@.len() == level + 1 implies next@.contains(j as usize) by {
                if j < level_start {
                    assert(paths@[j] == old_paths[j]);
                    assert(old_paths[j]@.len() <= level);
                }
                assert(next@[j - level_start] == j as usize);
            }
        }
        frontier = next;
        proof {
            level = level + 1;
        }
    }
}

} // verus!
