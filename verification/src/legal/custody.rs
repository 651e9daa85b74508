//! The custody evidence bar. Evidence supports detention only when it is not known inadmissible,
//! not Weak and not Questionable; several statements from one named source, or analyses
//! developed from one record, count as one independent source; and at least one independent
//! source must carry Strong or Direct weight.

use vstd::prelude::*;
use crate::base::{EntityRef, EvidenceId, SimDuration, SimTime};
use crate::legal::{Admissibility, EvidenceRecord, EvidenceReliability, EvidenceStrength};

verus! {

/// What makes a piece of custody evidence independent of another.
#[derive(Clone, Copy, Debug, PartialEq, Eq, Structural, Hash)]
pub enum CustodyCorroborationSource {
    /// Witness and informant material names its person; repeated statements stay one source.
    Named(EntityRef),
    /// Source-less primary evidence is a distinct gathered fact of its own.
    PrimaryEvidence(EvidenceId),
}

pub open spec fn spec_qualifies_for_custody(e: EvidenceRecord) -> bool {
    e.admissibility != Admissibility::Inadmissible && e.strength != EvidenceStrength::Weak
        && e.reliability != EvidenceReliability::Questionable
}

pub fn evidence_qualifies_for_custody(e: &EvidenceRecord) -> (r: bool)
    ensures
        r == spec_qualifies_for_custody(*e),
{
    e.admissibility != Admissibility::Inadmissible && e.strength != EvidenceStrength::Weak
        && e.reliability != EvidenceReliability::Questionable
}

pub open spec fn spec_is_strong(e: EvidenceRecord) -> bool {
    e.strength == EvidenceStrength::Strong || e.strength == EvidenceStrength::Direct
}

/// The record an evidence id names in `ev`, where identifiers are dense.
pub open spec fn evidence_at(ev: Seq<EvidenceRecord>, id: EvidenceId) -> Option<EvidenceRecord> {
    if 1 <= id.0 <= ev.len() {
        Some(ev[id.0 - 1])
    } else {
        None
    }
}

/// The independent source a qualifying record stands for: the named person behind it, else the
/// primary record it is (or was developed from).
pub open spec fn corroboration_source(ev: Seq<EvidenceRecord>, e: EvidenceRecord) -> Option<CustodyCorroborationSource> {
    if !spec_qualifies_for_custody(e) {
        None
    } else {
        let primary = match e.derived_from {
            None => Some(e),
            Some(s) => evidence_at(ev, s),
        };
        match primary {
            None => None,
            Some(p) => Some(
                match p.source {
                    Some(n) => CustodyCorroborationSource::Named(n),
                    None => CustodyCorroborationSource::PrimaryEvidence(p.id),
                },
            ),
        }
    }
}

pub open spec fn source_of(ev: Seq<EvidenceRecord>, id: EvidenceId) -> Option<CustodyCorroborationSource> {
    match evidence_at(ev, id) {
        Some(e) => corroboration_source(ev, e),
        None => None,
    }
}

/// Whether a cited record counts at all (`strong_only` false) or as a Strong/Direct source.
pub open spec fn counts(ev: Seq<EvidenceRecord>, id: EvidenceId, strong_only: bool) -> bool {
    source_of(ev, id) is Some && (!strong_only || spec_is_strong(evidence_at(ev, id)->0))
}

/// The distinct independent sources behind the cited records, in first-citation order.
pub open spec fn distinct_sources(ev: Seq<EvidenceRecord>, ids: Seq<EvidenceId>, strong_only: bool) -> Seq<CustodyCorroborationSource>
    decreases ids.len(),
{
    if ids.len() == 0 {
        Seq::empty()
    } else {
        let rest = distinct_sources(ev, ids.drop_last(), strong_only);
        let id = ids.last();
        if counts(ev, id, strong_only) && !rest.contains(source_of(ev, id)->0) {
            rest.push(source_of(ev, id)->0)
        } else {
            rest
        }
    }
}

/// The custody bar over the cited records: enough independent sources, one of them strong.
pub open spec fn meets_custody_bar(ev: Seq<EvidenceRecord>, ids: Seq<EvidenceId>, minimum: u8) -> bool {
    distinct_sources(ev, ids, false).len() >= minimum && distinct_sources(ev, ids, true).len() > 0
}

pub proof fn lemma_distinct_sources_len(ev: Seq<EvidenceRecord>, ids: Seq<EvidenceId>, strong_only: bool)
    ensures
        distinct_sources(ev, ids, strong_only).len() <= ids.len(),
    decreases ids.len(),
{
    if ids.len() > 0 {
        lemma_distinct_sources_len(ev, ids.drop_last(), strong_only);
    }
}

/// Citations that share an independent source count once: the sources counted are the
/// distinct sources of the counting citations, each exactly once. Two statements of one named
/// source, or a record and its analysis, therefore add a single corroborator.
pub proof fn law_shared_source_counts_once(ev: Seq<EvidenceRecord>, ids: Seq<EvidenceId>, strong_only: bool)
    ensures
        distinct_sources(ev, ids, strong_only).no_duplicates(),
        forall|c: CustodyCorroborationSource|
            #[trigger] distinct_sources(ev, ids, strong_only).contains(c) <==> exists|i: int|
                0 <= i < ids.len() && counts(ev, ids[i], strong_only) && source_of(ev, #[trigger] ids[i])
                    == Some(c),
    decreases ids.len(),
{
    if ids.len() > 0 {
        let init = ids.drop_last();
        law_shared_source_counts_once(ev, init, strong_only);
        let rest = distinct_sources(ev, init, strong_only);
        let id = ids.last();
        assert forall|c: CustodyCorroborationSource|
            #[trigger] distinct_sources(ev, ids, strong_only).contains(c) <==> exists|i: int|
                0 <= i < ids.len() && counts(ev, ids[i], strong_only) && source_of(ev, #[trigger] ids[i])
                    == Some(c) by {
            if distinct_sources(ev, ids, strong_only).contains(c) {
                if rest.contains(c) {
                    let i = choose|i: int|
                        0 <= i < init.len() && counts(ev, init[i], strong_only) && source_of(ev, #[trigger] init[i])
                            == Some(c);
                    assert(ids[i] == init[i]);
                } else {
                    assert(ids[ids.len() - 1] == id);
                }
            }
            if exists|i: int|
                0 <= i < ids.len() && counts(ev, ids[i], strong_only) && source_of(ev, #[trigger] ids[i]) == Some(c) {
                let i = choose|i: int|
                    0 <= i < ids.len() && counts(ev, ids[i], strong_only) && source_of(ev, #[trigger] ids[i]) == Some(c);
                if i < init.len() {
                    assert(init[i] == ids[i]);
                    assert(rest.contains(c));
                    if counts(ev, id, strong_only) && !rest.contains(source_of(ev, id)->0) {
                        assert(rest.push(source_of(ev, id)->0)[rest.len() - 0 - 1 + 0] == rest[rest.len() - 1]);
                        let k = choose|k: int| 0 <= k < rest.len() && rest[k] == c;
                        assert(rest.push(source_of(ev, id)->0)[k] == c);
                    }
                } else {
                    if !rest.contains(c) {
                        assert(rest.push(c)[rest.len() as int] == c);
                    }
                }
            }
        }
    }
}

/// Statements naming one source stand for that one source, and an analysis developed from a
/// record stands for the same source as the record: so citing two statements of one named
/// person, or a record together with its analysis, adds one independent source (see
/// `law_two_citations_of_one_source`).
pub proof fn law_named_and_derived_sources(ev: Seq<EvidenceRecord>, a: EvidenceId, b: EvidenceId, d: EvidenceId)
    requires
        evidence_at(ev, a) is Some,
        evidence_at(ev, b) is Some,
        evidence_at(ev, d) is Some,
        evidence_at(ev, a)->0.id == a,
        spec_qualifies_for_custody(evidence_at(ev, a)->0),
        spec_qualifies_for_custody(evidence_at(ev, b)->0),
        spec_qualifies_for_custody(evidence_at(ev, d)->0),
        evidence_at(ev, a)->0.derived_from is None,
        evidence_at(ev, d)->0.derived_from == Some(a),
    ensures
        (evidence_at(ev, b)->0.derived_from is None && evidence_at(ev, a)->0.source is Some && evidence_at(ev, b)->0.source
            == evidence_at(ev, a)->0.source) ==> source_of(ev, a) == source_of(ev, b) && source_of(ev, a) == Some(
            CustodyCorroborationSource::Named(evidence_at(ev, a)->0.source->0),
        ),
        source_of(ev, d) == source_of(ev, a),
        source_of(ev, a) is Some,
{
}

/// Two counting citations of one source add one independent source, not two.
pub proof fn law_two_citations_of_one_source(ev: Seq<EvidenceRecord>, a: EvidenceId, b: EvidenceId, strong_only: bool)
    requires
        counts(ev, a, strong_only),
        counts(ev, b, strong_only),
        source_of(ev, a) == source_of(ev, b),
    ensures
        distinct_sources(ev, seq![a, b], strong_only).len() == 1,
{
    let one = seq![a];
    let two = seq![a, b];
    assert(two.drop_last() =~= one);
    assert(one.drop_last() =~= Seq::<EvidenceId>::empty());
    assert(two.last() == b);
    assert(one.last() == a);
    let d1 = distinct_sources(ev, one, strong_only);
    assert(distinct_sources(ev, one.drop_last(), strong_only) =~= Seq::<CustodyCorroborationSource>::empty());
    assert(d1 =~= Seq::<CustodyCorroborationSource>::empty().push(source_of(ev, a)->0));
    assert(d1.contains(source_of(ev, b)->0)) by {
        assert(d1[0] == source_of(ev, b)->0);
    }
    assert(distinct_sources(ev, two, strong_only) == d1);
}

/// The independent source a record stands for, where it counts at all.
pub fn corroboration_source_of(ev: &Vec<EvidenceRecord>, id: EvidenceId) -> (r: Option<CustodyCorroborationSource>)
    ensures
        r == source_of(ev@, id),
{
    if id.0 < 1 || (id.0 - 1) as usize >= ev.len() {
        return None;
    }
    let e = ev[(id.0 - 1) as usize];
    if !evidence_qualifies_for_custody(&e) {
        return None;
    }
    let primary = match e.derived_from {
        None => e,
        Some(s) => {
            if s.0 < 1 || (s.0 - 1) as usize >= ev.len() {
                return None;
            }
            ev[(s.0 - 1) as usize]
        },
    };
    Some(
        match primary.source {
            Some(n) => CustodyCorroborationSource::Named(n),
            None => CustodyCorroborationSource::PrimaryEvidence(primary.id),
        },
    )
}

fn source_list_contains(v: &Vec<CustodyCorroborationSource>, s: CustodyCorroborationSource) -> (r: bool)
    ensures
        r == v@.contains(s),
{
    let mut i: usize = 0;
    while i < v.len()
        invariant
            i <= v.len(),
            forall|j: int| 0 <= j < i ==> v@[j] != s,
        decreases v.len() - i,
    {
        if v[i] == s {
            return true;
        }
        i = i + 1;
    }
    false
}

/// The distinct independent sources behind `ids`, counting only Strong/Direct records when
/// `strong_only`.
pub fn independent_sources(ev: &Vec<EvidenceRecord>, ids: &Vec<EvidenceId>, strong_only: bool) -> (r: Vec<CustodyCorroborationSource>)
    ensures
        r@ == distinct_sources(ev@, ids@, strong_only),
{
    let mut out: Vec<CustodyCorroborationSource> = Vec::new();
    let mut i: usize = 0;
    while i < ids.len()
        invariant
            i <= ids.len(),
            out@ == distinct_sources(ev@, ids@.take(i as int), strong_only),
        decreases ids.len() - i,
    {
        let id = ids[i];
        proof {
            assert(ids@.take(i + 1).drop_last() =~= ids@.take(i as int));
            assert(ids@.take(i + 1).last() == id);
        }
        match corroboration_source_of(ev, id) {
            Some(src) => {
                let strong_ok = if strong_only {
                    let e = ev[(id.0 - 1) as usize];
                    e.strength == EvidenceStrength::Strong || e.strength == EvidenceStrength::Direct
                } else {
                    true
                };
                if strong_ok && !source_list_contains(&out, src) {
                    out.push(src);
                }
            },
            None => {},
        }
        i = i + 1;
    }
    assert(ids@.take(ids.len() as int) =~= ids@);
    out
}

/// The latest instant custody may last: the authored window after the arrest, or the last
/// representable minute where the window runs past the end of the clock.
pub open spec fn spec_custody_release_at(arrested_at: SimTime, maximum: SimDuration) -> SimTime {
    if arrested_at.0 + maximum.0 <= u64::MAX {
        SimTime((arrested_at.0 + maximum.0) as u64)
    } else {
        SimTime(u64::MAX)
    }
}

pub fn custody_release_at(arrested_at: SimTime, maximum: SimDuration) -> (r: SimTime)
    ensures
        r == spec_custody_release_at(arrested_at, maximum),
{
    match arrested_at.checked_add(maximum) {
        Some(t) => t,
        None => SimTime::from_minutes(u64::MAX),
    }
}

} // verus!
