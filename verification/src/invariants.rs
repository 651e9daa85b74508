//! A run-time check of the state invariant: dense identifiers and resolvable references.

use vstd::prelude::*;
use crate::base::{ArrestId, SimDuration, SimTime};
use crate::legal::custody::{
    custody_release_at, independent_sources, meets_custody_bar, spec_custody_release_at,
};
use crate::legal::{
    EvidenceRecord, both_detain, both_scheduled_for_one, focus_fits_kind, same_disclosure, same_informant_relationship, ArrestRecord,
    ArrestStatus, InvestigationStatus, InvestigationWorkFocus, InvestigationWorkKind, InvestigationWorkStatus,
};
use crate::registry::{LegalConfigDefinition, Registry};
use crate::seqs::{first_index, lemma_first_index_is, lemma_first_index_none};
use crate::state::AppState;
use crate::intelligence::{derivation_ok, InformationSourceKind};

verus! {

/// Whether the state satisfies its invariant: every record kind is numbered densely from one,
/// characters' organizations exist, operations and enterprises name existing organizations,
/// evidence, arrests, witnesses and detective work name existing cases, and only active cases
/// have a lead.
#[verifier::loop_isolation(false)]
pub fn validate_state(state: &AppState) -> (r: bool)
    ensures
        r == state.wf(),
{
    let w = &state.world;
    let l = &state.legal;
    let mut i: usize = 0;
    while i < w.organizations.len()
        invariant
            i <= w.organizations.len(),
            forall|j: int| 0 <= j < i ==> (#[trigger] w.organizations@[j]).id.0 == j + 1,
        decreases w.organizations.len() - i,
    {
        if w.organizations[i].id.0 as usize != i + 1 {
            assert(!state.wf()) by {
                assert(w.organizations@[i as int].id.0 != i + 1);
            }
            return false;
        }
        i = i + 1;
    }
    let norg = w.organizations.len();
    i = 0;
    while i < w.characters.len()
        invariant
            i <= w.characters.len(),
            norg == w.organizations@.len(),
            forall|j: int| 0 <= j < i ==> (#[trigger] w.characters@[j]).id.0 == j + 1,
            forall|j: int|
                0 <= j < i ==> match (#[trigger] w.characters@[j]).organization {
                    Some(o) => w.organization_present(o),
                    None => true,
                },
            forall|j: int| 0 <= j < i ==> (#[trigger] w.characters@[j]).ratings_valid(),
        decreases w.characters.len() - i,
    {
        let bad_rating = match w.characters[i].investigation {
            Some(r) => r.0 > 100,
            None => false,
        } || match w.characters[i].safety {
            Some(r) => r.0 > 100,
            None => false,
        };
        if bad_rating {
            assert(!state.wf()) by {
                assert(!w.characters@[i as int].ratings_valid());
            }
            return false;
        }
        if w.characters[i].id.0 as usize != i + 1 {
            assert(!state.wf()) by {
                assert(w.characters@[i as int].id.0 != i + 1);
            }
            return false;
        }
        if let Some(o) = w.characters[i].organization {
            if o.0 < 1 || o.0 as usize > norg {
                assert(!state.wf()) by {
                    assert(!w.organization_present(o));
                }
            return false;
            }
        }
        i = i + 1;
    }
    i = 0;
    while i < w.operations.len()
        invariant
            i <= w.operations.len(),
            norg == w.organizations@.len(),
            forall|j: int|
                0 <= j < i ==> (#[trigger] w.operations@[j]).id.0 == j + 1 && w.organization_present(
                    w.operations@[j].responsible_organization,
                ),
        decreases w.operations.len() - i,
    {
        let o = w.operations[i].responsible_organization;
        if w.operations[i].id.0 as usize != i + 1 || o.0 < 1 || o.0 as usize > norg {
            assert(!state.wf()) by {
                assert(w.operations@[i as int].id.0 != i + 1 || !w.organization_present(o));
            }
            return false;
        }
        i = i + 1;
    }
    i = 0;
    while i < w.enterprises.len()
        invariant
            i <= w.enterprises.len(),
            norg == w.organizations@.len(),
            forall|j: int|
                0 <= j < i ==> (#[trigger] w.enterprises@[j]).id.0 == j + 1 && w.organization_present(
                    w.enterprises@[j].organization,
                ),
        decreases w.enterprises.len() - i,
    {
        let o = w.enterprises[i].organization;
        if w.enterprises[i].id.0 as usize != i + 1 || o.0 < 1 || o.0 as usize > norg {
            assert(!state.wf()) by {
                assert(w.enterprises@[i as int].id.0 != i + 1 || !w.organization_present(o));
            }
            return false;
        }
        i = i + 1;
    }
    let ninv = l.investigations.len();
    i = 0;
    while i < l.investigations.len()
        invariant
            i <= l.investigations.len(),
            forall|j: int| 0 <= j < i ==> (#[trigger] l.investigations@[j]).id.0 == j + 1,
            forall|j: int|
                0 <= j < i && (#[trigger] l.investigations@[j]).status != InvestigationStatus::Active
                    ==> l.investigations@[j].lead_investigator is None,
        decreases l.investigations.len() - i,
    {
        if l.investigations[i].id.0 as usize != i + 1 {
            assert(!state.wf()) by {
                assert(l.investigations@[i as int].id.0 != i + 1);
            }
            return false;
        }
        if l.investigations[i].status != InvestigationStatus::Active && l.investigations[i].lead_investigator.is_some() {
            assert(!state.wf()) by {
                assert(l.investigations@[i as int].status != InvestigationStatus::Active && l.investigations@[i as int].lead_investigator is Some);
            }
            return false;
        }
        i = i + 1;
    }
    i = 0;
    while i < l.investigations.len()
        invariant
            i <= l.investigations.len(),
            forall|a: int, b: int|
                0 <= a < i && 0 <= b < l.investigations@.len() && a != b
                    && (#[trigger] l.investigations@[a]).lead_investigator is Some
                    ==> (#[trigger] l.investigations@[b]).lead_investigator != l.investigations@[a].lead_investigator,
        decreases l.investigations.len() - i,
    {
        if l.investigations[i].lead_investigator.is_some() {
            let mut j: usize = 0;
            while j < l.investigations.len()
                invariant
                    j <= l.investigations.len(),
                    l.investigations@[i as int].lead_investigator is Some,
                    forall|b: int|
                        0 <= b < j && i != b ==> (#[trigger] l.investigations@[b]).lead_investigator
                            != l.investigations@[i as int].lead_investigator,
                decreases l.investigations.len() - j,
            {
                if j != i && l.investigations[j].lead_investigator == l.investigations[i].lead_investigator {
                    assert(!state.wf()) by {
                        assert(l.investigations@[i as int].lead_investigator is Some);
                        assert(l.investigations@[j as int].lead_investigator == l.investigations@[i as int].lead_investigator);
                    }
                    return false;
                }
                j = j + 1;
            }
        }
        i = i + 1;
    }
    i = 0;
    while i < l.evidence.len()
        invariant
            i <= l.evidence.len(),
            ninv == l.investigations@.len(),
            forall|j: int|
                0 <= j < i ==> (#[trigger] l.evidence@[j]).id.0 == j + 1 && 1 <= l.evidence@[j].investigation.0
                    <= ninv,
        decreases l.evidence.len() - i,
    {
        let inv = l.evidence[i].investigation;
        if l.evidence[i].id.0 as usize != i + 1 || inv.0 < 1 || inv.0 as usize > ninv {
            assert(!state.wf()) by {
                assert(l.evidence@[i as int].id.0 != i + 1 || !(1 <= inv.0 <= ninv));
            }
            return false;
        }
        i = i + 1;
    }
    i = 0;
    while i < l.arrests.len()
        invariant
            i <= l.arrests.len(),
            ninv == l.investigations@.len(),
            forall|j: int|
                0 <= j < i ==> (#[trigger] l.arrests@[j]).id.0 == j + 1 && 1 <= l.arrests@[j].investigation.0
                    <= ninv,
        decreases l.arrests.len() - i,
    {
        let inv = l.arrests[i].investigation;
        if l.arrests[i].id.0 as usize != i + 1 || inv.0 < 1 || inv.0 as usize > ninv {
            assert(!state.wf()) by {
                assert(l.arrests@[i as int].id.0 != i + 1 || !(1 <= inv.0 <= ninv));
            }
            return false;
        }
        i = i + 1;
    }
    i = 0;
    while i < l.case_witnesses.len()
        invariant
            i <= l.case_witnesses.len(),
            ninv == l.investigations@.len(),
            forall|j: int|
                0 <= j < i ==> (#[trigger] l.case_witnesses@[j]).id.0 == j + 1 && 1
                    <= l.case_witnesses@[j].investigation.0 <= ninv,
        decreases l.case_witnesses.len() - i,
    {
        let inv = l.case_witnesses[i].investigation;
        if l.case_witnesses[i].id.0 as usize != i + 1 || inv.0 < 1 || inv.0 as usize > ninv {
            assert(!state.wf()) by {
                assert(l.case_witnesses@[i as int].id.0 != i + 1 || !(1 <= inv.0 <= ninv));
            }
            return false;
        }
        i = i + 1;
    }
    i = 0;
    while i < l.informants.len()
        invariant
            i <= l.informants.len(),
            forall|j: int| 0 <= j < i ==> (#[trigger] l.informants@[j]).id.0 == j + 1,
        decreases l.informants.len() - i,
    {
        if l.informants[i].id.0 as usize != i + 1 {
            assert(!state.wf()) by {
                assert(l.informants@[i as int].id.0 != i + 1);
            }
            return false;
        }
        i = i + 1;
    }
    i = 0;
    while i < l.arrests.len()
        invariant
            i <= l.arrests.len(),
            forall|a: int, b: int|
                0 <= a < b < l.arrests@.len() && a < i ==> !both_detain(#[trigger] l.arrests@[a], #[trigger] l.arrests@[b]),
        decreases l.arrests.len() - i,
    {
        let mut j: usize = i + 1;
        while j < l.arrests.len()
            invariant
                i < j <= l.arrests.len(),
                forall|b: int| i < b < j ==> !both_detain(l.arrests@[i as int], #[trigger] l.arrests@[b]),
            decreases l.arrests.len() - j,
        {
            if l.arrests[i].character == l.arrests[j].character && l.arrests[i].status == ArrestStatus::Detained
                && l.arrests[j].status == ArrestStatus::Detained {
                assert(!state.wf()) by {
                    assert(both_detain(l.arrests@[i as int], l.arrests@[j as int]));
                }
                return false;
            }
            j = j + 1;
        }
        i = i + 1;
    }
    i = 0;
    while i < l.informants.len()
        invariant
            i <= l.informants.len(),
            forall|a: int, b: int|
                0 <= a < b < l.informants@.len() && a < i ==> !same_informant_relationship(
                    #[trigger] l.informants@[a],
                    #[trigger] l.informants@[b],
                ),
        decreases l.informants.len() - i,
    {
        let mut j: usize = i + 1;
        while j < l.informants.len()
            invariant
                i < j <= l.informants.len(),
                forall|b: int|
                    i < b < j ==> !same_informant_relationship(l.informants@[i as int], #[trigger] l.informants@[b]),
            decreases l.informants.len() - j,
        {
            if l.informants[i].character == l.informants[j].character && l.informants[i].handler == l.informants[j].handler {
                assert(!state.wf()) by {
                    assert(same_informant_relationship(l.informants@[i as int], l.informants@[j as int]));
                }
                return false;
            }
            j = j + 1;
        }
        i = i + 1;
    }
    i = 0;
    while i < l.disclosures.len()
        invariant
            i <= l.disclosures.len(),
            forall|a: int, b: int|
                0 <= a < b < l.disclosures@.len() && a < i ==> !same_disclosure(
                    #[trigger] l.disclosures@[a],
                    #[trigger] l.disclosures@[b],
                ),
        decreases l.disclosures.len() - i,
    {
        let mut j: usize = i + 1;
        while j < l.disclosures.len()
            invariant
                i < j <= l.disclosures.len(),
                forall|b: int| i < b < j ==> !same_disclosure(l.disclosures@[i as int], #[trigger] l.disclosures@[b]),
            decreases l.disclosures.len() - j,
        {
            if l.disclosures[i].investigation == l.disclosures[j].investigation
                && l.disclosures[i].source_information == l.disclosures[j].source_information {
                assert(!state.wf()) by {
                    assert(same_disclosure(l.disclosures@[i as int], l.disclosures@[j as int]));
                }
                return false;
            }
            j = j + 1;
        }
        i = i + 1;
    }
    i = 0;
    while i < l.disclosures.len()
        invariant
            i <= l.disclosures.len(),
            forall|j: int| 0 <= j < i ==> (#[trigger] l.disclosures@[j]).id.0 == j + 1,
        decreases l.disclosures.len() - i,
    {
        if l.disclosures[i].id.0 as usize != i + 1 {
            assert(!state.wf()) by {
                assert(l.disclosures@[i as int].id.0 != i + 1);
            }
            return false;
        }
        i = i + 1;
    }
    i = 0;
    while i < l.work.len()
        invariant
            i <= l.work.len(),
            ninv == l.investigations@.len(),
            forall|j: int|
                0 <= j < i ==> (#[trigger] l.work@[j]).id.0 == j + 1 && 1 <= l.work@[j].investigation.0 <= ninv
                    && focus_fits_kind(l.work@[j].kind, l.work@[j].focus),
        decreases l.work.len() - i,
    {
        let inv = l.work[i].investigation;
        let fits = match (l.work[i].kind, l.work[i].focus) {
            (InvestigationWorkKind::EvidenceReview, InvestigationWorkFocus::Evidence(_)) => true,
            (InvestigationWorkKind::WitnessInterview, InvestigationWorkFocus::Witness(_)) => true,
            _ => false,
        };
        if l.work[i].id.0 as usize != i + 1 || inv.0 < 1 || inv.0 as usize > ninv || !fits {
            assert(!state.wf()) by {
                assert(l.work@[i as int].id.0 != i + 1 || !(1 <= inv.0 <= ninv) || !focus_fits_kind(
                    l.work@[i as int].kind,
                    l.work@[i as int].focus,
                ));
            }
            return false;
        }
        i = i + 1;
    }
    let recs = &state.intelligence.records;
    i = 0;
    while i < recs.len()
        invariant
            i <= recs.len(),
            forall|j: int| 0 <= j < i ==> (#[trigger] recs@[j]).id.0 == j + 1 && derivation_ok(recs@[j]),
        decreases recs.len() - i,
    {
        let derivation_fine = match recs[i].derived_from {
            Some(src) => src.0 >= 1 && src.0 < recs[i].id.0,
            None => recs[i].source_kind != InformationSourceKind::InternalReport,
        };
        if recs[i].id.0 as usize != i + 1 || !derivation_fine {
            assert(!state.wf()) by {
                assert(recs@[i as int].id.0 != i + 1 || !derivation_ok(recs@[i as int]));
            }
            return false;
        }
        i = i + 1;
    }
    let norgs = state.world.organizations.len();
    let nchars = state.world.characters.len();
    i = 0;
    while i < l.investigations.len()
        invariant
            i <= l.investigations.len(),
            norgs == state.world.organizations@.len(),
            nchars == state.world.characters@.len(),
            forall|j: int|
                0 <= j < i ==> state.world.organization_present((#[trigger] l.investigations@[j]).owner) && (
                l.investigations@[j].lead_investigator matches Some(c) ==> state.world.character_present(c)),
        decreases l.investigations.len() - i,
    {
        let owner = l.investigations[i].owner;
        let lead_ok = match l.investigations[i].lead_investigator {
            Some(c) => c.0 >= 1 && c.0 as usize <= nchars,
            None => true,
        };
        if owner.0 < 1 || owner.0 as usize > norgs || !lead_ok {
            assert(!state.wf()) by {
                assert(!(state.world.organization_present(l.investigations@[i as int].owner) && (
                l.investigations@[i as int].lead_investigator matches Some(c) ==> state.world.character_present(c))));
            }
            return false;
        }
        i = i + 1;
    }
    i = 0;
    while i < l.work.len()
        invariant
            i <= l.work.len(),
            forall|a: int, b: int|
                0 <= a < i && a < b < l.work@.len() ==> !both_scheduled_for_one(#[trigger] l.work@[a], #[trigger] l.work@[b]),
        decreases l.work.len() - i,
    {
        let mut j: usize = i + 1;
        while j < l.work.len()
            invariant
                i < l.work.len(),
                i + 1 <= j <= l.work.len(),
                forall|a: int, b: int|
                    0 <= a < i && a < b < l.work@.len() ==> !both_scheduled_for_one(#[trigger] l.work@[a], #[trigger] l.work@[b]),
                forall|b: int| i < b < j ==> !both_scheduled_for_one(l.work@[i as int], #[trigger] l.work@[b]),
            decreases l.work.len() - j,
        {
            if l.work[i].status == InvestigationWorkStatus::Scheduled && l.work[j].status == InvestigationWorkStatus::Scheduled
                && l.work[i].investigator == l.work[j].investigator {
                assert(!state.wf()) by {
                    assert(both_scheduled_for_one(l.work@[i as int], l.work@[j as int]));
                }
                return false;
            }
            j = j + 1;
        }
        i = i + 1;
    }
    true
}


/// Why a state does not agree with the authored rules.
#[derive(Clone, Copy, Debug, PartialEq, Eq, Structural)]
pub enum StateValidationError {
    InvalidState,
    InvalidArrest { arrest: ArrestId },
}

/// Whether a detention respects the authored custody window at `now`: an active detention has
/// not outlived it, and a release happened within it.
pub open spec fn within_custody_window(a: ArrestRecord, now: SimTime, maximum: SimDuration) -> bool {
    let limit = spec_custody_release_at(a.arrested_at, maximum);
    match a.status {
        ArrestStatus::Detained => now.0 <= limit.0,
        ArrestStatus::Released => match a.released_at {
            Some(t) => t.0 <= limit.0,
            None => false,
        },
    }
}

/// Whether an arrest breaks the authored rules: it outlasted the custody window, or the evidence
/// it cites does not meet the custody bar.
pub open spec fn arrest_breaks_rules(ev: Seq<EvidenceRecord>, now: SimTime, legal: LegalConfigDefinition) -> spec_fn(ArrestRecord) -> bool {
    |a: ArrestRecord|
        !within_custody_window(a, now, legal.maximum_detention) || !meets_custody_bar(
            ev,
            a.evidence@,
            legal.minimum_arrest_qualifying_evidence,
        )
}

/// Checks the state invariant and then every arrest against the authored rules (custody window
/// and custody bar), naming the first arrest that breaks them.
#[verifier::loop_isolation(false)]
pub fn validate_state_against_registry(registry: &Registry, state: &AppState) -> (r: Result<(), StateValidationError>)
    ensures
        !state.wf() ==> r == Err::<(), StateValidationError>(StateValidationError::InvalidState),
        state.wf() ==> match first_index(
            state.legal.arrests@,
            arrest_breaks_rules(state.legal.evidence@, state.now, registry.legal),
        ) {
            Some(i) => r == Err::<(), StateValidationError>(
                StateValidationError::InvalidArrest { arrest: state.legal.arrests@[i].id },
            ),
            None => r is Ok,
        },
{
    if !validate_state(state) {
        return Err(StateValidationError::InvalidState);
    }
    let maximum = registry.legal().maximum_detention();
    let minimum = registry.legal().minimum_arrest_qualifying_evidence();
    let ghost p = arrest_breaks_rules(state.legal.evidence@, state.now, registry.legal);
    let mut i: usize = 0;
    while i < state.legal.arrests.len()
        invariant
            i <= state.legal.arrests.len(),
            p == arrest_breaks_rules(state.legal.evidence@, state.now, registry.legal),
            forall|j: int| 0 <= j < i ==> !p(#[trigger] state.legal.arrests@[j]),
        decreases state.legal.arrests.len() - i,
    {
        let a = &state.legal.arrests[i];
        let limit = custody_release_at(a.arrested_at, maximum);
        let in_window = match a.status {
            ArrestStatus::Detained => state.now.0 <= limit.0,
            ArrestStatus::Released => match a.released_at {
                Some(t) => t.0 <= limit.0,
                None => false,
            },
        };
        let sources = independent_sources(&state.legal.evidence, &a.evidence, false);
        let strong = independent_sources(&state.legal.evidence, &a.evidence, true);
        let ok = in_window && sources.len() >= minimum as usize && strong.len() > 0;
        if !ok {
            proof {
                lemma_first_index_is(state.legal.arrests@, p, i as int);
            }
            return Err(StateValidationError::InvalidArrest { arrest: a.id });
        }
        i = i + 1;
    }
    proof {
        lemma_first_index_none(state.legal.arrests@, p);
    }
    Ok(())
}

} // verus!
