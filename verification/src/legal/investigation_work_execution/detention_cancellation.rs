//! Custody preempts detective work: a detained investigator's scheduled work is cancelled, with
//! the arrest as its reason, through a token pinned to the work, its case and the minute.

use vstd::prelude::*;
use crate::base::{ArrestId, CharacterId, InvestigationId, InvestigationWorkId, SimTime};
use crate::legal::investigation_work_execution::{InvestigationWorkError, VersionedRecord};
use crate::legal::store::{cancelled, revised};
use crate::legal::{
    InvestigationWorkCancellation, InvestigationWorkCancellationReason, InvestigationWorkStatus,
};
use crate::state::AppState;

verus! {

/// A cancellation of a detained investigator's scheduled work that passed validation.
#[derive(Debug)]
pub struct ValidatedInvestigationWorkCancellation {
    work: InvestigationWorkId,
    investigator: CharacterId,
    expected_version: u32,
    expected_investigation_version: u32,
    cancelled_at: SimTime,
}

impl ValidatedInvestigationWorkCancellation {
    pub closed spec fn spec_work(&self) -> InvestigationWorkId {
        self.work
    }

    pub closed spec fn spec_investigator(&self) -> CharacterId {
        self.investigator
    }

    pub closed spec fn spec_expected_version(&self) -> u32 {
        self.expected_version
    }

    pub closed spec fn spec_investigation_version(&self) -> u32 {
        self.expected_investigation_version
    }

    pub closed spec fn spec_cancelled_at(&self) -> SimTime {
        self.cancelled_at
    }

    pub fn work(&self) -> (r: InvestigationWorkId)
        ensures
            r == self.spec_work(),
    {
        self.work
    }

    /// The first reason the cancellation no longer applies to `state`.
    pub open spec fn current_error(&self, state: AppState) -> Option<InvestigationWorkError> {
        let w = self.spec_work();
        match state.legal.spec_work(w) {
            None => Some(InvestigationWorkError::MissingWork(w)),
            Some(rec) => if rec.version != self.spec_expected_version() {
                Some(InvestigationWorkError::StaleWork { work: w, expected: self.spec_expected_version(), found: rec.version })
            } else if rec.status != InvestigationWorkStatus::Scheduled {
                Some(InvestigationWorkError::WorkNotScheduled(w))
            } else if rec.version == u32::MAX {
                Some(InvestigationWorkError::VersionCapacity(VersionedRecord::InvestigationWork))
            } else {
                match state.legal.spec_investigation(rec.investigation) {
                    None => Some(InvestigationWorkError::MissingInvestigation(rec.investigation)),
                    Some(case) => if case.version != self.spec_investigation_version() {
                        Some(
                            InvestigationWorkError::StaleInvestigation {
                                investigation: case.id,
                                expected: self.spec_investigation_version(),
                                found: case.version,
                            },
                        )
                    } else if case.version == u32::MAX {
                        Some(InvestigationWorkError::VersionCapacity(VersionedRecord::Investigation))
                    } else if rec.investigator != self.spec_investigator() || state.now != self.spec_cancelled_at() {
                        Some(InvestigationWorkError::StaleResolutionContext { work: w })
                    } else {
                        None
                    },
                }
            },
        }
    }

    /// Checks that the cancellation still applies: same work and case versions, work still
    /// scheduled to the same investigator, and the same minute.
    pub fn ensure_current(&self, state: &AppState) -> (r: Result<(), InvestigationWorkError>)
        requires
            state.wf(),
        ensures
            match self.current_error(*state) {
                Some(e) => r == Err::<(), InvestigationWorkError>(e),
                None => r is Ok,
            },
    {
        let w = self.work;
        let rec = match state.legal.get_investigation_work(w) {
            Some(rec) => rec,
            None => {
                return Err(InvestigationWorkError::MissingWork(w));
            },
        };
        if rec.version != self.expected_version {
            return Err(InvestigationWorkError::StaleWork { work: w, expected: self.expected_version, found: rec.version });
        }
        if rec.status != InvestigationWorkStatus::Scheduled {
            return Err(InvestigationWorkError::WorkNotScheduled(w));
        }
        if rec.version == u32::MAX {
            return Err(InvestigationWorkError::VersionCapacity(VersionedRecord::InvestigationWork));
        }
        let case = match state.legal.get_investigation(rec.investigation) {
            Some(case) => case,
            None => {
                return Err(InvestigationWorkError::MissingInvestigation(rec.investigation));
            },
        };
        if case.version != self.expected_investigation_version {
            return Err(
                InvestigationWorkError::StaleInvestigation {
                    investigation: case.id,
                    expected: self.expected_investigation_version,
                    found: case.version,
                },
            );
        }
        if case.version == u32::MAX {
            return Err(InvestigationWorkError::VersionCapacity(VersionedRecord::Investigation));
        }
        if rec.investigator != self.investigator || state.now.0 != self.cancelled_at.0 {
            return Err(InvestigationWorkError::StaleResolutionContext { work: w });
        }
        Ok(())
    }

    /// Re-checks the cancellation and applies it: the work is cancelled with `arrest` as its
    /// reason, and its case is revised.
    pub fn commit(self, state: &mut AppState, arrest: ArrestId) -> (r: Result<(), InvestigationWorkError>)
        requires
            old(state).wf(),
        ensures
            final(state).wf(),
            match self.current_error(*old(state)) {
                Some(e) => r == Err::<(), InvestigationWorkError>(e) && *final(state) == *old(state),
                None => {
                    let w = self.spec_work();
                    let rec = old(state).legal.spec_work(w)->0;
                    let i = rec.investigation.0 - 1;
                    &&& r is Ok
                    &&& final(state).legal.work@ == old(state).legal.work@.update(
                        w.0 - 1,
                        cancelled(
                            rec,
                            InvestigationWorkCancellation {
                                cancelled_at: old(state).now,
                                reason: InvestigationWorkCancellationReason::InvestigatorDetained(arrest),
                            },
                        ),
                    )
                    &&& final(state).legal.investigations@ == old(state).legal.investigations@.update(
                        i,
                        revised(old(state).legal.investigations@[i]),
                    )
                    &&& final(state).legal.evidence == old(state).legal.evidence
                    &&& final(state).legal.arrests == old(state).legal.arrests
                    &&& final(state).legal.case_witnesses == old(state).legal.case_witnesses
                    &&& final(state).legal.informants == old(state).legal.informants
                    &&& final(state).legal.disclosures == old(state).legal.disclosures
                    &&& final(state).world == old(state).world
                    &&& final(state).intelligence == old(state).intelligence
                    &&& final(state).now == old(state).now
                    &&& final(state).rng == old(state).rng
                },
            },
    {
        self.ensure_current(state)?;
        let w = self.work;
        let inv: InvestigationId = state.legal.work[(w.0 - 1) as usize].investigation;
        let now = state.now;
        state.legal.cancel_work(
            (w.0 - 1) as usize,
            InvestigationWorkCancellation {
                cancelled_at: now,
                reason: InvestigationWorkCancellationReason::InvestigatorDetained(arrest),
            },
        );
        state.legal.revise_investigation((inv.0 - 1) as usize);
        Ok(())
    }
}

/// Validates cancelling the scheduled work of `investigator`, who is being detained: `None`
/// when they have no scheduled work.
pub fn validate_cancel_investigation_work_for_detention(state: &AppState, investigator: CharacterId) -> (r: Result<Option<ValidatedInvestigationWorkCancellation>, InvestigationWorkError>)
    requires
        state.wf(),
    ensures
        match state.legal.spec_scheduled_work_for(investigator) {
            None => r matches Ok(None),
            Some(w) => {
                let rec = state.legal.spec_work(w)->0;
                if rec.version == u32::MAX {
                    r == Err::<Option<ValidatedInvestigationWorkCancellation>, InvestigationWorkError>(
                        InvestigationWorkError::VersionCapacity(VersionedRecord::InvestigationWork),
                    )
                } else if state.legal.spec_investigation(rec.investigation)->0.version == u32::MAX {
                    r == Err::<Option<ValidatedInvestigationWorkCancellation>, InvestigationWorkError>(
                        InvestigationWorkError::VersionCapacity(VersionedRecord::Investigation),
                    )
                } else {
                    &&& r matches Ok(Some(t))
                    &&& r->Ok_0->0.spec_work() == w
                    &&& r->Ok_0->0.spec_investigator() == investigator
                    &&& r->Ok_0->0.spec_expected_version() == rec.version
                    &&& r->Ok_0->0.spec_investigation_version() == state.legal.spec_investigation(rec.investigation)->0.version
                    &&& r->Ok_0->0.spec_cancelled_at() == state.now
                    &&& r->Ok_0->0.current_error(*state) is None
                }
            },
        },
{
    let w = match state.legal.scheduled_work_for_investigator(investigator) {
        Some(w) => w,
        None => {
            return Ok(None);
        },
    };
    proof {
        crate::seqs::lemma_first_index_props(state.legal.work@, crate::legal::scheduled_for_investigator(investigator));
    }
    let rec = state.legal.work[(w.0 - 1) as usize];
    if rec.version == u32::MAX {
        return Err(InvestigationWorkError::VersionCapacity(VersionedRecord::InvestigationWork));
    }
    let version = state.legal.investigations[(rec.investigation.0 - 1) as usize].version;
    if version == u32::MAX {
        return Err(InvestigationWorkError::VersionCapacity(VersionedRecord::Investigation));
    }
    Ok(
        Some(
            ValidatedInvestigationWorkCancellation {
                work: w,
                investigator,
                expected_version: rec.version,
                expected_investigation_version: version,
                cancelled_at: state.now,
            },
        ),
    )
}

} // verus!
