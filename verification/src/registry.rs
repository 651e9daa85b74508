//! Authored rules: custody, informant, cold-case and detective-work parameters.

use vstd::prelude::*;
use crate::base::SimDuration;

verus! {

/// Authored scoring of the material a detective works from.
#[derive(Clone, Copy, Debug, PartialEq, Eq)]
pub struct SourceSupportDefinition {
    pub weak: u8,
    pub corroborating: u8,
    pub strong: u8,
    pub direct: u8,
    pub questionable: u8,
    pub mixed: u8,
    pub credible: u8,
    pub highly_reliable: u8,
    pub inadmissible: u8,
    pub unknown_admissibility: u8,
    pub disputed: u8,
    pub admissible: u8,
    pub hostile: u8,
    pub reluctant: u8,
    pub cooperative: u8,
}

/// Authored shape of one kind of detective work.
#[derive(Clone, Copy, Debug, PartialEq, Eq)]
pub struct InvestigationWorkDefinition {
    pub duration: SimDuration,
    pub variance_limit: u8,
    pub connected_margin: i16,
    pub base_difficulty: u8,
    pub source_support_weight: u8,
    pub source_support: SourceSupportDefinition,
}

/// Authored legal-institution parameters.
#[derive(Clone, Copy, Debug, PartialEq, Eq)]
pub struct LegalConfigDefinition {
    pub minimum_arrest_qualifying_evidence: u8,
    pub maximum_detention: SimDuration,
    pub witness_interview_attempt_limit: u8,
    pub informant_decision_delay: SimDuration,
    pub informant_base_flip_chance_percent: u8,
    pub informant_safety_bonus_percent: u8,
    pub represented_informant_reduction_percent: u8,
    pub cold_case_window: SimDuration,
}

impl LegalConfigDefinition {
    pub fn minimum_arrest_qualifying_evidence(&self) -> (r: u8)
        ensures
            r == self.minimum_arrest_qualifying_evidence,
    {
        self.minimum_arrest_qualifying_evidence
    }

    pub fn maximum_detention(&self) -> (r: SimDuration)
        ensures
            r == self.maximum_detention,
    {
        self.maximum_detention
    }

    pub fn witness_interview_attempt_limit(&self) -> (r: u8)
        ensures
            r == self.witness_interview_attempt_limit,
    {
        self.witness_interview_attempt_limit
    }

    pub fn informant_decision_delay(&self) -> (r: SimDuration)
        ensures
            r == self.informant_decision_delay,
    {
        self.informant_decision_delay
    }

    pub fn cold_case_window(&self) -> (r: SimDuration)
        ensures
            r == self.cold_case_window,
    {
        self.cold_case_window
    }
}

/// Immutable authored definitions consulted by the legal systems.
#[derive(Clone, Copy, Debug, PartialEq, Eq)]
pub struct Registry {
    pub legal: LegalConfigDefinition,
    pub evidence_review: InvestigationWorkDefinition,
    pub witness_interview: InvestigationWorkDefinition,
}

impl Registry {
    pub fn legal(&self) -> (r: LegalConfigDefinition)
        ensures
            r == self.legal,
    {
        self.legal
    }

    pub open spec fn spec_work(self, kind: crate::legal::InvestigationWorkKind) -> InvestigationWorkDefinition {
        match kind {
            crate::legal::InvestigationWorkKind::EvidenceReview => self.evidence_review,
            crate::legal::InvestigationWorkKind::WitnessInterview => self.witness_interview,
        }
    }

    /// The authored definition of one kind of detective work.
    pub fn get_investigation_work(&self, kind: crate::legal::InvestigationWorkKind) -> (r: InvestigationWorkDefinition)
        ensures
            r == self.spec_work(kind),
    {
        match kind {
            crate::legal::InvestigationWorkKind::EvidenceReview => self.evidence_review,
            crate::legal::InvestigationWorkKind::WitnessInterview => self.witness_interview,
        }
    }
}

impl InvestigationWorkDefinition {
    pub fn duration(&self) -> (r: SimDuration)
        ensures
            r == self.duration,
    {
        self.duration
    }

    pub fn variance_limit(&self) -> (r: u8)
        ensures
            r == self.variance_limit,
    {
        self.variance_limit
    }
}

pub open spec fn default_source_support() -> SourceSupportDefinition {
    SourceSupportDefinition {
        weak: 20,
        corroborating: 50,
        strong: 75,
        direct: 95,
        questionable: 20,
        mixed: 50,
        credible: 75,
        highly_reliable: 95,
        inadmissible: 0,
        unknown_admissibility: 50,
        disputed: 35,
        admissible: 90,
        hostile: 10,
        reluctant: 40,
        cooperative: 85,
    }
}

/// The authored registry of the campaign.
pub open spec fn spec_registry() -> Registry {
    Registry {
        legal: LegalConfigDefinition {
            minimum_arrest_qualifying_evidence: 2,
            maximum_detention: SimDuration(4320),
            witness_interview_attempt_limit: 3,
            informant_decision_delay: SimDuration(720),
            informant_base_flip_chance_percent: 25,
            informant_safety_bonus_percent: 50,
            represented_informant_reduction_percent: 25,
            cold_case_window: SimDuration(10080),
        },
        evidence_review: InvestigationWorkDefinition {
            duration: SimDuration(180),
            variance_limit: 10,
            connected_margin: 0,
            base_difficulty: 60,
            source_support_weight: 50,
            source_support: default_source_support(),
        },
        witness_interview: InvestigationWorkDefinition {
            duration: SimDuration(120),
            variance_limit: 10,
            connected_margin: 0,
            base_difficulty: 60,
            source_support_weight: 50,
            source_support: default_source_support(),
        },
    }
}

/// Builds the authored registry.
pub fn build_registry() -> (r: Registry)
    ensures
        r == spec_registry(),
{
    let support = SourceSupportDefinition {
        weak: 20,
        corroborating: 50,
        strong: 75,
        direct: 95,
        questionable: 20,
        mixed: 50,
        credible: 75,
        highly_reliable: 95,
        inadmissible: 0,
        unknown_admissibility: 50,
        disputed: 35,
        admissible: 90,
        hostile: 10,
        reluctant: 40,
        cooperative: 85,
    };
    Registry {
        legal: LegalConfigDefinition {
            minimum_arrest_qualifying_evidence: 2,
            maximum_detention: SimDuration(4320),
            witness_interview_attempt_limit: 3,
            informant_decision_delay: SimDuration(720),
            informant_base_flip_chance_percent: 25,
            informant_safety_bonus_percent: 50,
            represented_informant_reduction_percent: 25,
            cold_case_window: SimDuration(10080),
        },
        evidence_review: InvestigationWorkDefinition {
            duration: SimDuration(180),
            variance_limit: 10,
            connected_margin: 0,
            base_difficulty: 60,
            source_support_weight: 50,
            source_support: support,
        },
        witness_interview: InvestigationWorkDefinition {
            duration: SimDuration(120),
            variance_limit: 10,
            connected_margin: 0,
            base_difficulty: 60,
            source_support_weight: 50,
            source_support: support,
        },
    }
}

} // verus!
