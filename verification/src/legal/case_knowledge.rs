//! Investigator-held knowledge of a case: the lead personally knows whether the case is being
//! worked, shelved or closed, and which witnesses it has registered. The knowledge is ordinary
//! provenance-bearing information held by the lead, so it reaches others only through the
//! canonical intelligence paths.

use vstd::prelude::*;
use crate::base::{CharacterId, EntityRef, InvestigationId};
use crate::intelligence::intelligence_system::{
    history_matches, validate_record_information_with_signal, InformationDraft,
    IntelligenceError, ValidatedInformation,
};
use crate::intelligence::{
    CaseActivitySignal, InformationSignal, InformationSourceKind,
    InformationTopic, KnowledgeHolder, LegalPersonStatusSignal, Reliability, SignalView,
    Specificity,
};
use crate::legal::{InvestigationRecord, InvestigationStatus};
use crate::state::AppState;
use crate::text::{spec_is_blank, spec_is_whitespace};
use vstd::string::StringExecFns;
use crate::world::OrganizationKind;

verus! {

/// The activity a lead reports for a case in `status`.
pub open spec fn spec_activity_for_status(status: InvestigationStatus) -> CaseActivitySignal {
    match status {
        InvestigationStatus::Active => CaseActivitySignal::Active,
        InvestigationStatus::Suspended => CaseActivitySignal::Shelved,
        InvestigationStatus::Closed => CaseActivitySignal::Closed,
    }
}

pub fn activity_for_status(status: InvestigationStatus) -> (r: CaseActivitySignal)
    ensures
        r == spec_activity_for_status(status),
{
    match status {
        InvestigationStatus::Active => CaseActivitySignal::Active,
        InvestigationStatus::Suspended => CaseActivitySignal::Shelved,
        InvestigationStatus::Closed => CaseActivitySignal::Closed,
    }
}

/// The opening phrase shared by every case-activity summary.
pub open spec fn activity_prefix(activity: CaseActivitySignal) -> Seq<char> {
    match activity {
        CaseActivitySignal::Active => "Case activity: actively developing. "@,
        CaseActivitySignal::Shelved => "Case activity: shelved. "@,
        CaseActivitySignal::Closed => "Case activity: has closed. "@,
    }
}

/// The phrase between the authority's name and the case title.
pub open spec fn activity_middle(activity: CaseActivitySignal) -> Seq<char> {
    match activity {
        CaseActivitySignal::Active => " detectives are still working the case \""@,
        CaseActivitySignal::Shelved => " has already shelved the case \""@,
        CaseActivitySignal::Closed => " has closed the case \""@,
    }
}

/// The presentation text of a case-activity fact.
pub open spec fn activity_summary(activity: CaseActivitySignal, authority: Seq<char>, title: Seq<char>) -> Seq<char> {
    activity_prefix(activity) + authority + activity_middle(activity) + title + "\"."@
}

/// The presentation text of a case-witness fact.
pub open spec fn witness_summary(witness: Seq<char>, title: Seq<char>) -> Seq<char> {
    "Case witness identified: "@ + witness + " is registered in case \""@ + title + "\"."@
}

proof fn lemma_leading_letter_not_blank(s: Seq<char>, head: Seq<char>)
    requires
        head.len() > 0,
        !spec_is_whitespace(head[0]),
        s.len() >= head.len(),
        s.subrange(0, head.len() as int) == head,
    ensures
        !spec_is_blank(s),
{
    assert(s[0] == s.subrange(0, head.len() as int)[0]);
}

fn case_activity_summary(activity: CaseActivitySignal, authority: &str, title: &str) -> (r: String)
    ensures
        r@ == activity_summary(activity, authority@, title@),
        !spec_is_blank(r@),
{
    let mut text = String::new();
    let (prefix, middle) = match activity {
        CaseActivitySignal::Active => (
            "Case activity: actively developing. ",
            " detectives are still working the case \"",
        ),
        CaseActivitySignal::Shelved => (
            "Case activity: shelved. ",
            " has already shelved the case \"",
        ),
        CaseActivitySignal::Closed => ("Case activity: has closed. ", " has closed the case \""),
    };
    proof {
        reveal_strlit("Case activity: actively developing. ");
        reveal_strlit("Case activity: shelved. ");
        reveal_strlit("Case activity: has closed. ");
    }
    assert(prefix@ == activity_prefix(activity));
    assert(middle@ == activity_middle(activity));
    text.append(prefix);
    text.append(authority);
    text.append(middle);
    text.append(title);
    text.append("\".");
    proof {
        let s = text@;
        assert(s == activity_summary(activity, authority@, title@)) by {
            assert(Seq::<char>::empty() + prefix@ == prefix@);
        }
        assert(s.subrange(0, prefix@.len() as int) =~= prefix@);
        lemma_leading_letter_not_blank(s, prefix@);
    }
    text
}

fn case_witness_summary(witness: &str, title: &str) -> (r: String)
    ensures
        r@ == witness_summary(witness@, title@),
        !spec_is_blank(r@),
{
    let mut text = String::new();
    let head = "Case witness identified: ";
    proof {
        reveal_strlit("Case witness identified: ");
    }
    text.append(head);
    text.append(witness);
    text.append(" is registered in case \"");
    text.append(title);
    text.append("\".");
    proof {
        let s = text@;
        assert(Seq::<char>::empty() + head@ == head@);
        assert(s.subrange(0, head@.len() as int) =~= head@);
        lemma_leading_letter_not_blank(s, head@);
    }
    text
}

/// What a case-activity fact is about: the operation or enterprise whose exposure opened the
/// file, else the file itself.
pub open spec fn activity_subject(rec: InvestigationRecord, investigation: InvestigationId) -> EntityRef {
    match rec.origin {
        Some(o) => o,
        None => EntityRef::Investigation(investigation),
    }
}

/// The case's authority is a police institution, whose detectives keep such knowledge.
pub open spec fn police_case(state: AppState, investigation: InvestigationId) -> bool {
    state.world.spec_kind(state.legal.spec_investigation(investigation)->0.owner) == Some(
        OrganizationKind::LawEnforcement,
    )
}

/// Whether `t` records the lead's first-hand knowledge of the case's activity now.
pub open spec fn is_activity_token(t: ValidatedInformation, state: AppState, investigation: InvestigationId, activity: CaseActivitySignal, lead: CharacterId) -> bool {
    let rec = state.legal.spec_investigation(investigation)->0;
    let d = t.spec_draft();
    &&& d.holder == KnowledgeHolder::Character(lead)
    &&& d.source_kind == InformationSourceKind::DirectObservation
    &&& d.topic == InformationTopic::LegalActivity
    &&& d.source_entity == Some(EntityRef::Organization(rec.owner))
    &&& d.subject == activity_subject(rec, investigation)
    &&& d.observed_at == state.now
    &&& d.reliability == Reliability::DirectAccess
    &&& d.specificity == Specificity::Specific
    &&& d.summary@ == activity_summary(
        activity,
        state.world.spec_organization(rec.owner)->0.name@,
        rec.title@,
    )
    &&& t.signal_view() == Some(SignalView::CaseActivity(activity))
    &&& t.spec_derived_from() is None
}

/// Whether `t` records the lead's first-hand knowledge that `witness` is registered in the case.
pub open spec fn is_witness_token(t: ValidatedInformation, state: AppState, investigation: InvestigationId, witness: CharacterId, lead: CharacterId) -> bool {
    let rec = state.legal.spec_investigation(investigation)->0;
    let d = t.spec_draft();
    &&& d.holder == KnowledgeHolder::Character(lead)
    &&& d.source_kind == InformationSourceKind::DirectObservation
    &&& d.topic == InformationTopic::LegalActivity
    &&& d.source_entity == Some(EntityRef::Organization(rec.owner))
    &&& d.subject == EntityRef::Character(witness)
    &&& d.observed_at == state.now
    &&& d.reliability == Reliability::DirectAccess
    &&& d.specificity == Specificity::Precise
    &&& d.summary@ == witness_summary(state.world.spec_character(witness)->0.name@, rec.title@)
    &&& t.signal_view() == Some(
        SignalView::LegalPersonStatus(LegalPersonStatusSignal::CaseWitness { investigation }),
    )
    &&& t.spec_derived_from() is None
}

/// Builds, without committing, the lead's refreshed knowledge of a case's activity. Cases of a
/// non-police authority produce none.
pub fn prepare_case_activity_knowledge(state: &AppState, investigation: InvestigationId, activity: CaseActivitySignal, lead: CharacterId) -> (r: Result<Option<ValidatedInformation>, IntelligenceError>)
    requires
        state.legal.spec_investigation(investigation) is Some,
        state.world.organization_present(state.legal.spec_investigation(investigation)->0.owner),
    ensures
        !police_case(*state, investigation) ==> r matches Ok(None),
        police_case(*state, investigation) ==> {
            let subject = activity_subject(state.legal.spec_investigation(investigation)->0, investigation);
            if !state.world.character_present(lead) {
                r matches Err(e) && e == IntelligenceError::MissingCharacter(lead)
            } else if !state.entity_present(subject) {
                r matches Err(e) && e == IntelligenceError::MissingEntity(subject)
            } else if !SignalView::CaseActivity(activity).compatible(InformationTopic::LegalActivity, subject) {
                r is Err
            } else {
                r matches Ok(Some(t)) && is_activity_token(t, *state, investigation, activity, lead)
            }
        },
{
    let record = match state.legal.get_investigation(investigation) {
        Some(rec) => rec,
        None => {
            return Ok(None);
        },
    };
    let owner = record.owner;
    let organization = match state.world.get_organization(owner) {
        Some(o) => o,
        None => {
            return Ok(None);
        },
    };
    if organization.kind != OrganizationKind::LawEnforcement {
        return Ok(None);
    }
    let subject = match record.origin {
        Some(o) => o,
        None => EntityRef::Investigation(investigation),
    };
    let summary = case_activity_summary(activity, organization.name.as_str(), record.title.as_str());
    let draft = InformationDraft {
        holder: KnowledgeHolder::Character(lead),
        source_kind: InformationSourceKind::DirectObservation,
        topic: InformationTopic::LegalActivity,
        source_entity: Some(EntityRef::Organization(owner)),
        subject,
        observed_at: state.now,
        reliability: Reliability::DirectAccess,
        specificity: Specificity::Specific,
        summary,
    };
    let t = validate_record_information_with_signal(state, draft, InformationSignal::CaseActivity(activity))?;
    Ok(Some(t))
}

/// Builds, without committing, the lead's first-hand knowledge that `witness` is a registered
/// witness of the case. Cases of a non-police authority produce none.
pub fn prepare_case_witness_knowledge(state: &AppState, investigation: InvestigationId, witness: CharacterId, lead: CharacterId) -> (r: Result<Option<ValidatedInformation>, IntelligenceError>)
    requires
        state.legal.spec_investigation(investigation) is Some,
        state.world.organization_present(state.legal.spec_investigation(investigation)->0.owner),
        state.world.character_present(witness),
    ensures
        !police_case(*state, investigation) ==> r matches Ok(None),
        police_case(*state, investigation) ==> {
            if !state.world.character_present(lead) {
                r matches Err(e) && e == IntelligenceError::MissingCharacter(lead)
            } else if !history_matches(
                *state,
                EntityRef::Character(witness),
                state.now,
                SignalView::LegalPersonStatus(LegalPersonStatusSignal::CaseWitness { investigation }),
            ) {
                r is Err
            } else {
                r matches Ok(Some(t)) && is_witness_token(t, *state, investigation, witness, lead)
            }
        },
{
    let record = match state.legal.get_investigation(investigation) {
        Some(rec) => rec,
        None => {
            return Ok(None);
        },
    };
    let owner = record.owner;
    let organization = match state.world.get_organization(owner) {
        Some(o) => o,
        None => {
            return Ok(None);
        },
    };
    if organization.kind != OrganizationKind::LawEnforcement {
        return Ok(None);
    }
    let witness_record = match state.world.get_character(witness) {
        Some(c) => c,
        None => {
            return Ok(None);
        },
    };
    let summary = case_witness_summary(witness_record.name.as_str(), record.title.as_str());
    let draft = InformationDraft {
        holder: KnowledgeHolder::Character(lead),
        source_kind: InformationSourceKind::DirectObservation,
        topic: InformationTopic::LegalActivity,
        source_entity: Some(EntityRef::Organization(owner)),
        subject: EntityRef::Character(witness),
        observed_at: state.now,
        reliability: Reliability::DirectAccess,
        specificity: Specificity::Precise,
        summary,
    };
    proof {
        let refs = SignalView::LegalPersonStatus(
            LegalPersonStatusSignal::CaseWitness { investigation },
        ).referenced();
        assert(refs =~= seq![EntityRef::Investigation(investigation)]);
        crate::seqs::lemma_first_index_none(refs, crate::intelligence::intelligence_system::missing_in(*state));
    }
    let t = validate_record_information_with_signal(
        state,
        draft,
        InformationSignal::LegalPersonStatus(LegalPersonStatusSignal::CaseWitness { investigation }),
    )?;
    Ok(Some(t))
}

} // verus!
