//! What the user reads when something is refused.

use tk_store::domain::{
    BackendKind, DependencyRejection, ItemClass, MutationState, MutationType,
};
use tk_store::mutations::{
    AppendError, BackendBindingError, IllegalTransition, TransitionError,
};
use tk_store::payload::MalformedPayload;
use tk_store::promotion::{
    ApplyReceiptError, CancelPromotionError, CommitPlanError, ReadGraphError,
    RecoveryPromotionError, UnrepresentableDependency,
};
use tk_store::repository::create::CreateError;
use tk_store::repository::dependency::{AddDependencyError, RemoveDependencyError};
use tk_store::repository::detach::DetachError;
use tk_store::repository::next::NextError;
use tk_store::repository::plan::PlanError;
use tk_store::repository::selection::AcceptError;
use tk_store::repository::status::SetStatusError;
use tk_store::repository::update::UpdateError;
use tk_store::repository::work_state::SetWorkStateError;
use tk_store::repository::ResolveEpicError;
use tk_store::sequences::SequenceError;
use tk_store::sync::BackendCohortError;
use tk_store::tables::Fault;

#[test]
fn the_log_says_what_it_refuses() {
    assert_eq!(
        SequenceError::Missing("mutation_seq").message(),
        "sequence counter `mutation_seq` is missing from the store"
    );
    assert_eq!(
        AppendError::Sequence(SequenceError::Sqlite(Fault::Overflow)).message(),
        "integer overflow"
    );
    assert_eq!(
        TransitionError::Illegal(IllegalTransition::Edge {
            sequence: 12,
            from: MutationState::Applied,
            to: MutationState::Pending,
        })
        .message(),
        "mutation 12 cannot move from applied to pending"
    );
    assert_eq!(
        IllegalTransition::MissingEvidence { sequence: -3, to: MutationState::Failed }.message(),
        "moving mutation -3 to failed requires a Mutation Failure"
    );
    assert_eq!(
        BackendBindingError::CorruptBackendKind("t1".to_owned()).message(),
        "item t1 has backend Origin with no backend_kind"
    );
    assert_eq!(
        BackendBindingError::PayloadJson(MalformedPayload).message(),
        "malformed payload_json"
    );
}

#[test]
fn the_commands_say_what_they_refuse() {
    assert_eq!(
        CreateError::DisplayPrefixMissing.message(),
        "repository store is missing the display_prefix seed"
    );
    assert_eq!(UpdateError::NotFound.message(), "item not found");
    assert_eq!(SetStatusError::AlreadyClosed(ItemClass::Epic).message(), "item is already done");
    assert_eq!(
        SetWorkStateError::TriageNotStartable.message(),
        "triage Ticket cannot be started"
    );
    assert_eq!(AcceptError::PriorityRequired.message(), "triage Ticket needs a Priority");
    assert_eq!(
        AddDependencyError::BackendKindMismatch.message(),
        "backend endpoints from different backend kinds"
    );
    assert_eq!(
        RemoveDependencyError::EndpointMissing.message(),
        "endpoint missing in items table"
    );
    assert_eq!(
        PlanError::NotFound("x".to_owned()).message(),
        "'x' is not a known Display ID or Alias"
    );
    assert_eq!(
        PlanError::NotATicket("tk-2".to_owned()).message(),
        "'tk-2' is an Epic; only Tickets can belong to the Plan"
    );
    assert_eq!(NextError::Storage(Fault::Check).message(), "CHECK constraint failed");
    assert_eq!(ResolveEpicError::NotAnEpic.message(), "resolved Item is not an Epic");
    assert_eq!(
        DetachError::UnsupportedHistory.message(),
        "the Item is not an ordinarily adopted Backend Ticket"
    );
}

#[test]
fn a_promotion_says_why_it_stopped() {
    assert_eq!(ReadGraphError::Storage(Fault::NoRow).message(), "Query returned no rows");
    assert_eq!(
        CommitPlanError::RemoteChanged { expected: BackendKind::Github, actual: None }.message(),
        "Remote changed while preparing the Promotion; retry the command"
    );
    assert_eq!(
        CommitPlanError::BackendCohort(BackendCohortError::BackendKindMismatch {
            expected: BackendKind::Jira,
            retained: BackendKind::Github,
        })
        .message(),
        "the Remote is jira, but Items of github are retained"
    );
    assert_eq!(
        ApplyReceiptError::TargetNotLocal("t1".to_owned()).message(),
        "Promotion Mutation targets Item t1, which is not Local"
    );
    assert_eq!(
        RecoveryPromotionError::TerminalPromotion {
            item_id: "t1".to_owned(),
            sequence: 4,
            state: MutationState::Cancelled,
        }
        .message(),
        "Item t1 has terminal Promotion Mutation 4 in state cancelled"
    );
    assert_eq!(
        RecoveryPromotionError::MultipleNonterminalPromotions {
            item_id: "t1".to_owned(),
            first: 4,
            second: 15,
        }
        .message(),
        "Item t1 has multiple nonterminal Promotion Mutations (4 and 15)"
    );
    assert_eq!(
        RecoveryPromotionError::WrongMutationShape {
            sequence: 4,
            mutation_type: MutationType::PromoteEpic,
            item_class: ItemClass::Ticket,
        }
        .message(),
        "Promotion Mutation 4 has invalid type/class pair promote_epic/ticket"
    );
    let edge = |n: usize| UnrepresentableDependency {
        blocked_display_id: format!("gh-{n}"),
        blocking_display_id: format!("tk-{n}"),
        rejection: DependencyRejection::BackendBlockedLocalBlocking,
    };
    assert_eq!(
        CancelPromotionError::UnrepresentableDependencies((0..11).map(edge).collect()).message(),
        "11 Dependency edge(s) would become unrepresentable"
    );
    assert_eq!(
        CancelPromotionError::Recovery(Box::new(RecoveryPromotionError::NoRecoverablePromotion(
            "t1".to_owned()
        )))
        .message(),
        "Item t1 has no recoverable Promotion"
    );
    assert_eq!(
        CancelPromotionError::NothingToWithdraw("op".to_owned()).message(),
        "Promotion Operation op has no Promotion left to withdraw"
    );
}
