//! Promotion of Local Items to a Backend: the graph a request is judged over,
//! the commit of a plan to the outbox, the receipt that converts an Item, and
//! the recovery of a Promotion whose outcome is not settled.

pub mod cancel;
pub mod commit;
pub mod graph;
pub mod receipt;
pub mod recovery;
pub mod report;

pub use cancel::{
    cancel_promotion, CancelPromotionError, CancellationReport, ReportedPromotion,
    UnrepresentableDependency, WithdrawnMutation,
};
pub use commit::{commit_operation, commit_plan, CommitPlanError, MutationDraft, PromotionPlan};
pub use graph::{read_graph, GraphDependency, GraphItem, PromotionGraph, ReadGraphError};
pub use receipt::{apply_receipt, ApplyReceiptError, BackendItemIdentity};
pub use recovery::{
    capture_recovery_mappings, ensure_no_earlier_nonterminal, reconcile_promotion,
    recoverable_promotion, retry_promotion, RecoveryPromotion, RecoveryPromotionError,
    RecoveryPromotionMapping,
};
pub use report::{
    abandoned_promotions, earliest_applicable_mutation, unresolved_in_operation,
    AbandonedPromotion, MutationSummary,
};
