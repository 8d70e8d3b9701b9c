//! What the user reads when something is refused.

use vstd::prelude::*;

use crate::mutations::{AppendError, BackendBindingError, IllegalTransition, TransitionError};
use crate::promotion::{
    ApplyReceiptError, CancelPromotionError, CommitPlanError, ReadGraphError,
    RecoveryPromotionError,
};
use crate::repository::create::CreateError;
use crate::repository::dependency::{AddDependencyError, RemoveDependencyError};
use crate::repository::detach::DetachError;
use crate::repository::next::NextError;
use crate::repository::plan::PlanError;
use crate::repository::selection::AcceptError;
use crate::repository::status::SetStatusError;
use crate::repository::update::UpdateError;
use crate::repository::work_state::SetWorkStateError;
use crate::repository::ResolveEpicError;
use crate::sequences::SequenceError;
use crate::sync::BackendCohortError;
use crate::tables::Fault;
use crate::text::{decimal, decimal_nat, decimal_text, join2, nat_text};

verus! {

impl Fault {
    /// What the user reads.
    pub open spec fn said(&self) -> Seq<char> {
        match self {
            Fault::NoRow => "Query returned no rows"@,
            Fault::IdTaken => "UNIQUE constraint failed: items.id"@,
            Fault::DisplayIdTaken => "UNIQUE constraint failed: item_ids.value"@,
            Fault::BackendIdentityTaken => {
                "UNIQUE constraint failed: items.backend_kind, items.backend_key"@
            },
            Fault::SequenceTaken => "UNIQUE constraint failed: mutations.sequence"@,
            Fault::DependencyTaken => {
                "UNIQUE constraint failed: dependencies.blocking_id, dependencies.blocked_id"@
            },
            Fault::ForeignKey => "FOREIGN KEY constraint failed"@,
            Fault::Check => "CHECK constraint failed"@,
            Fault::Cycle => "dependency cycle"@,
            Fault::DoneIsTerminal => "done is terminal"@,
            Fault::Overflow => "integer overflow"@,
        }
    }

    /// What the user reads.
    pub fn message(&self) -> (r: String)
        ensures
            r@ == self.said(),
    {
        match self {
            Fault::NoRow => "Query returned no rows".to_owned(),
            Fault::IdTaken => "UNIQUE constraint failed: items.id".to_owned(),
            Fault::DisplayIdTaken => "UNIQUE constraint failed: item_ids.value".to_owned(),
            Fault::BackendIdentityTaken => {
                "UNIQUE constraint failed: items.backend_kind, items.backend_key".to_owned()
            },
            Fault::SequenceTaken => "UNIQUE constraint failed: mutations.sequence".to_owned(),
            Fault::DependencyTaken => {
                "UNIQUE constraint failed: dependencies.blocking_id, dependencies.blocked_id".to_owned()
            },
            Fault::ForeignKey => "FOREIGN KEY constraint failed".to_owned(),
            Fault::Check => "CHECK constraint failed".to_owned(),
            Fault::Cycle => "dependency cycle".to_owned(),
            Fault::DoneIsTerminal => "done is terminal".to_owned(),
            Fault::Overflow => "integer overflow".to_owned(),
        }
    }
}

impl SequenceError {
    /// What the user reads.
    pub open spec fn said(&self) -> Seq<char> {
        match self {
            SequenceError::Missing(name) => {
                "sequence counter `"@
                    + name@
                    + "` is missing from the store"@
            },
            SequenceError::Sqlite(fault) => fault.said(),
        }
    }

    /// What the user reads.
    pub fn message(&self) -> (r: String)
        ensures
            r@ == self.said(),
    {
        match self {
            SequenceError::Missing(name) => {
                let mut out = "sequence counter `".to_owned();
                out.append(name);
                out.append("` is missing from the store");
                out
            },
            SequenceError::Sqlite(fault) => fault.message(),
        }
    }
}

impl AppendError {
    /// What the user reads.
    pub open spec fn said(&self) -> Seq<char> {
        match self {
            AppendError::Sqlite(fault) => fault.said(),
            AppendError::Sequence(error) => error.said(),
        }
    }

    /// What the user reads.
    pub fn message(&self) -> (r: String)
        ensures
            r@ == self.said(),
    {
        match self {
            AppendError::Sqlite(fault) => fault.message(),
            AppendError::Sequence(error) => error.message(),
        }
    }
}

impl IllegalTransition {
    /// What the user reads.
    pub open spec fn said(&self) -> Seq<char> {
        match self {
            IllegalTransition::Edge { sequence, from, to } => {
                "mutation "@
                    + decimal(*sequence as int)
                    + " cannot move from "@
                    + from.name()
                    + " to "@
                    + to.name()
            },
            IllegalTransition::MissingEvidence { sequence, to } => {
                "moving mutation "@
                    + decimal(*sequence as int)
                    + " to "@
                    + to.name()
                    + " requires a Mutation Failure"@
            },
        }
    }

    /// What the user reads.
    pub fn message(&self) -> (r: String)
        ensures
            r@ == self.said(),
    {
        match self {
            IllegalTransition::Edge { sequence, from, to } => {
                let mut out = "mutation ".to_owned();
                let digits = decimal_text(*sequence);
                out.append(digits.as_str());
                out.append(" cannot move from ");
                out.append(from.text());
                out.append(" to ");
                out.append(to.text());
                out
            },
            IllegalTransition::MissingEvidence { sequence, to } => {
                let mut out = "moving mutation ".to_owned();
                let digits = decimal_text(*sequence);
                out.append(digits.as_str());
                out.append(" to ");
                out.append(to.text());
                out.append(" requires a Mutation Failure");
                out
            },
        }
    }
}

impl TransitionError {
    /// What the user reads.
    pub open spec fn said(&self) -> Seq<char> {
        match self {
            TransitionError::Storage(fault) => fault.said(),
            TransitionError::Illegal(error) => error.said(),
        }
    }

    /// What the user reads.
    pub fn message(&self) -> (r: String)
        ensures
            r@ == self.said(),
    {
        match self {
            TransitionError::Storage(fault) => fault.message(),
            TransitionError::Illegal(error) => error.message(),
        }
    }
}

impl BackendBindingError {
    /// What the user reads.
    pub open spec fn said(&self) -> Seq<char> {
        match self {
            BackendBindingError::Sqlite(fault) => fault.said(),
            BackendBindingError::PayloadJson(_) => "malformed payload_json"@,
            BackendBindingError::CorruptBackendKind(id) => {
                "item "@
                    + id@
                    + " has backend Origin with no backend_kind"@
            },
        }
    }

    /// What the user reads.
    pub fn message(&self) -> (r: String)
        ensures
            r@ == self.said(),
    {
        match self {
            BackendBindingError::Sqlite(fault) => fault.message(),
            BackendBindingError::PayloadJson(_) => "malformed payload_json".to_owned(),
            BackendBindingError::CorruptBackendKind(id) => {
                let mut out = "item ".to_owned();
                out.append(id.as_str());
                out.append(" has backend Origin with no backend_kind");
                out
            },
        }
    }
}

impl BackendCohortError {
    /// What the user reads.
    pub open spec fn said(&self) -> Seq<char> {
        match self {
            BackendCohortError::BackendKindMismatch { expected, retained } => {
                "the Remote is "@
                    + expected.name()
                    + ", but Items of "@
                    + retained.name()
                    + " are retained"@
            },
        }
    }

    /// What the user reads.
    pub fn message(&self) -> (r: String)
        ensures
            r@ == self.said(),
    {
        match self {
            BackendCohortError::BackendKindMismatch { expected, retained } => {
                let mut out = "the Remote is ".to_owned();
                out.append(expected.text());
                out.append(", but Items of ");
                out.append(retained.text());
                out.append(" are retained");
                out
            },
        }
    }
}

impl CreateError {
    /// What the user reads.
    pub open spec fn said(&self) -> Seq<char> {
        match self {
            CreateError::Sqlite(fault) => fault.said(),
            CreateError::Sequence(error) => error.said(),
            CreateError::DisplayPrefixMissing => {
                "repository store is missing the display_prefix seed"@
            },
        }
    }

    /// What the user reads.
    pub fn message(&self) -> (r: String)
        ensures
            r@ == self.said(),
    {
        match self {
            CreateError::Sqlite(fault) => fault.message(),
            CreateError::Sequence(error) => error.message(),
            CreateError::DisplayPrefixMissing => {
                "repository store is missing the display_prefix seed".to_owned()
            },
        }
    }
}

impl UpdateError {
    /// What the user reads.
    pub open spec fn said(&self) -> Seq<char> {
        match self {
            UpdateError::NotFound => "item not found"@,
            UpdateError::Sqlite(fault) => fault.said(),
            UpdateError::Mutation(error) => error.said(),
        }
    }

    /// What the user reads.
    pub fn message(&self) -> (r: String)
        ensures
            r@ == self.said(),
    {
        match self {
            UpdateError::NotFound => "item not found".to_owned(),
            UpdateError::Sqlite(fault) => fault.message(),
            UpdateError::Mutation(error) => error.message(),
        }
    }
}

impl SetStatusError {
    /// What the user reads.
    pub open spec fn said(&self) -> Seq<char> {
        match self {
            SetStatusError::NotFound => "item not found"@,
            SetStatusError::LockedDone(_) => "item is already done"@,
            SetStatusError::AlreadyClosed(_) => "item is already done"@,
            SetStatusError::TriageNotStartable => "triage Ticket cannot be started"@,
            SetStatusError::ParkedNotStartable => "parked Ticket cannot be started"@,
            SetStatusError::Sqlite(fault) => fault.said(),
            SetStatusError::BackendBinding(error) => error.said(),
            SetStatusError::Mutation(error) => error.said(),
        }
    }

    /// What the user reads.
    pub fn message(&self) -> (r: String)
        ensures
            r@ == self.said(),
    {
        match self {
            SetStatusError::NotFound => "item not found".to_owned(),
            SetStatusError::LockedDone(_) => "item is already done".to_owned(),
            SetStatusError::AlreadyClosed(_) => "item is already done".to_owned(),
            SetStatusError::TriageNotStartable => "triage Ticket cannot be started".to_owned(),
            SetStatusError::ParkedNotStartable => "parked Ticket cannot be started".to_owned(),
            SetStatusError::Sqlite(fault) => fault.message(),
            SetStatusError::BackendBinding(error) => error.message(),
            SetStatusError::Mutation(error) => error.message(),
        }
    }
}

impl SetWorkStateError {
    /// What the user reads.
    pub open spec fn said(&self) -> Seq<char> {
        match self {
            SetWorkStateError::NotFound => "item not found"@,
            SetWorkStateError::LockedDone(_) => "item is already done"@,
            SetWorkStateError::TriageNotStartable => "triage Ticket cannot be started"@,
            SetWorkStateError::ParkedNotStartable => "parked Ticket cannot be started"@,
        }
    }

    /// What the user reads.
    pub fn message(&self) -> (r: String)
        ensures
            r@ == self.said(),
    {
        match self {
            SetWorkStateError::NotFound => "item not found".to_owned(),
            SetWorkStateError::LockedDone(_) => "item is already done".to_owned(),
            SetWorkStateError::TriageNotStartable => "triage Ticket cannot be started".to_owned(),
            SetWorkStateError::ParkedNotStartable => "parked Ticket cannot be started".to_owned(),
        }
    }
}

impl AcceptError {
    /// What the user reads.
    pub open spec fn said(&self) -> Seq<char> {
        match self {
            AcceptError::NotFound => "item not found"@,
            AcceptError::NotATicket => "item is an Epic"@,
            AcceptError::PriorityRequired => "triage Ticket needs a Priority"@,
            AcceptError::PriorityOnAccepted => {
                "accepted Ticket cannot be reprioritized via accept"@
            },
            AcceptError::Parked => "Ticket is parked"@,
        }
    }

    /// What the user reads.
    pub fn message(&self) -> (r: String)
        ensures
            r@ == self.said(),
    {
        match self {
            AcceptError::NotFound => "item not found".to_owned(),
            AcceptError::NotATicket => "item is an Epic".to_owned(),
            AcceptError::PriorityRequired => "triage Ticket needs a Priority".to_owned(),
            AcceptError::PriorityOnAccepted => {
                "accepted Ticket cannot be reprioritized via accept".to_owned()
            },
            AcceptError::Parked => "Ticket is parked".to_owned(),
        }
    }
}

impl AddDependencyError {
    /// What the user reads.
    pub open spec fn said(&self) -> Seq<char> {
        match self {
            AddDependencyError::EndpointMissing => "endpoint missing in items table"@,
            AddDependencyError::BlockedDone => "blocked item is done"@,
            AddDependencyError::BlockingDone => "blocking item is done"@,
            AddDependencyError::Cycle => "dependency cycle"@,
            AddDependencyError::BackendBlockedLocalBlocking => {
                "backend blocked item cannot depend on a local blocking item"@
            },
            AddDependencyError::BackendKindMismatch => {
                "backend endpoints from different backend kinds"@
            },
            AddDependencyError::BackendBinding(error) => error.said(),
            AddDependencyError::Mutation(error) => error.said(),
        }
    }

    /// What the user reads.
    pub fn message(&self) -> (r: String)
        ensures
            r@ == self.said(),
    {
        match self {
            AddDependencyError::EndpointMissing => "endpoint missing in items table".to_owned(),
            AddDependencyError::BlockedDone => "blocked item is done".to_owned(),
            AddDependencyError::BlockingDone => "blocking item is done".to_owned(),
            AddDependencyError::Cycle => "dependency cycle".to_owned(),
            AddDependencyError::BackendBlockedLocalBlocking => {
                "backend blocked item cannot depend on a local blocking item".to_owned()
            },
            AddDependencyError::BackendKindMismatch => {
                "backend endpoints from different backend kinds".to_owned()
            },
            AddDependencyError::BackendBinding(error) => error.message(),
            AddDependencyError::Mutation(error) => error.message(),
        }
    }
}

impl RemoveDependencyError {
    /// What the user reads.
    pub open spec fn said(&self) -> Seq<char> {
        match self {
            RemoveDependencyError::EndpointMissing => "endpoint missing in items table"@,
            RemoveDependencyError::BackendBinding(error) => error.said(),
            RemoveDependencyError::Mutation(error) => error.said(),
        }
    }

    /// What the user reads.
    pub fn message(&self) -> (r: String)
        ensures
            r@ == self.said(),
    {
        match self {
            RemoveDependencyError::EndpointMissing => "endpoint missing in items table".to_owned(),
            RemoveDependencyError::BackendBinding(error) => error.message(),
            RemoveDependencyError::Mutation(error) => error.message(),
        }
    }
}

impl PlanError {
    /// What the user reads.
    pub open spec fn said(&self) -> Seq<char> {
        match self {
            PlanError::NotFound(id) => "'"@ + id@ + "' is not a known Display ID or Alias"@,
            PlanError::NotATicket(id) => {
                "'"@
                    + id@
                    + "' is an Epic; only Tickets can belong to the Plan"@
            },
        }
    }

    /// What the user reads.
    pub fn message(&self) -> (r: String)
        ensures
            r@ == self.said(),
    {
        match self {
            PlanError::NotFound(id) => {
                let mut out = "'".to_owned();
                out.append(id.as_str());
                out.append("' is not a known Display ID or Alias");
                out
            },
            PlanError::NotATicket(id) => {
                let mut out = "'".to_owned();
                out.append(id.as_str());
                out.append("' is an Epic; only Tickets can belong to the Plan");
                out
            },
        }
    }
}

impl NextError {
    /// What the user reads.
    pub open spec fn said(&self) -> Seq<char> {
        match self {
            NextError::Storage(fault) => fault.said(),
        }
    }

    /// What the user reads.
    pub fn message(&self) -> (r: String)
        ensures
            r@ == self.said(),
    {
        match self {
            NextError::Storage(fault) => fault.message(),
        }
    }
}

impl ResolveEpicError {
    /// What the user reads.
    pub open spec fn said(&self) -> Seq<char> {
        match self {
            ResolveEpicError::NotFound => "Display ID or Alias not found"@,
            ResolveEpicError::NotAnEpic => "resolved Item is not an Epic"@,
        }
    }

    /// What the user reads.
    pub fn message(&self) -> (r: String)
        ensures
            r@ == self.said(),
    {
        match self {
            ResolveEpicError::NotFound => "Display ID or Alias not found".to_owned(),
            ResolveEpicError::NotAnEpic => "resolved Item is not an Epic".to_owned(),
        }
    }
}

impl DetachError {
    /// What the user reads.
    pub open spec fn said(&self) -> Seq<char> {
        match self {
            DetachError::NotFound => "Display ID or Alias not found"@,
            DetachError::Local => "the Item is already local"@,
            DetachError::PendingPromotion => "the Item is a Pending Promotion"@,
            DetachError::UnsupportedHistory => {
                "the Item is not an ordinarily adopted Backend Ticket"@
            },
            DetachError::UnresolvedMutations => "the Item has unresolved Mutations"@,
            DetachError::BackendBlockedByDetached { .. } => {
                "a Backend-bound Blocked Item would wait on the detached Local Ticket"@
            },
            DetachError::DisplayPrefixMissing => {
                "repository store is missing the display_prefix seed"@
            },
            DetachError::BackendBinding(error) => error.said(),
            DetachError::Sequence(error) => error.said(),
            DetachError::Storage(fault) => fault.said(),
        }
    }

    /// What the user reads.
    pub fn message(&self) -> (r: String)
        ensures
            r@ == self.said(),
    {
        match self {
            DetachError::NotFound => "Display ID or Alias not found".to_owned(),
            DetachError::Local => "the Item is already local".to_owned(),
            DetachError::PendingPromotion => "the Item is a Pending Promotion".to_owned(),
            DetachError::UnsupportedHistory => {
                "the Item is not an ordinarily adopted Backend Ticket".to_owned()
            },
            DetachError::UnresolvedMutations => "the Item has unresolved Mutations".to_owned(),
            DetachError::BackendBlockedByDetached { .. } => {
                "a Backend-bound Blocked Item would wait on the detached Local Ticket".to_owned()
            },
            DetachError::DisplayPrefixMissing => {
                "repository store is missing the display_prefix seed".to_owned()
            },
            DetachError::BackendBinding(error) => error.message(),
            DetachError::Sequence(error) => error.message(),
            DetachError::Storage(fault) => fault.message(),
        }
    }
}

impl ReadGraphError {
    /// What the user reads.
    pub open spec fn said(&self) -> Seq<char> {
        match self {
            ReadGraphError::Storage(fault) => fault.said(),
            ReadGraphError::BackendBinding(error) => error.said(),
        }
    }

    /// What the user reads.
    pub fn message(&self) -> (r: String)
        ensures
            r@ == self.said(),
    {
        match self {
            ReadGraphError::Storage(fault) => fault.message(),
            ReadGraphError::BackendBinding(error) => error.message(),
        }
    }
}

impl CommitPlanError {
    /// What the user reads.
    pub open spec fn said(&self) -> Seq<char> {
        match self {
            CommitPlanError::Append(error) => error.said(),
            CommitPlanError::BackendCohort(error) => error.said(),
            CommitPlanError::RemoteChanged { .. } => {
                "Remote changed while preparing the Promotion; retry the command"@
            },
        }
    }

    /// What the user reads.
    pub fn message(&self) -> (r: String)
        ensures
            r@ == self.said(),
    {
        match self {
            CommitPlanError::Append(error) => error.message(),
            CommitPlanError::BackendCohort(error) => error.message(),
            CommitPlanError::RemoteChanged { .. } => {
                "Remote changed while preparing the Promotion; retry the command".to_owned()
            },
        }
    }
}

impl ApplyReceiptError {
    /// What the user reads.
    pub open spec fn said(&self) -> Seq<char> {
        match self {
            ApplyReceiptError::Storage(fault) => fault.said(),
            ApplyReceiptError::ItemNotFound(id) => {
                "Promotion Mutation targets Item "@
                    + id@
                    + ", which no longer exists"@
            },
            ApplyReceiptError::TargetNotLocal(id) => {
                "Promotion Mutation targets Item "@
                    + id@
                    + ", which is not Local"@
            },
        }
    }

    /// What the user reads.
    pub fn message(&self) -> (r: String)
        ensures
            r@ == self.said(),
    {
        match self {
            ApplyReceiptError::Storage(fault) => fault.message(),
            ApplyReceiptError::ItemNotFound(id) => {
                let mut out = "Promotion Mutation targets Item ".to_owned();
                out.append(id.as_str());
                out.append(", which no longer exists");
                out
            },
            ApplyReceiptError::TargetNotLocal(id) => {
                let mut out = "Promotion Mutation targets Item ".to_owned();
                out.append(id.as_str());
                out.append(", which is not Local");
                out
            },
        }
    }
}

impl RecoveryPromotionError {
    /// What the user reads.
    pub open spec fn said(&self) -> Seq<char> {
        match self {
            RecoveryPromotionError::Storage(fault) => fault.said(),
            RecoveryPromotionError::NoRecoverablePromotion(id) => {
                "Item "@
                    + id@
                    + " has no recoverable Promotion"@
            },
            RecoveryPromotionError::TerminalPromotion { item_id, sequence, state } => {
                "Item "@
                    + item_id@
                    + " has terminal Promotion Mutation "@
                    + decimal(*sequence as int)
                    + " in state "@
                    + state.name()
            },
            RecoveryPromotionError::MultipleNonterminalPromotions { item_id, first, second } => {
                "Item "@
                    + item_id@
                    + " has multiple nonterminal Promotion Mutations ("@
                    + decimal(*first as int)
                    + " and "@
                    + decimal(*second as int)
                    + ")"@
            },
            RecoveryPromotionError::MalformedPayload { sequence } => {
                "Promotion Mutation "@
                    + decimal(*sequence as int)
                    + " has malformed payload_json"@
            },
            RecoveryPromotionError::MalformedBackendKind { sequence, backend_kind } => {
                "Promotion Mutation "@
                    + decimal(*sequence as int)
                    + " has malformed Backend kind '"@
                    + backend_kind@
                    + "'"@
            },
            RecoveryPromotionError::MissingOperationId(sequence) => {
                "Promotion Mutation "@
                    + decimal(*sequence as int)
                    + " has no Promotion Operation ID"@
            },
            RecoveryPromotionError::WrongMutationShape { sequence, mutation_type, item_class } => {
                "Promotion Mutation "@
                    + decimal(*sequence as int)
                    + " has invalid type/class pair "@
                    + mutation_type.name()
                    + "/"@
                    + item_class.name()
            },
            RecoveryPromotionError::TargetNotLocal { sequence } => {
                "Promotion Mutation "@
                    + decimal(*sequence as int)
                    + " no longer targets a Local Item"@
            },
            RecoveryPromotionError::BackendIdentityTaken { display_id } => {
                "Backend object "@
                    + display_id@
                    + " is already tracked by tk"@
            },
            RecoveryPromotionError::RetryNotApplying { sequence, state } => {
                "Promotion Mutation "@
                    + decimal(*sequence as int)
                    + " is in state "@
                    + state.name()
                    + ", not applying"@
            },
            RecoveryPromotionError::RemoteChanged { .. } => {
                "Remote changed while recovering the Promotion; retry the command"@
            },
            RecoveryPromotionError::BackendCohort(error) => error.said(),
            RecoveryPromotionError::EarlierNonterminal { sequence, state } => {
                "Mutation "@
                    + decimal(*sequence as int)
                    + " in state "@
                    + state.name()
                    + " must resolve before this Promotion"@
            },
            RecoveryPromotionError::Receipt(error) => error.said(),
            RecoveryPromotionError::Append(error) => error.said(),
            RecoveryPromotionError::Transition(error) => error.said(),
        }
    }

    /// What the user reads.
    pub fn message(&self) -> (r: String)
        ensures
            r@ == self.said(),
    {
        match self {
            RecoveryPromotionError::Storage(fault) => fault.message(),
            RecoveryPromotionError::NoRecoverablePromotion(id) => {
                let mut out = "Item ".to_owned();
                out.append(id.as_str());
                out.append(" has no recoverable Promotion");
                out
            },
            RecoveryPromotionError::TerminalPromotion { item_id, sequence, state } => {
                let mut out = "Item ".to_owned();
                out.append(item_id.as_str());
                out.append(" has terminal Promotion Mutation ");
                let digits = decimal_text(*sequence);
                out.append(digits.as_str());
                out.append(" in state ");
                out.append(state.text());
                out
            },
            RecoveryPromotionError::MultipleNonterminalPromotions { item_id, first, second } => {
                let mut out = "Item ".to_owned();
                out.append(item_id.as_str());
                out.append(" has multiple nonterminal Promotion Mutations (");
                let digits = decimal_text(*first);
                out.append(digits.as_str());
                out.append(" and ");
                let digits = decimal_text(*second);
                out.append(digits.as_str());
                out.append(")");
                out
            },
            RecoveryPromotionError::MalformedPayload { sequence } => {
                let mut out = "Promotion Mutation ".to_owned();
                let digits = decimal_text(*sequence);
                out.append(digits.as_str());
                out.append(" has malformed payload_json");
                out
            },
            RecoveryPromotionError::MalformedBackendKind { sequence, backend_kind } => {
                let mut out = "Promotion Mutation ".to_owned();
                let digits = decimal_text(*sequence);
                out.append(digits.as_str());
                out.append(" has malformed Backend kind '");
                out.append(backend_kind.as_str());
                out.append("'");
                out
            },
            RecoveryPromotionError::MissingOperationId(sequence) => {
                let mut out = "Promotion Mutation ".to_owned();
                let digits = decimal_text(*sequence);
                out.append(digits.as_str());
                out.append(" has no Promotion Operation ID");
                out
            },
            RecoveryPromotionError::WrongMutationShape { sequence, mutation_type, item_class } => {
                let mut out = "Promotion Mutation ".to_owned();
                let digits = decimal_text(*sequence);
                out.append(digits.as_str());
                out.append(" has invalid type/class pair ");
                out.append(mutation_type.text());
                out.append("/");
                out.append(item_class.text());
                out
            },
            RecoveryPromotionError::TargetNotLocal { sequence } => {
                let mut out = "Promotion Mutation ".to_owned();
                let digits = decimal_text(*sequence);
                out.append(digits.as_str());
                out.append(" no longer targets a Local Item");
                out
            },
            RecoveryPromotionError::BackendIdentityTaken { display_id } => {
                let mut out = "Backend object ".to_owned();
                out.append(display_id.as_str());
                out.append(" is already tracked by tk");
                out
            },
            RecoveryPromotionError::RetryNotApplying { sequence, state } => {
                let mut out = "Promotion Mutation ".to_owned();
                let digits = decimal_text(*sequence);
                out.append(digits.as_str());
                out.append(" is in state ");
                out.append(state.text());
                out.append(", not applying");
                out
            },
            RecoveryPromotionError::RemoteChanged { .. } => {
                "Remote changed while recovering the Promotion; retry the command".to_owned()
            },
            RecoveryPromotionError::BackendCohort(error) => error.message(),
            RecoveryPromotionError::EarlierNonterminal { sequence, state } => {
                let mut out = "Mutation ".to_owned();
                let digits = decimal_text(*sequence);
                out.append(digits.as_str());
                out.append(" in state ");
                out.append(state.text());
                out.append(" must resolve before this Promotion");
                out
            },
            RecoveryPromotionError::Receipt(error) => error.message(),
            RecoveryPromotionError::Append(error) => error.message(),
            RecoveryPromotionError::Transition(error) => error.message(),
        }
    }
}

impl CancelPromotionError {
    /// What the user reads.
    pub open spec fn said(&self) -> Seq<char> {
        match self {
            CancelPromotionError::Storage(fault) => fault.said(),
            CancelPromotionError::Recovery(error) => error.said(),
            CancelPromotionError::UnrepresentableDependencies(edges) => {
                decimal_nat(edges@.len())
                    + " Dependency edge(s) would become unrepresentable"@
            },
            CancelPromotionError::NothingToWithdraw(operation) => {
                "Promotion Operation "@
                    + operation@
                    + " has no Promotion left to withdraw"@
            },
            CancelPromotionError::MalformedPayload { sequence } => {
                "malformed payload_json on mutation "@
                    + decimal(*sequence as int)
            },
            CancelPromotionError::BackendBinding(error) => error.said(),
            CancelPromotionError::Transition(error) => error.said(),
        }
    }

    /// What the user reads.
    pub fn message(&self) -> (r: String)
        ensures
            r@ == self.said(),
    {
        match self {
            CancelPromotionError::Storage(fault) => fault.message(),
            CancelPromotionError::Recovery(error) => error.message(),
            CancelPromotionError::UnrepresentableDependencies(edges) => {
                let digits = nat_text(edges.len());
                join2(digits.as_str(), " Dependency edge(s) would become unrepresentable")
            },
            CancelPromotionError::NothingToWithdraw(operation) => {
                let mut out = "Promotion Operation ".to_owned();
                out.append(operation.as_str());
                out.append(" has no Promotion left to withdraw");
                out
            },
            CancelPromotionError::MalformedPayload { sequence } => {
                let mut out = "malformed payload_json on mutation ".to_owned();
                let digits = decimal_text(*sequence);
                out.append(digits.as_str());
                out
            },
            CancelPromotionError::BackendBinding(error) => error.message(),
            CancelPromotionError::Transition(error) => error.message(),
        }
    }
}

} // verus!
