//! The rows of the store's tables, each with its model.

use vstd::prelude::*;

use crate::domain::{
    ItemClass, ItemStatus, Lifecycle, MutationState, MutationType, Origin, Priority,
    SelectionState, TicketKind, WorkState,
};

verus! {

/// The characters of an optional text.
pub open spec fn opt_text(text: Option<String>) -> Option<Seq<char>> {
    match text {
        Some(text) => Some(text@),
        None => None,
    }
}

/// The characters of an optional borrowed text.
pub open spec fn opt_str(text: Option<&str>) -> Option<Seq<char>> {
    match text {
        Some(text) => Some(text@),
        None => None,
    }
}

/// A copy of an optional text.
pub fn copy_text(text: &Option<String>) -> (r: Option<String>)
    ensures
        opt_text(r) == opt_text(*text),
{
    match text {
        Some(text) => Some(text.clone()),
        None => None,
    }
}

/// An optional borrowed text as an owned one.
pub fn own_text(text: Option<&str>) -> (r: Option<String>)
    ensures
        opt_text(r) == opt_str(text),
{
    match text {
        Some(text) => Some(text.to_owned()),
        None => None,
    }
}

/// Whether an optional text is there and holds the given characters.
pub fn text_is(text: &Option<String>, expected: &str) -> (r: bool)
    ensures
        r == (opt_text(*text) == Some(expected@)),
{
    match text {
        Some(text) => crate::text::same_text(text.as_str(), expected),
        None => false,
    }
}

/// A Ticket or Epic in its current state.
#[derive(Debug, PartialEq, Eq)]
pub struct Item {
    /// The stable internal ID, unaffected by Display ID changes.
    pub id: String,
    /// The current Display ID.
    pub display_id: String,
    /// When the Item took its current Display ID.
    pub display_created_at: String,
    pub item_class: ItemClass,
    pub ticket_kind: Option<TicketKind>,
    pub priority: Option<Priority>,
    pub selection_state: Option<SelectionState>,
    pub title: String,
    pub body: String,
    pub closing_reason: Option<String>,
    pub lifecycle: Lifecycle,
    pub work_state: WorkState,
    /// The stable internal ID of the containing Epic.
    pub container_id: Option<String>,
    pub origin: Origin,
    pub backend_kind: Option<String>,
    pub backend_key: Option<String>,
    /// The Local Display ID that the Backend's displaced, where it is on record.
    pub local_display_id: Option<String>,
    /// The place of the Item in creation order.
    pub created_seq: i64,
    pub created_at: String,
    pub updated_at: String,
}

/// The model of [`Item`].
#[verifier::ext_equal]
pub struct ItemView {
    pub id: Seq<char>,
    pub display_id: Seq<char>,
    pub display_created_at: Seq<char>,
    pub item_class: ItemClass,
    pub ticket_kind: Option<TicketKind>,
    pub priority: Option<Priority>,
    pub selection_state: Option<SelectionState>,
    pub title: Seq<char>,
    pub body: Seq<char>,
    pub closing_reason: Option<Seq<char>>,
    pub lifecycle: Lifecycle,
    pub work_state: WorkState,
    pub container_id: Option<Seq<char>>,
    pub origin: Origin,
    pub backend_kind: Option<Seq<char>>,
    pub backend_key: Option<Seq<char>>,
    pub local_display_id: Option<Seq<char>>,
    pub created_seq: int,
    pub created_at: Seq<char>,
    pub updated_at: Seq<char>,
}

impl View for Item {
    type V = ItemView;

    open spec fn view(&self) -> ItemView {
        ItemView {
            id: self.id@,
            display_id: self.display_id@,
            display_created_at: self.display_created_at@,
            item_class: self.item_class,
            ticket_kind: self.ticket_kind,
            priority: self.priority,
            selection_state: self.selection_state,
            title: self.title@,
            body: self.body@,
            closing_reason: opt_text(self.closing_reason),
            lifecycle: self.lifecycle,
            work_state: self.work_state,
            container_id: opt_text(self.container_id),
            origin: self.origin,
            backend_kind: opt_text(self.backend_kind),
            backend_key: opt_text(self.backend_key),
            local_display_id: opt_text(self.local_display_id),
            created_seq: self.created_seq as int,
            created_at: self.created_at@,
            updated_at: self.updated_at@,
        }
    }
}

impl Item {
    /// A copy of the row.
    pub fn copy(&self) -> (r: Item)
        ensures
            r@ == self@,
    {
        Item {
            id: self.id.clone(),
            display_id: self.display_id.clone(),
            display_created_at: self.display_created_at.clone(),
            item_class: self.item_class,
            ticket_kind: self.ticket_kind,
            priority: self.priority,
            selection_state: self.selection_state,
            title: self.title.clone(),
            body: self.body.clone(),
            closing_reason: copy_text(&self.closing_reason),
            lifecycle: self.lifecycle,
            work_state: self.work_state,
            container_id: copy_text(&self.container_id),
            origin: self.origin,
            backend_kind: copy_text(&self.backend_kind),
            backend_key: copy_text(&self.backend_key),
            local_display_id: copy_text(&self.local_display_id),
            created_seq: self.created_seq,
            created_at: self.created_at.clone(),
            updated_at: self.updated_at.clone(),
        }
    }
}

/// A former Display ID that still resolves to its Item.
#[derive(Debug, PartialEq, Eq)]
pub struct Alias {
    pub value: String,
    pub item_id: String,
    pub created_at: String,
}

/// The model of [`Alias`].
#[verifier::ext_equal]
pub struct AliasView {
    pub value: Seq<char>,
    pub item_id: Seq<char>,
    pub created_at: Seq<char>,
}

impl View for Alias {
    type V = AliasView;

    open spec fn view(&self) -> AliasView {
        AliasView {
            value: self.value@,
            item_id: self.item_id@,
            created_at: self.created_at@,
        }
    }
}

impl Alias {
    /// A copy of the row.
    pub fn copy(&self) -> (r: Alias)
        ensures
            r@ == self@,
    {
        Alias {
            value: self.value.clone(),
            item_id: self.item_id.clone(),
            created_at: self.created_at.clone(),
        }
    }
}

/// One Item waits for another.
#[derive(Debug, PartialEq, Eq)]
pub struct Dependency {
    /// The Item that must finish first.
    pub blocking_id: String,
    /// The Item that waits.
    pub blocked_id: String,
    pub created_at: String,
}

/// The model of [`Dependency`].
#[verifier::ext_equal]
pub struct DependencyView {
    pub blocking_id: Seq<char>,
    pub blocked_id: Seq<char>,
    pub created_at: Seq<char>,
}

impl View for Dependency {
    type V = DependencyView;

    open spec fn view(&self) -> DependencyView {
        DependencyView {
            blocking_id: self.blocking_id@,
            blocked_id: self.blocked_id@,
            created_at: self.created_at@,
        }
    }
}

impl Dependency {
    /// A copy of the row.
    pub fn copy(&self) -> (r: Dependency)
        ensures
            r@ == self@,
    {
        Dependency {
            blocking_id: self.blocking_id.clone(),
            blocked_id: self.blocked_id.clone(),
            created_at: self.created_at.clone(),
        }
    }
}

/// An Item waits for something outside the store.
#[derive(Debug, PartialEq, Eq)]
pub struct ExternalBlocker {
    pub id: String,
    pub item_id: String,
    pub reason: String,
    pub created_at: String,
    pub resolved_at: Option<String>,
}

/// The model of [`ExternalBlocker`].
#[verifier::ext_equal]
pub struct ExternalBlockerView {
    pub id: Seq<char>,
    pub item_id: Seq<char>,
    pub reason: Seq<char>,
    pub created_at: Seq<char>,
    pub resolved_at: Option<Seq<char>>,
}

impl View for ExternalBlocker {
    type V = ExternalBlockerView;

    open spec fn view(&self) -> ExternalBlockerView {
        ExternalBlockerView {
            id: self.id@,
            item_id: self.item_id@,
            reason: self.reason@,
            created_at: self.created_at@,
            resolved_at: opt_text(self.resolved_at),
        }
    }
}

impl ExternalBlocker {
    /// A copy of the row.
    pub fn copy(&self) -> (r: ExternalBlocker)
        ensures
            r@ == self@,
    {
        ExternalBlocker {
            id: self.id.clone(),
            item_id: self.item_id.clone(),
            reason: self.reason.clone(),
            created_at: self.created_at.clone(),
            resolved_at: copy_text(&self.resolved_at),
        }
    }
}

/// One entry of the outbox of changes meant for the Backend.
#[derive(Debug, PartialEq, Eq)]
pub struct Mutation {
    pub sequence: i64,
    pub mutation_type: MutationType,
    pub item_id: String,
    pub item_class: ItemClass,
    pub payload_json: String,
    pub state: MutationState,
    /// What the Backend answered to a failed attempt.
    pub failure_json: Option<String>,
    pub created_at: String,
    pub state_changed_at: String,
    /// The Promotion Operation that the Mutation belongs to.
    pub promotion_operation_id: Option<String>,
}

/// The model of [`Mutation`].
#[verifier::ext_equal]
pub struct MutationView {
    pub sequence: int,
    pub mutation_type: MutationType,
    pub item_id: Seq<char>,
    pub item_class: ItemClass,
    pub payload_json: Seq<char>,
    pub state: MutationState,
    pub failure_json: Option<Seq<char>>,
    pub created_at: Seq<char>,
    pub state_changed_at: Seq<char>,
    pub promotion_operation_id: Option<Seq<char>>,
}

impl View for Mutation {
    type V = MutationView;

    open spec fn view(&self) -> MutationView {
        MutationView {
            sequence: self.sequence as int,
            mutation_type: self.mutation_type,
            item_id: self.item_id@,
            item_class: self.item_class,
            payload_json: self.payload_json@,
            state: self.state,
            failure_json: opt_text(self.failure_json),
            created_at: self.created_at@,
            state_changed_at: self.state_changed_at@,
            promotion_operation_id: opt_text(self.promotion_operation_id),
        }
    }
}

impl Mutation {
    /// A copy of the row.
    pub fn copy(&self) -> (r: Mutation)
        ensures
            r@ == self@,
    {
        Mutation {
            sequence: self.sequence,
            mutation_type: self.mutation_type,
            item_id: self.item_id.clone(),
            item_class: self.item_class,
            payload_json: self.payload_json.clone(),
            state: self.state,
            failure_json: copy_text(&self.failure_json),
            created_at: self.created_at.clone(),
            state_changed_at: self.state_changed_at.clone(),
            promotion_operation_id: copy_text(&self.promotion_operation_id),
        }
    }
}

/// A Backend identity that an Item held before it was detached.
#[derive(Debug, PartialEq, Eq)]
pub struct FormerIdentity {
    pub backend_kind: String,
    pub backend_key: String,
    pub item_id: String,
    pub backend_display_value: String,
    pub detached_seq: i64,
    pub detached_at: String,
}

/// The model of [`FormerIdentity`].
#[verifier::ext_equal]
pub struct FormerIdentityView {
    pub backend_kind: Seq<char>,
    pub backend_key: Seq<char>,
    pub item_id: Seq<char>,
    pub backend_display_value: Seq<char>,
    pub detached_seq: int,
    pub detached_at: Seq<char>,
}

impl View for FormerIdentity {
    type V = FormerIdentityView;

    open spec fn view(&self) -> FormerIdentityView {
        FormerIdentityView {
            backend_kind: self.backend_kind@,
            backend_key: self.backend_key@,
            item_id: self.item_id@,
            backend_display_value: self.backend_display_value@,
            detached_seq: self.detached_seq as int,
            detached_at: self.detached_at@,
        }
    }
}

impl FormerIdentity {
    /// A copy of the row.
    pub fn copy(&self) -> (r: FormerIdentity)
        ensures
            r@ == self@,
    {
        FormerIdentity {
            backend_kind: self.backend_kind.clone(),
            backend_key: self.backend_key.clone(),
            item_id: self.item_id.clone(),
            backend_display_value: self.backend_display_value.clone(),
            detached_seq: self.detached_seq,
            detached_at: self.detached_at.clone(),
        }
    }
}

/// How far the Mutation Log has been applied to the Remote.
#[derive(Debug, PartialEq, Eq)]
pub struct SyncCursor {
    pub last_applied_sequence: i64,
    pub updated_at: String,
}

/// The model of [`SyncCursor`].
#[verifier::ext_equal]
pub struct SyncCursorView {
    pub last_applied_sequence: int,
    pub updated_at: Seq<char>,
}

impl View for SyncCursor {
    type V = SyncCursorView;

    open spec fn view(&self) -> SyncCursorView {
        SyncCursorView {
            last_applied_sequence: self.last_applied_sequence as int,
            updated_at: self.updated_at@,
        }
    }
}

impl SyncCursor {
    /// A copy of the row.
    pub fn copy(&self) -> (r: SyncCursor)
        ensures
            r@ == self@,
    {
        SyncCursor {
            last_applied_sequence: self.last_applied_sequence,
            updated_at: self.updated_at.clone(),
        }
    }
}

impl ItemView {
    /// The status of the Item.
    pub open spec fn status(self) -> ItemStatus {
        ItemStatus::spec_of(self.lifecycle, self.work_state)
    }

    /// What every stored Item holds to: a Ticket has a kind and a Selection
    /// State, and a Priority unless it is in triage; an Epic has none of the
    /// three; a Closing Reason is not empty and stands on a done Item only; an
    /// active Ticket is an accepted one; a Backend Item has a Backend identity,
    /// and a Local Item has none and records no displaced Display ID.
    pub open spec fn admitted(self) -> bool {
        &&& match self.item_class {
            ItemClass::Ticket => {
                &&& self.ticket_kind is Some
                &&& self.selection_state is Some
                &&& self.selection_state != Some(SelectionState::Triage) ==> self.priority is Some
                &&& self.work_state == WorkState::Active ==> self.selection_state == Some(
                    SelectionState::Accepted,
                )
            },
            ItemClass::Epic => {
                &&& self.ticket_kind is None
                &&& self.selection_state is None
                &&& self.priority is None
            },
        }
        &&& match self.closing_reason {
            Some(reason) => self.lifecycle == Lifecycle::Done && reason.len() > 0,
            None => true,
        }
        &&& match self.origin {
            Origin::Local => {
                &&& self.backend_kind is None
                &&& self.backend_key is None
                &&& self.local_display_id is None
            },
            Origin::Backend => self.backend_kind is Some && self.backend_key is Some,
        }
    }
}

impl Item {
    /// The status of the Item.
    pub fn status(&self) -> (r: ItemStatus)
        ensures
            r == self@.status(),
    {
        ItemStatus::of(self.lifecycle, self.work_state)
    }

    /// Whether the store admits the row.
    pub fn is_admitted(&self) -> (r: bool)
        ensures
            r == self@.admitted(),
    {
        let class_ok = match self.item_class {
            ItemClass::Ticket => {
                let ranked = match self.selection_state {
                    None => false,
                    Some(SelectionState::Triage) => true,
                    Some(_) => self.priority.is_some(),
                };
                let startable = match self.work_state {
                    WorkState::Idle => true,
                    WorkState::Active => match self.selection_state {
                        Some(SelectionState::Accepted) => true,
                        _ => false,
                    },
                };
                self.ticket_kind.is_some() && ranked && startable
            },
            ItemClass::Epic => self.ticket_kind.is_none() && self.selection_state.is_none()
                && self.priority.is_none(),
        };
        let reason_ok = match &self.closing_reason {
            Some(reason) => self.lifecycle == Lifecycle::Done && !reason.as_str().is_empty(),
            None => true,
        };
        let identity_ok = match self.origin {
            Origin::Local => self.backend_kind.is_none() && self.backend_key.is_none()
                && self.local_display_id.is_none(),
            Origin::Backend => self.backend_kind.is_some() && self.backend_key.is_some(),
        };
        class_ok && reason_ok && identity_ok
    }
}

impl MutationView {
    /// What every stored Mutation holds to: only a Promotion of its Item's
    /// class is applying or abandoned, no Promotion is skipped, and a failed
    /// Mutation says why it failed.
    pub open spec fn admitted(self) -> bool {
        &&& (self.state == MutationState::Applying || self.state == MutationState::Abandoned)
            ==> self.mutation_type == self.item_class.promote_type()
        &&& self.state == MutationState::Skipped ==> !self.mutation_type.promotes()
        &&& self.state == MutationState::Failed ==> self.failure_json is Some
    }
}

impl Mutation {
    /// Whether the store admits the row.
    pub fn is_admitted(&self) -> (r: bool)
        ensures
            r == self@.admitted(),
    {
        match self.state {
            MutationState::Applying | MutationState::Abandoned => {
                match (self.mutation_type, self.item_class) {
                    (MutationType::PromoteTicket, ItemClass::Ticket) => true,
                    (MutationType::PromoteEpic, ItemClass::Epic) => true,
                    _ => false,
                }
            },
            MutationState::Skipped => !self.mutation_type.is_promotion(),
            MutationState::Failed => self.failure_json.is_some(),
            _ => true,
        }
    }
}

} // verus!
