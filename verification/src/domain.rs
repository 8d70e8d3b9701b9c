//! The vocabulary of the store: the closed sets of values its columns hold,
//! each with the text that stands for it, and the rules over them alone.

use vstd::prelude::*;

use crate::text::same_text;

verus! {

/// Whether an Item is a Ticket or an Epic.
#[derive(Clone, Copy, Debug, PartialEq, Eq, Structural)]
pub enum ItemClass {
    Ticket,
    Epic,
}

impl ItemClass {
    /// The text that stands for the value.
    pub open spec fn name(self) -> Seq<char> {
        match self {
            Self::Ticket => "ticket"@,
            Self::Epic => "epic"@,
        }
    }

    /// The text that stands for the value.
    pub fn text(self) -> (r: &'static str)
        ensures
            r@ == self.name(),
    {
        match self {
            Self::Ticket => "ticket",
            Self::Epic => "epic",
        }
    }

    /// The value that a text stands for, if any.
    pub fn parse(text: &str) -> (r: Option<Self>)
        ensures
            match r {
                Some(value) => value.name() == text@,
                None => forall|value: Self| value.name() != text@,
            },
    {
        if same_text(text, "ticket") {
            return Some(Self::Ticket);
        }
        if same_text(text, "epic") {
            return Some(Self::Epic);
        }
        proof {
            assert forall|value: Self| value.name() != text@ by {
                match value {
                    Self::Ticket => {},
                    Self::Epic => {},
                }
            }
        }
        None
    }
}

/// Two values with the same text are the same value.
pub proof fn law_item_class_text_is_unique(a: ItemClass, b: ItemClass)
    requires
        a.name() == b.name(),
    ensures
        a == b,
{
    reveal_strlit("ticket");
    reveal_strlit("epic");
    assert("ticket"@.len() == 6);
    assert("epic"@.len() == 4);
}

/// What sort of work a Ticket records.
#[derive(Clone, Copy, Debug, PartialEq, Eq, Structural)]
pub enum TicketKind {
    Task,
    Bug,
}

impl TicketKind {
    /// The text that stands for the value.
    pub open spec fn name(self) -> Seq<char> {
        match self {
            Self::Task => "task"@,
            Self::Bug => "bug"@,
        }
    }

    /// The text that stands for the value.
    pub fn text(self) -> (r: &'static str)
        ensures
            r@ == self.name(),
    {
        match self {
            Self::Task => "task",
            Self::Bug => "bug",
        }
    }

    /// The value that a text stands for, if any.
    pub fn parse(text: &str) -> (r: Option<Self>)
        ensures
            match r {
                Some(value) => value.name() == text@,
                None => forall|value: Self| value.name() != text@,
            },
    {
        if same_text(text, "task") {
            return Some(Self::Task);
        }
        if same_text(text, "bug") {
            return Some(Self::Bug);
        }
        proof {
            assert forall|value: Self| value.name() != text@ by {
                match value {
                    Self::Task => {},
                    Self::Bug => {},
                }
            }
        }
        None
    }
}

/// Two values with the same text are the same value.
pub proof fn law_ticket_kind_text_is_unique(a: TicketKind, b: TicketKind)
    requires
        a.name() == b.name(),
    ensures
        a == b,
{
    reveal_strlit("task");
    reveal_strlit("bug");
    assert("task"@.len() == 4);
    assert("bug"@.len() == 3);
}

/// The urgency of a Ticket; `P0` is the most urgent.
#[derive(Clone, Copy, Debug, PartialEq, Eq, Structural)]
pub enum Priority {
    P0,
    P1,
    P2,
    P3,
    P4,
}

impl Priority {
    /// The text that stands for the value.
    pub open spec fn name(self) -> Seq<char> {
        match self {
            Self::P0 => "P0"@,
            Self::P1 => "P1"@,
            Self::P2 => "P2"@,
            Self::P3 => "P3"@,
            Self::P4 => "P4"@,
        }
    }

    /// The text that stands for the value.
    pub fn text(self) -> (r: &'static str)
        ensures
            r@ == self.name(),
    {
        match self {
            Self::P0 => "P0",
            Self::P1 => "P1",
            Self::P2 => "P2",
            Self::P3 => "P3",
            Self::P4 => "P4",
        }
    }

    /// The value that a text stands for, if any.
    pub fn parse(text: &str) -> (r: Option<Self>)
        ensures
            match r {
                Some(value) => value.name() == text@,
                None => forall|value: Self| value.name() != text@,
            },
    {
        if same_text(text, "P0") {
            return Some(Self::P0);
        }
        if same_text(text, "P1") {
            return Some(Self::P1);
        }
        if same_text(text, "P2") {
            return Some(Self::P2);
        }
        if same_text(text, "P3") {
            return Some(Self::P3);
        }
        if same_text(text, "P4") {
            return Some(Self::P4);
        }
        proof {
            assert forall|value: Self| value.name() != text@ by {
                match value {
                    Self::P0 => {},
                    Self::P1 => {},
                    Self::P2 => {},
                    Self::P3 => {},
                    Self::P4 => {},
                }
            }
        }
        None
    }
}

/// Two values with the same text are the same value.
pub proof fn law_priority_text_is_unique(a: Priority, b: Priority)
    requires
        a.name() == b.name(),
    ensures
        a == b,
{
    reveal_strlit("P0");
    reveal_strlit("P1");
    reveal_strlit("P2");
    reveal_strlit("P3");
    reveal_strlit("P4");
    assert("P0"@.len() == 2);
    assert("P1"@.len() == 2);
    assert("P2"@.len() == 2);
    assert("P3"@.len() == 2);
    assert("P4"@.len() == 2);
    assert("P0"@[1] == '0');
    assert("P1"@[1] == '1');
    assert("P2"@[1] == '2');
    assert("P3"@[1] == '3');
    assert("P4"@[1] == '4');
}

/// Whether a Ticket has been accepted into the work to select from.
#[derive(Clone, Copy, Debug, PartialEq, Eq, Structural)]
pub enum SelectionState {
    Triage,
    Accepted,
    Parked,
}

impl SelectionState {
    /// The text that stands for the value.
    pub open spec fn name(self) -> Seq<char> {
        match self {
            Self::Triage => "triage"@,
            Self::Accepted => "accepted"@,
            Self::Parked => "parked"@,
        }
    }

    /// The text that stands for the value.
    pub fn text(self) -> (r: &'static str)
        ensures
            r@ == self.name(),
    {
        match self {
            Self::Triage => "triage",
            Self::Accepted => "accepted",
            Self::Parked => "parked",
        }
    }

    /// The value that a text stands for, if any.
    pub fn parse(text: &str) -> (r: Option<Self>)
        ensures
            match r {
                Some(value) => value.name() == text@,
                None => forall|value: Self| value.name() != text@,
            },
    {
        if same_text(text, "triage") {
            return Some(Self::Triage);
        }
        if same_text(text, "accepted") {
            return Some(Self::Accepted);
        }
        if same_text(text, "parked") {
            return Some(Self::Parked);
        }
        proof {
            assert forall|value: Self| value.name() != text@ by {
                match value {
                    Self::Triage => {},
                    Self::Accepted => {},
                    Self::Parked => {},
                }
            }
        }
        None
    }
}

/// Two values with the same text are the same value.
pub proof fn law_selection_state_text_is_unique(a: SelectionState, b: SelectionState)
    requires
        a.name() == b.name(),
    ensures
        a == b,
{
    reveal_strlit("triage");
    reveal_strlit("accepted");
    reveal_strlit("parked");
    assert("triage"@.len() == 6);
    assert("accepted"@.len() == 8);
    assert("parked"@.len() == 6);
    assert("triage"@[0] == 't');
    assert("parked"@[0] == 'p');
}

/// Whether an Item is still open.
#[derive(Clone, Copy, Debug, PartialEq, Eq, Structural)]
pub enum Lifecycle {
    Open,
    Done,
}

impl Lifecycle {
    /// The text that stands for the value.
    pub open spec fn name(self) -> Seq<char> {
        match self {
            Self::Open => "open"@,
            Self::Done => "done"@,
        }
    }

    /// The text that stands for the value.
    pub fn text(self) -> (r: &'static str)
        ensures
            r@ == self.name(),
    {
        match self {
            Self::Open => "open",
            Self::Done => "done",
        }
    }

    /// The value that a text stands for, if any.
    pub fn parse(text: &str) -> (r: Option<Self>)
        ensures
            match r {
                Some(value) => value.name() == text@,
                None => forall|value: Self| value.name() != text@,
            },
    {
        if same_text(text, "open") {
            return Some(Self::Open);
        }
        if same_text(text, "done") {
            return Some(Self::Done);
        }
        proof {
            assert forall|value: Self| value.name() != text@ by {
                match value {
                    Self::Open => {},
                    Self::Done => {},
                }
            }
        }
        None
    }
}

/// Two values with the same text are the same value.
pub proof fn law_lifecycle_text_is_unique(a: Lifecycle, b: Lifecycle)
    requires
        a.name() == b.name(),
    ensures
        a == b,
{
    reveal_strlit("open");
    reveal_strlit("done");
    assert("open"@.len() == 4);
    assert("done"@.len() == 4);
    assert("open"@[0] == 'o');
    assert("done"@[0] == 'd');
}

/// Whether an Item is being worked on right now.
#[derive(Clone, Copy, Debug, PartialEq, Eq, Structural)]
pub enum WorkState {
    Idle,
    Active,
}

impl WorkState {
    /// The text that stands for the value.
    pub open spec fn name(self) -> Seq<char> {
        match self {
            Self::Idle => "idle"@,
            Self::Active => "active"@,
        }
    }

    /// The text that stands for the value.
    pub fn text(self) -> (r: &'static str)
        ensures
            r@ == self.name(),
    {
        match self {
            Self::Idle => "idle",
            Self::Active => "active",
        }
    }

    /// The value that a text stands for, if any.
    pub fn parse(text: &str) -> (r: Option<Self>)
        ensures
            match r {
                Some(value) => value.name() == text@,
                None => forall|value: Self| value.name() != text@,
            },
    {
        if same_text(text, "idle") {
            return Some(Self::Idle);
        }
        if same_text(text, "active") {
            return Some(Self::Active);
        }
        proof {
            assert forall|value: Self| value.name() != text@ by {
                match value {
                    Self::Idle => {},
                    Self::Active => {},
                }
            }
        }
        None
    }
}

/// Two values with the same text are the same value.
pub proof fn law_work_state_text_is_unique(a: WorkState, b: WorkState)
    requires
        a.name() == b.name(),
    ensures
        a == b,
{
    reveal_strlit("idle");
    reveal_strlit("active");
    assert("idle"@.len() == 4);
    assert("active"@.len() == 6);
}

/// Lifecycle and Work State read together.
#[derive(Clone, Copy, Debug, PartialEq, Eq, Structural)]
pub enum ItemStatus {
    Open,
    Active,
    Done,
}

impl ItemStatus {
    /// The text that stands for the value.
    pub open spec fn name(self) -> Seq<char> {
        match self {
            Self::Open => "open"@,
            Self::Active => "active"@,
            Self::Done => "done"@,
        }
    }

    /// The text that stands for the value.
    pub fn text(self) -> (r: &'static str)
        ensures
            r@ == self.name(),
    {
        match self {
            Self::Open => "open",
            Self::Active => "active",
            Self::Done => "done",
        }
    }

    /// The value that a text stands for, if any.
    pub fn parse(text: &str) -> (r: Option<Self>)
        ensures
            match r {
                Some(value) => value.name() == text@,
                None => forall|value: Self| value.name() != text@,
            },
    {
        if same_text(text, "open") {
            return Some(Self::Open);
        }
        if same_text(text, "active") {
            return Some(Self::Active);
        }
        if same_text(text, "done") {
            return Some(Self::Done);
        }
        proof {
            assert forall|value: Self| value.name() != text@ by {
                match value {
                    Self::Open => {},
                    Self::Active => {},
                    Self::Done => {},
                }
            }
        }
        None
    }
}

/// Two values with the same text are the same value.
pub proof fn law_item_status_text_is_unique(a: ItemStatus, b: ItemStatus)
    requires
        a.name() == b.name(),
    ensures
        a == b,
{
    reveal_strlit("open");
    reveal_strlit("active");
    reveal_strlit("done");
    assert("open"@.len() == 4);
    assert("active"@.len() == 6);
    assert("done"@.len() == 4);
    assert("open"@[0] == 'o');
    assert("done"@[0] == 'd');
}

/// Where an Item's identity comes from.
#[derive(Clone, Copy, Debug, PartialEq, Eq, Structural)]
pub enum Origin {
    Local,
    Backend,
}

impl Origin {
    /// The text that stands for the value.
    pub open spec fn name(self) -> Seq<char> {
        match self {
            Self::Local => "local"@,
            Self::Backend => "backend"@,
        }
    }

    /// The text that stands for the value.
    pub fn text(self) -> (r: &'static str)
        ensures
            r@ == self.name(),
    {
        match self {
            Self::Local => "local",
            Self::Backend => "backend",
        }
    }

    /// The value that a text stands for, if any.
    pub fn parse(text: &str) -> (r: Option<Self>)
        ensures
            match r {
                Some(value) => value.name() == text@,
                None => forall|value: Self| value.name() != text@,
            },
    {
        if same_text(text, "local") {
            return Some(Self::Local);
        }
        if same_text(text, "backend") {
            return Some(Self::Backend);
        }
        proof {
            assert forall|value: Self| value.name() != text@ by {
                match value {
                    Self::Local => {},
                    Self::Backend => {},
                }
            }
        }
        None
    }
}

/// Two values with the same text are the same value.
pub proof fn law_origin_text_is_unique(a: Origin, b: Origin)
    requires
        a.name() == b.name(),
    ensures
        a == b,
{
    reveal_strlit("local");
    reveal_strlit("backend");
    assert("local"@.len() == 5);
    assert("backend"@.len() == 7);
}

/// A Backend that Items can be promoted to.
#[derive(Clone, Copy, Debug, PartialEq, Eq, Structural)]
pub enum BackendKind {
    Github,
    Jira,
}

impl BackendKind {
    /// The text that stands for the value.
    pub open spec fn name(self) -> Seq<char> {
        match self {
            Self::Github => "github"@,
            Self::Jira => "jira"@,
        }
    }

    /// The text that stands for the value.
    pub fn text(self) -> (r: &'static str)
        ensures
            r@ == self.name(),
    {
        match self {
            Self::Github => "github",
            Self::Jira => "jira",
        }
    }

    /// The value that a text stands for, if any.
    pub fn parse(text: &str) -> (r: Option<Self>)
        ensures
            match r {
                Some(value) => value.name() == text@,
                None => forall|value: Self| value.name() != text@,
            },
    {
        if same_text(text, "github") {
            return Some(Self::Github);
        }
        if same_text(text, "jira") {
            return Some(Self::Jira);
        }
        proof {
            assert forall|value: Self| value.name() != text@ by {
                match value {
                    Self::Github => {},
                    Self::Jira => {},
                }
            }
        }
        None
    }
}

/// Two values with the same text are the same value.
pub proof fn law_backend_kind_text_is_unique(a: BackendKind, b: BackendKind)
    requires
        a.name() == b.name(),
    ensures
        a == b,
{
    reveal_strlit("github");
    reveal_strlit("jira");
    assert("github"@.len() == 6);
    assert("jira"@.len() == 4);
}

/// What a Mutation asks of the Backend.
#[derive(Clone, Copy, Debug, PartialEq, Eq, Structural)]
pub enum MutationType {
    UpdateTicket,
    UpdateEpic,
    SetItemStatus,
    AddTicketToEpic,
    RemoveTicketFromEpic,
    AddDependency,
    RemoveDependency,
    PromoteTicket,
    PromoteEpic,
}

impl MutationType {
    /// The text that stands for the value.
    pub open spec fn name(self) -> Seq<char> {
        match self {
            Self::UpdateTicket => "update_ticket"@,
            Self::UpdateEpic => "update_epic"@,
            Self::SetItemStatus => "set_item_status"@,
            Self::AddTicketToEpic => "add_ticket_to_epic"@,
            Self::RemoveTicketFromEpic => "remove_ticket_from_epic"@,
            Self::AddDependency => "add_dependency"@,
            Self::RemoveDependency => "remove_dependency"@,
            Self::PromoteTicket => "promote_ticket"@,
            Self::PromoteEpic => "promote_epic"@,
        }
    }

    /// The text that stands for the value.
    pub fn text(self) -> (r: &'static str)
        ensures
            r@ == self.name(),
    {
        match self {
            Self::UpdateTicket => "update_ticket",
            Self::UpdateEpic => "update_epic",
            Self::SetItemStatus => "set_item_status",
            Self::AddTicketToEpic => "add_ticket_to_epic",
            Self::RemoveTicketFromEpic => "remove_ticket_from_epic",
            Self::AddDependency => "add_dependency",
            Self::RemoveDependency => "remove_dependency",
            Self::PromoteTicket => "promote_ticket",
            Self::PromoteEpic => "promote_epic",
        }
    }

    /// The value that a text stands for, if any.
    pub fn parse(text: &str) -> (r: Option<Self>)
        ensures
            match r {
                Some(value) => value.name() == text@,
                None => forall|value: Self| value.name() != text@,
            },
    {
        if same_text(text, "update_ticket") {
            return Some(Self::UpdateTicket);
        }
        if same_text(text, "update_epic") {
            return Some(Self::UpdateEpic);
        }
        if same_text(text, "set_item_status") {
            return Some(Self::SetItemStatus);
        }
        if same_text(text, "add_ticket_to_epic") {
            return Some(Self::AddTicketToEpic);
        }
        if same_text(text, "remove_ticket_from_epic") {
            return Some(Self::RemoveTicketFromEpic);
        }
        if same_text(text, "add_dependency") {
            return Some(Self::AddDependency);
        }
        if same_text(text, "remove_dependency") {
            return Some(Self::RemoveDependency);
        }
        if same_text(text, "promote_ticket") {
            return Some(Self::PromoteTicket);
        }
        if same_text(text, "promote_epic") {
            return Some(Self::PromoteEpic);
        }
        proof {
            assert forall|value: Self| value.name() != text@ by {
                match value {
                    Self::UpdateTicket => {},
                    Self::UpdateEpic => {},
                    Self::SetItemStatus => {},
                    Self::AddTicketToEpic => {},
                    Self::RemoveTicketFromEpic => {},
                    Self::AddDependency => {},
                    Self::RemoveDependency => {},
                    Self::PromoteTicket => {},
                    Self::PromoteEpic => {},
                }
            }
        }
        None
    }
}

/// Two values with the same text are the same value.
pub proof fn law_mutation_type_text_is_unique(a: MutationType, b: MutationType)
    requires
        a.name() == b.name(),
    ensures
        a == b,
{
    reveal_strlit("update_ticket");
    reveal_strlit("update_epic");
    reveal_strlit("set_item_status");
    reveal_strlit("add_ticket_to_epic");
    reveal_strlit("remove_ticket_from_epic");
    reveal_strlit("add_dependency");
    reveal_strlit("remove_dependency");
    reveal_strlit("promote_ticket");
    reveal_strlit("promote_epic");
    assert("update_ticket"@.len() == 13);
    assert("update_epic"@.len() == 11);
    assert("set_item_status"@.len() == 15);
    assert("add_ticket_to_epic"@.len() == 18);
    assert("remove_ticket_from_epic"@.len() == 23);
    assert("add_dependency"@.len() == 14);
    assert("remove_dependency"@.len() == 17);
    assert("promote_ticket"@.len() == 14);
    assert("promote_epic"@.len() == 12);
    assert("add_dependency"@[0] == 'a');
    assert("promote_ticket"@[0] == 'p');
}

/// How far a Mutation has come.
#[derive(Clone, Copy, Debug, PartialEq, Eq, Structural)]
pub enum MutationState {
    Pending,
    Failed,
    Applying,
    Skipped,
    Cancelled,
    Abandoned,
    Applied,
}

impl MutationState {
    /// The text that stands for the value.
    pub open spec fn name(self) -> Seq<char> {
        match self {
            Self::Pending => "pending"@,
            Self::Failed => "failed"@,
            Self::Applying => "applying"@,
            Self::Skipped => "skipped"@,
            Self::Cancelled => "cancelled"@,
            Self::Abandoned => "abandoned"@,
            Self::Applied => "applied"@,
        }
    }

    /// The text that stands for the value.
    pub fn text(self) -> (r: &'static str)
        ensures
            r@ == self.name(),
    {
        match self {
            Self::Pending => "pending",
            Self::Failed => "failed",
            Self::Applying => "applying",
            Self::Skipped => "skipped",
            Self::Cancelled => "cancelled",
            Self::Abandoned => "abandoned",
            Self::Applied => "applied",
        }
    }

    /// The value that a text stands for, if any.
    pub fn parse(text: &str) -> (r: Option<Self>)
        ensures
            match r {
                Some(value) => value.name() == text@,
                None => forall|value: Self| value.name() != text@,
            },
    {
        if same_text(text, "pending") {
            return Some(Self::Pending);
        }
        if same_text(text, "failed") {
            return Some(Self::Failed);
        }
        if same_text(text, "applying") {
            return Some(Self::Applying);
        }
        if same_text(text, "skipped") {
            return Some(Self::Skipped);
        }
        if same_text(text, "cancelled") {
            return Some(Self::Cancelled);
        }
        if same_text(text, "abandoned") {
            return Some(Self::Abandoned);
        }
        if same_text(text, "applied") {
            return Some(Self::Applied);
        }
        proof {
            assert forall|value: Self| value.name() != text@ by {
                match value {
                    Self::Pending => {},
                    Self::Failed => {},
                    Self::Applying => {},
                    Self::Skipped => {},
                    Self::Cancelled => {},
                    Self::Abandoned => {},
                    Self::Applied => {},
                }
            }
        }
        None
    }
}

/// Two values with the same text are the same value.
pub proof fn law_mutation_state_text_is_unique(a: MutationState, b: MutationState)
    requires
        a.name() == b.name(),
    ensures
        a == b,
{
    reveal_strlit("pending");
    reveal_strlit("failed");
    reveal_strlit("applying");
    reveal_strlit("skipped");
    reveal_strlit("cancelled");
    reveal_strlit("abandoned");
    reveal_strlit("applied");
    assert("pending"@.len() == 7);
    assert("failed"@.len() == 6);
    assert("applying"@.len() == 8);
    assert("skipped"@.len() == 7);
    assert("cancelled"@.len() == 9);
    assert("abandoned"@.len() == 9);
    assert("applied"@.len() == 7);
    assert("pending"@[0] == 'p');
    assert("skipped"@[0] == 's');
    assert("applied"@[0] == 'a');
    assert("cancelled"@[0] == 'c');
    assert("abandoned"@[0] == 'a');
}

impl ItemStatus {
    /// The status of an Item with the given Lifecycle and Work State.
    pub open spec fn spec_of(lifecycle: Lifecycle, work_state: WorkState) -> ItemStatus {
        match lifecycle {
            Lifecycle::Done => ItemStatus::Done,
            Lifecycle::Open => match work_state {
                WorkState::Active => ItemStatus::Active,
                WorkState::Idle => ItemStatus::Open,
            },
        }
    }

    /// The status of an Item with the given Lifecycle and Work State: a closed
    /// Item is done whatever its Work State.
    pub fn of(lifecycle: Lifecycle, work_state: WorkState) -> (r: ItemStatus)
        ensures
            r == ItemStatus::spec_of(lifecycle, work_state),
    {
        match lifecycle {
            Lifecycle::Done => ItemStatus::Done,
            Lifecycle::Open => match work_state {
                WorkState::Active => ItemStatus::Active,
                WorkState::Idle => ItemStatus::Open,
            },
        }
    }
}

impl Default for ItemStatus {
    fn default() -> (r: Self)
        ensures
            r == ItemStatus::Open,
    {
        ItemStatus::Open
    }
}

impl Priority {
    /// The place of the Priority from the most urgent on.
    pub open spec fn rank(self) -> int {
        match self {
            Priority::P0 => 0,
            Priority::P1 => 1,
            Priority::P2 => 2,
            Priority::P3 => 3,
            Priority::P4 => 4,
        }
    }

    /// The place of the Priority from the most urgent on.
    pub fn place(self) -> (r: u8)
        ensures
            r == self.rank(),
    {
        match self {
            Priority::P0 => 0,
            Priority::P1 => 1,
            Priority::P2 => 2,
            Priority::P3 => 3,
            Priority::P4 => 4,
        }
    }
}

impl MutationState {
    /// Whether a Mutation in this state still awaits an outcome.
    pub open spec fn is_nonterminal(self) -> bool {
        self == MutationState::Pending || self == MutationState::Failed || self
            == MutationState::Applying
    }

    /// Whether a Mutation in this state still awaits an outcome.
    pub fn nonterminal(self) -> (r: bool)
        ensures
            r == self.is_nonterminal(),
    {
        match self {
            MutationState::Pending | MutationState::Failed | MutationState::Applying => true,
            MutationState::Skipped
            | MutationState::Cancelled
            | MutationState::Abandoned
            | MutationState::Applied => false,
        }
    }
}

/// The Item that a Mutation speaks of besides its own target.
#[derive(Clone, Copy, Debug, PartialEq, Eq, Structural)]
pub enum AddressedCounterpart {
    /// The Mutation speaks of its target alone.
    Nothing,
    /// The Epic that the target joins.
    Epic,
    /// The Item that blocks the target.
    BlockingItem,
}

impl MutationType {
    /// Whether the Mutation creates an object on the Backend.
    pub open spec fn promotes(self) -> bool {
        self == MutationType::PromoteTicket || self == MutationType::PromoteEpic
    }

    /// Whether the Mutation creates an object on the Backend.
    pub fn is_promotion(self) -> (r: bool)
        ensures
            r == self.promotes(),
    {
        match self {
            MutationType::PromoteTicket | MutationType::PromoteEpic => true,
            _ => false,
        }
    }

    /// Which further Item the Mutation's payload names.
    pub open spec fn counterpart(self) -> AddressedCounterpart {
        match self {
            MutationType::AddTicketToEpic => AddressedCounterpart::Epic,
            MutationType::AddDependency => AddressedCounterpart::BlockingItem,
            MutationType::RemoveDependency => AddressedCounterpart::BlockingItem,
            _ => AddressedCounterpart::Nothing,
        }
    }

    /// Which further Item the Mutation's payload names.
    pub fn addressed_counterpart(self) -> (r: AddressedCounterpart)
        ensures
            r == self.counterpart(),
    {
        match self {
            MutationType::AddTicketToEpic => AddressedCounterpart::Epic,
            MutationType::AddDependency => AddressedCounterpart::BlockingItem,
            MutationType::RemoveDependency => AddressedCounterpart::BlockingItem,
            _ => AddressedCounterpart::Nothing,
        }
    }
}

impl ItemClass {
    /// The Mutation Type that carries a new title and body for the class.
    pub open spec fn update_type(self) -> MutationType {
        match self {
            ItemClass::Ticket => MutationType::UpdateTicket,
            ItemClass::Epic => MutationType::UpdateEpic,
        }
    }

    /// The Mutation Type that carries a new title and body for the class.
    pub fn update_mutation_type(self) -> (r: MutationType)
        ensures
            r == self.update_type(),
    {
        match self {
            ItemClass::Ticket => MutationType::UpdateTicket,
            ItemClass::Epic => MutationType::UpdateEpic,
        }
    }

    /// The Mutation Type that promotes the class.
    pub open spec fn promote_type(self) -> MutationType {
        match self {
            ItemClass::Ticket => MutationType::PromoteTicket,
            ItemClass::Epic => MutationType::PromoteEpic,
        }
    }
}

/// An Item's relation to a Backend.
#[derive(Clone, Debug, PartialEq, Eq)]
pub enum BackendBinding {
    /// No Backend knows the Item, and none is meant to.
    Local,
    /// A Promotion of the Item awaits its outcome.
    PendingPromotion { backend_kind: String },
    /// The Item stands on a Backend.
    Backend { backend_kind: String },
}

/// The model of [`BackendBinding`].
pub enum BindingView {
    Local,
    PendingPromotion(Seq<char>),
    Backend(Seq<char>),
}

impl BindingView {
    /// The Backend that the Item stands on or is bound for, if any.
    pub open spec fn bound_kind(self) -> Option<Seq<char>> {
        match self {
            BindingView::Local => None,
            BindingView::PendingPromotion(kind) => Some(kind),
            BindingView::Backend(kind) => Some(kind),
        }
    }

    /// Whether the Item stands on a Backend or is bound for one.
    pub open spec fn bound(self) -> bool {
        self.bound_kind() is Some
    }
}

impl View for BackendBinding {
    type V = BindingView;

    open spec fn view(&self) -> BindingView {
        match self {
            BackendBinding::Local => BindingView::Local,
            BackendBinding::PendingPromotion { backend_kind } => BindingView::PendingPromotion(
                backend_kind@,
            ),
            BackendBinding::Backend { backend_kind } => BindingView::Backend(backend_kind@),
        }
    }
}

impl BackendBinding {
    /// Whether the Item stands on a Backend or is bound for one.
    pub fn is_backend_bound(&self) -> (r: bool)
        ensures
            r == self@.bound(),
    {
        match self {
            BackendBinding::Local => false,
            BackendBinding::PendingPromotion { .. } => true,
            BackendBinding::Backend { .. } => true,
        }
    }

    fn kind(&self) -> (r: Option<&String>)
        ensures
            match r {
                Some(kind) => self@.bound_kind() == Some(kind@),
                None => self@.bound_kind() is None,
            },
    {
        match self {
            BackendBinding::Local => None,
            BackendBinding::PendingPromotion { backend_kind } => Some(backend_kind),
            BackendBinding::Backend { backend_kind } => Some(backend_kind),
        }
    }
}

/// Why a Dependency cannot be represented.
#[derive(Clone, Copy, Debug, PartialEq, Eq, Structural)]
pub enum DependencyRejection {
    /// A bound Item would wait on an Item that no Backend can name.
    BackendBlockedLocalBlocking,
    /// The two Items are bound for different Backends.
    BackendKindMismatch,
}

/// What a Dependency between two Items means for the Backend.
#[derive(Clone, Copy, Debug, PartialEq, Eq, Structural)]
pub enum DependencyClassification {
    /// The Dependency stays in the store.
    LocalOnly,
    /// The Dependency is to be recorded on the Backend too.
    BecomesBackendIntent,
    /// The Dependency cannot be represented.
    Rejected(DependencyRejection),
}

/// What a Dependency means, by the Backends of its blocked and blocking end.
pub open spec fn classified(blocked: BindingView, blocking: BindingView) -> DependencyClassification {
    match (blocked.bound_kind(), blocking.bound_kind()) {
        (Some(b), Some(k)) => if b == k {
            DependencyClassification::BecomesBackendIntent
        } else {
            DependencyClassification::Rejected(DependencyRejection::BackendKindMismatch)
        },
        (Some(_), None) => DependencyClassification::Rejected(
            DependencyRejection::BackendBlockedLocalBlocking,
        ),
        _ => DependencyClassification::LocalOnly,
    }
}

/// What a Dependency means: a bound blocked Item needs a blocking Item bound
/// for the same Backend, and such a pair is Backend intent.
pub fn classify(blocked: &BackendBinding, blocking: &BackendBinding) -> (r:
    DependencyClassification)
    ensures
        r == classified(blocked@, blocking@),
{
    match (blocked.kind(), blocking.kind()) {
        (Some(b), Some(k)) => {
            if *b == *k {
                DependencyClassification::BecomesBackendIntent
            } else {
                DependencyClassification::Rejected(DependencyRejection::BackendKindMismatch)
            }
        },
        (Some(_), None) => DependencyClassification::Rejected(
            DependencyRejection::BackendBlockedLocalBlocking,
        ),
        _ => DependencyClassification::LocalOnly,
    }
}

} // verus!
