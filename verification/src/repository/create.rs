//! Creation of Local Tickets and Epics.

use vstd::prelude::*;

use crate::domain::{ItemClass, ItemStatus, Lifecycle, Origin, Priority, SelectionState, TicketKind, WorkState};
use crate::load::item_fault;
use crate::rows::{opt_str, own_text, Item, ItemView};
use crate::sequences::{next_of, peek, SequenceError};
use crate::tables::{place, Counter, Fault, Store, StoreView};
use crate::text::{decimal, decimal_text, hex, hex_text, join3};

verus! {

/// The random number generator of the `rand` crate.
#[verifier::external_type_specification]
#[verifier::external_body]
pub struct ExStdRng(rand::rngs::StdRng);

/// `rand::Rng::fill_bytes` on sixteen bytes. Nothing is claimed of the bytes:
/// they are drawn at random.
#[verifier::external_body]
fn draw(rng: &mut rand::rngs::StdRng) -> (r: [u8; 16]) {
    let mut bytes = [0u8; 16];
    rand::Rng::fill_bytes(rng, &mut bytes);
    bytes
}

/// The internal ID made of the given bytes.
pub fn internal_id(bytes: &[u8; 16]) -> (r: String)
    ensures
        r@ == hex(bytes@),
        r@.len() == 32,
{
    hex_text(bytes)
}

/// Whether a text is an internal ID: sixteen bytes in lower-case hexadecimal.
pub open spec fn is_internal_id(text: Seq<char>) -> bool {
    exists|bytes: Seq<u8>| bytes.len() == 16 && text == #[trigger] hex(bytes)
}

/// Draw sixteen random bytes and render them as lower-case hexadecimal.
///
/// The internal ID survives Display ID changes: Promotion swaps the Display
/// ID but keeps the internal one.
pub fn generate_internal_id(rng: &mut rand::rngs::StdRng) -> (r: String)
    ensures
        is_internal_id(r@),
        r@.len() == 32,
{
    let bytes = draw(rng);
    let id = internal_id(&bytes);
    proof {
        assert(bytes@.len() == 16 && id@ == hex(bytes@));
    }
    id
}

/// Why there is no next Display ID.
#[derive(Debug)]
pub enum DisplayIdError {
    Sequence(SequenceError),
    /// The store was never given a Display ID prefix.
    PrefixMissing,
}

/// The Display ID that a new Local Item takes: the prefix, a dash and the next
/// number.
pub open spec fn next_display(v: StoreView) -> Result<Seq<char>, DisplayIdError> {
    match next_of(v, Counter::Display) {
        Err(error) => Err(DisplayIdError::Sequence(error)),
        Ok(number) => match v.display_prefix {
            None => Err(DisplayIdError::PrefixMissing),
            Some(prefix) => Ok(prefix + "-"@ + decimal(number)),
        },
    }
}

/// The Display ID that a new Local Item takes, and the number in it.
pub(crate) fn next_display_id(store: &Store) -> (r: Result<(String, i64), DisplayIdError>)
    ensures
        match r {
            Ok((display_id, number)) => {
                &&& next_display(store@) == Ok::<Seq<char>, DisplayIdError>(display_id@)
                &&& next_of(store@, Counter::Display) == Ok::<int, SequenceError>(number as int)
            },
            Err(error) => next_display(store@) == Err::<Seq<char>, DisplayIdError>(error),
        },
{
    let number: i64 = match peek(store, Counter::Display) {
        Ok(number) => number,
        Err(error) => {
            return Err(DisplayIdError::Sequence(error));
        },
    };
    match store.display_prefix() {
        None => Err(DisplayIdError::PrefixMissing),
        Some(prefix) => {
            let digits = decimal_text(number);
            Ok((join3(prefix.as_str(), "-", digits.as_str()), number))
        },
    }
}

/// Input for creating a Local Ticket.
#[derive(Debug)]
pub struct CreateLocalTicketInput<'a> {
    pub kind: TicketKind,
    pub priority: Priority,
    /// Internal ID of the containing Epic, if any.
    pub parent_id: Option<&'a str>,
    pub title: &'a str,
    pub body: &'a str,
}

/// Input for creating a Local Epic.
#[derive(Debug)]
pub struct CreateLocalEpicInput<'a> {
    pub title: &'a str,
    pub body: &'a str,
}

/// A created Ticket.
#[derive(Clone, Debug, PartialEq, Eq)]
pub struct CreatedTicket {
    pub id: String,
    pub display_id: String,
    pub kind: TicketKind,
    pub priority: Priority,
    pub status: ItemStatus,
    pub origin: Origin,
    pub title: String,
    pub body: String,
}

/// A created Epic.
#[derive(Clone, Debug, PartialEq, Eq)]
pub struct CreatedEpic {
    pub id: String,
    pub display_id: String,
    pub status: ItemStatus,
    pub origin: Origin,
    pub title: String,
    pub body: String,
}

/// Why an Item was not created.
#[derive(Debug)]
pub enum CreateError {
    /// The store does not admit the Item.
    Sqlite(Fault),
    Sequence(SequenceError),
    /// The store was never given a Display ID prefix.
    DisplayPrefixMissing,
}

impl<'a> CreateLocalTicketInput<'a> {
    /// The Ticket that the input asks for, but for its Display ID and place.
    pub open spec fn drafted(&self, id: Seq<char>, now: Seq<char>) -> ItemView {
        ItemView {
            id,
            display_id: Seq::empty(),
            display_created_at: now,
            item_class: ItemClass::Ticket,
            ticket_kind: Some(self.kind),
            priority: Some(self.priority),
            selection_state: Some(SelectionState::Accepted),
            title: self.title@,
            body: self.body@,
            closing_reason: None,
            lifecycle: Lifecycle::Open,
            work_state: WorkState::Idle,
            container_id: opt_str(self.parent_id),
            origin: Origin::Local,
            backend_kind: None,
            backend_key: None,
            local_display_id: None,
            created_seq: 0,
            created_at: now,
            updated_at: now,
        }
    }
}

impl<'a> CreateLocalEpicInput<'a> {
    /// The Epic that the input asks for, but for its Display ID and place.
    pub open spec fn drafted(&self, id: Seq<char>, now: Seq<char>) -> ItemView {
        ItemView {
            id,
            display_id: Seq::empty(),
            display_created_at: now,
            item_class: ItemClass::Epic,
            ticket_kind: None,
            priority: None,
            selection_state: None,
            title: self.title@,
            body: self.body@,
            closing_reason: None,
            lifecycle: Lifecycle::Open,
            work_state: WorkState::Idle,
            container_id: None,
            origin: Origin::Local,
            backend_kind: None,
            backend_key: None,
            local_display_id: None,
            created_seq: 0,
            created_at: now,
            updated_at: now,
        }
    }
}

/// The Item that a draft becomes: it takes the next Display ID and the next
/// place in creation order.
pub open spec fn numbered(v: StoreView, draft: ItemView) -> ItemView {
    ItemView {
        display_id: next_display(v)->Ok_0,
        created_seq: next_of(v, Counter::ItemCreated)->Ok_0,
        ..draft
    }
}

/// The store with a draft created, or why it is not.
pub open spec fn created(v: StoreView, draft: ItemView) -> Result<StoreView, CreateError> {
    match next_display(v) {
        Err(DisplayIdError::Sequence(error)) => Err(CreateError::Sequence(error)),
        Err(DisplayIdError::PrefixMissing) => Err(CreateError::DisplayPrefixMissing),
        Ok(_) => match next_of(v, Counter::ItemCreated) {
            Err(error) => Err(CreateError::Sequence(error)),
            Ok(created_seq) => {
                let item = numbered(v, draft);
                match item_fault(v, item) {
                    Some(fault) => Err(CreateError::Sqlite(fault)),
                    None => Ok(
                        StoreView {
                            items: v.items.insert(place(v.items, created_seq), item),
                            display_seq: Some(v.display_seq->0 + 1),
                            item_created_seq: Some(created_seq),
                            ..v
                        },
                    ),
                }
            },
        },
    }
}

/// Gives a draft its Display ID and place and stores it.
fn create_item(store: &mut Store, draft: Item) -> (r: Result<String, CreateError>)
    requires
        old(store).wf(),
    ensures
        final(store).wf(),
        match r {
            Ok(display_id) => {
                &&& created(old(store)@, draft@) == Ok::<StoreView, CreateError>(final(store)@)
                &&& next_display(old(store)@) == Ok::<Seq<char>, DisplayIdError>(display_id@)
            },
            Err(error) => {
                &&& created(old(store)@, draft@) == Err::<StoreView, CreateError>(error)
                &&& final(store)@ == old(store)@
            },
        },
{
    let (display_id, number) = match next_display_id(store) {
        Ok(next) => next,
        Err(DisplayIdError::Sequence(error)) => {
            return Err(CreateError::Sequence(error));
        },
        Err(DisplayIdError::PrefixMissing) => {
            return Err(CreateError::DisplayPrefixMissing);
        },
    };
    let created_seq: i64 = match peek(store, Counter::ItemCreated) {
        Ok(created_seq) => created_seq,
        Err(error) => {
            return Err(CreateError::Sequence(error));
        },
    };
    let mut item = draft;
    item.display_id = display_id.clone();
    item.created_seq = created_seq;
    proof {
        assert(item@ =~= numbered(old(store)@, draft@));
    }
    match store.insert_item(item) {
        Ok(()) => {},
        Err(fault) => {
            return Err(CreateError::Sqlite(fault));
        },
    }
    store.set_counter(Counter::Display, Some(number));
    store.set_counter(Counter::ItemCreated, Some(created_seq));
    Ok(display_id)
}

/// Create a Local Ticket under the given internal ID.
pub fn create_local_ticket_as(
    store: &mut Store,
    now: &str,
    id: &str,
    input: &CreateLocalTicketInput<'_>,
) -> (r: Result<CreatedTicket, CreateError>)
    requires
        old(store).wf(),
    ensures
        final(store).wf(),
        match r {
            Ok(ticket) => {
                &&& created(old(store)@, input.drafted(id@, now@)) == Ok::<StoreView, CreateError>(
                    final(store)@,
                )
                &&& ticket.shows(numbered(old(store)@, input.drafted(id@, now@)))
            },
            Err(error) => {
                &&& created(old(store)@, input.drafted(id@, now@)) == Err::<
                    StoreView,
                    CreateError,
                >(error)
                &&& final(store)@ == old(store)@
            },
        },
{
    let draft = Item {
        id: id.to_owned(),
        display_id: String::new(),
        display_created_at: now.to_owned(),
        item_class: ItemClass::Ticket,
        ticket_kind: Some(input.kind),
        priority: Some(input.priority),
        selection_state: Some(SelectionState::Accepted),
        title: input.title.to_owned(),
        body: input.body.to_owned(),
        closing_reason: None,
        lifecycle: Lifecycle::Open,
        work_state: WorkState::Idle,
        container_id: own_text(input.parent_id),
        origin: Origin::Local,
        backend_kind: None,
        backend_key: None,
        local_display_id: None,
        created_seq: 0,
        created_at: now.to_owned(),
        updated_at: now.to_owned(),
    };
    proof {
        assert(draft@ =~= input.drafted(id@, now@));
    }
    match create_item(store, draft) {
        Ok(display_id) => Ok(
            CreatedTicket {
                id: id.to_owned(),
                display_id,
                kind: input.kind,
                priority: input.priority,
                status: ItemStatus::Open,
                origin: Origin::Local,
                title: input.title.to_owned(),
                body: input.body.to_owned(),
            },
        ),
        Err(error) => Err(error),
    }
}

/// Create a Local Epic under the given internal ID.
pub fn create_local_epic_as(
    store: &mut Store,
    now: &str,
    id: &str,
    input: &CreateLocalEpicInput<'_>,
) -> (r: Result<CreatedEpic, CreateError>)
    requires
        old(store).wf(),
    ensures
        final(store).wf(),
        match r {
            Ok(epic) => {
                &&& created(old(store)@, input.drafted(id@, now@)) == Ok::<StoreView, CreateError>(
                    final(store)@,
                )
                &&& epic.shows(numbered(old(store)@, input.drafted(id@, now@)))
            },
            Err(error) => {
                &&& created(old(store)@, input.drafted(id@, now@)) == Err::<
                    StoreView,
                    CreateError,
                >(error)
                &&& final(store)@ == old(store)@
            },
        },
{
    let draft = Item {
        id: id.to_owned(),
        display_id: String::new(),
        display_created_at: now.to_owned(),
        item_class: ItemClass::Epic,
        ticket_kind: None,
        priority: None,
        selection_state: None,
        title: input.title.to_owned(),
        body: input.body.to_owned(),
        closing_reason: None,
        lifecycle: Lifecycle::Open,
        work_state: WorkState::Idle,
        container_id: None,
        origin: Origin::Local,
        backend_kind: None,
        backend_key: None,
        local_display_id: None,
        created_seq: 0,
        created_at: now.to_owned(),
        updated_at: now.to_owned(),
    };
    proof {
        assert(draft@ =~= input.drafted(id@, now@));
    }
    match create_item(store, draft) {
        Ok(display_id) => Ok(
            CreatedEpic {
                id: id.to_owned(),
                display_id,
                status: ItemStatus::Open,
                origin: Origin::Local,
                title: input.title.to_owned(),
                body: input.body.to_owned(),
            },
        ),
        Err(error) => Err(error),
    }
}

impl CreatedTicket {
    /// Whether the snapshot shows the Ticket.
    pub open spec fn shows(&self, item: ItemView) -> bool {
        &&& self.id@ == item.id
        &&& self.display_id@ == item.display_id
        &&& item.ticket_kind == Some(self.kind)
        &&& item.priority == Some(self.priority)
        &&& self.status == item.status()
        &&& self.origin == item.origin
        &&& self.title@ == item.title
        &&& self.body@ == item.body
    }
}

impl CreatedEpic {
    /// Whether the snapshot shows the Epic.
    pub open spec fn shows(&self, item: ItemView) -> bool {
        &&& self.id@ == item.id
        &&& self.display_id@ == item.display_id
        &&& self.status == item.status()
        &&& self.origin == item.origin
        &&& self.title@ == item.title
        &&& self.body@ == item.body
    }
}

/// Create a Local Ticket under a freshly drawn internal ID.
///
/// Whether it fails does not hang on the ID that was drawn, unless that ID is
/// another Item's: it is created wherever every ID that may be drawn is free and
/// nothing else stands in the way.
pub fn create_local_ticket(
    store: &mut Store,
    now: &str,
    rng: &mut rand::rngs::StdRng,
    input: CreateLocalTicketInput<'_>,
) -> (r: Result<CreatedTicket, CreateError>)
    requires
        old(store).wf(),
    ensures
        final(store).wf(),
        match r {
            Ok(ticket) => {
                &&& is_internal_id(ticket.id@)
                &&& created(old(store)@, input.drafted(ticket.id@, now@)) == Ok::<
                    StoreView,
                    CreateError,
                >(final(store)@)
                &&& ticket.shows(numbered(old(store)@, input.drafted(ticket.id@, now@)))
            },
            Err(error) => {
                &&& final(store)@ == old(store)@
                &&& exists|id: Seq<char>|
                    is_internal_id(id) && created(
                        old(store)@,
                        #[trigger] input.drafted(id, now@),
                    ) == Err::<StoreView, CreateError>(error)
                &&& error == CreateError::Sqlite(Fault::IdTaken) || forall|id: Seq<char>|
                    !old(store)@.has(id) ==> created(
                        old(store)@,
                        #[trigger] input.drafted(id, now@),
                    ) == Err::<StoreView, CreateError>(error)
            },
        },
        (forall|id: Seq<char>|
            is_internal_id(id) ==> created(old(store)@, #[trigger] input.drafted(id, now@)) is Ok)
            ==> r is Ok,
{
    let id = generate_internal_id(rng);
    let r = create_local_ticket_as(store, now, id.as_str(), &input);
    r
}

/// Create a Local Epic under a freshly drawn internal ID.
///
/// Whether it fails does not hang on the ID that was drawn, unless that ID is
/// another Item's: it is created wherever every ID that may be drawn is free and
/// nothing else stands in the way.
pub fn create_local_epic(
    store: &mut Store,
    now: &str,
    rng: &mut rand::rngs::StdRng,
    input: CreateLocalEpicInput<'_>,
) -> (r: Result<CreatedEpic, CreateError>)
    requires
        old(store).wf(),
    ensures
        final(store).wf(),
        match r {
            Ok(epic) => {
                &&& is_internal_id(epic.id@)
                &&& created(old(store)@, input.drafted(epic.id@, now@)) == Ok::<
                    StoreView,
                    CreateError,
                >(final(store)@)
                &&& epic.shows(numbered(old(store)@, input.drafted(epic.id@, now@)))
            },
            Err(error) => {
                &&& final(store)@ == old(store)@
                &&& exists|id: Seq<char>|
                    is_internal_id(id) && created(
                        old(store)@,
                        #[trigger] input.drafted(id, now@),
                    ) == Err::<StoreView, CreateError>(error)
                &&& error == CreateError::Sqlite(Fault::IdTaken) || forall|id: Seq<char>|
                    !old(store)@.has(id) ==> created(
                        old(store)@,
                        #[trigger] input.drafted(id, now@),
                    ) == Err::<StoreView, CreateError>(error)
            },
        },
        (forall|id: Seq<char>|
            is_internal_id(id) ==> created(old(store)@, #[trigger] input.drafted(id, now@)) is Ok)
            ==> r is Ok,
{
    let id = generate_internal_id(rng);
    let r = create_local_epic_as(store, now, id.as_str(), &input);
    r
}

/// A created Item is there, named by its Display ID, and nothing else of the
/// store but two counters moves.
pub proof fn law_create_adds_one_item(v: StoreView, draft: ItemView)
    requires
        v.wf(),
        created(v, draft) is Ok,
    ensures
        ({
            let after = created(v, draft)->Ok_0;
            &&& after.items.len() == v.items.len() + 1
            &&& after.items.contains(numbered(v, draft))
            &&& forall|item: ItemView| v.items.contains(item) ==> #[trigger] after.items.contains(
                item,
            )
            &&& after == StoreView {
                items: after.items,
                display_seq: after.display_seq,
                item_created_seq: after.item_created_seq,
                ..v
            }
        }),
{
    crate::keep::lemma_insert_item(v, numbered(v, draft));
    crate::keep::lemma_insert_contains(
        v.items,
        place(v.items, numbered(v, draft).created_seq),
        numbered(v, draft),
    );
}

} // verus!
