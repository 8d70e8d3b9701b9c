//! Field-level edits of an Item: title, body, Priority and containing Epic.

use vstd::prelude::*;

use crate::domain::{ItemClass, MutationType, Origin, Priority};
use crate::keep::{container_ok, lemma_edit_item};
use crate::mutations::{append, appended, AppendError, AppendRequest, AppendView};
use crate::payload::{
    epic_pairs, json_object, title_body_pairs, EpicRef, MutationPayload, TitleBody,
};
use crate::rows::{Item, ItemView};
use crate::tables::{lemma_at, lemma_has, Fault, Store, StoreView};
use crate::text::same_text;

verus! {

/// What an edit asks of the containing Epic.
#[derive(Clone, Copy, Debug)]
pub enum ParentOp<'a> {
    /// Leave it as it is.
    Unchanged,
    /// Take the Item out of its Epic.
    Clear,
    /// Put the Item into the Epic with the internal ID.
    To(&'a str),
}

impl<'a> Default for ParentOp<'a> {
    fn default() -> (r: Self)
        ensures
            r == ParentOp::<'a>::Unchanged,
    {
        ParentOp::Unchanged
    }
}

/// Input for [`update_item`].
#[derive(Debug)]
pub struct UpdateRequest<'a> {
    /// Internal ID of the Item to edit.
    pub id: &'a str,
    /// Class of the resolved Item.
    pub item_class: ItemClass,
    pub title: Option<&'a str>,
    pub body: Option<&'a str>,
    /// New Priority, or `None` to leave it.
    pub priority: Option<Priority>,
    pub parent: ParentOp<'a>,
}

impl<'a> Default for UpdateRequest<'a> {
    /// An edit of nothing, for a Ticket: a caller that edits an Epic says so.
    fn default() -> (r: Self)
        ensures
            r.id@ == ""@,
            r.item_class == ItemClass::Ticket,
            r.title is None,
            r.body is None,
            r.priority is None,
            r.parent == ParentOp::<'a>::Unchanged,
    {
        UpdateRequest {
            id: "",
            item_class: ItemClass::Ticket,
            title: None,
            body: None,
            priority: None,
            parent: ParentOp::Unchanged,
        }
    }
}

/// What an edit hands back.
#[derive(Clone, Debug, PartialEq, Eq)]
pub struct UpdatedItem {
    pub display_id: String,
    pub title: String,
    pub item_class: ItemClass,
}

/// Why an Item was not edited.
#[derive(Debug)]
pub enum UpdateError {
    NotFound,
    /// The store does not admit the edited Item.
    Sqlite(Fault),
    Mutation(AppendError),
}

impl<'a> UpdateRequest<'a> {
    /// The Item with the requested values, its time of change left alone.
    pub open spec fn edited(&self, item: ItemView) -> ItemView {
        ItemView {
            title: match self.title {
                Some(title) => title@,
                None => item.title,
            },
            body: match self.body {
                Some(body) => body@,
                None => item.body,
            },
            priority: match self.priority {
                Some(priority) => Some(priority),
                None => item.priority,
            },
            container_id: match self.parent {
                ParentOp::Unchanged => item.container_id,
                ParentOp::Clear => None,
                ParentOp::To(target) => Some(target@),
            },
            ..item
        }
    }

    /// A request to the outbox for the Item.
    pub open spec fn mutation(
        &self,
        mutation_type: MutationType,
        payload: Seq<char>,
        now: Seq<char>,
    ) -> AppendView {
        AppendView {
            mutation_type,
            item_id: self.id@,
            item_class: self.item_class,
            payload,
            operation: None,
            now,
        }
    }

    /// What an edit of a Backend Item appends: that it left its old Epic, that
    /// it joined the new one, and its title and body, each where it changed.
    pub open spec fn requests(
        &self,
        before: ItemView,
        after: ItemView,
        now: Seq<char>,
    ) -> Seq<AppendView> {
        let left = if before.container_id != after.container_id && before.container_id is Some {
            seq![
                self.mutation(
                    MutationType::RemoveTicketFromEpic,
                    json_object(epic_pairs(before.container_id->0)),
                    now,
                ),
            ]
        } else {
            Seq::empty()
        };
        let joined = if before.container_id != after.container_id && after.container_id is Some {
            seq![
                self.mutation(
                    MutationType::AddTicketToEpic,
                    json_object(epic_pairs(after.container_id->0)),
                    now,
                ),
            ]
        } else {
            Seq::empty()
        };
        let rewritten = if before.title != after.title || before.body != after.body {
            seq![
                self.mutation(
                    self.item_class.update_type(),
                    json_object(title_body_pairs(after.title, after.body)),
                    now,
                ),
            ]
        } else {
            Seq::empty()
        };
        left + joined + rewritten
    }
}

/// The store with requests appended in order, or why one is not.
pub open spec fn all_appended(v: StoreView, requests: Seq<AppendView>) -> Result<
    StoreView,
    AppendError,
>
    decreases requests.len(),
{
    if requests.len() == 0 {
        Ok(v)
    } else {
        match all_appended(v, requests.drop_last()) {
            Err(error) => Err(error),
            Ok(before) => appended(before, requests.last()),
        }
    }
}

/// The store with an Item edited, or why it is not.
pub open spec fn updated(v: StoreView, request: UpdateRequest<'_>, now: Seq<char>) -> Result<
    StoreView,
    UpdateError,
> {
    let before = v.item(request.id@);
    let after = request.edited(before);
    if !v.has(request.id@) {
        Err(UpdateError::NotFound)
    } else if after == before {
        Ok(v)
    } else if !after.admitted() {
        Err(UpdateError::Sqlite(Fault::Check))
    } else {
        let queued = if before.origin == Origin::Backend {
            all_appended(v, request.requests(before, after, now))
        } else {
            Ok(v)
        };
        match queued {
            Err(error) => Err(UpdateError::Mutation(error)),
            Ok(log) => if !container_ok(v, after.container_id) {
                Err(UpdateError::Sqlite(Fault::ForeignKey))
            } else {
                Ok(
                    StoreView {
                        items: v.items.update(
                            v.at(request.id@),
                            ItemView { updated_at: now, ..after },
                        ),
                        ..log
                    },
                )
            },
        }
    }
}

/// What failed for some of the requests fails for all of them.
proof fn lemma_all_fail(v: StoreView, requests: Seq<AppendView>, n: int)
    requires
        0 <= n <= requests.len(),
        all_appended(v, requests.take(n)) is Err,
    ensures
        all_appended(v, requests) == all_appended(v, requests.take(n)),
    decreases requests.len() - n,
{
    if n < requests.len() {
        assert(requests.take(n + 1).drop_last() =~= requests.take(n));
        lemma_all_fail(v, requests, n + 1);
    } else {
        assert(requests.take(n) =~= requests);
    }
}

/// Appends one more of the requests.
fn append_one(
    work: &mut Store,
    request: AppendRequest<'_>,
    Ghost(v): Ghost<StoreView>,
    Ghost(requests): Ghost<Seq<AppendView>>,
    Ghost(n): Ghost<int>,
) -> (r: Result<(), AppendError>)
    requires
        old(work).wf(),
        0 <= n < requests.len(),
        requests[n] == request@,
        all_appended(v, requests.take(n)) == Ok::<StoreView, AppendError>(old(work)@),
    ensures
        final(work).wf(),
        match r {
            Ok(()) => {
                &&& all_appended(v, requests.take(n + 1)) == Ok::<StoreView, AppendError>(
                    final(work)@,
                )
                &&& final(work)@.items == old(work)@.items
            },
            Err(error) => {
                &&& all_appended(v, requests) == Err::<StoreView, AppendError>(error)
                &&& final(work)@ == old(work)@
            },
        },
{
    proof {
        assert(requests.take(n + 1).drop_last() =~= requests.take(n));
        assert(requests.take(n + 1).last() == requests[n]);
    }
    match append(work, request) {
        Ok(_) => Ok(()),
        Err(error) => {
            proof {
                lemma_all_fail(v, requests, n + 1);
            }
            Err(error)
        },
    }
}

/// Whether the requested title or body differs.
fn rewrites(item: &Item, req: &UpdateRequest<'_>) -> (r: bool)
    ensures
        r == (req.edited(item@).title != item@.title || req.edited(item@).body != item@.body),
{
    let new_title = match req.title {
        Some(title) => !same_text(title, item.title.as_str()),
        None => false,
    };
    let new_body = match req.body {
        Some(body) => !same_text(body, item.body.as_str()),
        None => false,
    };
    new_title || new_body
}

/// Whether the requested Priority differs.
fn reprioritises(item: &Item, req: &UpdateRequest<'_>) -> (r: bool)
    ensures
        r == (req.edited(item@).priority != item@.priority),
{
    match req.priority {
        Some(priority) => match item.priority {
            Some(current) => current != priority,
            None => true,
        },
        None => false,
    }
}

/// Whether the requested Epic differs.
fn moves(item: &Item, req: &UpdateRequest<'_>) -> (r: bool)
    ensures
        r == (req.edited(item@).container_id != item@.container_id),
{
    match req.parent {
        ParentOp::Unchanged => false,
        ParentOp::Clear => item.container_id.is_some(),
        ParentOp::To(target) => match &item.container_id {
            Some(current) => !same_text(current.as_str(), target),
            None => true,
        },
    }
}

/// The Item with the requested values.
fn write_columns(item: &Item, req: &UpdateRequest<'_>) -> (r: Item)
    ensures
        r@ == req.edited(item@),
{
    let mut out = item.copy();
    if let Some(title) = req.title {
        out.title = title.to_owned();
    }
    if let Some(body) = req.body {
        out.body = body.to_owned();
    }
    if let Some(priority) = req.priority {
        out.priority = Some(priority);
    }
    match req.parent {
        ParentOp::Unchanged => {},
        ParentOp::Clear => {
            out.container_id = None;
        },
        ParentOp::To(target) => {
            out.container_id = Some(target.to_owned());
        },
    }
    proof {
        assert(out@ =~= req.edited(item@));
    }
    out
}

/// Queues what the Backend is to be told of an edit.
fn queue(
    work: &mut Store,
    req: &UpdateRequest<'_>,
    before: &Item,
    after: &Item,
    now: &str,
) -> (r: Result<(), AppendError>)
    requires
        old(work).wf(),
        after@ == req.edited(before@),
    ensures
        final(work).wf(),
        final(work)@.items == old(work)@.items,
        match r {
            Ok(()) => all_appended(old(work)@, req.requests(before@, after@, now@)) == Ok::<
                StoreView,
                AppendError,
            >(final(work)@),
            Err(error) => all_appended(old(work)@, req.requests(before@, after@, now@)) == Err::<
                StoreView,
                AppendError,
            >(error),
        },
{
    let ghost v = work@;
    let ghost requests = req.requests(before@, after@, now@);
    let ghost mut n: int = 0;
    proof {
        assert(requests.take(0).len() == 0);
    }
    if moves(before, req) {
        if let Some(epic_id) = &before.container_id {
            let payload = MutationPayload::EpicRef(EpicRef { epic_id: epic_id.clone() });
            append_one(
                work,
                AppendRequest {
                    mutation_type: MutationType::RemoveTicketFromEpic,
                    item_id: req.id,
                    item_class: req.item_class,
                    payload: &payload,
                    promotion_operation_id: None,
                    now_iso: now,
                },
                Ghost(v),
                Ghost(requests),
                Ghost(n),
            )?;
            proof {
                n = n + 1;
            }
        }
        if let Some(epic_id) = &after.container_id {
            let payload = MutationPayload::EpicRef(EpicRef { epic_id: epic_id.clone() });
            append_one(
                work,
                AppendRequest {
                    mutation_type: MutationType::AddTicketToEpic,
                    item_id: req.id,
                    item_class: req.item_class,
                    payload: &payload,
                    promotion_operation_id: None,
                    now_iso: now,
                },
                Ghost(v),
                Ghost(requests),
                Ghost(n),
            )?;
            proof {
                n = n + 1;
            }
        }
    }
    if rewrites(before, req) {
        let payload = MutationPayload::UpdateTitleBody(
            TitleBody { title: after.title.clone(), body: after.body.clone() },
        );
        append_one(
            work,
            AppendRequest {
                mutation_type: req.item_class.update_mutation_type(),
                item_id: req.id,
                item_class: req.item_class,
                payload: &payload,
                promotion_operation_id: None,
                now_iso: now,
            },
            Ghost(v),
            Ghost(requests),
            Ghost(n),
        )?;
        proof {
            n = n + 1;
        }
    }
    proof {
        assert(requests.take(n) =~= requests);
    }
    Ok(())
}

/// Edit an Item: only what differs from its current state is written.
///
/// A Backend Item's edit also queues what the Backend is to be told; Priority
/// stays in the store. Where nothing differs, nothing is written.
pub fn update_item(store: &mut Store, now: &str, req: UpdateRequest<'_>) -> (r: Result<
    UpdatedItem,
    UpdateError,
>)
    requires
        old(store).wf(),
    ensures
        final(store).wf(),
        match r {
            Ok(snapshot) => {
                &&& updated(old(store)@, req, now@) == Ok::<StoreView, UpdateError>(final(store)@)
                &&& snapshot.display_id@ == old(store)@.item(req.id@).display_id
                &&& snapshot.title@ == req.edited(old(store)@.item(req.id@)).title
                &&& snapshot.item_class == req.item_class
            },
            Err(error) => {
                &&& updated(old(store)@, req, now@) == Err::<StoreView, UpdateError>(error)
                &&& final(store)@ == old(store)@
            },
        },
{
    let i: usize = match store.find(req.id) {
        Some(i) => i,
        None => {
            return Err(UpdateError::NotFound);
        },
    };
    let current = store.item(i);
    let mut item = write_columns(current, &req);
    let snapshot = UpdatedItem {
        display_id: item.display_id.clone(),
        title: item.title.clone(),
        item_class: req.item_class,
    };
    if !rewrites(current, &req) && !reprioritises(current, &req) && !moves(current, &req) {
        proof {
            assert(req.edited(current@) =~= current@);
        }
        return Ok(snapshot);
    }
    if !item.is_admitted() {
        return Err(UpdateError::Sqlite(Fault::Check));
    }
    let mut work = store.copy();
    if current.origin == Origin::Backend {
        match queue(&mut work, &req, current, &item, now) {
            Ok(()) => {},
            Err(error) => {
                return Err(UpdateError::Mutation(error));
            },
        }
    }
    if let Some(container) = &item.container_id {
        if !store.has_key(container.as_str(), ItemClass::Epic) {
            return Err(UpdateError::Sqlite(Fault::ForeignKey));
        }
    }
    let ghost after = item@;
    item.updated_at = now.to_owned();
    proof {
        assert(item@ =~= ItemView { updated_at: now@, ..after });
        lemma_edit_item(work@, i as int, item@);
    }
    work.put_item(i, item);
    *store = work;
    Ok(snapshot)
}

// ---- Laws ---------------------------------------------------------------

/// The same edit once more changes nothing.
pub proof fn law_update_is_idempotent(
    v: StoreView,
    request: UpdateRequest<'_>,
    now: Seq<char>,
    later: Seq<char>,
)
    requires
        v.wf(),
        updated(v, request, now) is Ok,
    ensures
        updated(updated(v, request, now)->Ok_0, request, later) == updated(v, request, now),
{
    let once = updated(v, request, now)->Ok_0;
    lemma_has(v, request.id@);
    let i = v.at(request.id@);
    if once != v {
        assert(crate::tables::ids(once.items) =~= crate::tables::ids(v.items));
        lemma_at(once, i);
        assert(once.item(request.id@) == once.items[i]);
        assert(request.edited(once.items[i]) =~= once.items[i]);
    }
}

/// An edit of a Local Item queues nothing.
pub proof fn law_local_edits_queue_nothing(
    v: StoreView,
    request: UpdateRequest<'_>,
    now: Seq<char>,
)
    requires
        updated(v, request, now) is Ok,
        v.item(request.id@).origin == Origin::Local,
    ensures
        updated(v, request, now)->Ok_0.mutations == v.mutations,
        updated(v, request, now)->Ok_0.mutation_seq == v.mutation_seq,
{
}

/// A change of Priority alone queues nothing, on a Backend Item too.
pub proof fn law_priority_edits_queue_nothing(
    v: StoreView,
    request: UpdateRequest<'_>,
    now: Seq<char>,
)
    requires
        updated(v, request, now) is Ok,
        request.title is None,
        request.body is None,
        request.parent == ParentOp::<'_>::Unchanged,
    ensures
        updated(v, request, now)->Ok_0.mutations == v.mutations,
        updated(v, request, now)->Ok_0.mutation_seq == v.mutation_seq,
{
    let before = v.item(request.id@);
    let after = request.edited(before);
    assert(request.requests(before, after, now) =~= Seq::empty());
}

} // verus!
