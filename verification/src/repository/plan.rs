//! The Plan: which Tickets belong to it, and how they stand.
//!
//! An edit resolves its whole batch before it changes anything, and never
//! changes Tickets or appends Mutations.

use vstd::prelude::*;

use crate::domain::{ItemClass, ItemStatus, Lifecycle, Priority, SelectionState};
use crate::graph::{contains_text, texts};
use crate::keep::{lemma_push_plan, lemma_remove_plan};
use crate::rows::{Item, ItemView};
use crate::select::{in_table, picked};
use crate::tables::{keys, lemma_at, Store, StoreView};
use crate::text::same_text;

use super::pick::{blocker_places, blocks_from_outside, item_places};
use super::resolve::find_named;
use super::show::awaited_by;

verus! {

/// The change asked of the Plan.
#[derive(Clone, Copy, Debug, PartialEq, Eq, Structural)]
pub enum MembershipEdit {
    Add,
    Remove,
}

/// What became of one Ticket of the batch.
#[derive(Clone, Debug, PartialEq, Eq)]
pub struct MembershipResult {
    pub display_id: String,
    pub changed: bool,
}

/// Why a batch was refused; all membership is as it was.
#[derive(Debug)]
pub enum PlanError {
    /// The text is no Display ID or Alias.
    NotFound(String),
    /// The Display ID is an Epic's.
    NotATicket(String),
}

/// The model of [`PlanError`].
pub enum PlanFault {
    NotFound(Seq<char>),
    NotATicket(Seq<char>),
}

impl View for PlanError {
    type V = PlanFault;

    open spec fn view(&self) -> PlanFault {
        match self {
            PlanError::NotFound(id) => PlanFault::NotFound(id@),
            PlanError::NotATicket(id) => PlanFault::NotATicket(id@),
        }
    }
}

/// The Tickets that a batch names, each once, in the order it is first named;
/// or why the first text that names none does not.
pub open spec fn batch(v: StoreView, args: Seq<String>) -> Result<Seq<Seq<char>>, PlanFault>
    decreases args.len(),
{
    if args.len() == 0 {
        Ok(Seq::empty())
    } else {
        match batch(v, args.drop_last()) {
            Err(fault) => Err(fault),
            Ok(before) => match v.resolved(args.last()@) {
                None => Err(PlanFault::NotFound(args.last()@)),
                Some(id) => if v.item(id).item_class != ItemClass::Ticket {
                    Err(PlanFault::NotATicket(v.item(id).display_id))
                } else if before.contains(id) {
                    Ok(before)
                } else {
                    Ok(before.push(id))
                },
            },
        }
    }
}

/// The Plan with one Ticket edited.
pub open spec fn member_edited(plan: Seq<Seq<char>>, id: Seq<char>, edit: MembershipEdit) -> Seq<
    Seq<char>,
> {
    match edit {
        MembershipEdit::Add => if plan.contains(id) {
            plan
        } else {
            plan.push(id)
        },
        MembershipEdit::Remove => if plan.contains(id) {
            plan.remove(plan.index_of(id))
        } else {
            plan
        },
    }
}

/// The Plan with Tickets edited in order.
pub open spec fn members_edited(
    plan: Seq<Seq<char>>,
    targets: Seq<Seq<char>>,
    edit: MembershipEdit,
) -> Seq<Seq<char>>
    decreases targets.len(),
{
    if targets.len() == 0 {
        plan
    } else {
        member_edited(members_edited(plan, targets.drop_last(), edit), targets.last(), edit)
    }
}

/// Whether an edit changes the membership of a Ticket.
pub open spec fn changes(plan: Seq<Seq<char>>, id: Seq<char>, edit: MembershipEdit) -> bool {
    match edit {
        MembershipEdit::Add => !plan.contains(id),
        MembershipEdit::Remove => plan.contains(id),
    }
}

proof fn lemma_batch_fails(v: StoreView, args: Seq<String>, n: int)
    requires
        0 <= n <= args.len(),
        batch(v, args.take(n)) is Err,
    ensures
        batch(v, args) == batch(v, args.take(n)),
    decreases args.len() - n,
{
    if n < args.len() {
        assert(args.take(n + 1).drop_last() =~= args.take(n));
        lemma_batch_fails(v, args, n + 1);
    } else {
        assert(args.take(n) =~= args);
    }
}

/// The Tickets that a batch names.
fn resolve_batch(store: &Store, args: &[String]) -> (r: Result<Vec<String>, PlanError>)
    requires
        store.wf(),
    ensures
        match r {
            Ok(targets) => {
                &&& batch(store@, args@) == Ok::<Seq<Seq<char>>, PlanFault>(texts(targets@))
                &&& texts(targets@).no_duplicates()
                &&& forall|k: int|
                    0 <= k < targets@.len() ==> keys(store@.items).contains(
                        ((#[trigger] texts(targets@)[k]), ItemClass::Ticket),
                    )
            },
            Err(error) => batch(store@, args@) == Err::<Seq<Seq<char>>, PlanFault>(error@),
        },
{
    let mut targets: Vec<String> = Vec::new();
    let mut i: usize = 0;
    proof {
        assert(texts(targets@) =~= Seq::empty());
        assert(args@.take(0).len() == 0);
    }
    while i < args.len()
        invariant
            0 <= i <= args@.len(),
            store.wf(),
            batch(store@, args@.take(i as int)) == Ok::<Seq<Seq<char>>, PlanFault>(
                texts(targets@),
            ),
            texts(targets@).no_duplicates(),
            forall|k: int|
                0 <= k < targets@.len() ==> keys(store@.items).contains(
                    ((#[trigger] texts(targets@)[k]), ItemClass::Ticket),
                ),
        decreases args@.len() - i,
    {
        let ghost head = args@.take(i + 1);
        proof {
            assert(head.drop_last() =~= args@.take(i as int));
            assert(head.last() == args@[i as int]);
        }
        let at: usize = match find_named(store, args[i].as_str()) {
            Some(at) => at,
            None => {
                proof {
                    lemma_batch_fails(store@, args@, i + 1);
                }
                return Err(PlanError::NotFound(args[i].clone()));
            },
        };
        let item = store.item(at);
        if item.item_class != ItemClass::Ticket {
            proof {
                lemma_batch_fails(store@, args@, i + 1);
            }
            return Err(PlanError::NotATicket(item.display_id.clone()));
        }
        let ghost before = texts(targets@);
        if !contains_text(&targets, item.id.as_str()) {
            targets.push(item.id.clone());
            proof {
                let now = texts(targets@);
                assert(now =~= before.push(item.id@));
                assert(keys(store@.items)[at as int] == (item.id@, ItemClass::Ticket));
                assert forall|k: int| 0 <= k < now.len() implies keys(store@.items).contains(
                    ((#[trigger] now[k]), ItemClass::Ticket),
                ) by {
                    if k < before.len() {
                        assert(now[k] == before[k]);
                    }
                }
                assert forall|a: int, b: int| 0 <= a < b < now.len() implies now[a] != now[b] by {
                    if b == before.len() {
                        assert(before.contains(before[a]));
                    }
                }
            }
        }
        i = i + 1;
    }
    proof {
        assert(args@.take(i as int) =~= args@);
    }
    Ok(targets)
}

/// Edits of other Tickets leave a Ticket's membership alone.
proof fn lemma_others_kept(
    plan: Seq<Seq<char>>,
    targets: Seq<Seq<char>>,
    edit: MembershipEdit,
    id: Seq<char>,
)
    requires
        plan.no_duplicates(),
        !targets.contains(id),
    ensures
        members_edited(plan, targets, edit).contains(id) == plan.contains(id),
        members_edited(plan, targets, edit).no_duplicates(),
    decreases targets.len(),
{
    if targets.len() > 0 {
        let rest = targets.drop_last();
        assert forall|k: int| 0 <= k < rest.len() implies rest[k] != id by {
            assert(targets[k] == rest[k]);
            assert(targets.contains(targets[k]));
        }
        lemma_others_kept(plan, rest, edit, id);
        assert(targets.contains(targets.last()));
        lemma_member_edited(members_edited(plan, rest, edit), targets.last(), edit, id);
    }
}

/// What editing one Ticket does to the membership of any.
proof fn lemma_member_edited(
    plan: Seq<Seq<char>>,
    target: Seq<char>,
    edit: MembershipEdit,
    id: Seq<char>,
)
    requires
        plan.no_duplicates(),
    ensures
        member_edited(plan, target, edit).no_duplicates(),
        id != target ==> member_edited(plan, target, edit).contains(id) == plan.contains(id),
        id == target ==> member_edited(plan, target, edit).contains(id) == (edit
            == MembershipEdit::Add),
{
    let now = member_edited(plan, target, edit);
    match edit {
        MembershipEdit::Add => {
            if !plan.contains(target) {
                assert(now[plan.len() as int] == target);
                if plan.contains(id) {
                    let k = choose|k: int| 0 <= k < plan.len() && plan[k] == id;
                    assert(now[k] == id);
                }
                if now.contains(id) && id != target {
                    let k = choose|k: int| 0 <= k < now.len() && now[k] == id;
                    assert(plan[k] == id);
                }
                assert forall|a: int, b: int| 0 <= a < b < now.len() implies now[a] != now[b] by {
                    if b == plan.len() {
                        assert(plan.contains(plan[a]));
                    }
                }
            }
        },
        MembershipEdit::Remove => {
            if plan.contains(target) {
                let at = plan.index_of(target);
                assert(0 <= at < plan.len() && plan[at] == target);
                assert forall|k: int| 0 <= k < now.len() implies now[k] == (if k < at {
                    plan[k]
                } else {
                    plan[k + 1]
                }) by {}
                if now.contains(id) {
                    let k = choose|k: int| 0 <= k < now.len() && now[k] == id;
                    let j = if k < at {
                        k
                    } else {
                        k + 1
                    };
                    assert(plan[j] == id);
                    assert(plan.contains(id));
                }
                if plan.contains(id) && id != target {
                    let k = choose|k: int| 0 <= k < plan.len() && plan[k] == id;
                    if k < at {
                        assert(now[k] == id);
                    } else {
                        assert(now[k - 1] == id);
                    }
                }
            }
        },
    }
}

/// Edits one Ticket's membership.
fn edit_member(store: &mut Store, id: &str, edit: MembershipEdit) -> (r: bool)
    requires
        old(store).wf(),
        keys(old(store)@.items).contains((id@, ItemClass::Ticket)),
    ensures
        final(store).wf(),
        final(store)@ == (StoreView {
            plan: member_edited(old(store)@.plan, id@, edit),
            ..old(store)@
        }),
        r == changes(old(store)@.plan, id@, edit),
{
    match edit {
        MembershipEdit::Add => {
            if store.in_plan(id) {
                return false;
            }
            proof {
                lemma_push_plan(store@, id@);
            }
            store.push_plan(id.to_owned());
            true
        },
        MembershipEdit::Remove => {
            let mut i: usize = 0;
            while i < store.plan_count()
                invariant
                    0 <= i <= store@.plan.len(),
                    store.wf(),
                    store@ == old(store)@,
                    edit == MembershipEdit::Remove,
                    forall|k: int| 0 <= k < i ==> store@.plan[k] != id@,
                decreases store@.plan.len() - i,
            {
                if same_text(store.plan_member(i).as_str(), id) {
                    proof {
                        let plan = store@.plan;
                        assert(plan[i as int] == id@);
                        let k = plan.index_of(id@);
                        assert(0 <= k < plan.len() && plan[k] == id@);
                        assert(k == i);
                        lemma_remove_plan(store@, i as int);
                    }
                    store.remove_plan_row(i);
                    return true;
                }
                i = i + 1;
            }
            false
        },
    }
}

/// Whether results report the edit of the Tickets.
pub open spec fn reports(
    v: StoreView,
    targets: Seq<Seq<char>>,
    edit: MembershipEdit,
    results: Seq<MembershipResult>,
) -> bool {
    &&& results.len() == targets.len()
    &&& forall|k: int|
        0 <= k < targets.len() ==> (#[trigger] results[k]).display_id@ == v.item(
            targets[k],
        ).display_id && results[k].changed == changes(v.plan, targets[k], edit)
}

/// Resolve and apply one membership edit, all or nothing; a Ticket named more
/// than once counts once.
pub fn edit_membership(store: &mut Store, ids: &[String], edit: MembershipEdit) -> (r: Result<
    Vec<MembershipResult>,
    PlanError,
>)
    requires
        old(store).wf(),
    ensures
        final(store).wf(),
        match r {
            Ok(results) => {
                let targets = batch(old(store)@, ids@)->Ok_0;
                &&& batch(old(store)@, ids@) is Ok
                &&& reports(old(store)@, targets, edit, results@)
                &&& final(store)@ == (StoreView {
                    plan: members_edited(old(store)@.plan, targets, edit),
                    ..old(store)@
                })
            },
            Err(error) => batch(old(store)@, ids@) == Err::<Seq<Seq<char>>, PlanFault>(error@)
                && final(store)@ == old(store)@,
        },
{
    let targets = match resolve_batch(store, ids) {
        Ok(targets) => targets,
        Err(error) => {
            return Err(error);
        },
    };
    let ghost v = store@;
    let ghost all = texts(targets@);
    let mut results: Vec<MembershipResult> = Vec::new();
    let mut i: usize = 0;
    proof {
        assert(all.take(0).len() == 0);
    }
    while i < targets.len()
        invariant
            0 <= i <= targets@.len(),
            store.wf(),
            v.wf(),
            all == texts(targets@),
            all.no_duplicates(),
            forall|k: int|
                0 <= k < all.len() ==> keys(v.items).contains(
                    ((#[trigger] all[k]), ItemClass::Ticket),
                ),
            store@ == (StoreView { plan: members_edited(v.plan, all.take(i as int), edit), ..v }),
            results@.len() == i,
            forall|k: int|
                0 <= k < i ==> (#[trigger] results@[k]).display_id@ == v.item(all[k]).display_id
                    && results@[k].changed == changes(v.plan, all[k], edit),
        decreases targets@.len() - i,
    {
        let id = &targets[i];
        let ghost head = all.take(i as int);
        proof {
            assert(all[i as int] == id@);
            assert(all.take(i + 1).drop_last() =~= head);
            assert(all.take(i + 1).last() == id@);
            assert(!head.contains(id@)) by {
                if head.contains(id@) {
                    let k = choose|k: int| 0 <= k < head.len() && head[k] == id@;
                    assert(all[k] == all[i as int]);
                }
            }
            lemma_others_kept(v.plan, head, edit, id@);
            let ks = keys(v.items);
            assert(ks.contains((all[i as int], ItemClass::Ticket)));
            let k = choose|k: int| 0 <= k < ks.len() && ks[k] == (id@, ItemClass::Ticket);
            lemma_at(v, k);
        }
        let display_id = match store.find(id.as_str()) {
            Some(at) => store.item(at).display_id.clone(),
            None => String::new(),
        };
        let changed = edit_member(store, id.as_str(), edit);
        results.push(MembershipResult { display_id, changed });
        i = i + 1;
    }
    proof {
        assert(all.take(i as int) =~= all);
    }
    Ok(results)
}

/// Clear the Plan, without changing Items; tells how many Tickets left.
pub fn clear(store: &mut Store) -> (r: usize)
    requires
        old(store).wf(),
    ensures
        final(store).wf(),
        r == old(store)@.plan.len(),
        final(store)@ == (StoreView { plan: Seq::empty(), ..old(store)@ }),
{
    let count: usize = store.plan_count();
    store.clear_plan();
    count
}

/// How one member of the Plan stands.
#[derive(Clone, Debug, PartialEq, Eq)]
pub struct PlanTicket {
    pub display_id: String,
    pub title: String,
    pub priority: Option<Priority>,
    pub status: ItemStatus,
    pub selection: SelectionState,
    pub blockers: Vec<PlanBlocker>,
}

/// What a member waits on.
#[derive(Clone, Debug, PartialEq, Eq)]
pub enum PlanBlocker {
    Dependency { display_id: String, outside_plan: bool },
    External { reason: String },
}

/// The sections of the Plan; every member is in exactly one.
#[derive(Clone, Copy, Debug, PartialEq, Eq, Structural)]
pub enum PlanSection {
    Ready,
    InProgress,
    Waiting,
    Done,
}

/// The section of a Ticket with the given state.
pub open spec fn section_of(status: ItemStatus, selection: SelectionState, waiting: bool) -> PlanSection {
    match status {
        ItemStatus::Done => PlanSection::Done,
        ItemStatus::Active => PlanSection::InProgress,
        ItemStatus::Open => if selection == SelectionState::Accepted && !waiting {
            PlanSection::Ready
        } else {
            PlanSection::Waiting
        },
    }
}

impl PlanTicket {
    /// The member's section. Done and active Tickets keep theirs even if they
    /// wait on something.
    pub fn section(&self) -> (r: PlanSection)
        ensures
            r == section_of(self.status, self.selection, self.blockers@.len() > 0),
    {
        match self.status {
            ItemStatus::Done => PlanSection::Done,
            ItemStatus::Active => PlanSection::InProgress,
            ItemStatus::Open => {
                if self.selection == SelectionState::Accepted && self.blockers.len() == 0 {
                    PlanSection::Ready
                } else {
                    PlanSection::Waiting
                }
            },
        }
    }

    /// Whether the member shows the Ticket.
    pub open spec fn shows(&self, v: StoreView, item: ItemView) -> bool {
        let inside = v.items.filter(awaited_by(v, item.id));
        let outside = v.external_blockers.filter(blocks_from_outside(item.id));
        &&& self.display_id@ == item.display_id
        &&& self.title@ == item.title
        &&& self.priority == item.priority
        &&& self.status == item.status()
        &&& item.selection_state == Some(self.selection)
        &&& self.blockers@.len() == inside.len() + outside.len()
        &&& forall|k: int|
            0 <= k < inside.len() ==> (match #[trigger] self.blockers@[k] {
                PlanBlocker::Dependency { display_id, outside_plan } => display_id@
                    == inside[k].display_id && outside_plan == !v.plan.contains(inside[k].id),
                PlanBlocker::External { .. } => false,
            })
        &&& forall|k: int|
            inside.len() <= k < inside.len() + outside.len() ==> (match #[trigger] self.blockers@[k] {
                PlanBlocker::Dependency { .. } => false,
                PlanBlocker::External { reason } => reason@ == outside[k - inside.len()].reason,
            })
    }
}

/// Whether the Item is a member of the Plan.
pub open spec fn planned(v: StoreView) -> spec_fn(ItemView) -> bool {
    |item: ItemView| v.plan.contains(item.id)
}

fn plan_ticket(store: &Store, i: usize) -> (r: PlanTicket)
    requires
        store.wf(),
        i < store@.items.len(),
        store@.plan.contains(store@.items[i as int].id),
    ensures
        r.shows(store@, store@.items[i as int]),
{
    let item = store.item(i);
    let id = item.id.as_str();
    proof {
        let p = choose|p: int| 0 <= p < store@.plan.len() && store@.plan[p] == item.id@;
        let ks = keys(store@.items);
        assert(ks.contains((store@.plan[p], ItemClass::Ticket)));
        let k = choose|k: int| 0 <= k < ks.len() && ks[k] == (item.id@, ItemClass::Ticket);
        lemma_at(store@, k);
        lemma_at(store@, i as int);
        assert(item@.admitted());
    }
    let selection = match item.selection_state {
        Some(selection) => selection,
        None => SelectionState::Triage,
    };
    let holds = |other: &Item| -> (b: bool)
        ensures
            b == (awaited_by(store@, id@))(other@),
    {
        other.lifecycle != Lifecycle::Done && store.find_dependency(
            id,
            other.id.as_str(),
        ).is_some()
    };
    let at = item_places(store, holds, Ghost(awaited_by(store@, id@)));
    let ghost inside = picked(store@.items, at@);
    let mut blockers: Vec<PlanBlocker> = Vec::new();
    let mut k: usize = 0;
    while k < at.len()
        invariant
            0 <= k <= at@.len(),
            in_table(at@, store@.items.len() as int),
            inside == picked(store@.items, at@),
            blockers@.len() == k,
            forall|j: int|
                0 <= j < k ==> (match #[trigger] blockers@[j] {
                    PlanBlocker::Dependency { display_id, outside_plan } => display_id@
                        == inside[j].display_id && outside_plan == !store@.plan.contains(
                        inside[j].id,
                    ),
                    PlanBlocker::External { .. } => false,
                }),
        decreases at@.len() - k,
    {
        let other = store.item(at[k]);
        proof {
            assert(inside[k as int] == other@);
        }
        blockers.push(
            PlanBlocker::Dependency {
                display_id: other.display_id.clone(),
                outside_plan: !store.in_plan(other.id.as_str()),
            },
        );
        k = k + 1;
    }
    let ext = blocker_places(store, id);
    let ghost outside = picked(store@.external_blockers, ext@);
    let mut e: usize = 0;
    while e < ext.len()
        invariant
            0 <= e <= ext@.len(),
            in_table(ext@, store@.external_blockers.len() as int),
            outside == picked(store@.external_blockers, ext@),
            blockers@.len() == inside.len() + e,
            forall|j: int|
                0 <= j < inside.len() ==> (match #[trigger] blockers@[j] {
                    PlanBlocker::Dependency { display_id, outside_plan } => display_id@
                        == inside[j].display_id && outside_plan == !store@.plan.contains(
                        inside[j].id,
                    ),
                    PlanBlocker::External { .. } => false,
                }),
            forall|j: int|
                inside.len() <= j < inside.len() + e ==> (match #[trigger] blockers@[j] {
                    PlanBlocker::Dependency { .. } => false,
                    PlanBlocker::External { reason } => reason@ == outside[j
                        - inside.len()].reason,
                }),
        decreases ext@.len() - e,
    {
        let b = store.external_blocker(ext[e]);
        proof {
            assert(outside[e as int] == b@);
        }
        blockers.push(PlanBlocker::External { reason: b.reason.clone() });
        e = e + 1;
    }
    PlanTicket {
        display_id: item.display_id.clone(),
        title: item.title.clone(),
        priority: item.priority,
        status: item.status(),
        selection,
        blockers,
    }
}

/// Read every member of the Plan, whatever its Origin or state, in creation
/// order.
pub fn read(store: &Store) -> (r: Vec<PlanTicket>)
    requires
        store.wf(),
    ensures
        ({
            let members = store@.items.filter(planned(store@));
            &&& r@.len() == members.len()
            &&& forall|k: int|
                0 <= k < members.len() ==> (#[trigger] r@[k]).shows(store@, members[k])
        }),
{
    let holds = |item: &Item| -> (b: bool)
        ensures
            b == (planned(store@))(item@),
    {
        store.in_plan(item.id.as_str())
    };
    let at = item_places(store, holds, Ghost(planned(store@)));
    let ghost members = picked(store@.items, at@);
    proof {
        crate::select::lemma_filter_contains(store@.items, planned(store@));
    }
    let mut out: Vec<PlanTicket> = Vec::new();
    let mut k: usize = 0;
    while k < at.len()
        invariant
            0 <= k <= at@.len(),
            store.wf(),
            in_table(at@, store@.items.len() as int),
            members == picked(store@.items, at@),
            forall|j: int|
                0 <= j < members.len() ==> (planned(store@))(#[trigger] members[j]),
            out@.len() == k,
            forall|j: int| 0 <= j < k ==> (#[trigger] out@[j]).shows(store@, members[j]),
        decreases at@.len() - k,
    {
        proof {
            assert(members[k as int] == store@.items[at@[k as int] as int]);
        }
        out.push(plan_ticket(store, at[k]));
        k = k + 1;
    }
    out
}

// ---- Laws ---------------------------------------------------------------

/// After a batch every Ticket it names is a member, or none is, as it asks;
/// every other Ticket's membership stays.
pub proof fn law_membership_follows_the_batch(
    plan: Seq<Seq<char>>,
    targets: Seq<Seq<char>>,
    edit: MembershipEdit,
    id: Seq<char>,
)
    requires
        plan.no_duplicates(),
    ensures
        targets.contains(id) ==> members_edited(plan, targets, edit).contains(id) == (edit
            == MembershipEdit::Add),
        !targets.contains(id) ==> members_edited(plan, targets, edit).contains(id)
            == plan.contains(id),
        members_edited(plan, targets, edit).no_duplicates(),
    decreases targets.len(),
{
    if targets.len() > 0 {
        let rest = targets.drop_last();
        law_membership_follows_the_batch(plan, rest, edit, id);
        lemma_member_edited(members_edited(plan, rest, edit), targets.last(), edit, id);
        assert(targets[targets.len() - 1] == targets.last());
        if rest.contains(id) {
            let k = choose|k: int| 0 <= k < rest.len() && rest[k] == id;
            assert(targets[k] == id);
        }
        if targets.contains(id) && id != targets.last() {
            let k = choose|k: int| 0 <= k < targets.len() && targets[k] == id;
            assert(rest[k] == id);
        }
    }
}

} // verus!
