//! Promoting Items: what a plan queues, what a receipt turns an Item into, and
//! how a Promotion whose outcome is open is settled.

use vstd::prelude::*;

use crate::domain::{BackendKind, ItemClass, MutationState, MutationType, Origin};
use crate::laws::facts::{
    items_kept_but, lemma_first_selected, lemma_log_grew, lemma_none_selected, lemma_one_row,
    lemma_row, makes_object, unsettled, unused_name,
};
use crate::laws::log::is_called;
use crate::mutations::{appended, awaited_before, awaited_promotion_of, promotion_of};
use crate::payload::{json_member, json_object, json_strings, promotion_in};
use crate::promotion::commit::{committed, drafts_appended, CommitPlanError, MutationDraft};
use crate::promotion::receipt::{receipt_applied, ReceiptFault};
use crate::promotion::recovery::{
    earlier_fault, reconcile_refusal, reconciled, recoverable, retried, RecoveryFault, RecoveryView,
};
use crate::rows::{AliasView, MutationView};
use crate::tables::StoreView;
use crate::text::folded;

verus! {

/// The Mutation that a draft is queued as.
pub open spec fn row_of(
    draft: MutationDraft,
    sequence: int,
    operation_id: Seq<char>,
    now: Seq<char>,
) -> MutationView {
    MutationView {
        sequence,
        mutation_type: draft.mutation_type,
        item_id: draft.item_id@,
        item_class: draft.item_class,
        payload_json: json_object(draft.payload.pairs()),
        state: MutationState::Pending,
        failure_json: None,
        created_at: now,
        state_changed_at: now,
        promotion_operation_id: Some(operation_id),
    }
}

/// Whether the Mutation for a draft is in the log.
pub open spec fn is_queued(
    after: StoreView,
    draft: MutationDraft,
    sequence: int,
    operation_id: Seq<char>,
    now: Seq<char>,
) -> bool {
    after.mutations.contains(row_of(draft, sequence, operation_id, now))
}

proof fn lemma_drafts(
    v: StoreView,
    drafts: Seq<MutationDraft>,
    operation_id: Seq<char>,
    now: Seq<char>,
)
    requires
        v.wf(),
        drafts_appended(v, drafts, operation_id, now) is Ok,
    ensures
        ({
            let after = drafts_appended(v, drafts, operation_id, now)->Ok_0;
            &&& after.wf()
            &&& after == StoreView {
                mutations: after.mutations,
                mutation_seq: after.mutation_seq,
                ..v
            }
            &&& after.mutations.len() == v.mutations.len() + drafts.len()
            &&& forall|m: MutationView|
                v.mutations.contains(m) ==> #[trigger] after.mutations.contains(m)
            &&& drafts.len() > 0 ==> v.mutation_seq is Some && after.mutation_seq == Some(
                v.mutation_seq->0 + drafts.len(),
            )
            &&& drafts.len() == 0 ==> after == v
            &&& forall|k: int|
                0 <= k < drafts.len() ==> is_queued(
                    after,
                    #[trigger] drafts[k],
                    v.mutation_seq->0 + 1 + k,
                    operation_id,
                    now,
                )
        }),
    decreases drafts.len(),
{
    if drafts.len() > 0 {
        let rest = drafts.drop_last();
        lemma_drafts(v, rest, operation_id, now);
        let before = drafts_appended(v, rest, operation_id, now)->Ok_0;
        let request = drafts.last().request(operation_id, now);
        lemma_log_grew(before, request);
        let after = drafts_appended(v, drafts, operation_id, now)->Ok_0;
        crate::keep::lemma_insert_mutation(
            before,
            crate::mutations::pending_row(request, before.mutation_seq->0 + 1),
        );
        assert forall|k: int| 0 <= k < drafts.len() implies is_queued(
            after,
            #[trigger] drafts[k],
            v.mutation_seq->0 + 1 + k,
            operation_id,
            now,
        ) by {
            if k < rest.len() {
                assert(rest[k] == drafts[k]);
                assert(is_queued(before, rest[k], v.mutation_seq->0 + 1 + k, operation_id, now));
            }
        }
    }
}

/// A committed plan queues its drafts as one operation, each as it was drafted,
/// in the order that the plan gives them; every Mutation that was in the log
/// stays as it was, and nothing but the log changes.
pub proof fn law_what_a_commit_queues(
    v: StoreView,
    drafts: Seq<MutationDraft>,
    expected: BackendKind,
    operation_id: Seq<char>,
    now: Seq<char>,
)
    requires
        v.wf(),
        committed(v, drafts, expected, operation_id, now) is Ok,
    ensures
        ({
            let after = committed(v, drafts, expected, operation_id, now)->Ok_0;
            &&& after == StoreView {
                mutations: after.mutations,
                mutation_seq: after.mutation_seq,
                ..v
            }
            &&& after.mutations.len() == v.mutations.len() + drafts.len()
            &&& forall|m: MutationView|
                v.mutations.contains(m) ==> #[trigger] after.mutations.contains(m)
            &&& forall|k: int|
                0 <= k < drafts.len() ==> is_queued(
                    after,
                    #[trigger] drafts[k],
                    v.mutation_seq->0 + 1 + k,
                    operation_id,
                    now,
                )
        }),
{
    lemma_drafts(v, drafts, operation_id, now);
}

/// A plan made for one Backend is refused where another is configured, or none,
/// and where the store keeps to another. A plan that passes both is refused
/// only for a draft that cannot be appended.
pub proof fn law_when_a_commit_is_refused(
    v: StoreView,
    drafts: Seq<MutationDraft>,
    expected: BackendKind,
    operation_id: Seq<char>,
    now: Seq<char>,
)
    ensures
        v.remote_kind != Some(expected) ==> committed(v, drafts, expected, operation_id, now)
            == Err::<StoreView, CommitPlanError>(
            CommitPlanError::RemoteChanged { expected, actual: v.remote_kind },
        ),
        v.remote_kind == Some(expected) ==> forall|kind: BackendKind|
            kind != expected && #[trigger] crate::laws::log::is_used(v, kind) ==> committed(
                v,
                drafts,
                expected,
                operation_id,
                now,
            ) is Err && committed(v, drafts, expected, operation_id, now)->Err_0 is BackendCohort,
        v.remote_kind == Some(expected) && (forall|kind: BackendKind|
            kind != expected ==> !#[trigger] crate::laws::log::is_used(v, kind)) && committed(
            v,
            drafts,
            expected,
            operation_id,
            now,
        ) is Err ==> committed(v, drafts, expected, operation_id, now)->Err_0 is Append,
{
    crate::laws::log::law_a_store_keeps_to_one_backend(v, expected);
}

/// A receipt puts the Item on the Backend under the identity that it brings.
/// The Display ID that the Item had stays on record and becomes an Alias as old
/// as it was. Nothing else of the Item changes, and nothing else of the store.
pub proof fn law_what_a_receipt_writes(
    v: StoreView,
    id: Seq<char>,
    backend_kind: Seq<char>,
    backend_key: Seq<char>,
    display_id: Seq<char>,
    now: Seq<char>,
)
    requires
        v.wf(),
        receipt_applied(v, id, backend_kind, backend_key, display_id, now) is Ok,
    ensures
        ({
            let after = receipt_applied(v, id, backend_kind, backend_key, display_id, now)->Ok_0;
            let before = v.item(id);
            let item = after.item(id);
            &&& before.origin == Origin::Local
            &&& item.origin == Origin::Backend
            &&& item.backend_kind == Some(backend_kind)
            &&& item.backend_key == Some(backend_key)
            &&& item.display_id == display_id
            &&& item.local_display_id == Some(before.display_id)
            &&& item.display_created_at == now
            &&& item.updated_at == now
            &&& item == crate::rows::ItemView {
                origin: item.origin,
                backend_kind: item.backend_kind,
                backend_key: item.backend_key,
                display_id: item.display_id,
                local_display_id: item.local_display_id,
                display_created_at: item.display_created_at,
                updated_at: item.updated_at,
                ..before
            }
            &&& after == StoreView { items: after.items, aliases: after.aliases, ..v }
            &&& items_kept_but(v, after, id)
            &&& after.aliases == v.aliases.push(
                AliasView {
                    value: before.display_id,
                    item_id: id,
                    created_at: before.display_created_at,
                },
            )
        }),
{
    lemma_row(v, id);
    let after = receipt_applied(v, id, backend_kind, backend_key, display_id, now)->Ok_0;
    assert(v.item(id).admitted());
    lemma_one_row(v, after, id, after.items[v.at(id)]);
}

/// Whether another Item is on the Backend under the key, or was.
pub open spec fn key_used(
    v: StoreView,
    id: Seq<char>,
    backend_kind: Seq<char>,
    backend_key: Seq<char>,
) -> bool {
    ||| exists|i: int|
        0 <= i < v.items.len() && (#[trigger] v.items[i]).id != id && v.items[i].backend_kind
            == Some(backend_kind) && v.items[i].backend_key == Some(backend_key)
    ||| exists|i: int|
        0 <= i < v.former_identities.len() && (#[trigger] v.former_identities[i]).item_id != id
            && v.former_identities[i].backend_kind == backend_kind
            && v.former_identities[i].backend_key == backend_key
}

/// A receipt is taken exactly for an Item that is there and Local, under a
/// Display ID that nothing goes by and a key that no other Item has or had.
pub proof fn law_when_a_receipt_is_refused(
    v: StoreView,
    id: Seq<char>,
    backend_kind: Seq<char>,
    backend_key: Seq<char>,
    display_id: Seq<char>,
    now: Seq<char>,
)
    requires
        v.wf(),
    ensures
        ({
            let r = receipt_applied(v, id, backend_kind, backend_key, display_id, now);
            let there = exists|i: int| 0 <= i < v.items.len() && (#[trigger] v.items[i]).id == id;
            &&& !there ==> r == Err::<StoreView, ReceiptFault>(ReceiptFault::ItemNotFound(id))
            &&& there && v.item(id).origin == Origin::Backend ==> r == Err::<
                StoreView,
                ReceiptFault,
            >(ReceiptFault::TargetNotLocal(id))
            &&& there && v.item(id).origin == Origin::Local ==> (r is Ok) == (unused_name(
                v,
                display_id,
            ) && !key_used(v, id, backend_kind, backend_key))
        }),
{
    if v.has(id) {
        lemma_row(v, id);
        assert(v.items[v.at(id)].id == id);
    } else {
        assert forall|i: int| 0 <= i < v.items.len() implies (#[trigger] v.items[i]).id != id by {
            crate::laws::facts::lemma_row_has(v, i);
        }
    }
}

/// Whether a Mutation is an unsettled Promotion of the Item.
pub open spec fn open_promotion(m: MutationView, id: Seq<char>) -> bool {
    makes_object(m.mutation_type) && m.item_id == id && unsettled(m.state)
}

/// Whether the Promotion, read with its Item, is the one with all that is
/// needed to settle it.
pub open spec fn describes(p: RecoveryView, v: StoreView, id: Seq<char>, m: MutationView) -> bool {
    &&& p.item_id == id
    &&& p.sequence == m.sequence
    &&& p.state == m.state
    &&& p.item_class == m.item_class
    &&& m.promotion_operation_id == Some(p.operation_id)
    &&& promotion_in(m.payload_json) == Some(p.promotion)
    &&& is_called(p.promotion.backend_kind, p.backend_kind)
    &&& p.outgoing_display_id == v.item(id).display_id
    &&& p.ticket_kind == v.item(id).ticket_kind
    &&& m.item_class == ItemClass::Ticket ==> m.mutation_type == MutationType::PromoteTicket
    &&& m.item_class == ItemClass::Epic ==> m.mutation_type == MutationType::PromoteEpic
}

/// Whether the Mutation is the one unsettled Promotion of the Item.
pub open spec fn only_promotion(v: StoreView, id: Seq<char>, i: int) -> bool {
    &&& 0 <= i < v.mutations.len()
    &&& open_promotion(v.mutations[i], id)
    &&& forall|j: int|
        0 <= j < v.mutations.len() && open_promotion(#[trigger] v.mutations[j], id) ==> j == i
}

/// Whether no Mutation is an unsettled Promotion of the Item.
pub open spec fn no_promotion_open(v: StoreView, id: Seq<char>) -> bool {
    forall|i: int| 0 <= i < v.mutations.len() ==> !open_promotion(#[trigger] v.mutations[i], id)
}

/// Whether no Mutation is a Promotion of the Item.
pub open spec fn never_promoted(v: StoreView, id: Seq<char>) -> bool {
    forall|i: int|
        0 <= i < v.mutations.len() && (#[trigger] v.mutations[i]).item_id == id ==> !makes_object(
            v.mutations[i].mutation_type,
        )
}

proof fn lemma_one_open(v: StoreView, id: Seq<char>)
    requires
        v.wf(),
    ensures
        ({
            let rows = v.mutations.filter(awaited_promotion_of(id));
            &&& (rows.len() == 0) == no_promotion_open(v, id)
            &&& rows.len() == 1 ==> exists|i: int| #[trigger]
                only_promotion(v, id, i) && v.mutations[i] == rows[0]
            &&& rows.len() > 1 ==> !(exists|i: int| #[trigger] only_promotion(v, id, i))
        }),
{
    let cond = awaited_promotion_of(id);
    let rows = v.mutations.filter(cond);
    lemma_none_selected(v.mutations, cond);
    assert(forall|m: MutationView| #[trigger] cond(m) == open_promotion(m, id));
    crate::select::lemma_filter_contains(v.mutations, cond);
    if rows.len() == 1 {
        let i = lemma_first_selected(v.mutations, cond);
        assert forall|j: int|
            0 <= j < v.mutations.len() && open_promotion(
                #[trigger] v.mutations[j],
                id,
            ) implies j == i by {
            assert(cond(v.mutations[j]));
            assert(rows.contains(v.mutations[j]));
            assert(v.mutations[i].sequence == v.mutations[j].sequence);
        }
        assert(only_promotion(v, id, i));
    }
    if rows.len() > 1 {
        crate::laws::facts::lemma_selected(v.mutations, cond);
        assert(crate::laws::facts::in_turn(v.mutations, rows[0], rows[1]));
        let (a, b) = choose|a: int, b: int|
            0 <= a < b < v.mutations.len() && #[trigger] v.mutations[a] == rows[0]
                && #[trigger] v.mutations[b] == rows[1];
        assert(cond(rows[0]) && cond(rows[1]));
        assert(open_promotion(v.mutations[a], id) && open_promotion(v.mutations[b], id));
    }
}

/// What is recovered is the one unsettled Promotion of the Item, told as it
/// was committed. There is none where no Promotion of the Item is unsettled; a
/// refusal then tells whether one ever was.
pub proof fn law_which_promotion_is_recovered(v: StoreView, id: Seq<char>)
    requires
        v.wf(),
    ensures
        match recoverable(v, id) {
            Ok(p) => exists|i: int| #[trigger]
                only_promotion(v, id, i) && describes(p, v, id, v.mutations[i]),
            Err(RecoveryFault::NoRecoverablePromotion(named)) => named == id && never_promoted(v, id),
            Err(RecoveryFault::TerminalPromotion(named, sequence, state)) => {
                &&& named == id
                &&& no_promotion_open(v, id)
                &&& exists|i: int|
                    0 <= i < v.mutations.len() && makes_object(
                        (#[trigger] v.mutations[i]).mutation_type,
                    ) && v.mutations[i].item_id == id && v.mutations[i].sequence == sequence
                        && v.mutations[i].state == state
            },
            Err(RecoveryFault::MultipleNonterminalPromotions(named, _, _)) => named == id && !(
            exists|i: int| #[trigger] only_promotion(v, id, i)) && !no_promotion_open(v, id),
            Err(_) => exists|i: int| #[trigger] only_promotion(v, id, i),
        },
        no_promotion_open(v, id) ==> recoverable(v, id) is Err && (recoverable(v, id)->Err_0
            is NoRecoverablePromotion || recoverable(v, id)->Err_0 is TerminalPromotion),
{
    reveal_strlit("github");
    reveal_strlit("jira");
    lemma_one_open(v, id);
    let all = promotion_of(id);
    lemma_none_selected(v.mutations, all);
    if v.mutations.filter(all).len() > 0 {
        let i = lemma_first_selected(v.mutations, all);
        assert(makes_object(v.mutations[i].mutation_type));
    } else {
        assert forall|i: int|
            0 <= i < v.mutations.len() && (#[trigger] v.mutations[i]).item_id == id implies !makes_object(
            v.mutations[i].mutation_type,
        ) by {
            assert(!all(v.mutations[i]));
        }
    }
}

/// A Promotion that says all it should is recovered.
pub proof fn law_a_whole_promotion_is_recovered(v: StoreView, id: Seq<char>, i: int)
    requires
        v.wf(),
        only_promotion(v, id, i),
        v.mutations[i].promotion_operation_id is Some,
        promotion_in(v.mutations[i].payload_json) is Some,
        exists|kind: BackendKind| #[trigger]
            is_called(promotion_in(v.mutations[i].payload_json)->0.backend_kind, kind),
        v.mutations[i].item_class == ItemClass::Ticket ==> v.mutations[i].mutation_type
            == MutationType::PromoteTicket,
        v.mutations[i].item_class == ItemClass::Epic ==> v.mutations[i].mutation_type
            == MutationType::PromoteEpic,
    ensures
        recoverable(v, id) is Ok,
{
    lemma_one_open(v, id);
    assert(open_promotion(v.mutations[i], id));
}

/// Whether an older Mutation is unsettled.
pub open spec fn waits_its_turn(v: StoreView, sequence: int) -> bool {
    exists|i: int|
        0 <= i < v.mutations.len() && (#[trigger] v.mutations[i]).sequence < sequence && unsettled(
            v.mutations[i].state,
        )
}

/// What is settled out of turn is refused, and the refusal names the oldest
/// Mutation that is due first.
pub proof fn law_mutations_are_settled_in_turn(v: StoreView, sequence: int)
    ensures
        (earlier_fault(v, sequence) is Some) == waits_its_turn(v, sequence),
        earlier_fault(v, sequence) is Some ==> exists|i: int|
            {
                &&& 0 <= i < v.mutations.len()
                &&& (#[trigger] v.mutations[i]).sequence < sequence
                &&& unsettled(v.mutations[i].state)
                &&& earlier_fault(v, sequence)->0 == RecoveryFault::EarlierNonterminal(
                    v.mutations[i].sequence,
                    v.mutations[i].state,
                )
                &&& forall|j: int|
                    0 <= j < i && (#[trigger] v.mutations[j]).sequence < sequence ==> !unsettled(
                        v.mutations[j].state,
                    )
            },
{
    let cond = awaited_before(sequence);
    lemma_none_selected(v.mutations, cond);
    if v.mutations.filter(cond).len() > 0 {
        let i = lemma_first_selected(v.mutations, cond);
        assert(v.mutations[i].sequence < sequence);
        assert forall|j: int|
            0 <= j < i && (#[trigger] v.mutations[j]).sequence < sequence implies !unsettled(
            v.mutations[j].state,
        ) by {
            assert(!cond(v.mutations[j]));
        }
    } else {
        assert forall|i: int|
            0 <= i < v.mutations.len() && (#[trigger] v.mutations[i]).sequence < sequence implies !unsettled(
            v.mutations[i].state,
        ) by {
            assert(!cond(v.mutations[i]));
        }
    }
}

/// Retrying takes an unobserved Promotion back to pending, and what went wrong
/// is forgotten; it leaves one that is pending as it is, and refuses every
/// other. It writes nothing else: no identity and no Sync Cursor.
pub proof fn law_what_a_retry_writes(v: StoreView, id: Seq<char>, sequence: i64, now: Seq<char>)
    requires
        v.wf(),
    ensures
        match retried(v, id, sequence as int, now) {
            Ok(after) => {
                &&& !waits_its_turn(v, sequence as int)
                &&& after == StoreView { mutations: after.mutations, ..v }
                &&& after.mutations.len() == v.mutations.len()
                &&& exists|i: int| #[trigger]
                    only_promotion(v, id, i) && retried_at(v, after, i, sequence as int, now)
            },
            Err(RecoveryFault::RetryNotApplying(named, state)) => named == sequence && state
                == MutationState::Failed,
            Err(_) => true,
        },
{
    law_which_promotion_is_recovered(v, id);
    law_mutations_are_settled_in_turn(v, sequence as int);
    if recoverable(v, id) is Ok {
        let p = recoverable(v, id)->Ok_0;
        let i = choose|i: int| #[trigger]
            only_promotion(v, id, i) && describes(p, v, id, v.mutations[i]);
        crate::mutations::lemma_place_of(v, i);
        if retried(v, id, sequence as int, now) is Ok {
            let after = retried(v, id, sequence as int, now)->Ok_0;
            assert(retried_at(v, after, i, sequence as int, now));
        }
    }
}

/// Whether the Promotion waits again and every other Mutation is as it was.
pub open spec fn retried_at(
    v: StoreView,
    after: StoreView,
    i: int,
    sequence: int,
    now: Seq<char>,
) -> bool {
    &&& v.mutations[i].sequence == sequence
    &&& forall|k: int|
        0 <= k < v.mutations.len() && k != i ==> #[trigger] after.mutations[k] == v.mutations[k]
    &&& v.mutations[i].state == MutationState::Applying ==> after.mutations[i] == MutationView {
        state: MutationState::Pending,
        state_changed_at: now,
        failure_json: None,
        ..v.mutations[i]
    }
    &&& v.mutations[i].state == MutationState::Pending ==> after.mutations[i] == v.mutations[i]
    &&& v.mutations[i].state != MutationState::Failed
}

/// Whether another Item is on the Backend under the key, or goes by the Display
/// ID.
pub open spec fn belongs_to_another(
    v: StoreView,
    id: Seq<char>,
    kind: BackendKind,
    backend_key: Seq<char>,
    display_id: Seq<char>,
) -> bool {
    ||| exists|i: int|
        0 <= i < v.items.len() && (#[trigger] v.items[i]).id != id && (folded(v.items[i].display_id)
            == folded(display_id) || (v.items[i].backend_kind is Some && is_called(
            v.items[i].backend_kind->0,
            kind,
        ) && v.items[i].backend_key == Some(backend_key)))
    ||| exists|i: int|
        0 <= i < v.aliases.len() && (#[trigger] v.aliases[i]).item_id != id && folded(
            v.aliases[i].value,
        ) == folded(display_id)
}

/// A confirmed identity is refused for a Promotion that is not the one it was
/// confirmed for, for an Item that stands on a Backend already, where another
/// Backend is configured or in use, out of turn, and where it is another
/// Item's; else it is not.
pub proof fn law_when_a_confirmed_identity_is_refused(
    v: StoreView,
    p: RecoveryView,
    sequence: int,
    backend_key: Seq<char>,
    display_id: Seq<char>,
)
    ensures
        (reconcile_refusal(v, p, sequence, backend_key, display_id) is None) <==> {
            &&& p.sequence == sequence
            &&& v.item(p.item_id).origin == Origin::Local
            &&& v.remote_kind == Some(p.backend_kind)
            &&& forall|kind: BackendKind|
                kind != p.backend_kind ==> !#[trigger] crate::laws::log::is_used(v, kind)
            &&& !waits_its_turn(v, sequence)
            &&& !belongs_to_another(v, p.item_id, p.backend_kind, backend_key, display_id)
        },
        match reconcile_refusal(v, p, sequence, backend_key, display_id) {
            Some(RecoveryFault::NoRecoverablePromotion(id)) => id == p.item_id && p.sequence
                != sequence,
            Some(RecoveryFault::TargetNotLocal(named)) => named == sequence && v.item(
                p.item_id,
            ).origin == Origin::Backend,
            Some(RecoveryFault::RemoteChanged(expected, actual)) => expected == p.backend_kind
                && actual == v.remote_kind && actual != Some(expected),
            Some(RecoveryFault::BackendCohort(_)) => exists|kind: BackendKind|
                kind != p.backend_kind && #[trigger] crate::laws::log::is_used(v, kind),
            Some(RecoveryFault::EarlierNonterminal(earlier, _)) => earlier < sequence,
            Some(RecoveryFault::BackendIdentityTaken(named)) => named == display_id
                && belongs_to_another(v, p.item_id, p.backend_kind, backend_key, display_id),
            Some(_) => false,
            None => true,
        },
{
    let id = p.item_id;
    crate::laws::log::law_a_store_keeps_to_one_backend(v, p.backend_kind);
    law_mutations_are_settled_in_turn(v, p.sequence);
    let claimed = crate::promotion::recovery::identity_claimed(
        v,
        id,
        p.backend_kind.name(),
        backend_key,
        display_id,
    );
    let taken = belongs_to_another(v, id, p.backend_kind, backend_key, display_id);
    if taken {
        if exists|i: int|
            0 <= i < v.aliases.len() && (#[trigger] v.aliases[i]).item_id != id && folded(
                v.aliases[i].value,
            ) == folded(display_id) {
            let i = choose|i: int|
                0 <= i < v.aliases.len() && (#[trigger] v.aliases[i]).item_id != id && folded(
                    v.aliases[i].value,
                ) == folded(display_id);
            assert(v.names(display_id, v.aliases[i].item_id));
        } else {
            let i = choose|i: int|
                0 <= i < v.items.len() && (#[trigger] v.items[i]).id != id && (folded(
                    v.items[i].display_id,
                ) == folded(display_id) || (v.items[i].backend_kind is Some && is_called(
                    v.items[i].backend_kind->0,
                    p.backend_kind,
                ) && v.items[i].backend_key == Some(backend_key)));
            if folded(v.items[i].display_id) == folded(display_id) {
                assert(v.names(display_id, v.items[i].id));
            }
        }
    }
    if claimed && exists|other: Seq<char>| other != id && #[trigger] v.names(display_id, other) {
        let other = choose|other: Seq<char>| other != id && #[trigger] v.names(display_id, other);
        assert(taken);
    }
    assert(claimed == taken);
}

/// A confirmed identity that is taken makes the Item a Backend Item with it
/// and settles the Promotion as applied. Where convergence is forced, one
/// update is queued behind, with the title and body that the Item has; else
/// nothing is. The Items besides are as they were.
pub proof fn law_what_a_confirmed_identity_writes(
    v: StoreView,
    id: Seq<char>,
    sequence: i64,
    backend_key: Seq<char>,
    display_id: Seq<char>,
    force_convergence: bool,
    now: Seq<char>,
)
    requires
        v.wf(),
        reconciled(v, id, sequence as int, backend_key, display_id, force_convergence, now) is Ok,
    ensures
        ({
            let after = reconciled(
                v,
                id,
                sequence as int,
                backend_key,
                display_id,
                force_convergence,
                now,
            )->Ok_0;
            let p = recoverable(v, id)->Ok_0;
            let item = after.item(id);
            &&& recoverable(v, id) is Ok
            &&& p.sequence == sequence
            &&& item.origin == Origin::Backend
            &&& item.backend_kind is Some
            &&& is_called(item.backend_kind->0, p.backend_kind)
            &&& item.backend_key == Some(backend_key)
            &&& item.display_id == display_id
            &&& item.local_display_id == Some(v.item(id).display_id)
            &&& item.title == v.item(id).title
            &&& item.body == v.item(id).body
            &&& items_kept_but(v, after, id)
            &&& after.aliases == v.aliases.push(
                AliasView {
                    value: v.item(id).display_id,
                    item_id: id,
                    created_at: v.item(id).display_created_at,
                },
            )
            &&& after.mutations.len() == v.mutations.len() + (if force_convergence {
                1int
            } else {
                0int
            })
            &&& forall|m: MutationView|
                v.mutations.contains(m) && m.sequence != sequence
                    ==> #[trigger] after.mutations.contains(m)
            &&& forall|m: MutationView|
                #![trigger v.mutations.contains(m)]
                v.mutations.contains(m) && m.sequence == sequence ==> after.mutations.contains(
                    MutationView {
                        state: MutationState::Applied,
                        state_changed_at: now,
                        failure_json: None,
                        ..m
                    },
                )
            &&& force_convergence ==> v.mutation_seq is Some && after.mutations.contains(
                convergence(v, id, p, now),
            )
            &&& v.cursor is Some ==> after.cursor is Some
                && after.cursor->0.last_applied_sequence >= sequence
        }),
{
    let p = recoverable(v, id)->Ok_0;
    let kind = p.backend_kind.name();
    law_which_promotion_is_recovered(v, id);
    law_when_a_confirmed_identity_is_refused(v, p, sequence as int, backend_key, display_id);
    let at = choose|i: int| #[trigger]
        only_promotion(v, id, i) && describes(p, v, id, v.mutations[i]);
    law_what_a_receipt_writes(v, id, kind, backend_key, display_id, now);
    crate::promotion::receipt::lemma_receipt_wf(v, id, kind, backend_key, display_id, now);
    let backed = receipt_applied(v, id, kind, backend_key, display_id, now)->Ok_0;
    let request = crate::promotion::recovery::convergence_request(v, p, now);
    let queued = if force_convergence {
        appended(backed, request)->Ok_0
    } else {
        backed
    };
    if force_convergence {
        lemma_log_grew(backed, request);
        crate::keep::lemma_insert_mutation(
            backed,
            crate::mutations::pending_row(request, backed.mutation_seq->0 + 1),
        );
    }
    assert(queued.wf());
    assert(queued.mutations.contains(v.mutations[at]));
    let k = choose|k: int| 0 <= k < queued.mutations.len() && queued.mutations[k] == v.mutations[at];
    crate::laws::log::law_what_applying_writes(queued, sequence, p.state, now, k);
    let after = reconciled(
        v,
        id,
        sequence as int,
        backend_key,
        display_id,
        force_convergence,
        now,
    )->Ok_0;
    assert forall|m: MutationView|
        queued.mutations.contains(m) && m.sequence != sequence implies
        #[trigger] after.mutations.contains(m) by {
        let n = choose|n: int| 0 <= n < queued.mutations.len() && queued.mutations[n] == m;
        assert(after.mutations[n] == m);
    }
    assert forall|m: MutationView|
        #![trigger v.mutations.contains(m)]
        v.mutations.contains(m) && m.sequence == sequence implies after.mutations.contains(
        MutationView {
            state: MutationState::Applied,
            state_changed_at: now,
            failure_json: None,
            ..m
        },
    ) by {
        let n = choose|n: int| 0 <= n < v.mutations.len() && v.mutations[n] == m;
        assert(v.mutations[n].sequence == v.mutations[at].sequence);
        assert(n == at);
        assert(after.mutations[k] == MutationView {
            state: MutationState::Applied,
            state_changed_at: now,
            failure_json: None,
            ..m
        });
    }
    if force_convergence {
        let row = convergence(v, id, p, now);
        assert(queued.mutations.contains(row));
        assert(!v.has_mutation(row.sequence));
        assert(v.mutations[at].sequence != row.sequence);
        assert(after.mutations.contains(row));
    }
    assert(after.item(id) == backed.item(id));
}

/// The update that has the Backend hold what the Item holds.
pub open spec fn convergence(
    v: StoreView,
    id: Seq<char>,
    p: RecoveryView,
    now: Seq<char>,
) -> MutationView {
    MutationView {
        sequence: v.mutation_seq->0 + 1,
        mutation_type: match p.item_class {
            ItemClass::Ticket => MutationType::UpdateTicket,
            ItemClass::Epic => MutationType::UpdateEpic,
        },
        item_id: id,
        item_class: p.item_class,
        payload_json: json_object(
            seq![("title"@, v.item(id).title), ("body"@, v.item(id).body)],
        ),
        state: MutationState::Pending,
        failure_json: None,
        created_at: now,
        state_changed_at: now,
        promotion_operation_id: Some(p.operation_id),
    }
}

/// What a Promotion's payload says: its three members by name, or, where one of
/// these is missing, a list of three texts in the order title, body, Backend.
/// Nothing else says it.
pub proof fn law_what_a_promotion_payload_says(payload: Seq<char>)
    ensures
        ({
            let title = json_member(payload, "title"@);
            let body = json_member(payload, "body"@);
            let kind = json_member(payload, "backend_kind"@);
            let list = json_strings(payload);
            match promotion_in(payload) {
                Some(p) => {
                    ||| title == Some(p.title) && body == Some(p.body) && kind == Some(
                        p.backend_kind,
                    )
                    ||| (title is None || body is None || kind is None) && list == Some(
                        seq![p.title, p.body, p.backend_kind],
                    )
                },
                None => (title is None || body is None || kind is None) && (list is None
                    || list->0.len() != 3),
            }
        }),
{
    let list = json_strings(payload);
    if list is Some && list->0.len() == 3 {
        assert(list->0 =~= seq![list->0[0], list->0[1], list->0[2]]);
    }
}

} // verus!
