//! What the Remote and the Items already on a Backend allow.

use vstd::prelude::*;

use crate::domain::{BackendKind, Origin};
use crate::payload::{promotion_in, read_promotion};
use crate::rows::{ItemView, MutationView};
use crate::select::{lemma_filter_all, lemma_filter_none, lemma_filter_step, lemma_first};
use crate::tables::{Store, StoreView};
use crate::text::same_text;

verus! {

/// Why a Backend does not fit what the store retains.
#[derive(Clone, Copy, Debug, PartialEq, Eq, Structural)]
pub enum BackendCohortError {
    /// An Item stands on, or is bound for, another Backend.
    BackendKindMismatch { expected: BackendKind, retained: BackendKind },
}

/// The Backend of a name, if there is one.
pub open spec fn kind_named(text: Seq<char>) -> Option<BackendKind> {
    if text == BackendKind::Github.name() {
        Some(BackendKind::Github)
    } else if text == BackendKind::Jira.name() {
        Some(BackendKind::Jira)
    } else {
        None
    }
}

/// The Backend of a name, if there is one.
pub fn parse_kind(text: &str) -> (r: Option<BackendKind>)
    ensures
        r == kind_named(text@),
{
    if same_text(text, BackendKind::Github.text()) {
        Some(BackendKind::Github)
    } else if same_text(text, BackendKind::Jira.text()) {
        Some(BackendKind::Jira)
    } else {
        None
    }
}

/// Whether a name stands for a Backend other than the expected one.
pub open spec fn other_kind(text: Seq<char>, expected: BackendKind) -> bool {
    kind_named(text) is Some && kind_named(text) != Some(expected)
}

/// Whether an Item stands on a Backend other than the expected one.
pub open spec fn item_elsewhere(expected: BackendKind) -> spec_fn(ItemView) -> bool {
    |item: ItemView|
        item.origin == Origin::Backend && item.backend_kind is Some && other_kind(
            item.backend_kind->0,
            expected,
        )
}

/// Whether a Mutation is a Promotion that awaits its outcome and is meant for
/// a Backend other than the expected one.
pub open spec fn promotion_elsewhere(expected: BackendKind) -> spec_fn(MutationView) -> bool {
    |m: MutationView|
        m.mutation_type.promotes() && m.state.is_nonterminal() && promotion_in(
            m.payload_json,
        ) is Some && other_kind(promotion_in(m.payload_json)->0.backend_kind, expected)
}

/// The Backend other than the expected one that the store retains: that of
/// the first such Item, or else of the first such Promotion.
pub open spec fn retained_elsewhere(v: StoreView, expected: BackendKind) -> Option<BackendKind> {
    let items = v.items.filter(item_elsewhere(expected));
    let promotions = v.mutations.filter(promotion_elsewhere(expected));
    if items.len() > 0 {
        kind_named(items[0].backend_kind->0)
    } else if promotions.len() > 0 {
        kind_named(promotion_in(promotions[0].payload_json)->0.backend_kind)
    } else {
        None
    }
}

/// The Backend of the configured Remote, if there is one.
pub fn configured_remote_kind(store: &Store) -> (r: Option<BackendKind>)
    ensures
        r == store@.remote_kind,
{
    store.remote_kind()
}

/// Refuse a Backend other than the one that the store's Items stand on or are
/// bound for.
pub fn ensure_backend_cohort(store: &Store, expected: BackendKind) -> (r: Result<
    (),
    BackendCohortError,
>)
    ensures
        match r {
            Ok(()) => retained_elsewhere(store@, expected) is None,
            Err(BackendCohortError::BackendKindMismatch { expected: e, retained }) => e == expected
                && retained_elsewhere(store@, expected) == Some(retained),
        },
{
    let ghost cond = item_elsewhere(expected);
    let mut i: usize = 0;
    proof {
        lemma_filter_none(store@.items, cond);
    }
    while i < store.item_count()
        invariant
            0 <= i <= store@.items.len(),
            cond == item_elsewhere(expected),
            store@.items.take(i as int).filter(cond).len() == 0,
        decreases store@.items.len() - i,
    {
        let item = store.item(i);
        proof {
            lemma_filter_step(store@.items, cond, i as int);
        }
        if item.origin == Origin::Backend {
            if let Some(text) = &item.backend_kind {
                if let Some(kind) = parse_kind(text.as_str()) {
                    if kind != expected {
                        proof {
                            lemma_first(store@.items, cond, i as int);
                        }
                        return Err(
                            BackendCohortError::BackendKindMismatch { expected, retained: kind },
                        );
                    }
                }
            }
        }
        i = i + 1;
    }
    proof {
        lemma_filter_all(store@.items, cond);
    }
    let ghost pcond = promotion_elsewhere(expected);
    let mut j: usize = 0;
    proof {
        lemma_filter_none(store@.mutations, pcond);
    }
    while j < store.mutation_count()
        invariant
            0 <= j <= store@.mutations.len(),
            store@.items.filter(item_elsewhere(expected)).len() == 0,
            pcond == promotion_elsewhere(expected),
            store@.mutations.take(j as int).filter(pcond).len() == 0,
        decreases store@.mutations.len() - j,
    {
        let m = store.mutation(j);
        proof {
            lemma_filter_step(store@.mutations, pcond, j as int);
        }
        if m.mutation_type.is_promotion() && m.state.nonterminal() {
            if let Ok(promotion) = read_promotion(m.payload_json.as_str()) {
                if let Some(kind) = parse_kind(promotion.backend_kind.as_str()) {
                    if kind != expected {
                        proof {
                            lemma_first(store@.mutations, pcond, j as int);
                        }
                        return Err(
                            BackendCohortError::BackendKindMismatch { expected, retained: kind },
                        );
                    }
                }
            }
        }
        j = j + 1;
    }
    proof {
        lemma_filter_all(store@.mutations, pcond);
    }
    Ok(())
}

} // verus!
