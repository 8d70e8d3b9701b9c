//! What the user reads names what it is about.

use vstd::prelude::*;

use crate::mutations::IllegalTransition;
use crate::promotion::cancel::CancelPromotionError;
use crate::promotion::recovery::RecoveryPromotionError;
use crate::text::{decimal, decimal_nat};

verus! {

/// Whether a text is the part with something before and something behind.
pub open spec fn is_around(
    text: Seq<char>,
    before: Seq<char>,
    part: Seq<char>,
    behind: Seq<char>,
) -> bool {
    text == before + part + behind
}

/// Whether a text has the parts, one behind the other.
pub open spec fn says(text: Seq<char>, parts: Seq<Seq<char>>) -> bool
    decreases parts.len(),
{
    parts.len() == 0 || exists|before: Seq<char>, behind: Seq<char>| #[trigger]
        is_around(text, before, parts[0], behind) && says(behind, parts.skip(1))
}

proof fn lemma_says_one(before: Seq<char>, part: Seq<char>, behind: Seq<char>)
    ensures
        says(before + part + behind, seq![part]),
{
    let parts = seq![part];
    assert(says(behind, parts.skip(1)));
    assert(is_around(before + part + behind, before, parts[0], behind));
}

proof fn lemma_says_two(
    before: Seq<char>,
    one: Seq<char>,
    between: Seq<char>,
    two: Seq<char>,
    behind: Seq<char>,
)
    ensures
        says(before + one + between + two + behind, seq![one, two]),
{
    let parts = seq![one, two];
    let rest = between + two + behind;
    lemma_says_one(between, two, behind);
    assert(parts.skip(1) =~= seq![two]);
    let text = before + one + between + two + behind;
    assert(text =~= before + one + rest);
    assert(is_around(text, before, parts[0], rest));
}

proof fn lemma_says_three(
    before: Seq<char>,
    one: Seq<char>,
    a: Seq<char>,
    two: Seq<char>,
    b: Seq<char>,
    three: Seq<char>,
    behind: Seq<char>,
)
    ensures
        says(before + one + a + two + b + three + behind, seq![one, two, three]),
{
    let parts = seq![one, two, three];
    let rest = a + two + b + three + behind;
    lemma_says_two(a, two, b, three, behind);
    assert(parts.skip(1) =~= seq![two, three]);
    let text = before + one + a + two + b + three + behind;
    assert(text =~= before + one + rest);
    assert(is_around(text, before, parts[0], rest));
}

/// What is said of a refused move names the Mutation, where it was to go from,
/// and where to.
pub proof fn law_a_refused_move_names_what_was_asked(error: IllegalTransition)
    ensures
        match error {
            IllegalTransition::Edge { sequence, from, to } => says(
                error.said(),
                seq![decimal(sequence as int), from.name(), to.name()],
            ),
            IllegalTransition::MissingEvidence { sequence, to } => says(
                error.said(),
                seq![decimal(sequence as int), to.name()],
            ),
        },
{
    let none = Seq::<char>::empty();
    match error {
        IllegalTransition::Edge { sequence, from, to } => {
            lemma_says_three(
                "mutation "@,
                decimal(sequence as int),
                " cannot move from "@,
                from.name(),
                " to "@,
                to.name(),
                none,
            );
            assert(error.said() =~= error.said() + none);
        },
        IllegalTransition::MissingEvidence { sequence, to } => {
            lemma_says_two(
                "moving mutation "@,
                decimal(sequence as int),
                " to "@,
                to.name(),
                " requires a Mutation Failure"@,
            );
        },
    }
}

/// What is said of a Promotion that cannot be recovered names the Item or the
/// Mutation, and the state, the other Mutation or the value that stands against
/// it.
pub proof fn law_a_refused_recovery_names_what_stands_against_it(error: RecoveryPromotionError)
    ensures
        match error {
            RecoveryPromotionError::NoRecoverablePromotion(id) => says(error.said(), seq![id@]),
            RecoveryPromotionError::TerminalPromotion { item_id, sequence, state } => says(
                error.said(),
                seq![item_id@, decimal(sequence as int), state.name()],
            ),
            RecoveryPromotionError::MultipleNonterminalPromotions { item_id, first, second } => {
                says(
                    error.said(),
                    seq![item_id@, decimal(first as int), decimal(second as int)],
                )
            },
            RecoveryPromotionError::MalformedBackendKind { sequence, backend_kind } => says(
                error.said(),
                seq![decimal(sequence as int), backend_kind@],
            ),
            RecoveryPromotionError::WrongMutationShape { sequence, mutation_type, item_class } => {
                says(
                    error.said(),
                    seq![decimal(sequence as int), mutation_type.name(), item_class.name()],
                )
            },
            RecoveryPromotionError::RetryNotApplying { sequence, state } => says(
                error.said(),
                seq![decimal(sequence as int), state.name()],
            ),
            RecoveryPromotionError::EarlierNonterminal { sequence, state } => says(
                error.said(),
                seq![decimal(sequence as int), state.name()],
            ),
            RecoveryPromotionError::BackendIdentityTaken { display_id } => says(
                error.said(),
                seq![display_id@],
            ),
            _ => true,
        },
{
    let none = Seq::<char>::empty();
    match error {
        RecoveryPromotionError::NoRecoverablePromotion(id) => {
            lemma_says_one("Item "@, id@, " has no recoverable Promotion"@);
        },
        RecoveryPromotionError::TerminalPromotion { item_id, sequence, state } => {
            lemma_says_three(
                "Item "@,
                item_id@,
                " has terminal Promotion Mutation "@,
                decimal(sequence as int),
                " in state "@,
                state.name(),
                none,
            );
            assert(error.said() =~= error.said() + none);
        },
        RecoveryPromotionError::MultipleNonterminalPromotions { item_id, first, second } => {
            lemma_says_three(
                "Item "@,
                item_id@,
                " has multiple nonterminal Promotion Mutations ("@,
                decimal(first as int),
                " and "@,
                decimal(second as int),
                ")"@,
            );
        },
        RecoveryPromotionError::MalformedBackendKind { sequence, backend_kind } => {
            lemma_says_two(
                "Promotion Mutation "@,
                decimal(sequence as int),
                " has malformed Backend kind '"@,
                backend_kind@,
                "'"@,
            );
        },
        RecoveryPromotionError::WrongMutationShape { sequence, mutation_type, item_class } => {
            lemma_says_three(
                "Promotion Mutation "@,
                decimal(sequence as int),
                " has invalid type/class pair "@,
                mutation_type.name(),
                "/"@,
                item_class.name(),
                none,
            );
            assert(error.said() =~= error.said() + none);
        },
        RecoveryPromotionError::RetryNotApplying { sequence, state } => {
            lemma_says_two(
                "Promotion Mutation "@,
                decimal(sequence as int),
                " is in state "@,
                state.name(),
                ", not applying"@,
            );
        },
        RecoveryPromotionError::EarlierNonterminal { sequence, state } => {
            lemma_says_two(
                "Mutation "@,
                decimal(sequence as int),
                " in state "@,
                state.name(),
                " must resolve before this Promotion"@,
            );
        },
        RecoveryPromotionError::BackendIdentityTaken { display_id } => {
            lemma_says_one("Backend object "@, display_id@, " is already tracked by tk"@);
        },
        _ => {},
    }
}

/// What is said of a refused withdrawal names the operation, the Mutation, or
/// how many Dependencies stand against it.
pub proof fn law_a_refused_withdrawal_names_what_stands_against_it(error: CancelPromotionError)
    ensures
        match error {
            CancelPromotionError::NothingToWithdraw(operation_id) => says(
                error.said(),
                seq![operation_id@],
            ),
            CancelPromotionError::MalformedPayload { sequence } => says(
                error.said(),
                seq![decimal(sequence as int)],
            ),
            CancelPromotionError::UnrepresentableDependencies(list) => says(
                error.said(),
                seq![decimal_nat(list@.len())],
            ),
            _ => true,
        },
{
    let none = Seq::<char>::empty();
    match error {
        CancelPromotionError::NothingToWithdraw(operation_id) => {
            lemma_says_one(
                "Promotion Operation "@,
                operation_id@,
                " has no Promotion left to withdraw"@,
            );
        },
        CancelPromotionError::MalformedPayload { sequence } => {
            lemma_says_one("malformed payload_json on mutation "@, decimal(sequence as int), none);
            assert(error.said() =~= error.said() + none);
        },
        CancelPromotionError::UnrepresentableDependencies(list) => {
            lemma_says_one(
                none,
                decimal_nat(list@.len()),
                " Dependency edge(s) would become unrepresentable"@,
            );
            assert(error.said() =~= none + error.said());
            assert(error.said() =~= none + decimal_nat(list@.len())
                + " Dependency edge(s) would become unrepresentable"@);
        },
        _ => {},
    }
}

} // verus!
