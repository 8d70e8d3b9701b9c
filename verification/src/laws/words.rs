//! Texts, numbers, paths and what follows from steps.

use vstd::prelude::*;

use crate::display_prefix::{
    is_separator, joined, pieces, prefix_of, run_together, segments, MAX_PREFIX_LEN,
};
use crate::graph::{connected, within};
use crate::paths::{below, counted, counts, cut, last_name, names, rooted, same_place, strung};
use crate::text::{decimal, decimal_nat, digit, folded, hex, lower, text_le};

verus! {

// ---- Texts --------------------------------------------------------------

/// Two texts are ordered by the first character in which they differ.
pub proof fn law_texts_are_ordered_by_their_first_difference(a: Seq<char>, b: Seq<char>, i: int)
    requires
        0 <= i < a.len(),
        i < b.len(),
        forall|k: int| 0 <= k < i ==> a[k] == b[k],
        a[i] != b[i],
    ensures
        text_le(a, b) == (a[i] < b[i]),
    decreases i,
{
    if i > 0 {
        assert(a[0] == b[0]);
        let x = a.skip(1);
        let y = b.skip(1);
        assert forall|k: int| 0 <= k < i - 1 implies x[k] == y[k] by {
            assert(a[k + 1] == b[k + 1]);
        }
        law_texts_are_ordered_by_their_first_difference(x, y, i - 1);
    }
}

/// A text comes before every longer one that it begins, and not after it.
pub proof fn law_a_beginning_comes_first(a: Seq<char>, b: Seq<char>)
    requires
        a.len() <= b.len(),
        forall|k: int| 0 <= k < a.len() ==> a[k] == b[k],
    ensures
        text_le(a, b),
        a.len() < b.len() ==> !text_le(b, a),
    decreases a.len(),
{
    if a.len() > 0 {
        assert(a[0] == b[0]);
        let x = a.skip(1);
        let y = b.skip(1);
        assert forall|k: int| 0 <= k < x.len() implies x[k] == y[k] by {
            assert(a[k + 1] == b[k + 1]);
        }
        law_a_beginning_comes_first(x, y);
    }
}

/// The number that digits stand for.
pub open spec fn value(digits: Seq<char>) -> int
    decreases digits.len(),
{
    if digits.len() == 0 {
        0
    } else {
        10 * value(digits.drop_last()) + (digits.last() as int - '0' as int)
    }
}

/// A number is written in digits that stand for it, without a leading zero.
pub proof fn law_digits_stand_for_the_number(n: nat)
    ensures
        value(decimal_nat(n)) == n,
        decimal_nat(n).len() > 0,
        forall|i: int|
            0 <= i < decimal_nat(n).len() ==> '0' <= #[trigger] decimal_nat(n)[i] <= '9',
        n > 0 ==> decimal_nat(n)[0] != '0',
        decimal(n as int) == decimal_nat(n),
    decreases n,
{
    if n < 10 {
        let s = decimal_nat(n);
        assert(s == seq![digit(n as int)]);
        assert(s.drop_last() =~= Seq::<char>::empty());
        assert(value(s.drop_last()) == 0);
    } else {
        law_digits_stand_for_the_number(n / 10);
        let s = decimal_nat(n);
        assert(s.drop_last() =~= decimal_nat(n / 10));
    }
}

/// The number that a hexadecimal digit stands for.
pub open spec fn nibble(c: char) -> int {
    if '0' <= c <= '9' {
        c as int - '0' as int
    } else {
        c as int - 'a' as int + 10
    }
}

/// Each byte can be read back from its two digits, the high one first.
pub proof fn law_hexadecimal_reads_back(bytes: Seq<u8>, i: int)
    requires
        0 <= i < bytes.len(),
    ensures
        hex(bytes).len() == 2 * bytes.len(),
        nibble(hex(bytes)[2 * i]) * 16 + nibble(hex(bytes)[2 * i + 1]) == bytes[i],
{
    assert((2 * i) % 2 == 0 && (2 * i) / 2 == i);
    assert((2 * i + 1) % 2 == 1 && (2 * i + 1) / 2 == i);
}

// ---- Steps --------------------------------------------------------------

/// Whether what is marked is marked all along the edges.
pub open spec fn closed_under(edges: Seq<(Seq<char>, Seq<char>)>, marks: spec_fn(Seq<char>) -> bool) -> bool {
    forall|i: int| 0 <= i < edges.len() && marks((#[trigger] edges[i]).0) ==> marks(edges[i].1)
}

proof fn lemma_marks(
    edges: Seq<(Seq<char>, Seq<char>)>,
    steps: nat,
    a: Seq<char>,
    b: Seq<char>,
    marks: spec_fn(Seq<char>) -> bool,
)
    requires
        within(edges, steps, a, b),
        closed_under(edges, marks),
        marks(a),
    ensures
        marks(b),
    decreases steps,
{
    if a != b {
        let i = choose|i: int|
            0 <= i < edges.len() && (#[trigger] edges[i]).1 == b && within(
                edges,
                (steps - 1) as nat,
                a,
                edges[i].0,
            );
        lemma_marks(edges, (steps - 1) as nat, a, edges[i].0, marks);
    }
}

/// Everything is reached from itself, and what an edge leads to from what is
/// reached is reached; and no more: a mark that spreads along the edges from one
/// end is on every other that is reached.
pub proof fn law_what_is_reached(
    edges: Seq<(Seq<char>, Seq<char>)>,
    a: Seq<char>,
    b: Seq<char>,
    marks: spec_fn(Seq<char>) -> bool,
)
    ensures
        connected(edges, a, a),
        forall|i: int|
            0 <= i < edges.len() && connected(edges, a, (#[trigger] edges[i]).0) ==> connected(
                edges,
                a,
                edges[i].1,
            ),
        connected(edges, a, b) && marks(a) && closed_under(edges, marks) ==> marks(b),
{
    assert(within(edges, 0, a, a));
    assert forall|i: int|
        0 <= i < edges.len() && connected(edges, a, (#[trigger] edges[i]).0) implies connected(
        edges,
        a,
        edges[i].1,
    ) by {
        let n = choose|n: nat| #[trigger] within(edges, n, a, edges[i].0);
        assert(within(edges, n + 1, a, edges[i].1));
    }
    if connected(edges, a, b) && marks(a) && closed_under(edges, marks) {
        let n = choose|n: nat| #[trigger] within(edges, n, a, b);
        lemma_marks(edges, n, a, b, marks);
    }
}

// ---- Paths --------------------------------------------------------------

proof fn lemma_strung_longer(parts: Seq<Seq<char>>, c: char)
    requires
        parts.len() > 0,
    ensures
        strung(parts.drop_last().push(parts.last().push(c))) == strung(parts).push(c),
{
    let more = parts.drop_last().push(parts.last().push(c));
    assert(more.drop_last() =~= parts.drop_last());
    if parts.len() == 1 {
        assert(more[0] == parts[0].push(c));
    } else {
        assert(strung(more) =~= strung(parts).push(c));
    }
}

/// The parts of a path hold no slash, and put together with slashes they are the
/// path again.
pub proof fn law_parts_make_the_path(path: Seq<char>)
    ensures
        cut(path).len() > 0,
        strung(cut(path)) == path,
        forall|i: int, k: int|
            #![trigger cut(path)[i][k]]
            0 <= i < cut(path).len() && 0 <= k < cut(path)[i].len() ==> cut(path)[i][k] != '/',
    decreases path.len(),
{
    reveal_strlit("/");
    if path.len() > 0 {
        let rest = path.drop_last();
        let before = cut(rest);
        let all = cut(path);
        law_parts_make_the_path(rest);
        if path.last() == '/' {
            assert(all.drop_last() =~= before);
            assert(strung(all) =~= path);
        } else {
            lemma_strung_longer(before, path.last());
            assert(strung(all) =~= path);
        }
        assert forall|i: int, k: int|
            #![trigger all[i][k]]
            0 <= i < all.len() && 0 <= k < all[i].len() implies all[i][k] != '/' by {
            if i < before.len() - 1 {
                assert(all[i] == before[i]);
                assert(before[i][k] != '/');
            } else if path.last() == '/' {
                if i == before.len() - 1 {
                    assert(all[i] == before[i]);
                    assert(before[i][k] != '/');
                }
            } else {
                if k < before.last().len() {
                    assert(before[before.len() - 1][k] != '/');
                }
            }
        }
    } else {
        assert(cut(path)[0] =~= path);
    }
}

/// The names of a path are its parts, but for empty ones and for dots that do
/// not stand at its start; all of these and no others.
pub proof fn law_which_parts_are_names(parts: Seq<Seq<char>>, name: Seq<char>)
    ensures
        counted(parts).contains(name) == (exists|i: int|
            0 <= i < parts.len() && #[trigger] parts[i] == name && name.len() > 0 && (name == "."@
                ==> i == 0)),
    decreases parts.len(),
{
    if parts.len() > 0 {
        let rest = parts.drop_last();
        let before = counted(rest);
        let all = counted(parts);
        law_which_parts_are_names(rest, name);
        if all.contains(name) {
            let k = choose|k: int| 0 <= k < all.len() && all[k] == name;
            if k < before.len() {
                assert(before[k] == name);
                assert(before.contains(name));
                let i = choose|i: int|
                    0 <= i < rest.len() && #[trigger] rest[i] == name && name.len() > 0 && (name
                        == "."@ ==> i == 0);
                assert(parts[i] == name);
            } else {
                assert(parts[parts.len() - 1] == name);
            }
        }
        if exists|i: int|
            0 <= i < parts.len() && #[trigger] parts[i] == name && name.len() > 0 && (name == "."@
                ==> i == 0) {
            let i = choose|i: int|
                0 <= i < parts.len() && #[trigger] parts[i] == name && name.len() > 0 && (name
                    == "."@ ==> i == 0);
            if i < rest.len() {
                assert(rest[i] == name);
                let k = choose|k: int| 0 <= k < before.len() && before[k] == name;
                assert(all[k] == name);
            } else {
                assert(counts(parts.last(), parts.len() - 1));
                assert(all[before.len() as int] == name);
            }
        }
    }
}

/// A slash at the end makes no difference to where a path leads.
pub proof fn law_a_slash_at_the_end_changes_nothing(path: Seq<char>)
    requires
        path.len() > 0,
    ensures
        same_place(path.push('/'), path),
        same_place(path, path),
{
    let longer = path.push('/');
    assert(longer.drop_last() =~= path);
    assert(cut(longer) == cut(path).push(Seq::<char>::empty()));
    assert(cut(longer).drop_last() =~= cut(path));
    assert(longer[0] == path[0]);
}

proof fn lemma_cut_below(base: Seq<char>, name: Seq<char>)
    requires
        forall|k: int| 0 <= k < name.len() ==> name[k] != '/',
    ensures
        cut(base.push('/') + name) == cut(base).push(name),
    decreases name.len(),
{
    let all = base.push('/') + name;
    if name.len() == 0 {
        assert(all =~= base.push('/'));
        assert(all.drop_last() =~= base);
        assert(name =~= Seq::<char>::empty());
    } else {
        let less = name.drop_last();
        assert(all.drop_last() =~= base.push('/') + less);
        assert forall|k: int| 0 <= k < less.len() implies less[k] != '/' by {
            assert(less[k] == name[k]);
        }
        lemma_cut_below(base, less);
        assert(all.last() == name.last());
        assert(name[name.len() - 1] != '/');
        assert(less.push(name.last()) =~= name);
        assert(cut(all) =~= cut(base).push(name));
    }
}

/// A name put below a path is its last name, behind all the names that the path
/// has, and the path starts where it did.
pub proof fn law_a_name_below_a_path_is_its_last(base: Seq<char>, name: Seq<char>)
    requires
        base.len() > 0,
        name.len() > 0,
        name != "."@,
        forall|k: int| 0 <= k < name.len() ==> name[k] != '/',
    ensures
        names(below(base, name)) == names(base).push(name),
        rooted(below(base, name)) == rooted(base),
        name != ".."@ ==> last_name(below(base, name)) == Some(name),
{
    reveal_strlit("/");
    if base.last() == '/' {
        let less = base.drop_last();
        assert(less.push('/') =~= base);
        lemma_cut_below(less, name);
        assert(below(base, name) =~= less.push('/') + name);
        let parts = cut(less).push(name);
        assert(parts.drop_last() =~= cut(less));
        assert(cut(base) == cut(less).push(Seq::<char>::empty()));
        assert(cut(base).drop_last() =~= cut(less));
        assert(counted(cut(base)) == counted(cut(less)));
    } else {
        lemma_cut_below(base, name);
        assert(below(base, name) =~= base.push('/') + name);
        let parts = cut(base).push(name);
        assert(parts.drop_last() =~= cut(base));
    }
    assert(below(base, name)[0] == base[0]);
}

// ---- Prefixes -----------------------------------------------------------

/// Whether a character parts the words of a base name.
pub open spec fn parts_words(c: char) -> bool {
    ||| c == '-' || c == '_' || c == '.' || c == '/' || c == ':' || c == '#'
    ||| c == ' ' || c == '\t' || c == '\n' || c == '\r' || c == '\u{b}' || c == '\u{c}'
    ||| c == '\u{a0}' || c == '\u{3000}' || c == '\u{2028}' || c == '\u{2029}'
}

proof fn lemma_same_pieces(a: Seq<char>, b: Seq<char>)
    requires
        a.len() == b.len(),
        forall|k: int|
            0 <= k < a.len() ==> #[trigger] a[k] == b[k] || (is_separator(a[k]) && is_separator(
                b[k],
            )),
    ensures
        pieces(a) == pieces(b),
    decreases a.len(),
{
    if a.len() > 0 {
        let x = a.drop_last();
        let y = b.drop_last();
        assert forall|k: int| 0 <= k < x.len() implies #[trigger] x[k] == y[k] || (is_separator(
            x[k],
        ) && is_separator(y[k])) by {
            assert(a[k] == a[k]);
        }
        lemma_same_pieces(x, y);
        assert(a[a.len() - 1] == a.last());
    } else {
        assert(a =~= b);
    }
}

/// What parts the words of a base name, and the case of its letters, make no
/// difference to its prefix.
pub proof fn law_a_prefix_goes_by_the_words_alone(a: Seq<char>, b: Seq<char>)
    requires
        a.len() == b.len(),
        forall|k: int|
            0 <= k < a.len() ==> lower(#[trigger] a[k]) == lower(b[k]) || (parts_words(a[k])
                && parts_words(b[k])),
    ensures
        prefix_of(a) == prefix_of(b),
{
    let x = folded(a);
    let y = folded(b);
    assert forall|k: int| 0 <= k < x.len() implies #[trigger] x[k] == y[k] || (is_separator(x[k])
        && is_separator(y[k])) by {
        assert(x[k] == lower(a[k]) && y[k] == lower(b[k]));
        assert(a[k] == a[k]);
    }
    lemma_same_pieces(x, y);
    assert(segments(a) == segments(b));
}

/// Whether the prefix is the text, led by `tk-` exactly where that does not start
/// with a letter.
pub open spec fn is_led(prefix: Seq<char>, text: Seq<char>) -> bool {
    if text.len() == 0 || '0' <= text[0] <= '9' {
        prefix == "tk-"@ + text
    } else {
        prefix == text
    }
}

/// A prefix is all the words where they fit, parted by dashes; else the first
/// two where these do; else as much of the words, run together, as fits.
pub proof fn law_a_prefix_is_as_many_words_as_fit(basename: Seq<char>)
    ensures
        ({
            let words = segments(basename);
            let prefix = prefix_of(basename);
            let two = words[0] + "-"@ + words[1];
            &&& words.len() == 0 ==> prefix == "tk-"@
            &&& words.len() == 1 && words[0].len() <= MAX_PREFIX_LEN ==> is_led(prefix, words[0])
            &&& words.len() >= 2 && two.len() <= MAX_PREFIX_LEN && (words.len() == 2 || joined(
                words,
            ).len() > MAX_PREFIX_LEN) ==> is_led(prefix, two)
            &&& words.len() >= 1 && joined(words).len() <= MAX_PREFIX_LEN ==> is_led(
                prefix,
                joined(words),
            )
            &&& words.len() == 1 && words[0].len() > MAX_PREFIX_LEN ==> is_led(
                prefix,
                words[0].take(MAX_PREFIX_LEN as int),
            )
            &&& words.len() >= 2 && two.len() > MAX_PREFIX_LEN && joined(words).len()
                > MAX_PREFIX_LEN ==> is_led(
                prefix,
                if run_together(words).len() <= MAX_PREFIX_LEN {
                    run_together(words)
                } else {
                    run_together(words).take(MAX_PREFIX_LEN as int)
                },
            )
        }),
{
    reveal_strlit("-");
    let words = segments(basename);
    if words.len() == 0 {
        assert(run_together(words) =~= Seq::<char>::empty());
        assert("tk-"@ + Seq::<char>::empty() =~= "tk-"@);
    }
    if words.len() == 1 {
        assert(words.drop_last() =~= Seq::<Seq<char>>::empty());
        assert(run_together(words.drop_last()) =~= Seq::<char>::empty());
        assert(run_together(words) =~= words[0]);
        if words[0].len() == 0 {
            assert(words[0] =~= Seq::<char>::empty());
        }
    }
    if words.len() >= 2 {
        let pair = words.take(2);
        assert(pair.drop_last() =~= seq![words[0]]);
        assert(joined(pair.drop_last()) == words[0]);
        assert(joined(pair) =~= words[0] + "-"@ + words[1]);
        if words.len() == 2 {
            assert(pair =~= words);
        }
        if joined(words).len() <= MAX_PREFIX_LEN {
            assert(joined(words) == joined(words.drop_last()) + "-"@ + words.last());
        }
    }
    if words.len() == 1 && joined(words).len() == 0 {
        assert(words[0] =~= Seq::<char>::empty());
    }
}

} // verus!
