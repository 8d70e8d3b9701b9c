//! The Display ID prefix that a repository's base name gives.
//!
//! The name is put in lower case and cut at separators: `-`, `_`, `.`, `/`, `:`,
//! `#` and whitespace of any kind. What is no ASCII letter or digit is dropped,
//! and so are empty segments. The segments joined
//! by dashes are the prefix where they fit; else the first two of them where
//! these fit; else the segments run together, cut to fit. A prefix that would
//! be empty or start with a digit is preceded by `tk-`.

use vstd::prelude::*;

use crate::text::{chars_of, folded, lower, lower_char};

verus! {

/// Maximum length of the prefix before `tk-` may precede it.
pub const MAX_PREFIX_LEN: usize = 12;

/// Whether the character is whitespace: one that Unicode gives the property
/// `White_Space`.
pub open spec fn is_whitespace(c: char) -> bool {
    ||| '\u{9}' <= c <= '\u{d}'
    ||| c == '\u{20}' || c == '\u{85}' || c == '\u{a0}' || c == '\u{1680}'
    ||| '\u{2000}' <= c <= '\u{200a}'
    ||| c == '\u{2028}' || c == '\u{2029}' || c == '\u{202f}' || c == '\u{205f}' || c == '\u{3000}'
}

/// Whether the character parts segments: one of six marks, or whitespace of
/// any kind.
pub open spec fn is_separator(c: char) -> bool {
    c == '-' || c == '_' || c == '.' || c == '/' || c == ':' || c == '#' || is_whitespace(c)
}

/// Whether the character is an ASCII letter or digit.
pub open spec fn is_alphanumeric(c: char) -> bool {
    ('a' <= c <= 'z') || ('A' <= c <= 'Z') || ('0' <= c <= '9')
}

/// The pieces of a text between its separators.
pub open spec fn pieces(s: Seq<char>) -> Seq<Seq<char>>
    decreases s.len(),
{
    if s.len() == 0 {
        seq![Seq::<char>::empty()]
    } else {
        let before = pieces(s.drop_last());
        if is_separator(s.last()) {
            before.push(Seq::empty())
        } else {
            before.drop_last().push(before.last().push(s.last()))
        }
    }
}

/// A piece without what is no ASCII letter or digit.
pub open spec fn cleaned(piece: Seq<char>) -> Seq<char> {
    piece.filter(|c: char| is_alphanumeric(c))
}

/// The cleaned pieces that are not empty.
pub open spec fn kept(list: Seq<Seq<char>>) -> Seq<Seq<char>> {
    list.map_values(|p: Seq<char>| cleaned(p)).filter(|p: Seq<char>| p.len() > 0)
}

/// The segments of a base name.
pub open spec fn segments(basename: Seq<char>) -> Seq<Seq<char>> {
    kept(pieces(folded(basename)))
}

/// Segments joined by dashes.
pub open spec fn joined(list: Seq<Seq<char>>) -> Seq<char>
    decreases list.len(),
{
    if list.len() == 0 {
        Seq::empty()
    } else if list.len() == 1 {
        list[0]
    } else {
        joined(list.drop_last()) + "-"@ + list.last()
    }
}

/// Segments run together.
pub open spec fn run_together(list: Seq<Seq<char>>) -> Seq<char>
    decreases list.len(),
{
    if list.len() == 0 {
        Seq::empty()
    } else {
        run_together(list.drop_last()) + list.last()
    }
}

/// The first characters of a text, at most as many as fit.
pub open spec fn cut_to_fit(s: Seq<char>) -> Seq<char> {
    if s.len() <= MAX_PREFIX_LEN {
        s
    } else {
        s.take(MAX_PREFIX_LEN as int)
    }
}

/// The shape that segments take.
pub open spec fn shape(list: Seq<Seq<char>>) -> Seq<char> {
    if 0 < joined(list).len() <= MAX_PREFIX_LEN {
        joined(list)
    } else if list.len() >= 2 && joined(list.take(2)).len() <= MAX_PREFIX_LEN {
        joined(list.take(2))
    } else {
        cut_to_fit(run_together(list))
    }
}

/// The prefix that a base name gives.
pub open spec fn prefix_of(basename: Seq<char>) -> Seq<char> {
    let chosen = shape(segments(basename));
    if chosen.len() == 0 || ('0' <= chosen[0] <= '9') {
        "tk-"@ + chosen
    } else {
        chosen
    }
}

/// The texts of lists of characters.
pub open spec fn char_lists(list: Seq<Vec<char>>) -> Seq<Seq<char>> {
    Seq::new(list.len(), |i: int| list[i]@)
}

proof fn lemma_pieces_nonempty(s: Seq<char>)
    ensures
        pieces(s).len() > 0,
    decreases s.len(),
{
    if s.len() > 0 {
        lemma_pieces_nonempty(s.drop_last());
    }
}

/// One piece more: it is kept where cleaning leaves something of it.
proof fn lemma_kept_push(list: Seq<Seq<char>>, piece: Seq<char>)
    ensures
        kept(list.push(piece)) == (if cleaned(piece).len() > 0 {
            kept(list).push(cleaned(piece))
        } else {
            kept(list)
        }),
{
    reveal(Seq::filter);
    let m = list.map_values(|p: Seq<char>| cleaned(p));
    let n = list.push(piece).map_values(|p: Seq<char>| cleaned(p));
    assert(n =~= m.push(cleaned(piece)));
    assert(n.drop_last() =~= m);
    assert(n.last() == cleaned(piece));
}

/// One character more of a piece: it stays where it is a letter or digit.
proof fn lemma_cleaned_push(piece: Seq<char>, c: char)
    ensures
        cleaned(piece.push(c)) == (if is_alphanumeric(c) {
            cleaned(piece).push(c)
        } else {
            cleaned(piece)
        }),
{
    reveal(Seq::filter);
    assert(piece.push(c).drop_last() =~= piece);
    assert(piece.push(c).last() == c);
}

fn separates(c: char) -> (r: bool)
    ensures
        r == is_separator(c),
{
    c == '-' || c == '_' || c == '.' || c == '/' || c == ':' || c == '#' || ('\u{9}' <= c && c
        <= '\u{d}') || c == '\u{20}' || c == '\u{85}' || c == '\u{a0}' || c == '\u{1680}' || (
    '\u{2000}' <= c && c <= '\u{200a}') || c == '\u{2028}' || c == '\u{2029}' || c == '\u{202f}'
        || c == '\u{205f}' || c == '\u{3000}'
}

/// The segments of a base name.
fn segments_of(basename: &str) -> (r: Vec<Vec<char>>)
    ensures
        char_lists(r@) == segments(basename@),
{
    let chars = chars_of(basename);
    let ghost low = folded(basename@);
    let mut done: Vec<Vec<char>> = Vec::new();
    let mut current: Vec<char> = Vec::new();
    let mut i: usize = 0;
    proof {
        reveal(Seq::filter);
        assert(low.take(0).len() == 0);
        assert(pieces(low.take(0)).drop_last() =~= Seq::<Seq<char>>::empty());
        assert(kept(Seq::<Seq<char>>::empty()) =~= Seq::empty());
        assert(cleaned(Seq::<char>::empty()) =~= Seq::empty());
        assert(char_lists(done@) =~= Seq::empty());
    }
    while i < chars.len()
        invariant
            0 <= i <= chars@.len(),
            chars@ == basename@,
            low == folded(basename@),
            char_lists(done@) == kept(pieces(low.take(i as int)).drop_last()),
            current@ == cleaned(pieces(low.take(i as int)).last()),
        decreases chars@.len() - i,
    {
        let c = lower_char(chars[i]);
        let ghost head = low.take(i as int);
        let ghost longer = low.take(i + 1);
        let ghost before = pieces(head);
        proof {
            assert(longer.drop_last() =~= head);
            assert(longer.last() == c);
            lemma_pieces_nonempty(head);
            assert(before =~= before.drop_last().push(before.last()));
        }
        if separates(c) {
            proof {
                lemma_kept_push(before.drop_last(), before.last());
                assert(pieces(longer).drop_last() =~= before);
                assert(pieces(longer).last() =~= Seq::<char>::empty());
                reveal(Seq::filter);
                assert(cleaned(Seq::<char>::empty()) =~= Seq::empty());
            }
            let ghost prior = done@;
            if current.len() > 0 {
                done.push(current);
                proof {
                    assert(char_lists(done@) =~= char_lists(prior).push(current@));
                }
            }
            current = Vec::new();
        } else {
            proof {
                lemma_cleaned_push(before.last(), c);
                assert(pieces(longer).drop_last() =~= before.drop_last());
                assert(pieces(longer).last() == before.last().push(c));
            }
            let keep = ('a' <= c && c <= 'z') || ('A' <= c && c <= 'Z') || ('0' <= c && c <= '9');
            if keep {
                current.push(c);
            }
        }
        i = i + 1;
    }
    let ghost all = pieces(low);
    proof {
        assert(low.take(low.len() as int) =~= low);
        assert(low.len() == chars@.len());
        lemma_pieces_nonempty(low);
        assert(all =~= all.drop_last().push(all.last()));
        lemma_kept_push(all.drop_last(), all.last());
    }
    if current.len() > 0 {
        let ghost prior = done@;
        done.push(current);
        proof {
            assert(char_lists(done@) =~= char_lists(prior).push(current@));
        }
    }
    done
}

fn push_all(out: &mut Vec<char>, more: &Vec<char>)
    ensures
        final(out)@ == old(out)@ + more@,
{
    let mut i: usize = 0;
    while i < more.len()
        invariant
            0 <= i <= more@.len(),
            out@ == old(out)@ + more@.take(i as int),
        decreases more@.len() - i,
    {
        out.push(more[i]);
        i = i + 1;
        proof {
            assert(more@.take(i as int) =~= more@.take(i - 1).push(more@[i - 1]));
            assert(out@ =~= old(out)@ + more@.take(i as int));
        }
    }
    proof {
        assert(more@.take(i as int) =~= more@);
    }
}

/// The first `count` segments joined by dashes.
fn join_first(list: &Vec<Vec<char>>, count: usize) -> (r: Vec<char>)
    requires
        count <= list@.len(),
    ensures
        r@ == joined(char_lists(list@).take(count as int)),
{
    let ghost all = char_lists(list@);
    let mut out: Vec<char> = Vec::new();
    let mut i: usize = 0;
    proof {
        reveal_strlit("-");
        assert(all.take(0).len() == 0);
        assert(out@ =~= joined(all.take(0)));
    }
    while i < count
        invariant
            0 <= i <= count,
            count <= list@.len(),
            all == char_lists(list@),
            "-"@ == seq!['-'],
            out@ == joined(all.take(i as int)),
        decreases count - i,
    {
        let ghost before = out@;
        let ghost longer = all.take(i + 1);
        proof {
            assert(longer.drop_last() =~= all.take(i as int));
            assert(longer.last() == list@[i as int]@);
        }
        if i > 0 {
            out.push('-');
        }
        push_all(&mut out, &list[i]);
        proof {
            if i == 0 {
                assert(out@ =~= longer[0]);
            } else {
                assert(out@ =~= before + "-"@ + longer.last());
            }
        }
        i = i + 1;
    }
    out
}

/// The segments run together.
fn concat(list: &Vec<Vec<char>>) -> (r: Vec<char>)
    ensures
        r@ == run_together(char_lists(list@)),
{
    let ghost all = char_lists(list@);
    let mut out: Vec<char> = Vec::new();
    let mut i: usize = 0;
    proof {
        assert(all.take(0).len() == 0);
        assert(out@ =~= run_together(all.take(0)));
    }
    while i < list.len()
        invariant
            0 <= i <= list@.len(),
            all == char_lists(list@),
            out@ == run_together(all.take(i as int)),
        decreases list@.len() - i,
    {
        let ghost longer = all.take(i + 1);
        proof {
            assert(longer.drop_last() =~= all.take(i as int));
            assert(longer.last() == list@[i as int]@);
        }
        push_all(&mut out, &list[i]);
        i = i + 1;
    }
    proof {
        assert(all.take(i as int) =~= all);
    }
    out
}

/// The shape that segments take.
fn choose_shape(list: &Vec<Vec<char>>) -> (r: Vec<char>)
    ensures
        r@ == shape(char_lists(list@)),
{
    let ghost all = char_lists(list@);
    let joined_all = join_first(list, list.len());
    proof {
        assert(all.take(all.len() as int) =~= all);
    }
    if joined_all.len() > 0 && joined_all.len() <= MAX_PREFIX_LEN {
        return joined_all;
    }
    if list.len() >= 2 {
        let joined_two = join_first(list, 2);
        if joined_two.len() <= MAX_PREFIX_LEN {
            return joined_two;
        }
    }
    let mut out = concat(list);
    if out.len() > MAX_PREFIX_LEN {
        out.truncate(MAX_PREFIX_LEN);
    }
    out
}

/// Derive the Display ID prefix from a base name.
pub fn derive(basename: &str) -> (r: String)
    ensures
        r@ == prefix_of(basename@),
{
    let list = segments_of(basename);
    let chosen = choose_shape(&list);
    let mut out = if chosen.len() == 0 || ('0' <= chosen[0] && chosen[0] <= '9') {
        "tk-".to_owned()
    } else {
        String::new()
    };
    let ghost lead = out@;
    let mut i: usize = 0;
    while i < chosen.len()
        invariant
            0 <= i <= chosen@.len(),
            out@ == lead + chosen@.take(i as int),
        decreases chosen@.len() - i,
    {
        out.push(chosen[i]);
        i = i + 1;
        proof {
            assert(chosen@.take(i as int) =~= chosen@.take(i - 1).push(chosen@[i - 1]));
            assert(out@ =~= lead + chosen@.take(i as int));
        }
    }
    proof {
        assert(chosen@.take(i as int) =~= chosen@);
        assert(out@ =~= prefix_of(basename@));
    }
    out
}

// ---- Laws ---------------------------------------------------------------

/// Whether the character may stand in a prefix.
pub open spec fn in_prefix(c: char) -> bool {
    ('a' <= c <= 'z') || ('0' <= c <= '9') || c == '-'
}

/// Whether a text is made of lower-case letters and digits.
spec fn word(s: Seq<char>) -> bool {
    forall|k: int| 0 <= k < s.len() ==> (('a' <= #[trigger] s[k] <= 'z') || ('0' <= s[k] <= '9'))
}

/// Whether every segment is such a word, and none is empty.
spec fn plain(list: Seq<Seq<char>>) -> bool {
    forall|i: int| 0 <= i < list.len() ==> (#[trigger] list[i]).len() > 0 && word(list[i])
}

proof fn lemma_pieces_low(s: Seq<char>)
    requires
        forall|k: int| 0 <= k < s.len() ==> !('A' <= #[trigger] s[k] <= 'Z'),
    ensures
        forall|i: int, k: int|
            #![trigger pieces(s)[i][k]]
            0 <= i < pieces(s).len() && 0 <= k < pieces(s)[i].len() ==> !('A' <= pieces(s)[i][k]
                <= 'Z'),
    decreases s.len(),
{
    if s.len() > 0 {
        let rest = s.drop_last();
        assert forall|k: int| 0 <= k < rest.len() implies !('A' <= #[trigger] rest[k] <= 'Z') by {
            assert(rest[k] == s[k]);
        }
        lemma_pieces_low(rest);
        lemma_pieces_nonempty(rest);
        let before = pieces(rest);
        assert forall|i: int, k: int|
            #![trigger pieces(s)[i][k]]
            0 <= i < pieces(s).len() && 0 <= k < pieces(s)[i].len() implies !('A' <= pieces(s)[i][k]
            <= 'Z') by {
            if is_separator(s.last()) {
                if i < before.len() {
                    assert(pieces(s)[i] == before[i]);
                    assert(!('A' <= before[i][k] <= 'Z'));
                }
            } else if i < before.len() - 1 {
                assert(pieces(s)[i] == before[i]);
                assert(!('A' <= before[i][k] <= 'Z'));
            } else {
                assert(pieces(s)[i] == before.last().push(s.last()));
                if k < before.last().len() {
                    assert(before.last() == before[before.len() - 1]);
                    assert(!('A' <= before[before.len() - 1][k] <= 'Z'));
                } else {
                    assert(s[s.len() - 1] == s.last());
                }
            }
        }
    }
}

proof fn lemma_segments_plain(basename: Seq<char>)
    ensures
        plain(segments(basename)),
{
    let low = folded(basename);
    assert forall|k: int| 0 <= k < low.len() implies !('A' <= #[trigger] low[k] <= 'Z') by {
        assert(low[k] == lower(basename[k]));
    }
    lemma_pieces_low(low);
    let all = pieces(low);
    let m = all.map_values(|p: Seq<char>| cleaned(p));
    let cond = |p: Seq<char>| p.len() > 0;
    crate::select::lemma_filter_contains(m, cond);
    let list = segments(basename);
    assert forall|i: int| 0 <= i < list.len() implies (#[trigger] list[i]).len() > 0 && forall|
        k: int,
    |
        0 <= k < list[i].len() ==> (('a' <= #[trigger] list[i][k] <= 'z') || ('0' <= list[i][k]
            <= '9')) by {
        assert(list[i] == m.filter(cond)[i]);
        assert(m.contains(list[i]));
        let j = choose|j: int| 0 <= j < m.len() && m[j] == list[i];
        assert(m[j] == cleaned(all[j]));
        let keep = |c: char| is_alphanumeric(c);
        crate::select::lemma_filter_contains(all[j], keep);
        assert forall|k: int| 0 <= k < list[i].len() implies (('a' <= #[trigger] list[i][k] <= 'z')
            || ('0' <= list[i][k] <= '9')) by {
            let c = all[j].filter(keep)[k];
            assert(c == list[i][k]);
            assert(keep(c) && all[j].contains(c));
            let n = choose|n: int| 0 <= n < all[j].len() && all[j][n] == c;
            assert(!('A' <= all[j][n] <= 'Z'));
        }
    }
}

proof fn lemma_joined_plain(list: Seq<Seq<char>>)
    requires
        plain(list),
    ensures
        forall|k: int| 0 <= k < joined(list).len() ==> in_prefix(#[trigger] joined(list)[k]),
        list.len() > 0 ==> joined(list).len() > 0 && joined(list)[0] == list[0][0],
    decreases list.len(),
{
    reveal_strlit("-");
    if list.len() > 1 {
        let rest = list.drop_last();
        assert forall|i: int| 0 <= i < rest.len() implies (#[trigger] rest[i]).len() > 0 && forall|
            k: int,
        |
            0 <= k < rest[i].len() ==> (('a' <= #[trigger] rest[i][k] <= 'z') || ('0'
                <= rest[i][k] <= '9')) by {
            assert(rest[i] == list[i]);
        }
        lemma_joined_plain(rest);
        let last = list[list.len() - 1];
        assert(joined(list) == joined(rest) + "-"@ + last);
        assert forall|k: int| 0 <= k < joined(list).len() implies in_prefix(
            #[trigger] joined(list)[k],
        ) by {
            let n = joined(rest).len();
            if k < n {
                assert(joined(list)[k] == joined(rest)[k]);
            } else if k == n {
                assert(joined(list)[k] == '-');
            } else {
                assert(joined(list)[k] == last[k - n - 1]);
            }
        }
        assert(joined(list)[0] == joined(rest)[0]);
        assert(rest[0] == list[0]);
    } else if list.len() == 1 {
        assert(joined(list) == list[0]);
    }
}

proof fn lemma_together_plain(list: Seq<Seq<char>>)
    requires
        plain(list),
    ensures
        forall|k: int|
            0 <= k < run_together(list).len() ==> in_prefix(#[trigger] run_together(list)[k]),
        list.len() > 0 ==> run_together(list).len() > 0 && run_together(list)[0] == list[0][0],
    decreases list.len(),
{
    if list.len() > 0 {
        let rest = list.drop_last();
        assert forall|i: int| 0 <= i < rest.len() implies (#[trigger] rest[i]).len() > 0 && forall|
            k: int,
        |
            0 <= k < rest[i].len() ==> (('a' <= #[trigger] rest[i][k] <= 'z') || ('0'
                <= rest[i][k] <= '9')) by {
            assert(rest[i] == list[i]);
        }
        lemma_together_plain(rest);
        let last = list[list.len() - 1];
        assert forall|k: int| 0 <= k < run_together(list).len() implies in_prefix(
            #[trigger] run_together(list)[k],
        ) by {
            let n = run_together(rest).len();
            if k < n {
                assert(run_together(list)[k] == run_together(rest)[k]);
            } else {
                assert(run_together(list)[k] == last[k - n]);
            }
        }
        if rest.len() > 0 {
            assert(run_together(list)[0] == run_together(rest)[0]);
            assert(rest[0] == list[0]);
        } else {
            assert(run_together(rest).len() == 0);
            assert(run_together(list)[0] == last[0]);
        }
    }
}

/// A prefix is made of lower-case letters, digits and dashes, starts with a
/// letter, and is at most three longer than the maximum.
pub proof fn law_prefix_is_well_shaped(basename: Seq<char>)
    ensures
        ({
            let prefix = prefix_of(basename);
            &&& 0 < prefix.len() <= MAX_PREFIX_LEN + 3
            &&& 'a' <= prefix[0] <= 'z'
            &&& forall|k: int| 0 <= k < prefix.len() ==> in_prefix(#[trigger] prefix[k])
        }),
{
    let list = segments(basename);
    let chosen = shape(list);
    lemma_segments_plain(basename);
    lemma_joined_plain(list);
    lemma_together_plain(list);
    if list.len() >= 2 {
        let two = list.take(2);
        assert forall|i: int| 0 <= i < two.len() implies (#[trigger] two[i]).len() > 0 && forall|
            k: int,
        |
            0 <= k < two[i].len() ==> (('a' <= #[trigger] two[i][k] <= 'z') || ('0' <= two[i][k]
                <= '9')) by {
            assert(two[i] == list[i]);
        }
        lemma_joined_plain(two);
        assert(two[0] == list[0]);
    }
    reveal_strlit("tk-");
    let prefix = prefix_of(basename);
    assert forall|k: int| 0 <= k < chosen.len() implies in_prefix(#[trigger] chosen[k]) by {
        if chosen == cut_to_fit(run_together(list)) {
            assert(chosen[k] == run_together(list)[k]);
        }
    }
    if chosen.len() > 0 {
        if list.len() == 0 {
            assert(joined(list).len() == 0);
            assert(run_together(list).len() == 0);
        }
        assert(chosen[0] == list[0][0]);
        assert(('a' <= list[0][0] <= 'z') || ('0' <= list[0][0] <= '9'));
    }
    assert forall|k: int| 0 <= k < prefix.len() implies in_prefix(#[trigger] prefix[k]) by {
        if prefix != chosen {
            if k < 3 {
                assert(prefix[k] == "tk-"@[k]);
            } else {
                assert(prefix[k] == chosen[k - 3]);
            }
        }
    }
}

/// A word goes to the end of the last piece.
proof fn lemma_pieces_word(s: Seq<char>, w: Seq<char>)
    requires
        word(w),
    ensures
        pieces(s + w) == pieces(s).drop_last().push(pieces(s).last() + w),
    decreases w.len(),
{
    lemma_pieces_nonempty(s);
    let before = pieces(s);
    if w.len() == 0 {
        assert(s + w =~= s);
        assert(before.last() + w =~= before.last());
        assert(before.drop_last().push(before.last()) =~= before);
    } else {
        let rest = w.drop_last();
        lemma_pieces_word(s, rest);
        assert(w.last() == w[w.len() - 1]);
        assert((s + w).drop_last() =~= s + rest);
        assert((s + w).last() == w.last());
        let mid = before.drop_last().push(before.last() + rest);
        assert(mid.drop_last() =~= before.drop_last());
        assert((before.last() + rest).push(w.last()) =~= before.last() + w);
    }
}

/// Words joined by dashes are cut into those words.
proof fn lemma_pieces_joined(list: Seq<Seq<char>>)
    requires
        plain(list),
        list.len() > 0,
    ensures
        pieces(joined(list)) == list,
    decreases list.len(),
{
    reveal_strlit("-");
    assert(list.last() == list[list.len() - 1]);
    if list.len() == 1 {
        let nothing = Seq::<char>::empty();
        lemma_pieces_word(nothing, list[0]);
        assert(nothing + list[0] =~= list[0]);
        assert(pieces(list[0]) =~= list);
    } else {
        let rest = list.drop_last();
        assert forall|i: int| 0 <= i < rest.len() implies (#[trigger] rest[i]).len() > 0 && word(
            rest[i],
        ) by {
            assert(rest[i] == list[i]);
        }
        lemma_pieces_joined(rest);
        let dashed = joined(rest) + "-"@;
        assert(dashed.drop_last() =~= joined(rest));
        assert(dashed.last() == '-');
        assert(pieces(dashed) == rest.push(Seq::empty()));
        lemma_pieces_word(dashed, list.last());
        assert(rest.push(Seq::<char>::empty()).drop_last() =~= rest);
        assert(Seq::<char>::empty() + list.last() =~= list.last());
        assert(rest.push(list.last()) =~= list);
    }
}

/// Nothing of a word is dropped.
proof fn lemma_cleaned_word(w: Seq<char>)
    requires
        word(w),
    ensures
        cleaned(w) == w,
    decreases w.len(),
{
    if w.len() == 0 {
        reveal(Seq::filter);
        assert(cleaned(w) =~= w);
    } else {
        assert(w.last() == w[w.len() - 1]);
        lemma_cleaned_word(w.drop_last());
        lemma_cleaned_push(w.drop_last(), w.last());
        assert(w.drop_last().push(w.last()) =~= w);
    }
}

/// Words are all kept.
proof fn lemma_kept_words(list: Seq<Seq<char>>)
    requires
        plain(list),
    ensures
        kept(list) == list,
    decreases list.len(),
{
    if list.len() == 0 {
        reveal(Seq::filter);
        assert(kept(list) =~= list);
    } else {
        let rest = list.drop_last();
        assert forall|i: int| 0 <= i < rest.len() implies (#[trigger] rest[i]).len() > 0 && word(
            rest[i],
        ) by {
            assert(rest[i] == list[i]);
        }
        assert(list.last() == list[list.len() - 1]);
        lemma_kept_words(rest);
        lemma_cleaned_word(list.last());
        lemma_kept_push(rest, list.last());
        assert(rest.push(list.last()) =~= list);
    }
}

/// Words joined by dashes hold nothing that lower case would change.
proof fn lemma_joined_low(list: Seq<Seq<char>>)
    requires
        plain(list),
    ensures
        folded(joined(list)) == joined(list),
{
    lemma_joined_plain(list);
    assert(folded(joined(list)) =~= joined(list));
}

/// One word more in front.
proof fn lemma_joined_front(first: Seq<char>, list: Seq<Seq<char>>)
    requires
        list.len() > 0,
    ensures
        joined(seq![first] + list) == first + "-"@ + joined(list),
    decreases list.len(),
{
    let all = seq![first] + list;
    assert(all.last() == list.last());
    if list.len() == 1 {
        assert(all.drop_last() =~= seq![first]);
        assert(joined(seq![first]) == first);
        assert(list.last() == list[0]);
    } else {
        assert(all.drop_last() =~= seq![first] + list.drop_last());
        lemma_joined_front(first, list.drop_last());
        assert(joined(all) =~= first + "-"@ + joined(list));
    }
}

/// Words joined by dashes that fit and do not start with a digit are their own
/// prefix.
proof fn lemma_words_are_a_prefix(list: Seq<Seq<char>>)
    requires
        plain(list),
        0 < joined(list).len() <= MAX_PREFIX_LEN,
        !('0' <= joined(list)[0] <= '9'),
    ensures
        prefix_of(joined(list)) == joined(list),
{
    lemma_joined_low(list);
    if list.len() > 0 {
        lemma_pieces_joined(list);
    }
    lemma_kept_words(list);
}

/// Segments run together are a word.
proof fn lemma_run_together_word(list: Seq<Seq<char>>)
    requires
        plain(list),
    ensures
        word(run_together(list)),
    decreases list.len(),
{
    if list.len() > 0 {
        let rest = list.drop_last();
        assert forall|i: int| 0 <= i < rest.len() implies (#[trigger] rest[i]).len() > 0 && word(
            rest[i],
        ) by {
            assert(rest[i] == list[i]);
        }
        lemma_run_together_word(rest);
        let all = run_together(list);
        let n = run_together(rest).len() as int;
        assert(list.last() == list[list.len() - 1]);
        assert forall|k: int| 0 <= k < all.len() implies (('a' <= #[trigger] all[k] <= 'z') || (
        '0' <= all[k] <= '9')) by {
            if k < n {
                assert(all[k] == run_together(rest)[k]);
            } else {
                assert(all[k] == list[list.len() - 1][k - n]);
            }
        }
    }
}

/// The shape of some segments is again words joined by dashes.
proof fn lemma_shape_is_joined(list: Seq<Seq<char>>) -> (words: Seq<Seq<char>>)
    requires
        plain(list),
    ensures
        plain(words),
        joined(words) == shape(list),
        shape(list).len() > 0 ==> words.len() > 0,
{
    if 0 < joined(list).len() <= MAX_PREFIX_LEN {
        list
    } else if list.len() >= 2 && joined(list.take(2)).len() <= MAX_PREFIX_LEN {
        let two = list.take(2);
        assert forall|i: int| 0 <= i < two.len() implies (#[trigger] two[i]).len() > 0 && word(
            two[i],
        ) by {
            assert(two[i] == list[i]);
        }
        two
    } else {
        lemma_run_together_word(list);
        let cut = cut_to_fit(run_together(list));
        if cut.len() == 0 {
            assert(joined(Seq::<Seq<char>>::empty()) =~= cut);
            Seq::empty()
        } else {
            seq![cut]
        }
    }
}

/// A derived prefix that fits the limit gives itself, unless it is the bare
/// `tk-`.
pub proof fn law_a_fitting_prefix_gives_itself(basename: Seq<char>)
    requires
        prefix_of(basename).len() <= MAX_PREFIX_LEN,
        prefix_of(basename) != "tk-"@,
    ensures
        prefix_of(prefix_of(basename)) == prefix_of(basename),
{
    reveal_strlit("tk-");
    reveal_strlit("-");
    let list = segments(basename);
    lemma_segments_plain(basename);
    let words = lemma_shape_is_joined(list);
    let chosen = shape(list);
    if chosen.len() == 0 {
        assert("tk-"@ + chosen =~= "tk-"@);
    } else if '0' <= chosen[0] <= '9' {
        let lead = seq!['t', 'k'];
        let longer = seq![lead] + words;
        lemma_joined_front(lead, words);
        assert(joined(longer) =~= "tk-"@ + chosen);
        assert forall|i: int| 0 <= i < longer.len() implies (#[trigger] longer[i]).len() > 0
            && word(longer[i]) by {
            if i > 0 {
                assert(longer[i] == words[i - 1]);
            }
        }
        lemma_words_are_a_prefix(longer);
    } else {
        lemma_words_are_a_prefix(words);
    }
}

} // verus!
