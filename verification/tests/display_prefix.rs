//! Display ID prefixes derived from repository names.

use tk_store::display_prefix;

fn derived(basename: &str) -> String {
    display_prefix::derive(basename)
}

#[test]
fn short_single_word() {
    assert_eq!(derived("ticket"), "ticket");
}

#[test]
fn lowercases() {
    assert_eq!(derived("Ticket"), "ticket");
}

#[test]
fn multi_word_fits_joined() {
    assert_eq!(derived("my-cool-app"), "my-cool-app");
}

#[test]
fn long_basename_falls_back_to_first_two_segments() {
    assert_eq!(derived("src-cafe-extras-and-more"), "src-cafe");
}

#[test]
fn very_long_single_word_truncates_to_12() {
    assert_eq!(derived("abcdefghijklmnopqrstuvwxyz"), "abcdefghijkl");
}

#[test]
fn underscores_treated_as_separators() {
    assert_eq!(derived("my_cool_app"), "my-cool-app");
}

#[test]
fn punctuation_stripped_from_segments() {
    assert_eq!(derived("ab.cd!ef"), "ab-cdef");
}

#[test]
fn empty_becomes_tk_dash() {
    assert_eq!(derived(""), "tk-");
}

#[test]
fn all_punctuation_becomes_tk_dash() {
    assert_eq!(derived("---"), "tk-");
}

#[test]
fn digit_leading_prefixed_with_tk_dash() {
    assert_eq!(derived("42-things"), "tk-42-things");
}

#[test]
fn vowels_preserved() {
    assert_eq!(derived("iou"), "iou");
}

#[test]
fn long_first_two_segments_truncate_full_basename() {
    assert_eq!(derived("alphabetone-betatwo-gamma"), "alphabetoneb");
}

#[test]
fn a_prefix_holds_lowercase_letters_digits_and_dashes() {
    for name in ["Über-Größe", "A B\tC", "#1:x/y", "__--", "9", "Zürich.Hbf_Nord-Ost"] {
        let prefix = derived(name);
        assert!(!prefix.is_empty());
        assert!(prefix
            .chars()
            .all(|c| c == '-' || c.is_ascii_lowercase() || c.is_ascii_digit()));
        assert!(!prefix.starts_with(|c: char| c.is_ascii_digit()));
    }
}

#[test]
fn every_whitespace_character_parts_segments() {
    assert_eq!(derived("ab\ncd"), "ab-cd");
    let mut apart = 0;
    for c in '\0'..=char::MAX {
        if c.is_whitespace() {
            assert_eq!(derived(&format!("ab{c}cd")), "ab-cd");
            apart += 1;
        } else if !c.is_ascii() {
            assert_eq!(derived(&format!("ab{c}cd")), "abcd");
        }
    }
    assert_eq!(apart, 25);
}

#[test]
fn a_prefix_that_fits_gives_itself() {
    for name in ["Ticket", "my repo", "42-things", "alphabetone-betatwo-gamma", "a.b.c", "9", "x"] {
        let prefix = derived(name);
        assert!(prefix.len() <= 12 && prefix != "tk-");
        assert_eq!(derived(&prefix), prefix);
    }
    // The bare lead is no word, and a longer prefix is cut anew.
    assert_eq!(derived("tk-"), "tk");
    assert_eq!(derived("123456789012"), "tk-123456789012");
    assert_eq!(derived("tk-123456789012"), "tk1234567890");
}
