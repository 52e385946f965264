//! The trainer's menu and the answers to its prompts.

use crate::text::{characters, trim, trim_bounds, trimmed};
use vstd::prelude::*;

verus! {

/// What the user picked from the menu.
#[derive(Debug, Clone, Copy, PartialEq, Eq, Structural)]
pub enum MenuChoice {
    /// `1`: review the cards that are due.
    Review,
    /// `2`: add one card.
    Add,
    /// `3`: import cards from a file.
    Import,
    /// `x`: leave.
    Exit,
    /// Anything else: the menu is shown again.
    Invalid,
}

/// The menu entry that `input` picks, whitespace at its ends aside.
pub open spec fn menu_choice(input: Seq<char>) -> MenuChoice {
    let picked = trimmed(input);
    if picked == seq!['1'] {
        MenuChoice::Review
    } else if picked == seq!['2'] {
        MenuChoice::Add
    } else if picked == seq!['3'] {
        MenuChoice::Import
    } else if picked == seq!['x'] {
        MenuChoice::Exit
    } else {
        MenuChoice::Invalid
    }
}

/// The file to import from: what was entered, trimmed, or `flashcards.csv`
/// where nothing was entered.
pub open spec fn import_path(input: Seq<char>) -> Seq<char> {
    if trimmed(input).len() == 0 {
        "flashcards.csv"@
    } else {
        trimmed(input)
    }
}

/// Reads a line typed at the menu.
pub fn parse_menu_choice(input: &str) -> (choice: MenuChoice)
    ensures
        choice == menu_choice(input@),
{
    let chars = characters(input);
    let (start, end) = trim_bounds(&chars, 0, chars.len());
    assert(chars@.subrange(0, chars.len() as int) == chars@);
    let ghost picked = chars@.subrange(start as int, end as int);
    if end - start != 1 {
        assert(picked.len() != 1);
        assert(seq!['1'].len() == 1 && seq!['2'].len() == 1 && seq!['3'].len() == 1 && seq![
            'x',
        ].len() == 1);
        return MenuChoice::Invalid;
    }
    let key = chars[start];
    assert(picked == seq![key]);
    assert(seq![key][0] == key);
    if key == '1' {
        MenuChoice::Review
    } else if key == '2' {
        MenuChoice::Add
    } else if key == '3' {
        MenuChoice::Import
    } else if key == 'x' {
        MenuChoice::Exit
    } else {
        MenuChoice::Invalid
    }
}

/// Reads the line typed when asked for the file to import from.
pub fn resolve_import_path(input: &str) -> (path: String)
    ensures
        path@ == import_path(input@),
{
    let entered = trim(input);
    if entered.unicode_len() == 0 {
        String::from_str("flashcards.csv")
    } else {
        String::from_str(entered)
    }
}

} // verus!
