//! The import format: one card to a line, its question, answer and guidance
//! parted by `~`.

use crate::text::{characters, find, position, split, trim_bounds, trimmed};
use vstd::prelude::*;

verus! {

/// The character that parts the fields of a line.
pub const DELIMITER: char = '~';

/// The question, answer and guidance that `line` holds: the line is trimmed
/// and split at every `~`, and where that gives three fields, each of them
/// is trimmed. A line with fewer or more fields holds no card, and so an
/// empty line holds none.
pub open spec fn card_fields(line: Seq<char>) -> Option<(Seq<char>, Seq<char>, Seq<char>)> {
    let parts = split(trimmed(line), DELIMITER);
    if parts.len() == 3 {
        Some((trimmed(parts[0]), trimmed(parts[1]), trimmed(parts[2])))
    } else {
        None
    }
}

/// Every text splits into at least one piece.
pub proof fn lemma_split_is_not_empty(s: Seq<char>, delimiter: char)
    ensures
        split(s, delimiter).len() >= 1,
    decreases s.len(),
{
    let at = position(s, delimiter) as int;
    if at < s.len() {
        lemma_split_is_not_empty(s.skip(at + 1), delimiter);
    }
}

/// Reads one line of an import file: the question, answer and guidance of
/// the card that it holds, or `None` where it holds none.
pub fn parse_card_line(line: &str) -> (fields: Option<(String, String, String)>)
    ensures
        match fields {
            Some(found) => card_fields(line@) == Some((found.0@, found.1@, found.2@)),
            None => card_fields(line@) is None,
        },
{
    let chars = characters(line);
    let (start, end) = trim_bounds(&chars, 0, chars.len());
    assert(chars@.subrange(0, chars.len() as int) == chars@);
    let ghost whole = chars@.subrange(start as int, end as int);
    let first = find(&chars, start, end, DELIMITER);
    if first == end {
        return None;
    }
    let ghost behind_first = chars@.subrange(first + 1, end as int);
    assert(whole.take(first - start) == chars@.subrange(start as int, first as int));
    assert(whole.skip(first - start + 1) == behind_first);
    let second = find(&chars, first + 1, end, DELIMITER);
    if second == end {
        assert(split(behind_first, DELIMITER) == seq![behind_first]);
        assert(split(whole, DELIMITER).len() == 2);
        return None;
    }
    let ghost behind_second = chars@.subrange(second + 1, end as int);
    assert(behind_first.take(second - first - 1) == chars@.subrange(first + 1, second as int));
    assert(behind_first.skip(second - first) == behind_second);
    let third = find(&chars, second + 1, end, DELIMITER);
    if third != end {
        proof {
            lemma_split_is_not_empty(behind_second.skip(third - second), DELIMITER);
            assert(split(behind_second, DELIMITER).len() >= 2);
            assert(split(behind_first, DELIMITER).len() >= 3);
            assert(split(whole, DELIMITER).len() >= 4);
        }
        return None;
    }
    proof {
        assert(split(behind_second, DELIMITER) == seq![behind_second]);
        assert(split(behind_first, DELIMITER) == seq![
            chars@.subrange(first + 1, second as int),
            behind_second,
        ]);
        assert(split(whole, DELIMITER) == seq![
            chars@.subrange(start as int, first as int),
            chars@.subrange(first + 1, second as int),
            behind_second,
        ]);
    }
    let question = trim_bounds(&chars, start, first);
    let answer = trim_bounds(&chars, first + 1, second);
    let guidance = trim_bounds(&chars, second + 1, end);
    Some(
        (
            String::from_str(line.substring_char(question.0, question.1)),
            String::from_str(line.substring_char(answer.0, answer.1)),
            String::from_str(line.substring_char(guidance.0, guidance.1)),
        ),
    )
}

} // verus!
