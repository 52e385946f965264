//! Keys of the card store: a question, or a question with a number behind it
//! where the question alone is taken.

use crate::text::{decimal, lemma_decimal_is_injective, numeral};
use vstd::prelude::*;
use vstd::seq_lib::seq_to_set_is_finite;
use vstd::set_lib::{lemma_int_range, lemma_len_subset, lemma_map_size, set_int_range};

verus! {

/// The key that stands for `question` at the `counter`-th try: the question
/// itself at first, then the question followed by a space and the counter in
/// round brackets.
pub open spec fn numbered(question: Seq<char>, counter: nat) -> Seq<char> {
    if counter == 0 {
        question
    } else {
        question + seq![' ', '('] + decimal(counter) + seq![')']
    }
}

/// The least counter from `from` on whose key is not among `taken`.
pub open spec fn first_free(taken: Seq<Seq<char>>, question: Seq<char>, from: nat) -> nat
    decreases taken.len() - from,
{
    if from >= taken.len() || !taken.contains(numbered(question, from)) {
        from
    } else {
        first_free(taken, question, from + 1)
    }
}

/// The key under which a card with `question` joins the keys `taken`.
pub open spec fn free_key(taken: Seq<Seq<char>>, question: Seq<char>) -> Seq<char> {
    numbered(question, first_free(taken, question, 0))
}

/// Two counters give two keys.
pub proof fn lemma_numbered_is_injective(question: Seq<char>, a: nat, b: nat)
    requires
        numbered(question, a) == numbered(question, b),
    ensures
        a == b,
{
    let left = numbered(question, a);
    let right = numbered(question, b);
    if a != 0 {
        assert(left.len() == question.len() + 3 + decimal(a).len());
        assert(left.subrange(question.len() as int + 2, left.len() - 1) == decimal(a));
    }
    if b != 0 {
        assert(right.len() == question.len() + 3 + decimal(b).len());
        assert(right.subrange(question.len() as int + 2, right.len() - 1) == decimal(b));
    }
    if a != 0 && b != 0 {
        lemma_decimal_is_injective(a, b);
    }
}

/// Where the keys of the first `count` counters are all taken, there are at
/// least `count` keys.
pub proof fn lemma_numbered_fit(taken: Seq<Seq<char>>, question: Seq<char>, count: nat)
    requires
        forall|j: nat| j < count ==> taken.contains(#[trigger] numbered(question, j)),
    ensures
        count <= taken.len(),
{
    let range = set_int_range(0, count as int);
    let name = |j: int| numbered(question, j as nat);
    let names = range.map(name);
    lemma_int_range(0, count as int);
    assert forall|x: int, y: int|
        range.contains(x) && range.contains(y) && #[trigger] name(x) == #[trigger] name(
            y,
        ) implies x == y by {
        lemma_numbered_is_injective(question, x as nat, y as nat);
    }
    lemma_map_size(range, names, name);
    assert forall|key: Seq<char>| names.contains(key) implies taken.to_set().contains(key) by {
        let j = choose|j: int| range.contains(j) && key == name(j);
        assert(taken.contains(numbered(question, j as nat)));
    }
    seq_to_set_is_finite(taken);
    taken.lemma_cardinality_of_set();
    lemma_len_subset(names, taken.to_set());
}

/// The counter that `first_free` finds is free, and every counter between
/// `from` and it is taken.
pub proof fn lemma_first_free(taken: Seq<Seq<char>>, question: Seq<char>, from: nat)
    requires
        forall|j: nat| j < from ==> taken.contains(#[trigger] numbered(question, j)),
    ensures
        from <= first_free(taken, question, from),
        !taken.contains(numbered(question, first_free(taken, question, from))),
        forall|j: nat|
            j < first_free(taken, question, from) ==> taken.contains(
                #[trigger] numbered(question, j),
            ),
    decreases taken.len() - from,
{
    if taken.contains(numbered(question, from)) {
        lemma_numbered_fit(taken, question, from + 1);
        lemma_first_free(taken, question, from + 1);
    }
}

/// The key that a card is given is not taken, and it is the question itself
/// where that is not taken.
pub proof fn lemma_free_key_is_free(taken: Seq<Seq<char>>, question: Seq<char>)
    ensures
        !taken.contains(free_key(taken, question)),
        !taken.contains(question) ==> free_key(taken, question) == question,
{
    lemma_first_free(taken, question, 0);
}

/// Writes the key that stands for `question` at the `counter`-th try.
pub fn numbered_text(question: &String, counter: u64) -> (key: String)
    ensures
        key@ == numbered(question@, counter as nat),
{
    let mut key = question.clone();
    if counter != 0 {
        proof {
            reveal_strlit(" (");
            reveal_strlit(")");
        }
        let digits = numeral(counter);
        key.append(" (");
        key.append(digits.as_str());
        key.append(")");
        assert(" ("@ == seq![' ', '(']);
        assert(")"@ == seq![')']);
    }
    key
}

} // verus!
