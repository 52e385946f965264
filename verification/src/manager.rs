//! The card store: every card under its question, in the order in which the
//! cards came.

use crate::card::{reading, CardData, Flashcard, UpdateError, MAX_SCORE};
use crate::import::{card_fields, parse_card_line};
use crate::keys::{first_free, free_key, lemma_first_free, lemma_numbered_fit, numbered, numbered_text};
use crate::text::{lemma_position, position, trim, trimmed};
use vstd::prelude::*;
use vstd::seq_lib::to_multiset_contains;

verus! {

/// The questions of `cards`, card by card.
pub open spec fn questions(cards: Seq<CardData>) -> Seq<Seq<char>> {
    cards.map_values(|card: CardData| card.question)
}

/// Whether no two of `cards` share a question.
pub open spec fn distinct_questions(cards: Seq<CardData>) -> bool {
    questions(cards).no_duplicates()
}

/// Whether one of `cards` has the question `question`.
pub open spec fn holds(cards: Seq<CardData>, question: Seq<char>) -> bool {
    questions(cards).contains(question)
}

/// Where the first card with `question` stands in `cards`; the number of
/// cards where there is none.
pub open spec fn key_index(cards: Seq<CardData>, question: Seq<char>) -> nat {
    position(questions(cards), question)
}

/// `cards` as a mapping from question to card.
pub open spec fn as_map(cards: Seq<CardData>) -> Map<Seq<char>, CardData> {
    Map::new(
        |question: Seq<char>| holds(cards, question),
        |question: Seq<char>| cards[key_index(cards, question) as int],
    )
}

/// `cards` with one more card, never reviewed, whose key is `question` or,
/// where that is taken, `question` with the least free number behind it.
pub open spec fn added(
    cards: Seq<CardData>,
    question: Seq<char>,
    answer: Seq<char>,
    guidance: Seq<char>,
) -> Seq<CardData> {
    cards.push(CardData::fresh(free_key(questions(cards), question), answer, guidance))
}

/// A card with a new question joins the others without touching them, and
/// the questions stay distinct.
pub proof fn lemma_push_keeps_distinct(cards: Seq<CardData>, card: CardData)
    requires
        distinct_questions(cards),
        !holds(cards, card.question),
    ensures
        distinct_questions(cards.push(card)),
        questions(cards.push(card)) == questions(cards).push(card.question),
{
    let before = questions(cards);
    let after = questions(cards.push(card));
    assert(after == before.push(card.question));
    assert forall|i: int, j: int|
        0 <= i < after.len() && 0 <= j < after.len() && i != j implies after[i] != after[j] by {
        if i < before.len() && j < before.len() {
            assert(after[i] == before[i] && after[j] == before[j]);
        } else if i < before.len() {
            assert(before[i] == after[i]);
        } else {
            assert(before[j] == after[j]);
        }
    }
}

/// `cards` after `card` was put under its question: in the place of the card
/// that had this question, or behind the others where none had it.
pub open spec fn inserted(cards: Seq<CardData>, card: CardData) -> Seq<CardData> {
    let at = key_index(cards, card.question) as int;
    if at < cards.len() {
        cards.update(at, card)
    } else {
        cards.push(card)
    }
}

/// `cards` after each of `incoming` was put under its question, one after
/// the other.
pub open spec fn loaded(cards: Seq<CardData>, incoming: Seq<CardData>) -> Seq<CardData>
    decreases incoming.len(),
{
    if incoming.len() == 0 {
        cards
    } else {
        inserted(loaded(cards, incoming.drop_last()), incoming.last())
    }
}

/// Whether the card at `a` is reviewed before the card at `b`: the one that
/// is due earlier goes first, and of two that are due together the one that
/// came first.
pub open spec fn reviewed_before(cards: Seq<CardData>, a: int, b: int) -> bool {
    cards[a].next_review < cards[b].next_review || (cards[a].next_review == cards[b].next_review
        && a < b)
}

/// Whether `order` lists, in review order, the cards before `upto` that are
/// due at `now`, each once and no other.
pub open spec fn lists_due(cards: Seq<CardData>, now: nat, upto: int, order: Seq<usize>) -> bool {
    &&& forall|k: int|
        0 <= k < order.len() ==> 0 <= (#[trigger] order[k]) < upto && cards[order[k] as int].is_due(
            now,
        )
    &&& forall|i: int|
        0 <= i < upto && (#[trigger] cards[i]).is_due(now) ==> exists|k: int|
            0 <= k < order.len() && order[k] == i
    &&& forall|j: int, k: int|
        0 <= j < k < order.len() ==> reviewed_before(
            cards,
            #[trigger] order[j] as int,
            #[trigger] order[k] as int,
        )
}

/// Whether `order` is the list of the cards that are due at `now`, most
/// overdue first.
pub open spec fn is_due_order(cards: Seq<CardData>, now: nat, order: Seq<usize>) -> bool {
    lists_due(cards, now, cards.len() as int, order)
}

/// Putting a card under its question keeps the questions distinct, and
/// changes the mapping at that question alone.
pub proof fn lemma_insert_keeps_distinct(cards: Seq<CardData>, card: CardData)
    requires
        distinct_questions(cards),
    ensures
        distinct_questions(inserted(cards, card)),
        as_map(inserted(cards, card)) == as_map(cards).insert(card.question, card),
{
    let at = key_index(cards, card.question) as int;
    let after = inserted(cards, card);
    lemma_position(questions(cards), card.question, at);
    if at < cards.len() {
        assert(questions(after) == questions(cards));
        assert forall|question: Seq<char>| holds(after, question) implies #[trigger] as_map(
            after,
        )[question] == as_map(cards).insert(card.question, card)[question] by {
            lemma_position(questions(cards), question, at);
        }
        assert(as_map(after) =~= as_map(cards).insert(card.question, card));
    } else {
        assert(!holds(cards, card.question)) by {
            if holds(cards, card.question) {
                let k = choose|k: int|
                    0 <= k < questions(cards).len() && questions(cards)[k] == card.question;
                assert(questions(cards)[k] != card.question);
            }
        }
        lemma_push_keeps_distinct(cards, card);
        let before = questions(cards);
        assert forall|question: Seq<char>| holds(after, question) <==> (holds(cards, question)
            || question == card.question) by {
            if holds(after, question) {
                let k = choose|k: int|
                    0 <= k < questions(after).len() && questions(after)[k] == question;
                if k < before.len() {
                    assert(before[k] == question);
                }
            }
            if holds(cards, question) {
                let k = choose|k: int| 0 <= k < before.len() && before[k] == question;
                assert(questions(after)[k] == question);
            }
            if question == card.question {
                assert(questions(after)[before.len() as int] == question);
            }
        }
        assert forall|question: Seq<char>| holds(after, question) implies #[trigger] as_map(
            after,
        )[question] == as_map(cards).insert(card.question, card)[question] by {
            let found = key_index(cards, question) as int;
            lemma_position(before, question, found);
            assert forall|k: int| 0 <= k < found implies questions(after)[k] != question by {
                assert(questions(after)[k] == before[k]);
            }
            if found < before.len() {
                assert(questions(after)[found] == before[found]);
            }
            lemma_position(questions(after), question, found);
        }
        assert(as_map(after) =~= as_map(cards).insert(card.question, card));
    }
}

/// A review of one card keeps every question, so the questions stay distinct.
pub proof fn lemma_review_keeps_questions(cards: Seq<CardData>, index: int, card: CardData)
    requires
        0 <= index < cards.len(),
        card.question == cards[index].question,
    ensures
        questions(cards.update(index, card)) == questions(cards),
{
    assert(questions(cards.update(index, card)) =~= questions(cards));
}

/// A card that is not due leaves the list of due cards as it is.
pub proof fn lemma_skip_not_due(cards: Seq<CardData>, now: nat, upto: int, order: Seq<usize>)
    requires
        0 <= upto < cards.len(),
        lists_due(cards, now, upto, order),
        !cards[upto].is_due(now),
    ensures
        lists_due(cards, now, upto + 1, order),
{
}

/// A due card enters the list of due cards behind every card that is due no
/// later and before every card that is due later.
pub proof fn lemma_insert_due(cards: Seq<CardData>, now: nat, upto: int, order: Seq<usize>, at: int)
    requires
        0 <= upto < cards.len(),
        upto <= usize::MAX,
        lists_due(cards, now, upto, order),
        cards[upto].is_due(now),
        0 <= at <= order.len(),
        at > 0 ==> cards[order[at - 1] as int].next_review <= cards[upto].next_review,
        forall|k: int|
            at <= k < order.len() ==> cards[#[trigger] order[k] as int].next_review
                > cards[upto].next_review,
    ensures
        lists_due(cards, now, upto + 1, order.insert(at, upto as usize)),
{
    let longer = order.insert(at, upto as usize);
    assert forall|k: int| 0 <= k < longer.len() implies 0 <= (#[trigger] longer[k]) < upto + 1
        && cards[longer[k] as int].is_due(now) by {
        if k < at {
            assert(longer[k] == order[k]);
        } else if k > at {
            assert(longer[k] == order[k - 1]);
        }
    }
    assert forall|i: int| 0 <= i < upto + 1 && (#[trigger] cards[i]).is_due(now) implies exists|
        k: int,
    |
        0 <= k < longer.len() && longer[k] == i by {
        if i == upto {
            assert(longer[at] == i);
        } else {
            let k = choose|k: int| 0 <= k < order.len() && order[k] == i;
            if k < at {
                assert(longer[k] == i);
            } else {
                assert(longer[k + 1] == i);
            }
        }
    }
    assert forall|j: int, k: int| 0 <= j < k < longer.len() implies reviewed_before(
        cards,
        #[trigger] longer[j] as int,
        #[trigger] longer[k] as int,
    ) by {
        if k < at {
            assert(longer[j] == order[j] && longer[k] == order[k]);
        } else if k == at {
            assert(longer[j] == order[j]);
            if j < at - 1 {
                assert(reviewed_before(cards, order[j] as int, order[at - 1] as int));
            }
        } else if j < at {
            assert(longer[j] == order[j] && longer[k] == order[k - 1]);
        } else if j == at {
            assert(longer[k] == order[k - 1]);
        } else {
            assert(longer[j] == order[j - 1] && longer[k] == order[k - 1]);
        }
    }
}

/// Two lists of the due cards in review order agree on their first `count`
/// places.
pub proof fn lemma_due_orders_agree(
    cards: Seq<CardData>,
    now: nat,
    upto: int,
    first: Seq<usize>,
    second: Seq<usize>,
    count: nat,
)
    requires
        lists_due(cards, now, upto, first),
        lists_due(cards, now, upto, second),
        count <= first.len(),
    ensures
        count <= second.len(),
        forall|k: int| 0 <= k < count ==> first[k] == second[k],
    decreases count,
{
    if count > 0 {
        let place = count - 1;
        lemma_due_orders_agree(cards, now, upto, first, second, place as nat);
        let here = first[place];
        assert(cards[here as int].is_due(now));
        let k = choose|k: int| 0 <= k < second.len() && second[k] == here as int;
        if k < place {
            assert(first[k] == second[k]);
            assert(reviewed_before(cards, first[k] as int, first[place] as int));
        }
        let there = second[place];
        assert(cards[there as int].is_due(now));
        let j = choose|j: int| 0 <= j < first.len() && first[j] == there as int;
        if j < place {
            assert(first[j] == second[j]);
            assert(reviewed_before(cards, second[j] as int, second[place] as int));
        }
        if k > place && j > place {
            assert(reviewed_before(cards, second[place] as int, second[k] as int));
            assert(reviewed_before(cards, first[place] as int, first[j] as int));
        }
    }
}

/// The review order is one list and no other: two lists of the due cards in
/// review order are the same list.
pub proof fn lemma_due_order_is_unique(
    cards: Seq<CardData>,
    now: nat,
    first: Seq<usize>,
    second: Seq<usize>,
)
    requires
        is_due_order(cards, now, first),
        is_due_order(cards, now, second),
    ensures
        first == second,
{
    lemma_due_orders_agree(cards, now, cards.len() as int, first, second, first.len());
    lemma_due_orders_agree(cards, now, cards.len() as int, second, first, second.len());
    assert(first =~= second);
}

/// Cards with distinct questions, put one after the other into an empty
/// store, make the very list that they came in.
pub proof fn lemma_loaded_distinct(incoming: Seq<CardData>)
    requires
        distinct_questions(incoming),
    ensures
        loaded(Seq::empty(), incoming) == incoming,
    decreases incoming.len(),
{
    if incoming.len() > 0 {
        let front = incoming.drop_last();
        let card = incoming.last();
        assert(questions(front) == questions(incoming).drop_last());
        lemma_loaded_distinct(front);
        lemma_position(questions(front), card.question, front.len() as int);
        assert forall|k: int| 0 <= k < front.len() implies questions(front)[k] != card.question by {
            assert(questions(incoming)[k] == questions(front)[k]);
            assert(questions(incoming)[incoming.len() - 1] == card.question);
        }
        assert(front.push(card) == incoming);
    } else {
        assert(incoming == Seq::<CardData>::empty());
    }
}

/// Two lists of the same cards, the first with distinct questions, are the
/// same mapping, in whatever order either holds the cards.
pub proof fn lemma_same_cards_same_map(first: Seq<CardData>, second: Seq<CardData>)
    requires
        distinct_questions(first),
        first.to_multiset() == second.to_multiset(),
    ensures
        distinct_questions(second),
        as_map(first) == as_map(second),
{
    assert forall|card: CardData| first.contains(card) <==> second.contains(card) by {
        to_multiset_contains(first, card);
        to_multiset_contains(second, card);
    }
    assert(first.no_duplicates()) by {
        assert forall|i: int, j: int|
            0 <= i < first.len() && 0 <= j < first.len() && i != j implies first[i] != first[j] by {
            assert(questions(first)[i] != questions(first)[j]);
        }
    }
    first.lemma_multiset_has_no_duplicates();
    second.lemma_multiset_has_no_duplicates_conv();
    assert forall|i: int, j: int|
        0 <= i < second.len() && 0 <= j < second.len() && i != j implies questions(second)[i]
        != questions(second)[j] by {
        assert(second.contains(second[i]));
        assert(second.contains(second[j]));
        assert(first.contains(second[i]));
        assert(first.contains(second[j]));
        let p = choose|p: int| 0 <= p < first.len() && first[p] == second[i];
        let q = choose|q: int| 0 <= q < first.len() && first[q] == second[j];
        assert(questions(first)[p] == second[i].question);
        assert(questions(first)[q] == second[j].question);
    }
    assert forall|question: Seq<char>| holds(first, question) implies holds(second, question)
        && as_map(first)[question] == as_map(second)[question] by {
        lemma_held_card(first, question);
        let card = first[key_index(first, question) as int];
        assert(first.contains(card));
        assert(second.contains(card));
        let j = choose|j: int| 0 <= j < second.len() && second[j] == card;
        assert(questions(second)[j] == question);
        lemma_held_card(second, question);
        let found = key_index(second, question) as int;
        if found != j {
            assert(questions(second)[found] == questions(second)[j]);
        }
    }
    assert forall|question: Seq<char>| holds(second, question) implies holds(first, question) by {
        lemma_held_card(second, question);
        let card = second[key_index(second, question) as int];
        assert(second.contains(card));
        assert(first.contains(card));
        let j = choose|j: int| 0 <= j < first.len() && first[j] == card;
        assert(questions(first)[j] == question);
    }
    assert(as_map(first) =~= as_map(second));
}

/// A question that is held is held by the card at its index.
pub proof fn lemma_held_card(cards: Seq<CardData>, question: Seq<char>)
    ensures
        key_index(cards, question) <= cards.len(),
        holds(cards, question) <==> key_index(cards, question) < cards.len(),
        holds(cards, question) ==> cards[key_index(cards, question) as int].question == question,
{
    lemma_position(questions(cards), question, 0);
    let at = key_index(cards, question) as int;
    if at < cards.len() {
        assert(questions(cards)[at] == question);
    } else if holds(cards, question) {
        let k = choose|k: int| 0 <= k < questions(cards).len() && questions(cards)[k] == question;
        assert(questions(cards)[k] != question);
    }
}

/// Saving and loading give the store back. Whatever the order in which the
/// cards of a store were written out, putting them one after the other into
/// an empty store makes the mapping that the store was: the same questions,
/// each with the same card.
pub proof fn lemma_round_trip(stored: Seq<CardData>, saved: Seq<CardData>)
    requires
        distinct_questions(stored),
        saved.to_multiset() == stored.to_multiset(),
    ensures
        loaded(Seq::empty(), saved) == saved,
        as_map(loaded(Seq::empty(), saved)) == as_map(stored),
{
    lemma_same_cards_same_map(stored, saved);
    lemma_loaded_distinct(saved);
}

/// `cards` after the line `line` of an import file was read: with the card
/// that the line holds added, or as they were where it holds none.
pub open spec fn imported_line(cards: Seq<CardData>, line: Seq<char>) -> Seq<CardData> {
    match card_fields(line) {
        Some(fields) => added(cards, fields.0, fields.1, fields.2),
        None => cards,
    }
}

/// `cards` after the lines `lines` of an import file were read, one after
/// the other.
pub open spec fn imported(cards: Seq<CardData>, lines: Seq<Seq<char>>) -> Seq<CardData>
    decreases lines.len(),
{
    if lines.len() == 0 {
        cards
    } else {
        imported_line(imported(cards, lines.drop_last()), lines.last())
    }
}

/// The cards of one trainer, each under its own question.
#[derive(Debug)]
pub struct SpacedRepetitionManager {
    flashcards: Vec<Flashcard>,
    batch_size: usize,
    flashcards_file: String,
}

impl View for SpacedRepetitionManager {
    type V = Seq<CardData>;

    closed spec fn view(&self) -> Seq<CardData> {
        self.flashcards@.map_values(|card: Flashcard| card@)
    }
}

impl SpacedRepetitionManager {
    #[verifier::type_invariant]
    spec fn keyed(&self) -> bool {
        distinct_questions(self@)
    }

    /// The number of reviews after which a session pauses; 0 for none.
    pub closed spec fn batch(&self) -> nat {
        self.batch_size as nat
    }

    /// The name of the file that the cards are kept in.
    pub closed spec fn file(&self) -> Seq<char> {
        self.flashcards_file@
    }

    /// An empty store.
    pub fn new(batch_size: usize, flashcards_file: String) -> (manager: SpacedRepetitionManager)
        ensures
            manager@ == Seq::<CardData>::empty(),
            manager.batch() == batch_size,
            manager.file() == flashcards_file@,
    {
        let manager = SpacedRepetitionManager { flashcards: Vec::new(), batch_size, flashcards_file };
        assert(manager@ == Seq::<CardData>::empty());
        manager
    }

    /// The number of reviews after which a session pauses; 0 for none.
    pub fn batch_size(&self) -> (size: usize)
        ensures
            size == self.batch(),
    {
        self.batch_size
    }

    /// The name of the file that the cards are kept in.
    pub fn flashcards_file(&self) -> (name: &String)
        ensures
            name@ == self.file(),
    {
        &self.flashcards_file
    }

    /// The number of cards. No two of them share a question.
    pub fn len(&self) -> (count: usize)
        ensures
            count == self@.len(),
            distinct_questions(self@),
    {
        proof {
            use_type_invariant(self);
        }
        self.flashcards.len()
    }

    /// Where the card with `question` stands; the number of cards where there
    /// is none.
    pub fn index_of(&self, question: &String) -> (at: usize)
        ensures
            at == key_index(self@, question@),
            at <= self@.len(),
            at < self@.len() <==> holds(self@, question@),
            at < self@.len() ==> self@[at as int].question == question@,
    {
        let mut at: usize = 0;
        while at < self.flashcards.len() && *self.flashcards[at].question() != *question
            invariant
                at <= self.flashcards.len(),
                forall|k: int| 0 <= k < at ==> questions(self@)[k] != question@,
            decreases self.flashcards.len() - at,
        {
            at += 1;
        }
        proof {
            lemma_position(questions(self@), question@, at as int);
            if at == self@.len() {
                assert(!questions(self@).contains(question@));
            } else {
                assert(questions(self@)[at as int] == question@);
            }
        }
        at
    }

    /// Whether a card is kept under `question`.
    pub fn contains_key(&self, question: &String) -> (found: bool)
        ensures
            found == holds(self@, question@),
    {
        self.index_of(question) < self.flashcards.len()
    }

    /// The card kept under `question`.
    pub fn get(&self, question: &String) -> (card: Option<&Flashcard>)
        ensures
            card is Some <==> holds(self@, question@),
            card is Some ==> card->0@ == as_map(self@)[question@],
    {
        let at = self.index_of(question);
        if at < self.flashcards.len() {
            Some(&self.flashcards[at])
        } else {
            None
        }
    }

    /// The card at `index`, counting from 0 in the order in which the cards
    /// came.
    pub fn card(&self, index: usize) -> (card: Option<&Flashcard>)
        ensures
            card is Some <==> index < self@.len(),
            card is Some ==> card->0@ == self@[index as int],
    {
        if index < self.flashcards.len() {
            Some(&self.flashcards[index])
        } else {
            None
        }
    }

    /// Adds a card that has never been reviewed. It is kept under `question`,
    /// or, where another card has that key, under `question` followed by the
    /// least number in brackets that makes a free key: `Q`, then `Q (1)`,
    /// `Q (2)` and so on. No card that was there is touched.
    pub fn add_flashcard(&mut self, question: String, answer: String, guidance: String)
        ensures
            final(self)@ == added(old(self)@, question@, answer@, guidance@),
            !holds(old(self)@, final(self)@.last().question),
            !holds(old(self)@, question@) ==> final(self)@.last().question == question@,
            distinct_questions(final(self)@),
            final(self).batch() == old(self).batch(),
            final(self).file() == old(self).file(),
    {
        proof {
            use_type_invariant(&*self);
        }
        let ghost taken = questions(self@);
        assert(taken.len() == self.flashcards.len());
        let mut counter: u64 = 0;
        let mut unique = question.clone();
        while self.contains_key(&unique)
            invariant
                taken == questions(self@),
                taken.len() <= usize::MAX,
                unique@ == numbered(question@, counter as nat),
                forall|j: nat| j < counter ==> taken.contains(#[trigger] numbered(question@, j)),
                first_free(taken, question@, 0) == first_free(taken, question@, counter as nat),
            decreases taken.len() - counter,
        {
            proof {
                lemma_numbered_fit(taken, question@, (counter + 1) as nat);
            }
            counter += 1;
            unique = numbered_text(&question, counter);
        }
        let card = Flashcard::new(unique, answer, guidance);
        proof {
            lemma_first_free(taken, question@, 0);
            lemma_push_keeps_distinct(self@, card@);
            assert(self.flashcards@.push(card).map_values(|card: Flashcard| card@) == self@.push(
                card@,
            ));
        }
        let mut cards: Vec<Flashcard> = Vec::new();
        std::mem::swap(&mut self.flashcards, &mut cards);
        cards.push(card);
        self.flashcards = cards;
    }

    /// Puts `card` under its question: in the place of the card that is kept
    /// under this question, or behind the others where there is none.
    pub fn insert(&mut self, card: Flashcard)
        ensures
            final(self)@ == inserted(old(self)@, card@),
            distinct_questions(final(self)@),
            final(self).batch() == old(self).batch(),
            final(self).file() == old(self).file(),
    {
        proof {
            use_type_invariant(&*self);
            lemma_insert_keeps_distinct(self@, card@);
        }
        let at = self.index_of(card.question());
        let ghost before = self.flashcards@;
        let mut cards: Vec<Flashcard> = Vec::new();
        std::mem::swap(&mut self.flashcards, &mut cards);
        if at < cards.len() {
            cards[at] = card;
            assert(cards@.map_values(|card: Flashcard| card@) == before.map_values(
                |card: Flashcard| card@,
            ).update(at as int, card@));
        } else {
            cards.push(card);
            assert(cards@.map_values(|card: Flashcard| card@) == before.map_values(
                |card: Flashcard| card@,
            ).push(card@));
        }
        self.flashcards = cards;
    }

    /// Puts each of `cards` under its question, in the order of the list: of
    /// two with one question the later one stays.
    pub fn load(&mut self, cards: Vec<Flashcard>)
        ensures
            final(self)@ == loaded(old(self)@, cards@.map_values(|card: Flashcard| card@)),
            distinct_questions(final(self)@),
            final(self).batch() == old(self).batch(),
            final(self).file() == old(self).file(),
    {
        proof {
            use_type_invariant(&*self);
        }
        let ghost incoming = cards@.map_values(|card: Flashcard| card@);
        let mut next: usize = 0;
        while next < cards.len()
            invariant
                next <= cards.len(),
                incoming == cards@.map_values(|card: Flashcard| card@),
                self@ == loaded(old(self)@, incoming.take(next as int)),
                distinct_questions(self@),
                self.batch() == old(self).batch(),
                self.file() == old(self).file(),
            decreases cards.len() - next,
        {
            let card = cards[next].clone();
            proof {
                assert(incoming.take(next + 1).drop_last() == incoming.take(next as int));
                assert(incoming.take(next + 1).last() == card@);
            }
            self.insert(card);
            next += 1;
        }
        assert(incoming.take(cards.len() as int) == incoming);
    }

    /// A copy of every card, in the order in which the cards came.
    pub fn cards(&self) -> (copies: Vec<Flashcard>)
        ensures
            copies@.map_values(|card: Flashcard| card@) == self@,
    {
        let mut copies: Vec<Flashcard> = Vec::new();
        let mut next: usize = 0;
        while next < self.flashcards.len()
            invariant
                next <= self.flashcards.len(),
                copies@.map_values(|card: Flashcard| card@) == self@.take(next as int),
            decreases self.flashcards.len() - next,
        {
            let card = self.flashcards[next].clone();
            let ghost before = copies@;
            copies.push(card);
            assert(copies@.map_values(|card: Flashcard| card@) == before.map_values(
                |card: Flashcard| card@,
            ).push(card@));
            assert(self@.take(next + 1) == self@.take(next as int).push(self@[next as int]));
            next += 1;
        }
        assert(self@.take(self.flashcards.len() as int) == self@);
        copies
    }

    /// Reviews the card at `index` with the score `performance` at the time
    /// `now`, as `Flashcard::update_at` does. `None` where there is no such
    /// card; the store is then left as it was.
    pub fn review_at(&mut self, index: usize, performance: u32, now: Option<u64>) -> (outcome: Option<
        Result<(), UpdateError>,
    >)
        ensures
            outcome is Some <==> index < old(self)@.len(),
            outcome is None ==> final(self)@ == old(self)@,
            index < old(self)@.len() && performance > MAX_SCORE ==> final(self)@ == old(self)@
                && outcome == Some(Err::<(), UpdateError>(UpdateError::InvalidScore)),
            index < old(self)@.len() && performance <= MAX_SCORE ==> final(self)@ == old(self)@.update(
                index as int,
                old(self)@[index as int].scheduled(performance as nat, reading(now)),
            ),
            index < old(self)@.len() && performance <= MAX_SCORE && now is Some ==> outcome is Some
                && outcome->0 is Ok,
            index < old(self)@.len() && performance <= MAX_SCORE && now is None ==> outcome == Some(
                Err::<(), UpdateError>(UpdateError::ClockUnavailable),
            ),
            distinct_questions(final(self)@),
            final(self).batch() == old(self).batch(),
            final(self).file() == old(self).file(),
    {
        proof {
            use_type_invariant(&*self);
        }
        if index >= self.flashcards.len() {
            return None;
        }
        let ghost before = self@;
        let mut card = self.flashcards[index].clone();
        let outcome = card.update_at(performance, now);
        proof {
            lemma_review_keeps_questions(before, index as int, card@);
            assert(self.flashcards@.update(index as int, card).map_values(|card: Flashcard| card@)
                == before.update(index as int, card@));
            if performance > MAX_SCORE {
                assert(before.update(index as int, card@) == before);
            }
        }
        let mut cards: Vec<Flashcard> = Vec::new();
        std::mem::swap(&mut self.flashcards, &mut cards);
        cards[index] = card;
        self.flashcards = cards;
        Some(outcome)
    }

    /// The places of the cards that are due at `now`, most overdue first. Of
    /// two cards that are due at the same time the one that came first goes
    /// first.
    pub fn select_due(&self, now: u64) -> (order: Vec<usize>)
        ensures
            is_due_order(self@, now as nat, order@),
    {
        let mut order: Vec<usize> = Vec::new();
        let mut next: usize = 0;
        while next < self.flashcards.len()
            invariant
                next <= self.flashcards.len(),
                self.flashcards.len() == self@.len(),
                lists_due(self@, now as nat, next as int, order@),
            decreases self.flashcards.len() - next,
        {
            assert(self@[next as int] == self.flashcards@[next as int]@);
            if self.flashcards[next].is_due(now) {
                let due = self.flashcards[next].next_review();
                let mut at: usize = order.len();
                while at > 0 && self.flashcards[order[at - 1]].next_review() > due
                    invariant
                        at <= order.len(),
                        next < self.flashcards.len(),
                        self.flashcards.len() == self@.len(),
                        lists_due(self@, now as nat, next as int, order@),
                        forall|k: int|
                            at <= k < order.len() ==> self@[#[trigger] order@[k] as int].next_review
                                > due,
                    decreases at,
                {
                    assert(self@[order@[at - 1] as int] == self.flashcards@[order@[at - 1] as int]@);
                    at -= 1;
                }
                let ghost before = order@;
                proof {
                    if at > 0 {
                        assert(self@[before[at - 1] as int] == self.flashcards@[before[at
                            - 1] as int]@);
                    }
                    lemma_insert_due(self@, now as nat, next as int, before, at as int);
                }
                order.insert(at, next);
            } else {
                proof {
                    lemma_skip_not_due(self@, now as nat, next as int, order@);
                }
            }
            next += 1;
        }
        order
    }

    /// Reads the lines of an import file, one after the other. A line that
    /// holds a card adds it as `add_flashcard` does; any other line is passed
    /// over. Returns the number of cards added.
    pub fn batch_add_flashcards(&mut self, lines: &Vec<String>) -> (count: usize)
        ensures
            final(self)@ == imported(old(self)@, lines@.map_values(|line: String| line@)),
            count == final(self)@.len() - old(self)@.len(),
            distinct_questions(final(self)@),
            final(self).batch() == old(self).batch(),
            final(self).file() == old(self).file(),
    {
        proof {
            use_type_invariant(&*self);
        }
        let ghost texts = lines@.map_values(|line: String| line@);
        let mut count: usize = 0;
        let mut next: usize = 0;
        while next < lines.len()
            invariant
                next <= lines.len(),
                texts == lines@.map_values(|line: String| line@),
                self@ == imported(old(self)@, texts.take(next as int)),
                count == self@.len() - old(self)@.len(),
                count <= next,
                distinct_questions(self@),
                self.batch() == old(self).batch(),
                self.file() == old(self).file(),
            decreases lines.len() - next,
        {
            proof {
                assert(texts.take(next + 1).drop_last() == texts.take(next as int));
                assert(texts.take(next + 1).last() == lines@[next as int]@);
            }
            match parse_card_line(lines[next].as_str()) {
                Some(fields) => {
                    self.add_flashcard(fields.0, fields.1, fields.2);
                    count += 1;
                },
                None => {},
            }
            next += 1;
        }
        assert(texts.take(lines.len() as int) == texts);
        count
    }

    /// Adds a card from what was typed in: the question, answer and guidance
    /// are trimmed, and the card is added as `add_flashcard` does.
    pub fn add_entered(&mut self, question: &str, answer: &str, guidance: &str)
        ensures
            final(self)@ == added(
                old(self)@,
                trimmed(question@),
                trimmed(answer@),
                trimmed(guidance@),
            ),
            distinct_questions(final(self)@),
            final(self).batch() == old(self).batch(),
            final(self).file() == old(self).file(),
    {
        self.add_flashcard(
            String::from_str(trim(question)),
            String::from_str(trim(answer)),
            String::from_str(trim(guidance)),
        );
    }
}

} // verus!
