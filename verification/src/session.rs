//! A review session: the cards that are due, walked through in batches.
//!
//! A session is a state machine. It owns the store while it runs, tells what
//! is to be shown next, takes one line of input for it, and moves on. Whoever
//! drives it shows the prompts and reads the lines.

use crate::card::{reading, CardData, MAX_SCORE};
use crate::clock::unix_time;
use crate::manager::{is_due_order, questions, SpacedRepetitionManager};
use crate::text::{
    all_digits, characters, lowercase, lowered, number, read_number, trim, trim_bounds, trimmed,
};
use vstd::prelude::*;

verus! {

/// Where a session stands.
#[derive(Debug, Clone, Copy, PartialEq, Eq, Structural)]
pub enum Phase {
    /// A card's question and guidance are shown; any input reveals the answer.
    Question,
    /// The card's answer is shown; the input is the score.
    Answer,
    /// A batch is done; the input says whether to go on.
    Pause,
    /// Nothing is left to do but to keep the store.
    Finished,
}

/// What is to be shown next.
#[derive(Debug, Clone, Copy, PartialEq, Eq, Structural)]
pub enum Prompt {
    /// The question and guidance of the card at `card`, as review `number`
    /// of `total`.
    Question { card: usize, number: usize, total: usize },
    /// The answer of the card at `card`, and the request for a score.
    Answer { card: usize },
    /// The question whether to go on after another `batch_size` reviews.
    Continue { batch_size: usize },
    /// The session is over.
    Finished,
}

/// What a line of input did.
#[derive(Debug, Clone, Copy, PartialEq, Eq, Structural)]
pub enum Reply {
    /// The answer is revealed.
    Revealed,
    /// The card was reviewed with the score given.
    Reviewed,
    /// The card was reviewed with the score given, but the time could not be
    /// read: the card is due at once.
    ClockUnavailable,
    /// The input is no score from 0 to 5: the card was passed over as it was.
    InvalidScore,
    /// The session goes on with the next batch.
    Continued,
    /// The session was ended at the end of a batch.
    Stopped,
    /// The session was over before.
    Over,
}

/// The text without a plus sign at its start.
pub open spec fn unsigned(s: Seq<char>) -> Seq<char> {
    if s.len() > 0 && s.first() == '+' {
        s.drop_first()
    } else {
        s
    }
}

/// The score that `input` gives: the input is trimmed, may start with a plus
/// sign, and holds decimal digits that write a number from 0 to 5. Any other
/// input gives none.
pub open spec fn score_of(input: Seq<char>) -> Option<nat> {
    let digits = unsigned(trimmed(input));
    if digits.len() > 0 && all_digits(digits) && number(digits) <= MAX_SCORE {
        Some(number(digits))
    } else {
        None
    }
}

/// Whether `input` says to go on: trimmed and in lower case it is `y`.
pub open spec fn agrees(input: Seq<char>) -> bool {
    lowercase(trimmed(input)) == seq!['y']
}

/// A session as plain mathematical values.
pub struct SessionData {
    /// The cards of the store.
    pub cards: Seq<CardData>,
    /// The number of reviews after which the session pauses; 0 for none.
    pub batch: nat,
    /// The places of the cards to review, in review order, as they were
    /// found when the session began.
    pub due: Seq<usize>,
    /// How many of them are dealt with.
    pub position: nat,
    pub phase: Phase,
}

impl SessionData {
    /// A session at its start.
    pub open spec fn begun(cards: Seq<CardData>, batch: nat, due: Seq<usize>) -> SessionData {
        SessionData {
            cards,
            batch,
            due,
            position: 0,
            phase: if due.len() > 0 {
                Phase::Question
            } else {
                Phase::Finished
            },
        }
    }

    /// The session with `done` cards dealt with, at the next card's question
    /// or, where no card is left, at its end.
    pub open spec fn advanced(self, done: nat) -> SessionData {
        SessionData {
            position: done,
            phase: if done < self.due.len() {
                Phase::Question
            } else {
                Phase::Finished
            },
            ..self
        }
    }

    /// Whether a pause is due once `done` cards are dealt with.
    pub open spec fn batch_ends(self, done: nat) -> bool {
        self.batch > 0 && done % self.batch == 0
    }

    /// The session after the line `input` was read at the time `now`.
    ///
    /// At a question any input reveals the answer. At an answer the input is
    /// the score: without a valid score the card is passed over as it is;
    /// with one the card is reviewed, and the session pauses where this
    /// review ends a batch. At a pause `y` goes on and anything else ends the
    /// session.
    pub open spec fn answered(self, input: Seq<char>, now: Option<nat>) -> SessionData {
        match self.phase {
            Phase::Question => SessionData { phase: Phase::Answer, ..self },
            Phase::Answer => match score_of(input) {
                None => self.advanced(self.position + 1),
                Some(score) => {
                    let place = self.due[self.position as int] as int;
                    let reviewed = SessionData {
                        cards: self.cards.update(place, self.cards[place].scheduled(score, now)),
                        ..self
                    };
                    if self.batch_ends(self.position + 1) {
                        SessionData { position: self.position + 1, phase: Phase::Pause, ..reviewed }
                    } else {
                        reviewed.advanced(self.position + 1)
                    }
                },
            },
            Phase::Pause => if agrees(input) {
                self.advanced(self.position)
            } else {
                SessionData { phase: Phase::Finished, ..self }
            },
            Phase::Finished => self,
        }
    }

    /// What the line `input`, read at the time `now`, did to the session.
    pub open spec fn reply(self, input: Seq<char>, now: Option<nat>) -> Reply {
        match self.phase {
            Phase::Question => Reply::Revealed,
            Phase::Answer => match score_of(input) {
                None => Reply::InvalidScore,
                Some(_) => if now is Some {
                    Reply::Reviewed
                } else {
                    Reply::ClockUnavailable
                },
            },
            Phase::Pause => if agrees(input) {
                Reply::Continued
            } else {
                Reply::Stopped
            },
            Phase::Finished => Reply::Over,
        }
    }

    /// What the session shows next.
    pub open spec fn prompt(self) -> Prompt {
        match self.phase {
            Phase::Question => Prompt::Question {
                card: self.due[self.position as int],
                number: (self.position + 1) as usize,
                total: self.due.len() as usize,
            },
            Phase::Answer => Prompt::Answer { card: self.due[self.position as int] },
            Phase::Pause => Prompt::Continue { batch_size: self.batch as usize },
            Phase::Finished => Prompt::Finished,
        }
    }

    /// Whether every place is a place of the store, and the card in hand,
    /// where there is one, is one of the cards to review.
    pub open spec fn well_formed(self) -> bool {
        &&& forall|k: int| 0 <= k < self.due.len() ==> (#[trigger] self.due[k]) < self.cards.len()
        &&& self.position <= self.due.len()
        &&& self.phase == Phase::Question || self.phase == Phase::Answer ==> self.position
            < self.due.len()
    }
}

/// A line of input keeps a session in order: the list of cards to review
/// and its length, fixed at the start, stay as they are, no card joins or
/// leaves the store or changes its question, and the places stay places of
/// the store.
pub proof fn lemma_answered_keeps_shape(session: SessionData, input: Seq<char>, now: Option<nat>)
    requires
        session.well_formed(),
    ensures
        session.answered(input, now).well_formed(),
        session.answered(input, now).due == session.due,
        session.answered(input, now).batch == session.batch,
        session.answered(input, now).cards.len() == session.cards.len(),
        questions(session.answered(input, now).cards) == questions(session.cards),
        session.answered(input, now).position >= session.position,
{
    let after = session.answered(input, now);
    assert(questions(after.cards) =~= questions(session.cards));
}

/// No card changes but the one in hand, and that one only when a valid
/// score comes in for it: a question revealed, a card passed over, a pause
/// answered and a session ended leave every card as it is.
pub proof fn lemma_only_a_score_changes_cards(
    session: SessionData,
    input: Seq<char>,
    now: Option<nat>,
)
    requires
        session.well_formed(),
    ensures
        session.phase != Phase::Answer || score_of(input) is None ==> session.answered(
            input,
            now,
        ).cards == session.cards,
        forall|place: int|
            0 <= place < session.cards.len() && place != session.due[session.position as int]
                ==> session.answered(input, now).cards[place] == session.cards[place],
{
}

/// A pause comes after a review that ends a batch, and after no other step;
/// an answer other than `y` to it ends the session with every card left as
/// it is.
pub proof fn lemma_pause_at_batch_end(session: SessionData, input: Seq<char>, now: Option<nat>)
    requires
        session.well_formed(),
        session.phase != Phase::Pause,
    ensures
        session.answered(input, now).phase == Phase::Pause <==> {
            &&& session.phase == Phase::Answer
            &&& score_of(input) is Some
            &&& session.batch_ends(session.position + 1)
        },
{
}

/// An answer other than `y` to a pause ends the session at once: no further
/// card is shown, and every card is left as it is.
pub proof fn lemma_stop_ends_session(session: SessionData, input: Seq<char>, now: Option<nat>)
    requires
        session.phase == Phase::Pause,
        !agrees(input),
    ensures
        session.answered(input, now).phase == Phase::Finished,
        session.answered(input, now).cards == session.cards,
        session.answered(input, now).prompt() == Prompt::Finished,
{
}

/// Reads a score: `Some` with the score where the input gives one.
pub fn parse_score(input: &str) -> (score: Option<u32>)
    ensures
        match score {
            Some(value) => score_of(input@) == Some(value as nat),
            None => score_of(input@) is None,
        },
{
    let chars = characters(input);
    let (start, end) = trim_bounds(&chars, 0, chars.len());
    assert(chars@.subrange(0, chars.len() as int) == chars@);
    let ghost kept = chars@.subrange(start as int, end as int);
    let from = if start < end && chars[start] == '+' {
        start + 1
    } else {
        start
    };
    proof {
        if start < end {
            assert(kept.first() == chars@[start as int]);
        }
        if from == start {
            assert(unsigned(kept) == kept);
        } else {
            assert(kept.drop_first() == chars@.subrange(from as int, end as int));
        }
    }
    read_number(&chars, from, end, MAX_SCORE)
}

/// Whether the lower-case answer to a pause is `y`.
pub fn is_yes(lower: &String) -> (yes: bool)
    ensures
        yes == (lower@ == seq!['y']),
{
    proof {
        reveal_strlit("y");
    }
    let yes = String::from_str("y");
    assert(yes@ =~= seq!['y']);
    *lower == yes
}

/// Whether the answer to a pause says to go on.
pub fn wants_more(input: &str) -> (more: bool)
    ensures
        more == agrees(input@),
{
    let lower = lowered(trim(input));
    is_yes(&lower)
}

/// A review session in progress.
#[derive(Debug)]
pub struct ReviewSession {
    manager: SpacedRepetitionManager,
    due: Vec<usize>,
    position: usize,
    phase: Phase,
}

impl View for ReviewSession {
    type V = SessionData;

    closed spec fn view(&self) -> SessionData {
        SessionData {
            cards: self.manager@,
            batch: self.manager.batch(),
            due: self.due@,
            position: self.position as nat,
            phase: self.phase,
        }
    }
}

impl ReviewSession {
    #[verifier::type_invariant]
    spec fn sound(&self) -> bool {
        self@.well_formed()
    }

    /// Begins a session at the time `now`: the cards that are due then are
    /// to be reviewed, most overdue first.
    pub fn start_at(manager: SpacedRepetitionManager, now: u64) -> (session: ReviewSession)
        ensures
            is_due_order(manager@, now as nat, session@.due),
            session@ == SessionData::begun(manager@, manager.batch(), session@.due),
            session@.well_formed(),
    {
        let due = manager.select_due(now);
        let phase = if due.len() > 0 {
            Phase::Question
        } else {
            Phase::Finished
        };
        ReviewSession { manager, due, position: 0, phase }
    }

    /// Begins a session at the time that the system clock gives. Where the
    /// clock cannot be read no session begins, and the store comes back as
    /// it was.
    pub fn start(manager: SpacedRepetitionManager) -> (begun: Result<
        ReviewSession,
        SpacedRepetitionManager,
    >)
        ensures
            match begun {
                Ok(session) => {
                    &&& exists|now: nat| is_due_order(manager@, now, #[trigger] session@.due)
                    &&& session@ == SessionData::begun(manager@, manager.batch(), session@.due)
                    &&& session@.well_formed()
                },
                Err(unused) => unused == manager,
            },
    {
        match unix_time() {
            Some(now) => Ok(ReviewSession::start_at(manager, now)),
            None => Err(manager),
        }
    }

    /// What is to be shown next.
    pub fn prompt(&self) -> (prompt: Prompt)
        ensures
            prompt == self@.prompt(),
            self@.well_formed(),
    {
        proof {
            use_type_invariant(self);
        }
        match self.phase {
            Phase::Question => {
                assert(self.position < self.due.len());
                Prompt::Question {
                    card: self.due[self.position],
                    number: self.position + 1,
                    total: self.due.len(),
                }
            },
            Phase::Answer => Prompt::Answer { card: self.due[self.position] },
            Phase::Pause => Prompt::Continue { batch_size: self.manager.batch_size() },
            Phase::Finished => Prompt::Finished,
        }
    }

    /// The store as the session has left it so far.
    pub fn manager(&self) -> (manager: &SpacedRepetitionManager)
        ensures
            manager@ == self@.cards,
            manager.batch() == self@.batch,
    {
        &self.manager
    }

    /// Whether the session is over.
    pub fn is_finished(&self) -> (over: bool)
        ensures
            over == (self@.phase == Phase::Finished),
    {
        match self.phase {
            Phase::Finished => true,
            _ => false,
        }
    }

    /// Ends the session, wherever it stands, and gives the store back for
    /// keeping.
    pub fn finish(self) -> (manager: SpacedRepetitionManager)
        ensures
            manager@ == self@.cards,
            manager.batch() == self@.batch,
    {
        self.manager
    }

    /// Takes the line `input`, read at the time `now`, where `None` stands
    /// for a clock that could not be read, and moves the session on.
    pub fn respond_at(self, input: &str, now: Option<u64>) -> (step: (ReviewSession, Reply))
        ensures
            step.0@ == self@.answered(input@, reading(now)),
            step.1 == self@.reply(input@, reading(now)),
            step.0@.well_formed(),
    {
        proof {
            use_type_invariant(&self);
        }
        let ReviewSession { manager, due, position, phase } = self;
        let mut manager = manager;
        match phase {
            Phase::Question => (
                ReviewSession { manager, due, position, phase: Phase::Answer },
                Reply::Revealed,
            ),
            Phase::Answer => {
                assert(position < due.len());
                let done = position + 1;
                match parse_score(input) {
                    None => {
                        let phase = if done < due.len() {
                            Phase::Question
                        } else {
                            Phase::Finished
                        };
                        (ReviewSession { manager, due, position: done, phase }, Reply::InvalidScore)
                    },
                    Some(score) => {
                        let outcome = manager.review_at(due[position], score, now);
                        let reply = match now {
                            Some(_) => Reply::Reviewed,
                            None => Reply::ClockUnavailable,
                        };
                        let batch_size = manager.batch_size();
                        let phase = if batch_size > 0 && done % batch_size == 0 {
                            Phase::Pause
                        } else if done < due.len() {
                            Phase::Question
                        } else {
                            Phase::Finished
                        };
                        (ReviewSession { manager, due, position: done, phase }, reply)
                    },
                }
            },
            Phase::Pause => {
                if wants_more(input) {
                    let phase = if position < due.len() {
                        Phase::Question
                    } else {
                        Phase::Finished
                    };
                    (ReviewSession { manager, due, position, phase }, Reply::Continued)
                } else {
                    (ReviewSession { manager, due, position, phase: Phase::Finished }, Reply::Stopped)
                }
            },
            Phase::Finished => (
                ReviewSession { manager, due, position, phase: Phase::Finished },
                Reply::Over,
            ),
        }
    }

    /// Takes the line `input` and moves the session on, a review being timed
    /// by the system clock. What `respond_at` says holds, for the reading
    /// that the clock gave.
    pub fn respond(self, input: &str) -> (step: (ReviewSession, Reply))
        ensures
            exists|now: Option<nat>|
                {
                    &&& step.0@ == #[trigger] self@.answered(input@, now)
                    &&& step.1 == self@.reply(input@, now)
                },
            step.0@.well_formed(),
    {
        let now = unix_time();
        self.respond_at(input, now)
    }
}

} // verus!
