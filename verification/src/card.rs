//! A flashcard and the rule that reschedules it after a review.

use crate::clock::unix_time;
use vstd::prelude::*;

verus! {

/// Seconds in one day: intervals are counted in days, due dates in seconds.
pub const SECONDS_PER_DAY: u64 = 86400;

/// Ease factor of a new card, in hundredths.
pub const INITIAL_EASE: u32 = 250;

/// Floor of the ease factor, in hundredths.
pub const MINIMUM_EASE: u32 = 130;

/// Highest score a review can be given.
pub const MAX_SCORE: u32 = 5;

/// Why a review did not complete.
#[derive(Debug, Clone, Copy, PartialEq, Eq, Structural)]
pub enum UpdateError {
    /// The score lies outside 0 to 5; the card was left as it was.
    InvalidScore,
    /// The current time could not be read; the card's due date is 0.
    ClockUnavailable,
}

/// What a card is, as plain mathematical values.
pub struct CardData {
    pub question: Seq<char>,
    pub answer: Seq<char>,
    pub guidance: Seq<char>,
    /// Days until the next review.
    pub interval: nat,
    /// Successful recalls in a row since the last lapse.
    pub repetitions: nat,
    /// Ease factor in hundredths.
    pub ease_factor: nat,
    /// Due date in seconds since the epoch; 0 is due at once.
    pub next_review: nat,
}

/// `interval * ease / 100` rounded to the nearest whole number, a tie going up.
pub open spec fn rounded_product(interval: nat, ease: nat) -> nat {
    ((interval * ease + 50) / 100) as nat
}

/// The smaller of `value` and `limit`.
pub open spec fn capped(value: int, limit: int) -> int {
    if value <= limit {
        value
    } else {
        limit
    }
}

/// The interval after a review scored `performance`.
pub open spec fn next_interval(interval: nat, repetitions: nat, ease: nat, performance: nat) -> nat {
    if performance < 2 {
        1
    } else if repetitions == 0 {
        1
    } else if repetitions == 1 {
        6
    } else {
        capped(rounded_product(interval, ease) as int, u32::MAX as int) as nat
    }
}

/// The run of successful recalls after a review scored `performance`.
pub open spec fn next_repetitions(repetitions: nat, performance: nat) -> nat {
    if performance == 0 {
        0
    } else if performance == 1 {
        repetitions
    } else {
        capped(repetitions as int + 1, u32::MAX as int) as nat
    }
}

/// The ease factor after a review scored `performance`: a tenth more, less
/// eight hundredths for each point short of 5, and never under the floor.
pub open spec fn next_ease(ease: nat, performance: nat) -> nat {
    let moved = ease as int + 10 - 8 * (5 - performance as int);
    if moved < MINIMUM_EASE {
        MINIMUM_EASE as nat
    } else {
        capped(moved, u32::MAX as int) as nat
    }
}

/// The due date of a card reviewed at `now` that comes back after `interval`
/// days. Without a clock reading it is 0.
pub open spec fn next_due(now: Option<nat>, interval: nat) -> nat {
    match now {
        Some(seconds) => capped(seconds as int + interval * SECONDS_PER_DAY, u64::MAX as int) as nat,
        None => 0,
    }
}

impl CardData {
    /// A card that has never been reviewed.
    pub open spec fn fresh(question: Seq<char>, answer: Seq<char>, guidance: Seq<char>) -> CardData {
        CardData {
            question,
            answer,
            guidance,
            interval: 0,
            repetitions: 0,
            ease_factor: INITIAL_EASE as nat,
            next_review: 0,
        }
    }

    /// The card after a review scored `performance` (0 to 5) at time `now`.
    /// The new ease is computed from the old one, the due date from the new
    /// interval.
    pub open spec fn scheduled(self, performance: nat, now: Option<nat>) -> CardData {
        let interval = next_interval(self.interval, self.repetitions, self.ease_factor, performance);
        CardData {
            interval,
            repetitions: next_repetitions(self.repetitions, performance),
            ease_factor: next_ease(self.ease_factor, performance),
            next_review: next_due(now, interval),
            ..self
        }
    }

    /// A card is due when its due date has come.
    pub open spec fn is_due(self, now: nat) -> bool {
        self.next_review <= now
    }
}

/// The ease factor after a run of reviews, scored as `performances` lists them.
pub open spec fn ease_after(ease: nat, performances: Seq<nat>) -> nat
    decreases performances.len(),
{
    if performances.len() == 0 {
        ease
    } else {
        next_ease(ease_after(ease, performances.drop_last()), performances.last())
    }
}

/// `rounded_product` is the whole number nearest to `interval * ease / 100`:
/// it lies within half a unit of it, and a value halfway between two whole
/// numbers goes to the upper one.
pub proof fn lemma_rounded_product_is_nearest(interval: nat, ease: nat)
    ensures
        100 * rounded_product(interval, ease) - 50 <= interval * ease,
        interval * ease < 100 * rounded_product(interval, ease) + 50,
{
}

/// However many reviews a card goes through, and whatever their scores, its
/// ease factor stays at or above the floor once it is there; after at least
/// one review it is there whatever it was before.
pub proof fn lemma_ease_never_below_floor(ease: nat, performances: Seq<nat>)
    requires
        ease >= MINIMUM_EASE || performances.len() > 0,
    ensures
        ease_after(ease, performances) >= MINIMUM_EASE,
{
}

/// A clock reading as a mathematical value.
pub open spec fn reading(now: Option<u64>) -> Option<nat> {
    match now {
        Some(seconds) => Some(seconds as nat),
        None => None,
    }
}

/// The interval that follows `interval` at ease `ease` (in hundredths) once a
/// card has been recalled twice in a row: their product, rounded, and held to
/// what a `u32` can take.
fn scaled_interval(interval: u32, ease: u32) -> (scaled: u32)
    ensures
        scaled == capped(rounded_product(interval as nat, ease as nat) as int, u32::MAX as int),
{
    assert(interval * ease <= 0xFFFF_FFFE_0000_0001) by (nonlinear_arith)
        requires
            interval <= 0xFFFF_FFFF,
            ease <= 0xFFFF_FFFF,
    ;
    let rounded: u64 = (interval as u64 * ease as u64 + 50) / 100;
    if rounded > u32::MAX as u64 {
        u32::MAX
    } else {
        rounded as u32
    }
}

/// The ease factor (in hundredths) after a review scored `performance`.
fn adjusted_ease(ease: u32, performance: u32) -> (adjusted: u32)
    requires
        performance <= MAX_SCORE,
    ensures
        adjusted == next_ease(ease as nat, performance as nat),
        adjusted >= MINIMUM_EASE,
{
    let gain: u64 = ease as u64 + 10;
    let loss: u64 = 8 * (MAX_SCORE - performance) as u64;
    if gain < loss + MINIMUM_EASE as u64 {
        MINIMUM_EASE
    } else if gain - loss > u32::MAX as u64 {
        u32::MAX
    } else {
        (gain - loss) as u32
    }
}

/// The due date of a card reviewed at `now` that comes back after `interval`
/// days.
fn due_date(now: Option<u64>, interval: u32) -> (due: u64)
    ensures
        due == next_due(reading(now), interval as nat),
{
    match now {
        Some(seconds) => seconds.saturating_add(interval as u64 * SECONDS_PER_DAY),
        None => 0,
    }
}

/// A card with its review schedule.
#[derive(Debug)]
pub struct Flashcard {
    question: String,
    answer: String,
    guidance: String,
    interval: u32,
    repetitions: u32,
    ease_factor: u32,
    next_review: u64,
}

impl View for Flashcard {
    type V = CardData;

    closed spec fn view(&self) -> CardData {
        CardData {
            question: self.question@,
            answer: self.answer@,
            guidance: self.guidance@,
            interval: self.interval as nat,
            repetitions: self.repetitions as nat,
            ease_factor: self.ease_factor as nat,
            next_review: self.next_review as nat,
        }
    }
}

impl Clone for Flashcard {
    fn clone(&self) -> (copy: Self)
        ensures
            copy@ == self@,
    {
        proof {
            use_type_invariant(self);
        }
        Flashcard {
            question: self.question.clone(),
            answer: self.answer.clone(),
            guidance: self.guidance.clone(),
            interval: self.interval,
            repetitions: self.repetitions,
            ease_factor: self.ease_factor,
            next_review: self.next_review,
        }
    }
}

impl Flashcard {
    #[verifier::type_invariant]
    spec fn above_floor(&self) -> bool {
        self.ease_factor >= MINIMUM_EASE
    }

    /// A new card: never reviewed, due at once, with the initial ease.
    pub fn new(question: String, answer: String, guidance: String) -> (card: Flashcard)
        ensures
            card@ == CardData::fresh(question@, answer@, guidance@),
    {
        Flashcard {
            question,
            answer,
            guidance,
            interval: 0,
            repetitions: 0,
            ease_factor: INITIAL_EASE,
            next_review: 0,
        }
    }

    /// A card with a schedule that was kept somewhere, or `None` where the
    /// ease factor given lies under the floor.
    pub fn restore(
        question: String,
        answer: String,
        guidance: String,
        interval: u32,
        repetitions: u32,
        ease_factor: u32,
        next_review: u64,
    ) -> (card: Option<Flashcard>)
        ensures
            card is Some <==> ease_factor >= MINIMUM_EASE,
            card is Some ==> card->0@ == (CardData {
                question: question@,
                answer: answer@,
                guidance: guidance@,
                interval: interval as nat,
                repetitions: repetitions as nat,
                ease_factor: ease_factor as nat,
                next_review: next_review as nat,
            }),
    {
        if ease_factor < MINIMUM_EASE {
            None
        } else {
            Some(Flashcard { question, answer, guidance, interval, repetitions, ease_factor, next_review })
        }
    }

    /// The question, which is the card's key in a store.
    pub fn question(&self) -> (question: &String)
        ensures
            question@ == self@.question,
    {
        &self.question
    }

    /// The answer.
    pub fn answer(&self) -> (answer: &String)
        ensures
            answer@ == self@.answer,
    {
        &self.answer
    }

    /// The hint that is shown with the question.
    pub fn guidance(&self) -> (guidance: &String)
        ensures
            guidance@ == self@.guidance,
    {
        &self.guidance
    }

    /// Days from the last review to the next.
    pub fn interval(&self) -> (interval: u32)
        ensures
            interval == self@.interval,
    {
        self.interval
    }

    /// Successful recalls in a row since the last lapse.
    pub fn repetitions(&self) -> (repetitions: u32)
        ensures
            repetitions == self@.repetitions,
    {
        self.repetitions
    }

    /// The ease factor in hundredths. It is never under the floor.
    pub fn ease_factor(&self) -> (ease: u32)
        ensures
            ease == self@.ease_factor,
            ease >= MINIMUM_EASE,
    {
        proof {
            use_type_invariant(self);
        }
        self.ease_factor
    }

    /// The due date in seconds since the epoch; 0 is due at once.
    pub fn next_review(&self) -> (due: u64)
        ensures
            due == self@.next_review,
    {
        self.next_review
    }

    /// Reviews the card with the score `performance` at the time `now`, where
    /// `None` stands for a clock that could not be read.
    ///
    /// A score above 5 is refused and leaves the card as it was. Otherwise the
    /// interval and the run of recalls move first, then the ease factor, from
    /// its value before the review, then the due date, from the new interval.
    /// Without a clock reading the due date is 0 and the review reports
    /// `ClockUnavailable`, the rest of the schedule having moved. An
    /// interval, a run of recalls, an ease factor or a due date too large for
    /// its type stays at the type's greatest value.
    pub fn update_at(&mut self, performance: u32, now: Option<u64>) -> (outcome: Result<(), UpdateError>)
        ensures
            performance > MAX_SCORE ==> outcome == Err::<(), UpdateError>(UpdateError::InvalidScore)
                && final(self)@ == old(self)@,
            performance <= MAX_SCORE ==> final(self)@ == old(self)@.scheduled(
                performance as nat,
                reading(now),
            ),
            performance <= MAX_SCORE && now is Some ==> outcome is Ok,
            performance <= MAX_SCORE && now is None ==> outcome == Err::<(), UpdateError>(
                UpdateError::ClockUnavailable,
            ),
            2 <= performance <= MAX_SCORE && old(self)@.repetitions == 0 ==> final(self)@.interval == 1
                && final(self)@.repetitions == 1,
            2 <= performance <= MAX_SCORE && old(self)@.repetitions == 1 ==> final(self)@.interval == 6,
            2 <= performance <= MAX_SCORE && old(self)@.repetitions >= 2 ==> final(self)@.interval
                == capped(
                rounded_product(old(self)@.interval, old(self)@.ease_factor) as int,
                u32::MAX as int,
            ),
            performance <= 1 ==> final(self)@.interval == 1,
            performance == 0 ==> final(self)@.repetitions == 0,
            final(self)@.ease_factor >= MINIMUM_EASE,
    {
        proof {
            use_type_invariant(&*self);
        }
        if performance > MAX_SCORE {
            return Err(UpdateError::InvalidScore);
        }
        if performance == 0 {
            self.interval = 1;
            self.repetitions = 0;
        } else if performance == 1 {
            self.interval = 1;
        } else {
            if self.repetitions == 0 {
                self.interval = 1;
            } else if self.repetitions == 1 {
                self.interval = 6;
            } else {
                self.interval = scaled_interval(self.interval, self.ease_factor);
            }
            self.repetitions = self.repetitions.saturating_add(1);
        }
        self.ease_factor = adjusted_ease(self.ease_factor, performance);
        self.next_review = due_date(now, self.interval);
        match now {
            Some(_) => Ok(()),
            None => Err(UpdateError::ClockUnavailable),
        }
    }

    /// Reviews the card with the score `performance` at the time the system
    /// clock gives. What `update_at` says of a review holds of this one, for
    /// the reading that the clock gave.
    pub fn update(&mut self, performance: u32) -> (outcome: Result<(), UpdateError>)
        ensures
            performance > MAX_SCORE ==> outcome == Err::<(), UpdateError>(UpdateError::InvalidScore)
                && final(self)@ == old(self)@,
            performance <= MAX_SCORE ==> exists|now: Option<nat>|
                {
                    &&& final(self)@ == #[trigger] old(self)@.scheduled(performance as nat, now)
                    &&& outcome is Ok <==> now is Some
                },
            performance <= MAX_SCORE ==> outcome is Ok || outcome == Err::<(), UpdateError>(
                UpdateError::ClockUnavailable,
            ),
            final(self)@.ease_factor >= MINIMUM_EASE,
    {
        let now = unix_time();
        self.update_at(performance, now)
    }

    /// Whether the card is due at `now`.
    pub fn is_due(&self, now: u64) -> (due: bool)
        ensures
            due == self@.is_due(now as nat),
    {
        self.next_review <= now
    }
}

} // verus!
