//! A flashcard trainer's scheduling core.
//!
//! Every card carries its own review schedule: the number of days until it is
//! shown again, the run of successful recalls, and an ease factor that governs
//! how fast the interval grows. A review answers a card with a score from 0 to
//! 5 and moves the schedule on. A review session picks the cards that are due,
//! most overdue first, and walks through them in batches.
//!
//! The ease factor is kept in hundredths (`250` stands for 2.5), so that every
//! step of the schedule is exact integer arithmetic.

pub mod card;
mod clock;
pub mod text;
pub mod keys;
pub mod manager;
pub mod import;
pub mod session;
pub mod menu;
