use flashcards::card::{Flashcard, UpdateError, INITIAL_EASE, MINIMUM_EASE};

fn card(interval: u32, repetitions: u32, ease: u32, next_review: u64) -> Flashcard {
    Flashcard::restore(
        "What is the capital of France?".to_string(),
        "Paris".to_string(),
        "A city on the Seine".to_string(),
        interval,
        repetitions,
        ease,
        next_review,
    )
    .unwrap()
}

#[test]
fn new_card_starts_unreviewed() {
    let card = Flashcard::new("Q".to_string(), "A".to_string(), "G".to_string());
    assert_eq!(card.question(), "Q");
    assert_eq!(card.answer(), "A");
    assert_eq!(card.guidance(), "G");
    assert_eq!(card.interval(), 0);
    assert_eq!(card.repetitions(), 0);
    assert_eq!(card.ease_factor(), 250);
    assert_eq!(card.ease_factor(), INITIAL_EASE);
    assert_eq!(card.next_review(), 0);
    assert!(card.is_due(0));
}

#[test]
fn first_success_gives_one_day() {
    for performance in 2..=5 {
        let mut card = Flashcard::new("Q".to_string(), "A".to_string(), "G".to_string());
        assert_eq!(card.update_at(performance, Some(1_000)), Ok(()));
        assert_eq!(card.interval(), 1);
        assert_eq!(card.repetitions(), 1);
        assert_eq!(card.next_review(), 1_000 + 86_400);
    }
}

#[test]
fn second_success_gives_six_days() {
    for performance in 2..=5 {
        let mut card = card(1, 1, 250, 0);
        assert_eq!(card.update_at(performance, Some(1_000)), Ok(()));
        assert_eq!(card.interval(), 6);
        assert_eq!(card.repetitions(), 2);
        assert_eq!(card.next_review(), 1_000 + 6 * 86_400);
    }
}

#[test]
fn later_success_scales_interval_by_old_ease() {
    let mut reviewed = card(6, 2, 250, 0);
    assert_eq!(reviewed.update_at(4, Some(0)), Ok(()));
    assert_eq!(reviewed.interval(), 15);
    assert_eq!(reviewed.repetitions(), 3);
    assert_eq!(reviewed.ease_factor(), 252);

    let mut again = card(15, 3, 252, 0);
    assert_eq!(again.update_at(5, Some(0)), Ok(()));
    // 15 * 2.52 = 37.8
    assert_eq!(again.interval(), 38);
    assert_eq!(again.ease_factor(), 262);

    let mut low = card(7, 2, 130, 0);
    assert_eq!(low.update_at(2, Some(0)), Ok(()));
    // 7 * 1.3 = 9.1
    assert_eq!(low.interval(), 9);
}

#[test]
fn interval_rounds_half_up() {
    let mut half = card(1, 2, 250, 0);
    assert_eq!(half.update_at(3, Some(0)), Ok(()));
    // 1 * 2.5 = 2.5
    assert_eq!(half.interval(), 3);

    let mut other = card(5, 4, 130, 0);
    assert_eq!(other.update_at(3, Some(0)), Ok(()));
    // 5 * 1.3 = 6.5
    assert_eq!(other.interval(), 7);

    let mut below = card(3, 2, 148, 0);
    assert_eq!(below.update_at(3, Some(0)), Ok(()));
    // 3 * 1.48 = 4.44
    assert_eq!(below.interval(), 4);

    let mut zero = card(0, 2, 250, 0);
    assert_eq!(zero.update_at(3, Some(0)), Ok(()));
    assert_eq!(zero.interval(), 0);
}

#[test]
fn lapse_resets_interval_and_repetitions() {
    let mut lapsed = card(40, 7, 250, 0);
    assert_eq!(lapsed.update_at(0, Some(500)), Ok(()));
    assert_eq!(lapsed.interval(), 1);
    assert_eq!(lapsed.repetitions(), 0);
    assert_eq!(lapsed.next_review(), 500 + 86_400);
}

#[test]
fn weak_recall_resets_interval_only() {
    let mut weak = card(40, 7, 250, 0);
    assert_eq!(weak.update_at(1, Some(500)), Ok(()));
    assert_eq!(weak.interval(), 1);
    assert_eq!(weak.repetitions(), 7);
    assert_eq!(weak.next_review(), 500 + 86_400);
}

#[test]
fn ease_moves_by_score() {
    let expected = [220, 228, 236, 244, 252, 260];
    for performance in 0..=5u32 {
        let mut card = card(6, 2, 250, 0);
        assert_eq!(card.update_at(performance, Some(0)), Ok(()));
        assert_eq!(card.ease_factor(), expected[performance as usize]);
    }
}

#[test]
fn ease_never_drops_below_floor() {
    let mut card = Flashcard::new("Q".to_string(), "A".to_string(), "G".to_string());
    let expected = [220, 190, 160, 130, 130, 130];
    for step in 0..expected.len() {
        assert_eq!(card.update_at(0, Some(0)), Ok(()));
        assert_eq!(card.ease_factor(), expected[step]);
    }
    for _ in 0..200 {
        assert_eq!(card.update_at(0, Some(0)), Ok(()));
        assert!(card.ease_factor() >= MINIMUM_EASE);
        assert_eq!(card.ease_factor(), 130);
    }
    let mut near = self::card(1, 1, 140, 0);
    assert_eq!(near.update_at(2, Some(0)), Ok(()));
    assert_eq!(near.ease_factor(), 130);
    let mut rising = self::card(1, 1, 130, 0);
    assert_eq!(rising.update_at(4, Some(0)), Ok(()));
    assert_eq!(rising.ease_factor(), 132);
}

#[test]
fn ease_uses_value_from_before_the_review() {
    let mut card = card(10, 2, 200, 0);
    assert_eq!(card.update_at(5, Some(0)), Ok(()));
    // the interval grows by the old ease 2.0, not by the new 2.1
    assert_eq!(card.interval(), 20);
    assert_eq!(card.ease_factor(), 210);
}

#[test]
fn score_above_five_is_refused() {
    for performance in [6u32, 7, 100, u32::MAX] {
        let mut card = card(6, 2, 250, 77);
        assert_eq!(card.update_at(performance, Some(1_000)), Err(UpdateError::InvalidScore));
        assert_eq!(card.interval(), 6);
        assert_eq!(card.repetitions(), 2);
        assert_eq!(card.ease_factor(), 250);
        assert_eq!(card.next_review(), 77);
        assert_eq!(card.update(performance), Err(UpdateError::InvalidScore));
        assert_eq!(card.next_review(), 77);
    }
}

#[test]
fn missing_clock_is_reported() {
    let mut card = card(6, 2, 250, 77);
    assert_eq!(card.update_at(4, None), Err(UpdateError::ClockUnavailable));
    assert_eq!(card.interval(), 15);
    assert_eq!(card.repetitions(), 3);
    assert_eq!(card.ease_factor(), 252);
    assert_eq!(card.next_review(), 0);
}

#[test]
fn update_reads_the_clock() {
    let mut card = card(1, 1, 250, 0);
    assert_eq!(card.update(5), Ok(()));
    assert_eq!(card.interval(), 6);
    // later than the year 2020 plus six days
    assert!(card.next_review() > 1_577_836_800 + 6 * 86_400);
    assert!(!card.is_due(1_577_836_800));
}

#[test]
fn large_values_saturate() {
    let mut long = card(u32::MAX, u32::MAX, 250, 0);
    assert_eq!(long.update_at(5, Some(u64::MAX - 5)), Ok(()));
    assert_eq!(long.interval(), u32::MAX);
    assert_eq!(long.repetitions(), u32::MAX);
    assert_eq!(long.next_review(), u64::MAX);

    let mut easy = card(1, 1, u32::MAX - 3, 0);
    assert_eq!(easy.update_at(5, Some(0)), Ok(()));
    assert_eq!(easy.ease_factor(), u32::MAX);

    let mut big = card(3_000_000_000, 2, 200, 0);
    assert_eq!(big.update_at(3, Some(10)), Ok(()));
    assert_eq!(big.interval(), u32::MAX);
    assert_eq!(big.next_review(), 10 + 4_294_967_295u64 * 86_400);
}

#[test]
fn restore_refuses_ease_below_floor() {
    for ease in [0u32, 1, 129] {
        assert!(Flashcard::restore(
            "Q".to_string(),
            "A".to_string(),
            "G".to_string(),
            1,
            1,
            ease,
            5
        )
        .is_none());
    }
    let kept = card(3, 4, 130, 5);
    assert_eq!(kept.interval(), 3);
    assert_eq!(kept.repetitions(), 4);
    assert_eq!(kept.ease_factor(), 130);
    assert_eq!(kept.next_review(), 5);
    assert_eq!(kept.answer(), "Paris");
}

#[test]
fn due_when_date_has_come() {
    let card = card(3, 4, 130, 500);
    assert!(!card.is_due(499));
    assert!(card.is_due(500));
    assert!(card.is_due(501));
}

#[test]
fn clone_keeps_every_field() {
    let original = card(3, 4, 180, 500);
    let copy = original.clone();
    assert_eq!(copy.question(), original.question());
    assert_eq!(copy.answer(), original.answer());
    assert_eq!(copy.guidance(), original.guidance());
    assert_eq!(copy.interval(), 3);
    assert_eq!(copy.repetitions(), 4);
    assert_eq!(copy.ease_factor(), 180);
    assert_eq!(copy.next_review(), 500);
}
