use flashcards::card::{Flashcard, UpdateError};
use flashcards::import::parse_card_line;
use flashcards::keys::numbered_text;
use flashcards::manager::SpacedRepetitionManager;
use flashcards::text::{characters, numeral, trim};

fn manager() -> SpacedRepetitionManager {
    SpacedRepetitionManager::new(5, "flashcards.json".to_string())
}

fn stored(question: &str, next_review: u64) -> Flashcard {
    Flashcard::restore(
        question.to_string(),
        format!("answer to {}", question),
        format!("hint for {}", question),
        3,
        2,
        250,
        next_review,
    )
    .unwrap()
}

fn questions(manager: &SpacedRepetitionManager) -> Vec<String> {
    let mut found = Vec::new();
    for card in manager.cards() {
        found.push(card.question().clone());
    }
    found
}

#[test]
fn new_manager_is_empty() {
    let manager = manager();
    assert_eq!(manager.len(), 0);
    assert_eq!(manager.batch_size(), 5);
    assert_eq!(manager.flashcards_file(), "flashcards.json");
    assert!(manager.cards().is_empty());
    assert!(manager.card(0).is_none());
    assert!(manager.get(&"Q".to_string()).is_none());
    assert!(manager.select_due(u64::MAX).is_empty());
}

#[test]
fn added_card_is_kept_under_its_question() {
    let mut manager = manager();
    manager.add_flashcard("Q".to_string(), "A".to_string(), "G".to_string());
    assert_eq!(manager.len(), 1);
    assert!(manager.contains_key(&"Q".to_string()));
    assert!(!manager.contains_key(&"q".to_string()));
    assert_eq!(manager.index_of(&"Q".to_string()), 0);
    assert_eq!(manager.index_of(&"other".to_string()), 1);
    let card = manager.get(&"Q".to_string()).unwrap();
    assert_eq!(card.question(), "Q");
    assert_eq!(card.answer(), "A");
    assert_eq!(card.guidance(), "G");
    assert_eq!(card.interval(), 0);
    assert_eq!(card.repetitions(), 0);
    assert_eq!(card.ease_factor(), 250);
    assert_eq!(card.next_review(), 0);
}

#[test]
fn same_question_gets_a_numbered_key() {
    let mut manager = manager();
    manager.add_flashcard("Q".to_string(), "first".to_string(), "G".to_string());
    manager.add_flashcard("Q".to_string(), "second".to_string(), "G".to_string());
    manager.add_flashcard("Q".to_string(), "third".to_string(), "G".to_string());
    assert_eq!(manager.len(), 3);
    assert_eq!(questions(&manager), vec!["Q", "Q (1)", "Q (2)"]);
    assert_eq!(manager.get(&"Q".to_string()).unwrap().answer(), "first");
    assert_eq!(manager.get(&"Q (1)".to_string()).unwrap().answer(), "second");
    assert_eq!(manager.get(&"Q (2)".to_string()).unwrap().answer(), "third");
}

#[test]
fn numbered_key_skips_taken_numbers() {
    let mut manager = manager();
    manager.add_flashcard("Q (1)".to_string(), "taken".to_string(), "G".to_string());
    manager.add_flashcard("Q".to_string(), "first".to_string(), "G".to_string());
    manager.add_flashcard("Q".to_string(), "second".to_string(), "G".to_string());
    manager.add_flashcard("Q (1)".to_string(), "again".to_string(), "G".to_string());
    assert_eq!(questions(&manager), vec!["Q (1)", "Q", "Q (2)", "Q (1) (1)"]);
    assert_eq!(manager.get(&"Q (1)".to_string()).unwrap().answer(), "taken");
    assert_eq!(manager.get(&"Q (2)".to_string()).unwrap().answer(), "second");
}

#[test]
fn numbered_keys_go_past_nine() {
    let mut manager = manager();
    for _ in 0..12 {
        manager.add_flashcard("Q".to_string(), "A".to_string(), "G".to_string());
    }
    let keys = questions(&manager);
    assert_eq!(keys[9], "Q (9)");
    assert_eq!(keys[10], "Q (10)");
    assert_eq!(keys[11], "Q (11)");
}

#[test]
fn numerals_are_decimal() {
    assert_eq!(numeral(0), "0");
    assert_eq!(numeral(7), "7");
    assert_eq!(numeral(10), "10");
    assert_eq!(numeral(1_234_567_890), "1234567890");
    assert_eq!(numeral(u64::MAX), "18446744073709551615");
    assert_eq!(numbered_text(&"Q".to_string(), 0), "Q");
    assert_eq!(numbered_text(&"Q".to_string(), 305), "Q (305)");
    assert_eq!(numbered_text(&"".to_string(), 1), " (1)");
}

#[test]
fn entered_card_is_trimmed() {
    let mut manager = manager();
    manager.add_entered("  Q \n", "\tA\r\n", " G\n");
    manager.add_entered("Q\n", "B\n", "\n");
    assert_eq!(questions(&manager), vec!["Q", "Q (1)"]);
    let card = manager.get(&"Q".to_string()).unwrap();
    assert_eq!(card.answer(), "A");
    assert_eq!(card.guidance(), "G");
    assert_eq!(manager.get(&"Q (1)".to_string()).unwrap().guidance(), "");
}

#[test]
fn saved_cards_load_to_the_same_store() {
    let mut original = manager();
    original.add_flashcard("one".to_string(), "1".to_string(), "a".to_string());
    original.add_flashcard("two".to_string(), "2".to_string(), "b".to_string());
    original.add_flashcard("one".to_string(), "3".to_string(), "c".to_string());
    assert_eq!(original.review_at(1, 4, Some(1_000)), Some(Ok(())));

    let saved = original.cards();
    let mut reversed = original.cards();
    reversed.reverse();

    let mut same_order = manager();
    same_order.load(saved);
    let mut other_order = manager();
    other_order.load(reversed);

    assert_eq!(questions(&same_order), vec!["one", "two", "one (1)"]);
    assert_eq!(questions(&other_order), vec!["one (1)", "two", "one"]);
    for loaded in [&same_order, &other_order] {
        assert_eq!(loaded.len(), original.len());
        for card in original.cards() {
            let found = loaded.get(card.question()).unwrap();
            assert_eq!(found.answer(), card.answer());
            assert_eq!(found.guidance(), card.guidance());
            assert_eq!(found.interval(), card.interval());
            assert_eq!(found.repetitions(), card.repetitions());
            assert_eq!(found.ease_factor(), card.ease_factor());
            assert_eq!(found.next_review(), card.next_review());
        }
    }
    let two = other_order.get(&"two".to_string()).unwrap();
    assert_eq!(two.interval(), 1);
    assert_eq!(two.repetitions(), 1);
    assert_eq!(two.ease_factor(), 252);
    assert_eq!(two.next_review(), 1_000 + 86_400);
}

#[test]
fn loading_a_question_twice_keeps_the_later_card() {
    let mut manager = manager();
    manager.load(vec![stored("a", 1), stored("b", 2), stored("a", 3)]);
    assert_eq!(questions(&manager), vec!["a", "b"]);
    assert_eq!(manager.get(&"a".to_string()).unwrap().next_review(), 3);
    manager.insert(stored("b", 9));
    manager.insert(stored("c", 4));
    assert_eq!(questions(&manager), vec!["a", "b", "c"]);
    assert_eq!(manager.card(1).unwrap().next_review(), 9);
    assert_eq!(manager.card(2).unwrap().next_review(), 4);
    assert!(manager.card(3).is_none());
}

#[test]
fn import_skips_lines_without_three_fields() {
    let mut manager = manager();
    let lines = vec![
        "Q1~A1~G1".to_string(),
        "bad line no tildes".to_string(),
        " Q2 ~ A2 ~ G2 ".to_string(),
    ];
    assert_eq!(manager.batch_add_flashcards(&lines), 2);
    assert_eq!(manager.len(), 2);
    assert_eq!(questions(&manager), vec!["Q1", "Q2"]);
    let first = manager.get(&"Q1".to_string()).unwrap();
    assert_eq!(first.answer(), "A1");
    assert_eq!(first.guidance(), "G1");
    let second = manager.get(&"Q2".to_string()).unwrap();
    assert_eq!(second.question(), "Q2");
    assert_eq!(second.answer(), "A2");
    assert_eq!(second.guidance(), "G2");
    assert_eq!(second.interval(), 0);
    assert_eq!(second.ease_factor(), 250);
    assert_eq!(second.next_review(), 0);
}

#[test]
fn import_numbers_repeated_questions() {
    let mut manager = manager();
    manager.add_flashcard("Q".to_string(), "old".to_string(), "G".to_string());
    let lines = vec!["Q~new~G".to_string(), "".to_string(), "Q ~newer~ G".to_string()];
    assert_eq!(manager.batch_add_flashcards(&lines), 2);
    assert_eq!(questions(&manager), vec!["Q", "Q (1)", "Q (2)"]);
    assert_eq!(manager.get(&"Q".to_string()).unwrap().answer(), "old");
    assert_eq!(manager.batch_add_flashcards(&Vec::new()), 0);
    assert_eq!(manager.len(), 3);
}

#[test]
fn card_line_has_exactly_three_fields() {
    assert_eq!(
        parse_card_line("Q1~A1~G1"),
        Some(("Q1".to_string(), "A1".to_string(), "G1".to_string()))
    );
    assert_eq!(
        parse_card_line("  What is 2+2? ~\t4 ~ count  \r\n"),
        Some(("What is 2+2?".to_string(), "4".to_string(), "count".to_string()))
    );
    assert_eq!(parse_card_line("~~"), Some((String::new(), String::new(), String::new())));
    assert_eq!(
        parse_card_line(" ~ a b ~ "),
        Some((String::new(), "a b".to_string(), String::new()))
    );
    assert_eq!(parse_card_line(""), None);
    assert_eq!(parse_card_line("   \t "), None);
    assert_eq!(parse_card_line("bad line no tildes"), None);
    assert_eq!(parse_card_line("only~two"), None);
    assert_eq!(parse_card_line("a~b~c~d"), None);
    assert_eq!(parse_card_line("~~~"), None);
    assert_eq!(
        parse_card_line("\u{3000}Frage\u{a0}~ Réponse ~\u{2003}日本語\u{2028}"),
        Some(("Frage".to_string(), "Réponse".to_string(), "日本語".to_string()))
    );
}

#[test]
fn trim_takes_whitespace_from_both_ends() {
    assert_eq!(trim("  a b  "), "a b");
    assert_eq!(trim("\t\r\nx\n"), "x");
    assert_eq!(trim("x"), "x");
    assert_eq!(trim(""), "");
    assert_eq!(trim(" \u{3000} "), "");
    assert_eq!(trim("\u{2003}é \u{a0}"), "é");
    assert_eq!(trim("_ a _"), "_ a _");
    assert_eq!(characters(" ab c "), vec![' ', 'a', 'b', ' ', 'c', ' ']);
    assert_eq!(characters("é日"), vec!['é', '日']);
    assert!(characters("").is_empty());
}

#[test]
fn due_cards_come_most_overdue_first() {
    let now = 1_000_000;
    let mut manager = manager();
    manager.load(vec![
        stored("hundred", 100),
        stored("fifty", 50),
        stored("now", now),
        stored("later", now + 1000),
    ]);
    assert_eq!(manager.select_due(now), vec![1, 0, 2]);
    assert_eq!(manager.select_due(99), vec![1]);
    assert_eq!(manager.select_due(49), Vec::<usize>::new());
    assert_eq!(manager.select_due(u64::MAX), vec![1, 0, 2, 3]);
}

#[test]
fn cards_due_together_keep_their_order() {
    let mut manager = manager();
    manager.load(vec![
        stored("a", 7),
        stored("b", 3),
        stored("c", 7),
        stored("d", 0),
        stored("e", 3),
        stored("f", 7),
    ]);
    assert_eq!(manager.select_due(10), vec![3, 1, 4, 0, 2, 5]);
    assert_eq!(manager.select_due(3), vec![3, 1, 4]);
}

#[test]
fn review_changes_one_card() {
    let mut manager = manager();
    manager.load(vec![stored("a", 7), stored("b", 3)]);
    assert_eq!(manager.review_at(1, 5, Some(100)), Some(Ok(())));
    let reviewed = manager.card(1).unwrap();
    // 3 * 2.5 = 7.5
    assert_eq!(reviewed.interval(), 8);
    assert_eq!(reviewed.repetitions(), 3);
    assert_eq!(reviewed.ease_factor(), 260);
    assert_eq!(reviewed.next_review(), 100 + 8 * 86_400);
    assert_eq!(reviewed.question(), "b");
    let other = manager.card(0).unwrap();
    assert_eq!(other.interval(), 3);
    assert_eq!(other.next_review(), 7);

    assert_eq!(manager.review_at(0, 6, Some(100)), Some(Err(UpdateError::InvalidScore)));
    assert_eq!(manager.card(0).unwrap().next_review(), 7);
    assert_eq!(manager.review_at(0, 0, None), Some(Err(UpdateError::ClockUnavailable)));
    assert_eq!(manager.card(0).unwrap().next_review(), 0);
    assert_eq!(manager.card(0).unwrap().interval(), 1);
    assert_eq!(manager.review_at(2, 3, Some(100)), None);
    assert_eq!(manager.len(), 2);
}
