use hadvent::game::{App, GameStatus, GuessPolicy, MAX_FAILURES};

fn play(app: &mut App, keys: &str) {
    for k in keys.chars() {
        app.apply_guess(k);
    }
}

#[test]
fn cat_scenario() {
    let mut app = App::new(String::from("CAT"));
    assert_eq!(app.unrevealed_letters(), vec!['A', 'C', 'T']);
    app.apply_guess('A');
    assert_eq!(app.unrevealed_letters(), vec!['C', 'T']);
    assert_eq!(app.failures(), 0);
    app.apply_guess('Z');
    assert_eq!(app.failures(), 1);
    app.apply_guess('C');
    assert_eq!(app.unrevealed_letters(), vec!['T']);
    assert_eq!(app.failures(), 1);
    app.apply_guess('T');
    assert!(app.unrevealed_letters().is_empty());
    assert_eq!(app.evaluate(), GameStatus::Won);
}

#[test]
fn repeated_wrong_letter_set_based() {
    let mut app = App::with_policy(String::from("GO"), GuessPolicy::SetBased);
    play(&mut app, "XXXXXX");
    assert_eq!(app.failures(), 1);
    assert_eq!(app.evaluate(), GameStatus::Playing);
}

#[test]
fn repeated_wrong_letter_accumulating() {
    let mut app = App::with_policy(String::from("GO"), GuessPolicy::Accumulating);
    play(&mut app, "XXXXXX");
    assert_eq!(app.failures(), 6);
    assert_eq!(app.evaluate(), GameStatus::Lost);
}

#[test]
fn accumulating_charges_repeat_of_found_letter() {
    let mut app = App::with_policy(String::from("GO"), GuessPolicy::Accumulating);
    play(&mut app, "GGG");
    assert_eq!(app.failures(), 2);
    assert_eq!(app.unrevealed_letters(), vec!['O']);
    assert_eq!(app.guessed_letters(), vec!['G']);
}

#[test]
fn accumulating_does_not_record_wrong_letters() {
    let mut app = App::with_policy(String::from("GO"), GuessPolicy::Accumulating);
    play(&mut app, "XO");
    assert_eq!(app.guessed_letters(), vec!['O']);
    assert_eq!(app.failures(), 1);
}

#[test]
fn repeating_found_letter_is_free_set_based() {
    let mut app = App::new(String::from("CAT"));
    app.apply_guess('A');
    play(&mut app, "AAAAaaaa");
    assert_eq!(app.failures(), 0);
    assert_eq!(app.unrevealed_letters(), vec!['C', 'T']);
    assert_eq!(app.guessed_letters(), vec!['A']);
}

#[test]
fn non_letters_are_ignored() {
    for policy in [GuessPolicy::SetBased, GuessPolicy::Accumulating] {
        let mut app = App::with_policy(String::from("CAT"), policy);
        app.apply_guess('Z');
        play(&mut app, "19#! -_\u{e9}");
        assert_eq!(app.failures(), 1);
        assert_eq!(app.unrevealed_letters(), vec!['A', 'C', 'T']);
        assert_eq!(app.guessed_letters(), if policy == GuessPolicy::SetBased { vec!['Z'] } else { vec![] });
    }
}

#[test]
fn lower_case_guess_counts_as_upper() {
    let mut app = App::new(String::from("cat"));
    assert_eq!(app.target(), vec!['C', 'A', 'T']);
    app.apply_guess('c');
    assert_eq!(app.unrevealed_letters(), vec!['A', 'T']);
    assert_eq!(app.guessed_letters(), vec!['C']);
}

#[test]
fn won_regardless_of_failures() {
    let mut app = App::new(String::from("GO"));
    play(&mut app, "ABCDE");
    assert_eq!(app.failures(), 5);
    play(&mut app, "GO");
    assert_eq!(app.evaluate(), GameStatus::Won);
    assert_eq!(app.reveal_stage(), 5);
}

#[test]
fn lost_at_six_failures() {
    let mut app = App::new(String::from("GO"));
    play(&mut app, "ABCDE");
    assert_eq!(app.evaluate(), GameStatus::Playing);
    app.apply_guess('F');
    assert_eq!(app.failures(), MAX_FAILURES);
    assert_eq!(app.evaluate(), GameStatus::Lost);
}

#[test]
fn guesses_after_the_end_are_ignored() {
    let mut app = App::new(String::from("GO"));
    play(&mut app, "ABCDEF");
    play(&mut app, "GOHI");
    assert_eq!(app.failures(), 6);
    assert_eq!(app.unrevealed_letters(), vec!['G', 'O']);
    assert_eq!(app.evaluate(), GameStatus::Lost);

    let mut won = App::new(String::from("GO"));
    play(&mut won, "GOXYZ");
    assert_eq!(won.failures(), 0);
    assert_eq!(won.guessed_letters(), vec!['G', 'O']);
}

#[test]
fn reveal_stage_follows_failures() {
    let mut app = App::with_policy(String::from("QUIZ"), GuessPolicy::Accumulating);
    assert_eq!(app.reveal_stage(), 0);
    for expected in 1..=6u8 {
        app.apply_guess('X');
        assert_eq!(app.reveal_stage(), expected);
    }
    app.apply_guess('X');
    assert_eq!(app.reveal_stage(), 6);
}

#[test]
fn masked_word_hides_unfound_letters() {
    let mut app = App::new(String::from("Ab-c"));
    assert_eq!(app.target(), vec!['A', 'B', '-', 'C']);
    assert_eq!(app.masked_word(), "_ _ - _");
    app.apply_guess('b');
    assert_eq!(app.masked_chars(), vec!['_', 'B', '-', '_']);
    assert_eq!(app.masked_word(), "_ B - _");
}

#[test]
fn masked_word_when_all_found_is_the_word() {
    let mut app = App::new(String::from("CAT"));
    play(&mut app, "TCA");
    assert_eq!(app.masked_chars(), app.target());
    assert_eq!(app.masked_word(), "C A T");
}

#[test]
fn typed_letters_are_sorted() {
    let mut app = App::new(String::from("CAT"));
    assert_eq!(app.typed_letters_line(), "");
    play(&mut app, "zTa");
    assert_eq!(app.guessed_letters(), vec!['A', 'T', 'Z']);
    assert_eq!(app.typed_letters_line(), "A T Z");
}

#[test]
fn default_game() {
    let app = App::default();
    assert_eq!(app.target(), "MASUPILAMI".chars().collect::<Vec<char>>());
    assert_eq!(app.unrevealed_letters(), vec!['A', 'I', 'L', 'M', 'P', 'S', 'U']);
    assert_eq!(app.failures(), 0);
    assert_eq!(app.policy(), GuessPolicy::SetBased);
    assert_eq!(app.evaluate(), GameStatus::Playing);
    assert_eq!(app.masked_word(), "_ _ _ _ _ _ _ _ _ _");
}

#[test]
fn word_without_letters_is_won_at_once() {
    let mut app = App::new(String::from("42"));
    assert_eq!(app.evaluate(), GameStatus::Won);
    app.apply_guess('A');
    assert_eq!(app.failures(), 0);
    assert_eq!(app.masked_word(), "4 2");
}
