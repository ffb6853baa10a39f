use pi_game::game::{word_to_char, Action, CharCorrectness, Game, Notice};

fn strings(v: &[&str]) -> Vec<String> {
    v.iter().map(|s| s.to_string()).collect()
}

fn is_info(a: &Action, high: usize, current: usize, n: Notice) -> bool {
    matches!(a, Action::Info { high_score, current_score, notice }
        if *high_score == high && *current_score == current && *notice == n)
}

fn is_input(a: &Action, high: usize, current: usize, expected: &[(char, bool)]) -> bool {
    match a {
        Action::Input { high_score, current_score, chars } => {
            let got: Vec<(char, bool)> = chars.iter().map(|c| (c.c, c.correct)).collect();
            *high_score == high && *current_score == current && got == expected
        }
        _ => false,
    }
}

#[test]
fn digit_words_map_to_characters() {
    let cases = [
        ("oh", '0'),
        ("zero", '0'),
        ("one", '1'),
        ("two", '2'),
        ("three", '3'),
        ("four", '4'),
        ("five", '5'),
        ("six", '6'),
        ("seven", '7'),
        ("eight", '8'),
        ("nine", '9'),
        ("point", '.'),
    ];
    for (w, c) in cases {
        assert_eq!(word_to_char(w), Some(c));
    }
    assert_eq!(word_to_char("start"), None);
    assert_eq!(word_to_char("[unk]"), None);
    assert_eq!(word_to_char(""), None);
}

#[test]
fn char_correctness_holds_its_fields() {
    let c = CharCorrectness { c: '3', correct: true };
    assert_eq!(c, CharCorrectness { c: '3', correct: true });
    assert_ne!(c, CharCorrectness { c: '3', correct: false });
}

#[test]
fn new_game_asks_for_start() {
    let mut g = Game::new();
    let a = g.take_actions();
    assert_eq!(a.len(), 1);
    assert!(is_info(&a[0], 0, 0, Notice::SayStart));
    assert!(g.take_actions().is_empty());
}

#[test]
fn words_before_start_are_ignored() {
    let mut g = Game::new();
    g.take_actions();
    g.play(strings(&["three", "point"]));
    assert!(g.take_actions().is_empty());
}

#[test]
fn start_begins_a_round() {
    let mut g = Game::new();
    g.take_actions();
    g.play(strings(&["start"]));
    let a = g.take_actions();
    assert_eq!(a.len(), 1);
    assert!(is_info(&a[0], 0, 0, Notice::StartReciting));
}

#[test]
fn words_after_start_are_recited() {
    let mut g = Game::new();
    g.take_actions();
    g.play(strings(&["start", "three", "point"]));
    let a = g.take_actions();
    assert_eq!(a.len(), 3);
    assert!(is_info(&a[0], 0, 0, Notice::StartReciting));
    assert!(is_input(&a[1], 1, 1, &[('3', true)]));
    assert!(is_input(&a[2], 2, 2, &[('3', true), ('.', true)]));
    g.play(strings(&["one"]));
    let a = g.take_actions();
    assert_eq!(a.len(), 1);
    assert!(is_input(&a[0], 3, 3, &[('3', true), ('.', true), ('1', true)]));
}

#[test]
fn wrong_digit_ends_the_round() {
    let mut g = Game::new();
    g.play(strings(&["start", "three", "point", "two"]));
    let a = g.take_actions();
    assert_eq!(a.len(), 7);
    assert!(is_info(&a[0], 0, 0, Notice::SayStart));
    assert!(is_info(&a[1], 0, 0, Notice::StartReciting));
    assert!(is_input(&a[4], 2, 2, &[('3', true), ('.', true), ('2', false)]));
    assert!(matches!(a[5], Action::Pause { millis: 4000 }));
    assert!(is_info(&a[6], 2, 0, Notice::SayStart));
}

#[test]
fn high_score_survives_a_lost_round() {
    let mut g = Game::new();
    g.play(strings(&["start", "three", "point", "one", "nine"]));
    g.take_actions();
    g.play(strings(&["start"]));
    let a = g.take_actions();
    assert_eq!(a.len(), 1);
    assert!(is_info(&a[0], 3, 0, Notice::StartReciting));
}

#[test]
fn unknown_word_still_takes_a_place() {
    let mut g = Game::new();
    g.take_actions();
    g.play(strings(&["start", "[unk]", "three"]));
    let a = g.take_actions();
    assert!(is_input(&a[1], 0, 0, &[('3', false)]));
    assert!(matches!(a[2], Action::Pause { millis: 4000 }));
}

#[test]
fn whole_recitation_wins() {
    let pi = "3.14159265358979323846264338327950288419716939937510582097494459230781640628620899862803482534211706";
    let names = ["zero", "one", "two", "three", "four", "five", "six", "seven", "eight", "nine"];
    let mut words = vec!["start".to_string()];
    for c in pi.chars() {
        if c == '.' {
            words.push("point".to_string());
        } else {
            words.push(names[c.to_digit(10).unwrap() as usize].to_string());
        }
    }
    words.push("one".to_string());
    let mut g = Game::new();
    g.take_actions();
    g.play(words);
    let a = g.take_actions();
    let n = a.len();
    assert_eq!(n, 1 + 100 + 4);
    assert!(matches!(&a[n - 5], Action::Input { high_score: 100, current_score: 100, .. }));
    assert!(matches!(a[n - 4], Action::Pause { millis: 2000 }));
    assert!(is_info(&a[n - 3], 100, 100, Notice::Won));
    assert!(matches!(a[n - 2], Action::Pause { millis: 4000 }));
    assert!(is_info(&a[n - 1], 100, 0, Notice::SayStart));
}
