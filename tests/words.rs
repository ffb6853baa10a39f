use pi_game::words::{new_words_since, split_words};

fn strings(v: &[&str]) -> Vec<String> {
    v.iter().map(|s| s.to_string()).collect()
}

#[test]
fn first_text_gives_all_its_words() {
    assert_eq!(new_words_since("", "start point"), strings(&["start", "point"]));
}

#[test]
fn extension_gives_only_new_words() {
    assert_eq!(new_words_since("start point", "start point one"), strings(&["one"]));
}

#[test]
fn unchanged_text_gives_nothing() {
    assert_eq!(new_words_since("start point", "start point"), Vec::<String>::new());
}

#[test]
fn empty_text_gives_nothing() {
    assert_eq!(new_words_since("", ""), Vec::<String>::new());
    assert_eq!(new_words_since("start one", ""), Vec::<String>::new());
}

#[test]
fn revision_removes_first_occurrence_anywhere() {
    assert_eq!(new_words_since("one", "two one three"), strings(&["two", "three"]));
}

#[test]
fn revision_removes_only_one_occurrence() {
    assert_eq!(new_words_since("one", "one two one"), strings(&["two", "one"]));
}

#[test]
fn removal_can_join_the_pieces_around_it() {
    assert_eq!(new_words_since("x", "abxcd"), strings(&["abcd"]));
}

#[test]
fn missing_previous_text_leaves_text_whole() {
    assert_eq!(new_words_since("nine", "start point"), strings(&["start", "point"]));
}

#[test]
fn words_are_runs_of_non_blanks() {
    assert_eq!(split_words("  start \t point\none  "), strings(&["start", "point", "one"]));
    assert_eq!(split_words("   "), Vec::<String>::new());
    assert_eq!(split_words("three"), strings(&["three"]));
}

#[test]
fn growing_transcript_is_emitted_once() {
    let texts = ["", "start", "start point", "start point one four", "start point one four one"];
    let mut all: Vec<String> = Vec::new();
    for k in 1..texts.len() {
        all.extend(new_words_since(texts[k - 1], texts[k]));
    }
    assert_eq!(all, split_words(texts[texts.len() - 1]));
    assert_eq!(all, strings(&["start", "point", "one", "four", "one"]));
}
