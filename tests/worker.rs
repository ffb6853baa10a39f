use pi_game::worker::{DecodingState, Transcriber};

fn strings(v: &[&str]) -> Vec<String> {
    v.iter().map(|s| s.to_string()).collect()
}

#[test]
fn scripted_utterance_emits_each_word_once() {
    let mut t = Transcriber::new();
    assert_eq!(t.accept(DecodingState::Running, "start"), strings(&["start"]));
    assert_eq!(t.accept(DecodingState::Running, "start one"), strings(&["one"]));
    assert_eq!(t.accept(DecodingState::Finalized, "start one"), Vec::<String>::new());
    assert_eq!(t.previous(), "start one");
}

#[test]
fn next_utterance_starts_from_empty() {
    let mut t = Transcriber::new();
    t.accept(DecodingState::Running, "start one");
    t.accept(DecodingState::Finalized, "start one");
    assert_eq!(t.accept(DecodingState::Running, ""), Vec::<String>::new());
    assert_eq!(t.previous(), "");
    assert_eq!(t.accept(DecodingState::Running, "four"), strings(&["four"]));
}

#[test]
fn finalized_text_that_changed_is_diffed() {
    let mut t = Transcriber::new();
    t.accept(DecodingState::Running, "start");
    assert_eq!(t.accept(DecodingState::Finalized, "start point"), strings(&["point"]));
    assert_eq!(t.previous(), "start point");
}

#[test]
fn failed_frame_emits_nothing_and_keeps_baseline() {
    let mut t = Transcriber::new();
    t.accept(DecodingState::Running, "start");
    assert_eq!(t.accept(DecodingState::Failed, "start one"), Vec::<String>::new());
    assert_eq!(t.previous(), "start");
    assert_eq!(t.accept(DecodingState::Running, "start one"), strings(&["one"]));
}

#[test]
fn shutdown_is_observed_and_kept() {
    let mut t = Transcriber::new();
    assert!(t.keep_running(false));
    assert!(!t.is_stopped());
    assert!(!t.keep_running(true));
    assert!(t.is_stopped());
    assert!(!t.keep_running(false));
}

#[test]
fn stopped_worker_emits_nothing() {
    let mut t = Transcriber::new();
    t.accept(DecodingState::Running, "start");
    t.keep_running(true);
    assert_eq!(t.accept(DecodingState::Running, "start one"), Vec::<String>::new());
    assert_eq!(t.accept(DecodingState::Finalized, "start one two"), Vec::<String>::new());
    assert_eq!(t.previous(), "start");
}
