//! The game: say "start", then recite pi one character per word; the first
//! wrong character ends the round.
use vstd::prelude::*;
use crate::words::views;
use vstd::string::StringExecFns;

verus! {

/// How many characters a round can go through.
pub const MAX_SCORE: usize = 100;

/// How long a lost round stays on screen, in milliseconds.
pub const GAME_OVER_PAUSE_MS: u64 = 4000;

/// How long the completed recitation stays on screen before the
/// congratulations, in milliseconds.
pub const GAME_WIN_PAUSE_MS: u64 = 2000;

/// The characters of pi.
pub open spec fn pi_chars() -> Seq<char> {
    "3.14159265358979323846264338327950288419716939937510582097494459230781640628620899862803482534211706"@
}

/// The character a spoken word stands for.
pub open spec fn char_of_word(w: Seq<char>) -> Option<char> {
    if w == seq!['o', 'h'] || w == seq!['z', 'e', 'r', 'o'] {
        Some('0')
    } else if w == seq!['o', 'n', 'e'] {
        Some('1')
    } else if w == seq!['t', 'w', 'o'] {
        Some('2')
    } else if w == seq!['t', 'h', 'r', 'e', 'e'] {
        Some('3')
    } else if w == seq!['f', 'o', 'u', 'r'] {
        Some('4')
    } else if w == seq!['f', 'i', 'v', 'e'] {
        Some('5')
    } else if w == seq!['s', 'i', 'x'] {
        Some('6')
    } else if w == seq!['s', 'e', 'v', 'e', 'n'] {
        Some('7')
    } else if w == seq!['e', 'i', 'g', 'h', 't'] {
        Some('8')
    } else if w == seq!['n', 'i', 'n', 'e'] {
        Some('9')
    } else if w == seq!['p', 'o', 'i', 'n', 't'] {
        Some('.')
    } else {
        None
    }
}

/// The word that begins a round.
pub open spec fn start_word() -> Seq<char> {
    seq!['s', 't', 'a', 'r', 't']
}

/// Whether two texts hold the same characters.
fn same_text(a: &str, b: &str) -> (r: bool)
    ensures
        r == (a@ == b@),
{
    String::from_str(a) == String::from_str(b)
}

/// The character a spoken word stands for: a digit for "zero" (or "oh")
/// through "nine", `.` for "point"; `None` for any other word.
pub fn word_to_char(word: &str) -> (r: Option<char>)
    ensures
        r == char_of_word(word@),
{
    proof {
        reveal_strlit("oh");
        reveal_strlit("zero");
        reveal_strlit("one");
        reveal_strlit("two");
        reveal_strlit("three");
        reveal_strlit("four");
        reveal_strlit("five");
        reveal_strlit("six");
        reveal_strlit("seven");
        reveal_strlit("eight");
        reveal_strlit("nine");
        reveal_strlit("point");
    }
    if same_text(word, "oh") {
        assert("oh"@ =~= seq!['o', 'h']);
        Some('0')
    } else if same_text(word, "zero") {
        assert("zero"@ =~= seq!['z', 'e', 'r', 'o']);
        Some('0')
    } else if same_text(word, "one") {
        assert("one"@ =~= seq!['o', 'n', 'e']);
        Some('1')
    } else if same_text(word, "two") {
        assert("two"@ =~= seq!['t', 'w', 'o']);
        Some('2')
    } else if same_text(word, "three") {
        assert("three"@ =~= seq!['t', 'h', 'r', 'e', 'e']);
        Some('3')
    } else if same_text(word, "four") {
        assert("four"@ =~= seq!['f', 'o', 'u', 'r']);
        Some('4')
    } else if same_text(word, "five") {
        assert("five"@ =~= seq!['f', 'i', 'v', 'e']);
        Some('5')
    } else if same_text(word, "six") {
        assert("six"@ =~= seq!['s', 'i', 'x']);
        Some('6')
    } else if same_text(word, "seven") {
        assert("seven"@ =~= seq!['s', 'e', 'v', 'e', 'n']);
        Some('7')
    } else if same_text(word, "eight") {
        assert("eight"@ =~= seq!['e', 'i', 'g', 'h', 't']);
        Some('8')
    } else if same_text(word, "nine") {
        assert("nine"@ =~= seq!['n', 'i', 'n', 'e']);
        Some('9')
    } else if same_text(word, "point") {
        assert("point"@ =~= seq!['p', 'o', 'i', 'n', 't']);
        Some('.')
    } else {
        assert("oh"@ =~= seq!['o', 'h']);
        assert("zero"@ =~= seq!['z', 'e', 'r', 'o']);
        assert("one"@ =~= seq!['o', 'n', 'e']);
        assert("two"@ =~= seq!['t', 'w', 'o']);
        assert("three"@ =~= seq!['t', 'h', 'r', 'e', 'e']);
        assert("four"@ =~= seq!['f', 'o', 'u', 'r']);
        assert("five"@ =~= seq!['f', 'i', 'v', 'e']);
        assert("six"@ =~= seq!['s', 'i', 'x']);
        assert("seven"@ =~= seq!['s', 'e', 'v', 'e', 'n']);
        assert("eight"@ =~= seq!['e', 'i', 'g', 'h', 't']);
        assert("nine"@ =~= seq!['n', 'i', 'n', 'e']);
        assert("point"@ =~= seq!['p', 'o', 'i', 'n', 't']);
        None
    }
}

/// Character `i` of pi.
fn pi_char(i: usize) -> (r: char)
    requires
        i < MAX_SCORE,
    ensures
        r == pi_chars()[i as int],
        pi_chars().len() == MAX_SCORE,
{
    proof {
        reveal_strlit("3.14159265358979323846264338327950288419716939937510582097494459230781640628620899862803482534211706");
    }
    let pi: &str = "3.14159265358979323846264338327950288419716939937510582097494459230781640628620899862803482534211706";
    pi.get_char(i)
}

/// A character the player said, and whether it was the one expected.
#[derive(Clone, Copy, Debug, PartialEq, Eq, Structural)]
pub struct CharCorrectness {
    pub c: char,
    pub correct: bool,
}

/// A message shown in place of the recited characters.
#[derive(Clone, Copy, Debug, PartialEq, Eq, Structural)]
pub enum Notice {
    /// Waiting for "start".
    SayStart,
    /// A round has begun and nothing is recited yet.
    StartReciting,
    /// Every character was recited.
    Won,
}

/// Something the display has to do, in order.
#[derive(Debug)]
pub enum Action {
    /// Show the scores and a message.
    Info { high_score: usize, current_score: usize, notice: Notice },
    /// Show the scores and the characters recited so far.
    Input { high_score: usize, current_score: usize, chars: Vec<CharCorrectness> },
    /// Keep the screen as it is for a while.
    Pause { millis: u64 },
}

/// What an `Action` does, with the characters as a sequence.
pub enum Shown {
    Info { high_score: int, current_score: int, notice: Notice },
    Input { high_score: int, current_score: int, chars: Seq<CharCorrectness> },
    Pause { millis: int },
}

impl View for Action {
    type V = Shown;

    open spec fn view(&self) -> Shown {
        match self {
            Action::Info { high_score, current_score, notice } => Shown::Info {
                high_score: *high_score as int,
                current_score: *current_score as int,
                notice: *notice,
            },
            Action::Input { high_score, current_score, chars } => Shown::Input {
                high_score: *high_score as int,
                current_score: *current_score as int,
                chars: chars@,
            },
            Action::Pause { millis } => Shown::Pause { millis: *millis as int },
        }
    }
}

/// What each action of a sequence does.
pub open spec fn shown_of(v: Seq<Action>) -> Seq<Shown> {
    v.map_values(|a: Action| a@)
}

/// The state of the game.
pub struct Round {
    pub high_score: int,
    pub current_score: int,
    pub playing: bool,
    pub input: Seq<CharCorrectness>,
}

/// The high score raised to the current score where that is higher.
pub open spec fn refreshed(m: Round) -> Round {
    Round {
        high_score: if m.current_score > m.high_score {
            m.current_score
        } else {
            m.high_score
        },
        ..m
    }
}

/// What the display shows for the game in state `m`.
pub open spec fn screens(m: Round) -> Seq<Shown> {
    if !m.playing {
        seq![
            Shown::Info {
                high_score: m.high_score,
                current_score: m.current_score,
                notice: Notice::SayStart,
            },
        ]
    } else if m.input.len() == 0 {
        seq![
            Shown::Info {
                high_score: m.high_score,
                current_score: m.current_score,
                notice: Notice::StartReciting,
            },
        ]
    } else if m.current_score == MAX_SCORE {
        seq![
            Shown::Input {
                high_score: m.high_score,
                current_score: m.current_score,
                chars: m.input,
            },
            Shown::Pause { millis: GAME_WIN_PAUSE_MS as int },
            Shown::Info { high_score: m.high_score, current_score: m.current_score, notice: Notice::Won },
        ]
    } else {
        seq![
            Shown::Input {
                high_score: m.high_score,
                current_score: m.current_score,
                chars: m.input,
            },
        ]
    }
}

/// One recited word, character `i` of pi being expected. Gives the new
/// state, what is shown, whether the round is over, and whether recitation
/// stops here (every character recited). A word that stands for no
/// character changes nothing; a wrong character is recorded and ends the
/// round, though the words after it are still heard.
pub open spec fn recite_word(m: Round, i: int, w: Seq<char>) -> (Round, Seq<Shown>, bool, bool) {
    match char_of_word(w) {
        None => (m, seq![], false, false),
        Some(said) => if said == pi_chars()[i] {
            let m1 = refreshed(
                Round {
                    current_score: m.current_score + 1,
                    input: m.input.push(CharCorrectness { c: said, correct: true }),
                    ..m
                },
            );
            (m1, screens(m1), m1.current_score == MAX_SCORE, m1.current_score == MAX_SCORE)
        } else {
            let m1 = refreshed(
                Round { input: m.input.push(CharCorrectness { c: said, correct: false }), ..m },
            );
            (m1, screens(m1), true, false)
        },
    }
}

/// The words recited one after the other, character `i` of pi expected for
/// the first and one further along for each next word, until the words or
/// the characters of pi run out. Gives the new state, what is shown, and
/// whether the round is over.
pub open spec fn recite(m: Round, words: Seq<Seq<char>>, i: int) -> (Round, Seq<Shown>, bool)
    decreases words.len(),
{
    if words.len() == 0 || i < 0 || i >= MAX_SCORE {
        (m, seq![], false)
    } else {
        let (m1, s1, over1, stop) = recite_word(m, i, words[0]);
        if stop {
            (m1, s1, true)
        } else {
            let (m2, s2, over2) = recite(m1, words.drop_first(), i + 1);
            (m2, s1 + s2, over1 || over2)
        }
    }
}

/// A batch of words during a round: recited from the character after the
/// current score on; a round that is over is shown for a while, then the
/// game waits for "start" again with the score at zero.
pub open spec fn play_round(m: Round, words: Seq<Seq<char>>) -> (Round, Seq<Shown>) {
    let (m1, s1, over) = recite(m, words, m.current_score);
    if over {
        let m2 = refreshed(Round { playing: false, current_score: 0, input: seq![], ..m1 });
        (m2, s1 + seq![Shown::Pause { millis: GAME_OVER_PAUSE_MS as int }] + screens(m2))
    } else {
        (m1, s1)
    }
}

/// The first index at or after `k` of the word "start".
pub open spec fn first_start_from(words: Seq<Seq<char>>, k: int) -> Option<int>
    decreases words.len() - k,
{
    if k < 0 || k >= words.len() {
        None
    } else if words[k] == start_word() {
        Some(k)
    } else {
        first_start_from(words, k + 1)
    }
}

/// A batch of words heard: while waiting, the words after the first "start"
/// begin a round (and without one nothing happens); during a round the
/// batch is recited.
pub open spec fn play_batch(m: Round, words: Seq<Seq<char>>) -> (Round, Seq<Shown>) {
    if !m.playing {
        match first_start_from(words, 0) {
            None => (m, seq![]),
            Some(k) => {
                let m1 = refreshed(Round { playing: true, ..m });
                let (m2, s2) = play_round(m1, words.subrange(k + 1, words.len() as int));
                (m2, screens(m1) + s2)
            },
        }
    } else {
        play_round(m, words)
    }
}

/// The game: scores, whether a round is on, the characters recited in it,
/// and what the display still has to do.
pub struct Game {
    high_score: usize,
    current_score: usize,
    playing: bool,
    chars_input: Vec<CharCorrectness>,
    pending: Vec<Action>,
}

/// A copy of the recited characters.
fn copy_chars(v: &Vec<CharCorrectness>) -> (r: Vec<CharCorrectness>)
    ensures
        r@ == v@,
{
    let mut r: Vec<CharCorrectness> = Vec::with_capacity(v.len());
    let mut i: usize = 0;
    while i < v.len()
        invariant
            i <= v@.len(),
            r@ == v@.subrange(0, i as int),
        decreases v@.len() - i,
    {
        r.push(v[i]);
        i += 1;
        assert(r@ =~= v@.subrange(0, i as int));
    }
    assert(r@ =~= v@);
    r
}

impl Game {
    /// The state of the game.
    pub closed spec fn round(&self) -> Round {
        Round {
            high_score: self.high_score as int,
            current_score: self.current_score as int,
            playing: self.playing,
            input: self.chars_input@,
        }
    }

    /// What the display still has to do, in order.
    pub closed spec fn to_show(&self) -> Seq<Shown> {
        shown_of(self.pending@)
    }

    /// A new game with no scores, waiting for "start", which it asks for.
    pub fn new() -> (r: Game)
        ensures
            r.round() == (Round { high_score: 0, current_score: 0, playing: false, input: seq![] }),
            r.to_show() == screens(r.round()),
    {
        let mut game = Game {
            high_score: 0,
            current_score: 0,
            playing: false,
            chars_input: Vec::new(),
            pending: Vec::new(),
        };
        game.update_score();
        assert(game.round() =~= (Round { high_score: 0, current_score: 0, playing: false, input: seq![] }));
        game
    }

    /// Hands over what the display has to do, in order, and forgets it.
    pub fn take_actions(&mut self) -> (r: Vec<Action>)
        ensures
            shown_of(r@) == old(self).to_show(),
            final(self).to_show() == Seq::<Shown>::empty(),
            final(self).round() == old(self).round(),
    {
        let mut r: Vec<Action> = Vec::new();
        std::mem::swap(&mut self.pending, &mut r);
        assert(shown_of(self.pending@) =~= Seq::<Shown>::empty());
        r
    }

    /// Raises the high score to the current one where that is higher, and
    /// queues what the display shows for the game as it now stands.
    fn update_score(&mut self)
        ensures
            final(self).round() == refreshed(old(self).round()),
            final(self).to_show() == old(self).to_show() + screens(refreshed(old(self).round())),
    {
        if self.current_score > self.high_score {
            self.high_score = self.current_score;
        }
        let ghost before = self.pending@;
        let ghost m = self.round();
        assert(m == refreshed(old(self).round()));
        if !self.playing {
            self.pending.push(
                Action::Info {
                    high_score: self.high_score,
                    current_score: self.current_score,
                    notice: Notice::SayStart,
                },
            );
        } else if self.chars_input.len() == 0 {
            self.pending.push(
                Action::Info {
                    high_score: self.high_score,
                    current_score: self.current_score,
                    notice: Notice::StartReciting,
                },
            );
        } else if self.current_score == MAX_SCORE {
            let chars = copy_chars(&self.chars_input);
            self.pending.push(
                Action::Input {
                    high_score: self.high_score,
                    current_score: self.current_score,
                    chars,
                },
            );
            self.pending.push(Action::Pause { millis: GAME_WIN_PAUSE_MS });
            self.pending.push(
                Action::Info {
                    high_score: self.high_score,
                    current_score: self.current_score,
                    notice: Notice::Won,
                },
            );
        } else {
            let chars = copy_chars(&self.chars_input);
            self.pending.push(
                Action::Input {
                    high_score: self.high_score,
                    current_score: self.current_score,
                    chars,
                },
            );
        }
        assert(shown_of(self.pending@) =~= shown_of(before) + screens(m));
    }
    /// Hears a batch of words: while waiting, the words after the first
    /// "start" begin a round; during a round the words are recited against
    /// pi. What the display has to do is queued behind what was already
    /// there.
    pub fn play(&mut self, words: Vec<String>)
        ensures
            final(self).round() == play_batch(old(self).round(), views(words@)).0,
            final(self).to_show() == old(self).to_show() + play_batch(
                old(self).round(),
                views(words@),
            ).1,
    {
        let ghost ws = views(words@);
        let ghost m0 = self.round();
        if !self.playing {
            match self.find_start(&words) {
                Some(from) => {
                    let ghost k = first_start_from(ws, 0)->Some_0;
                    let ghost m1 = self.round();
                    assert(m1 == refreshed(Round { playing: true, ..m0 }));
                    assert(from as int == k + 1);
                    let ghost rest = ws.subrange(from as int, ws.len() as int);
                    let ghost s1 = self.to_show();
                    self.play_words(&words, from);
                    assert(play_batch(m0, ws) == (play_round(m1, rest).0, screens(m1) + play_round(
                        m1,
                        rest,
                    ).1));
                    assert(self.round() == play_round(m1, rest).0);
                    assert(self.to_show() == s1 + play_round(m1, rest).1);
                    assert(self.to_show() =~= old(self).to_show() + (screens(m1) + play_round(
                        m1,
                        rest,
                    ).1));
                },
                None => {
                    assert(self.to_show() =~= old(self).to_show() + seq![]);
                },
            }
        } else {
            assert(ws.subrange(0, ws.len() as int) =~= ws);
            self.play_words(&words, 0);
        }
    }

    /// Looks for the first "start" among `words`. Where there is one the round
    /// begins (and is shown), and the index of the word after it is returned:
    /// the words from there on are the ones to recite.
    fn find_start(&mut self, words: &Vec<String>) -> (r: Option<usize>)
        requires
            !old(self).round().playing,
        ensures
            match first_start_from(views(words@), 0) {
                None => r is None && final(self).round() == old(self).round() && final(self).to_show()
                    == old(self).to_show(),
                Some(k) => r is Some && r->Some_0 == k + 1 && 0 <= k < words@.len() && final(self).round()
                    == refreshed(Round { playing: true, ..old(self).round() })
                    && final(self).to_show() == old(self).to_show() + screens(
                    final(self).round(),
                ),
            },
    {
        let ghost ws = views(words@);
        proof {
            reveal_strlit("start");
            assert("start"@ =~= start_word());
        }
        let mut i: usize = 0;
        while i < words.len()
            invariant
                ws == views(words@),
                i <= words@.len(),
                first_start_from(ws, 0) == first_start_from(ws, i as int),
                "start"@ == start_word(),
                self.round() == old(self).round(),
                self.to_show() == old(self).to_show(),
                !self.playing,
            decreases words@.len() - i,
        {
            assert(ws[i as int] == words@[i as int]@);
            if same_text(words[i].as_str(), "start") {
                self.playing = true;
                assert(self.round() == (Round { playing: true, ..old(self).round() }));
                self.update_score();
                return Some(i + 1);
            }
            i += 1;
        }
        None
    }

    /// Recites `words` from index `from` on; a round that ends is shown for a
    /// while and the game goes back to waiting.
    fn play_words(&mut self, words: &Vec<String>, from: usize)
        requires
            from <= words@.len(),
        ensures
            final(self).round() == play_round(
                old(self).round(),
                views(words@).subrange(from as int, words@.len() as int),
            ).0,
            final(self).to_show() == old(self).to_show() + play_round(
                old(self).round(),
                views(words@).subrange(from as int, words@.len() as int),
            ).1,
    {
        let ghost m0 = self.round();
        let ghost s0 = self.to_show();
        let ghost all = views(words@);
        let ghost ws = all.subrange(from as int, words@.len() as int);
        let n = words.len();
        let mut i: usize = self.current_score;
        let mut j: usize = from;
        let mut game_over = false;
        let mut stop = false;
        let ghost mut acc: Seq<Shown> = seq![];
        assert(all.subrange(j as int, n as int) == ws);
        while j < n && i < MAX_SCORE && !stop
            invariant
                n == words@.len(),
                all == views(words@),
                from <= j <= n,
                self.current_score <= i,
                self.to_show() == s0 + acc,
                stop ==> game_over,
                recite(m0, ws, m0.current_score) == (if stop {
                    (self.round(), acc, true)
                } else {
                    let rf = recite(self.round(), all.subrange(j as int, n as int), i as int);
                    (rf.0, acc + rf.1, game_over || rf.2)
                }),
            decreases n - j,
        {
            let ghost cur = self.round();
            let ghost rest = all.subrange(j as int, n as int);
            let ghost acc0 = acc;
            assert(rest[0] == words@[j as int]@);
            assert(rest.drop_first() =~= all.subrange(j + 1, n as int));
            let ghost step = recite_word(cur, i as int, rest[0]);
            let expected = pi_char(i);
            match word_to_char(words[j].as_str()) {
                Some(said) => {
                    if said == expected {
                        self.current_score += 1;
                        self.chars_input.push(CharCorrectness { c: expected, correct: true });
                        self.update_score();
                        if self.current_score == MAX_SCORE {
                            game_over = true;
                            stop = true;
                        }
                    } else {
                        self.chars_input.push(CharCorrectness { c: said, correct: false });
                        game_over = true;
                        self.update_score();
                    }
                },
                None => {},
            }
            proof {
                assert(self.round() == step.0);
                acc = acc0 + step.1;
                assert(self.to_show() =~= s0 + acc);
                if !stop {
                    let rf = recite(step.0, all.subrange(j + 1, n as int), i + 1);
                    assert(acc0 + (step.1 + rf.1) =~= acc + rf.1);
                }
            }
            i += 1;
            j += 1;
        }
        proof {
            if !stop {
                assert(acc + seq![] =~= acc);
            }
        }
        if game_over {
            let ghost m1 = self.round();
            let ghost before = self.pending@;
            self.pending.push(Action::Pause { millis: GAME_OVER_PAUSE_MS });
            assert(shown_of(self.pending@) =~= shown_of(before) + seq![
                Shown::Pause { millis: GAME_OVER_PAUSE_MS as int },
            ]);
            self.end_game();
            self.update_score();
            assert(self.to_show() =~= s0 + (acc + seq![Shown::Pause { millis: GAME_OVER_PAUSE_MS as int }]
                + screens(refreshed(Round { playing: false, current_score: 0, input: seq![], ..m1 }))));
        }
    }

    /// Ends the round: back to waiting, with the score and the recited
    /// characters cleared.
    fn end_game(&mut self)
        ensures
            final(self).round() == (Round {
                playing: false,
                current_score: 0,
                input: seq![],
                ..old(self).round()
            }),
            final(self).to_show() == old(self).to_show(),
    {
        self.playing = false;
        self.current_score = 0;
        self.chars_input = Vec::new();
        assert(self.round() =~= (Round {
            playing: false,
            current_score: 0,
            input: seq![],
            ..old(self).round()
        }));
    }
}

} // verus!
