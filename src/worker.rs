//! The transcription worker's decisions: what each decoder response adds to
//! the stream of words, and when the worker stops.
use crate::words::{new_words, new_words_since, views};
use vstd::prelude::*;
use vstd::string::StringExecFns;

verus! {

/// What the speech decoder reports after it has been fed one frame.
#[derive(Clone, Copy, Debug, PartialEq, Eq, Structural)]
pub enum DecodingState {
    /// The hypothesis for the current utterance is still forming.
    Running,
    /// The hypothesis is locked in; the decoder starts a new utterance next.
    Finalized,
    /// Nothing usable came out of this frame.
    Failed,
}

/// A decoder response leaves the transcript as it was: it failed, or its
/// text is the one already acted upon.
pub open spec fn adds_nothing(previous: Seq<char>, state: DecodingState, text: Seq<char>) -> bool {
    state == DecodingState::Failed || text == previous
}

/// The state of the transcription worker: the transcript last acted upon,
/// and whether shutdown has been observed.
pub struct Transcriber {
    previous: String,
    stopped: bool,
}

impl Transcriber {
    /// The transcript from which words were last emitted.
    pub closed spec fn previous_text(&self) -> Seq<char> {
        self.previous@
    }

    /// Shutdown has been observed; from now on nothing is emitted.
    pub closed spec fn has_stopped(&self) -> bool {
        self.stopped
    }

    /// A worker that has seen no transcript yet and is running.
    pub fn new() -> (r: Transcriber)
        ensures
            r.previous_text() == Seq::<char>::empty(),
            !r.has_stopped(),
    {
        Transcriber { previous: String::new(), stopped: false }
    }

    /// The transcript from which words were last emitted.
    pub fn previous(&self) -> (r: &str)
        ensures
            r@ == self.previous_text(),
    {
        self.previous.as_str()
    }

    /// Whether shutdown has been observed.
    pub fn is_stopped(&self) -> (r: bool)
        ensures
            r == self.has_stopped(),
    {
        self.stopped
    }

    /// One poll of the shutdown signal, `shutdown_raised` being what it read.
    /// Returns whether the loop goes on. Once shutdown is seen the worker
    /// stays stopped, whatever later polls read.
    pub fn keep_running(&mut self, shutdown_raised: bool) -> (r: bool)
        ensures
            final(self).has_stopped() == (old(self).has_stopped() || shutdown_raised),
            final(self).previous_text() == old(self).previous_text(),
            r == !final(self).has_stopped(),
    {
        if shutdown_raised {
            self.stopped = true;
        }
        !self.stopped
    }

    /// Acts on the decoder's response to one frame: `state`, and with it the
    /// partial text (`Running`) or the final text (`Finalized`); the text is
    /// not read on `Failed`. Where the text differs from the one last acted
    /// upon, the words it brings are returned and it becomes the new
    /// baseline. A failed frame, an unchanged text, or a stopped worker
    /// emits nothing and changes nothing.
    pub fn accept(&mut self, state: DecodingState, text: &str) -> (r: Vec<String>)
        ensures
            final(self).has_stopped() == old(self).has_stopped(),
            old(self).has_stopped() || adds_nothing(old(self).previous_text(), state, text@)
                ==> r@.len() == 0 && final(self).previous_text() == old(self).previous_text(),
            !old(self).has_stopped() && !adds_nothing(old(self).previous_text(), state, text@)
                ==> views(r@) == new_words(old(self).previous_text(), text@)
                && final(self).previous_text() == text@,
    {
        if self.stopped {
            return Vec::new();
        }
        match state {
            DecodingState::Failed => Vec::new(),
            DecodingState::Running | DecodingState::Finalized => {
                let t = String::from_str(text);
                if t == self.previous {
                    Vec::new()
                } else {
                    let batch = new_words_since(self.previous.as_str(), text);
                    self.previous = t;
                    batch
                }
            },
        }
    }
}

} // verus!
