//! Voice-driven "recite pi" game: turns captured audio into mono PCM frames,
//! turns a speech decoder's evolving transcript into batches of new words, and
//! scores the recited digits against pi.
pub mod normalize;
pub mod words;
pub mod worker;
pub mod game;

