//! A vocabulary-quiz core: fill-in-the-blank questions built from
//! `word:meaning` lines, and a sequencer that walks through them.

pub mod exercise;
pub mod question;
pub mod text;
mod rng;
