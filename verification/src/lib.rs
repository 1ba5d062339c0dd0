//! A rapid-serial-visual-presentation (RSVP) reading engine.
//!
//! The crate turns raw per-page text into an ordered word sequence and
//! drives a cursor through it at a configurable words-per-minute rate, one
//! chunk of words per pacing interval. [`engine::RsvpEngine`] owns the
//! document, the cursor and the pacing state; [`pdf`] brings a binary PDF in
//! through the lopdf crate; [`laws`] proves how whole runs of ticks behave.

pub mod document;
pub mod engine;
pub mod laws;
pub mod pacing;
pub mod pdf;
pub mod tokenizer;
