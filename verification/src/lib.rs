//! Core model of a live song-lyrics presentation session: a markup parser
//! that turns a lyrics blob into an ordered verse sequence, a `Song` with a
//! bounded navigation cursor, and a `Service` state machine that tracks the
//! running set list and the two presentation channels.

pub mod parser;
pub mod search;
pub mod service;
pub mod song;
pub mod text;

pub use song::{Book, Lyrics, NavOp, Song, Verse, VerseType};
pub use service::{Content, Service, Sort, Status};
pub use parser::FormatError;
