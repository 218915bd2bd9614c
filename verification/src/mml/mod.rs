//! The notation itself: its tokens, its commands and its parser.

pub mod ast;
pub mod duration;
pub mod error;
pub mod expand;
pub mod file;
pub mod grammar;
pub mod natural;
pub mod parser;
pub mod token;
pub mod tokenizer;

pub use ast::{
    Accidental, Command, CommandView, DefaultLength, Duration, Mml, Note, NoteView, Octave, Pitch,
    Rest, RestView, Tempo, TiedDuration, TiedDurationView, Volume, VolumeValue,
};
pub use duration::{Fraction, Ratio};
pub use error::{ParseError, ParseErrorView};
pub use file::extract_mml;
pub use parser::{expand_loop, parse, Parser};
pub use token::{Token, TokenWithPos};
pub use tokenizer::tokenize;
