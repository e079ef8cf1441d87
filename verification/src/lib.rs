//! Counting bytes, lines, words and characters of a text, in the manner of `wc`.

pub mod args;
pub mod command;
pub mod count;
pub mod decimal;
pub mod error;
pub mod mode;
pub mod scalar;
pub mod whitespace;
