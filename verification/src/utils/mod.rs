//! Splitting user input into words, and finding a redirection target.
pub mod string;
