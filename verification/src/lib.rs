//! A terminal word-guessing game, verified: a word is drawn at random from a
//! word list, the player guesses single letters, and the round tracks revealed
//! positions, incorrect attempts and a limited guess budget until the word is
//! fully revealed or the budget is exhausted.

pub mod game;
pub mod words;
