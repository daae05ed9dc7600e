//! Game logic of a chain-letter word game: letters made of blessings and
//! curses, the bag of word cubes that fall on screen, and the rules that
//! decide what a submitted word does.

pub mod rng;
pub mod text;
pub mod shuffle;
pub mod spawning;
pub mod letters;
pub mod sound;
pub mod input;
pub mod word_checks;
