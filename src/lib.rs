//! Rules engine for a Wizard-style trick-taking card game: the cards, the deck,
//! and the evaluation of who wins a trick.

pub mod card;
pub mod game;
pub mod player;
