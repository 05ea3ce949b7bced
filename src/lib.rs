//! A configurable-board variant of Mancala: the sowing rule, and strategies that pick
//! moves by searching the game tree.
pub mod game;
pub mod strategy;
pub mod bout;
