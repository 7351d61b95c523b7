//! A verified engine for the Tunisian card game Chkobba: cards and their
//! labels, the capture rules of a turn, the CPU opponent's heuristics, the
//! dealing of a match, the end-of-match scoreboard and the interpretation of
//! what the player types or presses.

pub mod card;
pub mod coin;
pub mod audio;
pub mod capture;
pub mod cpu;
pub mod game;
pub mod scoring;
pub mod stats;
pub mod input;
