//! A two-player abstract strategy game on a 7 x 11 grid, with the rules of
//! its five piece kinds, and the bookkeeping of a Monte Carlo tree search
//! over its positions.

pub mod game;
pub mod legality;
pub mod playout;
pub mod random;
pub mod rules;
pub mod search;
pub mod state;
pub mod tree;
pub mod types;
