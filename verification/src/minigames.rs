//! The pure rules of the companion minigames: card games, a grid search, a
//! route-memory grid, a spreading-threat board and an order-memory check.

pub mod cards;
pub mod vingt_un;
pub mod faro;
pub mod hot_cold;
pub mod crowd_threading;
pub mod sequence;
pub mod grid;
pub mod bucket_brigade;
pub mod steady_hands;
pub mod hunter;
