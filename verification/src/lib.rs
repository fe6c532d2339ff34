//! Rules of a small turn-based strategy game: an adventure map with fog of war,
//! heroes with movement points, towns that hire units, and a stack-versus-stack battle.
pub mod adventure;
pub mod battle;
pub mod data;
pub mod engine;
pub mod names;
