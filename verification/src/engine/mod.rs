//! The game model: resources, units and heroes, the adventure map, players and towns,
//! the whole game state and the commands that change it.
pub mod commands;
pub mod hero;
pub mod map;
pub mod player;
pub mod resources;
pub mod state;
