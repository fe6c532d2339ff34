//! Stack-versus-stack battles: the battle state and its rules, and the defenders' play.
pub mod ai;
pub mod flow;
pub mod state;
