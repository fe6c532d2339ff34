use vstd::prelude::*;

use crate::engine::hero::{Army, HeroId, UnitType};
use crate::engine::map::Position;
use crate::engine::resources::ResourceBag;

verus! {

/// Names a player.
#[derive(Debug, Clone, Copy, PartialEq, Eq, Hash, Structural)]
pub struct PlayerId(pub u32);

/// Names a town.
#[derive(Debug, Clone, Copy, PartialEq, Eq, Hash, Structural)]
pub struct TownId(pub u32);

} // verus!

verus! {

/// A town on the map: its garrison, the creatures it offers for hire, and what it yields daily.
#[derive(Debug, Clone)]
pub struct Town {
    pub id: TownId,
    pub position: Position,
    pub garrison: Army,
    /// The creatures that can be hired here: (type, how many are on offer).
    pub available_recruits: Vec<(UnitType, u32)>,
    /// The gold the active player receives from this town at the end of each day.
    pub income: ResourceBag,
    /// How many creatures join each slot of `available_recruits` at the end of each day.
    pub daily_growth: Vec<u32>,
}

impl Town {
    /// A town that offers nothing for hire yet.
    pub fn new(id: TownId, position: Position, income: ResourceBag) -> (r: Self)
        ensures
            r.id == id,
            r.position == position,
            r.income == income,
            r.garrison.0@.len() == 0,
            r.available_recruits@.len() == 0,
            r.daily_growth@.len() == 0,
    {
        Self {
            id,
            position,
            garrison: Army::new(),
            available_recruits: Vec::new(),
            income,
            daily_growth: Vec::new(),
        }
    }
}

/// A player: the resources it owns and the heroes it commands.
#[derive(Debug, Clone)]
pub struct Player {
    pub id: PlayerId,
    pub resources: ResourceBag,
    pub hero_ids: Vec<HeroId>,
}

impl Player {
    /// A player without gold or heroes.
    pub fn new(id: PlayerId) -> (r: Self)
        ensures
            r.id == id,
            r.resources.gold == 0,
            r.hero_ids@.len() == 0,
    {
        Self { id, resources: ResourceBag::gold(0), hero_ids: Vec::new() }
    }
}

} // verus!
