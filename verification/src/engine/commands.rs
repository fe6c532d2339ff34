use vstd::prelude::*;

use crate::engine::hero::{adjacent, army_total, is_adjacent, ArmyFull, Hero, HeroId, UnitStack, UnitType};
use crate::engine::map::{MapObject, Position, Tile};
use crate::engine::player::{Player, PlayerId, Town, TownId};
use crate::engine::resources::ResourceBag;
use crate::engine::state::{
    hero_index, hero_keys, lemma_first_from, player_keys, town_index, town_keys, GameState,
};

verus! {

/// What a player asks the game to do.
#[derive(Debug, Clone, Copy)]
pub enum GameCommand {
    MoveHero { hero_id: HeroId, target: Position },
    CollectResource { hero_id: HeroId },
    RecruitUnits { town_id: TownId, unit_type_idx: usize, count: u32 },
    EndTurn,
}

/// What happened as a command was carried out.
#[derive(Debug, Clone, Copy, PartialEq, Eq, Structural)]
pub enum GameEvent {
    HeroMoved { hero_id: HeroId, from: Position, to: Position },
    ResourceCollected { hero_id: HeroId, amount: ResourceBag },
    BattleStarted { attacker: HeroId, defender_pos: Position },
    TurnEnded { day: u32 },
    DayIncome { player_id: PlayerId, amount: ResourceBag },
}

/// Why a command was refused.
#[derive(Debug, Clone, Copy, PartialEq, Eq, Structural)]
pub enum CommandError {
    HeroNotFound,
    NotYourHero,
    NotAdjacent,
    TileNotPassable,
    NoMovementPoints,
    NothingToCollect,
    TownNotFound,
    NotInTown,
    NotEnoughRecruitsAvailable,
    InsufficientFunds,
    ArmyFull,
}

impl From<ArmyFull> for CommandError {
    fn from(_e: ArmyFull) -> (r: Self) {
        CommandError::ArmyFull
    }
}

impl vstd::std_specs::convert::FromSpecImpl<ArmyFull> for CommandError {
    open spec fn obeys_from_spec() -> bool {
        true
    }

    open spec fn from_spec(v: ArmyFull) -> Self {
        CommandError::ArmyFull
    }
}

/// The command succeeded with exactly `events`.
pub open spec fn yields(r: Result<Vec<GameEvent>, CommandError>, events: Seq<GameEvent>) -> bool {
    r matches Ok(v) && v@ == events
}

// ---------------------------------------------------------------------------
// Rules of MoveHero
// ---------------------------------------------------------------------------

/// A neutral army stands at `pos`.
pub open spec fn neutral_at(s: GameState, pos: Position) -> bool {
    s.map.in_bounds(pos) && s.map.tile_at(pos).has_neutral_army()
}

/// Why moving `hero_id` to `target` is refused, if it is.
pub open spec fn move_error(s: GameState, hero_id: HeroId, target: Position) -> Option<CommandError> {
    let hi = hero_index(s.heroes@, hero_id);
    let pi = s.active_index();
    if hi < 0 || pi < 0 {
        Some(CommandError::HeroNotFound)
    } else if !s.players@[pi].hero_ids@.contains(hero_id) {
        Some(CommandError::NotYourHero)
    } else if !adjacent(s.heroes@[hi].position, target) {
        Some(CommandError::NotAdjacent)
    } else if neutral_at(s, target) {
        if s.heroes@[hi].movement_points == 0 {
            Some(CommandError::NoMovementPoints)
        } else {
            None
        }
    } else if !s.map.passable(target) {
        Some(CommandError::TileNotPassable)
    } else if s.heroes@[hi].movement_points == 0 {
        Some(CommandError::NoMovementPoints)
    } else {
        None
    }
}

/// The hero after a step to `target`: there, with one movement point less.
pub open spec fn stepped(h: Hero, target: Position) -> Hero {
    Hero { position: target, movement_points: (h.movement_points - 1) as u32, ..h }
}

/// What moving `hero_id` to `target` does: refused and nothing changes; a battle starts
/// and nothing changes; or the hero takes the step and nothing else changes.
pub open spec fn move_done(
    s: GameState,
    t: GameState,
    hero_id: HeroId,
    target: Position,
    r: Result<Vec<GameEvent>, CommandError>,
) -> bool {
    let hi = hero_index(s.heroes@, hero_id);
    match move_error(s, hero_id, target) {
        Some(e) => r == Err::<Vec<GameEvent>, CommandError>(e) && t == s,
        None => if neutral_at(s, target) {
            &&& yields(r, seq![GameEvent::BattleStarted { attacker: hero_id, defender_pos: target }])
            &&& t == s
        } else {
            &&& yields(
                r,
                seq![GameEvent::HeroMoved { hero_id, from: s.heroes@[hi].position, to: target }],
            )
            &&& t.heroes@ == s.heroes@.update(hi, stepped(s.heroes@[hi], target))
            &&& t.map == s.map
            &&& t.players == s.players
            &&& t.towns == s.towns
            &&& t.current_day == s.current_day
            &&& t.active_player_id == s.active_player_id
        },
    }
}

// ---------------------------------------------------------------------------
// Rules of CollectResource
// ---------------------------------------------------------------------------

/// A pile of resources lies at `pos`.
pub open spec fn pile_at(s: GameState, pos: Position) -> bool {
    s.map.in_bounds(pos) && s.map.tile_at(pos).object matches Some(MapObject::ResourcePile(_))
}

/// What the pile at `pos` holds.
pub open spec fn pile_amount(s: GameState, pos: Position) -> ResourceBag {
    match s.map.tile_at(pos).object {
        Some(MapObject::ResourcePile(b)) => b,
        _ => ResourceBag { gold: 0 },
    }
}

/// Why collecting for `hero_id` is refused, if it is.
pub open spec fn collect_error(s: GameState, hero_id: HeroId) -> Option<CommandError> {
    let hi = hero_index(s.heroes@, hero_id);
    if hi < 0 {
        Some(CommandError::HeroNotFound)
    } else if !pile_at(s, s.heroes@[hi].position) {
        Some(CommandError::NothingToCollect)
    } else {
        None
    }
}

/// The player with `amount` more gold.
pub open spec fn paid(p: Player, amount: int) -> Player {
    Player { resources: ResourceBag { gold: (p.resources.gold + amount) as u32 }, ..p }
}

/// What collecting for `hero_id` does: refused and nothing changes; or the pile under the hero
/// leaves the map and the active player gains what it held.
pub open spec fn collect_done(
    s: GameState,
    t: GameState,
    hero_id: HeroId,
    r: Result<Vec<GameEvent>, CommandError>,
) -> bool {
    let hi = hero_index(s.heroes@, hero_id);
    match collect_error(s, hero_id) {
        Some(e) => r == Err::<Vec<GameEvent>, CommandError>(e) && t == s,
        None => {
            let pos = s.heroes@[hi].position;
            let amount = pile_amount(s, pos);
            let pi = s.active_index();
            &&& yields(r, seq![GameEvent::ResourceCollected { hero_id, amount }])
            &&& t.map.tiles@ == s.map.tiles@.update(
                s.map.index_of(pos),
                Tile { object: None, ..s.map.tile_at(pos) },
            )
            &&& t.map.width == s.map.width
            &&& t.map.height == s.map.height
            &&& t.map.visibility == s.map.visibility
            &&& t.players@ == s.players@.update(pi, paid(s.players@[pi], amount.gold as int))
            &&& t.heroes == s.heroes
            &&& t.towns == s.towns
            &&& t.current_day == s.current_day
            &&& t.active_player_id == s.active_player_id
        },
    }
}


// ---------------------------------------------------------------------------
// Rules of RecruitUnits
// ---------------------------------------------------------------------------

/// Some hero named `id` stands at `pos`.
pub open spec fn stands_at(heroes: Seq<Hero>, id: HeroId, pos: Position) -> bool {
    exists|j: int| 0 <= j < heroes.len() && #[trigger] heroes[j].id == id && heroes[j].position == pos
}

/// The first of `ids`, from `k` on, that names a hero standing at `pos`, or -1.
pub open spec fn first_present(ids: Seq<HeroId>, heroes: Seq<Hero>, pos: Position, k: int) -> int
    decreases ids.len() - k,
{
    if k < 0 || k >= ids.len() {
        -1
    } else if stands_at(heroes, ids[k], pos) {
        k
    } else {
        first_present(ids, heroes, pos, k + 1)
    }
}

/// Which of the active player's hero ids recruits in the town at `pos`: the first whose hero
/// stands there, or -1.
pub open spec fn recruiter_slot(s: GameState, pos: Position) -> int {
    first_present(s.players@[s.active_index()].hero_ids@, s.heroes@, pos, 0)
}

/// The id of the hero that recruits in town `ti`.
pub open spec fn recruiter_id(s: GameState, ti: int) -> HeroId {
    s.players@[s.active_index()].hero_ids@[recruiter_slot(s, s.towns@[ti].position)]
}

/// The hiring request gets as far as pricing: the town, the player, a hero in town, and enough
/// creatures on offer are all there.
pub open spec fn recruit_priced(s: GameState, town_id: TownId, idx: usize, count: u32) -> bool {
    let ti = town_index(s.towns@, town_id);
    let pi = s.active_index();
    &&& ti >= 0
    &&& pi >= 0
    &&& recruiter_slot(s, s.towns@[ti].position) >= 0
    &&& idx < s.towns@[ti].available_recruits@.len()
    &&& s.towns@[ti].available_recruits@[idx as int].1 >= count
}

/// The gold that `count` creatures of slot `idx` of town `ti` cost.
pub open spec fn recruit_cost(s: GameState, ti: int, idx: usize, count: u32) -> int {
    s.towns@[ti].available_recruits@[idx as int].0.cost.gold * count
}

/// Why hiring `count` creatures of slot `idx` in town `town_id` is refused, if it is
/// (an army without room is told after the purchase).
pub open spec fn recruit_error(s: GameState, town_id: TownId, idx: usize, count: u32) -> Option<
    CommandError,
> {
    let ti = town_index(s.towns@, town_id);
    let pi = s.active_index();
    if ti < 0 {
        Some(CommandError::TownNotFound)
    } else if pi < 0 {
        Some(CommandError::HeroNotFound)
    } else if recruiter_slot(s, s.towns@[ti].position) < 0 {
        Some(CommandError::NotInTown)
    } else if idx >= s.towns@[ti].available_recruits@.len()
        || s.towns@[ti].available_recruits@[idx as int].1 < count {
        Some(CommandError::NotEnoughRecruitsAvailable)
    } else if s.players@[pi].resources.gold < recruit_cost(s, ti, idx, count) {
        Some(CommandError::InsufficientFunds)
    } else {
        None
    }
}

/// The stack that the hire brings: `count` unhurt creatures of the slot's type.
pub open spec fn recruited_stack(s: GameState, ti: int, idx: usize, count: u32) -> UnitStack {
    let ty = s.towns@[ti].available_recruits@[idx as int].0;
    UnitStack { unit_type: ty, count, hp_remaining: ty.hp }
}

/// `b` is town `a` with `offer` on sale.
pub open spec fn town_with_offer(a: Town, b: Town, offer: Seq<(UnitType, u32)>) -> bool {
    &&& b.id == a.id
    &&& b.position == a.position
    &&& b.garrison == a.garrison
    &&& b.income == a.income
    &&& b.daily_growth == a.daily_growth
    &&& b.available_recruits@ == offer
}

/// `b` is hero `a` commanding `stacks`.
pub open spec fn hero_with_army(a: Hero, b: Hero, stacks: Seq<UnitStack>) -> bool {
    &&& b.id == a.id
    &&& b.name == a.name
    &&& b.position == a.position
    &&& b.movement_points == a.movement_points
    &&& b.movement_points_max == a.movement_points_max
    &&& b.sight_range == a.sight_range
    &&& b.attack == a.attack
    &&& b.defense == a.defense
    &&& b.army.0@ == stacks
}

/// What hiring does: refused and nothing changes; or the player pays, the town offers `count`
/// fewer, and the stack joins the recruiting hero's army, which is refused with `ArmyFull`
/// (after the payment) when the army has no room.
pub open spec fn recruit_done(
    s: GameState,
    t: GameState,
    town_id: TownId,
    idx: usize,
    count: u32,
    r: Result<Vec<GameEvent>, CommandError>,
) -> bool {
    match recruit_error(s, town_id, idx, count) {
        Some(e) => r == Err::<Vec<GameEvent>, CommandError>(e) && t == s,
        None => {
            let ti = town_index(s.towns@, town_id);
            let pi = s.active_index();
            let hj = hero_index(s.heroes@, recruiter_id(s, ti));
            let stack = recruited_stack(s, ti, idx, count);
            let h = s.heroes@[hj];
            let town = s.towns@[ti];
            let slot = town.available_recruits@[idx as int];
            &&& t.players@ == s.players@.update(
                pi,
                paid(s.players@[pi], -recruit_cost(s, ti, idx, count)),
            )
            &&& t.towns@ == s.towns@.update(ti, t.towns@[ti])
            &&& town_with_offer(
                town,
                t.towns@[ti],
                town.available_recruits@.update(idx as int, (slot.0, (slot.1 - count) as u32)),
            )
            &&& 0 <= hj < s.heroes@.len()
            &&& t.heroes@ == s.heroes@.update(hj, t.heroes@[hj])
            &&& if h.army.has_room_for(stack) {
                yields(r, seq![]) && hero_with_army(h, t.heroes@[hj], h.army.joined(stack))
            } else {
                r == Err::<Vec<GameEvent>, CommandError>(CommandError::ArmyFull) && hero_with_army(
                    h,
                    t.heroes@[hj],
                    h.army.0@,
                )
            }
            &&& t.map == s.map
            &&& t.current_day == s.current_day
            &&& t.active_player_id == s.active_player_id
        },
    }
}

// ---------------------------------------------------------------------------
// Rules of EndTurn
// ---------------------------------------------------------------------------

/// The gold that all `towns` yield in a day.
pub open spec fn income_sum(towns: Seq<Town>) -> nat
    decreases towns.len(),
{
    if towns.len() == 0 {
        0
    } else {
        income_sum(towns.drop_last()) + towns.last().income.gold as nat
    }
}

/// One income event per town, in town order.
pub open spec fn income_events(towns: Seq<Town>, player_id: PlayerId) -> Seq<GameEvent> {
    Seq::new(towns.len(), |k: int| GameEvent::DayIncome { player_id, amount: towns[k].income })
}

/// What a town offers after a day's growth: each slot with a growth entry grows by it.
pub open spec fn grown_offer(town: Town) -> Seq<(UnitType, u32)> {
    let offer = town.available_recruits@;
    let growth = town.daily_growth@;
    Seq::new(
        offer.len(),
        |i: int|
            if i < growth.len() {
                (offer[i].0, (offer[i].1 + growth[i]) as u32)
            } else {
                offer[i]
            },
    )
}

/// Day growth keeps every offer within `u32`.
pub open spec fn growth_fits(towns: Seq<Town>) -> bool {
    forall|k: int, i: int|
        0 <= k < towns.len() && 0 <= i < towns[k].available_recruits@.len() && i
            < towns[k].daily_growth@.len() ==> #[trigger] towns[k].available_recruits@[i].1
            + #[trigger] towns[k].daily_growth@[i] <= u32::MAX
}

/// Hero `j` is the first hero of its id, and the active player owns that id.
pub open spec fn rested_at_end(s: GameState, j: int) -> bool {
    let h = s.heroes@[j];
    j == hero_index(s.heroes@, h.id) && s.players@[s.active_index()].hero_ids@.contains(h.id)
}

/// The hero with all movement points back.
pub open spec fn rested(h: Hero) -> Hero {
    Hero { movement_points: h.movement_points_max, ..h }
}

/// What ending the turn does: refused without an active player; otherwise the player's heroes
/// get their movement points back, the player receives every town's income, every town's offer
/// grows, and the next day begins.
pub open spec fn end_turn_done(s: GameState, t: GameState, r: Result<Vec<GameEvent>, CommandError>) -> bool {
    let pi = s.active_index();
    if pi < 0 {
        r == Err::<Vec<GameEvent>, CommandError>(CommandError::HeroNotFound) && t == s
    } else {
        &&& yields(
            r,
            income_events(s.towns@, s.active_player_id).push(
                GameEvent::TurnEnded { day: (s.current_day + 1) as u32 },
            ),
        )
        &&& t.heroes@.len() == s.heroes@.len()
        &&& forall|j: int|
            0 <= j < s.heroes@.len() ==> #[trigger] t.heroes@[j] == if rested_at_end(s, j) {
                rested(s.heroes@[j])
            } else {
                s.heroes@[j]
            }
        &&& t.players@ == s.players@.update(pi, paid(s.players@[pi], income_sum(s.towns@) as int))
        &&& t.towns@.len() == s.towns@.len()
        &&& forall|k: int|
            0 <= k < s.towns@.len() ==> town_with_offer(
                s.towns@[k],
                #[trigger] t.towns@[k],
                grown_offer(s.towns@[k]),
            )
        &&& t.current_day == s.current_day + 1
        &&& t.map == s.map
        &&& t.active_player_id == s.active_player_id
    }
}

// ---------------------------------------------------------------------------
// Commands as a whole
// ---------------------------------------------------------------------------

/// The command does not drive a count past `u32`: the cases in which the game would fail.
pub open spec fn command_fits(s: GameState, command: GameCommand) -> bool {
    match command {
        GameCommand::MoveHero { .. } => true,
        GameCommand::CollectResource { hero_id } => collect_error(s, hero_id) is None ==> {
            &&& s.active_index() >= 0
            &&& s.players@[s.active_index()].resources.gold + pile_amount(
                s,
                s.heroes@[hero_index(s.heroes@, hero_id)].position,
            ).gold <= u32::MAX
        },
        GameCommand::RecruitUnits { town_id, unit_type_idx, count } => {
            let ti = town_index(s.towns@, town_id);
            &&& recruit_priced(s, town_id, unit_type_idx, count) ==> recruit_cost(
                s,
                ti,
                unit_type_idx,
                count,
            ) <= u32::MAX
            &&& recruit_error(s, town_id, unit_type_idx, count) is None ==> s.heroes@[hero_index(
                s.heroes@,
                recruiter_id(s, ti),
            )].army.can_merge_count(recruited_stack(s, ti, unit_type_idx, count))
        },
        GameCommand::EndTurn => s.active_index() >= 0 ==> {
            &&& s.players@[s.active_index()].resources.gold + income_sum(s.towns@) <= u32::MAX
            &&& s.current_day < u32::MAX
            &&& growth_fits(s.towns@)
        },
    }
}

/// What `command` does to state `s`, giving state `t` and result `r`.
pub open spec fn command_done(
    s: GameState,
    t: GameState,
    command: GameCommand,
    r: Result<Vec<GameEvent>, CommandError>,
) -> bool {
    match command {
        GameCommand::MoveHero { hero_id, target } => move_done(s, t, hero_id, target, r),
        GameCommand::CollectResource { hero_id } => collect_done(s, t, hero_id, r),
        GameCommand::RecruitUnits { town_id, unit_type_idx, count } => recruit_done(
            s,
            t,
            town_id,
            unit_type_idx,
            count,
            r,
        ),
        GameCommand::EndTurn => end_turn_done(s, t, r),
    }
}

} // verus!

verus! {

pub(crate) fn ids_contain(ids: &Vec<HeroId>, id: HeroId) -> (r: bool)
    ensures
        r == ids@.contains(id),
{
    let mut i: usize = 0;
    while i < ids.len()
        invariant
            i <= ids@.len(),
            forall|j: int| 0 <= j < i ==> ids@[j] != id,
        decreases ids@.len() - i,
    {
        if ids[i] == id {
            return true;
        }
        i = i + 1;
    }
    false
}

impl GameState {
    /// Carries out `command`, or refuses it with the reason.
    pub fn apply(&mut self, command: GameCommand) -> (r: Result<Vec<GameEvent>, CommandError>)
        requires
            old(self).map.wf(),
            command_fits(*old(self), command),
        ensures
            command_done(*old(self), *final(self), command, r),
    {
        match command {
            GameCommand::MoveHero { hero_id, target } => self.cmd_move_hero(hero_id, target),
            GameCommand::CollectResource { hero_id } => self.cmd_collect_resource(hero_id),
            GameCommand::RecruitUnits { town_id, unit_type_idx, count } => self.cmd_recruit_units(
                town_id,
                unit_type_idx,
                count,
            ),
            GameCommand::EndTurn => self.cmd_end_turn(),
        }
    }

    fn cmd_move_hero(&mut self, hero_id: HeroId, target: Position) -> (r: Result<
        Vec<GameEvent>,
        CommandError,
    >)
        requires
            old(self).map.wf(),
        ensures
            move_done(*old(self), *final(self), hero_id, target, r),
    {
        let (from, mp) = match self.get_hero(hero_id) {
            Some(hero) => (hero.position, hero.movement_points),
            None => return Err(CommandError::HeroNotFound),
        };
        let owned = match self.get_player(self.active_player_id) {
            Some(player) => ids_contain(&player.hero_ids, hero_id),
            None => return Err(CommandError::HeroNotFound),
        };
        if !owned {
            return Err(CommandError::NotYourHero);
        }
        if !is_adjacent(from, target) {
            return Err(CommandError::NotAdjacent);
        }
        let defended = match self.map.get(target) {
            Some(tile) => matches!(tile.object, Some(MapObject::NeutralArmy(_))),
            None => false,
        };
        if defended {
            if mp == 0 {
                return Err(CommandError::NoMovementPoints);
            }
            let mut events: Vec<GameEvent> = Vec::new();
            events.push(GameEvent::BattleStarted { attacker: hero_id, defender_pos: target });
            return Ok(events);
        }
        if !self.map.is_passable(target) {
            return Err(CommandError::TileNotPassable);
        }
        if mp == 0 {
            return Err(CommandError::NoMovementPoints);
        }
        match self.get_hero_mut(hero_id) {
            Some(hero) => {
                hero.movement_points = hero.movement_points - 1;
                hero.position = target;
            },
            None => return Err(CommandError::HeroNotFound),
        }
        let mut events: Vec<GameEvent> = Vec::new();
        events.push(GameEvent::HeroMoved { hero_id, from, to: target });
        Ok(events)
    }

    fn cmd_collect_resource(&mut self, hero_id: HeroId) -> (r: Result<Vec<GameEvent>, CommandError>)
        requires
            old(self).map.wf(),
            command_fits(*old(self), GameCommand::CollectResource { hero_id }),
        ensures
            collect_done(*old(self), *final(self), hero_id, r),
    {
        let pos = match self.get_hero(hero_id) {
            Some(hero) => hero.position,
            None => return Err(CommandError::HeroNotFound),
        };
        let amount = match self.map.get(pos) {
            Some(tile) => match &tile.object {
                Some(MapObject::ResourcePile(bag)) => *bag,
                _ => return Err(CommandError::NothingToCollect),
            },
            None => return Err(CommandError::NothingToCollect),
        };
        if let Some(tile) = self.map.get_mut(pos) {
            tile.object = None;
        }
        let player = self.active_player_mut();
        player.resources.add(&amount);
        let mut events: Vec<GameEvent> = Vec::new();
        events.push(GameEvent::ResourceCollected { hero_id, amount });
        Ok(events)
    }
}


fn hero_stands(heroes: &Vec<Hero>, id: HeroId, pos: Position) -> (r: bool)
    ensures
        r == stands_at(heroes@, id, pos),
{
    let mut j: usize = 0;
    while j < heroes.len()
        invariant
            j <= heroes@.len(),
            forall|k: int| 0 <= k < j ==> !(#[trigger] heroes@[k].id == id && heroes@[k].position == pos),
        decreases heroes@.len() - j,
    {
        if heroes[j].id == id && heroes[j].position == pos {
            return true;
        }
        j = j + 1;
    }
    false
}

/// `first_present` finds an id whose hero stands at `pos`.
proof fn lemma_first_present(ids: Seq<HeroId>, heroes: Seq<Hero>, pos: Position, k: int)
    requires
        0 <= k,
        first_present(ids, heroes, pos, k) >= 0,
    ensures
        k <= first_present(ids, heroes, pos, k) < ids.len(),
        stands_at(heroes, ids[first_present(ids, heroes, pos, k)], pos),
    decreases ids.len() - k,
{
    if k < ids.len() && !stands_at(heroes, ids[k], pos) {
        lemma_first_present(ids, heroes, pos, k + 1);
    }
}

/// A hero named `id` exists, so the first such hero is found.
proof fn lemma_present_hero_found(heroes: Seq<Hero>, id: HeroId, j: int)
    requires
        0 <= j < heroes.len(),
        heroes[j].id == id,
    ensures
        0 <= hero_index(heroes, id) < heroes.len(),
        heroes[hero_index(heroes, id)].id == id,
{
    lemma_first_from(hero_keys(heroes), id.0, 0);
    assert(hero_keys(heroes)[j] == id.0);
}

/// `income_sum` of a prefix grows by the next town's income.
proof fn lemma_income_prefix(towns: Seq<Town>, k: int)
    requires
        0 <= k < towns.len(),
    ensures
        income_sum(towns.take(k + 1)) == income_sum(towns.take(k)) + towns[k].income.gold,
{
    assert(towns.take(k + 1).drop_last() =~= towns.take(k));
}

/// The income of a prefix of the towns is at most the income of all of them.
proof fn lemma_income_prefix_bound(towns: Seq<Town>, k: int)
    requires
        0 <= k <= towns.len(),
    ensures
        income_sum(towns.take(k)) <= income_sum(towns),
    decreases towns.len() - k,
{
    if k == towns.len() {
        assert(towns.take(k) =~= towns);
    } else {
        lemma_income_prefix(towns, k);
        lemma_income_prefix_bound(towns, k + 1);
    }
}

impl GameState {
    fn recruiter(&self, pi: usize, pos: Position) -> (r: Option<usize>)
        requires
            pi < self.players@.len(),
        ensures
            r matches Some(q) ==> q == first_present(self.players@[pi as int].hero_ids@, self.heroes@, pos, 0)
                && q < self.players@[pi as int].hero_ids@.len(),
            r is None ==> first_present(self.players@[pi as int].hero_ids@, self.heroes@, pos, 0) < 0,
    {
        let ghost ids = self.players@[pi as int].hero_ids@;
        let mut q: usize = 0;
        while q < self.players[pi].hero_ids.len()
            invariant
                pi < self.players@.len(),
                ids == self.players@[pi as int].hero_ids@,
                q <= ids.len(),
                first_present(ids, self.heroes@, pos, 0) == first_present(ids, self.heroes@, pos, q as int),
            decreases ids.len() - q,
        {
            if hero_stands(&self.heroes, self.players[pi].hero_ids[q], pos) {
                return Some(q);
            }
            q = q + 1;
        }
        None
    }

    fn cmd_recruit_units(&mut self, town_id: TownId, unit_type_idx: usize, count: u32) -> (r: Result<
        Vec<GameEvent>,
        CommandError,
    >)
        requires
            old(self).map.wf(),
            command_fits(*old(self), GameCommand::RecruitUnits { town_id, unit_type_idx, count }),
        ensures
            recruit_done(*old(self), *final(self), town_id, unit_type_idx, count, r),
    {
        let ghost s = *self;
        let ti = match self.town_slot(town_id) {
            Some(i) => i,
            None => return Err(CommandError::TownNotFound),
        };
        let town_pos = self.towns[ti].position;
        let pi = match self.player_slot(self.active_player_id) {
            Some(i) => i,
            None => return Err(CommandError::HeroNotFound),
        };
        let hero_id = match self.recruiter(pi, town_pos) {
            Some(q) => self.players[pi].hero_ids[q],
            None => return Err(CommandError::NotInTown),
        };
        proof {
            let ids = s.players@[pi as int].hero_ids@;
            let q = recruiter_slot(s, town_pos);
            lemma_first_present(ids, s.heroes@, town_pos, 0);
            let j = choose|j: int|
                0 <= j < s.heroes@.len() && #[trigger] s.heroes@[j].id == ids[q]
                    && s.heroes@[j].position == town_pos;
            lemma_present_hero_found(s.heroes@, hero_id, j);
        }
        if unit_type_idx >= self.towns[ti].available_recruits.len() {
            return Err(CommandError::NotEnoughRecruitsAvailable);
        }
        if self.towns[ti].available_recruits[unit_type_idx].1 < count {
            return Err(CommandError::NotEnoughRecruitsAvailable);
        }
        let unit_cost_gold = self.towns[ti].available_recruits[unit_type_idx].0.cost.gold;
        let total_cost = ResourceBag::gold(unit_cost_gold * count);
        if !self.players[pi].resources.can_afford(&total_cost) {
            return Err(CommandError::InsufficientFunds);
        }
        let player = self.active_player_mut();
        if player.resources.subtract(&total_cost).is_err() {
            return Err(CommandError::InsufficientFunds);
        }
        let stack = match self.get_town_mut(town_id) {
            Some(town) => {
                let left = town.available_recruits[unit_type_idx].1 - count;
                town.available_recruits[unit_type_idx].1 = left;
                let unit_type = town.available_recruits[unit_type_idx].0.clone();
                UnitStack::new(unit_type, count)
            },
            None => return Err(CommandError::TownNotFound),
        };
        match self.get_hero_mut(hero_id) {
            Some(hero) => match hero.army.add_stack(stack) {
                Ok(()) => Ok(Vec::new()),
                Err(e) => Err(CommandError::from(e)),
            },
            None => Err(CommandError::HeroNotFound),
        }
    }

    fn cmd_end_turn(&mut self) -> (r: Result<Vec<GameEvent>, CommandError>)
        requires
            old(self).map.wf(),
            command_fits(*old(self), GameCommand::EndTurn),
        ensures
            end_turn_done(*old(self), *final(self), r),
    {
        let ghost s = *self;
        let pi = match self.player_slot(self.active_player_id) {
            Some(i) => i,
            None => return Err(CommandError::HeroNotFound),
        };
        let ghost ids = s.players@[pi as int].hero_ids@;

        // Movement points come back for the player's heroes.
        let mut q: usize = 0;
        while q < self.players[pi].hero_ids.len()
            invariant
                pi == s.active_index(),
                0 <= pi < s.players@.len(),
                ids == s.players@[pi as int].hero_ids@,
                q <= ids.len(),
                self.players == s.players,
                self.map == s.map,
                self.towns == s.towns,
                self.current_day == s.current_day,
                self.active_player_id == s.active_player_id,
                self.heroes@.len() == s.heroes@.len(),
                hero_keys(self.heroes@) == hero_keys(s.heroes@),
                forall|j: int|
                    0 <= j < s.heroes@.len() ==> #[trigger] self.heroes@[j] == if j == hero_index(
                        s.heroes@,
                        s.heroes@[j].id,
                    ) && ids.take(q as int).contains(s.heroes@[j].id) {
                        rested(s.heroes@[j])
                    } else {
                        s.heroes@[j]
                    },
            decreases ids.len() - q,
        {
            let hid = self.players[pi].hero_ids[q];
            let ghost before = self.heroes@;
            proof {
                lemma_first_from(hero_keys(s.heroes@), hid.0, 0);
            }
            if let Some(hero) = self.get_hero_mut(hid) {
                hero.restore_movement();
            }
            proof {
                let hi = hero_index(s.heroes@, hid);
                if hi >= 0 {
                    assert(hero_keys(self.heroes@) =~= hero_keys(s.heroes@));
                }
                assert forall|j: int| 0 <= j < s.heroes@.len() implies #[trigger] self.heroes@[j]
                    == if j == hero_index(s.heroes@, s.heroes@[j].id) && ids.take(q + 1).contains(
                    s.heroes@[j].id,
                ) {
                    rested(s.heroes@[j])
                } else {
                    s.heroes@[j]
                } by {
                    let id = s.heroes@[j].id;
                    if ids.take(q + 1).contains(id) && !ids.take(q as int).contains(id) {
                        let m = choose|m: int| 0 <= m < q + 1 && #[trigger] ids.take(q + 1)[m] == id;
                    }
                    if ids.take(q as int).contains(id) {
                        let m = choose|m: int| 0 <= m < q && #[trigger] ids.take(q as int)[m] == id;
                    }
                    if id == hid && j == hero_index(s.heroes@, id) {
                        assert(ids.take(q + 1)[q as int] == id);
                    }
                }
            }
            q = q + 1;
        }
        assert(ids.take(ids.len() as int) =~= ids);

        // Every town pays its income to the active player.
        let mut total: u32 = 0;
        let mut events: Vec<GameEvent> = Vec::new();
        let mut k: usize = 0;
        while k < self.towns.len()
            invariant
                self.towns == s.towns,
                0 <= pi < s.players@.len(),
                pi == s.active_index(),
                self.active_player_id == s.active_player_id,
                s.players@[pi as int].resources.gold + income_sum(s.towns@) <= u32::MAX,
                k <= s.towns@.len(),
                total == income_sum(s.towns@.take(k as int)),
                events@ == Seq::new(
                    k as nat,
                    |i: int|
                        GameEvent::DayIncome {
                            player_id: s.active_player_id,
                            amount: s.towns@[i].income,
                        },
                ),
            decreases s.towns@.len() - k,
        {
            proof {
                lemma_income_prefix(s.towns@, k as int);
                lemma_income_prefix_bound(s.towns@, k + 1);
            }
            let income = self.towns[k].income;
            total = total + income.gold;
            events.push(GameEvent::DayIncome { player_id: self.active_player_id, amount: income });
            k = k + 1;
        }
        assert(s.towns@.take(k as int) =~= s.towns@);
        let player = self.active_player_mut();
        player.resources.add(&ResourceBag::gold(total));

        // Every town's offer grows.
        let ghost paid_state = *self;
        let mut k: usize = 0;
        while k < self.towns.len()
            invariant
                self.towns@.len() == s.towns@.len(),
                self.players == paid_state.players,
                self.heroes == paid_state.heroes,
                self.map == paid_state.map,
                self.current_day == s.current_day,
                self.active_player_id == s.active_player_id,
                s.current_day < u32::MAX,
                events@ == Seq::new(
                    s.towns@.len(),
                    |i: int|
                        GameEvent::DayIncome {
                            player_id: s.active_player_id,
                            amount: s.towns@[i].income,
                        },
                ),
                k <= s.towns@.len(),
                growth_fits(s.towns@),
                forall|t: int|
                    0 <= t < k ==> town_with_offer(
                        s.towns@[t],
                        #[trigger] self.towns@[t],
                        grown_offer(s.towns@[t]),
                    ),
                forall|t: int| k <= t < s.towns@.len() ==> #[trigger] self.towns@[t] == s.towns@[t],
            decreases s.towns@.len() - k,
        {
            let glen = self.towns[k].daily_growth.len();
            let ghost town0 = s.towns@[k as int];
            proof {
                assert(self.towns@[k as int].available_recruits@ =~= Seq::new(
                    town0.available_recruits@.len(),
                    |j: int|
                        if j < 0 {
                            grown_offer(town0)[j]
                        } else {
                            town0.available_recruits@[j]
                        },
                ));
            }
            let mut i: usize = 0;
            while i < glen
                invariant
                    self.players == paid_state.players,
                    self.heroes == paid_state.heroes,
                    self.map == paid_state.map,
                    self.current_day == s.current_day,
                    self.active_player_id == s.active_player_id,
                    self.towns@.len() == s.towns@.len(),
                    k < s.towns@.len(),
                    town0 == s.towns@[k as int],
                    glen == town0.daily_growth@.len(),
                    i <= glen,
                    growth_fits(s.towns@),
                    forall|t: int|
                        0 <= t < k ==> town_with_offer(
                            s.towns@[t],
                            #[trigger] self.towns@[t],
                            grown_offer(s.towns@[t]),
                        ),
                    forall|t: int| k < t < s.towns@.len() ==> #[trigger] self.towns@[t] == s.towns@[t],
                    town_with_offer(
                        town0,
                        self.towns@[k as int],
                        Seq::new(
                            town0.available_recruits@.len(),
                            |j: int|
                                if j < i {
                                    grown_offer(town0)[j]
                                } else {
                                    town0.available_recruits@[j]
                                },
                        ),
                    ),
                decreases glen - i,
            {
                if i < self.towns[k].available_recruits.len() {
                    let g = self.towns[k].daily_growth[i];
                    let c = self.towns[k].available_recruits[i].1;
                    self.towns[k].available_recruits[i].1 = c + g;
                }
                proof {
                    assert(self.towns@[k as int].available_recruits@ =~= Seq::new(
                        town0.available_recruits@.len(),
                        |j: int|
                            if j < i + 1 {
                                grown_offer(town0)[j]
                            } else {
                                town0.available_recruits@[j]
                            },
                    ));
                }
                i = i + 1;
            }
            proof {
                assert(self.towns@[k as int].available_recruits@ =~= grown_offer(town0));
            }
            k = k + 1;
        }

        // The next day begins.
        self.current_day = self.current_day + 1;
        events.push(GameEvent::TurnEnded { day: self.current_day });
        proof {
            assert(events@ =~= income_events(s.towns@, s.active_player_id).push(
                GameEvent::TurnEnded { day: (s.current_day + 1) as u32 },
            ));
        }
        Ok(events)
    }
}

} // verus!

verus! {

/// A refused command changes nothing; the one exception is a hire refused for want of room in
/// the army, which has already been paid for.
pub proof fn lemma_refusal_changes_nothing(
    s: GameState,
    t: GameState,
    command: GameCommand,
    r: Result<Vec<GameEvent>, CommandError>,
)
    requires
        command_done(s, t, command, r),
        r is Err,
        r != Err::<Vec<GameEvent>, CommandError>(CommandError::ArmyFull),
    ensures
        t == s,
{
}

/// A step that is carried out lands the hero on the target, next to where it stood, for
/// exactly one movement point; a step onto a neutral army starts a battle and moves nobody.
pub proof fn lemma_step_costs_one_point(
    s: GameState,
    t: GameState,
    hero_id: HeroId,
    target: Position,
    r: Result<Vec<GameEvent>, CommandError>,
)
    requires
        command_done(s, t, GameCommand::MoveHero { hero_id, target }, r),
        r is Ok,
    ensures
        neutral_at(s, target) ==> t == s,
        !neutral_at(s, target) ==> {
            let hi = hero_index(s.heroes@, hero_id);
            &&& 0 <= hi < s.heroes@.len()
            &&& adjacent(s.heroes@[hi].position, target)
            &&& t.heroes@[hi].position == target
            &&& t.heroes@[hi].movement_points + 1 == s.heroes@[hi].movement_points
        },
{
    lemma_first_from(hero_keys(s.heroes@), hero_id.0, 0);
}

/// Collecting moves the pile's gold into the active player's purse: the purse grows by what
/// the pile held, and the pile is gone.
pub proof fn lemma_collect_moves_gold(
    s: GameState,
    t: GameState,
    hero_id: HeroId,
    r: Result<Vec<GameEvent>, CommandError>,
)
    requires
        command_done(s, t, GameCommand::CollectResource { hero_id }, r),
        command_fits(s, GameCommand::CollectResource { hero_id }),
        r is Ok,
        s.map.wf(),
    ensures
        ({
            let pos = s.heroes@[hero_index(s.heroes@, hero_id)].position;
            let pi = s.active_index();
            &&& t.players@[pi].resources.gold == s.players@[pi].resources.gold + pile_amount(
                s,
                pos,
            ).gold
            &&& t.map.tile_at(pos).object is None
        }),
{
    lemma_first_from(hero_keys(s.heroes@), hero_id.0, 0);
    lemma_first_from(player_keys(s.players@), s.active_player_id.0, 0);
    let pos = s.heroes@[hero_index(s.heroes@, hero_id)].position;
    crate::engine::map::lemma_cell_index(
        s.map.width as int,
        s.map.height as int,
        pos.x as int,
        pos.y as int,
    );
}

/// A hire that is carried out takes `count × cost` gold from the player and `count`
/// creatures from the town's offer, and the recruiting hero's army gains exactly `count`
/// creatures when it has room.
pub proof fn lemma_recruit_conserves(
    s: GameState,
    t: GameState,
    town_id: TownId,
    idx: usize,
    count: u32,
    r: Result<Vec<GameEvent>, CommandError>,
)
    requires
        command_done(s, t, GameCommand::RecruitUnits { town_id, unit_type_idx: idx, count }, r),
        command_fits(s, GameCommand::RecruitUnits { town_id, unit_type_idx: idx, count }),
        recruit_error(s, town_id, idx, count) is None,
    ensures
        ({
            let ti = town_index(s.towns@, town_id);
            let pi = s.active_index();
            let hj = hero_index(s.heroes@, recruiter_id(s, ti));
            &&& t.players@[pi].resources.gold + recruit_cost(s, ti, idx, count)
                == s.players@[pi].resources.gold
            &&& t.towns@[ti].available_recruits@[idx as int].1 + count
                == s.towns@[ti].available_recruits@[idx as int].1
            &&& r is Ok ==> army_total(t.heroes@[hj].army.0@) == army_total(
                s.heroes@[hj].army.0@,
            ) + count
            &&& r is Err ==> army_total(t.heroes@[hj].army.0@) == army_total(
                s.heroes@[hj].army.0@,
            )
        }),
{
    let ti = town_index(s.towns@, town_id);
    let hj = hero_index(s.heroes@, recruiter_id(s, ti));
    let stack = recruited_stack(s, ti, idx, count);
    lemma_first_from(town_keys(s.towns@), town_id.0, 0);
    lemma_first_from(player_keys(s.players@), s.active_player_id.0, 0);
    crate::engine::hero::lemma_join_total(s.heroes@[hj].army.0@, stack);
}

/// After the turn ends, every hero of the active player has all its movement points back, the
/// player has every town's income, and the day has advanced by one.
pub proof fn lemma_end_turn_rests(s: GameState, t: GameState, r: Result<Vec<GameEvent>, CommandError>)
    requires
        command_done(s, t, GameCommand::EndTurn, r),
        command_fits(s, GameCommand::EndTurn),
        s.active_index() >= 0,
    ensures
        r is Ok,
        t.current_day == s.current_day + 1,
        t.players@[s.active_index()].resources.gold == s.players@[s.active_index()].resources.gold
            + income_sum(s.towns@),
        forall|j: int|
            0 <= j < s.heroes@.len() && rested_at_end(s, j) ==> #[trigger] t.heroes@[j].movement_points
                == t.heroes@[j].movement_points_max,
{
    lemma_first_from(player_keys(s.players@), s.active_player_id.0, 0);
}

} // verus!

verus! {

impl GameState {
    fn collect_fits(&self, hero_id: HeroId) -> (r: bool)
        requires
            self.map.wf(),
        ensures
            r == command_fits(*self, GameCommand::CollectResource { hero_id }),
    {
        let pos = match self.get_hero(hero_id) {
            Some(hero) => hero.position,
            None => return true,
        };
        let amount = match self.map.get(pos) {
            Some(tile) => match &tile.object {
                Some(MapObject::ResourcePile(bag)) => bag.gold,
                _ => return true,
            },
            None => return true,
        };
        match self.get_player(self.active_player_id) {
            Some(player) => player.resources.gold as u64 + amount as u64 <= u32::MAX as u64,
            None => false,
        }
    }

    fn recruit_fits(&self, town_id: TownId, idx: usize, count: u32) -> (r: bool)
        requires
            self.map.wf(),
        ensures
            r == command_fits(
                *self,
                GameCommand::RecruitUnits { town_id, unit_type_idx: idx, count },
            ),
    {
        let ti = match self.town_slot(town_id) {
            Some(i) => i,
            None => return true,
        };
        let pi = match self.player_slot(self.active_player_id) {
            Some(i) => i,
            None => return true,
        };
        let town_pos = self.towns[ti].position;
        let q = match self.recruiter(pi, town_pos) {
            Some(q) => q,
            None => return true,
        };
        if idx >= self.towns[ti].available_recruits.len() {
            return true;
        }
        if self.towns[ti].available_recruits[idx].1 < count {
            return true;
        }
        let unit_cost = self.towns[ti].available_recruits[idx].0.cost.gold as u64;
        assert(unit_cost * count <= u32::MAX * u32::MAX) by (nonlinear_arith)
            requires
                unit_cost <= u32::MAX,
                count <= u32::MAX,
        ;
        let cost = unit_cost * count as u64;
        if cost > u32::MAX as u64 {
            return false;
        }
        if (self.players[pi].resources.gold as u64) < cost {
            return true;
        }
        let hero_id = self.players[pi].hero_ids[q];
        proof {
            let s = *self;
            let ids = s.players@[pi as int].hero_ids@;
            lemma_first_present(ids, s.heroes@, town_pos, 0);
            let j = choose|j: int|
                0 <= j < s.heroes@.len() && #[trigger] s.heroes@[j].id == ids[q as int]
                    && s.heroes@[j].position == town_pos;
            lemma_present_hero_found(s.heroes@, hero_id, j);
        }
        let unit_type = self.towns[ti].available_recruits[idx].0.clone();
        let stack = UnitStack::new(unit_type, count);
        match self.get_hero(hero_id) {
            Some(hero) => hero.army.can_merge(&stack),
            None => true,
        }
    }

    fn end_turn_fits(&self) -> (r: bool)
        requires
            self.map.wf(),
        ensures
            r == command_fits(*self, GameCommand::EndTurn),
    {
        let pi = match self.player_slot(self.active_player_id) {
            Some(i) => i,
            None => return true,
        };
        if self.current_day == u32::MAX {
            return false;
        }
        let towns = &self.towns;
        let mut sum: u64 = self.players[pi].resources.gold as u64;
        let mut k: usize = 0;
        while k < towns.len()
            invariant
                k <= towns@.len(),
                towns@ == self.towns@,
                pi == self.active_index(),
                0 <= pi < self.players@.len(),
                sum == self.players@[pi as int].resources.gold + income_sum(towns@.take(k as int)),
                sum <= u32::MAX,
            decreases towns@.len() - k,
        {
            proof {
                lemma_income_prefix(towns@, k as int);
                lemma_income_prefix_bound(towns@, k + 1);
            }
            sum = sum + towns[k].income.gold as u64;
            if sum > u32::MAX as u64 {
                return false;
            }
            k = k + 1;
        }
        assert(towns@.take(k as int) =~= towns@);
        let mut k: usize = 0;
        while k < towns.len()
            invariant
                k <= towns@.len(),
                towns@ == self.towns@,
                pi == self.active_index(),
                0 <= pi < self.players@.len(),
                self.current_day < u32::MAX,
                self.players@[pi as int].resources.gold + income_sum(self.towns@) <= u32::MAX,
                forall|a: int, i: int|
                    0 <= a < k && 0 <= i < towns@[a].available_recruits@.len() && i
                        < towns@[a].daily_growth@.len() ==> #[trigger] towns@[a].available_recruits@[i].1
                        + #[trigger] towns@[a].daily_growth@[i] <= u32::MAX,
            decreases towns@.len() - k,
        {
            let town = &towns[k];
            let mut i: usize = 0;
            while i < town.available_recruits.len() && i < town.daily_growth.len()
                invariant
                    k < towns@.len(),
                    towns@ == self.towns@,
                    pi == self.active_index(),
                    0 <= pi < self.players@.len(),
                    *town == towns@[k as int],
                    i <= town.available_recruits@.len(),
                    i <= town.daily_growth@.len(),
                    forall|a: int, j: int|
                        0 <= a < k && 0 <= j < towns@[a].available_recruits@.len() && j
                            < towns@[a].daily_growth@.len() ==> #[trigger] towns@[a].available_recruits@[j].1
                            + #[trigger] towns@[a].daily_growth@[j] <= u32::MAX,
                    forall|j: int|
                        0 <= j < i ==> #[trigger] town.available_recruits@[j].1
                            + town.daily_growth@[j] <= u32::MAX,
                decreases town.available_recruits@.len() - i,
            {
                if town.available_recruits[i].1 as u64 + town.daily_growth[i] as u64 > u32::MAX as u64 {
                    assert(!growth_fits(self.towns@)) by {
                        assert(towns@[k as int].available_recruits@[i as int].1
                            + towns@[k as int].daily_growth@[i as int] > u32::MAX);
                    }
                    return false;
                }
                i = i + 1;
            }
            k = k + 1;
        }
        true
    }

    /// Whether `command` can be carried out without a count passing `u32`: `command_fits`,
    /// tested.
    pub fn can_carry_out(&self, command: GameCommand) -> (r: bool)
        requires
            self.map.wf(),
        ensures
            r == command_fits(*self, command),
    {
        match command {
            GameCommand::MoveHero { .. } => true,
            GameCommand::CollectResource { hero_id } => self.collect_fits(hero_id),
            GameCommand::RecruitUnits { town_id, unit_type_idx, count } => self.recruit_fits(
                town_id,
                unit_type_idx,
                count,
            ),
            GameCommand::EndTurn => self.end_turn_fits(),
        }
    }
}

} // verus!

verus! {

/// Ending the turn grows every slot of every town's offer by the slot's daily growth (a slot
/// without a growth entry stays as it was), keeps what each slot offers, and keeps each town's
/// growth.
pub proof fn lemma_end_turn_grows_offers(
    s: GameState,
    t: GameState,
    r: Result<Vec<GameEvent>, CommandError>,
)
    requires
        command_done(s, t, GameCommand::EndTurn, r),
        command_fits(s, GameCommand::EndTurn),
        s.active_index() >= 0,
    ensures
        t.towns@.len() == s.towns@.len(),
        forall|k: int|
            0 <= k < s.towns@.len() ==> (#[trigger] t.towns@[k]).available_recruits@.len()
                == s.towns@[k].available_recruits@.len() && t.towns@[k].daily_growth
                == s.towns@[k].daily_growth,
        forall|k: int, i: int|
            0 <= k < s.towns@.len() && 0 <= i < s.towns@[k].available_recruits@.len() ==> {
                let before = s.towns@[k].available_recruits@[i];
                let after = #[trigger] t.towns@[k].available_recruits@[i];
                &&& after.0 == before.0
                &&& after.1 == before.1 + if i < s.towns@[k].daily_growth@.len() {
                    s.towns@[k].daily_growth@[i] as int
                } else {
                    0int
                }
            },
{
    assert forall|k: int, i: int|
        0 <= k < s.towns@.len() && 0 <= i < s.towns@[k].available_recruits@.len() implies {
            let before = s.towns@[k].available_recruits@[i];
            let after = #[trigger] t.towns@[k].available_recruits@[i];
            &&& after.0 == before.0
            &&& after.1 == before.1 + if i < s.towns@[k].daily_growth@.len() {
                s.towns@[k].daily_growth@[i] as int
            } else {
                0int
            }
        } by {
        assert(town_with_offer(s.towns@[k], t.towns@[k], grown_offer(s.towns@[k])));
        if i < s.towns@[k].daily_growth@.len() {
            assert(s.towns@[k].available_recruits@[i].1 + s.towns@[k].daily_growth@[i] <= u32::MAX);
        }
    }
    assert forall|k: int| 0 <= k < s.towns@.len() implies (#[trigger] t.towns@[k]).available_recruits@.len()
        == s.towns@[k].available_recruits@.len() && t.towns@[k].daily_growth
        == s.towns@[k].daily_growth by {
        assert(town_with_offer(s.towns@[k], t.towns@[k], grown_offer(s.towns@[k])));
    }
}

} // verus!
