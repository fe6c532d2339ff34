//! What the adventure screen decides: where a hero's step leads (a town, a battle, or on),
//! which tiles the hero can step to, and who the active hero is.
use vstd::prelude::*;

use crate::engine::commands::{
    collect_error, ids_contain, move_error, neutral_at, paid, pile_amount, pile_at, stepped,
    GameCommand, GameEvent,
};
use crate::engine::hero::is_adjacent;
use crate::engine::hero::{Army, HeroId, UnitStack};
use crate::engine::map::{fog_after, update_visibility, AdventureMap, MapObject, Position, Tile};
use crate::engine::player::TownId;
use crate::engine::state::{hero_index, hero_keys, lemma_first_from, GameState};

verus! {

/// A battle about to begin: the hero who attacks, the neutral army it meets, and where.
#[derive(Debug)]
pub struct PendingBattle {
    pub attacker_hero_id: HeroId,
    pub defender_army: Army,
    pub defender_pos: Position,
}

/// Where a step on the adventure map leads.
#[derive(Debug)]
pub enum MoveOutcome {
    /// The hero entered a town.
    Town(TownId),
    /// The hero attacks a neutral army.
    Battle(PendingBattle),
    /// Nothing more to do.
    Nothing,
}

/// The fog can be refreshed for a hero at `pos` with sight `range` without leaving `i32`.
pub open spec fn fog_fits(range: u32, pos: Position) -> bool {
    &&& range <= 32767
    &&& i32::MIN <= pos.x - range
    &&& pos.x + range <= i32::MAX
    &&& i32::MIN <= pos.y - range
    &&& pos.y + range <= i32::MAX
}

/// The stacks of the neutral army at `pos`, if one stands there.
pub open spec fn neutral_stacks(s: GameState, pos: Position) -> Seq<UnitStack> {
    match s.map.tile_at(pos).object {
        Some(MapObject::NeutralArmy(a)) => a.0@,
        _ => Seq::empty(),
    }
}

/// A town stands at `pos`.
pub open spec fn town_at(s: GameState, pos: Position) -> bool {
    s.map.in_bounds(pos) && s.map.tile_at(pos).object matches Some(MapObject::Town(_))
}

/// The step of `hero_id` to `target` can be carried through: the fog can be refreshed where the
/// hero ends up, and a pile collected on arrival fits the player's purse.
pub open spec fn step_fits(s: GameState, hero_id: HeroId, target: Position) -> bool {
    let hi = hero_index(s.heroes@, hero_id);
    let h = s.heroes@[hi];
    move_error(s, hero_id, target) is None ==> if neutral_at(s, target) {
        fog_fits(h.sight_range, h.position)
    } else {
        &&& fog_fits(h.sight_range, target)
        &&& pile_at(s, target) ==> s.active_index() >= 0 && s.players@[s.active_index()].resources.gold
            + pile_amount(s, target).gold <= u32::MAX
    }
}

/// The state after `hero_id` steps towards `target`: unchanged when refused; after a battle
/// starts, only the fog around the hero is refreshed; after a step, the hero stands on `target`
/// with one point less, the fog is refreshed around it, and a pile there is collected.
pub open spec fn step_state(s: GameState, t: GameState, hero_id: HeroId, target: Position) -> bool {
    let hi = hero_index(s.heroes@, hero_id);
    let h = s.heroes@[hi];
    match move_error(s, hero_id, target) {
        Some(_) => t == s,
        None => if neutral_at(s, target) {
            &&& t.map.visibility@ == fog_after(
                s.map.visibility@,
                s.map.width,
                h.position,
                h.sight_range,
            )
            &&& t.map.tiles == s.map.tiles
            &&& t.map.width == s.map.width
            &&& t.map.height == s.map.height
            &&& t.heroes == s.heroes
            &&& t.players == s.players
            &&& t.towns == s.towns
            &&& t.current_day == s.current_day
            &&& t.active_player_id == s.active_player_id
        } else {
            let pi = s.active_index();
            &&& t.map.visibility@ == fog_after(s.map.visibility@, s.map.width, target, h.sight_range)
            &&& t.map.width == s.map.width
            &&& t.map.height == s.map.height
            &&& t.heroes@ == s.heroes@.update(hi, stepped(h, target))
            &&& t.towns == s.towns
            &&& t.current_day == s.current_day
            &&& t.active_player_id == s.active_player_id
            &&& if pile_at(s, target) {
                &&& t.map.tiles@ == s.map.tiles@.update(
                    s.map.index_of(target),
                    Tile { object: None, ..s.map.tile_at(target) },
                )
                &&& t.players@ == s.players@.update(
                    pi,
                    paid(s.players@[pi], pile_amount(s, target).gold as int),
                )
            } else {
                t.map.tiles == s.map.tiles && t.players == s.players
            }
        },
    }
}

/// Where the step of `hero_id` towards `target` leads: nowhere when refused; into battle with
/// the neutral army on `target` when the hero has creatures left, else nowhere; into the town
/// on `target`; or nowhere.
pub open spec fn step_outcome(s: GameState, hero_id: HeroId, target: Position, r: MoveOutcome) -> bool {
    let h = s.heroes@[hero_index(s.heroes@, hero_id)];
    match move_error(s, hero_id, target) {
        Some(_) => r is Nothing,
        None => if neutral_at(s, target) {
            &&& (r is Battle <==> !h.army.defeated())
            &&& (r is Nothing <==> h.army.defeated())
            &&& r matches MoveOutcome::Battle(pb) ==> {
                &&& pb.attacker_hero_id == hero_id
                &&& pb.defender_pos == target
                &&& pb.defender_army.0@ == neutral_stacks(s, target)
            }
        } else {
            &&& (r is Town <==> town_at(s, target))
            &&& (r is Nothing <==> !town_at(s, target))
            &&& r matches MoveOutcome::Town(id) ==> s.map.tile_at(target).object == Some(
                MapObject::Town(id),
            )
        },
    }
}

/// A battle that a step starts is fought against the whole neutral army on the target tile:
/// the same stacks, in the same order.
pub proof fn lemma_battle_against_whole_army(
    s: GameState,
    hero_id: HeroId,
    target: Position,
    r: MoveOutcome,
)
    requires
        step_outcome(s, hero_id, target, r),
    ensures
        r matches MoveOutcome::Battle(pb) ==> (s.map.tile_at(target).object matches Some(
            MapObject::NeutralArmy(a),
        ) && pb.defender_army.0@ == a.0@),
{
}

/// Moves `hero_id` one step towards `target`, refreshes the fog around the hero, and says where
/// the step leads: into a town, into a battle with the neutral army on `target` (only when the
/// hero has creatures to fight with), or nowhere special, collecting a pile found on arrival.
/// A refused step changes nothing.
pub fn apply_move(gs: &mut GameState, hero_id: HeroId, target: Position) -> (r: MoveOutcome)
    requires
        old(gs).map.wf(),
        step_fits(*old(gs), hero_id, target),
    ensures
        step_state(*old(gs), *final(gs), hero_id, target),
        step_outcome(*old(gs), hero_id, target, r),
        r matches MoveOutcome::Battle(pb) ==> (old(gs).map.tile_at(target).object matches Some(
            MapObject::NeutralArmy(a),
        ) && pb.defender_army.0@ == a.0@),
{
    let ghost s = *gs;
    let events = match gs.apply(GameCommand::MoveHero { hero_id, target }) {
        Ok(events) => events,
        Err(_) => return MoveOutcome::Nothing,
    };
    proof {
        lemma_first_from(hero_keys(s.heroes@), hero_id.0, 0);
        if !neutral_at(s, target) {
            let hi = hero_index(s.heroes@, hero_id);
            assert(hero_keys(gs.heroes@) =~= hero_keys(s.heroes@));
        }
    }
    let (pos, range) = match gs.get_hero(hero_id) {
        Some(hero) => (hero.position, hero.sight_range),
        None => return MoveOutcome::Nothing,
    };
    update_visibility(&mut gs.map, pos, range);
    let ghost settled = *gs;
    let ghost events0 = events@;
    let mut i: usize = 0;
    while i < events.len()
        invariant
            s == *old(gs),
            *gs == settled,
            gs.map.wf(),
            events@ == events0,
            move_error(s, hero_id, target) is None,
            neutral_at(s, target) ==> events0 == seq![
                GameEvent::BattleStarted { attacker: hero_id, defender_pos: target },
            ],
            !neutral_at(s, target) ==> events0 == seq![
                GameEvent::HeroMoved {
                    hero_id,
                    from: s.heroes@[hero_index(s.heroes@, hero_id)].position,
                    to: target,
                },
            ],
            neutral_at(s, target) ==> step_state(s, settled, hero_id, target),
            !neutral_at(s, target) ==> {
                &&& settled.map.visibility@ == fog_after(
                    s.map.visibility@,
                    s.map.width,
                    target,
                    s.heroes@[hero_index(s.heroes@, hero_id)].sight_range,
                )
                &&& settled.map.width == s.map.width
                &&& settled.map.height == s.map.height
                &&& settled.map.tiles == s.map.tiles
                &&& settled.heroes@ == s.heroes@.update(
                    hero_index(s.heroes@, hero_id),
                    stepped(s.heroes@[hero_index(s.heroes@, hero_id)], target),
                )
                &&& 0 <= hero_index(s.heroes@, hero_id) < s.heroes@.len()
                &&& hero_keys(settled.heroes@) == hero_keys(s.heroes@)
                &&& settled.players == s.players
                &&& settled.towns == s.towns
                &&& settled.current_day == s.current_day
                &&& settled.active_player_id == s.active_player_id
            },
            i <= events@.len(),
            forall|j: int| 0 <= j < i ==> !(#[trigger] events@[j] is BattleStarted),
        decreases events@.len() - i,
    {
        if let GameEvent::BattleStarted { attacker, defender_pos } = events[i] {
            let army_empty = match gs.get_hero(attacker) {
                Some(h) => h.army.is_empty(),
                None => true,
            };
            if army_empty {
                return MoveOutcome::Nothing;
            }
            let army = match gs.map.get(defender_pos) {
                Some(tile) => match &tile.object {
                    Some(MapObject::NeutralArmy(a)) => a.clone(),
                    _ => Army::new(),
                },
                None => Army::new(),
            };
            return MoveOutcome::Battle(
                PendingBattle { attacker_hero_id: attacker, defender_army: army, defender_pos },
            );
        }
        i = i + 1;
    }
    let (entered, pile) = match gs.map.get(target) {
        Some(tile) => (
            match &tile.object {
                Some(MapObject::Town(id)) => Some(*id),
                _ => None,
            },
            matches!(tile.object, Some(MapObject::ResourcePile(_))),
        ),
        None => (None, false),
    };
    if let Some(id) = entered {
        return MoveOutcome::Town(id);
    }
    proof {
        if neutral_at(s, target) {
            assert(events0[0] is BattleStarted);
        }
    }
    if pile {
        let _ = gs.apply(GameCommand::CollectResource { hero_id });
    }
    MoveOutcome::Nothing
}

} // verus!

verus! {

/// The hero that the active player moves: the first one the player owns.
pub fn active_hero_id(gs: &GameState) -> (r: Option<HeroId>)
    ensures
        r == (if gs.active_index() >= 0 && gs.players@[gs.active_index()].hero_ids@.len() > 0 {
            Some(gs.players@[gs.active_index()].hero_ids@[0])
        } else {
            None
        }),
{
    match gs.get_player(gs.active_player_id) {
        Some(player) => if player.hero_ids.len() > 0 {
            Some(player.hero_ids[0])
        } else {
            None
        },
        None => None,
    }
}

/// The tiles that the first hero can step onto now: the passable tiles around it, in the order
/// up, down, left, right; none when it has no movement points left.
pub fn available_moves(gs: &GameState) -> (r: Vec<Position>)
    requires
        gs.map.wf(),
        gs.heroes@.len() > 0 ==> i32::MIN < gs.heroes@[0].position.x < i32::MAX
            && i32::MIN < gs.heroes@[0].position.y < i32::MAX,
    ensures
        r@ == (if gs.heroes@.len() == 0 || gs.heroes@[0].movement_points == 0 {
            Seq::empty()
        } else {
            AdventureMap::around(gs.heroes@[0].position).filter(|p: Position| gs.map.in_bounds(p)).filter(
                |p: Position| gs.map.passable(p),
            )
        }),
{
    if gs.heroes.len() == 0 {
        return Vec::new();
    }
    let hero = &gs.heroes[0];
    if hero.movement_points == 0 {
        return Vec::new();
    }
    let around = gs.map.neighbors(hero.position);
    let ghost pred = |p: Position| gs.map.passable(p);
    let mut r: Vec<Position> = Vec::new();
    let mut i: usize = 0;
    while i < around.len()
        invariant
            gs.map.wf(),
            i <= around@.len(),
            pred == (|p: Position| gs.map.passable(p)),
            r@ == around@.take(i as int).filter(pred),
        decreases around@.len() - i,
    {
        proof {
            reveal_with_fuel(Seq::<_>::filter, 1);
            assert(around@.take(i + 1).drop_last() =~= around@.take(i as int));
        }
        if gs.map.is_passable(around[i]) {
            r.push(around[i]);
        }
        i = i + 1;
    }
    assert(around@.take(around@.len() as int) =~= around@);
    r
}

} // verus!

verus! {

fn fog_fits_now(range: u32, pos: Position) -> (r: bool)
    ensures
        r == fog_fits(range, pos),
{
    range <= 32767 && pos.x as i64 - range as i64 >= i32::MIN as i64 && pos.x as i64 + range as i64
        <= i32::MAX as i64 && pos.y as i64 - range as i64 >= i32::MIN as i64 && pos.y as i64
        + range as i64 <= i32::MAX as i64
}

/// Whether the step of `hero_id` towards `target` can be carried through: `step_fits`, tested.
pub fn can_step(gs: &GameState, hero_id: HeroId, target: Position) -> (r: bool)
    requires
        gs.map.wf(),
    ensures
        r == step_fits(*gs, hero_id, target),
{
    let hero = match gs.get_hero(hero_id) {
        Some(h) => h,
        None => return true,
    };
    let player = match gs.get_player(gs.active_player_id) {
        Some(p) => p,
        None => return true,
    };
    if !ids_contain(&player.hero_ids, hero_id) {
        return true;
    }
    if !is_adjacent(hero.position, target) {
        return true;
    }
    let (neutral, pile) = match gs.map.get(target) {
        Some(tile) => match &tile.object {
            Some(MapObject::NeutralArmy(_)) => (true, None),
            Some(MapObject::ResourcePile(bag)) => (false, Some(bag.gold)),
            _ => (false, None),
        },
        None => (false, None),
    };
    if neutral {
        if hero.movement_points == 0 {
            return true;
        }
        return fog_fits_now(hero.sight_range, hero.position);
    }
    if !gs.map.is_passable(target) || hero.movement_points == 0 {
        return true;
    }
    if !fog_fits_now(hero.sight_range, target) {
        return false;
    }
    match pile {
        Some(gold) => player.resources.gold as u64 + gold as u64 <= u32::MAX as u64,
        None => true,
    }
}

} // verus!

verus! {

/// The four directions in which the keyboard moves a hero.
#[derive(Debug, Clone, Copy, PartialEq, Eq, Structural)]
pub enum Direction {
    Up,
    Down,
    Left,
    Right,
}

/// The tile next to `pos` in direction `dir`; up is towards row 0.
pub fn step_towards(pos: Position, dir: Direction) -> (r: Position)
    requires
        i32::MIN < pos.x < i32::MAX,
        i32::MIN < pos.y < i32::MAX,
    ensures
        r == match dir {
            Direction::Up => Position { x: pos.x, y: (pos.y - 1) as i32 },
            Direction::Down => Position { x: pos.x, y: (pos.y + 1) as i32 },
            Direction::Left => Position { x: (pos.x - 1) as i32, y: pos.y },
            Direction::Right => Position { x: (pos.x + 1) as i32, y: pos.y },
        },
        crate::engine::hero::adjacent(pos, r),
{
    match dir {
        Direction::Up => Position::new(pos.x, pos.y - 1),
        Direction::Down => Position::new(pos.x, pos.y + 1),
        Direction::Left => Position::new(pos.x - 1, pos.y),
        Direction::Right => Position::new(pos.x + 1, pos.y),
    }
}

} // verus!
