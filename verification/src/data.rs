//! Building a game from a map description and a catalogue of creatures.
use vstd::prelude::*;

use crate::engine::hero::{
    join_stack, merge_fits, room_for, Army, Hero, HeroId, UnitStack, UnitType,
};
use crate::engine::map::{
    at_cell, lemma_cell_matches, AdventureMap, MapObject, Position, Tile, TileKind,
    VisibilityState,
};
use crate::engine::player::{Player, PlayerId, Town, TownId};
use crate::engine::resources::ResourceBag;
use crate::engine::state::GameState;

verus! {

/// A kind of creature as the catalogue describes it.
#[derive(Debug)]
pub struct UnitTypeDef {
    pub id: String,
    pub name: String,
    pub damage: u32,
    pub hp: u32,
    pub cost: u32,
    pub daily_growth: u32,
}

/// A number of creatures named by catalogue id.
#[derive(Debug)]
pub struct StackRef {
    pub id: String,
    pub count: u32,
}

/// A whole map as its file describes it.
#[derive(Debug)]
pub struct MapDefinition {
    pub width: u32,
    pub height: u32,
    pub obstacles: Vec<(i32, i32)>,
    pub water: Vec<(i32, i32)>,
    pub resource_piles: Vec<ResourcePileDef>,
    pub towns: Vec<TownDef>,
    pub neutral_armies: Vec<NeutralArmyDef>,
    pub hero: HeroDef,
}

/// A pile of gold on the map.
#[derive(Debug)]
pub struct ResourcePileDef {
    pub pos: (i32, i32),
    pub gold: u32,
}

/// A town on the map and the creatures it offers.
#[derive(Debug)]
pub struct TownDef {
    pub id: u32,
    pub pos: (i32, i32),
    pub daily_income: u32,
    pub recruits: Vec<StackRef>,
}

/// A neutral army on the map.
#[derive(Debug)]
pub struct NeutralArmyDef {
    pub pos: (i32, i32),
    pub units: Vec<StackRef>,
}

/// The player's hero at the start.
#[derive(Debug)]
pub struct HeroDef {
    pub pos: (i32, i32),
    pub name: String,
    pub movement_points: u32,
    pub army: Vec<StackRef>,
    pub starting_gold: u32,
}

/// The first catalogue entry at or after `k` with id `id`, or -1.
pub open spec fn unit_from(units: Seq<UnitTypeDef>, id: Seq<char>, k: int) -> int
    decreases units.len() - k,
{
    if k < 0 || k >= units.len() {
        -1
    } else if units[k].id@ == id {
        k
    } else {
        unit_from(units, id, k + 1)
    }
}

/// The first catalogue entry with id `id`, or -1.
pub open spec fn unit_index(units: Seq<UnitTypeDef>, id: Seq<char>) -> int {
    unit_from(units, id, 0)
}

proof fn lemma_unit_from(units: Seq<UnitTypeDef>, id: Seq<char>, k: int)
    requires
        0 <= k,
    ensures
        unit_from(units, id, k) == -1 || (k <= unit_from(units, id, k) < units.len()
            && units[unit_from(units, id, k)].id@ == id),
    decreases units.len() - k,
{
    if k < units.len() && units[k].id@ != id {
        lemma_unit_from(units, id, k + 1);
    }
}

/// The creature type that catalogue entry `d` describes.
pub open spec fn unit_of(d: UnitTypeDef) -> UnitType {
    UnitType { name: d.name, damage_per_unit: d.damage, hp: d.hp, cost: ResourceBag { gold: d.cost } }
}

/// The creature type named `id`.
pub open spec fn resolved(units: Seq<UnitTypeDef>, id: Seq<char>) -> UnitType {
    unit_of(units[unit_index(units, id)])
}

/// Every id of `refs` is in the catalogue.
pub open spec fn all_known(refs: Seq<StackRef>, units: Seq<UnitTypeDef>) -> bool {
    forall|k: int| 0 <= k < refs.len() ==> unit_index(units, #[trigger] refs[k].id@) >= 0
}

/// The stack that `r` describes: that many unhurt creatures of the named type.
pub open spec fn ref_stack(r: StackRef, units: Seq<UnitTypeDef>) -> UnitStack {
    let ty = resolved(units, r.id@);
    UnitStack { unit_type: ty, count: r.count, hp_remaining: ty.hp }
}

/// The stacks that `refs` describe, one per entry.
pub open spec fn ref_stacks(refs: Seq<StackRef>, units: Seq<UnitTypeDef>) -> Seq<UnitStack> {
    Seq::new(refs.len(), |k: int| ref_stack(refs[k], units))
}

fn unit_slot(id: &String, units: &[UnitTypeDef]) -> (r: Option<usize>)
    ensures
        r is Some <==> unit_index(units@, id@) >= 0,
        r matches Some(k) ==> k == unit_index(units@, id@) && k < units@.len(),
{
    proof {
        lemma_unit_from(units@, id@, 0);
    }
    let mut k: usize = 0;
    while k < units.len()
        invariant
            k <= units@.len(),
            unit_index(units@, id@) == unit_from(units@, id@, k as int),
        decreases units@.len() - k,
    {
        if units[k].id == *id {
            return Some(k);
        }
        k = k + 1;
    }
    None
}

/// The creature type with catalogue id `id`; the id must be in the catalogue.
pub fn resolve(id: &str, units: &[UnitTypeDef]) -> (r: UnitType)
    requires
        unit_index(units@, id@) >= 0,
    ensures
        r == resolved(units@, id@),
{
    let key = id.to_owned();
    let k = unit_slot(&key, units).unwrap();
    let def = &units[k];
    UnitType {
        name: def.name.clone(),
        damage_per_unit: def.damage,
        hp: def.hp,
        cost: ResourceBag::gold(def.cost),
    }
}

fn build_stacks(refs: &Vec<StackRef>, units: &[UnitTypeDef]) -> (r: Vec<UnitStack>)
    requires
        all_known(refs@, units@),
    ensures
        r@ == ref_stacks(refs@, units@),
{
    let mut r: Vec<UnitStack> = Vec::new();
    let mut k: usize = 0;
    while k < refs.len()
        invariant
            k <= refs@.len(),
            all_known(refs@, units@),
            r@ == ref_stacks(refs@, units@).take(k as int),
        decreases refs@.len() - k,
    {
        let ty = resolve(refs[k].id.as_str(), units);
        r.push(UnitStack::new(ty, refs[k].count));
        k = k + 1;
    }
    r
}

/// Some entry of `cells` names the cell stored at index `i` of a map of width `w`.
pub open spec fn listed(cells: Seq<(i32, i32)>, w: u32, i: int) -> bool {
    exists|j: int| 0 <= j < cells.len() && at_cell(w, i, #[trigger] cells[j].0 as int, cells[j].1 as int)
}

fn mark_kinds(map: &mut AdventureMap, cells: &Vec<(i32, i32)>, kind: TileKind)
    requires
        old(map).wf(),
    ensures
        final(map).wf(),
        final(map).width == old(map).width,
        final(map).height == old(map).height,
        final(map).visibility == old(map).visibility,
        forall|i: int|
            0 <= i < old(map).tiles@.len() ==> (#[trigger] final(map).tiles@[i]).object == old(
                map,
            ).tiles@[i].object && final(map).tiles@[i].kind == if listed(
                cells@,
                old(map).width,
                i,
            ) {
                kind
            } else {
                old(map).tiles@[i].kind
            },
{
    let ghost t0 = map.tiles@;
    let mut k: usize = 0;
    while k < cells.len()
        invariant
            map.wf(),
            map.width == old(map).width,
            map.height == old(map).height,
            map.visibility == old(map).visibility,
            t0 == old(map).tiles@,
            t0.len() == map.tiles@.len(),
            k <= cells@.len(),
            forall|i: int|
                0 <= i < t0.len() ==> (#[trigger] map.tiles@[i]).object == t0[i].object
                    && map.tiles@[i].kind == if listed(cells@.take(k as int), map.width, i) {
                    kind
                } else {
                    t0[i].kind
                },
        decreases cells@.len() - k,
    {
        let (x, y) = cells[k];
        let pos = Position::new(x, y);
        let ghost mb = *map;
        if let Some(tile) = map.get_mut(pos) {
            tile.kind = kind;
        }
        proof {
            assert forall|i: int| 0 <= i < t0.len() implies (#[trigger] map.tiles@[i]).object
                == t0[i].object && map.tiles@[i].kind == if listed(
                cells@.take(k + 1),
                map.width,
                i,
            ) {
                kind
            } else {
                t0[i].kind
            } by {
                lemma_cell_matches(mb, i, pos);
                let here = at_cell(map.width, i, x as int, y as int);
                if listed(cells@.take(k as int), map.width, i) {
                    let j = choose|j: int|
                        0 <= j < k && at_cell(
                            map.width,
                            i,
                            #[trigger] cells@.take(k as int)[j].0 as int,
                            cells@.take(k as int)[j].1 as int,
                        );
                }
                if here {
                    assert(cells@.take(k + 1)[k as int] == (x, y));
                }
                if listed(cells@.take(k + 1), map.width, i) && !here {
                    let j = choose|j: int|
                        0 <= j < k + 1 && at_cell(
                            map.width,
                            i,
                            #[trigger] cells@.take(k + 1)[j].0 as int,
                            cells@.take(k + 1)[j].1 as int,
                        );
                }
            }
        }
        k = k + 1;
    }
    assert(cells@.take(k as int) =~= cells@);
}


/// The last pile of `piles` on the cell stored at index `i`, or -1.
pub open spec fn last_pile(piles: Seq<ResourcePileDef>, w: u32, i: int) -> int
    decreases piles.len(),
{
    if piles.len() == 0 {
        -1
    } else if at_cell(w, i, piles.last().pos.0 as int, piles.last().pos.1 as int) {
        piles.len() - 1
    } else {
        last_pile(piles.drop_last(), w, i)
    }
}

/// The last town of `towns` on the cell stored at index `i`, or -1.
pub open spec fn last_town(towns: Seq<TownDef>, w: u32, i: int) -> int
    decreases towns.len(),
{
    if towns.len() == 0 {
        -1
    } else if at_cell(w, i, towns.last().pos.0 as int, towns.last().pos.1 as int) {
        towns.len() - 1
    } else {
        last_town(towns.drop_last(), w, i)
    }
}

/// The last army of `armies` on the cell stored at index `i`, or -1.
pub open spec fn last_army(armies: Seq<NeutralArmyDef>, w: u32, i: int) -> int
    decreases armies.len(),
{
    if armies.len() == 0 {
        -1
    } else if at_cell(w, i, armies.last().pos.0 as int, armies.last().pos.1 as int) {
        armies.len() - 1
    } else {
        last_army(armies.drop_last(), w, i)
    }
}

/// `o` is a neutral army of exactly `stacks`.
pub open spec fn army_object(o: Option<MapObject>, stacks: Seq<UnitStack>) -> bool {
    o matches Some(MapObject::NeutralArmy(a)) && a.0@ == stacks
}

fn place_piles(map: &mut AdventureMap, piles: &Vec<ResourcePileDef>)
    requires
        old(map).wf(),
    ensures
        final(map).wf(),
        final(map).width == old(map).width,
        final(map).height == old(map).height,
        final(map).visibility == old(map).visibility,
        forall|i: int|
            0 <= i < old(map).tiles@.len() ==> (#[trigger] final(map).tiles@[i]).kind == old(
                map,
            ).tiles@[i].kind && final(map).tiles@[i].object == {
                let lp = last_pile(piles@, old(map).width, i);
                if lp >= 0 {
                    Some(MapObject::ResourcePile(ResourceBag { gold: piles@[lp].gold }))
                } else {
                    old(map).tiles@[i].object
                }
            },
{
    let ghost t0 = map.tiles@;
    let mut k: usize = 0;
    while k < piles.len()
        invariant
            map.wf(),
            map.width == old(map).width,
            map.height == old(map).height,
            map.visibility == old(map).visibility,
            t0 == old(map).tiles@,
            t0.len() == map.tiles@.len(),
            k <= piles@.len(),
            forall|i: int|
                0 <= i < t0.len() ==> (#[trigger] map.tiles@[i]).kind == t0[i].kind
                    && map.tiles@[i].object == {
                    let lp = last_pile(piles@.take(k as int), map.width, i);
                    if lp >= 0 {
                        Some(MapObject::ResourcePile(ResourceBag { gold: piles@[lp].gold }))
                    } else {
                        t0[i].object
                    }
                },
        decreases piles@.len() - k,
    {
        let (x, y) = piles[k].pos;
        let pos = Position::new(x, y);
        let gold = piles[k].gold;
        let ghost mb = *map;
        if let Some(tile) = map.get_mut(pos) {
            tile.object = Some(MapObject::ResourcePile(ResourceBag::gold(gold)));
        }
        proof {
            assert(piles@.take(k + 1).drop_last() =~= piles@.take(k as int));
            assert forall|i: int| 0 <= i < t0.len() implies (#[trigger] map.tiles@[i]).kind
                == t0[i].kind && map.tiles@[i].object == {
                let lp = last_pile(piles@.take(k + 1), map.width, i);
                if lp >= 0 {
                    Some(MapObject::ResourcePile(ResourceBag { gold: piles@[lp].gold }))
                } else {
                    t0[i].object
                }
            } by {
                lemma_cell_matches(mb, i, pos);
                let lp = last_pile(piles@.take(k as int), map.width, i);
                if lp >= 0 {
                    lemma_last_pile_bound(piles@.take(k as int), map.width, i);
                }
            }
        }
        k = k + 1;
    }
    assert(piles@.take(k as int) =~= piles@);
}

proof fn lemma_last_pile_bound(piles: Seq<ResourcePileDef>, w: u32, i: int)
    ensures
        -1 <= last_pile(piles, w, i) < piles.len(),
    decreases piles.len(),
{
    if piles.len() > 0 {
        lemma_last_pile_bound(piles.drop_last(), w, i);
    }
}

proof fn lemma_last_town_bound(towns: Seq<TownDef>, w: u32, i: int)
    ensures
        -1 <= last_town(towns, w, i) < towns.len(),
    decreases towns.len(),
{
    if towns.len() > 0 {
        lemma_last_town_bound(towns.drop_last(), w, i);
    }
}

proof fn lemma_last_army_bound(armies: Seq<NeutralArmyDef>, w: u32, i: int)
    ensures
        -1 <= last_army(armies, w, i) < armies.len(),
    decreases armies.len(),
{
    if armies.len() > 0 {
        lemma_last_army_bound(armies.drop_last(), w, i);
    }
}


/// `t` is the town that `d` describes, with the creatures that `units` names.
pub open spec fn built_town(t: Town, d: TownDef, units: Seq<UnitTypeDef>) -> bool {
    &&& t.id == TownId(d.id)
    &&& t.position == (Position { x: d.pos.0, y: d.pos.1 })
    &&& t.income == (ResourceBag { gold: d.daily_income })
    &&& t.garrison.0@.len() == 0
    &&& t.available_recruits@.len() == d.recruits@.len()
    &&& t.daily_growth@.len() == d.recruits@.len()
    &&& forall|k: int|
        0 <= k < d.recruits@.len() ==> #[trigger] t.available_recruits@[k] == (
            resolved(units, d.recruits@[k].id@),
            d.recruits@[k].count,
        ) && t.daily_growth@[k] == units[unit_index(units, d.recruits@[k].id@)].daily_growth
}

fn build_town(d: &TownDef, units: &[UnitTypeDef]) -> (r: Town)
    requires
        all_known(d.recruits@, units@),
    ensures
        built_town(r, *d, units@),
{
    let mut town = Town::new(TownId(d.id), Position::new(d.pos.0, d.pos.1), ResourceBag::gold(d.daily_income));
    let mut k: usize = 0;
    while k < d.recruits.len()
        invariant
            k <= d.recruits@.len(),
            all_known(d.recruits@, units@),
            town.id == TownId(d.id),
            town.position == (Position { x: d.pos.0, y: d.pos.1 }),
            town.income == (ResourceBag { gold: d.daily_income }),
            town.garrison.0@.len() == 0,
            town.available_recruits@.len() == k,
            town.daily_growth@.len() == k,
            forall|j: int|
                0 <= j < k ==> #[trigger] town.available_recruits@[j] == (
                    resolved(units@, d.recruits@[j].id@),
                    d.recruits@[j].count,
                ) && town.daily_growth@[j] == units@[unit_index(
                    units@,
                    d.recruits@[j].id@,
                )].daily_growth,
        decreases d.recruits@.len() - k,
    {
        let r = &d.recruits[k];
        let growth = units[unit_slot(&r.id, units).unwrap()].daily_growth;
        let ty = resolve(r.id.as_str(), units);
        town.available_recruits.push((ty, r.count));
        town.daily_growth.push(growth);
        k = k + 1;
    }
    town
}

/// Every town of `towns` names only creatures of the catalogue.
pub open spec fn towns_known(towns: Seq<TownDef>, units: Seq<UnitTypeDef>) -> bool {
    forall|k: int| 0 <= k < towns.len() ==> all_known(#[trigger] towns[k].recruits@, units)
}

fn place_towns(map: &mut AdventureMap, defs: &Vec<TownDef>, units: &[UnitTypeDef]) -> (r: Vec<
    Town,
>)
    requires
        old(map).wf(),
        towns_known(defs@, units@),
    ensures
        final(map).wf(),
        final(map).width == old(map).width,
        final(map).height == old(map).height,
        final(map).visibility == old(map).visibility,
        r@.len() == defs@.len(),
        forall|k: int| 0 <= k < defs@.len() ==> built_town(#[trigger] r@[k], defs@[k], units@),
        forall|i: int|
            0 <= i < old(map).tiles@.len() ==> (#[trigger] final(map).tiles@[i]).kind == old(
                map,
            ).tiles@[i].kind && final(map).tiles@[i].object == {
                let lt = last_town(defs@, old(map).width, i);
                if lt >= 0 {
                    Some(MapObject::Town(TownId(defs@[lt].id)))
                } else {
                    old(map).tiles@[i].object
                }
            },
{
    let ghost t0 = map.tiles@;
    let mut towns: Vec<Town> = Vec::new();
    let mut k: usize = 0;
    while k < defs.len()
        invariant
            map.wf(),
            map.width == old(map).width,
            map.height == old(map).height,
            map.visibility == old(map).visibility,
            t0 == old(map).tiles@,
            t0.len() == map.tiles@.len(),
            k <= defs@.len(),
            towns_known(defs@, units@),
            towns@.len() == k,
            forall|j: int| 0 <= j < k ==> built_town(#[trigger] towns@[j], defs@[j], units@),
            forall|i: int|
                0 <= i < t0.len() ==> (#[trigger] map.tiles@[i]).kind == t0[i].kind
                    && map.tiles@[i].object == {
                    let lt = last_town(defs@.take(k as int), map.width, i);
                    if lt >= 0 {
                        Some(MapObject::Town(TownId(defs@[lt].id)))
                    } else {
                        t0[i].object
                    }
                },
        decreases defs@.len() - k,
    {
        let d = &defs[k];
        let town = build_town(d, units);
        let (x, y) = d.pos;
        let pos = Position::new(x, y);
        let id = d.id;
        let ghost mb = *map;
        if let Some(tile) = map.get_mut(pos) {
            tile.object = Some(MapObject::Town(TownId(id)));
        }
        towns.push(town);
        proof {
            assert(defs@.take(k + 1).drop_last() =~= defs@.take(k as int));
            assert forall|i: int| 0 <= i < t0.len() implies (#[trigger] map.tiles@[i]).kind
                == t0[i].kind && map.tiles@[i].object == {
                let lt = last_town(defs@.take(k + 1), map.width, i);
                if lt >= 0 {
                    Some(MapObject::Town(TownId(defs@[lt].id)))
                } else {
                    t0[i].object
                }
            } by {
                lemma_cell_matches(mb, i, pos);
                let lt = last_town(defs@.take(k as int), map.width, i);
                if lt >= 0 {
                    lemma_last_town_bound(defs@.take(k as int), map.width, i);
                }
            }
        }
        k = k + 1;
    }
    assert(defs@.take(k as int) =~= defs@);
    towns
}

/// Every neutral army of `armies` names only creatures of the catalogue.
pub open spec fn armies_known(armies: Seq<NeutralArmyDef>, units: Seq<UnitTypeDef>) -> bool {
    forall|k: int| 0 <= k < armies.len() ==> all_known(#[trigger] armies[k].units@, units)
}

fn place_armies(map: &mut AdventureMap, defs: &Vec<NeutralArmyDef>, units: &[UnitTypeDef])
    requires
        old(map).wf(),
        armies_known(defs@, units@),
    ensures
        final(map).wf(),
        final(map).width == old(map).width,
        final(map).height == old(map).height,
        final(map).visibility == old(map).visibility,
        forall|i: int|
            0 <= i < old(map).tiles@.len() ==> (#[trigger] final(map).tiles@[i]).kind == old(
                map,
            ).tiles@[i].kind && {
                let la = last_army(defs@, old(map).width, i);
                if la >= 0 {
                    army_object(final(map).tiles@[i].object, ref_stacks(defs@[la].units@, units@))
                } else {
                    final(map).tiles@[i].object == old(map).tiles@[i].object
                }
            },
{
    let ghost t0 = map.tiles@;
    let mut k: usize = 0;
    while k < defs.len()
        invariant
            map.wf(),
            map.width == old(map).width,
            map.height == old(map).height,
            map.visibility == old(map).visibility,
            t0 == old(map).tiles@,
            t0.len() == map.tiles@.len(),
            k <= defs@.len(),
            armies_known(defs@, units@),
            forall|i: int|
                0 <= i < t0.len() ==> (#[trigger] map.tiles@[i]).kind == t0[i].kind && {
                    let la = last_army(defs@.take(k as int), map.width, i);
                    if la >= 0 {
                        army_object(map.tiles@[i].object, ref_stacks(defs@[la].units@, units@))
                    } else {
                        map.tiles@[i].object == t0[i].object
                    }
                },
        decreases defs@.len() - k,
    {
        let d = &defs[k];
        let stacks = build_stacks(&d.units, units);
        let (x, y) = d.pos;
        let pos = Position::new(x, y);
        let ghost mb = *map;
        if let Some(tile) = map.get_mut(pos) {
            tile.object = Some(MapObject::NeutralArmy(Army(stacks)));
        }
        proof {
            assert(defs@.take(k + 1).drop_last() =~= defs@.take(k as int));
            assert forall|i: int| 0 <= i < t0.len() implies (#[trigger] map.tiles@[i]).kind
                == t0[i].kind && {
                let la = last_army(defs@.take(k + 1), map.width, i);
                if la >= 0 {
                    army_object(map.tiles@[i].object, ref_stacks(defs@[la].units@, units@))
                } else {
                    map.tiles@[i].object == t0[i].object
                }
            } by {
                lemma_cell_matches(mb, i, pos);
                let la = last_army(defs@.take(k as int), map.width, i);
                if la >= 0 {
                    lemma_last_army_bound(defs@.take(k as int), map.width, i);
                }
            }
        }
        k = k + 1;
    }
    assert(defs@.take(k as int) =~= defs@);
}

/// The stacks a hero starts with: each entry of `refs` in turn joins the army as `add_stack`
/// does, and one that finds no room is left out.
pub open spec fn hero_stacks(refs: Seq<StackRef>, units: Seq<UnitTypeDef>) -> Seq<UnitStack>
    decreases refs.len(),
{
    if refs.len() == 0 {
        Seq::empty()
    } else {
        let before = hero_stacks(refs.drop_last(), units);
        let s = ref_stack(refs.last(), units);
        if room_for(before, s) {
            join_stack(before, s)
        } else {
            before
        }
    }
}

/// Each entry of `refs` merges into the hero's army without a count beyond `u32`.
pub open spec fn hero_army_fits(refs: Seq<StackRef>, units: Seq<UnitTypeDef>) -> bool {
    forall|k: int|
        0 <= k < refs.len() ==> merge_fits(
            hero_stacks(#[trigger] refs.take(k), units),
            ref_stack(refs[k], units),
        )
}

fn build_hero_army(refs: &Vec<StackRef>, units: &[UnitTypeDef]) -> (r: Army)
    requires
        all_known(refs@, units@),
        hero_army_fits(refs@, units@),
    ensures
        r.0@ == hero_stacks(refs@, units@),
{
    let mut army = Army::new();
    let mut k: usize = 0;
    while k < refs.len()
        invariant
            k <= refs@.len(),
            all_known(refs@, units@),
            hero_army_fits(refs@, units@),
            army.0@ == hero_stacks(refs@.take(k as int), units@),
        decreases refs@.len() - k,
    {
        let ty = resolve(refs[k].id.as_str(), units);
        let stack = UnitStack::new(ty, refs[k].count);
        let _ = army.add_stack(stack);
        proof {
            assert(refs@.take(k + 1).drop_last() =~= refs@.take(k as int));
        }
        k = k + 1;
    }
    assert(refs@.take(k as int) =~= refs@);
    army
}

/// What a map description needs to be built: its tiles fit in `u32`, every creature it names
/// is in the catalogue, and the hero's starting stacks merge without a count beyond `u32`.
pub open spec fn def_fits(def: MapDefinition, units: Seq<UnitTypeDef>) -> bool {
    &&& def.width * def.height <= u32::MAX
    &&& towns_known(def.towns@, units)
    &&& armies_known(def.neutral_armies@, units)
    &&& all_known(def.hero.army@, units)
    &&& hero_army_fits(def.hero.army@, units)
}

/// The terrain of the tile stored at index `i`: water where water is listed, else an obstacle
/// where one is listed, else ground.
pub open spec fn kind_placed(def: MapDefinition, i: int) -> TileKind {
    if listed(def.water@, def.width, i) {
        TileKind::Water
    } else if listed(def.obstacles@, def.width, i) {
        TileKind::Obstacle
    } else {
        TileKind::Ground
    }
}

/// `o` is what stands on the tile stored at index `i`: the last neutral army listed there,
/// else the last town, else the last pile of gold, else nothing.
pub open spec fn object_placed(
    def: MapDefinition,
    units: Seq<UnitTypeDef>,
    i: int,
    o: Option<MapObject>,
) -> bool {
    let w = def.width;
    let la = last_army(def.neutral_armies@, w, i);
    let lt = last_town(def.towns@, w, i);
    let lp = last_pile(def.resource_piles@, w, i);
    if la >= 0 {
        army_object(o, ref_stacks(def.neutral_armies@[la].units@, units))
    } else if lt >= 0 {
        o == Some(MapObject::Town(TownId(def.towns@[lt].id)))
    } else if lp >= 0 {
        o == Some(MapObject::ResourcePile(ResourceBag { gold: def.resource_piles@[lp].gold }))
    } else {
        o is None
    }
}

/// The game that a map description starts: its map, one player with the starting gold and
/// one hero, its towns, day 1.
pub fn map_def_to_game_state(def: &MapDefinition, units: &[UnitTypeDef]) -> (r: GameState)
    requires
        def_fits(*def, units@),
    ensures
        r.map.wf(),
        r.map.width == def.width,
        r.map.height == def.height,
        forall|i: int|
            0 <= i < r.map.tiles@.len() ==> (#[trigger] r.map.tiles@[i]).kind == kind_placed(
                *def,
                i,
            ) && object_placed(*def, units@, i, r.map.tiles@[i].object),
        forall|i: int|
            0 <= i < r.map.visibility@.len() ==> #[trigger] r.map.visibility@[i]
                == VisibilityState::Unexplored,
        r.players@.len() == 1,
        r.players@[0].id == PlayerId(0),
        r.players@[0].resources == (ResourceBag { gold: def.hero.starting_gold }),
        r.players@[0].hero_ids@ == seq![HeroId(0)],
        r.heroes@.len() == 1,
        r.heroes@[0].id == HeroId(0),
        r.heroes@[0].name == def.hero.name,
        r.heroes@[0].position == (Position { x: def.hero.pos.0, y: def.hero.pos.1 }),
        r.heroes@[0].army.0@ == hero_stacks(def.hero.army@, units@),
        r.heroes@[0].movement_points == def.hero.movement_points,
        r.heroes@[0].movement_points_max == def.hero.movement_points,
        r.heroes@[0].sight_range == 0,
        r.heroes@[0].attack == 0,
        r.heroes@[0].defense == 0,
        r.towns@.len() == def.towns@.len(),
        forall|k: int| 0 <= k < def.towns@.len() ==> built_town(#[trigger] r.towns@[k], def.towns@[k], units@),
        r.current_day == 1,
        r.active_player_id == PlayerId(0),
{
    let mut map = AdventureMap::new(def.width, def.height);
    mark_kinds(&mut map, &def.obstacles, TileKind::Obstacle);
    mark_kinds(&mut map, &def.water, TileKind::Water);
    place_piles(&mut map, &def.resource_piles);
    let towns = place_towns(&mut map, &def.towns, units);
    place_armies(&mut map, &def.neutral_armies, units);
    let hero_def = &def.hero;
    let army = build_hero_army(&hero_def.army, units);
    let hero = Hero {
        id: HeroId(0),
        name: hero_def.name.clone(),
        position: Position::new(hero_def.pos.0, hero_def.pos.1),
        army,
        movement_points: hero_def.movement_points,
        movement_points_max: hero_def.movement_points,
        sight_range: 0,
        attack: 0,
        defense: 0,
    };
    let mut player = Player::new(PlayerId(0));
    player.hero_ids.push(HeroId(0));
    player.resources = ResourceBag::gold(hero_def.starting_gold);
    let mut players: Vec<Player> = Vec::new();
    players.push(player);
    let mut heroes: Vec<Hero> = Vec::new();
    heroes.push(hero);
    GameState { map, players, heroes, towns, current_day: 1, active_player_id: PlayerId(0) }
}

fn refs_known(refs: &Vec<StackRef>, units: &[UnitTypeDef]) -> (r: bool)
    ensures
        r == all_known(refs@, units@),
{
    let mut k: usize = 0;
    while k < refs.len()
        invariant
            k <= refs@.len(),
            forall|j: int| 0 <= j < k ==> unit_index(units@, #[trigger] refs@[j].id@) >= 0,
        decreases refs@.len() - k,
    {
        if unit_slot(&refs[k].id, units).is_none() {
            return false;
        }
        k = k + 1;
    }
    true
}

/// Whether `def` can be built with the catalogue `units`: `def_fits`, tested.
pub fn definition_fits(def: &MapDefinition, units: &[UnitTypeDef]) -> (r: bool)
    ensures
        r == def_fits(*def, units@),
{
    let w = def.width as u64;
    let h = def.height as u64;
    assert(w * h <= u32::MAX * u32::MAX) by (nonlinear_arith)
        requires
            w <= u32::MAX,
            h <= u32::MAX,
    ;
    if w * h > u32::MAX as u64 {
        return false;
    }
    let mut k: usize = 0;
    while k < def.towns.len()
        invariant
            k <= def.towns@.len(),
            forall|j: int| 0 <= j < k ==> all_known(#[trigger] def.towns@[j].recruits@, units@),
        decreases def.towns@.len() - k,
    {
        if !refs_known(&def.towns[k].recruits, units) {
            return false;
        }
        k = k + 1;
    }
    let mut k: usize = 0;
    while k < def.neutral_armies.len()
        invariant
            k <= def.neutral_armies@.len(),
            forall|j: int|
                0 <= j < k ==> all_known(#[trigger] def.neutral_armies@[j].units@, units@),
        decreases def.neutral_armies@.len() - k,
    {
        if !refs_known(&def.neutral_armies[k].units, units) {
            return false;
        }
        k = k + 1;
    }
    let refs = &def.hero.army;
    if !refs_known(refs, units) {
        return false;
    }
    let mut army = Army::new();
    let mut k: usize = 0;
    while k < refs.len()
        invariant
            k <= refs@.len(),
            refs@ == def.hero.army@,
            all_known(refs@, units@),
            army.0@ == hero_stacks(refs@.take(k as int), units@),
            forall|j: int|
                0 <= j < k ==> merge_fits(
                    hero_stacks(#[trigger] refs@.take(j), units@),
                    ref_stack(refs@[j], units@),
                ),
        decreases refs@.len() - k,
    {
        let ty = resolve(refs[k].id.as_str(), units);
        let stack = UnitStack::new(ty, refs[k].count);
        if !army.can_merge(&stack) {
            assert(!merge_fits(
                hero_stacks(refs@.take(k as int), units@),
                ref_stack(refs@[k as int], units@),
            ));
            return false;
        }
        let _ = army.add_stack(stack);
        proof {
            assert(refs@.take(k + 1).drop_last() =~= refs@.take(k as int));
        }
        k = k + 1;
    }
    true
}

} // verus!

verus! {

/// The ids that `refs` name, in order.
pub open spec fn ref_ids(refs: Seq<StackRef>) -> Seq<Seq<char>> {
    refs.map_values(|r: StackRef| r.id@)
}

/// The ids that the offers of `towns` name, town by town.
pub open spec fn town_ids(towns: Seq<TownDef>) -> Seq<Seq<char>>
    decreases towns.len(),
{
    if towns.len() == 0 {
        Seq::empty()
    } else {
        town_ids(towns.drop_last()) + ref_ids(towns.last().recruits@)
    }
}

/// The ids that `armies` name, army by army.
pub open spec fn army_ids(armies: Seq<NeutralArmyDef>) -> Seq<Seq<char>>
    decreases armies.len(),
{
    if armies.len() == 0 {
        Seq::empty()
    } else {
        army_ids(armies.drop_last()) + ref_ids(armies.last().units@)
    }
}

/// Every creature id that a map description names: the towns' offers, then the neutral
/// armies, then the hero's army.
pub open spec fn named_ids(def: MapDefinition) -> Seq<Seq<char>> {
    town_ids(def.towns@) + army_ids(def.neutral_armies@) + ref_ids(def.hero.army@)
}

/// The first position at or after `k` of `ids` whose id the catalogue lacks, or -1.
pub open spec fn unknown_from(ids: Seq<Seq<char>>, units: Seq<UnitTypeDef>, k: int) -> int
    decreases ids.len() - k,
{
    if k < 0 || k >= ids.len() {
        -1
    } else if unit_index(units, ids[k]) < 0 {
        k
    } else {
        unknown_from(ids, units, k + 1)
    }
}

proof fn lemma_unknown_from(ids: Seq<Seq<char>>, units: Seq<UnitTypeDef>, k: int)
    requires
        0 <= k,
    ensures
        unknown_from(ids, units, k) == -1 || (k <= unknown_from(ids, units, k) < ids.len()
            && unit_index(units, ids[unknown_from(ids, units, k)]) < 0),
        unknown_from(ids, units, k) == -1 ==> forall|j: int|
            k <= j < ids.len() ==> unit_index(units, #[trigger] ids[j]) >= 0,
    decreases ids.len() - k,
{
    if k < ids.len() && unit_index(units, ids[k]) >= 0 {
        lemma_unknown_from(ids, units, k + 1);
    }
}

fn push_ids(out: &mut Vec<String>, refs: &Vec<StackRef>)
    ensures
        final(out)@.len() == old(out)@.len() + refs@.len(),
        forall|k: int|
            0 <= k < old(out)@.len() ==> (#[trigger] final(out)@[k])@ == old(out)@[k]@,
        forall|k: int|
            0 <= k < refs@.len() ==> (#[trigger] final(out)@[old(out)@.len() + k])@
                == refs@[k].id@,
{
    let ghost before = out@;
    let mut j: usize = 0;
    while j < refs.len()
        invariant
            j <= refs@.len(),
            out@.len() == before.len() + j,
            forall|k: int| 0 <= k < before.len() ==> (#[trigger] out@[k])@ == before[k]@,
            forall|k: int| 0 <= k < j ==> (#[trigger] out@[before.len() + k])@ == refs@[k].id@,
        decreases refs@.len() - j,
    {
        out.push(refs[j].id.clone());
        j = j + 1;
    }
}

/// The first creature id, in the order of `named_ids`, that the catalogue `units` lacks; `None`
/// when the catalogue has every id the map description names.
pub fn unknown_unit_id(def: &MapDefinition, units: &[UnitTypeDef]) -> (r: Option<String>)
    ensures
        r is None <==> forall|k: int|
            0 <= k < named_ids(*def).len() ==> unit_index(units@, #[trigger] named_ids(*def)[k])
                >= 0,
        r matches Some(id) ==> {
            let k = unknown_from(named_ids(*def), units@, 0);
            &&& 0 <= k < named_ids(*def).len()
            &&& id@ == named_ids(*def)[k]
        },
{
    let mut ids: Vec<String> = Vec::new();
    let mut i: usize = 0;
    while i < def.towns.len()
        invariant
            i <= def.towns@.len(),
            ids@.len() == town_ids(def.towns@.take(i as int)).len(),
            forall|k: int|
                0 <= k < ids@.len() ==> (#[trigger] ids@[k])@ == town_ids(def.towns@.take(i as int))[k],
        decreases def.towns@.len() - i,
    {
        let ghost before = ids@;
        push_ids(&mut ids, &def.towns[i].recruits);
        proof {
            let t = def.towns@.take(i + 1);
            assert(t.drop_last() =~= def.towns@.take(i as int));
            assert(town_ids(t) == town_ids(def.towns@.take(i as int)) + ref_ids(
                def.towns@[i as int].recruits@,
            ));
            assert forall|k: int| 0 <= k < ids@.len() implies (#[trigger] ids@[k])@ == town_ids(
                t,
            )[k] by {
                if k >= before.len() {
                    assert(ids@[before.len() + (k - before.len())]@
                        == def.towns@[i as int].recruits@[k - before.len()].id@);
                }
            }
        }
        i = i + 1;
    }
    assert(def.towns@.take(i as int) =~= def.towns@);
    let ghost n_towns = ids@.len();
    let mut i: usize = 0;
    while i < def.neutral_armies.len()
        invariant
            i <= def.neutral_armies@.len(),
            n_towns == town_ids(def.towns@).len(),
            ids@.len() == n_towns + army_ids(def.neutral_armies@.take(i as int)).len(),
            forall|k: int| 0 <= k < n_towns ==> (#[trigger] ids@[k])@ == town_ids(def.towns@)[k],
            forall|k: int|
                0 <= k < army_ids(def.neutral_armies@.take(i as int)).len() ==> (#[trigger] ids@[n_towns
                    + k])@ == army_ids(def.neutral_armies@.take(i as int))[k],
        decreases def.neutral_armies@.len() - i,
    {
        let ghost before = ids@;
        push_ids(&mut ids, &def.neutral_armies[i].units);
        proof {
            let t = def.neutral_armies@.take(i + 1);
            let prev = army_ids(def.neutral_armies@.take(i as int));
            assert(t.drop_last() =~= def.neutral_armies@.take(i as int));
            assert(army_ids(t) == prev + ref_ids(def.neutral_armies@[i as int].units@));
            assert forall|k: int| 0 <= k < army_ids(t).len() implies (#[trigger] ids@[n_towns
                + k])@ == army_ids(t)[k] by {
                if k >= prev.len() {
                    assert(ids@[before.len() + (k - prev.len())]@
                        == def.neutral_armies@[i as int].units@[k - prev.len()].id@);
                } else {
                    assert(ids@[n_towns + k]@ == before[n_towns + k]@);
                }
            }
        }
        i = i + 1;
    }
    assert(def.neutral_armies@.take(i as int) =~= def.neutral_armies@);
    push_ids(&mut ids, &def.hero.army);
    let ghost named = named_ids(*def);
    assert(ids@.len() == named.len());
    assert forall|k: int| 0 <= k < named.len() implies (#[trigger] ids@[k])@ == named[k] by {
        let a = town_ids(def.towns@).len() as int;
        let b = army_ids(def.neutral_armies@).len() as int;
        if k < a {
        } else if k < a + b {
            assert(ids@[a + (k - a)]@ == army_ids(def.neutral_armies@)[k - a]);
        } else {
            assert(ids@[(a + b) + (k - a - b)]@ == ref_ids(def.hero.army@)[k - a - b]);
        }
    }
    proof {
        lemma_unknown_from(named, units@, 0);
    }
    let mut k: usize = 0;
    while k < ids.len()
        invariant
            k <= ids@.len(),
            named == named_ids(*def),
            ids@.len() == named.len(),
            forall|j: int| 0 <= j < named.len() ==> (#[trigger] ids@[j])@ == named[j],
            unknown_from(named, units@, 0) == unknown_from(named, units@, k as int),
            forall|j: int| 0 <= j < k ==> unit_index(units@, #[trigger] named[j]) >= 0,
        decreases ids@.len() - k,
    {
        assert(ids@[k as int]@ == named[k as int]);
        if unit_slot(&ids[k], units).is_none() {
            assert(unit_index(units@, named[k as int]) < 0);
            return Some(ids[k].clone());
        }
        k = k + 1;
    }
    None
}

} // verus!
