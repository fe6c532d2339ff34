//! How a battle begins from the adventure map and what its end does to the game.
use vstd::prelude::*;

use crate::battle::ai::alive_attackers;
use crate::battle::state::{
    can_deploy, deployed, fighting, opening_order, BattleStack, BattleState, Side,
};
use crate::engine::commands::hero_with_army;
use crate::engine::hero::{Army, HeroId, UnitStack};
use crate::engine::map::{Position, Tile};
use crate::engine::state::{
    hero_index, hero_keys, lemma_first_from, lemma_neutral_count_update, neutral_count, GameState,
};

verus! {

/// The stacks that the hero named `hero_id` leads into battle: its army, or none without a hero.
pub open spec fn attacking_stacks(gs: GameState, hero_id: HeroId) -> Seq<UnitStack> {
    let hi = hero_index(gs.heroes@, hero_id);
    if hi >= 0 {
        gs.heroes@[hi].army.0@
    } else {
        Seq::empty()
    }
}

/// Starts the battle of hero `hero_id` against `defender`: a hero without stacks loses at once
/// (`Err` names the winner), otherwise both armies line up as `BattleState::from_armies` does.
pub fn open_battle(gs: &GameState, hero_id: HeroId, defender: &Army) -> (r: Result<BattleState, Side>)
    requires
        attacking_stacks(*gs, hero_id).len() + defender.0@.len() <= u32::MAX,
    ensures
        r is Err <==> attacking_stacks(*gs, hero_id).len() == 0,
        r matches Err(w) ==> w == Side::Defender,
        r matches Ok(b) ==> {
            let att = attacking_stacks(*gs, hero_id);
            let def = defender.0@;
            &&& b.stacks@.len() == att.len() + def.len()
            &&& forall|i: int|
                0 <= i < att.len() ==> #[trigger] b.stacks@[i] == deployed(att[i], i, Side::Attacker)
            &&& forall|i: int|
                0 <= i < def.len() ==> #[trigger] b.stacks@[att.len() + i] == deployed(
                    def[i],
                    att.len() + i,
                    Side::Defender,
                )
            &&& b.turn_order@ == opening_order(att.len() as int, def.len() as int)
            &&& b.log@.len() == 0
            &&& (forall|i: int| 0 <= i < att.len() ==> can_deploy(#[trigger] att[i])) && (forall|
                i: int,
            |
                0 <= i < def.len() ==> can_deploy(#[trigger] def[i])) ==> fighting(b@)
        },
{
    match gs.get_hero(hero_id) {
        Some(hero) => {
            if hero.army.0.len() == 0 {
                return Err(Side::Defender);
            }
            Ok(BattleState::from_armies(hero.army.0.as_slice(), defender.0.as_slice()))
        },
        None => Err(Side::Defender),
    }
}

/// The attacker's stacks that still have creatures, as army stacks, in battle order.
pub open spec fn survivors(stacks: Seq<BattleStack>) -> Seq<UnitStack>
    decreases stacks.len(),
{
    if stacks.len() == 0 {
        Seq::empty()
    } else {
        let rest = survivors(stacks.drop_last());
        let s = stacks.last();
        if s.side == Side::Attacker && s.count > 0 {
            rest.push(UnitStack { unit_type: s.unit_type, count: s.count, hp_remaining: s.hp_remaining })
        } else {
            rest
        }
    }
}

/// What a victory leaves the hero is one stack for each attacker stack with creatures left,
/// each of them with creatures, and each the same creatures, count and wound as in the battle.
pub proof fn lemma_survivors_alive(stacks: Seq<BattleStack>)
    ensures
        survivors(stacks).len() == alive_attackers(stacks),
        forall|i: int|
            0 <= i < survivors(stacks).len() ==> (#[trigger] survivors(stacks)[i]).count > 0,
        forall|i: int|
            #![trigger survivors(stacks)[i]]
            0 <= i < survivors(stacks).len() ==> exists|j: int|
                0 <= j < stacks.len() && (#[trigger] stacks[j]).side == Side::Attacker
                    && stacks[j].count == survivors(stacks)[i].count && stacks[j].unit_type
                    == survivors(stacks)[i].unit_type && stacks[j].hp_remaining == survivors(
                    stacks,
                )[i].hp_remaining,
    decreases stacks.len(),
{
    if stacks.len() > 0 {
        let rest = stacks.drop_last();
        lemma_survivors_alive(rest);
        let sv = survivors(stacks);
        let sr = survivors(rest);
        assert forall|i: int| #![trigger sv[i]] 0 <= i < sv.len() implies exists|j: int|
            0 <= j < stacks.len() && (#[trigger] stacks[j]).side == Side::Attacker
                && stacks[j].count == sv[i].count && stacks[j].unit_type == sv[i].unit_type
                && stacks[j].hp_remaining == sv[i].hp_remaining by {
            if i < sr.len() {
                let j = choose|j: int|
                    0 <= j < rest.len() && (#[trigger] rest[j]).side == Side::Attacker
                        && rest[j].count == sr[i].count && rest[j].unit_type == sr[i].unit_type
                        && rest[j].hp_remaining == sr[i].hp_remaining;
                assert(stacks[j] == rest[j]);
            } else {
                assert(stacks[stacks.len() - 1] == stacks.last());
            }
        }
    }
}

/// What the end of a battle does to the game: after a victory the hero keeps only its surviving
/// stacks and the neutral army leaves `defender_pos`; after a defeat the hero's army is cleared
/// and the neutral army stays.
pub fn settle_battle(
    gs: &mut GameState,
    hero_id: HeroId,
    defender_pos: Position,
    winner: Side,
    battle: &BattleState,
)
    requires
        old(gs).map.wf(),
    ensures
        winner == Side::Defender ==> {
            let s = *old(gs);
            let t = *final(gs);
            let hi = hero_index(s.heroes@, hero_id);
            &&& hi >= 0 ==> t.heroes@ == s.heroes@.update(hi, t.heroes@[hi]) && hero_with_army(
                s.heroes@[hi],
                t.heroes@[hi],
                Seq::empty(),
            )
            &&& hi < 0 ==> t.heroes == s.heroes
            &&& t.map == s.map
            &&& t.players == s.players
            &&& t.towns == s.towns
            &&& t.current_day == s.current_day
            &&& t.active_player_id == s.active_player_id
        },
        winner == Side::Attacker ==> {
            let s = *old(gs);
            let t = *final(gs);
            let hi = hero_index(s.heroes@, hero_id);
            &&& hi >= 0 ==> t.heroes@ == s.heroes@.update(hi, t.heroes@[hi]) && hero_with_army(
                s.heroes@[hi],
                t.heroes@[hi],
                survivors(battle.stacks@),
            )
            &&& hi < 0 ==> t.heroes == s.heroes
            &&& hi >= 0 ==> t.heroes@[hi].army.0@.len() == alive_attackers(battle.stacks@)
            &&& hi >= 0 ==> forall|i: int|
                0 <= i < t.heroes@[hi].army.0@.len() ==> (#[trigger] t.heroes@[hi].army.0@[i]).count
                    > 0
            &&& t.map.tiles@ == if s.map.in_bounds(defender_pos) {
                s.map.tiles@.update(
                    s.map.index_of(defender_pos),
                    Tile { object: None, ..s.map.tile_at(defender_pos) },
                )
            } else {
                s.map.tiles@
            }
            &&& t.map.width == s.map.width
            &&& t.map.height == s.map.height
            &&& t.map.visibility == s.map.visibility
            &&& s.map.in_bounds(defender_pos) && s.map.tile_at(defender_pos).has_neutral_army()
                ==> neutral_count(t.map.tiles@) + 1 == neutral_count(s.map.tiles@)
            &&& t.players == s.players
            &&& t.towns == s.towns
            &&& t.current_day == s.current_day
            &&& t.active_player_id == s.active_player_id
        },
{
    if winner != Side::Attacker {
        proof {
            lemma_first_from(hero_keys(gs.heroes@), hero_id.0, 0);
        }
        if let Some(hero) = gs.get_hero_mut(hero_id) {
            hero.army.0 = Vec::new();
        }
        return;
    }
    let mut live: Vec<UnitStack> = Vec::new();
    let mut i: usize = 0;
    while i < battle.stacks.len()
        invariant
            *gs == *old(gs),
            gs.map.wf(),
            i <= battle.stacks@.len(),
            live@ == survivors(battle.stacks@.take(i as int)),
        decreases battle.stacks@.len() - i,
    {
        assert(battle.stacks@.take(i + 1).drop_last() =~= battle.stacks@.take(i as int));
        let s = &battle.stacks[i];
        if s.side == Side::Attacker && s.count > 0 {
            live.push(
                UnitStack {
                    unit_type: s.unit_type.clone(),
                    count: s.count,
                    hp_remaining: s.hp_remaining,
                },
            );
        }
        i = i + 1;
    }
    assert(battle.stacks@.take(battle.stacks@.len() as int) =~= battle.stacks@);
    let ghost s = *gs;
    proof {
        lemma_first_from(hero_keys(s.heroes@), hero_id.0, 0);
        lemma_survivors_alive(battle.stacks@);
    }
    if let Some(hero) = gs.get_hero_mut(hero_id) {
        hero.army.0 = live;
    }
    let ghost before_map = gs.map;
    if let Some(tile) = gs.map.get_mut(defender_pos) {
        tile.object = None;
    }
    proof {
        if before_map.in_bounds(defender_pos) {
            lemma_neutral_count_update(
                before_map.tiles@,
                before_map.index_of(defender_pos),
                Tile { object: None, ..before_map.tile_at(defender_pos) },
            );
        }
    }
}

} // verus!
