use vstd::prelude::*;

use crate::engine::hero::{Hero, HeroId};
use crate::engine::map::{AdventureMap, MapObject, Tile};
use crate::engine::player::{Player, PlayerId, Town, TownId};

verus! {

/// Everything that makes up a running game.
#[derive(Debug, Clone)]
pub struct GameState {
    pub map: AdventureMap,
    pub players: Vec<Player>,
    pub heroes: Vec<Hero>,
    pub towns: Vec<Town>,
    pub current_day: u32,
    pub active_player_id: PlayerId,
}

/// The first position at or after `k` that holds `key`, or -1 when none does.
pub open spec fn first_from(keys: Seq<u32>, key: u32, k: int) -> int
    decreases keys.len() - k,
{
    if k < 0 || k >= keys.len() {
        -1
    } else if keys[k] == key {
        k
    } else {
        first_from(keys, key, k + 1)
    }
}

/// `first_from` finds `key`, and no earlier position from `k` on holds it.
pub proof fn lemma_first_from(keys: Seq<u32>, key: u32, k: int)
    requires
        0 <= k,
    ensures
        first_from(keys, key, k) == -1 || (k <= first_from(keys, key, k) < keys.len()
            && keys[first_from(keys, key, k)] == key),
        forall|j: int|
            k <= j < keys.len() && (first_from(keys, key, k) == -1 || j < first_from(
                keys,
                key,
                k,
            )) ==> keys[j] != key,
    decreases keys.len() - k,
{
    if k < keys.len() && keys[k] != key {
        lemma_first_from(keys, key, k + 1);
    }
}

/// The ids of `heroes`, in order.
pub open spec fn hero_keys(heroes: Seq<Hero>) -> Seq<u32> {
    heroes.map_values(|h: Hero| h.id.0)
}

/// The ids of `players`, in order.
pub open spec fn player_keys(players: Seq<Player>) -> Seq<u32> {
    players.map_values(|p: Player| p.id.0)
}

/// The ids of `towns`, in order.
pub open spec fn town_keys(towns: Seq<Town>) -> Seq<u32> {
    towns.map_values(|t: Town| t.id.0)
}

/// Where the first hero named `id` is kept, or -1.
pub open spec fn hero_index(heroes: Seq<Hero>, id: HeroId) -> int {
    first_from(hero_keys(heroes), id.0, 0)
}

/// Where the first player named `id` is kept, or -1.
pub open spec fn player_index(players: Seq<Player>, id: PlayerId) -> int {
    first_from(player_keys(players), id.0, 0)
}

/// Where the first town named `id` is kept, or -1.
pub open spec fn town_index(towns: Seq<Town>, id: TownId) -> int {
    first_from(town_keys(towns), id.0, 0)
}

/// How many of `tiles` carry a neutral army.
pub open spec fn neutral_count(tiles: Seq<Tile>) -> nat
    decreases tiles.len(),
{
    if tiles.len() == 0 {
        0
    } else {
        neutral_count(tiles.drop_last()) + if tiles.last().has_neutral_army() {
            1nat
        } else {
            0nat
        }
    }
}

/// Replacing one tile changes the count of neutral armies by what the two tiles carry.
pub proof fn lemma_neutral_count_update(tiles: Seq<Tile>, k: int, x: Tile)
    requires
        0 <= k < tiles.len(),
    ensures
        neutral_count(tiles.update(k, x)) + (if tiles[k].has_neutral_army() {
            1int
        } else {
            0int
        }) == neutral_count(tiles) + (if x.has_neutral_army() {
            1int
        } else {
            0int
        }),
    decreases tiles.len(),
{
    let u = tiles.update(k, x);
    if k == tiles.len() - 1 {
        assert(u.drop_last() =~= tiles.drop_last());
    } else {
        lemma_neutral_count_update(tiles.drop_last(), k, x);
        assert(u.drop_last() =~= tiles.drop_last().update(k, x));
    }
}

impl GameState {
    /// Where the active player is kept, or -1.
    pub open spec fn active_index(self) -> int {
        player_index(self.players@, self.active_player_id)
    }

    pub(crate) fn hero_slot(&self, id: HeroId) -> (r: Option<usize>)
        ensures
            r is Some <==> hero_index(self.heroes@, id) >= 0,
            r matches Some(i) ==> i == hero_index(self.heroes@, id) && i < self.heroes@.len(),
    {
        let ghost keys = hero_keys(self.heroes@);
        proof {
            lemma_first_from(keys, id.0, 0);
        }
        let mut i: usize = 0;
        while i < self.heroes.len()
            invariant
                i <= self.heroes@.len(),
                keys == hero_keys(self.heroes@),
                keys.len() == self.heroes@.len(),
                first_from(keys, id.0, 0) == first_from(keys, id.0, i as int),
            decreases self.heroes@.len() - i,
        {
            if self.heroes[i].id == id {
                return Some(i);
            }
            i = i + 1;
        }
        None
    }

    pub(crate) fn player_slot(&self, id: PlayerId) -> (r: Option<usize>)
        ensures
            r is Some <==> player_index(self.players@, id) >= 0,
            r matches Some(i) ==> i == player_index(self.players@, id) && i < self.players@.len(),
    {
        let ghost keys = player_keys(self.players@);
        proof {
            lemma_first_from(keys, id.0, 0);
        }
        let mut i: usize = 0;
        while i < self.players.len()
            invariant
                i <= self.players@.len(),
                keys == player_keys(self.players@),
                keys.len() == self.players@.len(),
                first_from(keys, id.0, 0) == first_from(keys, id.0, i as int),
            decreases self.players@.len() - i,
        {
            if self.players[i].id == id {
                return Some(i);
            }
            i = i + 1;
        }
        None
    }

    pub(crate) fn town_slot(&self, id: TownId) -> (r: Option<usize>)
        ensures
            r is Some <==> town_index(self.towns@, id) >= 0,
            r matches Some(i) ==> i == town_index(self.towns@, id) && i < self.towns@.len(),
    {
        let ghost keys = town_keys(self.towns@);
        proof {
            lemma_first_from(keys, id.0, 0);
        }
        let mut i: usize = 0;
        while i < self.towns.len()
            invariant
                i <= self.towns@.len(),
                keys == town_keys(self.towns@),
                keys.len() == self.towns@.len(),
                first_from(keys, id.0, 0) == first_from(keys, id.0, i as int),
            decreases self.towns@.len() - i,
        {
            if self.towns[i].id == id {
                return Some(i);
            }
            i = i + 1;
        }
        None
    }

    /// The first hero named `id`.
    pub fn get_hero(&self, id: HeroId) -> (r: Option<&Hero>)
        ensures
            r is Some <==> hero_index(self.heroes@, id) >= 0,
            r matches Some(h) ==> *h == self.heroes@[hero_index(self.heroes@, id)],
    {
        match self.hero_slot(id) {
            Some(i) => Some(&self.heroes[i]),
            None => None,
        }
    }

    /// The first hero named `id`, for changing it.
    pub fn get_hero_mut(&mut self, id: HeroId) -> (r: Option<&mut Hero>)
        ensures
            r is Some <==> hero_index(old(self).heroes@, id) >= 0,
            r is None ==> *final(self) == *old(self),
            r matches Some(h) ==> *h == old(self).heroes@[hero_index(old(self).heroes@, id)],
            r matches Some(h) ==> final(self).heroes@ == old(self).heroes@.update(
                hero_index(old(self).heroes@, id),
                *final(h),
            ),
            final(self).map == old(self).map,
            final(self).players == old(self).players,
            final(self).towns == old(self).towns,
            final(self).current_day == old(self).current_day,
            final(self).active_player_id == old(self).active_player_id,
    {
        match self.hero_slot(id) {
            Some(i) => Some(&mut self.heroes[i]),
            None => None,
        }
    }

    /// The first player named `id`.
    pub fn get_player(&self, id: PlayerId) -> (r: Option<&Player>)
        ensures
            r is Some <==> player_index(self.players@, id) >= 0,
            r matches Some(p) ==> *p == self.players@[player_index(self.players@, id)],
    {
        match self.player_slot(id) {
            Some(i) => Some(&self.players[i]),
            None => None,
        }
    }

    /// The first player named `id`, for changing it.
    pub fn get_player_mut(&mut self, id: PlayerId) -> (r: Option<&mut Player>)
        ensures
            r is Some <==> player_index(old(self).players@, id) >= 0,
            r is None ==> *final(self) == *old(self),
            r matches Some(p) ==> *p == old(self).players@[player_index(old(self).players@, id)],
            r matches Some(p) ==> final(self).players@ == old(self).players@.update(
                player_index(old(self).players@, id),
                *final(p),
            ),
            final(self).map == old(self).map,
            final(self).heroes == old(self).heroes,
            final(self).towns == old(self).towns,
            final(self).current_day == old(self).current_day,
            final(self).active_player_id == old(self).active_player_id,
    {
        match self.player_slot(id) {
            Some(i) => Some(&mut self.players[i]),
            None => None,
        }
    }

    /// The first town named `id`, for changing it.
    pub fn get_town_mut(&mut self, id: TownId) -> (r: Option<&mut Town>)
        ensures
            r is Some <==> town_index(old(self).towns@, id) >= 0,
            r is None ==> *final(self) == *old(self),
            r matches Some(t) ==> *t == old(self).towns@[town_index(old(self).towns@, id)],
            r matches Some(t) ==> final(self).towns@ == old(self).towns@.update(
                town_index(old(self).towns@, id),
                *final(t),
            ),
            final(self).map == old(self).map,
            final(self).heroes == old(self).heroes,
            final(self).players == old(self).players,
            final(self).current_day == old(self).current_day,
            final(self).active_player_id == old(self).active_player_id,
    {
        match self.town_slot(id) {
            Some(i) => Some(&mut self.towns[i]),
            None => None,
        }
    }

    /// The player whose turn it is; the game always has one.
    pub fn active_player_mut(&mut self) -> (r: &mut Player)
        requires
            old(self).active_index() >= 0,
        ensures
            *r == old(self).players@[old(self).active_index()],
            final(self).players@ == old(self).players@.update(old(self).active_index(), *final(r)),
            final(self).map == old(self).map,
            final(self).heroes == old(self).heroes,
            final(self).towns == old(self).towns,
            final(self).current_day == old(self).current_day,
            final(self).active_player_id == old(self).active_player_id,
    {
        let id = self.active_player_id;
        let i = self.player_slot(id).unwrap();
        &mut self.players[i]
    }

    /// How many neutral armies are left on the map.
    pub fn count_neutral_armies(&self) -> (r: usize)
        ensures
            r == neutral_count(self.map.tiles@),
    {
        let tiles = &self.map.tiles;
        let mut n: usize = 0;
        let mut i: usize = 0;
        while i < tiles.len()
            invariant
                i <= tiles@.len(),
                n == neutral_count(tiles@.take(i as int)),
                n <= i,
            decreases tiles@.len() - i,
        {
            assert(tiles@.take(i + 1).drop_last() =~= tiles@.take(i as int));
            if matches!(tiles[i].object, Some(MapObject::NeutralArmy(_))) {
                n = n + 1;
            }
            i = i + 1;
        }
        assert(tiles@.take(i as int) =~= tiles@);
        n
    }
}

} // verus!
