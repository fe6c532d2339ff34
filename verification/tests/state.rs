use heroes_of_rust::engine::hero::{Army, Hero, HeroId, UnitStack, UnitType};
use heroes_of_rust::engine::map::{AdventureMap, MapObject, Position};
use heroes_of_rust::engine::player::{Player, PlayerId, Town, TownId};
use heroes_of_rust::engine::resources::ResourceBag;
use heroes_of_rust::engine::state::GameState;

fn minimal_state(map: AdventureMap) -> GameState {
    GameState {
        map,
        players: vec![Player::new(PlayerId(0))],
        heroes: vec![],
        towns: vec![],
        current_day: 1,
        active_player_id: PlayerId(0),
    }
}

fn neutral_army() -> MapObject {
    let unit = UnitType {
        name: "Гоблин".to_string(),
        damage_per_unit: 2,
        hp: 5,
        cost: ResourceBag::gold(0),
    };
    MapObject::NeutralArmy(Army(vec![UnitStack::new(unit, 3)]))
}

#[test]
fn victory_when_all_neutrals_dead() {
    let map = AdventureMap::new(5, 5);
    let gs = minimal_state(map);
    assert_eq!(gs.count_neutral_armies(), 0);
}

#[test]
fn neutrals_counted_correctly() {
    let mut map = AdventureMap::new(5, 5);
    map.get_mut(Position::new(1, 0)).unwrap().object = Some(neutral_army());
    map.get_mut(Position::new(2, 0)).unwrap().object = Some(neutral_army());
    map.get_mut(Position::new(3, 0)).unwrap().object = Some(neutral_army());

    let mut gs = minimal_state(map);
    assert_eq!(gs.count_neutral_armies(), 3);

    gs.map.get_mut(Position::new(1, 0)).unwrap().object = None;
    assert_eq!(gs.count_neutral_armies(), 2);
}

fn hero(id: u32, x: i32) -> Hero {
    Hero {
        id: HeroId(id),
        name: format!("H{id}"),
        position: Position::new(x, 0),
        army: Army::new(),
        movement_points: 3,
        movement_points_max: 3,
        sight_range: 1,
        attack: 0,
        defense: 0,
    }
}

#[test]
fn lookups_find_the_first_match() {
    let mut gs = minimal_state(AdventureMap::new(3, 3));
    gs.heroes = vec![hero(1, 0), hero(2, 1), hero(2, 2)];
    gs.towns = vec![Town::new(TownId(4), Position::new(1, 1), ResourceBag::gold(5))];
    assert_eq!(gs.get_hero(HeroId(2)).unwrap().position, Position::new(1, 0));
    assert!(gs.get_hero(HeroId(3)).is_none());
    gs.get_hero_mut(HeroId(2)).unwrap().movement_points = 0;
    assert_eq!(gs.heroes[1].movement_points, 0);
    assert_eq!(gs.heroes[2].movement_points, 3);
    assert!(gs.get_player(PlayerId(0)).is_some());
    assert!(gs.get_player(PlayerId(1)).is_none());
    gs.get_player_mut(PlayerId(0)).unwrap().resources.gold = 9;
    assert_eq!(gs.active_player_mut().resources.gold, 9);
    assert_eq!(gs.get_town_mut(TownId(4)).unwrap().income.gold, 5);
    assert!(gs.get_town_mut(TownId(5)).is_none());
}
