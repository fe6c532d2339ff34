use heroes_of_rust::adventure::{can_step, step_towards, Direction};
use heroes_of_rust::battle::state::deployable;
use heroes_of_rust::engine::commands::GameCommand;
use heroes_of_rust::engine::hero::{Army, Hero, HeroId, UnitStack, UnitType};
use heroes_of_rust::engine::map::{AdventureMap, MapObject, Position};
use heroes_of_rust::engine::player::{Player, PlayerId, Town, TownId};
use heroes_of_rust::engine::resources::ResourceBag;
use heroes_of_rust::engine::state::GameState;

fn peasant(cost: u32) -> UnitType {
    UnitType { name: "Peasant".to_string(), damage_per_unit: 1, hp: 3, cost: ResourceBag::gold(cost) }
}

fn game(gold: u32) -> GameState {
    let mut map = AdventureMap::new(6, 6);
    map.get_mut(Position::new(2, 3)).unwrap().object =
        Some(MapObject::ResourcePile(ResourceBag::gold(100)));
    let hero = Hero {
        id: HeroId(1),
        name: "Gorm".to_string(),
        position: Position::new(2, 2),
        army: Army(vec![UnitStack::new(peasant(10), 5)]),
        movement_points: 3,
        movement_points_max: 3,
        sight_range: 3,
        attack: 3,
        defense: 0,
    };
    let mut player = Player::new(PlayerId(0));
    player.hero_ids.push(HeroId(1));
    player.resources = ResourceBag::gold(gold);
    let mut town = Town::new(TownId(1), Position::new(2, 2), ResourceBag::gold(200));
    town.available_recruits.push((peasant(10), 4));
    town.daily_growth.push(5);
    GameState {
        map,
        players: vec![player],
        heroes: vec![hero],
        towns: vec![town],
        current_day: 1,
        active_player_id: PlayerId(0),
    }
}

#[test]
fn map_well_formedness_is_tested() {
    let mut map = AdventureMap::new(4, 3);
    assert!(map.is_well_formed());
    map.tiles.pop();
    assert!(!map.is_well_formed());
}

#[test]
fn commands_that_would_overflow_do_not_fit() {
    let gs = game(500);
    assert!(gs.can_carry_out(GameCommand::EndTurn));
    assert!(gs.can_carry_out(GameCommand::MoveHero { hero_id: HeroId(1), target: Position::new(9, 9) }));
    assert!(gs.can_carry_out(GameCommand::RecruitUnits { town_id: TownId(1), unit_type_idx: 0, count: 1 }));
    let gs = game(u32::MAX - 100);
    assert!(!gs.can_carry_out(GameCommand::EndTurn));
    let mut gs = game(0);
    gs.current_day = u32::MAX;
    assert!(!gs.can_carry_out(GameCommand::EndTurn));
    let mut gs = game(0);
    gs.towns[0].daily_growth[0] = u32::MAX;
    assert!(!gs.can_carry_out(GameCommand::EndTurn));
    let mut gs = game(u32::MAX);
    gs.heroes[0].army.0[0].count = u32::MAX;
    assert!(!gs.can_carry_out(GameCommand::RecruitUnits { town_id: TownId(1), unit_type_idx: 0, count: 1 }));
    // refused anyway: the town does not exist
    assert!(gs.can_carry_out(GameCommand::RecruitUnits { town_id: TownId(5), unit_type_idx: 0, count: 1 }));
    let mut gs = game(u32::MAX);
    gs.heroes[0].position = Position::new(2, 3);
    assert!(!gs.can_carry_out(GameCommand::CollectResource { hero_id: HeroId(1) }));
    let gs = game(u32::MAX);
    assert!(gs.can_carry_out(GameCommand::CollectResource { hero_id: HeroId(1) }));
}

#[test]
fn steps_that_would_overflow_do_not_fit() {
    let gs = game(500);
    assert!(can_step(&gs, HeroId(1), Position::new(2, 3)));
    let gs = game(u32::MAX);
    assert!(!can_step(&gs, HeroId(1), Position::new(2, 3)));
    assert!(can_step(&gs, HeroId(1), Position::new(2, 1)));
    let mut gs = game(0);
    gs.heroes[0].sight_range = 40000;
    assert!(!can_step(&gs, HeroId(1), Position::new(2, 1)));
    // a refused step fits: nothing happens
    assert!(can_step(&gs, HeroId(1), Position::new(4, 4)));
}

#[test]
fn step_towards_each_direction() {
    let p = Position::new(5, 5);
    assert_eq!(step_towards(p, Direction::Up), Position::new(5, 4));
    assert_eq!(step_towards(p, Direction::Down), Position::new(5, 6));
    assert_eq!(step_towards(p, Direction::Left), Position::new(4, 5));
    assert_eq!(step_towards(p, Direction::Right), Position::new(6, 5));
}

#[test]
fn deployable_needs_health_and_bounded_damage() {
    assert!(deployable(&[UnitStack::new(peasant(0), 7)]));
    let mut ghost = peasant(0);
    ghost.hp = 0;
    assert!(!deployable(&[UnitStack::new(peasant(0), 7), UnitStack::new(ghost, 1)]));
    let mut brute = peasant(0);
    brute.damage_per_unit = 1 << 20;
    assert!(!deployable(&[UnitStack::new(brute, 1 << 13)]));
    assert!(deployable(&[]));
}

#[test]
fn army_merge_check() {
    let army = Army(vec![UnitStack::new(peasant(0), u32::MAX - 2)]);
    assert!(army.can_merge(&UnitStack::new(peasant(0), 2)));
    assert!(!army.can_merge(&UnitStack::new(peasant(0), 3)));
    let mut other = peasant(0);
    other.name = "Archer".to_string();
    assert!(army.can_merge(&UnitStack::new(other, u32::MAX)));
}
