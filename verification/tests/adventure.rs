use heroes_of_rust::adventure::{active_hero_id, apply_move, available_moves, MoveOutcome};
use heroes_of_rust::battle::flow::{open_battle, settle_battle};
use heroes_of_rust::battle::state::{BattleState, Side};
use heroes_of_rust::engine::hero::{Army, Hero, HeroId, UnitStack, UnitType};
use heroes_of_rust::engine::map::{AdventureMap, MapObject, Position, TileKind, VisibilityState};
use heroes_of_rust::engine::player::{Player, PlayerId, Town, TownId};
use heroes_of_rust::engine::resources::ResourceBag;
use heroes_of_rust::engine::state::GameState;

fn goblin() -> UnitType {
    UnitType { name: "Goblin".to_string(), damage_per_unit: 2, hp: 5, cost: ResourceBag::gold(50) }
}

fn state_with_hero(army: Vec<UnitStack>, mp: u32) -> GameState {
    let mut map = AdventureMap::new(10, 10);
    map.get_mut(Position::new(5, 4)).unwrap().kind = TileKind::Water;
    map.get_mut(Position::new(3, 4)).unwrap().object =
        Some(MapObject::NeutralArmy(Army(vec![UnitStack::new(goblin(), 6)])));
    map.get_mut(Position::new(4, 3)).unwrap().object = Some(MapObject::Town(TownId(7)));
    map.get_mut(Position::new(4, 5)).unwrap().object =
        Some(MapObject::ResourcePile(ResourceBag::gold(120)));
    let hero = Hero {
        id: HeroId(3),
        name: "Valeria".to_string(),
        position: Position::new(4, 4),
        army: Army(army),
        movement_points: mp,
        movement_points_max: 10,
        sight_range: 2,
        attack: 0,
        defense: 0,
    };
    let mut player = Player::new(PlayerId(2));
    player.hero_ids.push(HeroId(3));
    player.resources = ResourceBag::gold(30);
    GameState {
        map,
        players: vec![player],
        heroes: vec![hero],
        towns: vec![Town::new(TownId(7), Position::new(4, 3), ResourceBag::gold(100))],
        current_day: 4,
        active_player_id: PlayerId(2),
    }
}

#[test]
fn active_hero_is_first_of_active_player() {
    let gs = state_with_hero(vec![], 5);
    assert_eq!(active_hero_id(&gs), Some(HeroId(3)));
    let mut gs = state_with_hero(vec![], 5);
    gs.active_player_id = PlayerId(9);
    assert_eq!(active_hero_id(&gs), None);
    let mut gs = state_with_hero(vec![], 5);
    gs.players[0].hero_ids.clear();
    assert_eq!(active_hero_id(&gs), None);
}

#[test]
fn available_moves_skip_water_and_neutrals() {
    let gs = state_with_hero(vec![], 5);
    // up (4,3) is a town on ground, down (4,5) holds a pile, left (3,4) a neutral army, right water
    assert_eq!(available_moves(&gs), vec![Position::new(4, 3), Position::new(4, 5)]);
    let gs = state_with_hero(vec![], 0);
    assert!(available_moves(&gs).is_empty());
}

#[test]
fn stepping_into_town_reports_it() {
    let mut gs = state_with_hero(vec![], 5);
    match apply_move(&mut gs, HeroId(3), Position::new(4, 3)) {
        MoveOutcome::Town(id) => assert_eq!(id, TownId(7)),
        other => panic!("expected a town, got {other:?}"),
    }
    assert_eq!(gs.heroes[0].position, Position::new(4, 3));
    assert_eq!(gs.heroes[0].movement_points, 4);
    assert_eq!(gs.map.get_visibility(Position::new(4, 1)), Some(VisibilityState::Visible));
    assert_eq!(gs.map.get_visibility(Position::new(4, 6)), Some(VisibilityState::Unexplored));
}

#[test]
fn stepping_onto_pile_collects_it() {
    let mut gs = state_with_hero(vec![], 5);
    assert!(matches!(apply_move(&mut gs, HeroId(3), Position::new(4, 5)), MoveOutcome::Nothing));
    assert_eq!(gs.players[0].resources.gold, 150);
    assert!(gs.map.get(Position::new(4, 5)).unwrap().object.is_none());
    assert_eq!(gs.heroes[0].position, Position::new(4, 5));
}

#[test]
fn stepping_onto_neutrals_starts_battle() {
    let mut gs = state_with_hero(vec![UnitStack::new(goblin(), 4)], 5);
    match apply_move(&mut gs, HeroId(3), Position::new(3, 4)) {
        MoveOutcome::Battle(pb) => {
            assert_eq!(pb.attacker_hero_id, HeroId(3));
            assert_eq!(pb.defender_pos, Position::new(3, 4));
            assert_eq!(pb.defender_army.0.len(), 1);
            assert_eq!(pb.defender_army.0[0].count, 6);
        }
        other => panic!("expected a battle, got {other:?}"),
    }
    // the hero does not move and keeps its points; the fog is refreshed around it
    assert_eq!(gs.heroes[0].position, Position::new(4, 4));
    assert_eq!(gs.heroes[0].movement_points, 5);
    assert_eq!(gs.map.get_visibility(Position::new(4, 2)), Some(VisibilityState::Visible));
}

#[test]
fn hero_without_creatures_does_not_fight() {
    let mut gs = state_with_hero(vec![UnitStack::new(goblin(), 0)], 5);
    assert!(matches!(apply_move(&mut gs, HeroId(3), Position::new(3, 4)), MoveOutcome::Nothing));
    assert_eq!(gs.heroes[0].position, Position::new(4, 4));
}

#[test]
fn refused_step_changes_nothing() {
    let mut gs = state_with_hero(vec![], 5);
    assert!(matches!(apply_move(&mut gs, HeroId(3), Position::new(5, 4)), MoveOutcome::Nothing));
    assert!(matches!(apply_move(&mut gs, HeroId(3), Position::new(6, 4)), MoveOutcome::Nothing));
    assert!(matches!(apply_move(&mut gs, HeroId(8), Position::new(4, 3)), MoveOutcome::Nothing));
    assert_eq!(gs.heroes[0].position, Position::new(4, 4));
    assert_eq!(gs.heroes[0].movement_points, 5);
    assert_eq!(gs.map.get_visibility(Position::new(4, 4)), Some(VisibilityState::Unexplored));
}

#[test]
fn battle_without_attackers_is_lost_at_once() {
    let gs = state_with_hero(vec![], 5);
    let defender = Army(vec![UnitStack::new(goblin(), 2)]);
    assert!(matches!(open_battle(&gs, HeroId(3), &defender), Err(Side::Defender)));
    assert!(matches!(open_battle(&gs, HeroId(99), &defender), Err(Side::Defender)));
}

#[test]
fn won_battle_keeps_survivors_and_clears_tile() {
    let mut gs = state_with_hero(vec![UnitStack::new(goblin(), 10)], 5);
    let defender = Army(vec![UnitStack::new(goblin(), 2)]);
    let mut battle: BattleState = open_battle(&gs, HeroId(3), &defender).unwrap();
    battle.attack(heroes_of_rust::battle::state::StackId(1));
    assert_eq!(battle.is_over(), Some(Side::Attacker));
    assert_eq!(gs.count_neutral_armies(), 1);
    settle_battle(&mut gs, HeroId(3), Position::new(3, 4), Side::Attacker, &battle);
    assert_eq!(gs.count_neutral_armies(), 0);
    assert_eq!(gs.heroes[0].army.0.len(), 1);
    assert_eq!(gs.heroes[0].army.0[0].count, 10);
}

#[test]
fn lost_battle_clears_army() {
    let mut gs = state_with_hero(vec![UnitStack::new(goblin(), 1)], 5);
    let defender = Army(vec![UnitStack::new(goblin(), 20)]);
    let battle = open_battle(&gs, HeroId(3), &defender).unwrap();
    settle_battle(&mut gs, HeroId(3), Position::new(3, 4), Side::Defender, &battle);
    assert_eq!(gs.count_neutral_armies(), 1);
    assert!(gs.heroes[0].army.0.is_empty());
    assert_eq!(gs.heroes[0].position, Position::new(4, 4));
    assert_eq!(gs.heroes[0].movement_points, 5);
    assert_eq!(gs.players[0].resources.gold, 30);
}
