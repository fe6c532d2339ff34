use heroes_of_rust::engine::commands::{CommandError, GameCommand, GameEvent};
use heroes_of_rust::engine::hero::{Army, ArmyFull, Hero, HeroId, UnitStack, UnitType};
use heroes_of_rust::engine::map::{AdventureMap, MapObject, Position, TileKind};
use heroes_of_rust::engine::player::{Player, PlayerId, Town, TownId};
use heroes_of_rust::engine::resources::ResourceBag;
use heroes_of_rust::engine::state::GameState;

fn make_unit_type() -> UnitType {
    UnitType {
        name: "Goblin".to_string(),
        damage_per_unit: 2,
        hp: 5,
        cost: ResourceBag::gold(50),
    }
}

fn make_test_state() -> GameState {
    let mut map = AdventureMap::new(10, 10);
    map.get_mut(Position::new(2, 0)).unwrap().kind = TileKind::Obstacle;

    let hero = Hero {
        id: HeroId(1),
        name: "Aldric".to_string(),
        position: Position::new(1, 0),
        army: Army::new(),
        movement_points: 5,
        movement_points_max: 5,
        sight_range: 2,
        attack: 1,
        defense: 1,
    };

    let mut player = Player::new(PlayerId(1));
    player.hero_ids.push(HeroId(1));
    player.resources = ResourceBag::gold(500);

    GameState {
        map,
        players: vec![player],
        heroes: vec![hero],
        towns: vec![],
        current_day: 1,
        active_player_id: PlayerId(1),
    }
}

fn town_at(position: Position, recruits: u32, income: u32, growth: Vec<u32>) -> Town {
    Town {
        id: TownId(1),
        position,
        garrison: Army::new(),
        available_recruits: if recruits > 0 { vec![(make_unit_type(), recruits)] } else { vec![] },
        income: ResourceBag::gold(income),
        daily_growth: growth,
    }
}

#[test]
fn hero_moves_to_free_tile() {
    let mut state = make_test_state();
    let result = state.apply(GameCommand::MoveHero {
        hero_id: HeroId(1),
        target: Position::new(0, 0),
    });
    assert!(result.is_ok());
    let hero = state.get_hero(HeroId(1)).unwrap();
    assert_eq!(hero.position, Position::new(0, 0));
    assert_eq!(hero.movement_points, 4);
}

#[test]
fn hero_cannot_move_to_obstacle() {
    let mut state = make_test_state();
    let result = state.apply(GameCommand::MoveHero {
        hero_id: HeroId(1),
        target: Position::new(2, 0),
    });
    assert_eq!(result, Err(CommandError::TileNotPassable));
}

#[test]
fn hero_cannot_move_without_mp() {
    let mut state = make_test_state();
    state.get_hero_mut(HeroId(1)).unwrap().movement_points = 0;
    let result = state.apply(GameCommand::MoveHero {
        hero_id: HeroId(1),
        target: Position::new(0, 0),
    });
    assert_eq!(result, Err(CommandError::NoMovementPoints));
}

#[test]
fn hero_collects_resource() {
    let mut state = make_test_state();
    state.map.get_mut(Position::new(1, 0)).unwrap().object =
        Some(MapObject::ResourcePile(ResourceBag::gold(100)));

    let result = state.apply(GameCommand::CollectResource { hero_id: HeroId(1) });
    assert!(result.is_ok());

    let player = state.get_player(PlayerId(1)).unwrap();
    assert_eq!(player.resources.gold, 600);

    let tile = state.map.get(Position::new(1, 0)).unwrap();
    assert!(tile.object.is_none());
}

#[test]
fn hero_cannot_collect_from_empty_tile() {
    let mut state = make_test_state();
    let result = state.apply(GameCommand::CollectResource { hero_id: HeroId(1) });
    assert_eq!(result, Err(CommandError::NothingToCollect));
}

#[test]
fn recruit_units_success() {
    let mut state = make_test_state();
    state.towns.push(town_at(Position::new(1, 0), 10, 0, vec![]));

    let result = state.apply(GameCommand::RecruitUnits {
        town_id: TownId(1),
        unit_type_idx: 0,
        count: 3,
    });
    assert!(result.is_ok(), "{result:?}");

    let player = state.get_player(PlayerId(1)).unwrap();
    assert_eq!(player.resources.gold, 350);

    let hero = state.get_hero(HeroId(1)).unwrap();
    assert_eq!(hero.army.0.len(), 1);
    assert_eq!(hero.army.0[0].count, 3);
}

#[test]
fn recruit_units_insufficient_funds() {
    let mut state = make_test_state();
    state.active_player_mut().resources = ResourceBag::gold(10);
    state.towns.push(town_at(Position::new(1, 0), 10, 0, vec![]));

    let result = state.apply(GameCommand::RecruitUnits {
        town_id: TownId(1),
        unit_type_idx: 0,
        count: 1,
    });
    assert_eq!(result, Err(CommandError::InsufficientFunds));
}

#[test]
fn end_turn_restores_movement() {
    let mut state = make_test_state();
    state.get_hero_mut(HeroId(1)).unwrap().movement_points = 1;

    state.apply(GameCommand::EndTurn).unwrap();

    let hero = state.get_hero(HeroId(1)).unwrap();
    assert_eq!(hero.movement_points, hero.movement_points_max);
}

#[test]
fn recruit_units_hero_not_in_town() {
    let mut state = make_test_state();
    state.towns.push(town_at(Position::new(5, 5), 10, 0, vec![]));

    let result = state.apply(GameCommand::RecruitUnits {
        town_id: TownId(1),
        unit_type_idx: 0,
        count: 1,
    });
    assert_eq!(result, Err(CommandError::NotInTown));
}

#[test]
fn end_turn_replenishes_recruits() {
    let mut state = make_test_state();
    state.towns.push(town_at(Position::new(5, 5), 3, 0, vec![5]));

    state.apply(GameCommand::EndTurn).unwrap();

    let town = state.towns.iter().find(|t| t.id == TownId(1)).unwrap();
    assert_eq!(town.available_recruits[0].1, 8);
}

#[test]
fn end_turn_grants_income() {
    let mut state = make_test_state();
    state.towns.push(town_at(Position::new(5, 5), 0, 250, vec![]));

    let gold_before = state.get_player(PlayerId(1)).unwrap().resources.gold;
    state.apply(GameCommand::EndTurn).unwrap();
    let gold_after = state.get_player(PlayerId(1)).unwrap().resources.gold;

    assert_eq!(gold_after - gold_before, 250);
}

#[test]
fn move_into_neutral_army_triggers_battle() {
    let mut state = make_test_state();
    let goblin = make_unit_type();
    state.map.get_mut(Position::new(0, 0)).unwrap().object =
        Some(MapObject::NeutralArmy(Army(vec![UnitStack::new(goblin, 3)])));

    let result = state.apply(GameCommand::MoveHero {
        hero_id: HeroId(1),
        target: Position::new(0, 0),
    });

    let events = result.expect("command should succeed");
    assert!(events.contains(&GameEvent::BattleStarted {
        attacker: HeroId(1),
        defender_pos: Position::new(0, 0),
    }));
    assert_eq!(
        state.get_hero(HeroId(1)).unwrap().position,
        Position::new(1, 0)
    );
}

// --- further cases of the rules ---

#[test]
fn move_reports_the_step() {
    let mut state = make_test_state();
    let events = state
        .apply(GameCommand::MoveHero { hero_id: HeroId(1), target: Position::new(1, 1) })
        .unwrap();
    assert_eq!(
        events,
        vec![GameEvent::HeroMoved {
            hero_id: HeroId(1),
            from: Position::new(1, 0),
            to: Position::new(1, 1)
        }]
    );
}

#[test]
fn move_unknown_hero_is_refused() {
    let mut state = make_test_state();
    let result = state.apply(GameCommand::MoveHero { hero_id: HeroId(9), target: Position::new(0, 0) });
    assert_eq!(result, Err(CommandError::HeroNotFound));
}

#[test]
fn move_other_players_hero_is_refused() {
    let mut state = make_test_state();
    state.players[0].hero_ids.clear();
    let result = state.apply(GameCommand::MoveHero { hero_id: HeroId(1), target: Position::new(0, 0) });
    assert_eq!(result, Err(CommandError::NotYourHero));
}

#[test]
fn move_two_tiles_is_refused() {
    let mut state = make_test_state();
    let result = state.apply(GameCommand::MoveHero { hero_id: HeroId(1), target: Position::new(3, 0) });
    assert_eq!(result, Err(CommandError::NotAdjacent));
    let result = state.apply(GameCommand::MoveHero { hero_id: HeroId(1), target: Position::new(2, 1) });
    assert_eq!(result, Err(CommandError::NotAdjacent));
    assert_eq!(state.get_hero(HeroId(1)).unwrap().movement_points, 5);
}

#[test]
fn move_off_the_map_is_refused() {
    let mut state = make_test_state();
    state.get_hero_mut(HeroId(1)).unwrap().position = Position::new(0, 0);
    let result = state.apply(GameCommand::MoveHero { hero_id: HeroId(1), target: Position::new(-1, 0) });
    assert_eq!(result, Err(CommandError::TileNotPassable));
}

#[test]
fn attacking_without_mp_is_refused() {
    let mut state = make_test_state();
    state.get_hero_mut(HeroId(1)).unwrap().movement_points = 0;
    state.map.get_mut(Position::new(0, 0)).unwrap().object =
        Some(MapObject::NeutralArmy(Army(vec![UnitStack::new(make_unit_type(), 3)])));
    let result = state.apply(GameCommand::MoveHero { hero_id: HeroId(1), target: Position::new(0, 0) });
    assert_eq!(result, Err(CommandError::NoMovementPoints));
}

#[test]
fn collect_reports_amount_and_unknown_hero() {
    let mut state = make_test_state();
    state.map.get_mut(Position::new(1, 0)).unwrap().object =
        Some(MapObject::ResourcePile(ResourceBag::gold(75)));
    assert_eq!(
        state.apply(GameCommand::CollectResource { hero_id: HeroId(1) }),
        Ok(vec![GameEvent::ResourceCollected { hero_id: HeroId(1), amount: ResourceBag::gold(75) }])
    );
    assert_eq!(
        state.apply(GameCommand::CollectResource { hero_id: HeroId(2) }),
        Err(CommandError::HeroNotFound)
    );
}

#[test]
fn recruit_errors() {
    let mut state = make_test_state();
    assert_eq!(
        state.apply(GameCommand::RecruitUnits { town_id: TownId(1), unit_type_idx: 0, count: 1 }),
        Err(CommandError::TownNotFound)
    );
    state.towns.push(town_at(Position::new(1, 0), 2, 0, vec![]));
    assert_eq!(
        state.apply(GameCommand::RecruitUnits { town_id: TownId(1), unit_type_idx: 1, count: 1 }),
        Err(CommandError::NotEnoughRecruitsAvailable)
    );
    assert_eq!(
        state.apply(GameCommand::RecruitUnits { town_id: TownId(1), unit_type_idx: 0, count: 3 }),
        Err(CommandError::NotEnoughRecruitsAvailable)
    );
    assert_eq!(state.players[0].resources.gold, 500);
    assert_eq!(state.towns[0].available_recruits[0].1, 2);
}

#[test]
fn recruit_into_full_army_still_pays() {
    let mut state = make_test_state();
    for i in 0..7 {
        let ty = UnitType {
            name: format!("Unit{i}"),
            damage_per_unit: 1,
            hp: 1,
            cost: ResourceBag::gold(0),
        };
        state.heroes[0].army.0.push(UnitStack::new(ty, 1));
    }
    state.towns.push(town_at(Position::new(1, 0), 10, 0, vec![]));
    let result = state.apply(GameCommand::RecruitUnits { town_id: TownId(1), unit_type_idx: 0, count: 2 });
    assert_eq!(result, Err(CommandError::ArmyFull));
    assert_eq!(state.players[0].resources.gold, 400);
    assert_eq!(state.towns[0].available_recruits[0].1, 8);
    assert_eq!(state.heroes[0].army.0.len(), 7);
}

#[test]
fn recruiting_twice_merges_the_stack() {
    let mut state = make_test_state();
    state.towns.push(town_at(Position::new(1, 0), 10, 0, vec![]));
    for _ in 0..2 {
        state
            .apply(GameCommand::RecruitUnits { town_id: TownId(1), unit_type_idx: 0, count: 2 })
            .unwrap();
    }
    let hero = state.get_hero(HeroId(1)).unwrap();
    assert_eq!(hero.army.0.len(), 1);
    assert_eq!(hero.army.0[0].count, 4);
    assert_eq!(state.towns[0].available_recruits[0].1, 6);
    assert_eq!(state.players[0].resources.gold, 300);
}

#[test]
fn end_turn_events_and_day() {
    let mut state = make_test_state();
    state.towns.push(town_at(Position::new(5, 5), 0, 250, vec![]));
    let events = state.apply(GameCommand::EndTurn).unwrap();
    assert_eq!(
        events,
        vec![
            GameEvent::DayIncome { player_id: PlayerId(1), amount: ResourceBag::gold(250) },
            GameEvent::TurnEnded { day: 2 }
        ]
    );
    assert_eq!(state.current_day, 2);
}

#[test]
fn end_turn_without_active_player_is_refused() {
    let mut state = make_test_state();
    state.active_player_id = PlayerId(7);
    assert_eq!(state.apply(GameCommand::EndTurn), Err(CommandError::HeroNotFound));
    assert_eq!(state.current_day, 1);
}

#[test]
fn army_full_converts_to_command_error() {
    assert_eq!(CommandError::from(ArmyFull), CommandError::ArmyFull);
}
