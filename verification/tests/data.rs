use heroes_of_rust::data::{
    definition_fits, map_def_to_game_state, resolve, unknown_unit_id, HeroDef, MapDefinition, NeutralArmyDef,
    ResourcePileDef, StackRef, TownDef, UnitTypeDef,
};
use heroes_of_rust::engine::map::{MapObject, Position, TileKind, VisibilityState};
use heroes_of_rust::engine::player::TownId;

fn unit(id: &str, name: &str, damage: u32, hp: u32, cost: u32, growth: u32) -> UnitTypeDef {
    UnitTypeDef {
        id: id.to_string(),
        name: name.to_string(),
        damage,
        hp,
        cost,
        daily_growth: growth,
    }
}

fn catalogue() -> Vec<UnitTypeDef> {
    vec![
        unit("peasant", "Крестьянин", 1, 3, 20, 5),
        unit("goblin", "Гоблин", 2, 5, 40, 4),
        unit("orc", "Орк", 4, 12, 90, 2),
        unit("troll", "Тролль", 8, 25, 200, 1),
        unit("archer", "Лучник", 3, 8, 70, 3),
    ]
}

fn refs(list: &[(&str, u32)]) -> Vec<StackRef> {
    list.iter().map(|(id, count)| StackRef { id: id.to_string(), count: *count }).collect()
}

fn default_like_map() -> MapDefinition {
    MapDefinition {
        width: 20,
        height: 15,
        obstacles: vec![(3, 3), (4, 3), (10, 10)],
        water: vec![(10, 10), (12, 1)],
        resource_piles: vec![ResourcePileDef { pos: (2, 5), gold: 100 }],
        towns: vec![TownDef {
            id: 1,
            pos: (4, 2),
            daily_income: 250,
            recruits: refs(&[("peasant", 10), ("archer", 4)]),
        }],
        neutral_armies: vec![
            NeutralArmyDef { pos: (7, 5), units: refs(&[("goblin", 5)]) },
            NeutralArmyDef { pos: (13, 6), units: refs(&[("orc", 4)]) },
            NeutralArmyDef { pos: (17, 10), units: refs(&[("troll", 2)]) },
        ],
        hero: HeroDef {
            pos: (1, 1),
            name: "Aldric".to_string(),
            movement_points: 10,
            army: refs(&[("peasant", 5)]),
            starting_gold: 500,
        },
    }
}

#[test]
fn resolve_finds_catalogue_entry() {
    let units = catalogue();
    let t = resolve("troll", &units);
    assert_eq!(t.name, "Тролль");
    assert_eq!(t.damage_per_unit, 8);
    assert_eq!(t.hp, 25);
    assert_eq!(t.cost.gold, 200);
}

#[test]
fn built_map_has_size_and_terrain() {
    let units = catalogue();
    let def = default_like_map();
    assert!(definition_fits(&def, &units));
    let gs = map_def_to_game_state(&def, &units);
    assert_eq!(gs.map.width, 20);
    assert_eq!(gs.map.height, 15);
    assert_eq!(gs.map.get(Position::new(3, 3)).unwrap().kind, TileKind::Obstacle);
    assert_eq!(gs.map.get(Position::new(12, 1)).unwrap().kind, TileKind::Water);
    // water is laid after obstacles
    assert_eq!(gs.map.get(Position::new(10, 10)).unwrap().kind, TileKind::Water);
    assert_eq!(gs.map.get(Position::new(0, 0)).unwrap().kind, TileKind::Ground);
    assert_eq!(gs.map.get_visibility(Position::new(5, 5)), Some(VisibilityState::Unexplored));
    assert_eq!(gs.current_day, 1);
}

#[test]
fn built_map_has_neutrals() {
    let units = catalogue();
    let gs = map_def_to_game_state(&default_like_map(), &units);
    assert_eq!(gs.count_neutral_armies(), 3);
    match gs.map.get(Position::new(7, 5)).unwrap().object.as_ref().unwrap() {
        MapObject::NeutralArmy(army) => {
            assert_eq!(army.0.len(), 1);
            assert_eq!(army.0[0].count, 5);
            assert_eq!(army.0[0].unit_type.name, "Гоблин");
            assert_eq!(army.0[0].unit_type.damage_per_unit, 2);
            assert_eq!(army.0[0].unit_type.hp, 5);
            assert_eq!(army.0[0].hp_remaining, 5);
        }
        other => panic!("expected a neutral army, got {other:?}"),
    }
    match gs.map.get(Position::new(17, 10)).unwrap().object.as_ref().unwrap() {
        MapObject::NeutralArmy(army) => {
            assert_eq!(army.0[0].count, 2);
            assert_eq!(army.0[0].unit_type.name, "Тролль");
        }
        other => panic!("expected a neutral army, got {other:?}"),
    }
}

#[test]
fn built_map_has_town_and_pile() {
    let units = catalogue();
    let gs = map_def_to_game_state(&default_like_map(), &units);
    assert_eq!(gs.towns.len(), 1);
    let town = &gs.towns[0];
    assert_eq!(town.id, TownId(1));
    assert_eq!(town.position, Position::new(4, 2));
    assert_eq!(town.income.gold, 250);
    assert_eq!(town.daily_growth, vec![5, 3]);
    assert_eq!(town.available_recruits[0].0.name, "Крестьянин");
    assert_eq!(town.available_recruits[0].1, 10);
    assert_eq!(town.available_recruits[1].0.name, "Лучник");
    assert!(town.garrison.0.is_empty());
    assert!(matches!(gs.map.get(Position::new(4, 2)).unwrap().object, Some(MapObject::Town(TownId(1)))));
    match gs.map.get(Position::new(2, 5)).unwrap().object.as_ref().unwrap() {
        MapObject::ResourcePile(bag) => assert_eq!(bag.gold, 100),
        other => panic!("expected a pile, got {other:?}"),
    }
}

#[test]
fn built_map_hero_start() {
    let units = catalogue();
    let gs = map_def_to_game_state(&default_like_map(), &units);
    let hero = gs.heroes.first().expect("hero exists");
    assert_eq!(hero.position, Position::new(1, 1));
    assert_eq!(hero.movement_points, 10);
    assert_eq!(hero.movement_points_max, 10);
    assert_eq!(hero.sight_range, 0);
    assert_eq!(hero.attack, 0);
    assert_eq!(hero.defense, 0);
    assert_eq!(hero.army.0.len(), 1);
    assert_eq!(hero.army.0[0].unit_type.name, "Крестьянин");
    assert_eq!(hero.army.0[0].count, 5);
    let player = gs.players.first().expect("player exists");
    assert_eq!(player.resources.gold, 500);
    assert_eq!(player.hero_ids.len(), 1);
    assert_eq!(gs.active_player_id, player.id);
}

#[test]
fn later_objects_replace_earlier_ones() {
    let units = catalogue();
    let mut def = default_like_map();
    def.resource_piles.push(ResourcePileDef { pos: (2, 5), gold: 300 });
    def.resource_piles.push(ResourcePileDef { pos: (7, 5), gold: 50 });
    def.resource_piles.push(ResourcePileDef { pos: (99, 99), gold: 50 });
    let gs = map_def_to_game_state(&def, &units);
    match gs.map.get(Position::new(2, 5)).unwrap().object.as_ref().unwrap() {
        MapObject::ResourcePile(bag) => assert_eq!(bag.gold, 300),
        other => panic!("expected a pile, got {other:?}"),
    }
    // armies are placed last and stay
    assert!(matches!(gs.map.get(Position::new(7, 5)).unwrap().object, Some(MapObject::NeutralArmy(_))));
}

#[test]
fn hero_stacks_merge_and_overflow_slots_are_dropped() {
    let mut units = catalogue();
    units.push(unit("wolf", "Волк", 3, 6, 30, 2));
    units.push(unit("knight", "Рыцарь", 6, 20, 150, 1));
    units.push(unit("mage", "Маг", 5, 9, 120, 1));
    let mut def = default_like_map();
    def.hero.army = refs(&[
        ("peasant", 5),
        ("goblin", 1),
        ("peasant", 2),
        ("orc", 1),
        ("troll", 1),
        ("archer", 1),
        ("wolf", 1),
        ("knight", 1),
        ("mage", 3),
        ("goblin", 4),
    ]);
    assert!(definition_fits(&def, &units));
    let gs = map_def_to_game_state(&def, &units);
    let army = &gs.heroes[0].army.0;
    assert_eq!(army.len(), 7);
    assert_eq!(army[0].count, 7);
    assert_eq!(army[1].unit_type.name, "Гоблин");
    assert_eq!(army[1].count, 5);
    assert_eq!(army[6].unit_type.name, "Рыцарь");
    assert!(army.iter().all(|s| s.unit_type.name != "Маг"));
}

#[test]
fn definition_with_unknown_unit_does_not_fit() {
    let units = catalogue();
    let mut def = default_like_map();
    def.neutral_armies.push(NeutralArmyDef { pos: (1, 2), units: refs(&[("dragon", 1)]) });
    assert!(!definition_fits(&def, &units));
    let mut def = default_like_map();
    def.hero.army = refs(&[("dragon", 1)]);
    assert!(!definition_fits(&def, &units));
    let mut def = default_like_map();
    def.towns[0].recruits = refs(&[("dragon", 1)]);
    assert!(!definition_fits(&def, &units));
}

#[test]
fn definition_too_large_or_overflowing_does_not_fit() {
    let units = catalogue();
    let mut def = default_like_map();
    def.width = 70000;
    def.height = 70000;
    assert!(!definition_fits(&def, &units));
    let mut def = default_like_map();
    def.hero.army = refs(&[("peasant", u32::MAX), ("peasant", 1)]);
    assert!(!definition_fits(&def, &units));
    def.hero.army = refs(&[("peasant", u32::MAX - 1), ("peasant", 1)]);
    assert!(definition_fits(&def, &units));
}

#[test]
fn unknown_unit_id_names_the_first_missing_creature() {
    let units = catalogue();
    let def = default_like_map();
    assert_eq!(unknown_unit_id(&def, &units), None);
    let mut def = default_like_map();
    def.hero.army = refs(&[("peasant", 1), ("hydra", 1)]);
    def.neutral_armies.push(NeutralArmyDef { pos: (1, 2), units: refs(&[("dragon", 1)]) });
    assert_eq!(unknown_unit_id(&def, &units), Some("dragon".to_string()));
    def.towns[0].recruits = refs(&[("peasant", 1), ("wyvern", 2)]);
    assert_eq!(unknown_unit_id(&def, &units), Some("wyvern".to_string()));
    let mut def = default_like_map();
    def.hero.army = refs(&[("hydra", 1)]);
    assert_eq!(unknown_unit_id(&def, &units), Some("hydra".to_string()));
}
