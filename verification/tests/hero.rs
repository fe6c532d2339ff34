use heroes_of_rust::engine::hero::{Army, ArmyFull, Hero, HeroId, NoMovementPoints, UnitStack, UnitType};
use heroes_of_rust::engine::map::{AdventureMap, MapObject, Position, TileKind};
use heroes_of_rust::engine::resources::ResourceBag;

fn unit(name: &str) -> UnitType {
    UnitType { name: name.to_string(), damage_per_unit: 1, hp: 4, cost: ResourceBag::gold(10) }
}

fn hero_at(x: i32, y: i32) -> Hero {
    Hero {
        id: HeroId(0),
        name: "Aldric".to_string(),
        position: Position::new(x, y),
        army: Army::new(),
        movement_points: 2,
        movement_points_max: 6,
        sight_range: 2,
        attack: 0,
        defense: 0,
    }
}

#[test]
fn new_stack_is_unhurt() {
    let s = UnitStack::new(unit("Orc"), 4);
    assert_eq!(s.count, 4);
    assert_eq!(s.hp_remaining, 4);
    assert!(s.is_alive());
    assert!(!UnitStack::new(unit("Orc"), 0).is_alive());
}

#[test]
fn army_merges_same_name_and_fills_slots() {
    let mut army = Army::new();
    assert!(army.is_empty());
    army.add_stack(UnitStack::new(unit("Orc"), 2)).unwrap();
    army.add_stack(UnitStack::new(unit("Elf"), 1)).unwrap();
    army.add_stack(UnitStack::new(unit("Orc"), 3)).unwrap();
    assert_eq!(army.0.len(), 2);
    assert_eq!(army.0[0].count, 5);
    assert!(!army.is_empty());
    for i in 0..5 {
        army.add_stack(UnitStack::new(unit(&format!("U{i}")), 1)).unwrap();
    }
    assert_eq!(army.0.len(), 7);
    assert_eq!(army.add_stack(UnitStack::new(unit("Dragon"), 1)), Err(ArmyFull));
    assert_eq!(army.0.len(), 7);
    assert_eq!(army.add_stack(UnitStack::new(unit("Elf"), 1)), Ok(()));
    assert_eq!(army.0[1].count, 2);
}

#[test]
fn army_of_dead_stacks_is_empty() {
    let army = Army(vec![UnitStack::new(unit("Orc"), 0), UnitStack::new(unit("Elf"), 0)]);
    assert!(army.is_empty());
}

#[test]
fn hero_movement_points() {
    let mut h = hero_at(1, 1);
    assert_eq!(h.spend_movement(3), Err(NoMovementPoints));
    assert_eq!(h.movement_points, 2);
    assert_eq!(h.spend_movement(2), Ok(()));
    assert_eq!(h.movement_points, 0);
    h.restore_movement();
    assert_eq!(h.movement_points, 6);
}

#[test]
fn hero_can_move_to_adjacent_passable() {
    let mut map = AdventureMap::new(4, 4);
    map.get_mut(Position::new(2, 1)).unwrap().kind = TileKind::Obstacle;
    map.get_mut(Position::new(1, 2)).unwrap().object =
        Some(MapObject::NeutralArmy(Army(vec![UnitStack::new(unit("Orc"), 1)])));
    let h = hero_at(1, 1);
    assert!(h.can_move_to(Position::new(1, 0), &map));
    assert!(h.can_move_to(Position::new(0, 1), &map));
    assert!(!h.can_move_to(Position::new(2, 1), &map));
    assert!(!h.can_move_to(Position::new(1, 2), &map));
    assert!(!h.can_move_to(Position::new(2, 2), &map));
    assert!(!h.can_move_to(Position::new(1, 1), &map));
}

#[test]
fn clones_keep_every_field() {
    let h = hero_at(3, 4);
    let c = h.clone();
    assert_eq!(c.name, h.name);
    assert_eq!(c.position, h.position);
    let ty = unit("Orc");
    assert_eq!(ty.clone(), ty);
}
