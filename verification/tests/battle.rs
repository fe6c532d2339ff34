use heroes_of_rust::battle::ai::{handle_battle_input, run_defender_ai};
use heroes_of_rust::battle::state::{BattleEvent, BattleState, Side, StackId};
use heroes_of_rust::engine::hero::{UnitStack, UnitType};
use heroes_of_rust::engine::resources::ResourceBag;

fn goblin() -> UnitType {
    UnitType { name: "Goblin".into(), damage_per_unit: 2, hp: 5, cost: ResourceBag::gold(0) }
}

fn swordsman() -> UnitType {
    UnitType { name: "Swordsman".into(), damage_per_unit: 3, hp: 10, cost: ResourceBag::gold(0) }
}

fn make_battle(att: &[(UnitType, u32)], def: &[(UnitType, u32)]) -> BattleState {
    let att_stacks: Vec<UnitStack> =
        att.iter().map(|(ut, n)| UnitStack::new(ut.clone(), *n)).collect();
    let def_stacks: Vec<UnitStack> =
        def.iter().map(|(ut, n)| UnitStack::new(ut.clone(), *n)).collect();
    BattleState::from_armies(&att_stacks, &def_stacks)
}

#[test]
fn battle_attack_kills_units() {
    // 5 goblins deal 10 damage: one swordsman (hp 10) dies
    let mut b = make_battle(&[(goblin(), 5)], &[(swordsman(), 3)]);
    let def_id = b.stacks.iter().find(|s| s.side == Side::Defender).unwrap().id;
    b.attack(def_id);
    let def = b.stacks.iter().find(|s| s.id == def_id).unwrap();
    assert_eq!(def.count, 2);
}

#[test]
fn battle_stack_removed_when_dead() {
    // 10 goblins deal 20 damage: both swordsmen die
    let mut b = make_battle(&[(goblin(), 10)], &[(swordsman(), 2)]);
    let def_id = b.stacks.iter().find(|s| s.side == Side::Defender).unwrap().id;
    b.attack(def_id);
    assert!(!b.turn_order.contains(&def_id));
    let def = b.stacks.iter().find(|s| s.id == def_id).unwrap();
    assert_eq!(def.count, 0);
}

#[test]
fn battle_over_when_all_defenders_dead() {
    let mut b = make_battle(&[(goblin(), 10)], &[(swordsman(), 2)]);
    let def_id = b.stacks.iter().find(|s| s.side == Side::Defender).unwrap().id;
    b.attack(def_id);
    assert_eq!(b.is_over(), Some(Side::Attacker));
}

#[test]
fn battle_turn_order_alternates() {
    // two attacker stacks and two defender stacks: A0, D0, A1, D1
    let b = make_battle(&[(goblin(), 1), (goblin(), 1)], &[(swordsman(), 1), (swordsman(), 1)]);
    let order: Vec<Side> = b
        .turn_order
        .iter()
        .map(|id| b.stacks.iter().find(|s| s.id == *id).unwrap().side)
        .collect();
    assert_eq!(order, vec![Side::Attacker, Side::Defender, Side::Attacker, Side::Defender]);
}

#[test]
fn battle_ai_attacks_attacker() {
    // a defender's turn: it strikes the first attacker stack with creatures left
    let mut b = make_battle(&[(swordsman(), 3)], &[(goblin(), 5)]);
    b.next_turn();
    let current = b.current_stack().unwrap();
    assert_eq!(current.side, Side::Defender);

    let att_id = b.stacks.iter().find(|s| s.side == Side::Attacker).unwrap().id;
    let events = b.attack(att_id);
    assert!(events.iter().any(|e| matches!(e, BattleEvent::Attacked { attacker_id, target_id, .. }
        if *target_id == att_id && b.stacks.iter().any(|s| s.id == *attacker_id && s.side == Side::Defender)
    )));
}

#[test]
fn opening_order_with_uneven_sides() {
    let b = make_battle(&[(goblin(), 1)], &[(swordsman(), 1), (swordsman(), 1), (swordsman(), 1)]);
    let ids: Vec<u32> = b.turn_order.iter().map(|id| id.0).collect();
    assert_eq!(ids, vec![0, 1, 2, 3]);
    assert_eq!(b.current_stack_id, StackId(0));
    assert_eq!(b.stacks[0].side, Side::Attacker);
    assert_eq!(b.stacks[3].side, Side::Defender);
    assert_eq!(b.stacks[3].hp_remaining, 10);
    assert!(b.log.is_empty());
}

#[test]
fn attack_events_and_wounds() {
    // 3 goblins deal 6 damage to swordsmen (hp 10): none dies, the top one keeps 4 hp
    let mut b = make_battle(&[(goblin(), 3)], &[(swordsman(), 2)]);
    let events = b.attack(StackId(1));
    assert_eq!(
        events,
        vec![
            BattleEvent::Attacked { attacker_id: StackId(0), target_id: StackId(1), damage: 6, killed: 0 },
            BattleEvent::TurnPassed { next_id: StackId(1) },
        ]
    );
    assert_eq!(b.stacks[1].count, 2);
    assert_eq!(b.stacks[1].hp_remaining, 4);
    assert_eq!(b.current_stack_id, StackId(1));
    assert_eq!(b.log, events);
    // now the swordsmen act: 2 × 3 = 6 damage to goblins (hp 5) kills one and wounds the next
    let events = b.attack(StackId(0));
    assert_eq!(events[0], BattleEvent::Attacked { attacker_id: StackId(1), target_id: StackId(0), damage: 6, killed: 1 });
    assert_eq!(b.stacks[0].count, 2);
    assert_eq!(b.stacks[0].hp_remaining, 4);
}

#[test]
fn wound_carries_over_into_next_blow() {
    // the top swordsman has 4 hp left; a blow of 4 kills it exactly
    let mut b = make_battle(&[(goblin(), 2)], &[(swordsman(), 3)]);
    b.stacks[1].hp_remaining = 4;
    let events = b.attack(StackId(1));
    assert_eq!(events[0], BattleEvent::Attacked { attacker_id: StackId(0), target_id: StackId(1), damage: 4, killed: 1 });
    assert_eq!(b.stacks[1].count, 2);
    assert_eq!(b.stacks[1].hp_remaining, 10);
}

#[test]
fn attack_on_own_side_does_nothing() {
    let mut b = make_battle(&[(goblin(), 3), (goblin(), 2)], &[(swordsman(), 2)]);
    let events = b.attack(StackId(1));
    assert!(events.is_empty());
    assert_eq!(b.stacks[1].count, 2);
    assert_eq!(b.current_stack_id, StackId(0));
    let events = b.attack(StackId(9));
    assert!(events.is_empty());
}

#[test]
fn dead_stack_reports_death_and_leaves_order() {
    let mut b = make_battle(&[(goblin(), 10)], &[(swordsman(), 2)]);
    let events = b.attack(StackId(1));
    assert_eq!(
        events,
        vec![
            BattleEvent::Attacked { attacker_id: StackId(0), target_id: StackId(1), damage: 20, killed: 2 },
            BattleEvent::StackDied { id: StackId(1) },
            BattleEvent::TurnPassed { next_id: StackId(0) },
        ]
    );
    assert_eq!(b.turn_order.iter().copied().collect::<Vec<_>>(), vec![StackId(0)]);
}

#[test]
fn next_turn_rotates_and_drops_the_dead() {
    let mut b = make_battle(&[(goblin(), 1)], &[(swordsman(), 1)]);
    let events = b.next_turn();
    assert_eq!(events, vec![BattleEvent::TurnPassed { next_id: StackId(1) }]);
    assert_eq!(b.turn_order.iter().copied().collect::<Vec<_>>(), vec![StackId(1), StackId(0)]);
    b.stacks[1].count = 0;
    let events = b.next_turn();
    assert_eq!(events, vec![BattleEvent::TurnPassed { next_id: StackId(0) }]);
    assert_eq!(b.turn_order.iter().copied().collect::<Vec<_>>(), vec![StackId(0)]);
}

#[test]
fn winner_is_defender_when_attackers_gone() {
    let mut b = make_battle(&[(goblin(), 1)], &[(swordsman(), 1)]);
    assert_eq!(b.is_over(), None);
    b.stacks[0].count = 0;
    assert_eq!(b.is_over(), Some(Side::Defender));
    b.stacks[1].count = 0;
    assert_eq!(b.is_over(), Some(Side::Defender));
}

#[test]
fn defenders_play_until_attacker_turn() {
    // order A0, D1, D2: after the attacker, both defenders strike goblins, then A0 again
    let mut b = make_battle(&[(goblin(), 10)], &[(swordsman(), 1), (swordsman(), 1)]);
    b.next_turn();
    let winner = run_defender_ai(&mut b);
    assert_eq!(winner, None);
    assert_eq!(b.current_stack_id, StackId(0));
    // each swordsman deals 3 damage to goblins (hp 5): 3, then 3 more kill one
    assert_eq!(b.stacks[0].count, 9);
    assert_eq!(b.stacks[0].hp_remaining, 4);
}

#[test]
fn defenders_win_by_ai() {
    let mut b = make_battle(&[(goblin(), 1)], &[(swordsman(), 5)]);
    b.next_turn();
    assert_eq!(run_defender_ai(&mut b), Some(Side::Defender));
    assert_eq!(b.stacks[0].count, 0);
}

#[test]
fn ai_does_nothing_on_attacker_turn() {
    let mut b = make_battle(&[(goblin(), 1)], &[(swordsman(), 5)]);
    assert_eq!(run_defender_ai(&mut b), None);
    assert_eq!(b.stacks[0].count, 1);
    assert!(b.log.is_empty());
}

#[test]
fn player_input_strikes_then_defenders_answer() {
    let mut b = make_battle(&[(goblin(), 5)], &[(swordsman(), 3)]);
    assert_eq!(handle_battle_input(&mut b, None), None);
    assert!(b.log.is_empty());
    let winner = handle_battle_input(&mut b, Some(StackId(1)));
    assert_eq!(winner, None);
    // goblins killed one swordsman; the two left dealt 6 to the goblins, killing one
    assert_eq!(b.stacks[1].count, 2);
    assert_eq!(b.stacks[0].count, 4);
    assert_eq!(b.current_stack_id, StackId(0));
}

#[test]
fn player_input_wins_the_battle() {
    let mut b = make_battle(&[(goblin(), 10)], &[(swordsman(), 2)]);
    assert_eq!(handle_battle_input(&mut b, Some(StackId(1))), Some(Side::Attacker));
}
