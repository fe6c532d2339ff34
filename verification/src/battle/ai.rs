//! The defenders' side of a battle: every defender strikes the first attacker stack that still
//! has creatures, until an attacker's turn comes or the battle ends.
use vstd::prelude::*;

use crate::battle::state::{
    fighting, lemma_attack_keeps_fighting, lemma_blow_fits, lemma_stack_index, lemma_struck_sound,
    stack_index, struck, BattleStack, BattleState, BattleView, Side, StackId,
};

verus! {

/// `s` is an attacker stack with creatures left.
pub open spec fn attacker_alive(s: BattleStack) -> bool {
    s.side == Side::Attacker && s.count > 0
}

/// The place of the first attacker stack at or after `k` with creatures left, or -1.
pub open spec fn attacker_from(stacks: Seq<BattleStack>, k: int) -> int
    decreases stacks.len() - k,
{
    if k < 0 || k >= stacks.len() {
        -1
    } else if attacker_alive(stacks[k]) {
        k
    } else {
        attacker_from(stacks, k + 1)
    }
}

/// The place of the first attacker stack with creatures left, or -1.
pub open spec fn first_attacker(stacks: Seq<BattleStack>) -> int {
    attacker_from(stacks, 0)
}

proof fn lemma_attacker_from(stacks: Seq<BattleStack>, k: int)
    requires
        0 <= k,
    ensures
        attacker_from(stacks, k) == -1 || (k <= attacker_from(stacks, k) < stacks.len()
            && attacker_alive(stacks[attacker_from(stacks, k)])),
        forall|j: int|
            k <= j < stacks.len() && (attacker_from(stacks, k) == -1 || j < attacker_from(
                stacks,
                k,
            )) ==> !attacker_alive(#[trigger] stacks[j]),
    decreases stacks.len() - k,
{
    if k < stacks.len() && !attacker_alive(stacks[k]) {
        lemma_attacker_from(stacks, k + 1);
    }
}

/// A defender stack acts now and some attacker stack is left to strike.
pub open spec fn defender_turn(v: BattleView) -> bool {
    let ai = stack_index(v.stacks, v.current);
    &&& ai >= 0
    &&& v.stacks[ai].side == Side::Defender
    &&& first_attacker(v.stacks) >= 0
}

/// The defender's move: the acting stack strikes the first attacker stack with creatures left.
pub open spec fn defender_move(v: BattleView) -> BattleView {
    v.attacked(v.stacks[first_attacker(v.stacks)].id).0
}

/// How many attacker stacks still have creatures.
pub open spec fn alive_attackers(stacks: Seq<BattleStack>) -> nat
    decreases stacks.len(),
{
    if stacks.len() == 0 {
        0
    } else {
        alive_attackers(stacks.drop_last()) + if attacker_alive(stacks.last()) {
            1nat
        } else {
            0nat
        }
    }
}

/// The turn-order entry `id` names an attacker stack with creatures left.
pub open spec fn attacker_entry(stacks: Seq<BattleStack>, id: StackId) -> bool {
    id.0 < stacks.len() && attacker_alive(stacks[id.0 as int])
}

/// The first position at or after `k` of the turn order `q` that names an attacker stack with
/// creatures left, or -1.
pub open spec fn entry_from(q: Seq<StackId>, stacks: Seq<BattleStack>, k: int) -> int
    decreases q.len() - k,
{
    if k < 0 || k >= q.len() {
        -1
    } else if attacker_entry(stacks, q[k]) {
        k
    } else {
        entry_from(q, stacks, k + 1)
    }
}

/// How many turns lie ahead before an attacker stack acts, or -1.
pub open spec fn first_entry(v: BattleView) -> int {
    entry_from(v.turn_order, v.stacks, 0)
}

/// What the defenders do in a row: while a defender acts and an attacker stack is left, the
/// defender strikes; it stops when the battle is won (and names the winner) or when the turn
/// is no longer the defenders'.
pub open spec fn defender_phase(v: BattleView) -> (BattleView, Option<Side>)
    decreases alive_attackers(v.stacks), first_entry(v),
    when fighting(v)
    via defender_phase_decreases
{
    if !defender_turn(v) {
        (v, None)
    } else {
        let w = defender_move(v);
        if w.winner() is Some {
            (w, w.winner())
        } else {
            defender_phase(w)
        }
    }
}

#[via_fn]
proof fn defender_phase_decreases(v: BattleView) {
    if defender_turn(v) {
        let w = defender_move(v);
        if w.winner() is None {
            lemma_defender_progress(v);
        }
    }
}

proof fn lemma_alive_update(stacks: Seq<BattleStack>, t: int, x: BattleStack)
    requires
        0 <= t < stacks.len(),
    ensures
        alive_attackers(stacks.update(t, x)) + (if attacker_alive(stacks[t]) {
            1int
        } else {
            0int
        }) == alive_attackers(stacks) + (if attacker_alive(x) {
            1int
        } else {
            0int
        }),
    decreases stacks.len(),
{
    let u = stacks.update(t, x);
    if t == stacks.len() - 1 {
        assert(u.drop_last() =~= stacks.drop_last());
    } else {
        lemma_alive_update(stacks.drop_last(), t, x);
        assert(u.drop_last() =~= stacks.drop_last().update(t, x));
    }
}

proof fn lemma_entry_found(q: Seq<StackId>, stacks: Seq<BattleStack>, k: int, j: int)
    requires
        0 <= k <= j < q.len(),
        attacker_entry(stacks, q[j]),
    ensures
        k <= entry_from(q, stacks, k) <= j,
    decreases j - k,
{
    if !attacker_entry(stacks, q[k]) {
        lemma_entry_found(q, stacks, k + 1, j);
    }
}

proof fn lemma_entry_shift(q: Seq<StackId>, q2: Seq<StackId>, stacks: Seq<BattleStack>, k: int)
    requires
        1 <= k,
        q2.len() >= q.len() - 1,
        forall|j: int| 1 <= j < q.len() ==> q2[j - 1] == #[trigger] q[j],
        entry_from(q, stacks, k) >= 0,
    ensures
        entry_from(q2, stacks, k - 1) == entry_from(q, stacks, k) - 1,
    decreases q.len() - k,
{
    if !attacker_entry(stacks, q[k]) {
        lemma_entry_shift(q, q2, stacks, k + 1);
    }
}

proof fn lemma_entry_same(q: Seq<StackId>, s1: Seq<BattleStack>, s2: Seq<BattleStack>, k: int)
    requires
        forall|j: int| 0 <= j < q.len() ==> attacker_entry(s1, #[trigger] q[j]) == attacker_entry(s2, q[j]),
    ensures
        entry_from(q, s1, k) == entry_from(q, s2, k),
    decreases q.len() - k,
{
    if 0 <= k < q.len() && !attacker_entry(s1, q[k]) {
        lemma_entry_same(q, s1, s2, k + 1);
    }
}

/// A defender's move keeps the battle well formed, and brings an attacker's turn closer or
/// leaves fewer attacker stacks.
proof fn lemma_defender_progress(v: BattleView)
    requires
        fighting(v),
        defender_turn(v),
    ensures
        fighting(defender_move(v)),
        alive_attackers(defender_move(v).stacks) < alive_attackers(v.stacks) || (alive_attackers(
            defender_move(v).stacks,
        ) == alive_attackers(v.stacks) && 0 <= first_entry(defender_move(v)) < first_entry(v)),
{
    let stacks = v.stacks;
    let q = v.turn_order;
    let fa = first_attacker(stacks);
    lemma_attacker_from(stacks, 0);
    let target_id = stacks[fa].id;
    lemma_stack_index(stacks, target_id);
    lemma_stack_index(stacks, v.current);
    lemma_attack_keeps_fighting(v, target_id);
    let j = choose|j: int| 0 <= j < q.len() && q[j] == StackId(fa as u32);
    lemma_entry_found(q, stacks, 0, j);
    let damage = v.acting_damage() as u32;
    let hit = struck(stacks[fa], damage);
    lemma_struck_sound(stacks[fa], damage);
    let s2 = stacks.update(fa, hit);
    lemma_alive_update(stacks, fa, hit);
    let w = defender_move(v);
    if hit.count > 0 {
        let q2 = w.turn_order;
        lemma_entry_same(q2, s2, stacks, 0);
        lemma_entry_found(q, stacks, 1, j);
        lemma_entry_shift(q, q2, stacks, 1);
    }
}

/// The defenders stop only when the battle is decided, and then they name the winner, or when
/// no defender can act against an attacker stack any more; the battle stays well formed.
pub proof fn lemma_defender_phase_ends(v: BattleView)
    requires
        fighting(v),
    ensures
        fighting(defender_phase(v).0),
        defender_phase(v).1 is Some ==> defender_phase(v).1 == defender_phase(v).0.winner(),
        defender_phase(v).1 is None ==> !defender_turn(defender_phase(v).0),
    decreases alive_attackers(v.stacks), first_entry(v),
{
    if defender_turn(v) {
        lemma_defender_progress(v);
        let w = defender_move(v);
        if w.winner() is None {
            lemma_defender_phase_ends(w);
        }
    }
}

fn first_alive_attacker(stacks: &Vec<BattleStack>) -> (r: Option<usize>)
    ensures
        r is Some <==> first_attacker(stacks@) >= 0,
        r matches Some(i) ==> i == first_attacker(stacks@) && i < stacks@.len(),
{
    proof {
        lemma_attacker_from(stacks@, 0);
    }
    let mut i: usize = 0;
    while i < stacks.len()
        invariant
            i <= stacks@.len(),
            first_attacker(stacks@) == attacker_from(stacks@, i as int),
        decreases stacks@.len() - i,
    {
        if stacks[i].side == Side::Attacker && stacks[i].count > 0 {
            return Some(i);
        }
        i = i + 1;
    }
    None
}

/// Plays the defenders' turns in a row: while a defender acts, it strikes the first attacker
/// stack that still has creatures; returns the winner when the battle ends on the way, and
/// `None` when the turn comes back to the attacker or no attacker stack is left to strike.
/// The battle must be well formed (`fighting`), as every battle that `from_armies` opens from
/// deployable stacks stays; without it the turns need not end, e.g. a defender that deals no
/// damage, acting with an empty turn order, strikes for ever.
pub fn run_defender_ai(battle_state: &mut BattleState) -> (r: Option<Side>)
    requires
        fighting(old(battle_state)@),
    ensures
        (final(battle_state)@, r) == defender_phase(old(battle_state)@),
        fighting(final(battle_state)@),
        r is Some ==> r == final(battle_state)@.winner(),
        r is None ==> !defender_turn(final(battle_state)@),
{
    proof {
        lemma_defender_phase_ends(old(battle_state)@);
    }
    loop
        invariant
            fighting(battle_state@),
            defender_phase(battle_state@) == defender_phase(old(battle_state)@),
        decreases alive_attackers(battle_state@.stacks), first_entry(battle_state@),
    {
        let ghost v = battle_state@;
        let acting = match battle_state.current_stack() {
            Some(s) => s.side == Side::Defender,
            None => false,
        };
        if !acting {
            return None;
        }
        let target_id = match first_alive_attacker(&battle_state.stacks) {
            Some(i) => battle_state.stacks[i].id,
            None => return None,
        };
        proof {
            lemma_blow_fits(v, target_id);
            lemma_defender_progress(v);
        }
        let _ = battle_state.attack(target_id);
        if let Some(winner) = battle_state.is_over() {
            return Some(winner);
        }
    }
}

/// What one round of input does: on the attacker's turn a pressed target is struck, and unless
/// that ends the battle the defenders play on; on a defender's turn the defenders play; without
/// an acting stack, or on the attacker's turn without a press, nothing happens.
pub open spec fn input_outcome(v: BattleView, pressed: Option<StackId>) -> (BattleView, Option<Side>) {
    let ai = stack_index(v.stacks, v.current);
    if ai < 0 {
        (v, None)
    } else if v.stacks[ai].side == Side::Attacker {
        match pressed {
            None => (v, None),
            Some(target_id) => {
                let w = v.attacked(target_id).0;
                if w.winner() is Some {
                    (w, w.winner())
                } else {
                    defender_phase(w)
                }
            },
        }
    } else {
        defender_phase(v)
    }
}

/// Plays one round of input: `pressed` is the target the player chose, if any. Returns the
/// winner when the battle has ended.
pub fn handle_battle_input(battle_state: &mut BattleState, pressed: Option<StackId>) -> (r: Option<
    Side,
>)
    requires
        fighting(old(battle_state)@),
    ensures
        (final(battle_state)@, r) == input_outcome(old(battle_state)@, pressed),
        fighting(final(battle_state)@),
        r is Some ==> r == final(battle_state)@.winner(),
{
    let side = match battle_state.current_stack() {
        Some(s) => s.side,
        None => return None,
    };
    match side {
        Side::Attacker => {
            match pressed {
                Some(target_id) => {
                    proof {
                        lemma_blow_fits(battle_state@, target_id);
                        lemma_attack_keeps_fighting(battle_state@, target_id);
                    }
                    let _ = battle_state.attack(target_id);
                    if let Some(winner) = battle_state.is_over() {
                        return Some(winner);
                    }
                    run_defender_ai(battle_state)
                },
                None => None,
            }
        },
        Side::Defender => run_defender_ai(battle_state),
    }
}

} // verus!
