use std::collections::VecDeque;

use vstd::prelude::*;

use crate::engine::hero::{UnitStack, UnitType};
use crate::engine::state::{first_from, lemma_first_from};

verus! {

/// Names a stack within one battle.
#[derive(Debug, Clone, Copy, PartialEq, Eq, Hash, Structural)]
pub struct StackId(pub u32);

/// The two sides of a battle.
#[derive(Debug, Clone, Copy, PartialEq, Eq, Structural)]
pub enum Side {
    Attacker,
    Defender,
}

/// A stack taking part in a battle.
#[derive(Debug)]
pub struct BattleStack {
    pub id: StackId,
    pub unit_type: UnitType,
    pub count: u32,
    pub hp_remaining: u32,
    pub side: Side,
}

impl Clone for BattleStack {
    fn clone(&self) -> (r: Self)
        ensures
            r == *self,
    {
        BattleStack {
            id: self.id,
            unit_type: self.unit_type.clone(),
            count: self.count,
            hp_remaining: self.hp_remaining,
            side: self.side,
        }
    }
}

/// What happened in a battle.
#[derive(Debug, Clone, Copy, PartialEq, Eq, Structural)]
pub enum BattleEvent {
    Attacked { attacker_id: StackId, target_id: StackId, damage: u32, killed: u32 },
    StackDied { id: StackId },
    TurnPassed { next_id: StackId },
    BattleOver { winner: Side },
}

/// A battle in progress: the stacks, who acts in which order, who acts now, and what happened.
#[derive(Debug)]
pub struct BattleState {
    pub stacks: Vec<BattleStack>,
    pub turn_order: VecDeque<StackId>,
    pub current_stack_id: StackId,
    pub log: Vec<BattleEvent>,
}

/// The ids of `stacks`, in order.
pub open spec fn stack_keys(stacks: Seq<BattleStack>) -> Seq<u32> {
    stacks.map_values(|s: BattleStack| s.id.0)
}

/// Where the first stack named `id` is kept, or -1.
pub open spec fn stack_index(stacks: Seq<BattleStack>, id: StackId) -> int {
    first_from(stack_keys(stacks), id.0, 0)
}

/// Some stack named `id` still has creatures.
pub open spec fn any_alive(stacks: Seq<BattleStack>, id: StackId) -> bool {
    exists|i: int| 0 <= i < stacks.len() && #[trigger] stacks[i].id == id && stacks[i].count > 0
}

/// Some stack of `side` still has creatures.
pub open spec fn side_alive(stacks: Seq<BattleStack>, side: Side) -> bool {
    exists|i: int| 0 <= i < stacks.len() && #[trigger] stacks[i].side == side && stacks[i].count > 0
}

/// The battle stack made from army stack `u` with id `id` on `side`.
pub open spec fn deployed(u: UnitStack, id: int, side: Side) -> BattleStack {
    BattleStack {
        id: StackId(id as u32),
        unit_type: u.unit_type,
        count: u.count,
        hp_remaining: u.unit_type.hp,
        side,
    }
}

/// Round `i` of the opening turn order: attacker `i`, then defender `i`, where they exist.
pub open spec fn opening_round(na: int, nd: int, i: int) -> Seq<StackId> {
    (if i < na { seq![StackId(i as u32)] } else { Seq::empty() }) + (if i < nd {
        seq![StackId((na + i) as u32)]
    } else {
        Seq::empty()
    })
}

/// The first `k` rounds of the opening turn order.
pub open spec fn opening_rounds(na: int, nd: int, k: int) -> Seq<StackId>
    decreases k,
{
    if k <= 0 {
        Seq::empty()
    } else {
        opening_rounds(na, nd, k - 1) + opening_round(na, nd, k - 1)
    }
}

/// The opening turn order with `na` attacker and `nd` defender stacks: they alternate,
/// attacker first, until one side runs out.
pub open spec fn opening_order(na: int, nd: int) -> Seq<StackId> {
    opening_rounds(na, nd, if na >= nd { na } else { nd })
}

/// The turn order after the front entry has acted: it goes to the back while its stack lives,
/// and leaves the order otherwise.
pub open spec fn rotated(q: Seq<StackId>, stacks: Seq<BattleStack>) -> Seq<StackId> {
    if q.len() == 0 {
        q
    } else if any_alive(stacks, q[0]) {
        q.drop_first().push(q[0])
    } else {
        q.drop_first()
    }
}

/// The event that announces who acts next, if anyone does.
pub open spec fn passed_to(q: Seq<StackId>) -> Seq<BattleEvent> {
    if q.len() > 0 {
        seq![BattleEvent::TurnPassed { next_id: q[0] }]
    } else {
        Seq::empty()
    }
}

/// Who acts next: the new front of the order, or still `current` when the order is empty.
pub open spec fn next_actor(q: Seq<StackId>, current: StackId) -> StackId {
    if q.len() > 0 {
        q[0]
    } else {
        current
    }
}

/// How many creatures of `target` a blow of `damage` kills: whole creatures, plus the wounded
/// top creature when the rest of the blow reaches its remaining health; at most all of them.
pub open spec fn blow_kills(target: BattleStack, damage: u32) -> u32 {
    let hp = target.unit_type.hp;
    let full = damage / hp;
    let rest = damage % hp;
    let k = if rest >= target.hp_remaining {
        full + 1
    } else {
        full as int
    };
    if k < target.count {
        k as u32
    } else {
        target.count
    }
}

/// The health left to the top creature of `target` after a blow of `damage`.
pub open spec fn blow_hp(target: BattleStack, damage: u32) -> u32 {
    let hp = target.unit_type.hp;
    let rest = damage % hp;
    if rest >= target.hp_remaining {
        let x = hp - (rest - target.hp_remaining);
        if x == 0 {
            hp
        } else {
            x as u32
        }
    } else {
        (target.hp_remaining - rest) as u32
    }
}

/// `target` after a blow of `damage`.
pub open spec fn struck(target: BattleStack, damage: u32) -> BattleStack {
    BattleStack {
        count: (target.count - blow_kills(target, damage)) as u32,
        hp_remaining: blow_hp(target, damage),
        ..target
    }
}

/// Whether an entry names some stack other than `id`.
pub open spec fn other_than(id: StackId) -> spec_fn(StackId) -> bool {
    |x: StackId| x != id
}

/// `q` without `id`.
pub open spec fn without(q: Seq<StackId>, id: StackId) -> Seq<StackId> {
    q.filter(other_than(id))
}

/// A battle as plain data: its stacks, the turn order, who acts now, and what happened.
pub struct BattleView {
    pub stacks: Seq<BattleStack>,
    pub turn_order: Seq<StackId>,
    pub current: StackId,
    pub log: Seq<BattleEvent>,
}

impl View for BattleState {
    type V = BattleView;

    open spec fn view(&self) -> BattleView {
        BattleView {
            stacks: self.stacks@,
            turn_order: self.turn_order@,
            current: self.current_stack_id,
            log: self.log@,
        }
    }
}

impl BattleView {
    /// Passing the turn: the front entry goes to the back or leaves, the new front acts, and
    /// the event names it.
    pub open spec fn passed(self) -> (BattleView, Seq<BattleEvent>) {
        let q = rotated(self.turn_order, self.stacks);
        (BattleView { turn_order: q, current: next_actor(q, self.current), ..self }, passed_to(q))
    }

    /// The blow that the acting stack would deal to `target_id` can be dealt: both stacks exist
    /// and stand on opposite sides.
    pub open spec fn can_strike(self, target_id: StackId) -> bool {
        let ai = stack_index(self.stacks, self.current);
        let ti = stack_index(self.stacks, target_id);
        ai >= 0 && ti >= 0 && self.stacks[ai].side != self.stacks[ti].side
    }

    /// The damage that the acting stack deals.
    pub open spec fn acting_damage(self) -> int {
        let a = self.stacks[stack_index(self.stacks, self.current)];
        a.count * a.unit_type.damage_per_unit
    }

    /// The blow stays within `u32` and the target has health to divide by; the cases in which
    /// the battle would fail.
    pub open spec fn blow_fits(self, target_id: StackId) -> bool {
        let tg = self.stacks[stack_index(self.stacks, target_id)];
        self.can_strike(target_id) ==> {
            &&& self.acting_damage() <= u32::MAX
            &&& tg.unit_type.hp > 0
            &&& (self.acting_damage() % (tg.unit_type.hp as int) >= tg.hp_remaining
                ==> self.acting_damage() / (tg.unit_type.hp as int) < u32::MAX)
        }
    }

    /// An attack on `target_id`: nothing when it cannot be dealt; otherwise the target takes the
    /// blow, leaves the turn order if none of it is left, the turn passes, and the log records
    /// the events.
    pub open spec fn attacked(self, target_id: StackId) -> (BattleView, Seq<BattleEvent>) {
        if !self.can_strike(target_id) {
            (self, Seq::empty())
        } else {
            let ti = stack_index(self.stacks, target_id);
            let tg = self.stacks[ti];
            let damage = self.acting_damage() as u32;
            let hit = struck(tg, damage);
            let stacks = self.stacks.update(ti, hit);
            let q1 = if hit.count == 0 {
                without(self.turn_order, target_id)
            } else {
                self.turn_order
            };
            let q2 = rotated(q1, stacks);
            let died = if hit.count == 0 {
                seq![BattleEvent::StackDied { id: target_id }]
            } else {
                Seq::empty()
            };
            let events = seq![
                BattleEvent::Attacked {
                    attacker_id: self.current,
                    target_id,
                    damage,
                    killed: blow_kills(tg, damage),
                },
            ] + died + passed_to(q2);
            (
                BattleView {
                    stacks,
                    turn_order: q2,
                    current: next_actor(q2, self.current),
                    log: self.log + events,
                },
                events,
            )
        }
    }

    /// The winner once one side has no creatures left: the defenders when the attackers are
    /// gone, else the attackers when the defenders are gone.
    pub open spec fn winner(self) -> Option<Side> {
        if !side_alive(self.stacks, Side::Attacker) {
            Some(Side::Defender)
        } else if !side_alive(self.stacks, Side::Defender) {
            Some(Side::Attacker)
        } else {
            None
        }
    }
}

/// A stack that can fight: its creatures have health, the top one is not yet dead, and the
/// damage the whole stack deals fits in `u32`.
pub open spec fn sound(s: BattleStack) -> bool {
    &&& s.unit_type.hp > 0
    &&& s.hp_remaining >= 1
    &&& s.count * s.unit_type.damage_per_unit <= u32::MAX
}

/// The invariant of a battle in progress: each stack's id is its place, every stack is sound,
/// the turn order names only stacks of the battle and every stack with creatures left, and the
/// front of the order is the stack that acts.
pub open spec fn fighting(v: BattleView) -> bool {
    &&& v.stacks.len() <= u32::MAX
    &&& forall|i: int| 0 <= i < v.stacks.len() ==> #[trigger] v.stacks[i].id == StackId(i as u32)
    &&& forall|i: int| 0 <= i < v.stacks.len() ==> sound(#[trigger] v.stacks[i])
    &&& forall|j: int| 0 <= j < v.turn_order.len() ==> (#[trigger] v.turn_order[j]).0 < v.stacks.len()
    &&& forall|i: int|
        0 <= i < v.stacks.len() && (#[trigger] v.stacks[i]).count > 0 ==> v.turn_order.contains(
            StackId(i as u32),
        )
    &&& v.turn_order.len() > 0 ==> v.current == v.turn_order[0]
}

/// When each stack's id is its place, a stack is found by its id exactly when the id names a
/// place.
pub proof fn lemma_stack_index(stacks: Seq<BattleStack>, id: StackId)
    requires
        stacks.len() <= u32::MAX,
        forall|i: int| 0 <= i < stacks.len() ==> #[trigger] stacks[i].id == StackId(i as u32),
    ensures
        stack_index(stacks, id) == if id.0 < stacks.len() {
            id.0 as int
        } else {
            -1
        },
{
    let keys = stack_keys(stacks);
    lemma_first_from(keys, id.0, 0);
    if id.0 < stacks.len() {
        let n = id.0 as int;
        assert(keys[n] == stacks[n].id.0);
    }
}

/// In a battle in progress every blow fits.
pub proof fn lemma_blow_fits(v: BattleView, target_id: StackId)
    requires
        fighting(v),
    ensures
        v.blow_fits(target_id),
{
    if v.can_strike(target_id) {
        let ai = stack_index(v.stacks, v.current);
        let ti = stack_index(v.stacks, target_id);
        lemma_first_from(stack_keys(v.stacks), v.current.0, 0);
        lemma_first_from(stack_keys(v.stacks), target_id.0, 0);
        let a = v.stacks[ai];
        let tg = v.stacks[ti];
        let d = v.acting_damage();
        let hp = tg.unit_type.hp as int;
        if d % hp >= tg.hp_remaining {
            assert(d / hp < u32::MAX) by (nonlinear_arith)
                requires
                    0 <= d <= u32::MAX,
                    hp >= 2,
            ;
        }
    }
}

/// After a blow the struck stack is still sound.
pub proof fn lemma_struck_sound(tg: BattleStack, damage: u32)
    requires
        sound(tg),
    ensures
        sound(struck(tg, damage)),
        struck(tg, damage).count <= tg.count,
        struck(tg, damage).id == tg.id,
        struck(tg, damage).side == tg.side,
        struck(tg, damage).unit_type == tg.unit_type,
{
    let hp = tg.unit_type.hp as int;
    let rest = damage % (hp as u32);
    let k = blow_kills(tg, damage);
    let c = tg.count - k;
    let d = tg.unit_type.damage_per_unit as int;
    assert(c * d <= tg.count * d) by (nonlinear_arith)
        requires
            0 <= c <= tg.count,
            0 <= d,
    ;
}

/// An attack keeps a battle in progress well formed.
pub proof fn lemma_attack_keeps_fighting(v: BattleView, target_id: StackId)
    requires
        fighting(v),
    ensures
        fighting(v.attacked(target_id).0),
{
    if v.can_strike(target_id) {
        let n = v.stacks.len();
        lemma_stack_index(v.stacks, target_id);
        let ti = stack_index(v.stacks, target_id);
        let tg = v.stacks[ti];
        let damage = v.acting_damage() as u32;
        let hit = struck(tg, damage);
        lemma_struck_sound(tg, damage);
        let stacks = v.stacks.update(ti, hit);
        let q = v.turn_order;
        let q1 = if hit.count == 0 {
            without(q, target_id)
        } else {
            q
        };
        let q2 = rotated(q1, stacks);
        let w = v.attacked(target_id).0;
        // every entry of q1 is an entry of q
        assert forall|e: StackId| q1.contains(e) implies q.contains(e) by {
            if hit.count == 0 {
                q.lemma_filter_contains_rev(other_than(target_id), e);
            }
        }
        // every stack with creatures left is named in q1
        assert forall|i: int| 0 <= i < n && (#[trigger] stacks[i]).count > 0 implies q1.contains(
            StackId(i as u32),
        ) by {
            if hit.count == 0 {
                let j = choose|j: int| 0 <= j < q.len() && q[j] == StackId(i as u32);
                q.lemma_filter_contains(other_than(target_id), j);
            }
        }
        // rotation keeps entries and living stacks
        if q1.len() > 0 {
            assert forall|e: StackId| q2.contains(e) implies q1.contains(e) by {
                let j = choose|j: int| 0 <= j < q2.len() && q2[j] == e;
            }
            assert forall|i: int| 0 <= i < n && (#[trigger] stacks[i]).count > 0 implies q2.contains(
                StackId(i as u32),
            ) by {
                let j = choose|j: int| 0 <= j < q1.len() && q1[j] == StackId(i as u32);
                if j == 0 {
                    assert(stacks[i].id == StackId(i as u32));
                    assert(q2[q2.len() - 1] == q1[0]);
                } else {
                    assert(q2[j - 1] == q1[j]);
                }
            }
        }
        assert forall|j: int| 0 <= j < q2.len() implies (#[trigger] q2[j]).0 < n by {
            assert(q2.contains(q2[j]));
        }
    }
}

/// A blow takes exactly its damage off the target's total health, `(count - 1) × hp` plus what
/// the top creature has left, as long as creatures remain: a rest of the damage that does not
/// finish the top creature lowers its health by exactly that rest, and a wound carries over
/// into later blows.
pub proof fn lemma_blow_takes_damage(v: BattleView, target_id: StackId)
    requires
        fighting(v),
        v.can_strike(target_id),
    ensures
        ({
            let ti = stack_index(v.stacks, target_id);
            let tg = v.stacks[ti];
            let hit = v.attacked(target_id).0.stacks[ti];
            let d = v.acting_damage();
            let hp = tg.unit_type.hp as int;
            &&& hit.unit_type == tg.unit_type
            &&& hit.count <= tg.count
            &&& d % hp < tg.hp_remaining ==> hit.hp_remaining == tg.hp_remaining - d % hp
            &&& hit.count > 0 ==> (hit.count - 1) * hp + hit.hp_remaining == (tg.count - 1) * hp
                + tg.hp_remaining - d
        }),
{
    let ti = stack_index(v.stacks, target_id);
    lemma_first_from(stack_keys(v.stacks), target_id.0, 0);
    lemma_first_from(stack_keys(v.stacks), v.current.0, 0);
    lemma_blow_fits(v, target_id);
    let tg = v.stacks[ti];
    assert(sound(tg));
    let d = v.acting_damage();
    let damage = d as u32;
    let hp = tg.unit_type.hp as int;
    let r = tg.hp_remaining as int;
    let c = tg.count as int;
    let full = d / hp;
    let rest = d % hp;
    vstd::arithmetic::div_mod::lemma_fundamental_div_mod(d, hp);
    vstd::arithmetic::div_mod::lemma_mod_bound(d, hp);
    assert(damage / tg.unit_type.hp == full);
    assert(damage % tg.unit_type.hp == rest);
    let hit = struck(tg, damage);
    assert(v.attacked(target_id).0.stacks[ti] == hit);
    if hit.count > 0 {
        let nc = hit.count as int;
        let nr = hit.hp_remaining as int;
        if rest >= r {
            assert(nc == c - full - 1);
            assert(nr == hp - (rest - r));
            assert((nc - 1) * hp + nr == (c - 1) * hp + r - d) by (nonlinear_arith)
                requires
                    nc == c - full - 1,
                    nr == hp - (rest - r),
                    d == hp * full + rest,
            ;
        } else {
            assert(nc == c - full);
            assert(nr == r - rest);
            assert((nc - 1) * hp + nr == (c - 1) * hp + r - d) by (nonlinear_arith)
                requires
                    nc == c - full,
                    nr == r - rest,
                    d == hp * full + rest,
            ;
        }
    }
}

/// An attack only ever wounds its target: every other stack keeps its creatures, the target
/// loses exactly the creatures the event reports as killed and never more than it had, and a
/// target with no creatures left is gone from the turn order.
pub proof fn lemma_attack_only_wounds(v: BattleView, target_id: StackId)
    requires
        fighting(v),
        v.can_strike(target_id),
    ensures
        ({
            let w = v.attacked(target_id).0;
            let events = v.attacked(target_id).1;
            let ti = stack_index(v.stacks, target_id);
            &&& w.stacks.len() == v.stacks.len()
            &&& forall|i: int| 0 <= i < v.stacks.len() && i != ti ==> #[trigger] w.stacks[i] == v.stacks[i]
            &&& events[0] matches BattleEvent::Attacked { killed, .. } && w.stacks[ti].count + killed
                == v.stacks[ti].count
            &&& w.stacks[ti].count == 0 ==> !w.turn_order.contains(target_id)
        }),
{
    let ti = stack_index(v.stacks, target_id);
    lemma_first_from(stack_keys(v.stacks), target_id.0, 0);
    let tg = v.stacks[ti];
    let damage = v.acting_damage() as u32;
    let hit = struck(tg, damage);
    let stacks = v.stacks.update(ti, hit);
    let w = v.attacked(target_id).0;
    if hit.count == 0 {
        let q1 = without(v.turn_order, target_id);
        if q1.contains(target_id) {
            let j = choose|j: int| 0 <= j < q1.len() && q1[j] == target_id;
            v.turn_order.lemma_filter_pred(other_than(target_id), j);
        }
        if w.turn_order.contains(target_id) {
            let j = choose|j: int| 0 <= j < w.turn_order.len() && w.turn_order[j] == target_id;
        }
    }
}

/// The opening order grows one round at a time, so a shorter run of rounds is a prefix of a
/// longer one.
proof fn lemma_rounds_prefix(na: int, nd: int, k: int, m: int)
    requires
        0 <= k <= m,
    ensures
        opening_rounds(na, nd, m).len() >= opening_rounds(na, nd, k).len(),
        forall|j: int|
            0 <= j < opening_rounds(na, nd, k).len() ==> #[trigger] opening_rounds(na, nd, m)[j]
                == opening_rounds(na, nd, k)[j],
    decreases m,
{
    if m > k {
        lemma_rounds_prefix(na, nd, k, m - 1);
        assert(opening_rounds(na, nd, m) == opening_rounds(na, nd, m - 1) + opening_round(
            na,
            nd,
            m - 1,
        ));
    }
}

/// Entries `2 i` and `2 i + 1` of `q`.
spec fn pair_at(q: Seq<StackId>, i: int) -> (StackId, StackId) {
    (q[2 * i], q[2 * i + 1])
}

proof fn lemma_rounds_balanced(na: int, nd: int, k: int)
    requires
        0 <= k <= na,
        k <= nd,
    ensures
        opening_rounds(na, nd, k).len() == 2 * k,
        forall|i: int|
            0 <= i < k ==> #[trigger] pair_at(opening_rounds(na, nd, k), i) == (
                StackId(i as u32),
                StackId((na + i) as u32),
            ),
    decreases k,
{
    if k > 0 {
        lemma_rounds_balanced(na, nd, k - 1);
        let before = opening_rounds(na, nd, k - 1);
        let all = opening_rounds(na, nd, k);
        assert forall|i: int| 0 <= i < k implies #[trigger] pair_at(all, i) == (
            StackId(i as u32),
            StackId((na + i) as u32),
        ) by {
            if i < k - 1 {
                assert(pair_at(before, i) == (StackId(i as u32), StackId((na + i) as u32)));
            }
        }
    }
}

/// In the opening order attackers and defenders take turns: the `i`-th attacker stack, then
/// the `i`-th defender stack, as long as both sides have an `i`-th stack.
pub proof fn lemma_opening_alternates(na: int, nd: int, i: int)
    requires
        0 <= i < na,
        i < nd,
    ensures
        opening_order(na, nd)[2 * i] == StackId(i as u32),
        opening_order(na, nd)[2 * i + 1] == StackId((na + i) as u32),
{
    let m = if na <= nd {
        na
    } else {
        nd
    };
    lemma_rounds_balanced(na, nd, m);
    lemma_rounds_prefix(na, nd, m, if na >= nd {
        na
    } else {
        nd
    });
    assert(pair_at(opening_rounds(na, nd, m), i) == (StackId(i as u32), StackId((na + i) as u32)));
}

} // verus!

verus! {

/// An army stack that can go into battle: its creatures have health, and the damage of the
/// whole stack fits in `u32`.
pub open spec fn can_deploy(u: UnitStack) -> bool {
    u.unit_type.hp > 0 && u.count * u.unit_type.damage_per_unit <= u32::MAX
}

/// Whether every stack of `stacks` can go into battle.
pub fn deployable(stacks: &[UnitStack]) -> (r: bool)
    ensures
        r == forall|i: int| 0 <= i < stacks@.len() ==> can_deploy(#[trigger] stacks@[i]),
{
    let mut i: usize = 0;
    while i < stacks.len()
        invariant
            i <= stacks@.len(),
            forall|j: int| 0 <= j < i ==> can_deploy(#[trigger] stacks@[j]),
        decreases stacks@.len() - i,
    {
        let s = &stacks[i];
        if s.unit_type.hp == 0 {
            return false;
        }
        let d = s.unit_type.damage_per_unit as u64;
        let c = s.count as u64;
        assert(c * d <= u32::MAX * u32::MAX) by (nonlinear_arith)
            requires
                c <= u32::MAX,
                d <= u32::MAX,
        ;
        if c * d > u32::MAX as u64 {
            return false;
        }
        i = i + 1;
    }
    true
}

/// The first `k` rounds of the opening order name only stacks of the battle, and name every
/// attacker and every defender of those rounds.
proof fn lemma_opening_contents(na: int, nd: int, k: int)
    requires
        0 <= na,
        0 <= nd,
        na + nd <= u32::MAX,
        0 <= k,
    ensures
        forall|j: int|
            0 <= j < opening_rounds(na, nd, k).len() ==> (#[trigger] opening_rounds(na, nd, k)[j]).0
                < na + nd,
        forall|i: int|
            0 <= i < na && i < k ==> #[trigger] opening_rounds(na, nd, k).contains(StackId(i as u32)),
        forall|i: int|
            0 <= i < nd && i < k ==> #[trigger] opening_rounds(na, nd, k).contains(
                StackId((na + i) as u32),
            ),
    decreases k,
{
    if k > 0 {
        lemma_opening_contents(na, nd, k - 1);
        let before = opening_rounds(na, nd, k - 1);
        let round = opening_round(na, nd, k - 1);
        let all = opening_rounds(na, nd, k);
        assert forall|i: int| 0 <= i < na && i < k implies #[trigger] all.contains(StackId(i as u32)) by {
            if i < k - 1 {
                assert(before.contains(StackId(i as u32)));
                let j = choose|j: int| 0 <= j < before.len() && before[j] == StackId(i as u32);
                assert(all[j] == before[j]);
            } else {
                assert(all[before.len() as int] == round[0]);
            }
        }
        assert forall|i: int|
            0 <= i < nd && i < k implies #[trigger] all.contains(StackId((na + i) as u32)) by {
            if i < k - 1 {
                assert(before.contains(StackId((na + i) as u32)));
                let j = choose|j: int| 0 <= j < before.len() && before[j] == StackId((na + i) as u32);
                assert(all[j] == before[j]);
            } else {
                assert(all[all.len() - 1] == StackId((na + i) as u32));
            }
        }
    }
}

/// The opening order grows by one round at a time.
proof fn lemma_opening_rounds_step(na: int, nd: int, k: int)
    requires
        0 <= k,
    ensures
        opening_rounds(na, nd, k + 1) == opening_rounds(na, nd, k) + opening_round(na, nd, k),
{
}

impl BattleState {
    /// Lines up the attacker's and the defender's stacks for battle: attackers first with ids
    /// from 0, then defenders; in the turn order attackers and defenders alternate, attacker first.
    pub fn from_armies(attacker_stacks: &[UnitStack], defender_stacks: &[UnitStack]) -> (r: Self)
        requires
            attacker_stacks@.len() + defender_stacks@.len() <= u32::MAX,
        ensures
            r.stacks@.len() == attacker_stacks@.len() + defender_stacks@.len(),
            forall|i: int|
                0 <= i < attacker_stacks@.len() ==> #[trigger] r.stacks@[i] == deployed(
                    attacker_stacks@[i],
                    i,
                    Side::Attacker,
                ),
            forall|i: int|
                0 <= i < defender_stacks@.len() ==> #[trigger] r.stacks@[attacker_stacks@.len() + i]
                    == deployed(defender_stacks@[i], attacker_stacks@.len() + i, Side::Defender),
            r.turn_order@ == opening_order(
                attacker_stacks@.len() as int,
                defender_stacks@.len() as int,
            ),
            r.current_stack_id == next_actor(r.turn_order@, StackId(0)),
            r.log@.len() == 0,
            (forall|i: int| 0 <= i < attacker_stacks@.len() ==> can_deploy(#[trigger] attacker_stacks@[i]))
                && (forall|i: int| 0 <= i < defender_stacks@.len() ==> can_deploy(#[trigger] defender_stacks@[i]))
                ==> fighting(r@),
    {
        let na = attacker_stacks.len();
        let nd = defender_stacks.len();
        let mut stacks: Vec<BattleStack> = Vec::new();
        let mut i: usize = 0;
        while i < na
            invariant
                na == attacker_stacks@.len(),
                na + nd <= u32::MAX,
                i <= na,
                stacks@.len() == i,
                forall|j: int|
                    0 <= j < i ==> #[trigger] stacks@[j] == deployed(
                        attacker_stacks@[j],
                        j,
                        Side::Attacker,
                    ),
            decreases na - i,
        {
            let us = &attacker_stacks[i];
            stacks.push(
                BattleStack {
                    id: StackId(i as u32),
                    hp_remaining: us.unit_type.hp,
                    unit_type: us.unit_type.clone(),
                    count: us.count,
                    side: Side::Attacker,
                },
            );
            i = i + 1;
        }
        let mut i: usize = 0;
        while i < nd
            invariant
                na == attacker_stacks@.len(),
                nd == defender_stacks@.len(),
                na + nd <= u32::MAX,
                i <= nd,
                stacks@.len() == na + i,
                forall|j: int|
                    0 <= j < na ==> #[trigger] stacks@[j] == deployed(
                        attacker_stacks@[j],
                        j,
                        Side::Attacker,
                    ),
                forall|j: int|
                    0 <= j < i ==> #[trigger] stacks@[na + j] == deployed(
                        defender_stacks@[j],
                        na + j,
                        Side::Defender,
                    ),
            decreases nd - i,
        {
            let us = &defender_stacks[i];
            stacks.push(
                BattleStack {
                    id: StackId((na + i) as u32),
                    hp_remaining: us.unit_type.hp,
                    unit_type: us.unit_type.clone(),
                    count: us.count,
                    side: Side::Defender,
                },
            );
            i = i + 1;
        }
        let rounds = if na >= nd {
            na
        } else {
            nd
        };
        let mut turn_order: VecDeque<StackId> = VecDeque::new();
        let mut i: usize = 0;
        while i < rounds
            invariant
                na + nd <= u32::MAX,
                rounds == if na >= nd {
                    na
                } else {
                    nd
                },
                i <= rounds,
                turn_order@ == opening_rounds(na as int, nd as int, i as int),
            decreases rounds - i,
        {
            proof {
                lemma_opening_rounds_step(na as int, nd as int, i as int);
            }
            let ghost before = turn_order@;
            if i < na {
                turn_order.push_back(StackId(i as u32));
            }
            let ghost mid = turn_order@;
            if i < nd {
                turn_order.push_back(StackId((na + i) as u32));
            }
            proof {
                assert(mid =~= before + (if i < na {
                    seq![StackId(i as u32)]
                } else {
                    Seq::empty()
                }));
            }
            i = i + 1;
        }
        let current_stack_id = if turn_order.len() > 0 {
            turn_order[0]
        } else {
            StackId(0)
        };
        proof {
            lemma_opening_contents(na as int, nd as int, rounds as int);
            let all = turn_order@;
            assert forall|i: int| 0 <= i < stacks@.len() implies #[trigger] stacks@[i].id == StackId(i as u32) by {
                if i >= na {
                    assert(stacks@[na + (i - na)] == deployed(defender_stacks@[i - na], na + (i - na), Side::Defender));
                }
            }
            assert forall|i: int| 0 <= i < stacks@.len() && (#[trigger] stacks@[i]).count > 0 implies all.contains(StackId(i as u32)) by {
                if i >= na {
                    assert(stacks@[na + (i - na)] == deployed(defender_stacks@[i - na], na + (i - na), Side::Defender));
                }
            }
            if (forall|i: int| 0 <= i < attacker_stacks@.len() ==> can_deploy(#[trigger] attacker_stacks@[i]))
                && (forall|i: int| 0 <= i < defender_stacks@.len() ==> can_deploy(#[trigger] defender_stacks@[i])) {
                assert forall|i: int| 0 <= i < stacks@.len() implies sound(#[trigger] stacks@[i]) by {
                    if i >= na {
                        assert(stacks@[na + (i - na)] == deployed(defender_stacks@[i - na], na + (i - na), Side::Defender));
                    }
                }
            }
        }
        Self { stacks, turn_order, current_stack_id, log: Vec::new() }
    }

    fn stack_slot(&self, id: StackId) -> (r: Option<usize>)
        ensures
            r is Some <==> stack_index(self.stacks@, id) >= 0,
            r matches Some(i) ==> i == stack_index(self.stacks@, id) && i < self.stacks@.len(),
    {
        let ghost keys = stack_keys(self.stacks@);
        proof {
            lemma_first_from(keys, id.0, 0);
        }
        let mut i: usize = 0;
        while i < self.stacks.len()
            invariant
                i <= self.stacks@.len(),
                keys == stack_keys(self.stacks@),
                keys.len() == self.stacks@.len(),
                first_from(keys, id.0, 0) == first_from(keys, id.0, i as int),
            decreases self.stacks@.len() - i,
        {
            if self.stacks[i].id == id {
                return Some(i);
            }
            i = i + 1;
        }
        None
    }

    /// The stack whose turn it is.
    pub fn current_stack(&self) -> (r: Option<&BattleStack>)
        ensures
            r is Some <==> stack_index(self.stacks@, self.current_stack_id) >= 0,
            r matches Some(s) ==> *s == self.stacks@[stack_index(
                self.stacks@,
                self.current_stack_id,
            )],
    {
        match self.stack_slot(self.current_stack_id) {
            Some(i) => Some(&self.stacks[i]),
            None => None,
        }
    }

    fn stack_alive(&self, id: StackId) -> (r: bool)
        ensures
            r == any_alive(self.stacks@, id),
    {
        let mut i: usize = 0;
        while i < self.stacks.len()
            invariant
                i <= self.stacks@.len(),
                forall|j: int| 0 <= j < i ==> !(#[trigger] self.stacks@[j].id == id && self.stacks@[j].count > 0),
            decreases self.stacks@.len() - i,
        {
            if self.stacks[i].id == id && self.stacks[i].count > 0 {
                return true;
            }
            i = i + 1;
        }
        false
    }

    /// Passes the turn: the acting entry goes to the back of the order while its stack lives,
    /// and the new front acts next.
    pub fn next_turn(&mut self) -> (events: Vec<BattleEvent>)
        ensures
            final(self)@ == old(self)@.passed().0,
            events@ == old(self)@.passed().1,
    {
        if let Some(front) = self.turn_order.pop_front() {
            if self.stack_alive(front) {
                self.turn_order.push_back(front);
            }
        }
        let mut events: Vec<BattleEvent> = Vec::new();
        if self.turn_order.len() > 0 {
            let next_id = self.turn_order[0];
            self.current_stack_id = next_id;
            events.push(BattleEvent::TurnPassed { next_id });
        }
        events
    }

    fn drop_from_turns(&mut self, id: StackId)
        ensures
            final(self).turn_order@ == without(old(self).turn_order@, id),
            final(self).stacks == old(self).stacks,
            final(self).current_stack_id == old(self).current_stack_id,
            final(self).log == old(self).log,
    {
        let ghost q = self.turn_order@;
        let mut kept: VecDeque<StackId> = VecDeque::new();
        let mut i: usize = 0;
        while i < self.turn_order.len()
            invariant
                q == self.turn_order@,
                i <= q.len(),
                kept@ == without(q.take(i as int), id),
            decreases q.len() - i,
        {
            let x = self.turn_order[i];
            proof {
                reveal_with_fuel(Seq::<_>::filter, 1);
                assert(q.take(i + 1).drop_last() =~= q.take(i as int));
            }
            if x != id {
                kept.push_back(x);
            }
            i = i + 1;
        }
        assert(q.take(q.len() as int) =~= q);
        self.turn_order = kept;
    }

    /// The acting stack strikes `target_id`: every full `hp` of damage kills a creature, and what
    /// is left of the blow wounds the top creature, killing it too when it reaches its remaining
    /// health. A stack with no creatures left leaves the turn order; then the turn passes.
    /// Nothing happens when either stack is missing or both stand on the same side.
    pub fn attack(&mut self, target_id: StackId) -> (events: Vec<BattleEvent>)
        requires
            old(self)@.blow_fits(target_id),
        ensures
            final(self)@ == old(self)@.attacked(target_id).0,
            events@ == old(self)@.attacked(target_id).1,
    {
        let attacker_id = self.current_stack_id;
        let ai = match self.stack_slot(attacker_id) {
            Some(i) => i,
            None => return Vec::new(),
        };
        let attacker_count = self.stacks[ai].count;
        let attacker_dmg = self.stacks[ai].unit_type.damage_per_unit;
        let attacker_side = self.stacks[ai].side;
        let ti = match self.stack_slot(target_id) {
            Some(i) => i,
            None => return Vec::new(),
        };
        if attacker_side == self.stacks[ti].side {
            return Vec::new();
        }
        let damage = attacker_count * attacker_dmg;
        let target_hp = self.stacks[ti].unit_type.hp;
        let full_kills = damage / target_hp;
        let remainder = damage % target_hp;
        let hp_remaining = self.stacks[ti].hp_remaining;
        let mut killed = full_kills;
        if remainder >= hp_remaining {
            killed = killed + 1;
            let mut left = target_hp - (remainder - hp_remaining);
            if left == 0 {
                left = target_hp;
            }
            self.stacks[ti].hp_remaining = left;
        } else {
            self.stacks[ti].hp_remaining = hp_remaining - remainder;
        }
        let count = self.stacks[ti].count;
        let killed = if killed < count {
            killed
        } else {
            count
        };
        let count_after = count - killed;
        self.stacks[ti].count = count_after;
        proof {
            let tg = old(self).stacks@[ti as int];
            assert(self.stacks@ == old(self).stacks@.update(ti as int, struck(tg, damage)));
        }
        let mut events: Vec<BattleEvent> = Vec::new();
        events.push(BattleEvent::Attacked { attacker_id, target_id, damage, killed });
        if count_after == 0 {
            self.drop_from_turns(target_id);
            events.push(BattleEvent::StackDied { id: target_id });
        }
        let turn_events = self.next_turn();
        let ghost head = events@;
        let mut i: usize = 0;
        while i < turn_events.len()
            invariant
                i <= turn_events@.len(),
                events@ == head + turn_events@.take(i as int),
            decreases turn_events@.len() - i,
        {
            events.push(turn_events[i]);
            i = i + 1;
        }
        assert(turn_events@.take(turn_events@.len() as int) =~= turn_events@);
        let ghost log0 = self.log@;
        let ghost settled = *self;
        let mut i: usize = 0;
        while i < events.len()
            invariant
                i <= events@.len(),
                self.stacks == settled.stacks,
                self.turn_order == settled.turn_order,
                self.current_stack_id == settled.current_stack_id,
                self.log@ == log0 + events@.take(i as int),
            decreases events@.len() - i,
        {
            self.log.push(events[i]);
            i = i + 1;
        }
        assert(events@.take(events@.len() as int) =~= events@);
        proof {
            let ti = stack_index(old(self).stacks@, target_id);
            let tg = old(self).stacks@[ti];
            let dmg = old(self)@.acting_damage() as u32;
            let hit = struck(tg, dmg);
            let stacks = old(self).stacks@.update(ti, hit);
            let q1 = if hit.count == 0 {
                without(old(self).turn_order@, target_id)
            } else {
                old(self).turn_order@
            };
            let q2 = rotated(q1, stacks);
            let died = if hit.count == 0 {
                seq![BattleEvent::StackDied { id: target_id }]
            } else {
                Seq::empty()
            };
            assert(head =~= seq![
                BattleEvent::Attacked {
                    attacker_id: old(self).current_stack_id,
                    target_id,
                    damage: dmg,
                    killed: blow_kills(tg, dmg),
                },
            ] + died);
        }
        events
    }

    /// The winner, once a side has no creatures left.
    pub fn is_over(&self) -> (r: Option<Side>)
        ensures
            r == self@.winner(),
    {
        let mut any_attacker = false;
        let mut any_defender = false;
        let mut i: usize = 0;
        while i < self.stacks.len()
            invariant
                i <= self.stacks@.len(),
                any_attacker <==> exists|j: int|
                    0 <= j < i && #[trigger] self.stacks@[j].side == Side::Attacker
                        && self.stacks@[j].count > 0,
                any_defender <==> exists|j: int|
                    0 <= j < i && #[trigger] self.stacks@[j].side == Side::Defender
                        && self.stacks@[j].count > 0,
            decreases self.stacks@.len() - i,
        {
            if self.stacks[i].count > 0 {
                if self.stacks[i].side == Side::Attacker {
                    any_attacker = true;
                } else {
                    any_defender = true;
                }
            }
            i = i + 1;
        }
        if !any_attacker {
            Some(Side::Defender)
        } else if !any_defender {
            Some(Side::Attacker)
        } else {
            None
        }
    }
}

} // verus!
