use vstd::prelude::*;

use crate::engine::map::{AdventureMap, Position};
use crate::engine::resources::ResourceBag;

verus! {

/// The most stacks that one army can hold.
pub const MAX_ARMY_SLOTS: usize = 7;

/// A kind of creature: what it is called, how hard it hits, how much it can take, what it costs.
#[derive(Debug, PartialEq, Eq)]
pub struct UnitType {
    pub name: String,
    pub damage_per_unit: u32,
    pub hp: u32,
    pub cost: ResourceBag,
}

impl Clone for UnitType {
    fn clone(&self) -> (r: Self)
        ensures
            r == *self,
    {
        UnitType {
            name: self.name.clone(),
            damage_per_unit: self.damage_per_unit,
            hp: self.hp,
            cost: self.cost,
        }
    }
}

/// A number of creatures of one type that fight together.
#[derive(Debug)]
pub struct UnitStack {
    pub unit_type: UnitType,
    pub count: u32,
    pub hp_remaining: u32,
}

impl Clone for UnitStack {
    fn clone(&self) -> (r: Self)
        ensures
            r == *self,
    {
        UnitStack {
            unit_type: self.unit_type.clone(),
            count: self.count,
            hp_remaining: self.hp_remaining,
        }
    }
}

impl UnitStack {
    /// A fresh stack of `count` creatures; the top creature is unhurt.
    pub fn new(unit_type: UnitType, count: u32) -> (r: Self)
        ensures
            r.unit_type == unit_type,
            r.count == count,
            r.hp_remaining == unit_type.hp,
    {
        let hp_remaining = unit_type.hp;
        Self { unit_type, count, hp_remaining }
    }

    /// Whether any creature of the stack is left.
    pub open spec fn alive(self) -> bool {
        self.count > 0
    }

    /// Whether any creature of the stack is left.
    pub fn is_alive(&self) -> (r: bool)
        ensures
            r == self.alive(),
    {
        self.count > 0
    }
}

/// Returned when a new kind of stack does not fit into an army.
#[derive(Debug, Clone, Copy, PartialEq, Eq, Structural)]
pub struct ArmyFull;

/// The stacks that a hero, a town or a neutral band commands, in slot order.
#[derive(Debug)]
pub struct Army(pub Vec<UnitStack>);

impl Clone for Army {
    fn clone(&self) -> (r: Self)
        ensures
            r.0@ == self.0@,
    {
        let mut v: Vec<UnitStack> = Vec::new();
        let mut i: usize = 0;
        while i < self.0.len()
            invariant
                i <= self.0@.len(),
                v@ == self.0@.take(i as int),
            decreases self.0@.len() - i,
        {
            v.push(self.0[i].clone());
            i = i + 1;
        }
        Army(v)
    }
}

/// The first slot at or after `k` whose creatures are called `name`, or -1 when none is.
pub open spec fn slot_from(stacks: Seq<UnitStack>, name: Seq<char>, k: int) -> int
    decreases stacks.len() - k,
{
    if k < 0 || k >= stacks.len() {
        -1
    } else if stacks[k].unit_type.name@ == name {
        k
    } else {
        slot_from(stacks, name, k + 1)
    }
}

/// The first slot whose creatures are called `name`, or -1 when none is.
pub open spec fn slot_of(stacks: Seq<UnitStack>, name: Seq<char>) -> int {
    slot_from(stacks, name, 0)
}

/// `slot_from` finds a matching slot, and no earlier one from `k` on.
pub proof fn lemma_slot_from(stacks: Seq<UnitStack>, name: Seq<char>, k: int)
    requires
        0 <= k,
    ensures
        slot_from(stacks, name, k) == -1 || (k <= slot_from(stacks, name, k) < stacks.len()
            && stacks[slot_from(stacks, name, k)].unit_type.name@ == name),
        forall|j: int|
            k <= j < stacks.len() && (slot_from(stacks, name, k) == -1 || j < slot_from(
                stacks,
                name,
                k,
            )) ==> stacks[j].unit_type.name@ != name,
    decreases stacks.len() - k,
{
    if k < stacks.len() && stacks[k].unit_type.name@ != name {
        lemma_slot_from(stacks, name, k + 1);
    }
}

/// `stacks` after `stack` joins: it merges into the first slot of the same creature name, or
/// takes a new slot at the end.
pub open spec fn join_stack(stacks: Seq<UnitStack>, stack: UnitStack) -> Seq<UnitStack> {
    let k = slot_of(stacks, stack.unit_type.name@);
    if k >= 0 {
        stacks.update(k, UnitStack { count: (stacks[k].count + stack.count) as u32, ..stacks[k] })
    } else {
        stacks.push(stack)
    }
}

/// `stack` can join `stacks` without a new slot beyond the limit.
pub open spec fn room_for(stacks: Seq<UnitStack>, stack: UnitStack) -> bool {
    slot_of(stacks, stack.unit_type.name@) >= 0 || stacks.len() < MAX_ARMY_SLOTS
}

/// Merging `stack` into `stacks` keeps every count within `u32`.
pub open spec fn merge_fits(stacks: Seq<UnitStack>, stack: UnitStack) -> bool {
    let k = slot_of(stacks, stack.unit_type.name@);
    k >= 0 ==> stacks[k].count + stack.count <= u32::MAX
}

impl Default for Army {
    fn default() -> (r: Self)
        ensures
            r.0@ == Seq::<UnitStack>::empty(),
    {
        Army(Vec::new())
    }
}

impl Army {
    /// An army without stacks.
    pub fn new() -> (r: Self)
        ensures
            r.0@ == Seq::<UnitStack>::empty(),
    {
        Self(Vec::new())
    }

    /// The stacks after `stack` joins.
    pub open spec fn joined(self, stack: UnitStack) -> Seq<UnitStack> {
        join_stack(self.0@, stack)
    }

    /// Whether `stack` can join without a new slot beyond the limit.
    pub open spec fn has_room_for(self, stack: UnitStack) -> bool {
        room_for(self.0@, stack)
    }

    /// Whether joining `stack` keeps every count within `u32`.
    pub open spec fn can_merge_count(self, stack: UnitStack) -> bool {
        merge_fits(self.0@, stack)
    }

    /// Adds `stack` to the army: merged into the first stack of the same creature name,
    /// else in a new slot, unless all slots are taken.
    pub fn add_stack(&mut self, stack: UnitStack) -> (r: Result<(), ArmyFull>)
        requires
            old(self).can_merge_count(stack),
        ensures
            r is Ok <==> old(self).has_room_for(stack),
            r is Ok ==> final(self).0@ == old(self).joined(stack),
            r is Err ==> final(self).0@ == old(self).0@,
            r is Ok ==> army_total(final(self).0@) == army_total(old(self).0@) + stack.count,
            old(self).0@.len() <= MAX_ARMY_SLOTS ==> final(self).0@.len() <= MAX_ARMY_SLOTS,
    {
        let ghost name = stack.unit_type.name@;
        proof {
            lemma_slot_from(self.0@, name, 0);
            lemma_join_total(self.0@, stack);
        }
        let mut i: usize = 0;
        while i < self.0.len()
            invariant
                i <= self.0@.len(),
                self.0@ == old(self).0@,
                name == stack.unit_type.name@,
                old(self).can_merge_count(stack),
                army_total(join_stack(old(self).0@, stack)) == army_total(old(self).0@) + stack.count,
                slot_of(self.0@, name) == slot_from(self.0@, name, i as int),
            decreases self.0@.len() - i,
        {
            if self.0[i].unit_type.name == stack.unit_type.name {
                let c = self.0[i].count + stack.count;
                self.0[i].count = c;
                return Ok(());
            }
            i = i + 1;
        }
        if self.0.len() >= MAX_ARMY_SLOTS {
            return Err(ArmyFull);
        }
        self.0.push(stack);
        Ok(())
    }

    /// Whether joining `stack` keeps every count within `u32`.
    pub fn can_merge(&self, stack: &UnitStack) -> (r: bool)
        ensures
            r == self.can_merge_count(*stack),
    {
        let ghost name = stack.unit_type.name@;
        proof {
            lemma_slot_from(self.0@, name, 0);
        }
        let mut i: usize = 0;
        while i < self.0.len()
            invariant
                i <= self.0@.len(),
                name == stack.unit_type.name@,
                slot_of(self.0@, name) == slot_from(self.0@, name, i as int),
            decreases self.0@.len() - i,
        {
            if self.0[i].unit_type.name == stack.unit_type.name {
                return self.0[i].count as u64 + stack.count as u64 <= u32::MAX as u64;
            }
            i = i + 1;
        }
        true
    }

    /// Whether no creature of the army is left.
    pub open spec fn defeated(self) -> bool {
        forall|i: int| 0 <= i < self.0@.len() ==> !#[trigger] self.0@[i].alive()
    }

    /// Whether no creature of the army is left.
    pub fn is_empty(&self) -> (r: bool)
        ensures
            r == self.defeated(),
    {
        let mut i: usize = 0;
        while i < self.0.len()
            invariant
                i <= self.0@.len(),
                forall|j: int| 0 <= j < i ==> !#[trigger] self.0@[j].alive(),
            decreases self.0@.len() - i,
        {
            if self.0[i].is_alive() {
                return false;
            }
            i = i + 1;
        }
        true
    }
}

/// How many creatures `stacks` hold in all.
pub open spec fn army_total(stacks: Seq<UnitStack>) -> nat
    decreases stacks.len(),
{
    if stacks.len() == 0 {
        0
    } else {
        army_total(stacks.drop_last()) + stacks.last().count as nat
    }
}

proof fn lemma_total_update(stacks: Seq<UnitStack>, k: int, x: UnitStack)
    requires
        0 <= k < stacks.len(),
    ensures
        army_total(stacks.update(k, x)) + stacks[k].count == army_total(stacks) + x.count,
    decreases stacks.len(),
{
    let u = stacks.update(k, x);
    if k == stacks.len() - 1 {
        assert(u.drop_last() =~= stacks.drop_last());
    } else {
        lemma_total_update(stacks.drop_last(), k, x);
        assert(u.drop_last() =~= stacks.drop_last().update(k, x));
    }
}

/// A stack that joins an army adds exactly its creatures to the army's total, whether it
/// merges into a slot or takes a new one; and the army takes a new slot only when no slot
/// holds the same creature.
pub proof fn lemma_join_total(stacks: Seq<UnitStack>, stack: UnitStack)
    requires
        merge_fits(stacks, stack),
    ensures
        army_total(join_stack(stacks, stack)) == army_total(stacks) + stack.count,
        join_stack(stacks, stack).len() == stacks.len() + if slot_of(
            stacks,
            stack.unit_type.name@,
        ) >= 0 {
            0int
        } else {
            1int
        },
{
    let k = slot_of(stacks, stack.unit_type.name@);
    lemma_slot_from(stacks, stack.unit_type.name@, 0);
    if k >= 0 {
        lemma_total_update(
            stacks,
            k,
            UnitStack { count: (stacks[k].count + stack.count) as u32, ..stacks[k] },
        );
    } else {
        assert(join_stack(stacks, stack).drop_last() =~= stacks);
    }
}

/// Returned when a hero has too few movement points left.
#[derive(Debug, Clone, Copy, PartialEq, Eq, Structural)]
pub struct NoMovementPoints;

/// Names a hero.
#[derive(Debug, Clone, Copy, PartialEq, Eq, Hash, Structural)]
pub struct HeroId(pub u32);

/// A hero on the adventure map.
#[derive(Debug)]
pub struct Hero {
    pub id: HeroId,
    pub name: String,
    pub position: Position,
    pub army: Army,
    pub movement_points: u32,
    pub movement_points_max: u32,
    pub sight_range: u32,
    pub attack: u32,
    pub defense: u32,
}

impl Clone for Hero {
    fn clone(&self) -> (r: Self)
        ensures
            r.id == self.id,
            r.name == self.name,
            r.position == self.position,
            r.army.0@ == self.army.0@,
            r.movement_points == self.movement_points,
            r.movement_points_max == self.movement_points_max,
            r.sight_range == self.sight_range,
            r.attack == self.attack,
            r.defense == self.defense,
    {
        Hero {
            id: self.id,
            name: self.name.clone(),
            position: self.position,
            army: self.army.clone(),
            movement_points: self.movement_points,
            movement_points_max: self.movement_points_max,
            sight_range: self.sight_range,
            attack: self.attack,
            defense: self.defense,
        }
    }
}

/// Whether `a` and `b` are next to each other in one of the four directions.
pub open spec fn adjacent(a: Position, b: Position) -> bool {
    let dx = b.x - a.x;
    let dy = b.y - a.y;
    (dx == 1 || dx == -1) && dy == 0 || dx == 0 && (dy == 1 || dy == -1)
}

/// Whether `a` and `b` are next to each other in one of the four directions.
pub fn is_adjacent(a: Position, b: Position) -> (r: bool)
    ensures
        r == adjacent(a, b),
{
    let dx: i64 = b.x as i64 - a.x as i64;
    let dy: i64 = b.y as i64 - a.y as i64;
    (dx == 1 || dx == -1) && dy == 0 || dx == 0 && (dy == 1 || dy == -1)
}

impl Hero {
    /// Whether the hero may step onto `pos`: next to the hero, and passable.
    pub fn can_move_to(&self, pos: Position, map: &AdventureMap) -> (r: bool)
        requires
            map.wf(),
        ensures
            r == (adjacent(self.position, pos) && map.passable(pos)),
    {
        is_adjacent(self.position, pos) && map.is_passable(pos)
    }

    /// Spends `cost` movement points, or leaves the hero as it is when it has too few.
    pub fn spend_movement(&mut self, cost: u32) -> (r: Result<(), NoMovementPoints>)
        ensures
            r is Ok <==> old(self).movement_points >= cost,
            r is Ok ==> *final(self) == (Hero {
                movement_points: (old(self).movement_points - cost) as u32,
                ..*old(self)
            }),
            r is Err ==> *final(self) == *old(self),
    {
        if self.movement_points < cost {
            return Err(NoMovementPoints);
        }
        self.movement_points = self.movement_points - cost;
        Ok(())
    }

    /// Gives the hero back all its movement points.
    pub fn restore_movement(&mut self)
        ensures
            *final(self) == (Hero { movement_points: old(self).movement_points_max, ..*old(self) }),
    {
        self.movement_points = self.movement_points_max;
    }
}

} // verus!
