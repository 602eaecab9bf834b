use vstd::prelude::*;
use crate::grid::EntityId;

verus! {

/// Fixed taxonomy of units.
#[derive(Clone, Copy, Debug, PartialEq, Eq, Hash, Structural)]
pub enum UnitType {
    Hero,
    Building,
    Melee,
    Ranged,
    Caster,
    Worker,
}

#[derive(Clone, Copy, Debug, PartialEq, Eq, Hash, Structural)]
pub enum AttackType {
    Normal,
    Pierce,
    Siege,
    Magic,
    Chaos,
    Hero,
}

#[derive(Clone, Copy, Debug, PartialEq, Eq, Hash, Structural)]
pub enum ArmorType {
    Unarmored,
    Light,
    Medium,
    Heavy,
    Fortified,
    Hero,
}

/// Behavioural state of a unit. `Dead` is final.
#[derive(Clone, Copy, Debug, PartialEq, Eq, Hash, Structural)]
pub enum UnitState {
    Idle,
    Moving,
    Attacking,
    Casting,
    Constructing,
    Harvesting,
    Dead,
}

/// Identity and behaviour of a simulated actor. `target` names another entity
/// without owning it; it is cleared once that entity is found dead.
#[derive(Clone, Debug)]
pub struct Unit {
    pub name: String,
    pub unit_type: UnitType,
    pub state: UnitState,
    pub target: Option<EntityId>,
}

/// The state after one tick: a dead unit stays dead; a unit without health
/// dies; otherwise an order, if any, sets the state.
pub open spec fn next_state(state: UnitState, health: int, order: Option<UnitState>) -> UnitState {
    if state is Dead || health <= 0 {
        UnitState::Dead
    } else {
        match order {
            Some(s) => s,
            None => state,
        }
    }
}

/// The state after a sequence of ticks, each with the unit's health and order.
pub open spec fn run_states(state: UnitState, ticks: Seq<(int, Option<UnitState>)>) -> UnitState
    decreases ticks.len(),
{
    if ticks.len() == 0 {
        state
    } else {
        let prev = run_states(state, ticks.drop_last());
        next_state(prev, ticks.last().0, ticks.last().1)
    }
}

impl Unit {
    /// Advances the state machine by one tick, given the current health and
    /// the order received, if any.
    pub fn update_state(&mut self, health: i64, order: Option<UnitState>)
        ensures
            final(self).state == next_state(old(self).state, health as int, order),
            final(self).name == old(self).name,
            final(self).unit_type == old(self).unit_type,
            final(self).target == old(self).target,
    {
        let dead = match self.state {
            UnitState::Dead => true,
            _ => false,
        };
        if dead || health <= 0 {
            self.state = UnitState::Dead;
        } else {
            match order {
                Some(s) => {
                    self.state = s;
                },
                None => {},
            }
        }
    }

    /// Drops the target reference if it names `dead`, an entity found dead.
    pub fn forget_dead_target(&mut self, dead: EntityId)
        ensures
            final(self).target == if old(self).target == Some(dead) {
                None
            } else {
                old(self).target
            },
            final(self).name == old(self).name,
            final(self).unit_type == old(self).unit_type,
            final(self).state == old(self).state,
    {
        if self.target == Some(dead) {
            self.target = None;
        }
    }
}

impl Default for Unit {
    /// An idle melee unit named "Default Unit", with no target.
    fn default() -> (r: Unit)
        ensures
            r.name@ == "Default Unit"@,
            r.unit_type == UnitType::Melee,
            r.state == UnitState::Idle,
            r.target is None,
    {
        Unit {
            name: "Default Unit".to_string(),
            unit_type: UnitType::Melee,
            state: UnitState::Idle,
            target: None,
        }
    }
}

/// Once health reaches zero the unit is dead, and it stays dead through every
/// later tick, whatever its health and orders.
pub proof fn lemma_death_is_final(state: UnitState, ticks: Seq<(int, Option<UnitState>)>, k: int)
    requires
        ticks.len() >= 1,
        ticks[0].0 <= 0,
        1 <= k <= ticks.len(),
    ensures
        run_states(state, ticks.take(k)) == UnitState::Dead,
    decreases k,
{
    let t = ticks.take(k);
    if k == 1 {
        assert(t.drop_last() =~= Seq::<(int, Option<UnitState>)>::empty());
    } else {
        assert(t.drop_last() =~= ticks.take(k - 1));
        lemma_death_is_final(state, ticks, k - 1);
    }
}

/// A dead unit stays dead through any sequence of ticks.
pub proof fn lemma_dead_is_absorbing(ticks: Seq<(int, Option<UnitState>)>)
    ensures
        run_states(UnitState::Dead, ticks) == UnitState::Dead,
    decreases ticks.len(),
{
    if ticks.len() > 0 {
        lemma_dead_is_absorbing(ticks.drop_last());
    }
}

} // verus!
