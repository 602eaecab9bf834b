use vstd::prelude::*;
use crate::unit::{ArmorType, AttackType};

verus! {

/// Maximum health gained per point of strength, in thousandths.
pub const HEALTH_PER_STRENGTH: i64 = 20_000;
/// Maximum mana gained per point of intelligence, in thousandths.
pub const MANA_PER_INTELLIGENCE: i64 = 15_000;
/// Damage gained per point of strength, in thousandths.
pub const DAMAGE_PER_STRENGTH: i64 = 1_000;
/// Armor gained per point of agility, in thousandths.
pub const ARMOR_PER_AGILITY: i64 = 150;
/// Attack speed gained per point of agility, in thousandths.
pub const ATTACK_SPEED_PER_AGILITY: i64 = 10;
/// Move speed gained per point of agility, in thousandths.
pub const MOVE_SPEED_PER_AGILITY: i64 = 5;

/// Attributes and stats of a unit.
///
/// The primary attributes are whole points. Every other quantity is counted in
/// thousandths (a `max_health` of 500_000 is 500 health points), so that the
/// derivation rules are exact.
#[derive(Clone, Copy, Debug, PartialEq, Eq, Structural)]
pub struct Statsheet {
    pub strength: i64,
    pub agility: i64,
    pub intelligence: i64,
    pub base_health: i64,
    pub base_mana: i64,
    pub base_damage: i64,
    pub base_armor: i64,
    pub base_attack_speed: i64,
    pub base_move_speed: i64,
    pub health: i64,
    pub mana: i64,
    pub max_health: i64,
    pub max_mana: i64,
    pub damage: i64,
    pub armor: i64,
    pub attack_speed: i64,
    pub move_speed: i64,
    pub attack_type: AttackType,
    pub armor_type: ArmorType,
    pub attack_range: i64,
    pub turn_rate: i64,
    pub sight_range: i64,
}

/// Whether an integer fits in `i64`.
pub open spec fn fits_i64(v: int) -> bool {
    i64::MIN <= v <= i64::MAX
}

/// `v` lowered to `max` when above it.
pub open spec fn cap(v: i64, max: i64) -> i64 {
    if v > max { max } else { v }
}

/// `base + points * per_point`, computed without intermediate overflow.
fn derive(base: i64, points: i64, per_point: i64) -> (r: i64)
    requires
        0 <= per_point <= 1_000_000,
        fits_i64(base + points * per_point),
    ensures
        r == base + points * per_point,
{
    let wide = (base as i128) + (points as i128) * (per_point as i128);
    wide as i64
}

impl Statsheet {
    pub open spec fn spec_max_health(self) -> int {
        self.base_health + self.strength * HEALTH_PER_STRENGTH
    }

    pub open spec fn spec_max_mana(self) -> int {
        self.base_mana + self.intelligence * MANA_PER_INTELLIGENCE
    }

    pub open spec fn spec_damage(self) -> int {
        self.base_damage + self.strength * DAMAGE_PER_STRENGTH
    }

    pub open spec fn spec_armor(self) -> int {
        self.base_armor + self.agility * ARMOR_PER_AGILITY
    }

    pub open spec fn spec_attack_speed(self) -> int {
        self.base_attack_speed + self.agility * ATTACK_SPEED_PER_AGILITY
    }

    pub open spec fn spec_move_speed(self) -> int {
        self.base_move_speed + self.agility * MOVE_SPEED_PER_AGILITY
    }

    /// Whether every derived stat is representable.
    pub open spec fn derived_fits(self) -> bool {
        &&& fits_i64(self.spec_max_health())
        &&& fits_i64(self.spec_max_mana())
        &&& fits_i64(self.spec_damage())
        &&& fits_i64(self.spec_armor())
        &&& fits_i64(self.spec_attack_speed())
        &&& fits_i64(self.spec_move_speed())
    }

    /// The sheet with its derived stats recomputed from the attributes and base
    /// stats, and current health and mana capped at the new maxima.
    pub open spec fn with_derived(self) -> Statsheet {
        let max_health = self.spec_max_health() as i64;
        let max_mana = self.spec_max_mana() as i64;
        Statsheet {
            max_health,
            max_mana,
            damage: self.spec_damage() as i64,
            armor: self.spec_armor() as i64,
            attack_speed: self.spec_attack_speed() as i64,
            move_speed: self.spec_move_speed() as i64,
            health: cap(self.health, max_health),
            mana: cap(self.mana, max_mana),
            ..self
        }
    }

    /// Recomputes the derived stats:
    /// max_health = base_health + 20 * strength, max_mana = base_mana + 15 * intelligence,
    /// damage = base_damage + 1 * strength, armor = base_armor + 0.15 * agility,
    /// attack_speed = base_attack_speed + 0.01 * agility,
    /// move_speed = base_move_speed + 0.005 * agility (in whole units), and caps
    /// current health and mana at the new maxima.
    pub fn calculate_derived_stats(&mut self)
        requires
            old(self).derived_fits(),
        ensures
            *final(self) == old(self).with_derived(),
    {
        let max_health = derive(self.base_health, self.strength, HEALTH_PER_STRENGTH);
        let max_mana = derive(self.base_mana, self.intelligence, MANA_PER_INTELLIGENCE);
        self.max_health = max_health;
        self.max_mana = max_mana;
        self.damage = derive(self.base_damage, self.strength, DAMAGE_PER_STRENGTH);
        self.armor = derive(self.base_armor, self.agility, ARMOR_PER_AGILITY);
        self.attack_speed = derive(self.base_attack_speed, self.agility, ATTACK_SPEED_PER_AGILITY);
        self.move_speed = derive(self.base_move_speed, self.agility, MOVE_SPEED_PER_AGILITY);
        if self.health > max_health {
            self.health = max_health;
        }
        if self.mana > max_mana {
            self.mana = max_mana;
        }
    }

    /// Sets current health and mana to their maxima: the full-strength state a
    /// unit spawns with, right after its first derivation.
    pub fn initialize(&mut self)
        ensures
            *final(self) == (Statsheet { health: old(self).max_health, mana: old(self).max_mana, ..*old(self) }),
    {
        self.health = self.max_health;
        self.mana = self.max_mana;
    }

    /// Takes `amount` (thousandths) off current health, stopping at zero.
    pub fn apply_damage(&mut self, amount: i64)
        requires
            amount >= 0,
        ensures
            *final(self) == (Statsheet {
                health: if old(self).health - amount <= 0 { 0 } else { (old(self).health - amount) as i64 },
                ..*old(self)
            }),
    {
        if amount >= self.health {
            self.health = 0;
        } else {
            self.health = self.health - amount;
        }
    }
}

impl Default for Statsheet {
    /// A baseline unit: 18 in every attribute, 100 base health, 10 base damage,
    /// attack speed 1, move speed 3, normal attack, medium armor, range 1.5,
    /// turn rate 0.5, sight 10; derived stats computed and health and mana full.
    fn default() -> (r: Statsheet)
        ensures
            r == Statsheet::spec_baseline().with_derived().spec_initialized(),
    {
        let mut stats = Statsheet {
            strength: 18,
            agility: 18,
            intelligence: 18,
            base_health: 100_000,
            base_mana: 0,
            base_damage: 10_000,
            base_armor: 0,
            base_attack_speed: 1_000,
            base_move_speed: 3_000,
            health: 0,
            mana: 0,
            max_health: 0,
            max_mana: 0,
            damage: 0,
            armor: 0,
            attack_speed: 0,
            move_speed: 0,
            attack_type: AttackType::Normal,
            armor_type: ArmorType::Medium,
            attack_range: 1_500,
            turn_rate: 500,
            sight_range: 10_000,
        };
        stats.calculate_derived_stats();
        stats.initialize();
        stats
    }
}

impl Statsheet {
    /// The baseline sheet before any derivation.
    pub open spec fn spec_baseline() -> Statsheet {
        Statsheet {
            strength: 18,
            agility: 18,
            intelligence: 18,
            base_health: 100_000,
            base_mana: 0,
            base_damage: 10_000,
            base_armor: 0,
            base_attack_speed: 1_000,
            base_move_speed: 3_000,
            health: 0,
            mana: 0,
            max_health: 0,
            max_mana: 0,
            damage: 0,
            armor: 0,
            attack_speed: 0,
            move_speed: 0,
            attack_type: AttackType::Normal,
            armor_type: ArmorType::Medium,
            attack_range: 1_500,
            turn_rate: 500,
            sight_range: 10_000,
        }
    }

    pub open spec fn spec_initialized(self) -> Statsheet {
        Statsheet { health: self.max_health, mana: self.max_mana, ..self }
    }
}

/// Deriving the stats twice gives the same sheet as deriving them once.
pub proof fn lemma_derived_stats_idempotent(s: Statsheet)
    requires
        s.derived_fits(),
    ensures
        s.with_derived().derived_fits(),
        s.with_derived().with_derived() == s.with_derived(),
{
}

} // verus!
