//! The creature entity: attributes, command operations, time decay and the
//! death transition.
//!
//! Every stat is a fixed-point `i64` in centi units, so `1.0` is `100`.
//! Arithmetic saturates at the ends of the `i64` range; in particular the
//! terminal age sentinel `i64::MAX` absorbs the per-tick age increment, which
//! makes death idempotent.

use vstd::prelude::*;

use crate::arith::{
    clamp_to_i64, fifth_i128, sat_add_i64, sat_add_u32, spec_clamp_i64, spec_fifth,
    spec_sat_add_i64, spec_sat_add_u32,
};

verus! {

/// One whole stat point in centi units.
pub const CENTI: i64 = 100;

/// Death threshold: the creature is dead when `energy < 1.0`.
pub const DEATH_THRESHOLD: i64 = 100;

/// Refusal threshold for feeding and quenching: below `2.0` the creature is
/// already full.
pub const REFUSAL_THRESHOLD: i64 = 200;

/// The creature's consumable stock.
#[derive(Clone, Debug, PartialEq)]
pub struct TamoRoom {
    pub food: u32,
    pub water: u32,
}

/// The shared simulated entity.
#[derive(Clone, Debug, PartialEq)]
pub struct Tamo {
    pub name: String,
    /// Centi units; `i64::MAX` is the terminal death sentinel.
    pub age: i64,
    pub hunger: i64,
    pub thirst: i64,
    pub happiness: i64,
    pub energy: i64,
    pub room: TamoRoom,
}

/// Saturating addition on a centi-unit stat, as a spec value.
pub open spec fn sat64(a: i64, b: int) -> i64 {
    spec_sat_add_i64(a as int, b) as i64
}

/// Saturating addition on a resource count, as a spec value.
pub open spec fn satu32(a: u32, b: int) -> u32 {
    spec_sat_add_u32(a as int, b) as u32
}

/// The death predicate: energy strictly below `1.0`.
pub open spec fn spec_is_dead(t: Tamo) -> bool {
    t.energy < DEATH_THRESHOLD
}

/// `feed`: refuse and restock when hunger is below the refusal threshold,
/// otherwise lower hunger by one point.
pub open spec fn spec_feed(t: Tamo) -> Tamo {
    if t.hunger < REFUSAL_THRESHOLD {
        Tamo { room: TamoRoom { food: satu32(t.room.food, 10), ..t.room }, ..t }
    } else {
        Tamo { hunger: (t.hunger - CENTI) as i64, ..t }
    }
}

/// `quench`: refuse and restock when thirst is below the refusal threshold,
/// otherwise lower thirst by one point and raise energy by five.
pub open spec fn spec_quench(t: Tamo) -> Tamo {
    if t.thirst < REFUSAL_THRESHOLD {
        Tamo { room: TamoRoom { water: satu32(t.room.water, 10), ..t.room }, ..t }
    } else {
        Tamo { thirst: (t.thirst - CENTI) as i64, energy: sat64(t.energy, 500), ..t }
    }
}

/// `play`: unconditionally trade twenty energy for ten happiness.
pub open spec fn spec_play(t: Tamo) -> Tamo {
    Tamo { happiness: sat64(t.happiness, 1000), energy: sat64(t.energy, -2000), ..t }
}

/// The three preconditions of `eat`.
pub open spec fn spec_can_eat(t: Tamo) -> bool {
    t.room.food >= 5 && t.hunger > 30 * CENTI && t.energy > CENTI
}

/// `eat`: consume five food when all three preconditions hold; a silent
/// no-op otherwise.
pub open spec fn spec_eat(t: Tamo) -> Tamo {
    if spec_can_eat(t) {
        Tamo {
            hunger: (t.hunger - 30 * CENTI) as i64,
            energy: (t.energy - 10 * CENTI) as i64,
            happiness: sat64(t.happiness, 500),
            room: TamoRoom { food: (t.room.food - 5) as u32, ..t.room },
            ..t
        }
    } else {
        t
    }
}

/// The three preconditions of `drink`.
pub open spec fn spec_can_drink(t: Tamo) -> bool {
    t.room.water >= 5 && t.thirst > 30 * CENTI && t.energy > CENTI
}

/// `drink`: consume five water when all three preconditions hold; a silent
/// no-op otherwise.
pub open spec fn spec_drink(t: Tamo) -> Tamo {
    if spec_can_drink(t) {
        Tamo {
            thirst: (t.thirst - 30 * CENTI) as i64,
            energy: (t.energy - 10 * CENTI) as i64,
            happiness: sat64(t.happiness, 500),
            room: TamoRoom { water: (t.room.water - 5) as u32, ..t.room },
            ..t
        }
    } else {
        t
    }
}

/// The energy gained by one rest, before clamping: a flat twenty points plus
/// a fifth of happiness, a fifth of the thirst headroom, and twenty times the
/// hunger headroom. The hunger term is deliberately not normalized by one
/// hundred, unlike the other two ratio terms.
pub open spec fn spec_rest_bonus(t: Tamo) -> int {
    20 * CENTI + spec_fifth(t.happiness as int) + spec_fifth(100 * CENTI - t.thirst)
        + 20 * (100 * CENTI - t.hunger)
}

/// `rest`: only below eighty energy; adds the rest bonus to energy and ten
/// points of happiness.
pub open spec fn spec_rest(t: Tamo) -> Tamo {
    if t.energy < 80 * CENTI {
        Tamo {
            energy: spec_clamp_i64(t.energy + spec_rest_bonus(t)) as i64,
            happiness: sat64(t.happiness, 1000),
            ..t
        }
    } else {
        t
    }
}

/// `kill`: set age to the terminal sentinel, leaving everything else alone.
pub open spec fn spec_kill(t: Tamo) -> Tamo {
    Tamo { age: i64::MAX, ..t }
}

/// The decay applied at the start of every tick, before the death check.
pub open spec fn spec_decay(t: Tamo) -> Tamo {
    Tamo {
        age: sat64(t.age, 1),
        happiness: sat64(t.happiness, -5),
        thirst: sat64(t.thirst, 2),
        hunger: sat64(t.hunger, 1),
        energy: sat64(t.energy, -5),
        ..t
    }
}

/// `timePass`: decay every stat, then either die (terminal age sentinel) or,
/// when hunger or thirst has overrun one hundred, lose one extra energy.
pub open spec fn spec_time_pass(t: Tamo) -> Tamo {
    let d = spec_decay(t);
    if spec_is_dead(d) {
        spec_kill(d)
    } else if d.hunger > 100 * CENTI || d.thirst > 100 * CENTI {
        Tamo { energy: sat64(d.energy, -100), ..d }
    } else {
        d
    }
}

impl Tamo {
    /// A fresh creature with the fixed starting stats.
    pub fn build(name: String) -> (t: Tamo)
        ensures
            t.name == name,
            t.age == 0,
            t.hunger == 10 * CENTI,
            t.thirst == 10 * CENTI,
            t.happiness == 100 * CENTI,
            t.energy == 100 * CENTI,
            t.room == (TamoRoom { food: 100, water: 100 }),
    {
        Tamo {
            name,
            age: 0,
            hunger: 1000,
            thirst: 1000,
            happiness: 10000,
            energy: 10000,
            room: TamoRoom { food: 100, water: 100 },
        }
    }

    /// Lower hunger by one point, or restock food when already full.
    pub fn feed(&mut self)
        ensures
            *final(self) == spec_feed(*old(self)),
    {
        if self.hunger < REFUSAL_THRESHOLD {
            self.room.food = sat_add_u32(self.room.food, 10);
            return;
        }
        self.hunger = self.hunger - CENTI;
    }

    /// Lower thirst by one point and raise energy by five, or restock water
    /// when already full.
    pub fn quench(&mut self)
        ensures
            *final(self) == spec_quench(*old(self)),
    {
        if self.thirst < REFUSAL_THRESHOLD {
            self.room.water = sat_add_u32(self.room.water, 10);
            return;
        }
        self.thirst = self.thirst - CENTI;
        self.energy = sat_add_i64(self.energy, 500);
    }

    /// Trade twenty energy for ten happiness.
    pub fn play(&mut self)
        ensures
            *final(self) == spec_play(*old(self)),
    {
        self.happiness = sat_add_i64(self.happiness, 1000);
        self.energy = sat_add_i64(self.energy, -2000);
    }

    /// Consume five food when stocked, hungry enough and alive enough.
    pub fn eat(&mut self)
        ensures
            *final(self) == spec_eat(*old(self)),
    {
        if self.room.food >= 5 && self.hunger > 30 * CENTI && self.energy > CENTI {
            self.room.food = self.room.food - 5;
            self.hunger = self.hunger - 30 * CENTI;
            self.energy = self.energy - 10 * CENTI;
            self.happiness = sat_add_i64(self.happiness, 500);
        }
    }

    /// Consume five water when stocked, thirsty enough and alive enough.
    pub fn drink(&mut self)
        ensures
            *final(self) == spec_drink(*old(self)),
    {
        if self.room.water >= 5 && self.thirst > 30 * CENTI && self.energy > CENTI {
            self.room.water = self.room.water - 5;
            self.thirst = self.thirst - 30 * CENTI;
            self.energy = self.energy - 10 * CENTI;
            self.happiness = sat_add_i64(self.happiness, 500);
        }
    }

    /// Recover energy and happiness, but only below eighty energy.
    pub fn rest(&mut self)
        ensures
            *final(self) == spec_rest(*old(self)),
    {
        if self.energy < 80 * CENTI {
            let happiness_term: i128 = fifth_i128(self.happiness as i128);
            let thirst_term: i128 = fifth_i128(10000i128 - self.thirst as i128);
            let hunger_term: i128 = 20i128 * (10000i128 - self.hunger as i128);
            let bonus: i128 = 2000i128 + happiness_term + thirst_term + hunger_term;
            self.energy = clamp_to_i64(self.energy as i128 + bonus);
            self.happiness = sat_add_i64(self.happiness, 1000);
        }
    }

    /// The death predicate: energy strictly below `1.0`.
    pub fn test_dead(&mut self) -> (dead: bool)
        ensures
            *final(self) == *old(self),
            dead == spec_is_dead(*old(self)),
    {
        self.energy < DEATH_THRESHOLD
    }

    /// Mark the creature terminally dead by maxing out its age.
    pub fn kill(&mut self)
        ensures
            *final(self) == spec_kill(*old(self)),
    {
        self.age = i64::MAX;
    }

    /// One decay tick: age, decay stats, then die or pay the overrun penalty.
    pub fn time_pass(&mut self)
        ensures
            *final(self) == spec_time_pass(*old(self)),
    {
        self.age = sat_add_i64(self.age, 1);
        self.happiness = sat_add_i64(self.happiness, -5);
        self.thirst = sat_add_i64(self.thirst, 2);
        self.hunger = sat_add_i64(self.hunger, 1);
        self.energy = sat_add_i64(self.energy, -5);
        if self.energy < DEATH_THRESHOLD {
            self.kill();
            return;
        }
        if self.hunger > 100 * CENTI || self.thirst > 100 * CENTI {
            self.energy = sat_add_i64(self.energy, -100);
        }
    }
}

} // verus!
