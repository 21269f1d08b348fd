//! Tower base statistics and their buffed values.
use vstd::prelude::*;
use vstd::string::StringExecFns;
use crate::buffs::{Buff, BuffType, effect_of, find_buff};
use crate::geometry::UNITS_PER_PIXEL;
use crate::text::{decimal, number_text};
use crate::tower::Tower;

verus! {

#[derive(Debug, Clone, Copy, PartialEq, Eq, Structural)]
pub struct TowerStats {
    pub damage: usize,
    /// Sub-pixel units a projectile flies per tick.
    pub projectile_speed: u64,
    /// Firing range in sub-pixel units.
    pub range: u64,
    /// Shots per minute.
    pub rpm: usize,
    pub price: usize,
}

/// `a + b`, or the largest `usize` when that does not fit.
pub open spec fn sat_add(a: int, b: int) -> int {
    if a + b > usize::MAX {
        usize::MAX as int
    } else {
        a + b
    }
}

/// `a + b`, or the largest `u64` when that does not fit.
pub open spec fn sat_add64(a: int, b: int) -> int {
    if a + b > u64::MAX {
        u64::MAX as int
    } else {
        a + b
    }
}

/// Bonus to a stat: the effectiveness of the tower's own buff of `kind` plus
/// that of the aura buff of `kind` it receives.
pub open spec fn bonus(own: Seq<Buff>, auras: Seq<Buff>, kind: BuffType) -> int {
    sat_add(effect_of(own, kind) as int, effect_of(auras, kind) as int)
}

/// `a * b`, or the largest `u64` when that does not fit.
pub open spec fn sat_mul64(a: int, b: int) -> int {
    if a * b > u64::MAX {
        u64::MAX as int
    } else {
        a * b
    }
}

/// The stats of a tower holding `own` and receiving `auras`: base rate of
/// fire, damage and range (the latter in pixels) raised by their bonuses.
pub open spec fn buffed_stats(own: Seq<Buff>, auras: Seq<Buff>, base: TowerStats) -> TowerStats {
    TowerStats {
        damage: sat_add(base.damage as int, bonus(own, auras, BuffType::Damage)) as usize,
        projectile_speed: base.projectile_speed,
        range: sat_add64(
            base.range as int,
            sat_mul64(bonus(own, auras, BuffType::Range), UNITS_PER_PIXEL as int),
        ) as u64,
        rpm: sat_add(base.rpm as int, bonus(own, auras, BuffType::RPM)) as usize,
        price: base.price,
    }
}

fn effect_in(buffs: &Vec<Buff>, kind: BuffType) -> (r: usize)
    ensures
        r == effect_of(buffs@, kind),
{
    match find_buff(buffs, kind) {
        Some(i) => buffs[i].effectiveness(),
        None => 0,
    }
}

impl TowerStats {
    /// Stats of tower `t` receiving the aura buffs `auras`, from `base`.
    pub fn get_buffed_stats(t: &Tower, auras: &Vec<Buff>, base: &TowerStats) -> (r: Self)
        ensures
            r == buffed_stats(t.buffs@, auras@, *base),
    {
        let buffs = t.get_buffs();
        let rpm = base.rpm.saturating_add(base.get_buffed(buffs, auras, &BuffType::RPM));
        let damage = base.damage.saturating_add(base.get_buffed(buffs, auras, &BuffType::Damage));
        let range_bonus = base.get_buffed(buffs, auras, &BuffType::Range) as u64;
        let units = UNITS_PER_PIXEL as u64;
        let scaled = if range_bonus > u64::MAX / units {
            u64::MAX
        } else {
            range_bonus * units
        };
        proof {
            if range_bonus > u64::MAX / units {
                assert(range_bonus * units > u64::MAX) by (nonlinear_arith)
                    requires range_bonus > u64::MAX / units, units == 10;
            } else {
                assert(range_bonus * units <= u64::MAX) by (nonlinear_arith)
                    requires range_bonus <= u64::MAX / units, units == 10;
            }
        }
        let range = base.range.saturating_add(scaled);
        TowerStats { damage, projectile_speed: base.projectile_speed, range, rpm, price: base.price }
    }

    /// Bonus to the stat that `buff_type` raises.
    fn get_buffed(&self, buffs: &Vec<Buff>, auras: &Vec<Buff>, buff_type: &BuffType) -> (r: usize)
        ensures
            r == bonus(buffs@, auras@, *buff_type),
    {
        let own = effect_in(buffs, *buff_type);
        let from_aura = effect_in(auras, *buff_type);
        own.saturating_add(from_aura)
    }

    /// Damage, range (in pixels) and rate of fire, one per line.
    pub fn info(&self) -> (r: String)
        ensures
            r@ == "Damage: "@ + decimal(self.damage as nat) + "\nRange: "@ + decimal(
                (self.range / UNITS_PER_PIXEL as u64) as nat,
            ) + "\nRPM: "@ + decimal(self.rpm as nat),
    {
        proof {
            reveal_strlit("Damage: ");
            reveal_strlit("\nRange: ");
            reveal_strlit("\nRPM: ");
        }
        let s = String::from_str("Damage: ");
        let s = s.concat(number_text(self.damage as u64).as_str());
        let s = s.concat("\nRange: ");
        let s = s.concat(number_text(self.range / UNITS_PER_PIXEL as u64).as_str());
        let s = s.concat("\nRPM: ");
        s.concat(number_text(self.rpm as u64).as_str())
    }
}

} // verus!
