//! Debuffs: snapshots of a buff carried by projectiles and applied to enemies.
use vstd::prelude::*;
use crate::buffs::{Buff, BuffType};

verus! {

#[derive(Debug, Clone, Copy, PartialEq, Eq, Structural)]
pub struct Debuff {
    pub kind: BuffType,
    /// Ticks left before the debuff expires.
    pub cooldown: usize,
    pub effectiveness: usize,
}

impl Debuff {
    /// A snapshot of `buff` as it stands now; its countdown starts at the
    /// buff's effectiveness.
    pub fn new(buff: &Buff) -> (r: Self)
        ensures
            r.kind == buff.kind(),
            r.effectiveness == buff.effectiveness_spec(),
            r.cooldown == buff.effectiveness_spec(),
    {
        let e = buff.effectiveness();
        Self { kind: buff.stats.kind, effectiveness: e, cooldown: e }
    }
}

} // verus!
