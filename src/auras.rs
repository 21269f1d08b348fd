//! Aura levels a tower receives, read from a table keyed by tower and kind.
use vstd::prelude::*;
use crate::buffs::BuffType;

verus! {

/// The first level recorded for `(id, kind)` in `table`, if any.
pub open spec fn recorded(table: Seq<((usize, BuffType), usize)>, id: usize, kind: BuffType) -> Option<usize> {
    if exists|i: int| 0 <= i < table.len() && (#[trigger] table[i]).0 == (id, kind) {
        Some(table[choose|i: int| 0 <= i < table.len() && (#[trigger] table[i]).0 == (id, kind)].1)
    } else {
        None
    }
}

/// Aura buff levels received, per tower id.
pub struct Auras {
    pub id_to_buffs: Vec<(usize, Vec<(BuffType, usize)>)>,
}

impl Auras {
    /// The damage aura level tower `id` receives according to `table`, as a
    /// one-entry list, or an empty list when none is recorded.
    pub fn get_aura_levels(id: usize, table: &Vec<((usize, BuffType), usize)>) -> (r: Vec<(BuffType, usize)>)
        requires
            forall|i: int, j: int|
                0 <= i < j < table@.len() ==> (#[trigger] table@[i]).0 != (#[trigger] table@[j]).0,
        ensures
            recorded(table@, id, BuffType::Damage) is None ==> r@.len() == 0,
            recorded(table@, id, BuffType::Damage) matches Some(l) ==> r@ == seq![(BuffType::Damage, l)],
    {
        let mut auras: Vec<(BuffType, usize)> = Vec::new();
        let mut i: usize = 0;
        while i < table.len()
            invariant
                i <= table@.len(),
                auras@.len() == 0,
                forall|a: int, b: int|
                    0 <= a < b < table@.len() ==> (#[trigger] table@[a]).0 != (#[trigger] table@[b]).0,
                forall|k: int| 0 <= k < i ==> (#[trigger] table@[k]).0 != (id, BuffType::Damage),
            decreases table@.len() - i,
        {
            let ((tid, tkind), level) = table[i];
            if tid == id && tkind == BuffType::Damage {
                proof {
                    assert(table@[i as int].0 == (id, BuffType::Damage));
                    let c = choose|c: int| 0 <= c < table@.len() && (#[trigger] table@[c]).0 == (id, BuffType::Damage);
                    if c != i {
                        if c < i {
                            assert(table@[c].0 != (id, BuffType::Damage));
                        } else {
                            assert(table@[i as int].0 != table@[c].0);
                        }
                    }
                }
                auras.push((BuffType::Damage, level));
                proof {
                    assert(auras@ =~= seq![(BuffType::Damage, level)]);
                    assert(table@[i as int].0 == (id, BuffType::Damage));
                    let c = choose|c: int| 0 <= c < table@.len() && (#[trigger] table@[c]).0 == (id, BuffType::Damage);
                    assert(c == i) by {
                        if c < i {
                            assert(table@[c].0 != (id, BuffType::Damage));
                        } else if c > i {
                            assert(table@[i as int].0 != table@[c].0);
                        }
                    }
                    assert(table@[i as int].1 == level);
                    assert(recorded(table@, id, BuffType::Damage) == Some(level));
                }
                return auras;
            }
            i = i + 1;
        }
        auras
    }
}

} // verus!
