//! The tower registry: at most one tower per cell, buff stat tables, and the
//! aura rule.
use vstd::prelude::*;
use crate::buffs::{
    Buff, BuffStats, BuffType, effect_of, find_buff, index_of_kind, kinds_unique,
    lemma_index_of_kind, level_of, table_at,
};
use crate::map::{GameMap, MAX_MAP_SIDE, as_ints, rings_upto};
use crate::enemies::{Enemies, eligible};
use crate::map::tile_center_spec;
use crate::projectiles::Projectiles;
use crate::tower::{Tower, TICKS_PER_MINUTE, buff_added, fire_step};
use crate::projectiles::Projectile;
use crate::tower_stats::{TowerStats, sat_add, sat_add64, sat_mul64};
use crate::geometry::UNITS_PER_PIXEL;

verus! {

/// Cell `(x, y)` lies within the aura of `caster`: within as many rings of
/// the caster's cell as its aura level.
pub open spec fn in_area(caster: Tower, x: int, y: int) -> bool {
    rings_upto(
        caster.map_position.0 as int,
        caster.map_position.1 as int,
        level_of(caster.buffs@, BuffType::Aura),
    ).contains((x, y))
}

/// The level of `kind` that `caster` lends `t` through its aura: its own
/// level of that kind when `t` is another tower within its aura and the
/// kind is not the aura itself, else 0.
pub open spec fn contribution(caster: Tower, t: Tower, kind: BuffType) -> nat {
    if caster.id != t.id && kind != BuffType::Aura && in_area(
        caster,
        t.map_position.0 as int,
        t.map_position.1 as int,
    ) {
        level_of(caster.buffs@, kind)
    } else {
        0
    }
}

/// The highest level of `kind` that any of `casters` lends `t`: contributions
/// of several casters do not add up.
pub open spec fn best_aura(casters: Seq<Tower>, t: Tower, kind: BuffType) -> nat
    decreases casters.len(),
{
    if casters.len() == 0 {
        0
    } else {
        let rest = best_aura(casters.drop_last(), t, kind);
        let c = contribution(casters.last(), t, kind);
        if c > rest {
            c
        } else {
            rest
        }
    }
}

/// The effectiveness table of `kind` among `tables`, empty when absent.
pub open spec fn effect_table(tables: Seq<BuffStats>, kind: BuffType) -> Seq<usize> {
    if exists|i: int| 0 <= i < tables.len() && (#[trigger] tables[i]).kind == kind {
        tables[choose|i: int| 0 <= i < tables.len() && (#[trigger] tables[i]).kind == kind].level_to_effectiveness@
    } else {
        Seq::empty()
    }
}

/// Effectiveness of the aura buff of `kind` that a tower receives at `level`.
pub open spec fn aura_effect(tables: Seq<BuffStats>, kind: BuffType, level: nat) -> nat {
    if level > 0 {
        table_at(effect_table(tables, kind), level as int)
    } else {
        0
    }
}

/// The buff kinds an aura lends, in a fixed order.
pub open spec fn lent_kind(i: int) -> BuffType {
    if i == 0 {
        BuffType::Freeze
    } else if i == 1 {
        BuffType::Damage
    } else if i == 2 {
        BuffType::RPM
    } else {
        BuffType::Range
    }
}

fn lent_kind_exec(i: usize) -> (r: BuffType)
    requires
        i < 4,
    ensures
        r == lent_kind(i as int),
{
    if i == 0 {
        BuffType::Freeze
    } else if i == 1 {
        BuffType::Damage
    } else if i == 2 {
        BuffType::RPM
    } else {
        BuffType::Range
    }
}

proof fn lemma_lent_kinds(kind: BuffType)
    ensures
        kind != BuffType::Aura ==> exists|i: int| 0 <= i < 4 && lent_kind(i) == kind,
        forall|i: int, j: int| 0 <= i < 4 && 0 <= j < 4 && i != j ==> lent_kind(i) != lent_kind(j),
        forall|i: int| 0 <= i < 4 ==> lent_kind(i) != BuffType::Aura,
{
    if kind == BuffType::Freeze {
        assert(lent_kind(0) == kind);
    } else if kind == BuffType::Damage {
        assert(lent_kind(1) == kind);
    } else if kind == BuffType::RPM {
        assert(lent_kind(2) == kind);
    } else if kind == BuffType::Range {
        assert(lent_kind(3) == kind);
    }
}

proof fn lemma_index_of_push(s: Seq<Buff>, e: Buff, kind: BuffType)
    ensures
        index_of_kind(s, kind) >= 0 ==> index_of_kind(s.push(e), kind) == index_of_kind(s, kind),
        index_of_kind(s, kind) < 0 && e.stats.kind == kind ==> index_of_kind(s.push(e), kind) == s.len(),
        index_of_kind(s, kind) < 0 && e.stats.kind != kind ==> index_of_kind(s.push(e), kind) == -1,
{
    assert(s.push(e).drop_last() =~= s);
}

/// `b` are the buffs `a` tied to `tables`: same kinds and levels, each
/// with the effectiveness table of its kind.
pub open spec fn retied(a: Seq<Buff>, b: Seq<Buff>, tables: Seq<BuffStats>) -> bool {
    &&& b.len() == a.len()
    &&& forall|j: int|
        0 <= j < b.len() ==> {
            &&& (#[trigger] b[j]).level == a[j].level
            &&& b[j].stats.kind == a[j].stats.kind
            &&& b[j].stats.level_to_effectiveness@ == effect_table(tables, a[j].stats.kind)
        }
}

/// Number of set entries of `s`.
pub open spec fn count_set(s: Seq<bool>) -> nat
    decreases s.len(),
{
    if s.len() == 0 {
        0
    } else {
        count_set(s.drop_last()) + if s.last() {
            1nat
        } else {
            0nat
        }
    }
}

pub struct Towers {
    pub stats: TowerStats,
    /// Stat tables, one per buff kind.
    pub buff_stats: Vec<BuffStats>,
    pub built: Vec<Tower>,
    pub next_tower_id: usize,
}

impl Towers {
    /// Ids increase along the registry and stay below the next id; no two
    /// towers share a cell; each tower is well formed and on a cell of a
    /// map of the largest size; each of its buffs uses its kind's table; and
    /// the base rate of fire is positive.
    pub open spec fn wf(&self) -> bool {
        let b = self.built@;
        &&& forall|i: int, j: int| 0 <= i < j < b.len() ==> (#[trigger] b[i]).id < (#[trigger] b[j]).id
        &&& forall|i: int| 0 <= i < b.len() ==> (#[trigger] b[i]).id < self.next_tower_id
        &&& forall|i: int, j: int|
            0 <= i < b.len() && 0 <= j < b.len() && i != j ==> (#[trigger] b[i]).map_position
                != (#[trigger] b[j]).map_position
        &&& forall|i: int|
            0 <= i < b.len() ==> {
                &&& (#[trigger] b[i]).wf()
                &&& b[i].map_position.0 <= MAX_MAP_SIDE
                &&& b[i].map_position.1 <= MAX_MAP_SIDE
                &&& forall|k: int|
                    0 <= k < b[i].buffs@.len() ==> (#[trigger] b[i].buffs@[k]).stats.level_to_effectiveness@
                        == effect_table(self.buff_stats@, b[i].buffs@[k].stats.kind)
            }
        &&& self.stats.rpm > 0
        &&& forall|i: int, j: int|
            0 <= i < j < self.buff_stats@.len() ==> (#[trigger] self.buff_stats@[i]).kind
                != (#[trigger] self.buff_stats@[j]).kind
    }

    /// Index of the tower on cell `(x, y)`, or -1.
    pub open spec fn index_at(&self, x: usize, y: usize) -> int {
        if exists|i: int| 0 <= i < self.built@.len() && (#[trigger] self.built@[i]).map_position == (x, y) {
            choose|i: int| 0 <= i < self.built@.len() && (#[trigger] self.built@[i]).map_position == (x, y)
        } else {
            -1
        }
    }

    /// An empty registry; `None` when the base rate of fire is 0 or two
    /// tables are of one kind.
    pub fn new(stats: TowerStats, buff_stats: Vec<BuffStats>) -> (r: Option<Self>)
        ensures
            r is Some <==> stats.rpm > 0 && forall|i: int, j: int|
                0 <= i < j < buff_stats@.len() ==> (#[trigger] buff_stats@[i]).kind != (#[trigger] buff_stats@[j]).kind,
            r matches Some(t) ==> {
                &&& t.wf()
                &&& t.stats == stats
                &&& t.buff_stats@ == buff_stats@
                &&& t.built@.len() == 0
                &&& t.next_tower_id == 0
            },
    {
        if stats.rpm == 0 {
            return None;
        }
        let mut i: usize = 0;
        while i < buff_stats.len()
            invariant
                i <= buff_stats@.len(),
                forall|a: int, b: int| 0 <= a < b < buff_stats@.len() && a < i ==> (#[trigger] buff_stats@[a]).kind
                    != (#[trigger] buff_stats@[b]).kind,
            decreases buff_stats@.len() - i,
        {
            let mut j: usize = i + 1;
            while j < buff_stats.len()
                invariant
                    i < buff_stats@.len(),
                    i < j <= buff_stats@.len(),
                    forall|a: int, b: int| 0 <= a < b < buff_stats@.len() && a < i ==> (#[trigger] buff_stats@[a]).kind
                        != (#[trigger] buff_stats@[b]).kind,
                    forall|b: int| i < b < j ==> buff_stats@[i as int].kind != (#[trigger] buff_stats@[b]).kind,
                decreases buff_stats@.len() - j,
            {
                if buff_stats[i].kind == buff_stats[j].kind {
                    return None;
                }
                j = j + 1;
            }
            i = i + 1;
        }
        Some(Towers { stats, buff_stats, built: Vec::new(), next_tower_id: 0 })
    }

    /// Position in the registry of the tower on cell `(x, y)`.
    fn find_at(&self, x: usize, y: usize) -> (r: Option<usize>)
        requires
            self.wf(),
        ensures
            r matches Some(i) ==> i < self.built@.len() && i == self.index_at(x, y),
            r is None ==> self.index_at(x, y) < 0,
    {
        let mut i: usize = 0;
        while i < self.built.len()
            invariant
                self.wf(),
                i <= self.built@.len(),
                forall|k: int| 0 <= k < i ==> (#[trigger] self.built@[k]).map_position != (x, y),
            decreases self.built@.len() - i,
        {
            if self.built[i].map_position.0 == x && self.built[i].map_position.1 == y {
                proof {
                    let j = choose|j: int| 0 <= j < self.built@.len() && (#[trigger] self.built@[j]).map_position == (x, y);
                    if j != i as int {
                        assert(self.built@[j].map_position != self.built@[i as int].map_position);
                    }
                }
                return Some(i);
            }
            i = i + 1;
        }
        None
    }

    pub fn has_building(&self, x: usize, y: usize) -> (r: bool)
        requires
            self.wf(),
        ensures
            r == (self.index_at(x, y) >= 0),
    {
        self.find_at(x, y).is_some()
    }

    pub fn get_tower(&self, x: usize, y: usize) -> (r: Option<&Tower>)
        requires
            self.wf(),
        ensures
            r is None <==> self.index_at(x, y) < 0,
            r matches Some(t) ==> *t == self.built@[self.index_at(x, y)],
    {
        match self.find_at(x, y) {
            Some(i) => Some(&self.built[i]),
            None => None,
        }
    }

    /// Copies of `buffs` tied to the registry's tables: each keeps its kind
    /// and level and takes the table of its kind (empty tables when the
    /// registry has none for that kind).
    fn retie(&self, buffs: &Vec<Buff>) -> (r: Vec<Buff>)
        requires
            forall|i: int, j: int|
                0 <= i < j < self.buff_stats@.len() ==> (#[trigger] self.buff_stats@[i]).kind
                    != (#[trigger] self.buff_stats@[j]).kind,
        ensures
            retied(buffs@, r@, self.buff_stats@),
    {
        let mut r: Vec<Buff> = Vec::new();
        let mut i: usize = 0;
        while i < buffs.len()
            invariant
                forall|a: int, b: int|
                    0 <= a < b < self.buff_stats@.len() ==> (#[trigger] self.buff_stats@[a]).kind
                        != (#[trigger] self.buff_stats@[b]).kind,
                i <= buffs@.len(),
                retied(buffs@.take(i as int), r@, self.buff_stats@),
            decreases buffs@.len() - i,
        {
            let kind = buffs[i].stats.kind;
            let stats = match self.table_index(kind) {
                Some(k) => {
                    proof {
                        let c = choose|c: int| 0 <= c < self.buff_stats@.len() && (#[trigger] self.buff_stats@[c]).kind == kind;
                        if c != k as int {
                            if c < k {
                                assert(self.buff_stats@[c].kind != self.buff_stats@[k as int].kind);
                            } else {
                                assert(self.buff_stats@[k as int].kind != self.buff_stats@[c].kind);
                            }
                        }
                    }
                    self.buff_stats[k].duplicate()
                },
                None => BuffStats {
                    kind,
                    level_to_effectiveness: Vec::new(),
                    level_to_cooldown: Vec::new(),
                    level_to_price: Vec::new(),
                },
            };
            let ghost before = r@;
            r.push(Buff { stats, level: buffs[i].level });
            proof {
                assert forall|j: int| 0 <= j < r@.len() implies {
                    &&& (#[trigger] r@[j]).level == buffs@.take(i + 1)[j].level
                    &&& r@[j].stats.kind == buffs@.take(i + 1)[j].stats.kind
                    &&& r@[j].stats.level_to_effectiveness@ == effect_table(self.buff_stats@, buffs@.take(i + 1)[j].stats.kind)
                } by {
                    if j < before.len() {
                        assert(r@[j] == before[j]);
                        assert(buffs@.take(i + 1)[j] == buffs@.take(i as int)[j]);
                    }
                }
            }
            i = i + 1;
        }
        assert(buffs@.take(i as int) =~= buffs@);
        r
    }

    /// Adds `tower` under the next id, which it returns, keeping its cell,
    /// cooldown and buffs (each buff tied to the registry's table of its
    /// kind, at its level). Refused, with nothing added, exactly when its
    /// cell already holds a tower or lies beyond a map of the largest size,
    /// or when every id has been handed out.
    pub fn spawn(&mut self, tower: Tower) -> (r: Option<usize>)
        requires
            old(self).wf(),
            tower.wf(),
        ensures
            final(self).wf(),
            final(self).stats == old(self).stats,
            final(self).buff_stats@ == old(self).buff_stats@,
            r is None ==> final(self).built@ == old(self).built@ && final(self).next_tower_id == old(self).next_tower_id,
            r is Some <==> old(self).index_at(tower.map_position.0, tower.map_position.1) < 0
                && tower.map_position.0 <= MAX_MAP_SIDE && tower.map_position.1 <= MAX_MAP_SIDE
                && old(self).next_tower_id < usize::MAX,
            r matches Some(id) ==> {
                let t = final(self).built@.last();
                &&& id == old(self).next_tower_id
                &&& final(self).next_tower_id == id + 1
                &&& final(self).built@.len() == old(self).built@.len() + 1
                &&& final(self).built@.drop_last() == old(self).built@
                &&& t.id == id
                &&& t.cooldown == tower.cooldown
                &&& t.map_position == tower.map_position
                &&& retied(tower.buffs@, t.buffs@, old(self).buff_stats@)
            },
    {
        let (x, y) = tower.map_position;
        if self.find_at(x, y).is_some() || x > MAX_MAP_SIDE || y > MAX_MAP_SIDE || self.next_tower_id
            == usize::MAX {
            return None;
        }
        let id = self.next_tower_id;
        let buffs = self.retie(&tower.buffs);
        let t = Tower { id, cooldown: tower.cooldown, map_position: tower.map_position, buffs };
        proof {
            assert(t.wf()) by {
                assert forall|i: int, j: int|
                    0 <= i < t.buffs@.len() && 0 <= j < t.buffs@.len() && i != j implies (#[trigger] t.buffs@[i]).stats.kind
                        != (#[trigger] t.buffs@[j]).stats.kind by {
                    assert(tower.buffs@[i].stats.kind != tower.buffs@[j].stats.kind);
                }
                assert forall|i: int| 0 <= i < t.buffs@.len() implies 1 <= (#[trigger] t.buffs@[i]).level <= crate::buffs::MAX_BUFF_LEVEL by {
                    assert(tower.buffs@[i].level == t.buffs@[i].level);
                }
            }
        }
        let ghost ob = self.built@;
        self.built.push(t);
        self.next_tower_id = id + 1;
        proof {
            let b = self.built@;
            assert(b.drop_last() =~= ob);
            assert forall|i: int, j: int| 0 <= i < j < b.len() implies (#[trigger] b[i]).id < (#[trigger] b[j]).id by {
                assert(b[i] == ob[i]);
                if j < ob.len() {
                    assert(b[j] == ob[j]);
                }
            }
            assert forall|i: int, j: int|
                0 <= i < b.len() && 0 <= j < b.len() && i != j implies (#[trigger] b[i]).map_position
                    != (#[trigger] b[j]).map_position by {
                if i < ob.len() {
                    assert(b[i] == ob[i]);
                }
                if j < ob.len() {
                    assert(b[j] == ob[j]);
                }
            }
            assert forall|i: int| 0 <= i < b.len() implies (#[trigger] b[i]).id < self.next_tower_id by {
                if i < ob.len() {
                    assert(b[i] == ob[i]);
                }
            }
            assert forall|i: int| 0 <= i < b.len() implies {
                &&& (#[trigger] b[i]).wf()
                &&& b[i].map_position.0 <= MAX_MAP_SIDE
                &&& b[i].map_position.1 <= MAX_MAP_SIDE
                &&& forall|m: int|
                    0 <= m < b[i].buffs@.len() ==> (#[trigger] b[i].buffs@[m]).stats.level_to_effectiveness@
                        == effect_table(self.buff_stats@, b[i].buffs@[m].stats.kind)
            } by {
                if i < ob.len() {
                    assert(b[i] == ob[i]);
                } else {
                    assert(b[i] == t);
                }
            }
        }
        Some(id)
    }

    /// Removes the tower on cell `(x, y)`; nothing happens when there is none.
    pub fn remove_tower(&mut self, x: usize, y: usize)
        requires
            old(self).wf(),
        ensures
            final(self).wf(),
            final(self).stats == old(self).stats,
            final(self).buff_stats@ == old(self).buff_stats@,
            final(self).next_tower_id == old(self).next_tower_id,
            old(self).index_at(x, y) < 0 ==> final(self).built@ == old(self).built@,
            old(self).index_at(x, y) >= 0 ==> final(self).built@ == old(self).built@.remove(old(self).index_at(x, y)),
    {
        match self.find_at(x, y) {
            Some(i) => {
                self.built.remove(i);
                proof {
                    let b = self.built@;
                    let ob = old(self).built@;
                    assert forall|a: int, c: int| 0 <= a < c < b.len() implies (#[trigger] b[a]).id < (#[trigger] b[c]).id by {
                        let a2 = if a < i { a } else { a + 1 };
                        let c2 = if c < i { c } else { c + 1 };
                        assert(b[a] == ob[a2] && b[c] == ob[c2]);
                    }
                    assert forall|a: int, c: int|
                        0 <= a < b.len() && 0 <= c < b.len() && a != c implies (#[trigger] b[a]).map_position
                            != (#[trigger] b[c]).map_position by {
                        let a2 = if a < i { a } else { a + 1 };
                        let c2 = if c < i { c } else { c + 1 };
                        assert(b[a] == ob[a2] && b[c] == ob[c2]);
                    }
                    assert forall|a: int| 0 <= a < b.len() implies (#[trigger] b[a]).id < self.next_tower_id by {
                        let a2 = if a < i { a } else { a + 1 };
                        assert(b[a] == ob[a2]);
                    }
                    assert forall|a: int| 0 <= a < b.len() implies #[trigger] b[a] == ob[if a < i { a } else { a + 1 }] by {}
                }
            },
            None => {},
        }
    }

    /// Level of `kind` that `caster` lends `t`.
    fn contribution_of(caster: &Tower, t: &Tower, kind: BuffType) -> (r: usize)
        requires
            caster.wf(),
            caster.map_position.0 <= MAX_MAP_SIDE,
            caster.map_position.1 <= MAX_MAP_SIDE,
        ensures
            r == contribution(*caster, *t, kind),
    {
        if caster.id == t.id || kind == BuffType::Aura {
            return 0;
        }
        let radius = caster.aura_level();
        proof {
            lemma_index_of_kind(caster.buffs@, BuffType::Aura);
        }
        let (cx, cy) = caster.map_position;
        let area = GameMap::tile_potential_neighbors(cx as isize, cy as isize, radius);
        let ghost cells = rings_upto(cx as int, cy as int, radius as nat);
        let (tx, ty) = t.map_position;
        let mut inside = false;
        let mut k: usize = 0;
        while k < area.len()
            invariant
                as_ints(area@) == cells,
                k <= area@.len(),
                inside == exists|j: int| 0 <= j < k && cells[j] == (tx as int, ty as int),
            decreases area@.len() - k,
        {
            let (ax, ay) = area[k];
            assert(cells[k as int] == (ax as int, ay as int));
            if ax >= 0 && ay >= 0 && ax as usize == tx && ay as usize == ty {
                inside = true;
            }
            k = k + 1;
        }
        proof {
            if cells.contains((tx as int, ty as int)) {
                let j = choose|j: int| 0 <= j < cells.len() && cells[j] == (tx as int, ty as int);
                assert(cells[j] == (tx as int, ty as int));
            }
            if inside {
                let j = choose|j: int| 0 <= j < k && cells[j] == (tx as int, ty as int);
                assert(cells[j] == (tx as int, ty as int));
            }
        }
        if !inside {
            return 0;
        }
        match find_buff(&caster.buffs, kind) {
            Some(i) => caster.buffs[i].level,
            None => 0,
        }
    }

    /// The entries of `r` settle the first `q` lent kinds as `t` receives
    /// them, and none of the others.
    /// `r` holds a buff of `kind` exactly when some caster lends `t` that
    /// kind, and then at the highest level lent.
    pub open spec fn level_ok(&self, t: Tower, r: Seq<Buff>, kind: BuffType) -> bool {
        &&& level_of(r, kind) == best_aura(self.built@, t, kind)
        &&& (index_of_kind(r, kind) >= 0 <==> best_aura(self.built@, t, kind) > 0)
    }

    pub open spec fn auras_settled(&self, t: Tower, r: Seq<Buff>, q: int) -> bool {
        &&& kinds_unique(r)
        &&& forall|i: int| 0 <= i < r.len() ==> (#[trigger] r[i]).stats.kind != BuffType::Aura
        &&& forall|p: int|
            0 <= p < q ==> #[trigger] effect_of(r, lent_kind(p)) == aura_effect(
                self.buff_stats@,
                lent_kind(p),
                best_aura(self.built@, t, lent_kind(p)),
            )
        &&& forall|p: int| q <= p < 4 ==> #[trigger] index_of_kind(r, lent_kind(p)) == -1
        &&& forall|p: int|
            0 <= p < q ==> #[trigger] self.level_ok(t, r, lent_kind(p))
    }

    proof fn lemma_settle_none(&self, t: Tower, r: Seq<Buff>, q: int)
        requires
            0 <= q < 4,
            self.auras_settled(t, r, q),
            best_aura(self.built@, t, lent_kind(q)) == 0,
        ensures
            self.auras_settled(t, r, q + 1),
    {
        lemma_lent_kinds(BuffType::Aura);
        assert forall|p: int|
            0 <= p < q + 1 implies #[trigger] effect_of(r, lent_kind(p)) == aura_effect(
                self.buff_stats@,
                lent_kind(p),
                best_aura(self.built@, t, lent_kind(p)),
            ) by {
            if p < q {
                assert(effect_of(r, lent_kind(p)) == aura_effect(
                    self.buff_stats@,
                    lent_kind(p),
                    best_aura(self.built@, t, lent_kind(p)),
                ));
            } else {
                assert(index_of_kind(r, lent_kind(q)) == -1);
            }
        }
        assert forall|p: int|
            0 <= p < q + 1 implies #[trigger] self.level_ok(t, r, lent_kind(p)) by {
            if p < q {
                assert(self.level_ok(t, r, lent_kind(p)));
            } else {
                assert(index_of_kind(r, lent_kind(q)) == -1);
            }
        }
    }

    proof fn lemma_settle_push(&self, t: Tower, r: Seq<Buff>, q: int, copy: Buff)
        requires
            0 <= q < 4,
            self.auras_settled(t, r, q),
            copy.stats.kind == lent_kind(q),
            copy.level == best_aura(self.built@, t, lent_kind(q)),
            copy.level > 0,
            copy.stats.level_to_effectiveness@ == effect_table(self.buff_stats@, lent_kind(q)),
        ensures
            self.auras_settled(t, r.push(copy), q + 1),
    {
        lemma_lent_kinds(BuffType::Aura);
        let kind = lent_kind(q);
        let after = r.push(copy);
        lemma_index_of_kind(r, kind);
        assert forall|a: int, b: int|
            0 <= a < after.len() && 0 <= b < after.len() && a != b implies (#[trigger] after[a]).stats.kind
                != (#[trigger] after[b]).stats.kind by {
            if a < r.len() && b < r.len() {
                assert(after[a] == r[a] && after[b] == r[b]);
            } else if a < r.len() {
                assert(after[a] == r[a]);
            } else if b < r.len() {
                assert(after[b] == r[b]);
            }
        }
        assert forall|i: int| 0 <= i < after.len() implies (#[trigger] after[i]).stats.kind != BuffType::Aura by {
            if i < r.len() {
                assert(after[i] == r[i]);
            }
        }
        assert forall|p: int|
            0 <= p < q + 1 implies #[trigger] effect_of(after, lent_kind(p)) == aura_effect(
                self.buff_stats@,
                lent_kind(p),
                best_aura(self.built@, t, lent_kind(p)),
            ) by {
            lemma_index_of_push(r, copy, lent_kind(p));
            if p < q {
                assert(effect_of(r, lent_kind(p)) == aura_effect(
                    self.buff_stats@,
                    lent_kind(p),
                    best_aura(self.built@, t, lent_kind(p)),
                ));
                assert(lent_kind(p) != kind);
                lemma_index_of_kind(r, lent_kind(p));
                if index_of_kind(r, lent_kind(p)) >= 0 {
                    assert(after[index_of_kind(r, lent_kind(p))] == r[index_of_kind(r, lent_kind(p))]);
                }
            } else {
                assert(index_of_kind(after, kind) == r.len());
                assert(after[r.len() as int] == copy);
            }
        }
        assert forall|p: int| q + 1 <= p < 4 implies #[trigger] index_of_kind(after, lent_kind(p)) == -1 by {
            lemma_index_of_push(r, copy, lent_kind(p));
            assert(lent_kind(p) != kind);
        }
        assert forall|p: int|
            0 <= p < q + 1 implies #[trigger] self.level_ok(t, after, lent_kind(p)) by {
            lemma_index_of_push(r, copy, lent_kind(p));
            if p < q {
                assert(self.level_ok(t, r, lent_kind(p)));
                assert(lent_kind(p) != kind);
                lemma_index_of_kind(r, lent_kind(p));
                if index_of_kind(r, lent_kind(p)) >= 0 {
                    assert(after[index_of_kind(r, lent_kind(p))] == r[index_of_kind(r, lent_kind(p))]);
                }
            } else {
                assert(index_of_kind(after, kind) == r.len());
                assert(after[r.len() as int] == copy);
            }
        }
    }

    /// The highest level of `kind` any caster lends `t`, and the first caster
    /// lending it.
    fn strongest_caster(&self, t: &Tower, kind: BuffType) -> (r: (usize, usize))
        requires
            self.wf(),
        ensures
            r.0 == best_aura(self.built@, *t, kind),
            r.0 > 0 ==> r.1 < self.built@.len() && contribution(self.built@[r.1 as int], *t, kind) == r.0,
    {
        let mut best: usize = 0;
        let mut from: usize = 0;
        let mut j: usize = 0;
        while j < self.built.len()
            invariant
                self.wf(),
                j <= self.built@.len(),
                best == best_aura(self.built@.subrange(0, j as int), *t, kind),
                best > 0 ==> from < j && contribution(self.built@[from as int], *t, kind) == best,
            decreases self.built@.len() - j,
        {
            assert(self.built@.subrange(0, j + 1).drop_last() =~= self.built@.subrange(0, j as int));
            let c = Towers::contribution_of(&self.built[j], t, kind);
            if c > best {
                best = c;
                from = j;
            }
            j = j + 1;
        }
        assert(self.built@.subrange(0, j as int) =~= self.built@);
        (best, from)
    }

    /// The aura buffs tower `t` receives: for each kind an aura lends, a copy
    /// of the buff of the caster lending the highest level of it (the first
    /// such caster in the registry), if any lends it.
    pub fn aura_buffs_for(&self, t: &Tower) -> (r: Vec<Buff>)
        requires
            self.wf(),
        ensures
            kinds_unique(r@),
            level_of(r@, BuffType::Aura) == 0,
            effect_of(r@, BuffType::Aura) == 0,
            index_of_kind(r@, BuffType::Aura) < 0,
            forall|kind: BuffType|
                kind != BuffType::Aura ==> #[trigger] self.level_ok(*t, r@, kind),
            forall|kind: BuffType|
                kind != BuffType::Aura ==> #[trigger] effect_of(r@, kind) == aura_effect(
                    self.buff_stats@,
                    kind,
                    best_aura(self.built@, *t, kind),
                ),
    {
        let mut r: Vec<Buff> = Vec::new();
        let mut q: usize = 0;
        proof {
            lemma_lent_kinds(BuffType::Aura);
        }
        while q < 4
            invariant
                self.wf(),
                q <= 4,
                self.auras_settled(*t, r@, q as int),
            decreases 4 - q,
        {
            let kind = lent_kind_exec(q);
            let (best, from) = self.strongest_caster(t, kind);
            if best > 0 {
                let caster = &self.built[from];
                proof {
                    lemma_index_of_kind(caster.buffs@, kind);
                    assert(caster.wf());
                }
                let bi = match find_buff(&caster.buffs, kind) {
                    Some(b) => b,
                    None => 0,
                };
                let copy = caster.buffs[bi].duplicate();
                proof {
                    assert(caster.buffs@[bi as int].stats.level_to_effectiveness@ == effect_table(self.buff_stats@, kind));
                    self.lemma_settle_push(*t, r@, q as int, copy);
                }
                r.push(copy);
            } else {
                proof {
                    self.lemma_settle_none(*t, r@, q as int);
                }
            }
            q = q + 1;
        }
        proof {
            assert forall|kind: BuffType| kind != BuffType::Aura implies #[trigger] effect_of(r@, kind) == aura_effect(
                self.buff_stats@,
                kind,
                best_aura(self.built@, *t, kind),
            ) by {
                lemma_lent_kinds(kind);
                let p = choose|p: int| 0 <= p < 4 && lent_kind(p) == kind;
                assert(effect_of(r@, lent_kind(p)) == aura_effect(self.buff_stats@, lent_kind(p), best_aura(self.built@, *t, lent_kind(p))));
            }
            assert forall|kind: BuffType| kind != BuffType::Aura implies #[trigger] self.level_ok(*t, r@, kind) by {
                lemma_lent_kinds(kind);
                let p = choose|p: int| 0 <= p < 4 && lent_kind(p) == kind;
                assert(self.level_ok(*t, r@, lent_kind(p)));
            }
            lemma_index_of_kind(r@, BuffType::Aura);
        }
        r
    }

    /// Bonus of tower `t` to the stat `kind` raises: its own buff of that
    /// kind plus the best aura of that kind it receives.
    pub open spec fn aura_bonus(&self, t: Tower, kind: BuffType) -> int {
        sat_add(
            effect_of(t.buffs@, kind) as int,
            aura_effect(self.buff_stats@, kind, best_aura(self.built@, t, kind)) as int,
        )
    }

    /// The stats tower `t` fights with: the base stats raised by its bonuses.
    pub open spec fn effective_stats(&self, t: Tower) -> TowerStats {
        TowerStats {
            damage: sat_add(self.stats.damage as int, self.aura_bonus(t, BuffType::Damage)) as usize,
            projectile_speed: self.stats.projectile_speed,
            range: sat_add64(
                self.stats.range as int,
                sat_mul64(self.aura_bonus(t, BuffType::Range), UNITS_PER_PIXEL as int),
            ) as u64,
            rpm: sat_add(self.stats.rpm as int, self.aura_bonus(t, BuffType::RPM)) as usize,
            price: self.stats.price,
        }
    }

    /// The stats tower `t` fights with and the aura buffs it receives.
    fn plan_for(&self, t: &Tower) -> (r: (TowerStats, Vec<Buff>))
        requires
            self.wf(),
        ensures
            r.0 == self.effective_stats(*t),
            r.0.rpm > 0,
            self.auras_ok(*t, r.1@),
    {
        let auras = self.aura_buffs_for(t);
        let stats = TowerStats::get_buffed_stats(t, &auras, &self.stats);
        proof {
            assert(effect_of(auras@, BuffType::Damage) == aura_effect(self.buff_stats@, BuffType::Damage, best_aura(self.built@, *t, BuffType::Damage)));
            assert(effect_of(auras@, BuffType::Range) == aura_effect(self.buff_stats@, BuffType::Range, best_aura(self.built@, *t, BuffType::Range)));
            assert(effect_of(auras@, BuffType::RPM) == aura_effect(self.buff_stats@, BuffType::RPM, best_aura(self.built@, *t, BuffType::RPM)));
        }
        (stats, auras)
    }

    /// Position of the table of `kind`.
    fn table_index(&self, kind: BuffType) -> (r: Option<usize>)
        ensures
            r matches Some(k) ==> k < self.buff_stats@.len() && self.buff_stats@[k as int].kind == kind,
            r is None ==> forall|j: int| 0 <= j < self.buff_stats@.len() ==> (#[trigger] self.buff_stats@[j]).kind != kind,
    {
        let mut k: usize = 0;
        while k < self.buff_stats.len()
            invariant
                k <= self.buff_stats@.len(),
                forall|j: int| 0 <= j < k ==> (#[trigger] self.buff_stats@[j]).kind != kind,
            decreases self.buff_stats@.len() - k,
        {
            if self.buff_stats[k].kind == kind {
                return Some(k);
            }
            k = k + 1;
        }
        None
    }

    /// Stats of the tower on cell `(x, y)`, if there is one.
    pub fn stats_at(&self, x: usize, y: usize) -> (r: Option<TowerStats>)
        requires
            self.wf(),
        ensures
            r is None <==> self.index_at(x, y) < 0,
            r matches Some(s) ==> s == self.effective_stats(self.built@[self.index_at(x, y)]),
    {
        match self.find_at(x, y) {
            Some(i) => {
                let (stats, _auras) = self.plan_for(&self.built[i]);
                Some(stats)
            },
            None => None,
        }
    }

    /// Copies of the buffs of the tower on cell `(x, y)`, if there is one.
    pub fn buffs_at(&self, x: usize, y: usize) -> (r: Option<Vec<Buff>>)
        requires
            self.wf(),
        ensures
            r is None <==> self.index_at(x, y) < 0,
            r matches Some(v) ==> {
                let t = self.built@[self.index_at(x, y)];
                &&& v@.len() == t.buffs@.len()
                &&& forall|i: int|
                    0 <= i < v@.len() ==> (#[trigger] v@[i]).level == t.buffs@[i].level && v@[i].stats.kind
                        == t.buffs@[i].stats.kind && v@[i].effectiveness_spec() == t.buffs@[i].effectiveness_spec()
            },
    {
        match self.find_at(x, y) {
            Some(i) => {
                let t = &self.built[i];
                let mut v: Vec<Buff> = Vec::new();
                let mut k: usize = 0;
                while k < t.buffs.len()
                    invariant
                        k <= t.buffs@.len(),
                        v@.len() == k,
                        forall|j: int|
                            0 <= j < k ==> (#[trigger] v@[j]).level == t.buffs@[j].level && v@[j].stats.kind
                                == t.buffs@[j].stats.kind && v@[j].effectiveness_spec() == t.buffs@[j].effectiveness_spec(),
                    decreases t.buffs@.len() - k,
                {
                    v.push(t.buffs[k].duplicate());
                    k = k + 1;
                }
                Some(v)
            },
            None => None,
        }
    }

    /// Upgrades or adds a buff of `buff_type` on the tower on cell `(x, y)`
    /// (see [`buff_added`]). Refused, changing nothing, when there is no
    /// tower there, no table for that kind, or no room for another kind;
    /// returns whether it was applied.
    pub fn add_buff_at_pos(&mut self, x: usize, y: usize, buff_type: BuffType) -> (r: bool)
        requires
            old(self).wf(),
        ensures
            final(self).wf(),
            final(self).stats == old(self).stats,
            final(self).buff_stats@ == old(self).buff_stats@,
            final(self).next_tower_id == old(self).next_tower_id,
            final(self).built@.len() == old(self).built@.len(),
            old(self).index_at(x, y) < 0 || !(exists|k: int|
                0 <= k < old(self).buff_stats@.len() && (#[trigger] old(self).buff_stats@[k]).kind == buff_type)
                ==> !r && final(self).built@ == old(self).built@,
            old(self).index_at(x, y) >= 0 ==> {
                let i = old(self).index_at(x, y);
                &&& forall|j: int| 0 <= j < old(self).built@.len() && j != i ==> #[trigger] final(self).built@[j] == old(self).built@[j]
                &&& (exists|k: int| 0 <= k < old(self).buff_stats@.len() && (#[trigger] old(self).buff_stats@[k]).kind == buff_type)
                    ==> buff_added(
                    old(self).built@[i],
                    final(self).built@[i],
                    old(self).buff_stats@[choose|k: int|
                        0 <= k < old(self).buff_stats@.len() && (#[trigger] old(self).buff_stats@[k]).kind == buff_type],
                    r,
                )
            },
    {
        let k = match self.table_index(buff_type) {
            Some(k) => k,
            None => {
                return false;
            },
        };
        let i = match self.find_at(x, y) {
            Some(i) => i,
            None => {
                return false;
            },
        };
        proof {
            let c = choose|c: int| 0 <= c < self.buff_stats@.len() && (#[trigger] self.buff_stats@[c]).kind == buff_type;
            if c != k as int {
                if c < k {
                    assert(self.buff_stats@[c].kind != buff_type);
                } else {
                    assert(self.buff_stats@[k as int].kind != self.buff_stats@[c].kind);
                }
            }
            assert(effect_table(self.buff_stats@, buff_type) == self.buff_stats@[k as int].level_to_effectiveness@);
            assert(self.built@[i as int].wf());
        }
        let table = self.buff_stats[k].duplicate();
        let ghost before = self.built@;
        let r = self.built[i].add_buff(&table);
        proof {
            let b = self.built@;
            assert forall|a: int| 0 <= a < b.len() && a != i implies #[trigger] b[a] == before[a] by {}
            assert(b[i as int].map_position == before[i as int].map_position);
            assert forall|a: int, c: int| 0 <= a < c < b.len() implies (#[trigger] b[a]).id < (#[trigger] b[c]).id by {
                assert(b[a].id == before[a].id && b[c].id == before[c].id);
            }
            assert forall|a: int| 0 <= a < b.len() implies (#[trigger] b[a]).id < self.next_tower_id by {
                assert(b[a].id == before[a].id);
            }
            assert forall|a: int, c: int|
                0 <= a < b.len() && 0 <= c < b.len() && a != c implies (#[trigger] b[a]).map_position
                    != (#[trigger] b[c]).map_position by {
                assert(b[a].map_position == before[a].map_position && b[c].map_position == before[c].map_position);
            }
            assert forall|a: int| 0 <= a < b.len() implies {
                &&& (#[trigger] b[a]).wf()
                &&& b[a].map_position.0 <= MAX_MAP_SIDE
                &&& b[a].map_position.1 <= MAX_MAP_SIDE
                &&& forall|m: int|
                    0 <= m < b[a].buffs@.len() ==> (#[trigger] b[a].buffs@[m]).stats.level_to_effectiveness@
                        == effect_table(self.buff_stats@, b[a].buffs@[m].stats.kind)
            } by {
                if a == i {
                    let ob = before[a].buffs@;
                    let nb = b[a].buffs@;
                    let idx = index_of_kind(ob, buff_type);
                    assert(buff_added(before[a], b[a], table, r));
                    assert(table.kind == buff_type);
                    lemma_index_of_kind(ob, buff_type);
                    assert forall|m: int| 0 <= m < nb.len() implies (#[trigger] nb[m]).stats.level_to_effectiveness@
                        == effect_table(self.buff_stats@, nb[m].stats.kind) by {
                        if !r {
                            assert(nb[m] == ob[m]);
                        } else if idx >= 0 {
                            assert(nb[m].stats == ob[m].stats);
                        } else if m < ob.len() {
                            assert(nb.drop_last()[m] == ob[m]);
                        }
                    }
                }
            }
        }
        r
    }

    /// `a` is a list of aura buffs as tower `t` receives them (see
    /// [`aura_buffs_for`](Towers::aura_buffs_for)).
    pub open spec fn auras_ok(&self, t: Tower, a: Seq<Buff>) -> bool {
        &&& kinds_unique(a)
        &&& effect_of(a, BuffType::Aura) == 0
        &&& index_of_kind(a, BuffType::Aura) < 0
        &&& forall|kind: BuffType|
            kind != BuffType::Aura ==> #[trigger] self.level_ok(t, a, kind)
        &&& forall|kind: BuffType|
            kind != BuffType::Aura ==> #[trigger] effect_of(a, kind) == aura_effect(
                self.buff_stats@,
                kind,
                best_aura(self.built@, t, kind),
            )
    }

    /// The towers of `self` become `after` in one tick, in registry order,
    /// each making a [`fire_step`] with its effective stats and aura buffs
    /// `auras[i]`, the projectile registry (entries and next id) going
    /// through `states`; `fired[i]` tells whether tower `i` fired.
    pub open spec fn volley(
        &self,
        after: Seq<Tower>,
        enemies: Seq<(usize, crate::enemy::Enemy)>,
        states: Seq<(Seq<(usize, Projectile)>, usize)>,
        fired: Seq<bool>,
        auras: Seq<Seq<Buff>>,
    ) -> bool {
        let n = self.built@.len();
        &&& after.len() == n
        &&& states.len() == n + 1
        &&& fired.len() == n
        &&& auras.len() == n
        &&& forall|k: int|
            0 <= k < n ==> self.auras_ok(self.built@[k], auras[k]) && #[trigger] fire_step(
                self.built@[k],
                after[k],
                enemies,
                self.effective_stats(self.built@[k]),
                auras[k],
                states[k].0,
                states[k].1,
                states[k + 1].0,
                states[k + 1].1,
                fired[k],
            )
    }

    /// Whether tower `t`, its cooldown run down by one, shoots this tick:
    /// some living enemy is within its range of its cell center and the
    /// cooldown has reached 0.
    pub open spec fn fires(&self, t: Tower, enemies: Seq<(usize, crate::enemy::Enemy)>) -> bool {
        let center = tile_center_spec(t.map_position.0 as int, t.map_position.1 as int);
        let cooled = if t.cooldown > 0 { t.cooldown - 1 } else { 0 };
        &&& cooled == 0
        &&& exists|i: int| 0 <= i < enemies.len() && eligible(#[trigger] enemies[i].1, center, self.effective_stats(t).range)
    }

    /// One tick of every tower, in registry order, each with its effective
    /// stats and the aura buffs it receives as they stood before any tower
    /// acted. Returns how many towers shot.
    pub fn tick(&mut self, enemies: &Enemies, projectiles: &mut Projectiles) -> (r: usize)
        requires
            old(self).wf(),
            old(projectiles).wf(),
            enemies.wf(),
        ensures
            final(self).wf(),
            final(projectiles).wf(),
            final(self).stats == old(self).stats,
            final(self).buff_stats@ == old(self).buff_stats@,
            final(self).next_tower_id == old(self).next_tower_id,
            final(self).built@.len() == old(self).built@.len(),
            r <= old(self).built@.len(),
            exists|states: Seq<(Seq<(usize, Projectile)>, usize)>, fired: Seq<bool>, auras: Seq<Seq<Buff>>| {
                &&& #[trigger] old(self).volley(final(self).built@, enemies.enemies@, states, fired, auras)
                &&& states[0] == (old(projectiles).projectiles@, old(projectiles).id)
                &&& states.last() == (final(projectiles).projectiles@, final(projectiles).id)
                &&& r == count_set(fired)
            },
            forall|i: int| 0 <= i < old(self).built@.len() ==> {
                let a = old(self).built@[i];
                let b = #[trigger] final(self).built@[i];
                &&& b.id == a.id
                &&& b.map_position == a.map_position
                &&& b.buffs@ == a.buffs@
                &&& b.cooldown == if old(self).fires(a, enemies.enemies@) {
                    TICKS_PER_MINUTE / old(self).effective_stats(a).rpm
                } else if a.cooldown > 0 {
                    (a.cooldown - 1) as usize
                } else {
                    0
                }
            },
    {
        let n = self.built.len();
        let mut plans: Vec<(TowerStats, Vec<Buff>)> = Vec::new();
        let mut i: usize = 0;
        while i < n
            invariant
                self.wf(),
                n == self.built@.len(),
                i <= n,
                plans@.len() == i,
                forall|k: int| 0 <= k < i ==> (#[trigger] plans@[k]).0 == self.effective_stats(self.built@[k]) && plans@[k].0.rpm > 0,
                forall|k: int| 0 <= k < i ==> self.auras_ok(self.built@[k], #[trigger] plans@[k].1@),
            decreases n - i,
        {
            plans.push(self.plan_for(&self.built[i]));
            i = i + 1;
        }
        let ghost old_self = *self;
        let ghost auras: Seq<Seq<Buff>> = Seq::new(n as nat, |k: int| plans@[k].1@);
        let ghost mut states: Seq<(Seq<(usize, Projectile)>, usize)> = seq![(projectiles.projectiles@, projectiles.id)];
        let ghost mut fired_all: Seq<bool> = Seq::empty();
        let mut shots: usize = 0;
        let mut i: usize = 0;
        while i < n
            invariant
                auras == Seq::new(n as nat, |k: int| plans@[k].1@),
                forall|k: int| 0 <= k < n ==> old_self.auras_ok(old_self.built@[k], #[trigger] plans@[k].1@),
                states.len() == i + 1,
                fired_all.len() == i,
                states[0] == (old(projectiles).projectiles@, old(projectiles).id),
                states.last() == (projectiles.projectiles@, projectiles.id),
                shots == count_set(fired_all),
                forall|k: int|
                    0 <= k < i ==> #[trigger] fire_step(
                        old_self.built@[k],
                        self.built@[k],
                        enemies.enemies@,
                        old_self.effective_stats(old_self.built@[k]),
                        auras[k],
                        states[k].0,
                        states[k].1,
                        states[k + 1].0,
                        states[k + 1].1,
                        fired_all[k],
                    ),
                old_self.wf(),
                old_self == *old(self),
                n == self.built@.len(),
                n == old_self.built@.len(),
                plans@.len() == n,
                forall|k: int| 0 <= k < n ==> (#[trigger] plans@[k]).0 == old_self.effective_stats(old_self.built@[k]) && plans@[k].0.rpm > 0,
                i <= n,
                shots <= i,
                projectiles.wf(),
                enemies.wf(),
                self.stats == old_self.stats,
                self.buff_stats@ == old_self.buff_stats@,
                self.next_tower_id == old_self.next_tower_id,
                forall|k: int| i <= k < n ==> #[trigger] self.built@[k] == old_self.built@[k],
                forall|k: int| 0 <= k < i ==> {
                    let a = old_self.built@[k];
                    let b = #[trigger] self.built@[k];
                    &&& b.id == a.id
                    &&& b.map_position == a.map_position
                    &&& b.buffs@ == a.buffs@
                    &&& b.wf()
                    &&& b.cooldown == if old_self.fires(a, enemies.enemies@) {
                        TICKS_PER_MINUTE / old_self.effective_stats(a).rpm
                    } else if a.cooldown > 0 {
                        (a.cooldown - 1) as usize
                    } else {
                        0
                    }
                },
            decreases n - i,
        {
            proof {
                assert(old_self.built@[i as int].wf());
                assert(self.built@[i as int] == old_self.built@[i as int]);
            }
            let ghost before = self.built@;
            let ghost st = states;
            let fired = self.built[i].tick(enemies, projectiles, &plans[i].0, &plans[i].1);
            if fired {
                shots = shots + 1;
            }
            proof {
                states = states.push((projectiles.projectiles@, projectiles.id));
                let fa = fired_all;
                fired_all = fired_all.push(fired);
                assert(fired_all.drop_last() =~= fa);
                assert forall|k: int|
                    0 <= k < i + 1 implies #[trigger] fire_step(
                        old_self.built@[k],
                        self.built@[k],
                        enemies.enemies@,
                        old_self.effective_stats(old_self.built@[k]),
                        auras[k],
                        states[k].0,
                        states[k].1,
                        states[k + 1].0,
                        states[k + 1].1,
                        fired_all[k],
                    ) by {
                    if k < i {
                        assert(self.built@[k] == before[k]);
                        assert(states[k] == st[k] && states[k + 1] == st[k + 1]);
                        assert(fired_all[k] == fa[k]);
                    } else {
                        assert(states[k] == st[k]);
                    }
                }
            }
            i = i + 1;
        }
        proof {
            assert(old_self.volley(self.built@, enemies.enemies@, states, fired_all, auras));
        }
        proof {
            let b = self.built@;
            let ob = old_self.built@;
            assert forall|a: int, c: int| 0 <= a < c < b.len() implies (#[trigger] b[a]).id < (#[trigger] b[c]).id by {
                assert(b[a].id == ob[a].id && b[c].id == ob[c].id);
            }
            assert forall|a: int| 0 <= a < b.len() implies (#[trigger] b[a]).id < self.next_tower_id by {
                assert(b[a].id == ob[a].id);
            }
            assert forall|a: int, c: int|
                0 <= a < b.len() && 0 <= c < b.len() && a != c implies (#[trigger] b[a]).map_position
                    != (#[trigger] b[c]).map_position by {
                assert(b[a].map_position == ob[a].map_position && b[c].map_position == ob[c].map_position);
            }
            assert forall|a: int| 0 <= a < b.len() implies {
                &&& (#[trigger] b[a]).wf()
                &&& b[a].map_position.0 <= MAX_MAP_SIDE
                &&& b[a].map_position.1 <= MAX_MAP_SIDE
                &&& forall|m: int|
                    0 <= m < b[a].buffs@.len() ==> (#[trigger] b[a].buffs@[m]).stats.level_to_effectiveness@
                        == effect_table(self.buff_stats@, b[a].buffs@[m].stats.kind)
            } by {
                assert(b[a].buffs@ == ob[a].buffs@);
                assert(ob[a].wf());
            }
        }
        shots
    }
}

/// The stats a tower fights with are never below the base stats, whatever
/// buffs it holds or receives (two kinds at the highest level included).
pub proof fn lemma_effective_at_least_base(towers: Towers, t: Tower)
    requires
        towers.wf(),
    ensures
        towers.effective_stats(t).damage >= towers.stats.damage,
        towers.effective_stats(t).range >= towers.stats.range,
        towers.effective_stats(t).rpm >= towers.stats.rpm,
        towers.effective_stats(t).projectile_speed == towers.stats.projectile_speed,
{
}

/// A caster lends nothing to itself through its own aura.
pub proof fn lemma_no_self_aura(c: Tower, kind: BuffType)
    ensures
        contribution(c, c, kind) == 0,
{
}

/// Auras of one kind from several casters do not add up: what a tower
/// receives is the largest single contribution (0 when there is none).
pub proof fn lemma_best_aura_is_max(casters: Seq<Tower>, t: Tower, kind: BuffType)
    ensures
        forall|i: int| 0 <= i < casters.len() ==> contribution(#[trigger] casters[i], t, kind) <= best_aura(casters, t, kind),
        best_aura(casters, t, kind) == 0 || exists|i: int|
            0 <= i < casters.len() && contribution(#[trigger] casters[i], t, kind) == best_aura(casters, t, kind),
    decreases casters.len(),
{
    if casters.len() > 0 {
        let d = casters.drop_last();
        lemma_best_aura_is_max(d, t, kind);
        assert forall|i: int| 0 <= i < casters.len() implies contribution(#[trigger] casters[i], t, kind) <= best_aura(casters, t, kind) by {
            if i < d.len() {
                assert(casters[i] == d[i]);
            }
        }
        if best_aura(casters, t, kind) != 0 {
            if best_aura(casters, t, kind) == contribution(casters.last(), t, kind) {
                assert(contribution(casters[casters.len() - 1], t, kind) == best_aura(casters, t, kind));
            } else {
                let i = choose|i: int| 0 <= i < d.len() && contribution(#[trigger] d[i], t, kind) == best_aura(d, t, kind);
                assert(casters[i] == d[i]);
            }
        }
    }
}

/// A tower's own buff and the aura it receives add up: when the sum fits,
/// its damage is the base damage plus its own buff's effectiveness plus the
/// effectiveness of the best aura of that kind it receives.
pub proof fn lemma_aura_additive(towers: Towers, t: Tower)
    requires
        towers.stats.damage + effect_of(t.buffs@, BuffType::Damage) + aura_effect(
            towers.buff_stats@,
            BuffType::Damage,
            best_aura(towers.built@, t, BuffType::Damage),
        ) <= usize::MAX,
    ensures
        towers.effective_stats(t).damage == towers.stats.damage + effect_of(t.buffs@, BuffType::Damage) + aura_effect(
            towers.buff_stats@,
            BuffType::Damage,
            best_aura(towers.built@, t, BuffType::Damage),
        ),
{
}

} // verus!
