//! Projectiles: homing shots that deal damage and debuffs on arrival, and
//! their registry.
use vstd::prelude::*;
use crate::assets::ImgID;
use crate::buffs::BuffType;
use crate::debuffs::Debuff;
use crate::enemies::{Enemies, damaged, debuffed, index_in};
use crate::enemy::Enemy;
use crate::geometry::{Point, dist2, move_to, moved};

verus! {

/// Index of the debuff of `kind` in `ds`, or -1.
pub open spec fn debuff_index(ds: Seq<Debuff>, kind: BuffType) -> int {
    if exists|i: int| 0 <= i < ds.len() && (#[trigger] ds[i]).kind == kind {
        choose|i: int| 0 <= i < ds.len() && (#[trigger] ds[i]).kind == kind
    } else {
        -1
    }
}

/// No two debuffs of `ds` share a kind.
pub open spec fn debuff_kinds_unique(ds: Seq<Debuff>) -> bool {
    forall|i: int, j: int| 0 <= i < j < ds.len() ==> (#[trigger] ds[i]).kind != (#[trigger] ds[j]).kind
}

/// `ds` holds a debuff of `kind` at least as effective as `e`.
pub open spec fn covers(ds: Seq<Debuff>, kind: BuffType, e: int) -> bool {
    exists|i: int| 0 <= i < ds.len() && (#[trigger] ds[i]).kind == kind && ds[i].effectiveness >= e
}

/// The debuffs `ds` after offering `d`: a new kind is appended; of two
/// debuffs of one kind the more effective stays, the one held on a tie.
pub open spec fn merged(ds: Seq<Debuff>, d: Debuff) -> Seq<Debuff> {
    let i = debuff_index(ds, d.kind);
    if i < 0 {
        ds.push(d)
    } else if ds[i].effectiveness < d.effectiveness {
        ds.update(i, d)
    } else {
        ds
    }
}

/// The debuffs `ds` after offering each of `offered` in turn.
pub open spec fn merged_all(ds: Seq<Debuff>, offered: Seq<Debuff>) -> Seq<Debuff>
    decreases offered.len(),
{
    if offered.len() == 0 {
        ds
    } else {
        merged(merged_all(ds, offered.drop_last()), offered.last())
    }
}

/// The registry entries `s` after `p` is added under `id`: it replaces an
/// entry holding that id, else it is appended.
pub open spec fn with_spawn(s: Seq<(usize, Projectile)>, id: usize, p: Projectile) -> Seq<(usize, Projectile)> {
    if exists|i: int| 0 <= i < s.len() && (#[trigger] s[i]).0 == id {
        s.update(choose|i: int| 0 <= i < s.len() && (#[trigger] s[i]).0 == id, (id, p))
    } else {
        s.push((id, p))
    }
}

/// The id after `id`, wrapping round.
pub open spec fn next_id(id: usize) -> usize {
    if id == usize::MAX {
        0
    } else {
        (id + 1) as usize
    }
}

#[derive(Debug)]
pub struct Projectile {
    pub disp: ImgID,
    pub enemy_id: usize,
    pub tower_id: usize,
    pub position: Point,
    pub damage: usize,
    /// Sub-pixel units flown per tick.
    pub speed: u64,
    pub next_walk_target: Point,
    pub reached_goal: bool,
    /// At most one debuff per kind, the strongest offered.
    pub debuffs: Vec<Debuff>,
}

/// Where a projectile aims: at its enemy if that is still in the registry,
/// else at the last point it aimed at.
pub open spec fn aim(p: Projectile, enemies: Seq<(usize, Enemy)>) -> Point {
    let i = index_in(enemies, p.enemy_id);
    if i >= 0 {
        enemies[i].1.position
    } else {
        p.next_walk_target
    }
}

/// `b` and `eb` are projectile `a` and the enemies `ea` one tick later: the
/// projectile homed in on its enemy and flew; on arrival it hit its enemy
/// (if still there) with its damage, then with its debuffs.
pub open spec fn flight_step(a: Projectile, b: Projectile, ea: Seq<(usize, Enemy)>, eb: Seq<(usize, Enemy)>) -> bool {
    let target = aim(a, ea);
    let arrived = dist2(a.position, target) <= a.speed * a.speed;
    &&& moved(a.position, target, a.speed as int, (b.position, arrived))
    &&& b.next_walk_target == target
    &&& b.reached_goal == arrived
    &&& b.enemy_id == a.enemy_id
    &&& b.tower_id == a.tower_id
    &&& b.damage == a.damage
    &&& b.speed == a.speed
    &&& b.debuffs@ == a.debuffs@
    &&& b.disp == a.disp
    &&& !arrived ==> eb == ea
    &&& arrived ==> exists|mid: Seq<(usize, Enemy)>|
        damaged(ea, mid, a.enemy_id, a.damage) && #[trigger] debuffed(mid, eb, a.enemy_id, a.debuffs@)
}

impl Projectile {
    pub open spec fn wf(&self) -> bool {
        debuff_kinds_unique(self.debuffs@)
    }

    /// A projectile at `position` shot by `tower_id` at `enemy_id`.
    pub fn new(position: Point, tower_id: usize, enemy_id: usize, damage: usize, speed: u64) -> (r: Self)
        ensures
            r.wf(),
            r.disp == ImgID::Arrow,
            r.position == position,
            r.next_walk_target == position,
            r.tower_id == tower_id,
            r.enemy_id == enemy_id,
            r.damage == damage,
            r.speed == speed,
            !r.reached_goal,
            r.debuffs@.len() == 0,
    {
        Self {
            disp: ImgID::Arrow,
            debuffs: Vec::new(),
            tower_id,
            enemy_id,
            position,
            damage,
            next_walk_target: position,
            speed,
            reached_goal: false,
        }
    }

    /// Carries `debuff` too; of two debuffs of one kind the more effective
    /// one is kept, the one held already on a tie.
    pub fn add_debuff(&mut self, debuff: Debuff)
        requires
            old(self).wf(),
        ensures
            final(self).wf(),
            final(self).enemy_id == old(self).enemy_id,
            final(self).tower_id == old(self).tower_id,
            final(self).position == old(self).position,
            final(self).damage == old(self).damage,
            final(self).speed == old(self).speed,
            final(self).next_walk_target == old(self).next_walk_target,
            final(self).reached_goal == old(self).reached_goal,
            final(self).disp == old(self).disp,
            final(self).debuffs@ == merged(old(self).debuffs@, debuff),
            covers(final(self).debuffs@, debuff.kind, debuff.effectiveness as int),
            forall|kind: BuffType, e: int| #[trigger] covers(old(self).debuffs@, kind, e) ==> covers(final(self).debuffs@, kind, e),
            ({
                let i = debuff_index(old(self).debuffs@, debuff.kind);
                &&& i < 0 ==> final(self).debuffs@ == old(self).debuffs@.push(debuff)
                &&& i >= 0 && old(self).debuffs@[i].effectiveness < debuff.effectiveness
                    ==> final(self).debuffs@ == old(self).debuffs@.update(i, debuff)
                &&& i >= 0 && old(self).debuffs@[i].effectiveness >= debuff.effectiveness
                    ==> final(self).debuffs@ == old(self).debuffs@
            }),
    {
        let mut i: usize = 0;
        while i < self.debuffs.len()
            invariant
                *self == *old(self),
                debuff_kinds_unique(self.debuffs@),
                i <= self.debuffs@.len(),
                forall|k: int| 0 <= k < i ==> (#[trigger] self.debuffs@[k]).kind != debuff.kind,
            decreases self.debuffs@.len() - i,
        {
            if self.debuffs[i].kind == debuff.kind {
                proof {
                    let j = debuff_index(self.debuffs@, debuff.kind);
                    assert(self.debuffs@[i as int].kind == debuff.kind);
                    if j != i {
                        if j < i {
                            assert(self.debuffs@[j].kind != self.debuffs@[i as int].kind);
                        } else {
                            assert(self.debuffs@[i as int].kind != self.debuffs@[j].kind);
                        }
                    }
                }
                if self.debuffs[i].effectiveness < debuff.effectiveness {
                    self.debuffs.set(i, debuff);
                    assert(self.debuffs@[i as int] == debuff);
                    assert forall|kind: BuffType, e: int| #[trigger] covers(old(self).debuffs@, kind, e) implies covers(self.debuffs@, kind, e) by {
                        let c = choose|c: int| 0 <= c < old(self).debuffs@.len() && (#[trigger] old(self).debuffs@[c]).kind == kind && old(self).debuffs@[c].effectiveness >= e;
                        if c == i {
                            assert(self.debuffs@[c].kind == kind);
                        } else {
                            assert(self.debuffs@[c] == old(self).debuffs@[c]);
                        }
                    }
                    assert forall|a: int, b: int| 0 <= a < b < self.debuffs@.len() implies (#[trigger] self.debuffs@[a]).kind
                        != (#[trigger] self.debuffs@[b]).kind by {
                        assert(old(self).debuffs@[a].kind == self.debuffs@[a].kind);
                        assert(old(self).debuffs@[b].kind == self.debuffs@[b].kind);
                    }
                } else {
                    assert(self.debuffs@[i as int].kind == debuff.kind);
                }
                return;
            }
            i = i + 1;
        }
        self.debuffs.push(debuff);
        assert(self.debuffs@[old(self).debuffs@.len() as int] == debuff);
        assert forall|kind: BuffType, e: int| #[trigger] covers(old(self).debuffs@, kind, e) implies covers(self.debuffs@, kind, e) by {
            let c = choose|c: int| 0 <= c < old(self).debuffs@.len() && (#[trigger] old(self).debuffs@[c]).kind == kind && old(self).debuffs@[c].effectiveness >= e;
            assert(self.debuffs@[c] == old(self).debuffs@[c]);
        }
        assert forall|a: int, b: int| 0 <= a < b < self.debuffs@.len() implies (#[trigger] self.debuffs@[a]).kind
            != (#[trigger] self.debuffs@[b]).kind by {
            if b < old(self).debuffs@.len() {
                assert(old(self).debuffs@[a] == self.debuffs@[a]);
                assert(old(self).debuffs@[b] == self.debuffs@[b]);
            } else {
                assert(old(self).debuffs@[a] == self.debuffs@[a]);
            }
        }
    }

    /// One tick of flight (see [`flight_step`]); returns whether the
    /// projectile arrived.
    pub fn tick(&mut self, enemies: &mut Enemies) -> (r: bool)
        requires
            old(enemies).wf(),
        ensures
            final(enemies).wf(),
            final(enemies).id == old(enemies).id,
            flight_step(*old(self), *final(self), old(enemies).enemies@, final(enemies).enemies@),
            r == final(self).reached_goal,
            final(enemies).enemies@.len() == old(enemies).enemies@.len(),
            forall|k: int| 0 <= k < old(enemies).enemies@.len() ==> (#[trigger] final(enemies).enemies@[k]).1.tile
                == old(enemies).enemies@[k].1.tile && final(enemies).enemies@[k].1.reached_goal
                == old(enemies).enemies@[k].1.reached_goal,
            final(self).wf() == old(self).wf(),
    {
        if let Some(pos) = enemies.position_of(self.enemy_id) {
            self.next_walk_target = pos;
        }
        let (new_pos, finished) = move_to(self.position, self.next_walk_target, self.speed);
        self.position = new_pos;
        self.reached_goal = finished;
        if finished {
            let ghost e0 = enemies.enemies@;
            enemies.damage(self.enemy_id, self.damage);
            let ghost mid = enemies.enemies@;
            enemies.debuff(self.enemy_id, &self.debuffs);
            proof {
                let i = index_in(e0, self.enemy_id);
                if i >= 0 {
                    assert forall|k: int| 0 <= k < e0.len() implies (#[trigger] enemies.enemies@[k]).1.tile == e0[k].1.tile
                        && enemies.enemies@[k].1.reached_goal == e0[k].1.reached_goal by {
                        assert(mid[k].1.tile == e0[k].1.tile);
                        assert(mid[k].1.reached_goal == e0[k].1.reached_goal);
                    }
                }
            }
            assert(damaged(e0, mid, self.enemy_id, self.damage) && debuffed(mid, enemies.enemies@, self.enemy_id, self.debuffs@));
        }
        finished
    }
}

/// The entries of `s` still in flight, in order.
pub open spec fn in_flight(s: Seq<(usize, Projectile)>) -> Seq<(usize, Projectile)>
    decreases s.len(),
{
    if s.len() == 0 {
        s
    } else if !s[0].1.reached_goal {
        seq![s[0]] + in_flight(s.subrange(1, s.len() as int))
    } else {
        in_flight(s.subrange(1, s.len() as int))
    }
}

/// Points where the entries of `s` that arrived hit, in order.
pub open spec fn impacts(s: Seq<(usize, Projectile)>) -> Seq<Point>
    decreases s.len(),
{
    if s.len() == 0 {
        Seq::empty()
    } else if s[0].1.reached_goal {
        seq![s[0].1.next_walk_target] + impacts(s.subrange(1, s.len() as int))
    } else {
        impacts(s.subrange(1, s.len() as int))
    }
}

/// The projectiles `pa` become `pb`, and the enemies `ea` become `eb`, in
/// one tick: each projectile in turn makes a [`flight_step`], then those
/// still [`in_flight`] stay; `hits` are the points where the others hit.
pub open spec fn flight(
    pa: Seq<(usize, Projectile)>,
    pb: Seq<(usize, Projectile)>,
    ea: Seq<(usize, Enemy)>,
    eb: Seq<(usize, Enemy)>,
    hits: Seq<Point>,
) -> bool {
    exists|flown: Seq<(usize, Projectile)>, states: Seq<Seq<(usize, Enemy)>>| {
        &&& flown.len() == pa.len()
        &&& states.len() == flown.len() + 1
        &&& states[0] == ea
        &&& states.last() == eb
        &&& forall|i: int| 0 <= i < flown.len() ==> (#[trigger] flown[i]).0 == pa[i].0 && flight_step(
            pa[i].1,
            flown[i].1,
            states[i],
            states[i + 1],
        )
        &&& pb == in_flight(flown)
        &&& hits == impacts(flown)
    }
}

/// Ids are distinct and every projectile is well formed.
pub open spec fn projectiles_wf(s: Seq<(usize, Projectile)>) -> bool {
    &&& forall|i: int, j: int| 0 <= i < j < s.len() ==> (#[trigger] s[i]).0 != (#[trigger] s[j]).0
    &&& forall|i: int| 0 <= i < s.len() ==> (#[trigger] s[i]).1.wf()
}

#[derive(Debug)]
pub struct Projectiles {
    pub projectiles: Vec<(usize, Projectile)>,
    /// The id the next projectile receives; it wraps round.
    pub id: usize,
}

impl Projectiles {
    pub open spec fn wf(&self) -> bool {
        projectiles_wf(self.projectiles@)
    }

    pub fn new() -> (r: Self)
        ensures
            r.wf(),
            r.projectiles@.len() == 0,
            r.id == 0,
    {
        Self { projectiles: Vec::new(), id: 0 }
    }

    /// Adds `projectile` under the next id, replacing a projectile that still
    /// holds that id, and moves the id on, wrapping round.
    pub fn spawn(&mut self, projectile: Projectile)
        requires
            old(self).wf(),
            projectile.wf(),
        ensures
            final(self).wf(),
            final(self).id == next_id(old(self).id),
            final(self).projectiles@ == with_spawn(old(self).projectiles@, old(self).id, projectile),
    {
        let id = self.id;
        let mut i: usize = 0;
        let mut found: Option<usize> = None;
        while i < self.projectiles.len()
            invariant
                self.projectiles@ == old(self).projectiles@,
                self.id == old(self).id,
                i <= self.projectiles@.len(),
                found is None ==> forall|k: int| 0 <= k < i ==> (#[trigger] self.projectiles@[k]).0 != id,
                found matches Some(f) ==> f < self.projectiles@.len() && self.projectiles@[f as int].0 == id,
            decreases self.projectiles@.len() - i,
        {
            if found.is_none() && self.projectiles[i].0 == id {
                found = Some(i);
            }
            i = i + 1;
        }
        let ghost old_ids = old(self).projectiles@;
        match found {
            Some(f) => {
                proof {
                    let c = choose|c: int| 0 <= c < old_ids.len() && (#[trigger] old_ids[c]).0 == id;
                    if c != f {
                        if c < f {
                            assert(old_ids[c].0 != old_ids[f as int].0);
                        } else {
                            assert(old_ids[f as int].0 != old_ids[c].0);
                        }
                    }
                }
                self.projectiles.set(f, (id, projectile));
                assert forall|a: int, b: int| 0 <= a < b < self.projectiles@.len() implies (#[trigger] self.projectiles@[a]).0
                    != (#[trigger] self.projectiles@[b]).0 by {
                    assert(old_ids[a].0 == self.projectiles@[a].0);
                    assert(old_ids[b].0 == self.projectiles@[b].0);
                }
            },
            None => {
                self.projectiles.push((id, projectile));
                assert forall|a: int, b: int| 0 <= a < b < self.projectiles@.len() implies (#[trigger] self.projectiles@[a]).0
                    != (#[trigger] self.projectiles@[b]).0 by {
                    assert(old_ids[a] == self.projectiles@[a]);
                    if b < old_ids.len() {
                        assert(old_ids[b] == self.projectiles@[b]);
                    }
                }
            },
        }
        self.id = if id == usize::MAX { 0 } else { id + 1 };
    }

    /// One tick of every projectile, in registry order (see
    /// [`flight_step`]); those that arrived then leave the registry. Returns
    /// the points where they hit.
    pub fn tick(&mut self, enemies: &mut Enemies) -> (r: Vec<Point>)
        requires
            old(self).wf(),
            old(enemies).wf(),
        ensures
            final(self).wf(),
            final(self).id == old(self).id,
            final(enemies).wf(),
            final(enemies).id == old(enemies).id,
            final(enemies).enemies@.len() == old(enemies).enemies@.len(),
            forall|k: int| 0 <= k < old(enemies).enemies@.len() ==> (#[trigger] final(enemies).enemies@[k]).1.tile
                == old(enemies).enemies@[k].1.tile && final(enemies).enemies@[k].1.reached_goal
                == old(enemies).enemies@[k].1.reached_goal,
            flight(old(self).projectiles@, final(self).projectiles@, old(enemies).enemies@, final(enemies).enemies@, r@),
    {
        let n = self.projectiles.len();
        let ghost mut states: Seq<Seq<(usize, Enemy)>> = seq![enemies.enemies@];
        let mut i: usize = 0;
        while i < n
            invariant
                n == old(self).projectiles@.len(),
                self.projectiles@.len() == n,
                self.id == old(self).id,
                enemies.wf(),
                enemies.id == old(enemies).id,
                i <= n,
                states.len() == i + 1,
                states[0] == old(enemies).enemies@,
                states.last() == enemies.enemies@,
                enemies.enemies@.len() == old(enemies).enemies@.len(),
                forall|k: int| 0 <= k < old(enemies).enemies@.len() ==> (#[trigger] enemies.enemies@[k]).1.tile
                    == old(enemies).enemies@[k].1.tile && enemies.enemies@[k].1.reached_goal
                    == old(enemies).enemies@[k].1.reached_goal,
                forall|k: int| 0 <= k < n ==> (#[trigger] self.projectiles@[k]).0 == old(self).projectiles@[k].0,
                forall|k: int| 0 <= k < n ==> (#[trigger] self.projectiles@[k]).1.wf(),
                forall|k: int| 0 <= k < i ==> flight_step(old(self).projectiles@[k].1, (#[trigger] self.projectiles@[k]).1, states[k], states[k + 1]),
                forall|k: int| i <= k < n ==> (#[trigger] self.projectiles@[k]).1 == old(self).projectiles@[k].1,
                projectiles_wf(old(self).projectiles@),
            decreases n - i,
        {
            self.projectiles[i].1.tick(enemies);
            proof {
                states = states.push(enemies.enemies@);
            }
            i = i + 1;
        }
        let ghost flown = self.projectiles@;
        assert(projectiles_wf(flown)) by {
            assert forall|a: int, b: int| 0 <= a < b < flown.len() implies (#[trigger] flown[a]).0 != (#[trigger] flown[b]).0 by {
                assert(old(self).projectiles@[a].0 != old(self).projectiles@[b].0);
            }
        }
        let mut out: Vec<(usize, Projectile)> = Vec::new();
        let mut hits: Vec<Point> = Vec::new();
        while self.projectiles.len() > 0
            invariant
                self.id == old(self).id,
                in_flight(flown) == out@ + in_flight(self.projectiles@),
                impacts(flown) == hits@ + impacts(self.projectiles@),
                projectiles_wf(out@ + self.projectiles@),
            decreases self.projectiles@.len(),
        {
            let ghost rest = self.projectiles@;
            let ghost before = out@;
            let (id, p) = self.projectiles.remove(0);
            assert(rest.subrange(1, rest.len() as int) == self.projectiles@);
            if p.reached_goal {
                hits.push(p.next_walk_target);
                proof {
                    let old_all = before + rest;
                    let new_all = out@ + self.projectiles@;
                    let m = before.len() as int;
                    assert forall|a: int, b: int| 0 <= a < b < new_all.len() implies (#[trigger] new_all[a]).0
                        != (#[trigger] new_all[b]).0 by {
                        let a2 = if a < m { a } else { a + 1 };
                        let b2 = if b < m { b } else { b + 1 };
                        assert(new_all[a] == old_all[a2]);
                        assert(new_all[b] == old_all[b2]);
                    }
                    assert forall|a: int| 0 <= a < new_all.len() implies (#[trigger] new_all[a]).1.wf() by {
                        let a2 = if a < m { a } else { a + 1 };
                        assert(new_all[a] == old_all[a2]);
                    }
                }
                assert(impacts(flown) =~= hits@ + impacts(self.projectiles@));
            } else {
                out.push((id, p));
                assert(out@ + self.projectiles@ =~= before + rest);
                assert(in_flight(flown) =~= out@ + in_flight(self.projectiles@));
            }
        }
        assert(out@ + self.projectiles@ =~= out@);
        assert(in_flight(self.projectiles@) =~= self.projectiles@);
        assert(impacts(self.projectiles@) =~= Seq::<Point>::empty());
        assert(hits@ + impacts(self.projectiles@) =~= hits@);
        self.projectiles = out;
        hits
    }
}

} // verus!
