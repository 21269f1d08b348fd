//! A single tower: its grid cell, firing cooldown and buffs.
use vstd::prelude::*;
use crate::buffs::{
    Buff, BuffStats, BuffType, MAX_BUFF_LEVEL, find_buff, index_of_kind, kinds_unique,
    lemma_index_of_kind, level_of,
};
use crate::debuffs::Debuff;
use crate::enemies::{Enemies, eligible, index_in};
use crate::enemy::Enemy;
use crate::geometry::Point;
use crate::map::{GameMap, MAX_MAP_SIDE, tile_center_spec};
use crate::projectiles::{Projectile, Projectiles, covers, merged_all, next_id, with_spawn};
use crate::assets::ImgID;
use crate::tower_stats::TowerStats;

verus! {

/// Most buff kinds a tower can hold at once.
pub const MAX_BUFF_KINDS: usize = 2;

/// The debuff a buff gives a shot: its kind, and its effectiveness as both
/// strength and countdown.
pub open spec fn snapshot(b: Buff) -> Debuff {
    Debuff { kind: b.stats.kind, cooldown: b.effectiveness_spec() as usize, effectiveness: b.effectiveness_spec() as usize }
}

/// The debuffs a shot is offered: the shooter's own freeze buff, if any,
/// then each aura buff it receives, in order.
pub open spec fn shot_snapshots(own: Seq<Buff>, aura_buffs: Seq<Buff>) -> Seq<Debuff> {
    let i = index_of_kind(own, BuffType::Freeze);
    let auras = aura_buffs.map_values(|b: Buff| snapshot(b));
    if i >= 0 {
        seq![snapshot(own[i])] + auras
    } else {
        auras
    }
}

/// Enemy `id` is a living enemy of `enemies` within `range` of `center`,
/// and none such has less health.
pub open spec fn weakest_target(enemies: Seq<(usize, Enemy)>, id: usize, center: Point, range: u64) -> bool {
    let i = index_in(enemies, id);
    &&& i >= 0
    &&& eligible(enemies[i].1, center, range)
    &&& forall|j: int|
        0 <= j < enemies.len() && eligible(#[trigger] enemies[j].1, center, range) ==> enemies[i].1.health
            <= enemies[j].1.health
}

/// `p` is the shot tower `t` fires with `stats` and the aura buffs `auras`:
/// from its cell center, at a weakest enemy in range, with the stats'
/// damage and speed, carrying the snapshots of its freeze buff and auras.
pub open spec fn shot(t: Tower, enemies: Seq<(usize, Enemy)>, stats: TowerStats, auras: Seq<Buff>, p: Projectile) -> bool {
    let center = tile_center_spec(t.map_position.0 as int, t.map_position.1 as int);
    &&& p.tower_id == t.id
    &&& p.position == center
    &&& p.next_walk_target == center
    &&& p.damage == stats.damage
    &&& p.speed == stats.projectile_speed
    &&& !p.reached_goal
    &&& p.disp == ImgID::Arrow
    &&& p.debuffs@ == merged_all(Seq::empty(), shot_snapshots(t.buffs@, auras))
    &&& weakest_target(enemies, p.enemy_id, center, stats.range)
}

/// Tower `a` becomes `b` in one tick, the projectile registry going from
/// `pa` (next id `ida`) to `pb` (next id `idb`): the cooldown runs down by
/// one, stopping at 0; if it is then 0 and a living enemy is in range, the
/// tower fires one [`shot`] and its cooldown restarts at
/// `TICKS_PER_MINUTE / stats.rpm`; `r` tells whether it fired.
pub open spec fn fire_step(
    a: Tower,
    b: Tower,
    enemies: Seq<(usize, Enemy)>,
    stats: TowerStats,
    auras: Seq<Buff>,
    pa: Seq<(usize, Projectile)>,
    ida: usize,
    pb: Seq<(usize, Projectile)>,
    idb: usize,
    r: bool,
) -> bool {
    let center = tile_center_spec(a.map_position.0 as int, a.map_position.1 as int);
    let cooled = if a.cooldown > 0 { a.cooldown - 1 } else { 0 };
    let target = exists|i: int| 0 <= i < enemies.len() && eligible(#[trigger] enemies[i].1, center, stats.range);
    &&& b.id == a.id
    &&& b.map_position == a.map_position
    &&& b.buffs@ == a.buffs@
    &&& r == (target && cooled == 0)
    &&& r ==> b.cooldown == TICKS_PER_MINUTE / stats.rpm && idb == next_id(ida) && exists|p: Projectile|
        #[trigger] shot(a, enemies, stats, auras, p) && pb == with_spawn(pa, ida, p)
    &&& !r ==> b.cooldown == cooled && pb == pa && idb == ida
}

/// Simulation ticks per minute.
pub const TICKS_PER_MINUTE: usize = 3600;

/// Level a buff reaches by one upgrade.
pub open spec fn upgraded_level(level: usize) -> usize {
    if level < MAX_BUFF_LEVEL {
        (level + 1) as usize
    } else {
        level
    }
}

/// `b` is tower `a` after a buff of the kind of `s` was offered, `r` telling
/// whether it was taken: an existing buff of that kind is upgraded; a new
/// kind is added at level 1 with the tables of `s` while capacity allows;
/// else nothing changes.
pub open spec fn buff_added(a: Tower, b: Tower, s: BuffStats, r: bool) -> bool {
    let i = index_of_kind(a.buffs@, s.kind);
    &&& b.wf()
    &&& r == a.can_have_buff_spec(s.kind)
    &&& b.id == a.id
    &&& b.cooldown == a.cooldown
    &&& b.map_position == a.map_position
    &&& !r ==> b.buffs@ == a.buffs@
    &&& i >= 0 ==> b.buffs@ == a.buffs@.update(
        i,
        Buff { stats: a.buffs@[i].stats, level: upgraded_level(a.buffs@[i].level) },
    )
    &&& i < 0 && r ==> {
        &&& b.buffs@.len() == a.buffs@.len() + 1
        &&& b.buffs@.drop_last() == a.buffs@
        &&& b.buffs@.last().level == 1
        &&& b.buffs@.last().stats.kind == s.kind
        &&& b.buffs@.last().stats.level_to_effectiveness@ == s.level_to_effectiveness@
        &&& b.buffs@.last().stats.level_to_cooldown@ == s.level_to_cooldown@
        &&& b.buffs@.last().stats.level_to_price@ == s.level_to_price@
    }
}

#[derive(Debug)]
pub struct Tower {
    pub id: usize,
    /// Ticks left before the tower may fire again.
    pub cooldown: usize,
    pub map_position: (usize, usize),
    pub buffs: Vec<Buff>,
}

impl Tower {
    /// Buff kinds are distinct, within capacity, and every buff has a level.
    pub open spec fn wf(&self) -> bool {
        &&& kinds_unique(self.buffs@)
        &&& self.buffs@.len() <= MAX_BUFF_KINDS
        &&& forall|i: int|
            0 <= i < self.buffs@.len() ==> 1 <= (#[trigger] self.buffs@[i]).level <= MAX_BUFF_LEVEL
    }

    /// Whether a buff of `kind` may be added or upgraded.
    pub open spec fn can_have_buff_spec(&self, kind: BuffType) -> bool {
        self.buffs@.len() < MAX_BUFF_KINDS || index_of_kind(self.buffs@, kind) >= 0
    }

    /// A tower without buffs at `map_position`; the registry assigns its id.
    pub fn new(map_position: (usize, usize)) -> (r: Self)
        ensures
            r.id == 0,
            r.cooldown == 0,
            r.map_position == map_position,
            r.buffs@.len() == 0,
            r.wf(),
    {
        Self { id: 0, cooldown: 0, map_position, buffs: Vec::new() }
    }

    /// Level of the tower's aura buff, 0 when it has none.
    pub fn aura_level(&self) -> (r: usize)
        ensures
            r == level_of(self.buffs@, BuffType::Aura),
    {
        match find_buff(&self.buffs, BuffType::Aura) {
            Some(i) => self.buffs[i].level,
            None => 0,
        }
    }

    pub fn can_have_buff(&self, kind: &BuffType) -> (r: bool)
        ensures
            r == self.can_have_buff_spec(*kind),
    {
        if self.buffs.len() < MAX_BUFF_KINDS {
            return true;
        }
        find_buff(&self.buffs, *kind).is_some()
    }

    /// Upgrades the tower's buff of the given kind, or adds it at level 1.
    /// Refused, leaving the tower as it was, when the tower already holds
    /// as many other kinds as it can; returns whether it was applied.
    pub fn add_buff(&mut self, stats: &BuffStats) -> (r: bool)
        requires
            old(self).wf(),
        ensures
            buff_added(*old(self), *final(self), *stats, r),
    {
        proof {
            lemma_index_of_kind(self.buffs@, stats.kind);
        }
        match find_buff(&self.buffs, stats.kind) {
            Some(i) => {
                let mut b = self.buffs.remove(i);
                b.upgrade();
                self.buffs.insert(i, b);
                assert(self.buffs@ =~= old(self).buffs@.update(
                    i as int,
                    Buff { stats: old(self).buffs@[i as int].stats, level: upgraded_level(old(self).buffs@[i as int].level) },
                ));
                assert forall|a: int, c: int|
                    0 <= a < self.buffs@.len() && 0 <= c < self.buffs@.len() && a != c implies (#[trigger] self.buffs@[a]).stats.kind
                        != (#[trigger] self.buffs@[c]).stats.kind by {
                    assert(self.buffs@[a].stats.kind == old(self).buffs@[a].stats.kind);
                    assert(self.buffs@[c].stats.kind == old(self).buffs@[c].stats.kind);
                }
                true
            },
            None => {
                if self.buffs.len() < MAX_BUFF_KINDS {
                    self.buffs.push(Buff::new(stats));
                    assert(self.buffs@.drop_last() =~= old(self).buffs@);
                    assert forall|a: int, c: int|
                        0 <= a < self.buffs@.len() && 0 <= c < self.buffs@.len() && a != c implies (#[trigger] self.buffs@[a]).stats.kind
                            != (#[trigger] self.buffs@[c]).stats.kind by {
                        if a < old(self).buffs@.len() {
                            assert(self.buffs@[a] == old(self).buffs@[a]);
                        }
                        if c < old(self).buffs@.len() {
                            assert(self.buffs@[c] == old(self).buffs@[c]);
                        }
                    }
                    true
                } else {
                    false
                }
            },
        }
    }

    pub fn get_buffs(&self) -> (r: &Vec<Buff>)
        ensures
            r@ == self.buffs@,
    {
        &self.buffs
    }

    /// Adds to `p` a debuff for the tower's freeze buff and one for each
    /// aura buff it receives; of two of one kind the stronger stays.
    pub fn add_projectile_buffs(&self, p: &mut Projectile, aura_buffs: &Vec<Buff>)
        requires
            old(p).wf(),
        ensures
            final(p).wf(),
            index_of_kind(self.buffs@, BuffType::Freeze) >= 0 ==> covers(
                final(p).debuffs@,
                BuffType::Freeze,
                self.buffs@[index_of_kind(self.buffs@, BuffType::Freeze)].effectiveness_spec() as int,
            ),
            forall|j: int| 0 <= j < aura_buffs@.len() ==> covers(
                final(p).debuffs@,
                (#[trigger] aura_buffs@[j]).stats.kind,
                aura_buffs@[j].effectiveness_spec() as int,
            ),
            forall|kind: BuffType, e: int| #[trigger] covers(old(p).debuffs@, kind, e) ==> covers(final(p).debuffs@, kind, e),
            final(p).debuffs@ == merged_all(old(p).debuffs@, shot_snapshots(self.buffs@, aura_buffs@)),
            final(p).enemy_id == old(p).enemy_id,
            final(p).tower_id == old(p).tower_id,
            final(p).position == old(p).position,
            final(p).damage == old(p).damage,
            final(p).speed == old(p).speed,
            final(p).next_walk_target == old(p).next_walk_target,
            final(p).reached_goal == old(p).reached_goal,
            final(p).disp == old(p).disp,
    {
        proof {
            lemma_index_of_kind(self.buffs@, BuffType::Freeze);
        }
        let ghost snaps = shot_snapshots(self.buffs@, aura_buffs@);
        let ghost base: int = if index_of_kind(self.buffs@, BuffType::Freeze) >= 0 { 1 } else { 0 };
        match find_buff(&self.buffs, BuffType::Freeze) {
            Some(i) => {
                p.add_debuff(Debuff::new(&self.buffs[i]));
                proof {
                    assert(snaps.take(1).drop_last() =~= Seq::<Debuff>::empty());
                    assert(snaps[0] == snapshot(self.buffs@[i as int]));
                    assert(snaps.take(1).last() == snaps[0]);
                    assert(merged_all(old(p).debuffs@, snaps.take(1)) == crate::projectiles::merged(
                        merged_all(old(p).debuffs@, Seq::<Debuff>::empty()),
                        snaps[0],
                    ));
                }
            },
            None => {
                assert(snaps.take(0) =~= Seq::<Debuff>::empty());
                assert(merged_all(old(p).debuffs@, snaps.take(0)) == old(p).debuffs@);
            },
        }
        let mut k: usize = 0;
        while k < aura_buffs.len()
            invariant
                p.wf(),
                k <= aura_buffs@.len(),
                snaps == shot_snapshots(self.buffs@, aura_buffs@),
                base == (if index_of_kind(self.buffs@, BuffType::Freeze) >= 0 { 1int } else { 0 }),
                snaps.len() == base + aura_buffs@.len(),
                p.debuffs@ == merged_all(old(p).debuffs@, snaps.take(base + k)),
                index_of_kind(self.buffs@, BuffType::Freeze) >= 0 ==> covers(
                    p.debuffs@,
                    BuffType::Freeze,
                    self.buffs@[index_of_kind(self.buffs@, BuffType::Freeze)].effectiveness_spec() as int,
                ),
                forall|j: int| 0 <= j < k ==> covers(
                    p.debuffs@,
                    (#[trigger] aura_buffs@[j]).stats.kind,
                    aura_buffs@[j].effectiveness_spec() as int,
                ),
                forall|kind: BuffType, e: int| #[trigger] covers(old(p).debuffs@, kind, e) ==> covers(p.debuffs@, kind, e),
                p.enemy_id == old(p).enemy_id,
                p.tower_id == old(p).tower_id,
                p.position == old(p).position,
                p.damage == old(p).damage,
                p.speed == old(p).speed,
                p.next_walk_target == old(p).next_walk_target,
                p.reached_goal == old(p).reached_goal,
                p.disp == old(p).disp,
            decreases aura_buffs@.len() - k,
        {
            proof {
                assert(snaps.take(base + k + 1).drop_last() =~= snaps.take(base + k));
                assert(snaps[base + k] == snapshot(aura_buffs@[k as int]));
            }
            p.add_debuff(Debuff::new(&aura_buffs[k]));
            k = k + 1;
        }
        assert(snaps.take(base + k) =~= snaps);
    }

    /// One tick of the tower: the cooldown runs down by one (stopping at 0);
    /// then, if a living enemy is within range of the tower's cell center and
    /// the cooldown is 0, the tower shoots the weakest such enemy and its
    /// cooldown restarts at `TICKS_PER_MINUTE / stats.rpm`. Returns whether
    /// it shot.
    pub fn tick(
        &mut self,
        enemies: &Enemies,
        projectiles: &mut Projectiles,
        stats: &TowerStats,
        aura_buffs: &Vec<Buff>,
    ) -> (r: bool)
        requires
            old(self).wf(),
            old(projectiles).wf(),
            enemies.wf(),
            stats.rpm > 0,
            old(self).map_position.0 <= MAX_MAP_SIDE,
            old(self).map_position.1 <= MAX_MAP_SIDE,
        ensures
            final(self).wf(),
            final(projectiles).wf(),
            final(self).id == old(self).id,
            final(self).map_position == old(self).map_position,
            final(self).buffs@ == old(self).buffs@,
            fire_step(
                *old(self),
                *final(self),
                enemies.enemies@,
                *stats,
                aura_buffs@,
                old(projectiles).projectiles@,
                old(projectiles).id,
                final(projectiles).projectiles@,
                final(projectiles).id,
                r,
            ),
    {
        self.cooldown = self.cooldown.saturating_sub(1);
        let (x, y) = self.map_position;
        let center = GameMap::tile_center(x, y);
        match enemies.weakest_enemy_in_range(stats.range, center) {
            Some(enemy_id) => {
                if self.cooldown == 0 {
                    let mut projectile = Projectile::new(center, self.id, enemy_id, stats.damage, stats.projectile_speed);
                    assert(projectile.debuffs@ =~= Seq::<Debuff>::empty());
                    self.add_projectile_buffs(&mut projectile, aura_buffs);
                    let ghost p = projectile;
                    let ghost pid = projectiles.id;
                    projectiles.spawn(projectile);
                    self.cooldown = TICKS_PER_MINUTE / stats.rpm;
                    proof {
                        let i = choose|i: int|
                            0 <= i < enemies.enemies@.len() && (#[trigger] enemies.enemies@[i]).0 == enemy_id
                                && eligible(enemies.enemies@[i].1, center, stats.range) && forall|j: int|
                                0 <= j < enemies.enemies@.len() && eligible(#[trigger] enemies.enemies@[j].1, center, stats.range)
                                    ==> enemies.enemies@[i].1.health <= enemies.enemies@[j].1.health;
                        assert(enemies.enemies@[i].0 == enemy_id);
                        let k = enemies.index_of(enemy_id);
                        assert(0 <= k);
                        crate::enemies::lemma_ids_unique(enemies.enemies@, enemies.id, i, k);
                        assert(p.debuffs@ == merged_all(Seq::empty(), shot_snapshots(self.buffs@, aura_buffs@)));
                        assert(shot(*old(self), enemies.enemies@, *stats, aura_buffs@, p));
                    }
                    return true;
                }
                false
            },
            None => false,
        }
    }
}

/// Some living enemy is within `range` of the center of tower `t`'s cell.
pub open spec fn in_sight(t: Tower, enemies: Seq<(usize, Enemy)>, range: u64) -> bool {
    exists|i: int|
        0 <= i < enemies.len() && eligible(
            #[trigger] enemies[i].1,
            tile_center_spec(t.map_position.0 as int, t.map_position.1 as int),
            range,
        )
}

/// A tower that has just fired, with a rate of 60 shots a minute and a
/// living enemy always within range, fires again exactly every 60 ticks:
/// over a run of ticks (tower states `ts`, projectile registries `ps`), it
/// fires at tick `i + 1` exactly when `i + 1` is a multiple of 60.
pub proof fn lemma_firing_period(
    ts: Seq<Tower>,
    fired: Seq<bool>,
    ps: Seq<(Seq<(usize, Projectile)>, usize)>,
    enemies: Seq<(usize, Enemy)>,
    stats: TowerStats,
    auras: Seq<Buff>,
)
    requires
        stats.rpm == 60,
        ts.len() == fired.len() + 1,
        ps.len() == ts.len(),
        ts[0].cooldown == TICKS_PER_MINUTE / 60,
        forall|i: int| 0 <= i < ts.len() ==> #[trigger] in_sight(ts[i], enemies, stats.range),
        forall|i: int|
            0 <= i < fired.len() ==> #[trigger] fire_step(
                ts[i],
                ts[i + 1],
                enemies,
                stats,
                auras,
                ps[i].0,
                ps[i].1,
                ps[i + 1].0,
                ps[i + 1].1,
                fired[i],
            ),
    ensures
        forall|i: int| 0 <= i < fired.len() ==> (fired[i] <==> (i + 1) % 60 == 0),
{
    lemma_period_cooldown(ts, fired, ps, enemies, stats, auras, fired.len() as int);
    assert forall|i: int| 0 <= i < fired.len() implies (fired[i] <==> (i + 1) % 60 == 0) by {
        lemma_period_cooldown(ts, fired, ps, enemies, stats, auras, i);
        assert(fire_step(ts[i], ts[i + 1], enemies, stats, auras, ps[i].0, ps[i].1, ps[i + 1].0, ps[i + 1].1, fired[i]));
        assert(in_sight(ts[i], enemies, stats.range));
        let c = ts[i].cooldown;
        assert(c == 60 - i % 60);
        assert(0 <= i % 60 < 60);
        if i % 60 == 59 {
            assert((i + 1) % 60 == 0) by {
                vstd::arithmetic::div_mod::lemma_fundamental_div_mod(i, 60);
                vstd::arithmetic::div_mod::lemma_fundamental_div_mod_converse(i + 1, 60, i / 60 + 1, 0);
            }
        } else {
            assert((i + 1) % 60 == i % 60 + 1) by {
                vstd::arithmetic::div_mod::lemma_fundamental_div_mod(i, 60);
                vstd::arithmetic::div_mod::lemma_fundamental_div_mod_converse(i + 1, 60, i / 60, i % 60 + 1);
            }
        }
    }
}

proof fn lemma_period_cooldown(
    ts: Seq<Tower>,
    fired: Seq<bool>,
    ps: Seq<(Seq<(usize, Projectile)>, usize)>,
    enemies: Seq<(usize, Enemy)>,
    stats: TowerStats,
    auras: Seq<Buff>,
    n: int,
)
    requires
        stats.rpm == 60,
        ts.len() == fired.len() + 1,
        ps.len() == ts.len(),
        0 <= n <= fired.len(),
        ts[0].cooldown == TICKS_PER_MINUTE / 60,
        forall|i: int| 0 <= i < ts.len() ==> #[trigger] in_sight(ts[i], enemies, stats.range),
        forall|i: int|
            0 <= i < fired.len() ==> #[trigger] fire_step(
                ts[i],
                ts[i + 1],
                enemies,
                stats,
                auras,
                ps[i].0,
                ps[i].1,
                ps[i + 1].0,
                ps[i + 1].1,
                fired[i],
            ),
    ensures
        ts[n].cooldown == 60 - n % 60,
    decreases n,
{
    if n > 0 {
        let i = n - 1;
        lemma_period_cooldown(ts, fired, ps, enemies, stats, auras, i);
        assert(fire_step(ts[i], ts[i + 1], enemies, stats, auras, ps[i].0, ps[i].1, ps[i + 1].0, ps[i + 1].1, fired[i]));
        assert(in_sight(ts[i], enemies, stats.range));
        vstd::arithmetic::div_mod::lemma_fundamental_div_mod(i, 60);
        assert(0 <= i % 60 < 60);
        if i % 60 == 59 {
            vstd::arithmetic::div_mod::lemma_fundamental_div_mod_converse(i + 1, 60, i / 60 + 1, 0);
        } else {
            vstd::arithmetic::div_mod::lemma_fundamental_div_mod_converse(i + 1, 60, i / 60, i % 60 + 1);
        }
    }
}

} // verus!
