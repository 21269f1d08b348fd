//! The simulation core: one map, the three registries, the wave scheduler
//! and the player's life, stepped one tick at a time, with the entry points
//! the player's actions go through.
use vstd::prelude::*;
use crate::buffs::BuffType;
use crate::enemies::{Enemies, eligible, march};
use crate::projectiles::{Projectile, flight};
use crate::towers::count_set;
use crate::buffs::Buff;
use crate::map::tile_center_spec;
use crate::enemy::Enemy;
use crate::geometry::{Point, UNITS_PER_PIXEL};
use crate::map::GameMap;
use crate::projectiles::Projectiles;
use crate::tile::TileType;
use crate::tower::{Tower, buff_added};
use crate::towers::Towers;
use crate::wave::{WaveSpec, WaveStatus, Waves, rested, wave_step};

verus! {

/// Damage an area strike deals to each enemy it reaches.
pub const AREA_DAMAGE: usize = 150;

/// Radius of an area strike, in pixels.
pub const AREA_RADIUS: u64 = 80;

/// What happened during one tick.
pub struct TickReport {
    /// Where an enemy was spawned, if one was.
    pub spawned: Option<Point>,
    /// Number of towers that shot.
    pub shots: usize,
    /// Points where projectiles hit.
    pub impacts: Vec<Point>,
    /// Number of enemies that reached the target.
    pub arrived: usize,
    /// The wave whose enemy the scheduler asked for, if it asked.
    pub wave: Option<WaveSpec>,
}

/// `e` is a fresh enemy of wave `w` standing on the center of cell `cell`.
pub open spec fn fresh_enemy(e: Enemy, w: WaveSpec, cell: (usize, usize)) -> bool {
    let pos = tile_center_spec(cell.0 as int, cell.1 as int);
    &&& e.disp == w.img
    &&& e.position == pos
    &&& e.next_walk_target == pos
    &&& e.tile == cell
    &&& e.health == w.health
    &&& e.walk_speed == w.speed
    &&& !e.reached_goal
    &&& e.debuffs@.len() == 0
}

/// The enemy entries `before` (next id `next`) become `after` when the
/// scheduler asks for an enemy of `wave`: with a spawn cell on `map` and an
/// id left, one fresh enemy of that wave is added under the next id on the
/// last spawn cell, whose center is `spawned`; else nothing changes.
pub open spec fn spawn_phase(
    map: GameMap,
    before: Seq<(usize, Enemy)>,
    next: usize,
    wave: Option<WaveSpec>,
    after: Seq<(usize, Enemy)>,
    spawned: Option<Point>,
) -> bool {
    let cells = map.spawn_points_spec();
    if wave is Some && cells.len() > 0 && next < usize::MAX {
        let cell = cells.last();
        &&& after.len() == before.len() + 1
        &&& after.drop_last() == before
        &&& after.last().0 == next
        &&& fresh_enemy(after.last().1, wave->0, cell)
        &&& spawned == Some(tile_center_spec(cell.0 as int, cell.1 as int))
    } else {
        after == before && spawned is None
    }
}

/// `b` and the report `r` are simulation `a` one tick later, through the
/// intermediate scheduler `w1`, enemy entries `e1` (after the spawn) and
/// `e2` (after the march) and projectile entries `p1` with next id `pid1`
/// (after the towers): the scheduler steps (then rests after a finished
/// wave), the asked-for enemy is spawned, the enemies march, the towers
/// fire at the marched enemies, and the projectiles fly.
pub open spec fn tick_phases(
    a: Simulation,
    b: Simulation,
    r: TickReport,
    w1: Waves,
    e1: Seq<(usize, Enemy)>,
    e2: Seq<(usize, Enemy)>,
    p1: Seq<(usize, Projectile)>,
    pid1: usize,
) -> bool {
    let alive = exists|i: int| 0 <= i < a.enemies.enemies@.len() && (#[trigger] a.enemies.enemies@[i]).1.health > 0;
    &&& wave_step(a.waves, w1, alive, r.wave)
    &&& rested(w1, b.waves)
    &&& spawn_phase(a.map, a.enemies.enemies@, a.enemies.id, r.wave, e1, r.spawned)
    &&& march(a.map, e1, e2, r.arrived as int)
    &&& exists|states: Seq<(Seq<(usize, Projectile)>, usize)>, fired: Seq<bool>, auras: Seq<Seq<Buff>>| {
        &&& #[trigger] a.towers.volley(b.towers.built@, e2, states, fired, auras)
        &&& states[0] == (a.projectiles.projectiles@, a.projectiles.id)
        &&& states.last() == (p1, pid1)
        &&& r.shots == count_set(fired)
    }
    &&& flight(p1, b.projectiles.projectiles@, e2, b.enemies.enemies@, r.impacts@)
    &&& b.life == if a.life > r.arrived { (a.life - r.arrived) as usize } else { 0 }
}

/// Enemy `e` after an area strike: its health lowered by the strike
/// damage, stopping at 0.
pub open spec fn struck(e: Enemy) -> Enemy {
    Enemy { health: if e.health > AREA_DAMAGE { (e.health - AREA_DAMAGE) as usize } else { 0 }, ..e }
}

pub struct Simulation {
    pub map: GameMap,
    pub enemies: Enemies,
    pub towers: Towers,
    pub projectiles: Projectiles,
    pub waves: Waves,
    /// The player's remaining life.
    pub life: usize,
}

impl Simulation {
    pub open spec fn wf(&self) -> bool {
        &&& self.map.wf()
        &&& self.enemies.wf()
        &&& self.enemies.on_map(self.map)
        &&& self.towers.wf()
        &&& self.projectiles.wf()
        &&& self.waves.wf()
    }

    /// A simulation on `map` with no entity yet.
    pub fn new(map: GameMap, towers: Towers, waves: Waves, life: usize) -> (r: Self)
        requires
            map.wf(),
            towers.wf(),
            waves.wf(),
        ensures
            r.wf(),
            r.map == map,
            r.towers == towers,
            r.waves == waves,
            r.life == life,
            r.enemies.enemies@.len() == 0,
            r.projectiles.projectiles@.len() == 0,
    {
        Simulation { map, enemies: Enemies::new(), towers, projectiles: Projectiles::new(), waves, life }
    }

    /// Spawns an enemy of wave `spec` on the last spawn cell of the map, if
    /// the map has one; returns where.
    fn spawn_enemy(&mut self, spec: &WaveSpec) -> (r: Option<Point>)
        requires
            old(self).wf(),
        ensures
            final(self).wf(),
            final(self).map == old(self).map,
            final(self).towers == old(self).towers,
            final(self).projectiles == old(self).projectiles,
            final(self).waves == old(self).waves,
            final(self).life == old(self).life,
            spawn_phase(
                old(self).map,
                old(self).enemies.enemies@,
                old(self).enemies.id,
                Some(*spec),
                final(self).enemies.enemies@,
                r,
            ),
    {
        let points = self.map.get_spawn_points();
        if points.len() == 0 {
            return None;
        }
        let (x, y) = points[points.len() - 1];
        proof {
            self.map.lemma_spawn_points_in_bounds();
            assert(self.map.spawn_points_spec()[points@.len() - 1] == (x, y));
        }
        let pos = GameMap::tile_center(x, y);
        match self.enemies.spawn(Enemy::new(pos, (x, y), spec)) {
            Some(_) => {
                proof {
                    assert(self.enemies.enemies@.drop_last() =~= old(self).enemies.enemies@);
                    let e = self.enemies.enemies@;
                    assert forall|i: int| 0 <= i < e.len() implies self.map.in_bounds(
                        (#[trigger] e[i]).1.tile.0 as int,
                        e[i].1.tile.1 as int,
                    ) by {
                        if i < old(self).enemies.enemies@.len() {
                            assert(e[i] == old(self).enemies.enemies@[i]);
                        }
                    }
                }
                Some(pos)
            },
            None => None,
        }
    }

    /// One tick, phases in this order: the wave scheduler (which may spawn
    /// an enemy), enemy movement with the sweep of dead and arrived enemies
    /// (each arrival costs one life, stopping at 0), the towers, and the
    /// projectiles; a finished wave then gives way to the pause before the
    /// next (see [`tick_phases`]).
    pub fn tick(&mut self) -> (r: TickReport)
        requires
            old(self).wf(),
        ensures
            final(self).wf(),
            final(self).map == old(self).map,
            exists|w1: Waves, e1: Seq<(usize, Enemy)>, e2: Seq<(usize, Enemy)>, p1: Seq<(usize, Projectile)>, pid1: usize|
                #[trigger] tick_phases(*old(self), *final(self), r, w1, e1, e2, p1, pid1),
            r.spawned is Some ==> r.wave is Some,
            final(self).life == if old(self).life > r.arrived { (old(self).life - r.arrived) as usize } else { 0 },
            final(self).towers.built@.len() == old(self).towers.built@.len(),
            forall|i: int| 0 <= i < final(self).enemies.enemies@.len() ==> !(#[trigger] final(self).enemies.enemies@[i]).1.reached_goal,
            forall|i: int| 0 <= i < old(self).towers.built@.len() ==> {
                &&& (#[trigger] final(self).towers.built@[i]).id == old(self).towers.built@[i].id
                &&& final(self).towers.built@[i].map_position == old(self).towers.built@[i].map_position
                &&& final(self).towers.built@[i].buffs@ == old(self).towers.built@[i].buffs@
            },
    {
        let any_alive = self.enemies.any_alive();
        let wave = self.waves.tick(any_alive);
        let ghost w1 = self.waves;
        let mut spawned: Option<Point> = None;
        match wave {
            Some(spec) => {
                spawned = self.spawn_enemy(&spec);
            },
            None => {},
        }
        let ghost e1 = self.enemies.enemies@;
        let arrived = self.enemies.tick(&self.map);
        let ghost e2 = self.enemies.enemies@;
        self.life = self.life.saturating_sub(arrived);
        assert(self.towers == old(self).towers);
        assert(self.projectiles == old(self).projectiles);
        let ghost t0 = self.towers;
        let shots = self.towers.tick(&self.enemies, &mut self.projectiles);
        let ghost t1 = self.towers;
        let ghost (vs, vf, va) = choose|states: Seq<(Seq<(usize, Projectile)>, usize)>, fired: Seq<bool>, auras: Seq<Seq<Buff>>| {
            &&& #[trigger] t0.volley(t1.built@, e2, states, fired, auras)
            &&& states[0] == (old(self).projectiles.projectiles@, old(self).projectiles.id)
            &&& states.last() == (self.projectiles.projectiles@, self.projectiles.id)
            &&& shots == count_set(fired)
        };
        let ghost p1 = self.projectiles.projectiles@;
        let ghost pid1 = self.projectiles.id;
        let impacts = self.projectiles.tick(&mut self.enemies);
        self.waves.rest();
        let r = TickReport { spawned, shots, impacts, arrived, wave };
        assert(any_alive == exists|i: int|
            0 <= i < old(self).enemies.enemies@.len() && (#[trigger] old(self).enemies.enemies@[i]).1.health > 0);
        assert(t1 == self.towers);
        assert(old(self).towers.volley(self.towers.built@, e2, vs, vf, va));
        assert(vs.last() == (p1, pid1));
        assert(tick_phases(*old(self), *self, r, w1, e1, e2, p1, pid1));
        r
    }

    /// Builds a tower on cell `(x, y)`. Refused, changing nothing, unless the
    /// cell is a buildable cell of the map with no tower on it (and ids are
    /// left); returns whether it was built.
    pub fn build_tower(&mut self, x: usize, y: usize) -> (r: bool)
        requires
            old(self).wf(),
        ensures
            final(self).wf(),
            final(self).map == old(self).map,
            final(self).enemies == old(self).enemies,
            final(self).projectiles == old(self).projectiles,
            final(self).waves == old(self).waves,
            final(self).life == old(self).life,
            !r ==> final(self).towers.built@ == old(self).towers.built@,
            r ==> old(self).map.in_bounds(x as int, y as int) && old(self).map.kind_spec(x as int, y as int)
                == TileType::Build && old(self).towers.index_at(x, y) < 0,
            r ==> final(self).towers.built@ == old(self).towers.built@.push(
                Tower { id: old(self).towers.next_tower_id, cooldown: 0, map_position: (x, y), buffs: final(self).towers.built@.last().buffs },
            ) && final(self).towers.built@.last().buffs@.len() == 0,
            old(self).map.in_bounds(x as int, y as int) && old(self).map.kind_spec(x as int, y as int)
                == TileType::Build && old(self).towers.index_at(x, y) < 0 && old(self).towers.next_tower_id
                < usize::MAX ==> r,
    {
        if x >= self.map.xsize || y >= self.map.ysize {
            return false;
        }
        if !self.map.is_buildable(x, y) {
            return false;
        }
        let t = Tower::new((x, y));
        match self.towers.spawn(t) {
            Some(_) => true,
            None => false,
        }
    }

    /// Sells (removes) the tower on cell `(x, y)`; nothing happens when there
    /// is none.
    pub fn sell_tower(&mut self, x: usize, y: usize)
        requires
            old(self).wf(),
        ensures
            final(self).wf(),
            final(self).map == old(self).map,
            final(self).enemies == old(self).enemies,
            final(self).projectiles == old(self).projectiles,
            final(self).waves == old(self).waves,
            final(self).life == old(self).life,
            old(self).towers.index_at(x, y) < 0 ==> final(self).towers.built@ == old(self).towers.built@,
            old(self).towers.index_at(x, y) >= 0 ==> final(self).towers.built@ == old(self).towers.built@.remove(
                old(self).towers.index_at(x, y),
            ),
    {
        self.towers.remove_tower(x, y);
    }

    /// Adds or upgrades a buff of `kind` on the tower on cell `(x, y)`;
    /// returns whether it was applied (see [`Towers::add_buff_at_pos`]).
    pub fn apply_buff(&mut self, x: usize, y: usize, kind: BuffType) -> (r: bool)
        requires
            old(self).wf(),
        ensures
            final(self).wf(),
            final(self).map == old(self).map,
            final(self).enemies == old(self).enemies,
            final(self).projectiles == old(self).projectiles,
            final(self).waves == old(self).waves,
            final(self).life == old(self).life,
            final(self).towers.built@.len() == old(self).towers.built@.len(),
            old(self).towers.index_at(x, y) < 0 || !(exists|k: int|
                0 <= k < old(self).towers.buff_stats@.len() && (#[trigger] old(self).towers.buff_stats@[k]).kind == kind)
                ==> !r && final(self).towers.built@ == old(self).towers.built@,
            old(self).towers.index_at(x, y) >= 0 ==> {
                let i = old(self).towers.index_at(x, y);
                let tables = old(self).towers.buff_stats@;
                &&& forall|j: int|
                    0 <= j < old(self).towers.built@.len() && j != i ==> #[trigger] final(self).towers.built@[j]
                        == old(self).towers.built@[j]
                &&& (exists|k: int| 0 <= k < tables.len() && (#[trigger] tables[k]).kind == kind) ==> buff_added(
                    old(self).towers.built@[i],
                    final(self).towers.built@[i],
                    tables[choose|k: int| 0 <= k < tables.len() && (#[trigger] tables[k]).kind == kind],
                    r,
                )
            },
    {
        self.towers.add_buff_at_pos(x, y, kind)
    }

    /// Strikes every living enemy within the strike radius of the center of
    /// cell `(x, y)` for the strike damage; returns how many were hit. Cells
    /// off the map hit nothing.
    pub fn damage_enemies_in_area(&mut self, x: usize, y: usize) -> (r: usize)
        requires
            old(self).wf(),
        ensures
            final(self).wf(),
            final(self).map == old(self).map,
            final(self).towers == old(self).towers,
            final(self).enemies.enemies@.len() == old(self).enemies.enemies@.len(),
            !old(self).map.in_bounds(x as int, y as int) ==> r == 0 && final(self).enemies.enemies@ == old(self).enemies.enemies@,
            old(self).map.in_bounds(x as int, y as int) ==> r == crate::enemies::eligible_ids(
                old(self).enemies.enemies@,
                crate::map::tile_center_spec(x as int, y as int),
                (AREA_RADIUS * UNITS_PER_PIXEL as u64) as u64,
            ).len(),
            old(self).map.in_bounds(x as int, y as int) ==> forall|k: int|
                0 <= k < old(self).enemies.enemies@.len() ==> #[trigger] final(self).enemies.enemies@[k] == if eligible(
                    old(self).enemies.enemies@[k].1,
                    tile_center_spec(x as int, y as int),
                    (AREA_RADIUS * UNITS_PER_PIXEL as u64) as u64,
                ) {
                    (old(self).enemies.enemies@[k].0, struck(old(self).enemies.enemies@[k].1))
                } else {
                    old(self).enemies.enemies@[k]
                },
            final(self).projectiles == old(self).projectiles,
            final(self).waves == old(self).waves,
            final(self).life == old(self).life,
            final(self).enemies.id == old(self).enemies.id,
    {
        if x >= self.map.xsize || y >= self.map.ysize {
            return 0;
        }
        let center = GameMap::tile_center(x, y);
        let range = AREA_RADIUS * UNITS_PER_PIXEL as u64;
        let ids = self.enemies.in_range(center, range);
        let ghost orig = old(self).enemies.enemies@;
        proof {
            crate::enemies::lemma_eligible_ids(orig, self.enemies.id, center, range);
        }
        let mut i: usize = 0;
        while i < ids.len()
            invariant
                ids@ == crate::enemies::eligible_ids(orig, center, range),
                orig == old(self).enemies.enemies@,
                crate::enemies::ids_ordered(orig, old(self).enemies.id),
                self.enemies.id == old(self).enemies.id,
                self.life == old(self).life,
                forall|a: int, b: int| 0 <= a < b < ids@.len() ==> ids@[a] < ids@[b],
                forall|a: int| 0 <= a < ids@.len() ==> #[trigger] crate::enemies::has_id(orig, ids@[a]),
                forall|k: int| 0 <= k < orig.len() ==> (ids@.contains((#[trigger] orig[k]).0) <==> eligible(orig[k].1, center, range)),
                forall|k: int|
                    0 <= k < orig.len() ==> #[trigger] self.enemies.enemies@[k] == if ids@.take(i as int).contains(orig[k].0) {
                        (orig[k].0, struck(orig[k].1))
                    } else {
                        orig[k]
                    },
                self.map == old(self).map,
                self.towers == old(self).towers,
                self.projectiles == old(self).projectiles,
                self.waves == old(self).waves,
                self.map.wf(),
                self.enemies.wf(),
                self.enemies.on_map(self.map),
                self.enemies.enemies@.len() == old(self).enemies.enemies@.len(),
                forall|k: int| 0 <= k < self.enemies.enemies@.len() ==> (#[trigger] self.enemies.enemies@[k]).1.tile
                    == old(self).enemies.enemies@[k].1.tile,
                i <= ids@.len(),
            decreases ids@.len() - i,
        {
            let ghost before = self.enemies.enemies@;
            self.enemies.damage(ids[i], AREA_DAMAGE);
            proof {
                let after = self.enemies.enemies@;
                let id = ids@[i as int];
                assert(crate::enemies::has_id(orig, id));
                let c = choose|c: int| 0 <= c < orig.len() && (#[trigger] orig[c]).0 == id;
                assert(before[c].0 == id);
                let ci = crate::enemies::index_in(before, id);
                assert(ci >= 0);
                assert(before[ci].0 == id);
                crate::enemies::lemma_ids_unique(before, self.enemies.id, c, ci);
                assert(!ids@.take(i as int).contains(id)) by {
                    if ids@.take(i as int).contains(id) {
                        let a = choose|a: int| 0 <= a < i && #[trigger] ids@.take(i as int)[a] == id;
                        assert(ids@[a] < ids@[i as int]);
                    }
                }
                assert(before[c] == orig[c]);
                assert forall|k: int| 0 <= k < orig.len() implies #[trigger] after[k] == if ids@.take(i + 1).contains(orig[k].0) {
                    (orig[k].0, struck(orig[k].1))
                } else {
                    orig[k]
                } by {
                    if k == c {
                        assert(ids@.take(i + 1)[i as int] == id);
                    } else {
                        assert(orig[k].0 != id) by {
                            if orig[k].0 == id {
                                crate::enemies::lemma_ids_unique(orig, old(self).enemies.id, c, k);
                            }
                        }
                        assert(after[k] == before[k]);
                        if ids@.take(i + 1).contains(orig[k].0) {
                            let a = choose|a: int| 0 <= a < i + 1 && #[trigger] ids@.take(i + 1)[a] == orig[k].0;
                            assert(a < i);
                            assert(ids@.take(i as int)[a] == orig[k].0);
                        }
                        if ids@.take(i as int).contains(orig[k].0) {
                            let a = choose|a: int| 0 <= a < i && #[trigger] ids@.take(i as int)[a] == orig[k].0;
                            assert(ids@.take(i + 1)[a] == orig[k].0);
                        }
                    }
                }
                assert forall|k: int| 0 <= k < after.len() implies (#[trigger] after[k]).1.tile == old(self).enemies.enemies@[k].1.tile by {
                    assert(after[k].1.tile == before[k].1.tile);
                }
                assert forall|k: int| 0 <= k < after.len() implies self.map.in_bounds(
                    (#[trigger] after[k]).1.tile.0 as int,
                    after[k].1.tile.1 as int,
                ) by {
                    assert(after[k].1.tile == before[k].1.tile);
                }
            }
            i = i + 1;
        }
        assert(ids@.take(i as int) =~= ids@);
        ids.len()
    }

    /// The player has lost: no life is left.
    pub fn lost(&self) -> (r: bool)
        ensures
            r == (self.life == 0),
    {
        self.life == 0
    }

    /// The player has won: every wave has been played.
    pub fn won(&self) -> (r: bool)
        ensures
            r == (self.waves.status == WaveStatus::LevelFinished),
    {
        match self.waves.status {
            WaveStatus::LevelFinished => true,
            _ => false,
        }
    }
}

} // verus!
