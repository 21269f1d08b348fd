//! A single enemy: position, health, walking and debuffs.
use vstd::prelude::*;
use crate::assets::ImgID;
use crate::buffs::BuffType;
use crate::debuffs::Debuff;
use crate::dijkstra::{has_edge, is_walk};
use crate::geometry::{Point, Position, dist2, moved, move_to};
use crate::map::{GameMap, tile_center_spec};
use crate::wave::WaveSpec;

verus! {

/// Strongest effectiveness among the freeze debuffs of `ds`, 0 when there are none.
pub open spec fn max_freeze(ds: Seq<Debuff>) -> nat
    decreases ds.len(),
{
    if ds.len() == 0 {
        0
    } else {
        let rest = max_freeze(ds.drop_last());
        let d = ds.last();
        if d.kind == BuffType::Freeze && d.effectiveness > rest {
            d.effectiveness as nat
        } else {
            rest
        }
    }
}

/// Some debuff of `ds` is a freeze.
pub open spec fn has_freeze(ds: Seq<Debuff>) -> bool {
    exists|i: int| 0 <= i < ds.len() && (#[trigger] ds[i]).kind == BuffType::Freeze
}

/// Walking speed under the debuffs `ds`: `speed` slowed by the strongest
/// freeze, in percent, rounded down.
pub open spec fn slowed_speed(speed: u64, ds: Seq<Debuff>) -> int {
    if has_freeze(ds) {
        let m = if max_freeze(ds) > 100 {
            100
        } else {
            max_freeze(ds)
        };
        speed * (100 - m) / 100
    } else {
        speed as int
    }
}

/// Each debuff's countdown one tick further, stopping at 0.
pub open spec fn counted_down(ds: Seq<Debuff>) -> Seq<Debuff> {
    ds.map_values(|d: Debuff| Debuff { cooldown: if d.cooldown > 0 { (d.cooldown - 1) as usize } else { 0 }, ..d })
}

/// The debuffs of `ds` whose countdown has not run out, in order.
pub open spec fn active(ds: Seq<Debuff>) -> Seq<Debuff>
    decreases ds.len(),
{
    if ds.len() == 0 {
        ds
    } else if ds.last().cooldown > 0 {
        active(ds.drop_last()).push(ds.last())
    } else {
        active(ds.drop_last())
    }
}

/// `b` is enemy `a` one tick later on `map`: it walked toward its waypoint;
/// on reaching it, it noted that it stands on the target, or took the next
/// cell of a path to the target as its waypoint; its debuffs counted down and
/// the expired ones were dropped.
pub open spec fn tick_step(map: GameMap, a: Enemy, b: Enemy) -> bool {
    &&& map.in_bounds(b.tile.0 as int, b.tile.1 as int)
    &&& b.debuffs@ == active(counted_down(a.debuffs@))
    &&& b.health == a.health
    &&& b.walk_speed == a.walk_speed
    &&& b.disp == a.disp
    &&& ({
        let arrived = dist2(a.position, a.next_walk_target) <= a.walk_speed_spec() * a.walk_speed_spec();
        let at_target = a.tile.0 == map.target_spec().0 && a.tile.1 == map.target_spec().1;
        let reaches = map.reaches_target(a.tile.0 as int, a.tile.1 as int);
        let from = map.node_of(Position { x: a.tile.0, y: a.tile.1 });
        let to = map.node_of(Position { x: b.tile.0, y: b.tile.1 });
        &&& moved(a.position, a.next_walk_target, a.walk_speed_spec(), (b.position, arrived))
        &&& !arrived ==> b.next_walk_target == a.next_walk_target && b.tile == a.tile
            && b.reached_goal == a.reached_goal
        &&& arrived && at_target ==> b.reached_goal && b.tile == a.tile && b.next_walk_target
            == a.next_walk_target
        &&& arrived && !at_target && reaches ==> {
            &&& b.reached_goal == a.reached_goal
            &&& has_edge(map.graph_spec(), from, to)
            &&& exists|p: Seq<Position>|
                #[trigger] map.cheapest(p, a.tile.0 as int, a.tile.1 as int) && p.len() >= 2 && p[0] == (Position {
                    x: a.tile.0,
                    y: a.tile.1,
                }) && p[1] == (Position { x: b.tile.0, y: b.tile.1 })
            &&& b.next_walk_target == tile_center_spec(b.tile.0 as int, b.tile.1 as int)
        }
        &&& arrived && !reaches ==> b.reached_goal == a.reached_goal && b.tile == a.tile
            && b.next_walk_target == a.next_walk_target
    })
}

#[derive(Debug)]
pub struct Enemy {
    pub disp: ImgID,
    pub position: Point,
    pub health: usize,
    /// Base walking speed in sub-pixel units per tick.
    pub walk_speed: u64,
    pub next_walk_target: Point,
    /// The cell whose center is `next_walk_target`.
    pub tile: (usize, usize),
    pub reached_goal: bool,
    pub debuffs: Vec<Debuff>,
}

fn max_freeze_exec(ds: &Vec<Debuff>) -> (r: (bool, usize))
    ensures
        r.0 == has_freeze(ds@),
        r.1 == max_freeze(ds@),
{
    let mut found = false;
    let mut best: usize = 0;
    let mut i: usize = 0;
    while i < ds.len()
        invariant
            i <= ds@.len(),
            found == has_freeze(ds@.subrange(0, i as int)),
            best == max_freeze(ds@.subrange(0, i as int)),
        decreases ds@.len() - i,
    {
        let d = ds[i];
        assert(ds@.subrange(0, i + 1).drop_last() =~= ds@.subrange(0, i as int));
        if d.kind == BuffType::Freeze {
            if d.effectiveness > best {
                best = d.effectiveness;
            }
            found = true;
            assert(ds@.subrange(0, i + 1)[i as int] == d);
        } else {
            assert(has_freeze(ds@.subrange(0, i + 1)) == has_freeze(ds@.subrange(0, i as int))) by {
                if has_freeze(ds@.subrange(0, i + 1)) {
                    let k = choose|k: int| 0 <= k < i + 1 && (#[trigger] ds@.subrange(0, i + 1)[k]).kind == BuffType::Freeze;
                    assert(ds@.subrange(0, i as int)[k] == ds@.subrange(0, i + 1)[k]);
                }
                if has_freeze(ds@.subrange(0, i as int)) {
                    let k = choose|k: int| 0 <= k < i && (#[trigger] ds@.subrange(0, i as int)[k]).kind == BuffType::Freeze;
                    assert(ds@.subrange(0, i as int)[k] == ds@.subrange(0, i + 1)[k]);
                }
            }
        }
        i = i + 1;
    }
    assert(ds@.subrange(0, i as int) =~= ds@);
    (found, best)
}

impl Enemy {
    /// A fresh enemy of wave `spec` standing on the center of cell `tile`.
    pub fn new(position: Point, tile: (usize, usize), spec: &WaveSpec) -> (r: Self)
        ensures
            r.disp == spec.img,
            r.position == position,
            r.next_walk_target == position,
            r.tile == tile,
            r.health == spec.health,
            r.walk_speed == spec.speed,
            !r.reached_goal,
            r.debuffs@.len() == 0,
    {
        Self {
            disp: spec.img,
            position,
            health: spec.health,
            walk_speed: spec.speed,
            next_walk_target: position,
            tile,
            reached_goal: false,
            debuffs: Vec::new(),
        }
    }

    pub open spec fn walk_speed_spec(&self) -> int {
        slowed_speed(self.walk_speed, self.debuffs@)
    }

    /// Walking speed slowed by the strongest freeze debuff.
    pub fn get_walk_speed(&self) -> (r: u64)
        ensures
            r == self.walk_speed_spec(),
    {
        let (found, m) = max_freeze_exec(&self.debuffs);
        if found {
            let m = if m > 100 { 100 } else { m as u64 };
            let s = self.walk_speed as u128;
            assert(s * (100 - m as u128) <= s * 100) by (nonlinear_arith)
                requires 0 <= m <= 100, s >= 0;
            assert(s * 100 < 0x1_0000_0000_0000_0000_0000) by (nonlinear_arith)
                requires s < 0x1_0000_0000_0000_0000;
            let slowed = s * (100 - m as u128) / 100;
            assert(slowed <= s) by (nonlinear_arith)
                requires slowed == s * (100 - m) / 100, 0 <= m <= 100, s >= 0;
            slowed as u64
        } else {
            self.walk_speed
        }
    }

    /// Advances every debuff's countdown by one tick.
    pub fn countdown_debuffs(&mut self)
        ensures
            final(self).debuffs@ == counted_down(old(self).debuffs@),
            final(self).position == old(self).position,
            final(self).health == old(self).health,
            final(self).walk_speed == old(self).walk_speed,
            final(self).next_walk_target == old(self).next_walk_target,
            final(self).tile == old(self).tile,
            final(self).reached_goal == old(self).reached_goal,
            final(self).disp == old(self).disp,
    {
        let mut out: Vec<Debuff> = Vec::new();
        let mut i: usize = 0;
        while i < self.debuffs.len()
            invariant
                i <= self.debuffs@.len(),
                self.debuffs@ == old(self).debuffs@,
                out@ == counted_down(old(self).debuffs@).subrange(0, i as int),
            decreases self.debuffs@.len() - i,
        {
            let d = self.debuffs[i];
            out.push(Debuff { cooldown: d.cooldown.saturating_sub(1), ..d });
            i = i + 1;
            assert(out@ =~= counted_down(old(self).debuffs@).subrange(0, i as int));
        }
        assert(out@ =~= counted_down(old(self).debuffs@));
        self.debuffs = out;
    }

    /// Drops the debuffs whose countdown has run out.
    fn prune_debuffs(&mut self)
        ensures
            final(self).debuffs@ == active(old(self).debuffs@),
            final(self).position == old(self).position,
            final(self).health == old(self).health,
            final(self).walk_speed == old(self).walk_speed,
            final(self).next_walk_target == old(self).next_walk_target,
            final(self).tile == old(self).tile,
            final(self).reached_goal == old(self).reached_goal,
            final(self).disp == old(self).disp,
    {
        let mut out: Vec<Debuff> = Vec::new();
        let mut i: usize = 0;
        while i < self.debuffs.len()
            invariant
                i <= self.debuffs@.len(),
                self.debuffs@ == old(self).debuffs@,
                out@ == active(old(self).debuffs@.subrange(0, i as int)),
            decreases self.debuffs@.len() - i,
        {
            let d = self.debuffs[i];
            assert(old(self).debuffs@.subrange(0, i + 1).drop_last() =~= old(self).debuffs@.subrange(0, i as int));
            if d.cooldown > 0 {
                out.push(d);
            }
            i = i + 1;
        }
        assert(old(self).debuffs@.subrange(0, i as int) =~= old(self).debuffs@);
        self.debuffs = out;
    }

    /// One tick of the enemy: it walks toward its waypoint; on reaching it,
    /// it either notes that it stands on the target or takes the next cell of
    /// a path to the target as its waypoint. Its debuffs then count down and
    /// the expired ones are dropped.
    pub fn tick(&mut self, map: &GameMap)
        requires
            map.wf(),
            map.in_bounds(old(self).tile.0 as int, old(self).tile.1 as int),
        ensures
            tick_step(*map, *old(self), *final(self)),
    {
        let speed = self.get_walk_speed();
        let (new_pos, finished) = move_to(self.position, self.next_walk_target, speed);
        self.position = new_pos;
        if finished {
            let (x, y) = self.tile;
            proof {
                if x == map.target_spec().0 && y == map.target_spec().1 {
                    let w = seq![map.node_of(Position { x, y })];
                    assert(is_walk(map.graph_spec(), w) && w[0] == map.node_of(Position { x, y }) && w.last()
                        == map.node_of(Position { x, y }));
                }
            }
            match map.path(x, y) {
                Some(p) => {
                    if p.len() >= 2 {
                        let next = p[1];
                        assert(p@[0] == (Position { x, y }));
                        assert(has_edge(map.graph_spec(), map.node_of(p@[0int]), map.node_of(p@[0int + 1])));
                        assert(map.cheapest(p@, x as int, y as int));
                        self.tile = (next.x, next.y);
                        self.next_walk_target = GameMap::tile_center(next.x, next.y);
                    } else {
                        self.reached_goal = true;
                    }
                },
                None => {},
            }
        }
        self.countdown_debuffs();
        self.prune_debuffs();
    }
}

proof fn lemma_max_freeze_bounds(ds: Seq<Debuff>, i: int)
    requires
        0 <= i < ds.len(),
        ds[i].kind == BuffType::Freeze,
    ensures
        max_freeze(ds) >= ds[i].effectiveness,
    decreases ds.len(),
{
    if i < ds.len() - 1 {
        lemma_max_freeze_bounds(ds.drop_last(), i);
    }
}

/// An enemy never walks faster than its base speed, and walks exactly at it
/// if and only if no freeze debuff holds it; for an enemy that moves at all
/// and freeze debuffs that slow at all.
pub proof fn lemma_slowed_speed(speed: u64, ds: Seq<Debuff>)
    requires
        speed > 0,
        forall|i: int| 0 <= i < ds.len() && (#[trigger] ds[i]).kind == BuffType::Freeze ==> ds[i].effectiveness >= 1,
    ensures
        slowed_speed(speed, ds) <= speed,
        slowed_speed(speed, ds) == speed <==> !has_freeze(ds),
{
    if has_freeze(ds) {
        let i = choose|i: int| 0 <= i < ds.len() && (#[trigger] ds[i]).kind == BuffType::Freeze;
        lemma_max_freeze_bounds(ds, i);
        let m: int = if max_freeze(ds) > 100 { 100 } else { max_freeze(ds) as int };
        assert(1 <= m <= 100);
        let s = speed as int;
        assert(s * (100 - m) / 100 < s) by (nonlinear_arith)
            requires 1 <= m <= 100, s > 0;
        assert(s * (100 - m) / 100 >= 0) by (nonlinear_arith)
            requires 1 <= m <= 100, s > 0;
    }
}

} // verus!
