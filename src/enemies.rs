//! The enemy registry: enemies keyed by ids handed out in increasing order.
use vstd::prelude::*;
use crate::debuffs::Debuff;
use crate::enemy::{Enemy, tick_step};
use crate::geometry::{Point, in_range, within};
use crate::map::GameMap;

verus! {

/// The enemy may be aimed at from `pos` with `range`: close enough and alive.
pub open spec fn eligible(e: Enemy, pos: Point, range: u64) -> bool {
    within(pos, e.position, range) && e.health > 0
}

/// Ids of the eligible enemies of `s`, in order.
pub open spec fn eligible_ids(s: Seq<(usize, Enemy)>, pos: Point, range: u64) -> Seq<usize>
    decreases s.len(),
{
    if s.len() == 0 {
        Seq::empty()
    } else {
        let rest = eligible_ids(s.drop_last(), pos, range);
        if eligible(s.last().1, pos, range) {
            rest.push(s.last().0)
        } else {
            rest
        }
    }
}

/// Some entry of `s` has id `id`.
pub open spec fn has_id(s: Seq<(usize, Enemy)>, id: usize) -> bool {
    exists|k: int| 0 <= k < s.len() && (#[trigger] s[k]).0 == id
}

/// On a registry with increasing ids, the eligible ids increase too, and an
/// entry's id is among them exactly when the entry is eligible.
pub proof fn lemma_eligible_ids(s: Seq<(usize, Enemy)>, next: usize, pos: Point, range: u64)
    requires
        ids_ordered(s, next),
    ensures
        forall|a: int, b: int|
            0 <= a < b < eligible_ids(s, pos, range).len() ==> eligible_ids(s, pos, range)[a] < eligible_ids(
                s,
                pos,
                range,
            )[b],
        forall|a: int|
            0 <= a < eligible_ids(s, pos, range).len() ==> #[trigger] has_id(s, eligible_ids(s, pos, range)[a]),
        forall|k: int|
            0 <= k < s.len() ==> (eligible_ids(s, pos, range).contains((#[trigger] s[k]).0) <==> eligible(
                s[k].1,
                pos,
                range,
            )),
    decreases s.len(),
{
    if s.len() > 0 {
        let d = s.drop_last();
        assert(ids_ordered(d, next)) by {
            assert forall|i: int, j: int| 0 <= i < j < d.len() implies (#[trigger] d[i]).0 < (#[trigger] d[j]).0 by {
                assert(d[i] == s[i] && d[j] == s[j]);
            }
            assert forall|i: int| 0 <= i < d.len() implies (#[trigger] d[i]).0 < next by {
                assert(d[i] == s[i]);
            }
        }
        lemma_eligible_ids(d, next, pos, range);
        let rest = eligible_ids(d, pos, range);
        let all = eligible_ids(s, pos, range);
        let x = s.last();
        assert forall|a: int| 0 <= a < rest.len() implies rest[a] < x.0 by {
            assert(has_id(d, rest[a]));
            let k = choose|k: int| 0 <= k < d.len() && (#[trigger] d[k]).0 == rest[a];
            assert(d[k] == s[k]);
            assert(s[k].0 < s[s.len() - 1].0);
        }
        assert forall|a: int| 0 <= a < all.len() implies #[trigger] has_id(s, all[a]) by {
            if a < rest.len() {
                assert(has_id(d, rest[a]));
                let k = choose|k: int| 0 <= k < d.len() && (#[trigger] d[k]).0 == rest[a];
                assert(d[k] == s[k]);
                assert(all[a] == rest[a]);
            } else {
                assert(s[s.len() - 1].0 == all[a]);
            }
        }
        assert forall|k: int| 0 <= k < s.len() implies (all.contains((#[trigger] s[k]).0) <==> eligible(s[k].1, pos, range)) by {
            if k < d.len() {
                assert(d[k] == s[k]);
                assert(s[k].0 < x.0);
                if all.contains(s[k].0) {
                    let a = choose|a: int| 0 <= a < all.len() && all[a] == s[k].0;
                    if a < rest.len() {
                        assert(rest[a] == all[a]);
                        assert(rest.contains(s[k].0));
                    }
                }
                if rest.contains(s[k].0) {
                    let a = choose|a: int| 0 <= a < rest.len() && rest[a] == s[k].0;
                    assert(all[a] == rest[a]);
                }
            } else {
                if all.contains(s[k].0) {
                    let a = choose|a: int| 0 <= a < all.len() && all[a] == s[k].0;
                    if a < rest.len() {
                        assert(rest[a] == all[a]);
                    }
                }
                if eligible(s[k].1, pos, range) {
                    assert(all[all.len() - 1] == s[k].0);
                }
            }
        }
    }
}

/// The enemy stays in the registry after a tick: alive and not at the target.
pub open spec fn stays(e: Enemy) -> bool {
    e.health > 0 && !e.reached_goal
}

/// The entries of `s` that stay, in order.
pub open spec fn survivors(s: Seq<(usize, Enemy)>) -> Seq<(usize, Enemy)>
    decreases s.len(),
{
    if s.len() == 0 {
        s
    } else if stays(s[0].1) {
        seq![s[0]] + survivors(s.subrange(1, s.len() as int))
    } else {
        survivors(s.subrange(1, s.len() as int))
    }
}

/// Every entry that survives a sweep stays.
pub proof fn lemma_survivors_stay(s: Seq<(usize, Enemy)>)
    ensures
        forall|i: int| 0 <= i < survivors(s).len() ==> stays(#[trigger] survivors(s)[i].1),
    decreases s.len(),
{
    if s.len() > 0 {
        let rest = s.subrange(1, s.len() as int);
        lemma_survivors_stay(rest);
        if stays(s[0].1) {
            assert forall|i: int| 0 <= i < survivors(s).len() implies stays(#[trigger] survivors(s)[i].1) by {
                if i > 0 {
                    assert(survivors(s)[i] == survivors(rest)[i - 1]);
                }
            }
        }
    }
}

/// Number of living entries of `s` that stand on the target.
pub open spec fn arrivals(s: Seq<(usize, Enemy)>) -> nat
    decreases s.len(),
{
    if s.len() == 0 {
        0
    } else {
        (if s[0].1.health > 0 && s[0].1.reached_goal {
            1nat
        } else {
            0nat
        }) + arrivals(s.subrange(1, s.len() as int))
    }
}

/// Ids strictly increase along `s` and stay below `next`.
pub open spec fn ids_ordered(s: Seq<(usize, Enemy)>, next: usize) -> bool {
    &&& forall|i: int, j: int| 0 <= i < j < s.len() ==> (#[trigger] s[i]).0 < (#[trigger] s[j]).0
    &&& forall|i: int| 0 <= i < s.len() ==> (#[trigger] s[i]).0 < next
}

pub proof fn lemma_ids_unique(s: Seq<(usize, Enemy)>, next: usize, a: int, b: int)
    requires
        ids_ordered(s, next),
        0 <= a < s.len(),
        0 <= b < s.len(),
        s[a].0 == s[b].0,
    ensures
        a == b,
{
    if a < b {
        assert(s[a].0 < s[b].0);
    } else if b < a {
        assert(s[b].0 < s[a].0);
    }
}

/// Position of the entry with id `id` in `s`, or -1.
pub open spec fn index_in(s: Seq<(usize, Enemy)>, id: usize) -> int {
    if exists|i: int| 0 <= i < s.len() && (#[trigger] s[i]).0 == id {
        choose|i: int| 0 <= i < s.len() && (#[trigger] s[i]).0 == id
    } else {
        -1
    }
}

/// `after` is `before` with enemy `id` (if any) hit for `damage`.
pub open spec fn damaged(before: Seq<(usize, Enemy)>, after: Seq<(usize, Enemy)>, id: usize, damage: usize) -> bool {
    let i = index_in(before, id);
    if i < 0 {
        after == before
    } else {
        let e = before[i].1;
        after == before.update(
            i,
            (id, Enemy { health: if e.health > damage { (e.health - damage) as usize } else { 0 }, ..e }),
        )
    }
}

/// `after` is `before` with `debuffs` appended to those of enemy `id` (if any).
pub open spec fn debuffed(before: Seq<(usize, Enemy)>, after: Seq<(usize, Enemy)>, id: usize, debuffs: Seq<Debuff>) -> bool {
    let i = index_in(before, id);
    if i < 0 {
        after == before
    } else {
        let e = before[i].1;
        &&& after.len() == before.len()
        &&& forall|j: int| 0 <= j < before.len() && j != i ==> #[trigger] after[j] == before[j]
        &&& after[i].0 == id
        &&& after[i].1.debuffs@ == e.debuffs@ + debuffs
        &&& after[i].1.health == e.health
        &&& after[i].1.position == e.position
        &&& after[i].1.walk_speed == e.walk_speed
        &&& after[i].1.next_walk_target == e.next_walk_target
        &&& after[i].1.tile == e.tile
        &&& after[i].1.reached_goal == e.reached_goal
        &&& after[i].1.disp == e.disp
    }
}

/// The entries `before` become `after` in one tick on `map`: each enemy
/// makes a [`tick_step`], then the [`survivors`] stay; `arrived` of them
/// were alive on the target.
pub open spec fn march(map: GameMap, before: Seq<(usize, Enemy)>, after: Seq<(usize, Enemy)>, arrived: int) -> bool {
    exists|ticked: Seq<(usize, Enemy)>| {
        &&& ticked.len() == before.len()
        &&& forall|i: int| 0 <= i < ticked.len() ==> (#[trigger] ticked[i]).0 == before[i].0 && tick_step(
            map,
            before[i].1,
            ticked[i].1,
        )
        &&& after == survivors(ticked)
        &&& arrived == arrivals(ticked)
    }
}

pub struct Enemies {
    pub enemies: Vec<(usize, Enemy)>,
    /// The id the next spawned enemy receives.
    pub id: usize,
}

impl Enemies {
    pub open spec fn wf(&self) -> bool {
        ids_ordered(self.enemies@, self.id)
    }

    /// Every enemy walks toward a cell of `map`.
    pub open spec fn on_map(&self, map: GameMap) -> bool {
        forall|i: int|
            0 <= i < self.enemies@.len() ==> map.in_bounds(
                (#[trigger] self.enemies@[i]).1.tile.0 as int,
                self.enemies@[i].1.tile.1 as int,
            )
    }

    /// Position of the entry with id `id`, or -1.
    pub open spec fn index_of(&self, id: usize) -> int {
        index_in(self.enemies@, id)
    }

    pub fn new() -> (r: Self)
        ensures
            r.wf(),
            r.enemies@.len() == 0,
            r.id == 0,
    {
        Self { enemies: Vec::new(), id: 0 }
    }

    /// Adds `enemy` under the next id, which it returns; `None`, with nothing
    /// added, once every id has been handed out.
    pub fn spawn(&mut self, enemy: Enemy) -> (r: Option<usize>)
        requires
            old(self).wf(),
        ensures
            final(self).wf(),
            old(self).id == usize::MAX ==> r is None && *final(self) == *old(self),
            old(self).id < usize::MAX ==> {
                &&& r == Some(old(self).id)
                &&& final(self).id == old(self).id + 1
                &&& final(self).enemies@ == old(self).enemies@.push((old(self).id, enemy))
            },
    {
        if self.id == usize::MAX {
            return None;
        }
        let id = self.id;
        self.enemies.push((id, enemy));
        self.id = id + 1;
        Some(id)
    }

    /// Ids of the living enemies within `range` of `pos`, in registry order.
    pub fn in_range(&self, pos: Point, range: u64) -> (r: Vec<usize>)
        ensures
            r@ == eligible_ids(self.enemies@, pos, range),
    {
        let mut r: Vec<usize> = Vec::new();
        let mut i: usize = 0;
        while i < self.enemies.len()
            invariant
                i <= self.enemies@.len(),
                r@ == eligible_ids(self.enemies@.subrange(0, i as int), pos, range),
            decreases self.enemies@.len() - i,
        {
            assert(self.enemies@.subrange(0, i + 1).drop_last() =~= self.enemies@.subrange(0, i as int));
            let e = &self.enemies[i].1;
            if in_range(pos, e.position, range) && e.health > 0 {
                r.push(self.enemies[i].0);
            }
            i = i + 1;
        }
        assert(self.enemies@.subrange(0, i as int) =~= self.enemies@);
        r
    }

    /// The id of a living enemy within `range` of `pos` with the least health
    /// (the first in registry order among equals); `None` when there is none.
    pub fn weakest_enemy_in_range(&self, range: u64, pos: Point) -> (r: Option<usize>)
        ensures
            r is None <==> forall|i: int| 0 <= i < self.enemies@.len() ==> !eligible(
                #[trigger] self.enemies@[i].1,
                pos,
                range,
            ),
            r matches Some(id) ==> exists|i: int|
                0 <= i < self.enemies@.len() && (#[trigger] self.enemies@[i]).0 == id && eligible(
                    self.enemies@[i].1,
                    pos,
                    range,
                ) && forall|j: int|
                    0 <= j < self.enemies@.len() && eligible(#[trigger] self.enemies@[j].1, pos, range)
                        ==> self.enemies@[i].1.health <= self.enemies@[j].1.health,
    {
        let mut best: Option<usize> = None;
        let mut i: usize = 0;
        while i < self.enemies.len()
            invariant
                i <= self.enemies@.len(),
                best is None ==> forall|k: int| 0 <= k < i ==> !eligible(#[trigger] self.enemies@[k].1, pos, range),
                best matches Some(b) ==> {
                    &&& b < i
                    &&& eligible(self.enemies@[b as int].1, pos, range)
                    &&& forall|k: int|
                        0 <= k < i && eligible(#[trigger] self.enemies@[k].1, pos, range) ==> self.enemies@[b as int].1.health
                            <= self.enemies@[k].1.health
                },
            decreases self.enemies@.len() - i,
        {
            let e = &self.enemies[i].1;
            if in_range(pos, e.position, range) && e.health > 0 {
                match best {
                    None => {
                        best = Some(i);
                    },
                    Some(b) => {
                        if e.health < self.enemies[b].1.health {
                            best = Some(i);
                        }
                    },
                }
            }
            i = i + 1;
        }
        match best {
            None => None,
            Some(b) => {
                let id = self.enemies[b].0;
                assert(self.enemies@[b as int].0 == id);
                Some(id)
            },
        }
    }

    /// Lowers the health of enemy `id` by `damage`, stopping at 0; nothing
    /// happens when there is no such enemy.
    pub fn damage(&mut self, id: usize, damage: usize)
        requires
            old(self).wf(),
        ensures
            final(self).wf(),
            final(self).id == old(self).id,
            damaged(old(self).enemies@, final(self).enemies@, id, damage),
    {
        match self.find(id) {
            Some(i) => {
                let (eid, mut e) = self.enemies.remove(i);
                e.health = e.health.saturating_sub(damage);
                self.enemies.insert(i, (eid, e));
                assert(self.enemies@ =~= old(self).enemies@.update(i as int, (eid, e)));
                proof {
                    self.lemma_update_keeps_order(old(self).enemies@, i as int);
                }
            },
            None => {},
        }
    }

    /// Appends the debuffs `debuffs` to those of enemy `id`; nothing happens
    /// when there is no such enemy.
    pub fn debuff(&mut self, id: usize, debuffs: &Vec<Debuff>)
        requires
            old(self).wf(),
        ensures
            final(self).wf(),
            final(self).id == old(self).id,
            debuffed(old(self).enemies@, final(self).enemies@, id, debuffs@),
    {
        match self.find(id) {
            Some(i) => {
                let (eid, mut e) = self.enemies.remove(i);
                let mut k: usize = 0;
                let ghost before = e.debuffs@;
                let ghost orig = e;
                let ghost rest = self.enemies@;
                while k < debuffs.len()
                    invariant
                        self.enemies@ == rest,
                        e.health == orig.health,
                        e.position == orig.position,
                        e.walk_speed == orig.walk_speed,
                        e.next_walk_target == orig.next_walk_target,
                        e.tile == orig.tile,
                        e.reached_goal == orig.reached_goal,
                        e.disp == orig.disp,
                        k <= debuffs@.len(),
                        e.debuffs@ == before + debuffs@.subrange(0, k as int),
                    decreases debuffs@.len() - k,
                {
                    e.debuffs.push(debuffs[k]);
                    k = k + 1;
                    assert(e.debuffs@ =~= before + debuffs@.subrange(0, k as int));
                }
                assert(debuffs@.subrange(0, k as int) =~= debuffs@);
                self.enemies.insert(i, (eid, e));
                proof {
                    self.lemma_update_keeps_order(old(self).enemies@, i as int);
                }
            },
            None => {},
        }
    }

    proof fn lemma_update_keeps_order(&self, before: Seq<(usize, Enemy)>, i: int)
        requires
            ids_ordered(before, self.id),
            0 <= i < before.len(),
            self.enemies@.len() == before.len(),
            forall|j: int| 0 <= j < before.len() ==> (#[trigger] self.enemies@[j]).0 == before[j].0,
        ensures
            self.wf(),
    {
        assert forall|a: int, b: int| 0 <= a < b < self.enemies@.len() implies (#[trigger] self.enemies@[a]).0
            < (#[trigger] self.enemies@[b]).0 by {
            assert(before[a].0 < before[b].0);
        }
    }

    /// Position of the entry with id `id`.
    fn find(&self, id: usize) -> (r: Option<usize>)
        requires
            self.wf(),
        ensures
            r matches Some(i) ==> i < self.enemies@.len() && self.enemies@[i as int].0 == id && i == self.index_of(id),
            r is None ==> self.index_of(id) < 0,
    {
        let mut i: usize = 0;
        while i < self.enemies.len()
            invariant
                self.wf(),
                i <= self.enemies@.len(),
                forall|k: int| 0 <= k < i ==> (#[trigger] self.enemies@[k]).0 != id,
            decreases self.enemies@.len() - i,
        {
            if self.enemies[i].0 == id {
                proof {
                    let j = choose|j: int| 0 <= j < self.enemies@.len() && (#[trigger] self.enemies@[j]).0 == id;
                    lemma_ids_unique(self.enemies@, self.id, i as int, j);
                }
                return Some(i);
            }
            i = i + 1;
        }
        None
    }

    /// Whether some enemy is alive.
    pub fn any_alive(&self) -> (r: bool)
        ensures
            r == exists|i: int| 0 <= i < self.enemies@.len() && (#[trigger] self.enemies@[i]).1.health > 0,
    {
        let mut i: usize = 0;
        while i < self.enemies.len()
            invariant
                i <= self.enemies@.len(),
                forall|k: int| 0 <= k < i ==> (#[trigger] self.enemies@[k]).1.health == 0,
            decreases self.enemies@.len() - i,
        {
            if self.enemies[i].1.health > 0 {
                return true;
            }
            i = i + 1;
        }
        false
    }

    /// One tick of every enemy (see [`tick_step`]); then the dead enemies and
    /// those standing on the target leave the registry. Returns how many
    /// living enemies stood on the target.
    pub fn tick(&mut self, map: &GameMap) -> (r: usize)
        requires
            old(self).wf(),
            map.wf(),
            old(self).on_map(*map),
        ensures
            final(self).wf(),
            final(self).id == old(self).id,
            final(self).on_map(*map),
            forall|i: int| 0 <= i < final(self).enemies@.len() ==> !(#[trigger] final(self).enemies@[i]).1.reached_goal
                && final(self).enemies@[i].1.health > 0,
            march(*map, old(self).enemies@, final(self).enemies@, r as int),
    {
        let n = self.enemies.len();
        let mut i: usize = 0;
        while i < n
            invariant
                map.wf(),
                n == old(self).enemies@.len(),
                self.enemies@.len() == n,
                self.id == old(self).id,
                i <= n,
                forall|k: int| 0 <= k < n ==> (#[trigger] self.enemies@[k]).0 == old(self).enemies@[k].0,
                forall|k: int| 0 <= k < i ==> tick_step(*map, old(self).enemies@[k].1, (#[trigger] self.enemies@[k]).1),
                forall|k: int| i <= k < n ==> (#[trigger] self.enemies@[k]).1 == old(self).enemies@[k].1,
                forall|k: int| 0 <= k < n ==> map.in_bounds(
                    (#[trigger] self.enemies@[k]).1.tile.0 as int,
                    self.enemies@[k].1.tile.1 as int,
                ),
            decreases n - i,
        {
            self.enemies[i].1.tick(map);
            i = i + 1;
        }
        let ghost ticked = self.enemies@;
        proof {
            assert(ids_ordered(ticked, self.id)) by {
                assert forall|a: int, b: int| 0 <= a < b < ticked.len() implies (#[trigger] ticked[a]).0 < (#[trigger] ticked[b]).0 by {
                    assert(old(self).enemies@[a].0 < old(self).enemies@[b].0);
                }
                assert forall|a: int| 0 <= a < ticked.len() implies (#[trigger] ticked[a]).0 < self.id by {
                    assert(old(self).enemies@[a].0 < old(self).id);
                }
            }
        }
        let mut out: Vec<(usize, Enemy)> = Vec::new();
        let mut count: usize = 0;
        while self.enemies.len() > 0
            invariant
                map.wf(),
                self.id == old(self).id,
                survivors(ticked) == out@ + survivors(self.enemies@),
                arrivals(ticked) == count + arrivals(self.enemies@),
                count + self.enemies@.len() <= ticked.len(),
                ticked.len() == n,
                ids_ordered(out@ + self.enemies@, self.id),
                forall|k: int| 0 <= k < out@.len() ==> map.in_bounds(
                    (#[trigger] out@[k]).1.tile.0 as int,
                    out@[k].1.tile.1 as int,
                ),
                forall|k: int| 0 <= k < self.enemies@.len() ==> map.in_bounds(
                    (#[trigger] self.enemies@[k]).1.tile.0 as int,
                    self.enemies@[k].1.tile.1 as int,
                ),
            decreases self.enemies@.len(),
        {
            let ghost rest = self.enemies@;
            let ghost before = out@;
            let (id, e) = self.enemies.remove(0);
            assert(rest.subrange(1, rest.len() as int) == self.enemies@);
            if e.health > 0 && e.reached_goal {
                count = count + 1;
            }
            if e.health > 0 && !e.reached_goal {
                out.push((id, e));
                assert(out@ + self.enemies@ =~= before + rest);
                assert(survivors(ticked) =~= out@ + survivors(self.enemies@));
            } else {
                proof {
                    let old_all = before + rest;
                    let new_all = out@ + self.enemies@;
                    let m = before.len() as int;
                    assert forall|a: int, b: int| 0 <= a < b < new_all.len() implies (#[trigger] new_all[a]).0
                        < (#[trigger] new_all[b]).0 by {
                        let a2 = if a < m { a } else { a + 1 };
                        let b2 = if b < m { b } else { b + 1 };
                        assert(new_all[a] == old_all[a2]);
                        assert(new_all[b] == old_all[b2]);
                        assert(old_all[a2].0 < old_all[b2].0);
                    }
                    assert forall|a: int| 0 <= a < new_all.len() implies (#[trigger] new_all[a]).0 < self.id by {
                        let a2 = if a < m { a } else { a + 1 };
                        assert(new_all[a] == old_all[a2]);
                    }
                }
            }
        }
        assert(out@ + self.enemies@ =~= out@);
        assert(survivors(self.enemies@) =~= self.enemies@);
        self.enemies = out;
        proof {
            lemma_survivors_stay(ticked);
        }
        count
    }

    /// Where enemy `id` stands, if it is in the registry.
    pub fn position_of(&self, id: usize) -> (r: Option<Point>)
        requires
            self.wf(),
        ensures
            r is None <==> self.index_of(id) < 0,
            r matches Some(p) ==> p == self.enemies@[self.index_of(id)].1.position,
    {
        match self.find(id) {
            Some(i) => Some(self.enemies[i].1.position),
            None => None,
        }
    }
}

} // verus!
