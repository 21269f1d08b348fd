//! Cube coordinates on a hexagonal grid, and a grid of entries keyed by them.
use vstd::prelude::*;

verus! {

/// Cube coordinates of a hexagonal cell; they sum to 0.
#[derive(Debug, Clone, Copy, PartialEq, Eq, Hash, Structural)]
pub struct Pos {
    pub x: isize,
    pub y: isize,
    pub z: isize,
}

pub open spec fn abs(v: int) -> int {
    if v < 0 {
        -v
    } else {
        v
    }
}

/// Number of steps between two cells.
pub open spec fn hex_dist(a: Pos, b: Pos) -> int {
    (abs(a.x - b.x) + abs(a.y - b.y) + abs(a.z - b.z)) / 2
}

/// Coordinates that sum to 0.
pub open spec fn on_grid(p: Pos) -> bool {
    p.x + p.y + p.z == 0
}

/// The cell at offset `(a, b)` from `p` along the first two axes.
pub open spec fn offset(p: Pos, a: int, b: int) -> Pos {
    Pos { x: (p.x + a) as isize, y: (p.y + b) as isize, z: (p.z - a - b) as isize }
}

/// Cells `p` and the ones `d` around it stay within the machine's range.
pub open spec fn room_around(p: Pos, d: int) -> bool {
    &&& isize::MIN + 2 * d < p.x < isize::MAX - 2 * d
    &&& isize::MIN + 2 * d < p.y < isize::MAX - 2 * d
    &&& isize::MIN + 2 * d < p.z < isize::MAX - 2 * d
}

fn max_isize(a: isize, b: isize) -> (r: isize)
    ensures
        r == if a >= b { a } else { b },
{
    if a >= b {
        a
    } else {
        b
    }
}

fn min_isize(a: isize, b: isize) -> (r: isize)
    ensures
        r == if a <= b { a } else { b },
{
    if a <= b {
        a
    } else {
        b
    }
}

/// `p` comes before `q` ordered by first, then second coordinate; cells in
/// this order are distinct.
pub open spec fn lex_less(p: Pos, q: Pos) -> bool {
    p.x < q.x || (p.x == q.x && p.y < q.y)
}

impl Pos {
    pub fn new(x: isize, y: isize, z: isize) -> (r: Self)
        requires
            x + y + z == 0,
        ensures
            r == (Pos { x, y, z }),
    {
        Self { x, y, z }
    }

    /// Number of steps between `a` and `b`.
    pub fn distance(a: Pos, b: Pos) -> (r: usize)
        requires
            hex_dist(a, b) <= usize::MAX,
        ensures
            r == hex_dist(a, b),
    {
        let dx: i128 = a.x as i128 - b.x as i128;
        let dy: i128 = a.y as i128 - b.y as i128;
        let dz: i128 = a.z as i128 - b.z as i128;
        let ax: i128 = if dx < 0 { -dx } else { dx };
        let ay: i128 = if dy < 0 { -dy } else { dy };
        let az: i128 = if dz < 0 { -dz } else { dz };
        ((ax + ay + az) / 2) as usize
    }

    /// The cells within `distance` steps of this one, the cell itself
    /// included, each once.
    pub fn neighbors(&self, distance: usize) -> (r: Vec<Pos>)
        requires
            on_grid(*self),
            room_around(*self, distance as int),
        ensures
            forall|k: int| 0 <= k < r@.len() ==> on_grid(#[trigger] r@[k]) && hex_dist(*self, r@[k]) <= distance,
            forall|a: int, b: int|
                -distance <= a <= distance && -distance <= b <= distance && -distance <= a + b <= distance
                    ==> r@.contains(#[trigger] offset(*self, a, b)),
            forall|i: int, j: int| 0 <= i < j < r@.len() ==> lex_less(#[trigger] r@[i], #[trigger] r@[j]),
    {
        let d = distance as isize;
        let mut n: Vec<Pos> = Vec::new();
        let mut x: isize = -d;
        while x <= d
            invariant
                on_grid(*self),
                room_around(*self, distance as int),
                d == distance,
                -d <= x <= d + 1,
                forall|k: int| 0 <= k < n@.len() ==> on_grid(#[trigger] n@[k]) && hex_dist(*self, n@[k]) <= distance,
                forall|a: int, b: int|
                    -d <= a < x && -d <= b <= d && -d <= a + b <= d ==> n@.contains(#[trigger] offset(*self, a, b)),
                forall|i: int, j: int| 0 <= i < j < n@.len() ==> lex_less(#[trigger] n@[i], #[trigger] n@[j]),
                forall|k: int| 0 <= k < n@.len() ==> (#[trigger] n@[k]).x < self.x + x,
            decreases d + 1 - x,
        {
            let lo = max_isize(-d, -x - d);
            let hi = min_isize(d, -x + d);
            let mut y: isize = lo;
            while y <= hi
                invariant
                    on_grid(*self),
                    room_around(*self, distance as int),
                    d == distance,
                    -d <= x <= d,
                    lo as int == (if -d >= -x - d { -d as int } else { -x - d }),
                    hi as int == (if d <= -x + d { d as int } else { -x + d }),
                    lo <= y <= hi + 1,
                    forall|k: int| 0 <= k < n@.len() ==> on_grid(#[trigger] n@[k]) && hex_dist(*self, n@[k]) <= distance,
                    forall|a: int, b: int|
                        -d <= a < x && -d <= b <= d && -d <= a + b <= d ==> n@.contains(#[trigger] offset(*self, a, b)),
                    forall|b: int| lo <= b < y ==> n@.contains(#[trigger] offset(*self, x as int, b)),
                    forall|i: int, j: int| 0 <= i < j < n@.len() ==> lex_less(#[trigger] n@[i], #[trigger] n@[j]),
                    forall|k: int| 0 <= k < n@.len() ==> (#[trigger] n@[k]).x < self.x + x || (n@[k].x == self.x + x
                        && n@[k].y < self.y + y),
                    forall|k: int| 0 <= k < n@.len() ==> (#[trigger] n@[k]).x <= self.x + x,
                decreases hi + 1 - y,
            {
                let z = -x - y;
                let p = Pos::new(self.x + x, self.y + y, self.z + z);
                let ghost before = n@;
                n.push(p);
                proof {
                    assert(p == offset(*self, x as int, y as int));
                    assert(n@[before.len() as int] == p);
                    assert forall|a: int, b: int|
                        -d <= a < x && -d <= b <= d && -d <= a + b <= d implies n@.contains(#[trigger] offset(*self, a, b)) by {
                        assert(before.contains(offset(*self, a, b)));
                        let k = choose|k: int| 0 <= k < before.len() && before[k] == offset(*self, a, b);
                        assert(n@[k] == before[k]);
                    }
                    assert forall|i: int, j: int| 0 <= i < j < n@.len() implies lex_less(#[trigger] n@[i], #[trigger] n@[j]) by {
                        if j < before.len() {
                            assert(n@[i] == before[i] && n@[j] == before[j]);
                        } else {
                            assert(n@[i] == before[i]);
                        }
                    }
                    assert forall|k: int| 0 <= k < n@.len() implies (#[trigger] n@[k]).x <= self.x + x by {
                        if k < before.len() {
                            assert(n@[k] == before[k]);
                        }
                    }
                    assert forall|b: int| lo <= b < y + 1 implies n@.contains(#[trigger] offset(*self, x as int, b)) by {
                        if b < y {
                            assert(before.contains(offset(*self, x as int, b)));
                            let k = choose|k: int| 0 <= k < before.len() && before[k] == offset(*self, x as int, b);
                            assert(n@[k] == before[k]);
                        }
                    }
                }
                y = y + 1;
            }
            x = x + 1;
        }
        n
    }

    pub fn up(&self) -> (r: Pos)
        requires
            on_grid(*self),
            room_around(*self, 1),
        ensures
            r == (if abs(self.z as int) % 2 == 0 { offset(*self, 0, 1) } else { offset(*self, 1, 0) }),
            on_grid(r),
    {
        if (if self.z < 0 { -self.z } else { self.z }) % 2 == 0 {
            return Pos::new(self.x, self.y + 1, self.z - 1);
        }
        Pos::new(self.x + 1, self.y, self.z - 1)
    }

    pub fn down(&self) -> (r: Pos)
        requires
            on_grid(*self),
            room_around(*self, 1),
        ensures
            r == (if abs(self.z as int) % 2 == 0 { offset(*self, -1, 0) } else { offset(*self, 0, -1) }),
            on_grid(r),
    {
        if (if self.z < 0 { -self.z } else { self.z }) % 2 == 0 {
            return Pos::new(self.x - 1, self.y, self.z + 1);
        }
        Pos::new(self.x, self.y - 1, self.z + 1)
    }

    pub fn left(&self) -> (r: Pos)
        requires
            on_grid(*self),
            room_around(*self, 1),
        ensures
            r == offset(*self, -1, 1),
            on_grid(r),
    {
        Pos::new(self.x - 1, self.y + 1, self.z)
    }

    pub fn right(&self) -> (r: Pos)
        requires
            on_grid(*self),
            room_around(*self, 1),
        ensures
            r == offset(*self, 1, -1),
            on_grid(r),
    {
        Pos::new(self.x + 1, self.y - 1, self.z)
    }
}

pub type Id = usize;

/// Entries that carry an id of their own.
pub trait ID {
    /// The entry's id.
    spec fn id_spec(&self) -> Id;

    fn id(&self) -> (r: Id)
        ensures
            r == self.id_spec(),
    ;
}

/// The entry stored at `pos` in `s`, if any.
pub open spec fn lookup<T>(s: Seq<(Pos, T)>, pos: Pos) -> Option<T> {
    if exists|i: int| 0 <= i < s.len() && (#[trigger] s[i]).0 == pos {
        Some(s[choose|i: int| 0 <= i < s.len() && (#[trigger] s[i]).0 == pos].1)
    } else {
        None
    }
}

/// No two entries share a cell.
pub open spec fn keys_unique<T>(s: Seq<(Pos, T)>) -> bool {
    forall|i: int, j: int| 0 <= i < j < s.len() ==> (#[trigger] s[i]).0 != (#[trigger] s[j]).0
}

proof fn lemma_lookup_at<T>(s: Seq<(Pos, T)>, i: int)
    requires
        keys_unique(s),
        0 <= i < s.len(),
    ensures
        lookup(s, s[i].0) == Some(s[i].1),
{
    let j = choose|j: int| 0 <= j < s.len() && (#[trigger] s[j]).0 == s[i].0;
    if j != i {
        if j < i {
            assert(s[j].0 != s[i].0);
        } else {
            assert(s[i].0 != s[j].0);
        }
    }
}

/// A grid holding at most one entry per cell, and the cell of each id.
pub struct HexGrid<T: ID> {
    pub entries: Vec<(Pos, T)>,
    pub ids_to_pos: Vec<(Id, Pos)>,
}

impl<T: ID> HexGrid<T> {
    pub open spec fn wf(&self) -> bool {
        keys_unique(self.entries@)
    }

    pub fn new() -> (r: Self)
        ensures
            r.wf(),
            r.entries@.len() == 0,
    {
        HexGrid { entries: Vec::new(), ids_to_pos: Vec::new() }
    }

    fn index_of(&self, pos: &Pos) -> (r: Option<usize>)
        requires
            self.wf(),
        ensures
            r matches Some(i) ==> i < self.entries@.len() && self.entries@[i as int].0 == *pos,
            r is None ==> lookup(self.entries@, *pos) is None,
    {
        let mut i: usize = 0;
        while i < self.entries.len()
            invariant
                i <= self.entries@.len(),
                forall|k: int| 0 <= k < i ==> (#[trigger] self.entries@[k]).0 != *pos,
            decreases self.entries@.len() - i,
        {
            if self.entries[i].0 == *pos {
                return Some(i);
            }
            i = i + 1;
        }
        None
    }

    /// The entry at `pos`, if any.
    pub fn get(&self, pos: &Pos) -> (r: Option<&T>)
        requires
            self.wf(),
        ensures
            r is Some <==> lookup(self.entries@, *pos) is Some,
            r matches Some(e) ==> lookup(self.entries@, *pos) == Some(*e),
    {
        match self.index_of(pos) {
            Some(i) => {
                proof {
                    lemma_lookup_at(self.entries@, i as int);
                }
                Some(&self.entries[i].1)
            },
            None => None,
        }
    }

    /// Records the cell of id `id`, replacing an earlier record of it.
    fn note_id(&mut self, id: Id, pos: Pos)
        ensures
            final(self).entries@ == old(self).entries@,
    {
        let mut i: usize = 0;
        while i < self.ids_to_pos.len()
            invariant
                self.entries@ == old(self).entries@,
                i <= self.ids_to_pos@.len(),
            decreases self.ids_to_pos@.len() - i,
        {
            if self.ids_to_pos[i].0 == id {
                self.ids_to_pos.set(i, (id, pos));
                return;
            }
            i = i + 1;
        }
        self.ids_to_pos.push((id, pos));
    }

    /// Forgets the cell recorded for `id`.
    fn forget_id(&mut self, id: Id)
        ensures
            final(self).entries@ == old(self).entries@,
            forall|k: int| 0 <= k < final(self).ids_to_pos@.len() ==> (#[trigger] final(self).ids_to_pos@[k]).0 != id,
            forall|k: int|
                0 <= k < old(self).ids_to_pos@.len() && (#[trigger] old(self).ids_to_pos@[k]).0 != id
                    ==> final(self).ids_to_pos@.contains(old(self).ids_to_pos@[k]),
            forall|k: int|
                0 <= k < final(self).ids_to_pos@.len() ==> old(self).ids_to_pos@.contains(
                    #[trigger] final(self).ids_to_pos@[k],
                ),
    {
        let mut kept: Vec<(Id, Pos)> = Vec::new();
        let mut i: usize = 0;
        while i < self.ids_to_pos.len()
            invariant
                self.entries@ == old(self).entries@,
                self.ids_to_pos@ == old(self).ids_to_pos@,
                i <= self.ids_to_pos@.len(),
                forall|k: int| 0 <= k < kept@.len() ==> (#[trigger] kept@[k]).0 != id,
                forall|k: int|
                    0 <= k < i && (#[trigger] old(self).ids_to_pos@[k]).0 != id ==> kept@.contains(old(self).ids_to_pos@[k]),
                forall|k: int| 0 <= k < kept@.len() ==> old(self).ids_to_pos@.contains(#[trigger] kept@[k]),
            decreases self.ids_to_pos@.len() - i,
        {
            let e = self.ids_to_pos[i];
            if e.0 != id {
                let ghost before = kept@;
                kept.push(e);
                proof {
                    assert(kept@[before.len() as int] == e);
                    assert forall|k: int|
                        0 <= k < i + 1 && (#[trigger] old(self).ids_to_pos@[k]).0 != id implies kept@.contains(
                            old(self).ids_to_pos@[k],
                        ) by {
                        if k < i {
                            let j = choose|j: int| 0 <= j < before.len() && before[j] == old(self).ids_to_pos@[k];
                            assert(kept@[j] == before[j]);
                        }
                    }
                    assert forall|k: int| 0 <= k < kept@.len() implies old(self).ids_to_pos@.contains(#[trigger] kept@[k]) by {
                        if k < before.len() {
                            assert(kept@[k] == before[k]);
                        } else {
                            assert(old(self).ids_to_pos@[i as int] == e);
                        }
                    }
                }
            }
            i = i + 1;
        }
        self.ids_to_pos = kept;
    }

    /// Puts `entry` at `pos`, replacing what was there.
    pub fn add(&mut self, pos: &Pos, entry: T)
        requires
            old(self).wf(),
        ensures
            final(self).wf(),
            forall|q: Pos| #[trigger] lookup(final(self).entries@, q) == if q == *pos {
                Some(entry)
            } else {
                lookup(old(self).entries@, q)
            },
    {
        let id = entry.id();
        self.note_id(id, *pos);
        let ghost before = self.entries@;
        match self.index_of(pos) {
            Some(i) => {
                self.entries.set(i, (*pos, entry));
            },
            None => {
                self.entries.push((*pos, entry));
            },
        }
        proof {
            let after = self.entries@;
            assert forall|a: int, b: int| 0 <= a < b < after.len() implies (#[trigger] after[a]).0 != (#[trigger] after[b]).0 by {
                if b < before.len() {
                    if a != b {
                        assert(before[a].0 != before[b].0 || after[a].0 != after[b].0);
                    }
                }
            }
            assert forall|q: Pos| #[trigger] lookup(after, q) == if q == *pos {
                Some(entry)
            } else {
                lookup(before, q)
            } by {
                let k = choose|k: int| 0 <= k < after.len() && after[k].0 == *pos;
                if q == *pos {
                    assert(exists|k: int| 0 <= k < after.len() && (#[trigger] after[k]).0 == *pos) by {
                        if before.len() < after.len() {
                            assert(after[before.len() as int].0 == *pos);
                        } else {
                            let i = choose|i: int| 0 <= i < before.len() && before[i].0 == *pos && after[i].0 == *pos;
                            assert(after[i].0 == *pos);
                        }
                    }
                    let c = choose|c: int| 0 <= c < after.len() && (#[trigger] after[c]).0 == *pos;
                    lemma_lookup_at(after, c);
                } else {
                    if exists|i: int| 0 <= i < before.len() && (#[trigger] before[i]).0 == q {
                        let i = choose|i: int| 0 <= i < before.len() && (#[trigger] before[i]).0 == q;
                        lemma_lookup_at(before, i);
                        assert(after[i] == before[i]);
                        lemma_lookup_at(after, i);
                    } else {
                        assert forall|i: int| 0 <= i < after.len() implies (#[trigger] after[i]).0 != q by {
                            if i < before.len() {
                                assert(before[i].0 != q);
                            }
                        }
                    }
                }
            }
        }
    }

    /// Removes the entry at `pos`, if any, and the cell recorded for its id.
    pub fn del(&mut self, pos: &Pos)
        requires
            old(self).wf(),
        ensures
            final(self).wf(),
            lookup(old(self).entries@, *pos) matches Some(e) ==> {
                &&& forall|k: int| 0 <= k < final(self).ids_to_pos@.len() ==> (#[trigger] final(self).ids_to_pos@[k]).0 != e.id_spec()
                &&& forall|k: int|
                    0 <= k < old(self).ids_to_pos@.len() && (#[trigger] old(self).ids_to_pos@[k]).0 != e.id_spec()
                        ==> final(self).ids_to_pos@.contains(old(self).ids_to_pos@[k])
                &&& forall|k: int|
                    0 <= k < final(self).ids_to_pos@.len() ==> old(self).ids_to_pos@.contains(
                        #[trigger] final(self).ids_to_pos@[k],
                    )
            },
            lookup(old(self).entries@, *pos) is None ==> final(self).ids_to_pos@ == old(self).ids_to_pos@,
            lookup(old(self).entries@, *pos) is None ==> final(self).entries@ == old(self).entries@,
            forall|q: Pos| #[trigger] lookup(final(self).entries@, q) == if q == *pos {
                None
            } else {
                lookup(old(self).entries@, q)
            },
    {
        match self.index_of(pos) {
            Some(i) => {
                let ghost before = self.entries@;
                proof {
                    lemma_lookup_at(self.entries@, i as int);
                }
                let (_, deleted) = self.entries.remove(i);
                assert(self.ids_to_pos@ == old(self).ids_to_pos@);
                let id = deleted.id();
                self.forget_id(id);
                proof {
                    let after = self.entries@;
                    assert forall|a: int, b: int| 0 <= a < b < after.len() implies (#[trigger] after[a]).0 != (#[trigger] after[b]).0 by {
                        let a2 = if a < i { a } else { a + 1 };
                        let b2 = if b < i { b } else { b + 1 };
                        assert(after[a] == before[a2] && after[b] == before[b2]);
                    }
                    assert forall|q: Pos| #[trigger] lookup(after, q) == if q == *pos {
                        None
                    } else {
                        lookup(before, q)
                    } by {
                        if q == *pos {
                            assert forall|c: int| 0 <= c < after.len() implies (#[trigger] after[c]).0 != q by {
                                let c2 = if c < i { c } else { c + 1 };
                                assert(after[c] == before[c2]);
                                assert(before[i as int].0 == q);
                            }
                        } else if exists|c: int| 0 <= c < before.len() && (#[trigger] before[c]).0 == q {
                            let c = choose|c: int| 0 <= c < before.len() && (#[trigger] before[c]).0 == q;
                            lemma_lookup_at(before, c);
                            let c3 = if c < i { c } else { c - 1 };
                            assert(c != i);
                            assert(after[c3] == before[c]);
                            lemma_lookup_at(after, c3);
                        } else {
                            assert forall|c: int| 0 <= c < after.len() implies (#[trigger] after[c]).0 != q by {
                                let c2 = if c < i { c } else { c + 1 };
                                assert(after[c] == before[c2]);
                            }
                        }
                    }
                }
            },
            None => {
                assert forall|q: Pos| #[trigger] lookup(self.entries@, q) == if q == *pos {
                    None
                } else {
                    lookup(old(self).entries@, q)
                } by {}
            },
        }
    }

    /// `e` is the entry of some cell within `distance` steps of `pos`.
    pub open spec fn held_near(&self, pos: Pos, distance: int, e: T) -> bool {
        exists|q: Pos| on_grid(q) && hex_dist(pos, q) <= distance && #[trigger] lookup(self.entries@, q) == Some(e)
    }

    /// The entries within `distance` steps of `pos`.
    pub fn neighbors(&self, pos: &Pos, distance: usize) -> (r: Vec<&T>)
        requires
            self.wf(),
            on_grid(*pos),
            room_around(*pos, distance as int),
        ensures
            forall|k: int| 0 <= k < r@.len() ==> #[trigger] self.held_near(*pos, distance as int, *r@[k]),
    {
        let cells = pos.neighbors(distance);
        let mut n: Vec<&T> = Vec::new();
        let mut i: usize = 0;
        while i < cells.len()
            invariant
                self.wf(),
                i <= cells@.len(),
                forall|k: int| 0 <= k < cells@.len() ==> on_grid(#[trigger] cells@[k]) && hex_dist(*pos, cells@[k]) <= distance,
                forall|k: int| 0 <= k < n@.len() ==> #[trigger] self.held_near(*pos, distance as int, *n@[k]),
            decreases cells@.len() - i,
        {
            let c = cells[i];
            match self.get(&c) {
                Some(e) => {
                    let ghost before = n@;
                    n.push(e);
                    assert(lookup(self.entries@, cells@[i as int]) == Some(*e));
                    assert forall|k: int| 0 <= k < n@.len() implies #[trigger] self.held_near(*pos, distance as int, *n@[k]) by {
                        if k < before.len() {
                            assert(n@[k] == before[k]);
                        }
                    }
                },
                None => {},
            }
            i = i + 1;
        }
        n
    }
}

} // verus!
