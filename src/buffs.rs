//! Tower buffs: kinds, per-level stat tables and upgradeable buff instances.
use vstd::prelude::*;
use vstd::string::StringExecFns;
use crate::text::{decimal, number_text};

verus! {

/// Highest level a buff can be upgraded to.
pub const MAX_BUFF_LEVEL: usize = 5;

#[derive(Debug, Clone, Copy, PartialEq, Eq, Hash, Structural)]
pub enum BuffType {
    Freeze,
    Damage,
    RPM,
    Range,
    Aura,
}

/// Per-level stat table of one buff kind. Entry `l` of each table holds the
/// value at level `l`; a level past the end of a table has the value 0.
#[derive(Debug)]
pub struct BuffStats {
    pub kind: BuffType,
    pub level_to_effectiveness: Vec<usize>,
    pub level_to_cooldown: Vec<usize>,
    pub level_to_price: Vec<usize>,
}

/// The value a level table gives for `level`.
pub open spec fn table_at(table: Seq<usize>, level: int) -> nat {
    if 0 <= level < table.len() {
        table[level] as nat
    } else {
        0
    }
}

/// Reads a level table; absent levels are worth 0.
pub fn table_lookup(table: &Vec<usize>, level: usize) -> (r: usize)
    ensures
        r == table_at(table@, level as int),
{
    if level < table.len() {
        table[level]
    } else {
        0
    }
}

fn copy_table(t: &Vec<usize>) -> (r: Vec<usize>)
    ensures
        r@ == t@,
{
    let mut r: Vec<usize> = Vec::new();
    let mut i: usize = 0;
    while i < t.len()
        invariant
            i <= t.len(),
            r@ == t@.subrange(0, i as int),
        decreases t.len() - i,
    {
        r.push(t[i]);
        i = i + 1;
    }
    assert(r@ =~= t@);
    r
}

impl BuffStats {
    /// A copy of these tables.
    pub fn duplicate(&self) -> (r: BuffStats)
        ensures
            r.kind == self.kind,
            r.level_to_effectiveness@ == self.level_to_effectiveness@,
            r.level_to_cooldown@ == self.level_to_cooldown@,
            r.level_to_price@ == self.level_to_price@,
    {
        BuffStats {
            kind: self.kind,
            level_to_effectiveness: copy_table(&self.level_to_effectiveness),
            level_to_cooldown: copy_table(&self.level_to_cooldown),
            level_to_price: copy_table(&self.level_to_price),
        }
    }
}

/// A buff held by a tower: its kind's stat tables and its current level.
#[derive(Debug)]
pub struct Buff {
    pub stats: BuffStats,
    pub level: usize,
}

/// Name of a buff kind as shown to the player.
pub open spec fn kind_name(kind: BuffType) -> Seq<char> {
    match kind {
        BuffType::Freeze => "Freeze"@,
        BuffType::Damage => "Damage"@,
        BuffType::RPM => "RPM"@,
        BuffType::Range => "Range"@,
        BuffType::Aura => "Aura"@,
    }
}

impl Buff {
    /// The buff's kind.
    pub open spec fn kind(&self) -> BuffType {
        self.stats.kind
    }

    /// Effectiveness at the current level.
    pub open spec fn effectiveness_spec(&self) -> nat {
        table_at(self.stats.level_to_effectiveness@, self.level as int)
    }

    /// A new buff of the given kind at level 1.
    pub fn new(stats: &BuffStats) -> (r: Self)
        ensures
            r.level == 1,
            r.stats.kind == stats.kind,
            r.stats.level_to_effectiveness@ == stats.level_to_effectiveness@,
            r.stats.level_to_cooldown@ == stats.level_to_cooldown@,
            r.stats.level_to_price@ == stats.level_to_price@,
    {
        Self { stats: stats.duplicate(), level: 1 }
    }

    /// A copy of this buff.
    pub fn duplicate(&self) -> (r: Buff)
        ensures
            r.level == self.level,
            r.stats.kind == self.stats.kind,
            r.stats.level_to_effectiveness@ == self.stats.level_to_effectiveness@,
            r.stats.level_to_cooldown@ == self.stats.level_to_cooldown@,
            r.stats.level_to_price@ == self.stats.level_to_price@,
            r.effectiveness_spec() == self.effectiveness_spec(),
    {
        Buff { stats: self.stats.duplicate(), level: self.level }
    }

    pub fn effectiveness(&self) -> (r: usize)
        ensures
            r == self.effectiveness_spec(),
    {
        table_lookup(&self.stats.level_to_effectiveness, self.level)
    }

    pub fn cooldown(&self) -> (r: usize)
        ensures
            r == table_at(self.stats.level_to_cooldown@, self.level as int),
    {
        table_lookup(&self.stats.level_to_cooldown, self.level)
    }

    /// Raises the level by one, unless it is already the highest.
    pub fn upgrade(&mut self)
        ensures
            final(self).stats == old(self).stats,
            final(self).level == if old(self).level < MAX_BUFF_LEVEL {
                old(self).level + 1
            } else {
                old(self).level as int
            },
    {
        if self.upgradeable() {
            self.level = self.level + 1;
        }
    }

    pub fn upgradeable(&self) -> (r: bool)
        ensures
            r == (self.level < MAX_BUFF_LEVEL),
    {
        self.level < MAX_BUFF_LEVEL
    }

    /// Kind and level, as in `"Damage: 3"`.
    pub fn info(&self) -> (r: String)
        ensures
            r@ == kind_name(self.stats.kind) + ": "@ + decimal(self.level as nat),
    {
        let name: &str = match self.stats.kind {
            BuffType::Freeze => "Freeze",
            BuffType::Damage => "Damage",
            BuffType::RPM => "RPM",
            BuffType::Range => "Range",
            BuffType::Aura => "Aura",
        };
        proof {
            reveal_strlit("Freeze");
            reveal_strlit("Damage");
            reveal_strlit("RPM");
            reveal_strlit("Range");
            reveal_strlit("Aura");
            reveal_strlit(": ");
        }
        let s = String::from_str(name);
        let s = s.concat(": ");
        let digits = number_text(self.level as u64);
        s.concat(digits.as_str())
    }
}

/// Index of the first buff of `kind` in `buffs`, or -1 when there is none.
pub open spec fn index_of_kind(buffs: Seq<Buff>, kind: BuffType) -> int
    decreases buffs.len(),
{
    if buffs.len() == 0 {
        -1
    } else {
        let r = index_of_kind(buffs.drop_last(), kind);
        if r >= 0 {
            r
        } else if buffs.last().stats.kind == kind {
            buffs.len() - 1
        } else {
            -1
        }
    }
}

/// Level of the buff of `kind` in `buffs`, 0 when there is none.
pub open spec fn level_of(buffs: Seq<Buff>, kind: BuffType) -> nat {
    let i = index_of_kind(buffs, kind);
    if i >= 0 {
        buffs[i].level as nat
    } else {
        0
    }
}

/// Effectiveness of the buff of `kind` in `buffs`, 0 when there is none.
pub open spec fn effect_of(buffs: Seq<Buff>, kind: BuffType) -> nat {
    let i = index_of_kind(buffs, kind);
    if i >= 0 {
        buffs[i].effectiveness_spec()
    } else {
        0
    }
}

/// No two buffs share a kind.
pub open spec fn kinds_unique(buffs: Seq<Buff>) -> bool {
    forall|i: int, j: int|
        0 <= i < buffs.len() && 0 <= j < buffs.len() && i != j ==> (#[trigger] buffs[i]).stats.kind
            != (#[trigger] buffs[j]).stats.kind
}

pub proof fn lemma_index_of_kind(buffs: Seq<Buff>, kind: BuffType)
    ensures
        -1 <= index_of_kind(buffs, kind) < buffs.len(),
        index_of_kind(buffs, kind) >= 0 ==> buffs[index_of_kind(buffs, kind)].stats.kind == kind,
        index_of_kind(buffs, kind) >= 0 ==> forall|j: int|
            0 <= j < index_of_kind(buffs, kind) ==> (#[trigger] buffs[j]).stats.kind != kind,
        index_of_kind(buffs, kind) < 0 ==> forall|j: int| 0 <= j < buffs.len() ==> (#[trigger] buffs[j]).stats.kind != kind,
    decreases buffs.len(),
{
    if buffs.len() > 0 {
        lemma_index_of_kind(buffs.drop_last(), kind);
        let d = buffs.drop_last();
        let r = index_of_kind(d, kind);
        if r >= 0 {
            assert forall|j: int| 0 <= j < r implies (#[trigger] buffs[j]).stats.kind != kind by {
                assert(buffs[j] == d[j]);
            }
        } else if buffs.last().stats.kind != kind {
            assert forall|j: int| 0 <= j < buffs.len() implies (#[trigger] buffs[j]).stats.kind != kind by {
                if j < buffs.len() - 1 {
                    assert(buffs[j] == d[j]);
                }
            }
        } else {
            assert forall|j: int| 0 <= j < buffs.len() - 1 implies (#[trigger] buffs[j]).stats.kind != kind by {
                assert(buffs[j] == d[j]);
            }
        }
    }
}

/// With unique kinds, the buff of `kind` is the one at any index holding that kind.
pub proof fn lemma_index_of_unique(buffs: Seq<Buff>, kind: BuffType, i: int)
    requires
        kinds_unique(buffs),
        0 <= i < buffs.len(),
        buffs[i].stats.kind == kind,
    ensures
        index_of_kind(buffs, kind) == i,
{
    lemma_index_of_kind(buffs, kind);
}

/// Position of the buff of `kind` in `buffs`.
pub fn find_buff(buffs: &Vec<Buff>, kind: BuffType) -> (r: Option<usize>)
    ensures
        r matches Some(i) ==> i == index_of_kind(buffs@, kind) && i < buffs@.len(),
        r is None ==> index_of_kind(buffs@, kind) == -1,
{
    proof {
        lemma_index_of_kind(buffs@, kind);
    }
    let mut i: usize = 0;
    while i < buffs.len()
        invariant
            i <= buffs@.len(),
            forall|j: int| 0 <= j < i ==> (#[trigger] buffs@[j]).stats.kind != kind,
        decreases buffs@.len() - i,
    {
        if buffs[i].stats.kind == kind {
            proof {
                lemma_index_of_kind(buffs@, kind);
                let r = index_of_kind(buffs@, kind);
                if r >= 0 && r != i {
                    assert(buffs@[r].stats.kind == kind);
                }
            }
            return Some(i);
        }
        i = i + 1;
    }
    None
}

} // verus!
