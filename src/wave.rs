//! Wave specifications and the wave scheduler.
use vstd::prelude::*;
use crate::assets::ImgID;

verus! {

/// One scripted batch of enemies.
#[derive(Debug, Clone, Copy, PartialEq, Eq, Structural)]
pub struct WaveSpec {
    /// Sub-pixel units an enemy walks per tick.
    pub speed: u64,
    pub health: usize,
    pub enemy_count: usize,
    /// Ticks between two spawns.
    pub spawn_delay: usize,
    pub img: ImgID,
}

/// Ticks of waiting before the first wave and between two waves.
pub const WAVE_PAUSE: usize = 300;

#[derive(Debug, Clone, Copy, PartialEq, Eq, Hash, Structural)]
pub enum WaveStatus {
    WaveFinished,
    Ongoing,
    Waiting(usize),
    Ready,
    LevelFinished,
}

pub struct Waves {
    /// Number of the current wave.
    pub id: usize,
    pub waves: Vec<WaveSpec>,
    pub status: WaveStatus,
    /// Ticks left before the next spawn.
    pub next_spawn: usize,
    /// Enemies spawned so far in the current wave.
    pub enemy_count: usize,
}

/// `b` and the result `r` are scheduler `a` one tick later, given whether
/// any enemy is alive: with no wave left the level is finished; a wait runs
/// down and then the next wave is ready; while a wave is on, one enemy is
/// spawned (returned) every `spawn_delay` ticks until its quota is reached,
/// and once no enemy is alive the wave is finished.
pub open spec fn wave_step(a: Waves, b: Waves, any_alive: bool, r: Option<WaveSpec>) -> bool {
    &&& b.waves@ == a.waves@
    &&& if a.id >= a.waves@.len() {
        &&& b.status == WaveStatus::LevelFinished
        &&& r is None
        &&& b.id == a.id && b.next_spawn == a.next_spawn && b.enemy_count == a.enemy_count
    } else {
        let wave = a.waves@[a.id as int];
        match a.status {
            WaveStatus::Waiting(n) => {
                &&& b.status == (if n > 0 { WaveStatus::Waiting((n - 1) as usize) } else { WaveStatus::Ready })
                &&& r is None
                &&& b.id == a.id && b.next_spawn == a.next_spawn && b.enemy_count == a.enemy_count
            },
            WaveStatus::Ongoing => {
                if a.enemy_count < wave.enemy_count {
                    &&& b.status == WaveStatus::Ongoing
                    &&& b.id == a.id
                    &&& a.next_spawn == 0 ==> r == Some(wave) && b.enemy_count == a.enemy_count + 1
                        && b.next_spawn == wave.spawn_delay
                    &&& a.next_spawn > 0 ==> r is None && b.enemy_count == a.enemy_count && b.next_spawn
                        == a.next_spawn - 1
                } else if !any_alive {
                    &&& b.status == WaveStatus::WaveFinished
                    &&& r is None
                    &&& b.id == a.id + 1 && b.next_spawn == 0 && b.enemy_count == 0
                } else {
                    &&& b.status == a.status
                    &&& r is None
                    &&& b.id == a.id && b.next_spawn == a.next_spawn && b.enemy_count == a.enemy_count
                }
            },
            _ => {
                &&& b.status == a.status
                &&& r is None
                &&& b.id == a.id && b.next_spawn == a.next_spawn && b.enemy_count == a.enemy_count
            },
        }
    }
}

/// `b` is scheduler `a` after the pause that follows a finished wave begins;
/// in any other state nothing changes.
pub open spec fn rested(a: Waves, b: Waves) -> bool {
    &&& b.status == (if a.status == WaveStatus::WaveFinished { WaveStatus::Waiting(WAVE_PAUSE) } else { a.status })
    &&& b.id == a.id
    &&& b.waves@ == a.waves@
    &&& b.next_spawn == a.next_spawn
    &&& b.enemy_count == a.enemy_count
}

impl Waves {
    /// The current wave is one of the list or just past its end.
    pub open spec fn wf(&self) -> bool {
        self.id <= self.waves@.len()
    }

    /// A scheduler over `waves`, waiting before the first.
    pub fn new(waves: Vec<WaveSpec>) -> (r: Self)
        ensures
            r.wf(),
            r.waves@ == waves@,
            r.id == 0,
            r.status == WaveStatus::Waiting(WAVE_PAUSE),
            r.next_spawn == 0,
            r.enemy_count == 0,
    {
        Self { id: 0, waves, status: WaveStatus::Waiting(WAVE_PAUSE), next_spawn: 0, enemy_count: 0 }
    }

    /// The wave under way or next to come.
    fn current_wave(&self) -> (r: WaveSpec)
        requires
            self.id < self.waves@.len(),
        ensures
            r == self.waves@[self.id as int],
    {
        self.waves[self.id]
    }

    /// Whether every wave has been played.
    fn is_finished(&self) -> (r: bool)
        ensures
            r == (self.id >= self.waves@.len()),
            self.waves@.len() <= usize::MAX,
    {
        self.id >= self.waves.len()
    }

    /// One tick of the scheduler (see [`wave_step`]); returns the wave whose
    /// enemy is to be spawned now, if any.
    pub fn tick(&mut self, any_alive: bool) -> (r: Option<WaveSpec>)
        requires
            old(self).wf(),
        ensures
            final(self).wf(),
            wave_step(*old(self), *final(self), any_alive, r),
    {
        if self.is_finished() {
            self.status = WaveStatus::LevelFinished;
            return None;
        }
        let wave = self.current_wave();
        match self.status {
            WaveStatus::Waiting(n) => {
                if n > 0 {
                    self.status = WaveStatus::Waiting(n - 1);
                } else {
                    self.status = WaveStatus::Ready;
                }
                return None;
            },
            WaveStatus::Ongoing => {},
            _ => {
                return None;
            },
        }
        if self.enemy_count < wave.enemy_count {
            if self.next_spawn == 0 {
                self.enemy_count = self.enemy_count + 1;
                self.next_spawn = wave.spawn_delay;
                return Some(wave);
            } else {
                self.next_spawn = self.next_spawn - 1;
            }
        } else if !any_alive {
            self.id = self.id + 1;
            self.next_spawn = 0;
            self.enemy_count = 0;
            self.status = WaveStatus::WaveFinished;
        }
        None
    }

    /// The external start signal: a ready wave goes under way; in any other
    /// state nothing happens. Returns whether it started.
    pub fn start(&mut self) -> (r: bool)
        ensures
            r == (old(self).status == WaveStatus::Ready),
            r ==> final(self).status == WaveStatus::Ongoing,
            !r ==> final(self).status == old(self).status,
            final(self).id == old(self).id,
            final(self).waves@ == old(self).waves@,
            final(self).next_spawn == old(self).next_spawn,
            final(self).enemy_count == old(self).enemy_count,
    {
        match self.status {
            WaveStatus::Ready => {
                self.status = WaveStatus::Ongoing;
                true
            },
            _ => false,
        }
    }

    /// After a finished wave, the pause before the next begins; in any other
    /// state nothing happens.
    pub fn rest(&mut self)
        ensures
            rested(*old(self), *final(self)),
            old(self).status == WaveStatus::WaveFinished ==> final(self).status == WaveStatus::Waiting(WAVE_PAUSE),
            old(self).status != WaveStatus::WaveFinished ==> final(self).status == old(self).status,
            final(self).id == old(self).id,
            final(self).waves@ == old(self).waves@,
            final(self).next_spawn == old(self).next_spawn,
            final(self).enemy_count == old(self).enemy_count,
    {
        match self.status {
            WaveStatus::WaveFinished => {
                self.status = WaveStatus::Waiting(WAVE_PAUSE);
            },
            _ => {},
        }
    }

    /// A waiting scheduler stops waiting: the next tick makes the wave ready.
    pub fn skip_wait(&mut self)
        ensures
            old(self).status is Waiting ==> final(self).status == WaveStatus::Waiting(0),
            !(old(self).status is Waiting) ==> final(self).status == old(self).status,
            final(self).id == old(self).id,
            final(self).waves@ == old(self).waves@,
            final(self).next_spawn == old(self).next_spawn,
            final(self).enemy_count == old(self).enemy_count,
    {
        match self.status {
            WaveStatus::Waiting(_) => {
                self.status = WaveStatus::Waiting(0);
            },
            _ => {},
        }
    }
}

} // verus!
