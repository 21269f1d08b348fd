//! The player's purse and cards, and playing cards against the simulation.
use vstd::prelude::*;
use crate::card::{CardType, activation_cost_of, card_valid};
use crate::card_deck::{CardDeck, every_card};
use crate::enemies::{eligible, eligible_ids};
use crate::simulation::struck;
use crate::tower::{Tower, buff_added};
use crate::geometry::UNITS_PER_PIXEL;
use crate::map::{GameMap, tile_center_spec};
use crate::simulation::{AREA_RADIUS, Simulation};
use crate::tile::TileType;
use crate::wave::WaveStatus;

verus! {

pub struct Player {
    pub id: usize,
    /// Life left.
    pub hp: usize,
    pub gold: usize,
    pub deck: CardDeck,
}

/// `10` to the power `a`.
pub open spec fn pow10(a: nat) -> nat
    decreases a,
{
    if a == 0 {
        1
    } else {
        10 * pow10((a - 1) as nat)
    }
}

impl Player {
    /// A new player: ten lives, 300 gold, the starting cards, five drawn.
    pub fn new(id: usize) -> (r: Self)
        ensures
            r.id == id,
            r.hp == 10,
            r.gold == 300,
            r.deck.hand@ == seq![CardType::Tower, CardType::Coin(1)],
            r.deck.deck@.len() == 0,
            r.deck.discard@.len() == 0,
            r.deck.actions@ == seq![CardType::NextWave, CardType::Shop, CardType::DrawPile, CardType::DiscardPile],
    {
        let mut deck = CardDeck::new();
        deck.shuffle();
        let ghost h0 = deck.hand@;
        deck.draw(5);
        assert(deck.hand@ =~= deck.hand@.subrange(0, h0.len() as int));
        Player { id, hp: 10, gold: 300, deck }
    }

    /// A player for trying things out: plenty of life and gold, every card.
    pub fn debug(id: usize) -> (r: Self)
        ensures
            r.id == id,
            r.hp == 1337,
            r.gold == 9001,
            r.deck.hand@.len() == 5,
            (r.deck.hand@ + r.deck.deck@ + r.deck.discard@).to_multiset() == every_card().to_multiset(),
    {
        let mut deck = CardDeck::all();
        deck.shuffle();
        proof {
            assert(deck.hand@ + deck.deck@ + deck.discard@ =~= deck.deck@);
        }
        deck.draw(5);
        Player { id, hp: 1337, gold: 9001, deck }
    }

    /// Whether `card` can be played on cell `(x, y)` now: the player can pay
    /// for it and its target suits it.
    pub open spec fn applicable(&self, sim: Simulation, card: CardType, x: usize, y: usize) -> bool {
        &&& self.gold >= activation_cost_of(card, sim.towers.stats.price)
        &&& match card {
            CardType::Tower => sim.map.in_bounds(x as int, y as int) && sim.map.kind_spec(x as int, y as int)
                == TileType::Build && sim.towers.index_at(x, y) < 0,
            CardType::SellTower => sim.towers.index_at(x, y) >= 0,
            CardType::DamageEnemy => sim.map.in_bounds(x as int, y as int) && eligible_ids(
                sim.enemies.enemies@,
                tile_center_spec(x as int, y as int),
                (AREA_RADIUS * UNITS_PER_PIXEL as u64) as u64,
            ).len() > 0,
            CardType::Buff(b) => sim.towers.index_at(x, y) >= 0 && sim.towers.built@[sim.towers.index_at(
                x,
                y,
            )].can_have_buff_spec(b),
            _ => false,
        }
    }

    pub fn is_applicable(&self, sim: &Simulation, card: CardType, x: usize, y: usize) -> (r: bool)
        requires
            sim.wf(),
        ensures
            r == self.applicable(*sim, card, x, y),
    {
        if self.gold < card.activation_cost(sim.towers.stats.price) {
            return false;
        }
        match card {
            CardType::Tower => {
                x < sim.map.xsize && y < sim.map.ysize && sim.map.is_buildable(x, y) && !sim.towers.has_building(x, y)
            },
            CardType::SellTower => sim.towers.has_building(x, y),
            CardType::DamageEnemy => {
                if x < sim.map.xsize && y < sim.map.ysize {
                    let center = GameMap::tile_center(x, y);
                    sim.enemies.in_range(center, AREA_RADIUS * UNITS_PER_PIXEL as u64).len() > 0
                } else {
                    false
                }
            },
            CardType::Buff(b) => match sim.towers.get_tower(x, y) {
                Some(t) => t.can_have_buff(&b),
                None => false,
            },
            _ => false,
        }
    }

    /// Plays `card` on cell `(x, y)`: the player pays for it and its effect
    /// takes place (a tower built or sold, an area strike, a buff).
    pub fn activate(&mut self, sim: &mut Simulation, card: CardType, x: usize, y: usize)
        requires
            old(sim).wf(),
            old(self).applicable(*old(sim), card, x, y),
        ensures
            final(sim).wf(),
            final(self).gold == old(self).gold - activation_cost_of(card, old(sim).towers.stats.price),
            final(self).deck == old(self).deck,
            final(self).hp == old(self).hp,
            final(sim).map == old(sim).map,
            final(sim).projectiles == old(sim).projectiles,
            final(sim).waves == old(sim).waves,
            final(sim).life == old(sim).life,
            !(card is DamageEnemy) ==> final(sim).enemies == old(sim).enemies,
            !(card is Tower || card is SellTower || card is Buff) ==> final(sim).towers == old(sim).towers,
            card is Tower && old(sim).towers.next_tower_id < usize::MAX ==> final(sim).towers.built@
                == old(sim).towers.built@.push(
                Tower {
                    id: old(sim).towers.next_tower_id,
                    cooldown: 0,
                    map_position: (x, y),
                    buffs: final(sim).towers.built@.last().buffs,
                },
            ) && final(sim).towers.built@.last().buffs@.len() == 0,
            card is SellTower ==> final(sim).towers.built@ == old(sim).towers.built@.remove(
                old(sim).towers.index_at(x, y),
            ),
            card is DamageEnemy ==> forall|k: int|
                0 <= k < old(sim).enemies.enemies@.len() ==> #[trigger] final(sim).enemies.enemies@[k] == if eligible(
                    old(sim).enemies.enemies@[k].1,
                    tile_center_spec(x as int, y as int),
                    (AREA_RADIUS * UNITS_PER_PIXEL as u64) as u64,
                ) {
                    (old(sim).enemies.enemies@[k].0, struck(old(sim).enemies.enemies@[k].1))
                } else {
                    old(sim).enemies.enemies@[k]
                },
            card is DamageEnemy ==> final(sim).enemies.enemies@.len() == old(sim).enemies.enemies@.len(),
            card matches CardType::Buff(b) ==> {
                let i = old(sim).towers.index_at(x, y);
                let tables = old(sim).towers.buff_stats@;
                &&& final(sim).towers.built@.len() == old(sim).towers.built@.len()
                &&& forall|j: int|
                    0 <= j < old(sim).towers.built@.len() && j != i ==> #[trigger] final(sim).towers.built@[j]
                        == old(sim).towers.built@[j]
                &&& (exists|k: int| 0 <= k < tables.len() && (#[trigger] tables[k]).kind == b) ==> buff_added(
                    old(sim).towers.built@[i],
                    final(sim).towers.built@[i],
                    tables[choose|k: int| 0 <= k < tables.len() && (#[trigger] tables[k]).kind == b],
                    true,
                )
                &&& !(exists|k: int| 0 <= k < tables.len() && (#[trigger] tables[k]).kind == b) ==> final(sim).towers.built@
                    == old(sim).towers.built@
            },
    {
        let cost = card.activation_cost(sim.towers.stats.price);
        self.gold = self.gold - cost;
        match card {
            CardType::Tower => {
                sim.build_tower(x, y);
            },
            CardType::SellTower => {
                sim.sell_tower(x, y);
            },
            CardType::DamageEnemy => {
                sim.damage_enemies_in_area(x, y);
            },
            CardType::Buff(b) => {
                let applied = sim.apply_buff(x, y, b);
                proof {
                    let tables = old(sim).towers.buff_stats@;
                    if exists|k: int| 0 <= k < tables.len() && (#[trigger] tables[k]).kind == b {
                        let i = old(sim).towers.index_at(x, y);
                        let t = tables[choose|k: int| 0 <= k < tables.len() && (#[trigger] tables[k]).kind == b];
                        assert(buff_added(old(sim).towers.built@[i], sim.towers.built@[i], t, applied));
                        assert(t.kind == b);
                        assert(applied);
                    }
                }
            },
            _ => {},
        }
    }

    /// Plays a card that needs no target, from hand slot `slot`: a coin
    /// brings 10, 100 or 1000 gold, a draw card draws two more cards (both
    /// leave the hand for the discard pile), and the next-wave card ends a
    /// wait. Returns whether the card was one of these.
    pub fn play_instant(&mut self, sim: &mut Simulation, card: CardType, slot: usize) -> (r: bool)
        requires
            old(sim).wf(),
            card_valid(card),
            slot < old(self).deck.hand@.len() ==> old(self).deck.hand@[slot as int] != CardType::Empty,
            old(self).deck.hand@.len() + 2 <= usize::MAX,
        ensures
            final(sim).wf(),
            r == (card is Coin || card is Take2 || card is NextWave),
            card matches CardType::Coin(a) ==> final(self).gold == if old(self).gold + pow10(a as nat) <= usize::MAX {
                old(self).gold + pow10(a as nat)
            } else {
                usize::MAX as int
            },
            !(card is Coin) ==> final(self).gold == old(self).gold,
            card is NextWave ==> (old(sim).waves.status is Waiting ==> final(sim).waves.status == WaveStatus::Waiting(0)),
            card is NextWave ==> (!(old(sim).waves.status is Waiting) ==> final(sim).waves.status == old(sim).waves.status),
            card is NextWave ==> final(sim).waves.id == old(sim).waves.id && final(sim).waves.waves@ == old(sim).waves.waves@
                && final(sim).waves.next_spawn == old(sim).waves.next_spawn && final(sim).waves.enemy_count
                == old(sim).waves.enemy_count,
            !(card is NextWave) ==> final(sim).waves == old(sim).waves,
            !(card is Coin || card is Take2) ==> final(self).deck == old(self).deck,
            final(sim).map == old(sim).map,
            final(sim).enemies == old(sim).enemies,
            final(sim).towers == old(sim).towers,
            final(sim).projectiles == old(sim).projectiles,
            final(sim).life == old(sim).life,
            final(self).hp == old(self).hp,
            final(self).id == old(self).id,
    {
        match card {
            CardType::Coin(a) => {
                let amount: usize = if a == 1 {
                    10
                } else if a == 2 {
                    100
                } else {
                    1000
                };
                proof {
                    reveal_with_fuel(pow10, 4);
                    assert(pow10(1) == 10 && pow10(2) == 100 && pow10(3) == 1000);
                }
                self.gold = self.gold.saturating_add(amount);
                self.deck.card_used(slot);
                true
            },
            CardType::Take2 => {
                self.deck.draw(2);
                if slot < self.deck.hand.len() && self.deck.hand[slot] != CardType::Empty {
                    self.deck.card_used(slot);
                }
                true
            },
            CardType::NextWave => {
                sim.waves.skip_wait();
                true
            },
            _ => false,
        }
    }
}

} // verus!
