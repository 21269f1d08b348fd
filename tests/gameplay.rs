use hex_td::assets::ImgID;
use hex_td::card::CardType;
use hex_td::overlays::CursorMode;
use hex_td::player::Player;
use hex_td::buffs::{BuffStats, BuffType};
use hex_td::debuffs::Debuff;
use hex_td::direction::Dir;
use hex_td::enemies::Enemies;
use hex_td::enemy::Enemy;
use hex_td::geometry::Point;
use hex_td::map::GameMap;
use hex_td::projectiles::{Projectile, Projectiles};
use hex_td::simulation::Simulation;
use hex_td::tile::TileType;
use hex_td::tower::Tower;
use hex_td::tower_stats::TowerStats;
use hex_td::towers::Towers;
use hex_td::wave::{WaveSpec, WaveStatus, Waves};

fn corridor() -> GameMap {
    let b = TileType::Build;
    let w = TileType::Walk(Dir::East);
    let kinds = vec![
        vec![b, b, b, b, b],
        vec![TileType::Spawn, w, w, w, TileType::Target],
        vec![b, b, b, b, b],
    ];
    GameMap::new(&kinds).expect("the corridor map is playable")
}

fn table(kind: BuffType, step: usize) -> BuffStats {
    BuffStats {
        kind,
        level_to_effectiveness: (0..=5).map(|l| l * step).collect(),
        level_to_cooldown: vec![0, 60, 60, 60, 60, 60],
        level_to_price: vec![0, 10, 20, 30, 40, 50],
    }
}

fn all_tables() -> Vec<BuffStats> {
    vec![
        table(BuffType::Freeze, 10),
        table(BuffType::Damage, 25),
        table(BuffType::RPM, 30),
        table(BuffType::Range, 20),
        table(BuffType::Aura, 1),
    ]
}

fn base_stats(rpm: usize) -> TowerStats {
    TowerStats { damage: 10, projectile_speed: 50, range: 2000, rpm, price: 60 }
}

fn wave(speed: u64, health: usize) -> WaveSpec {
    WaveSpec { speed, health, enemy_count: 2, spawn_delay: 3, img: ImgID::Zombie }
}

#[test]
fn tower_fires_once_per_sixty_ticks() {
    let mut towers = Towers::new(base_stats(60), all_tables()).unwrap();
    assert_eq!(towers.spawn(Tower::new((1, 0))), Some(0));
    let mut enemies = Enemies::new();
    let pos = GameMap::tile_center(2, 0);
    enemies.spawn(Enemy::new(pos, (2, 0), &wave(0, 1_000_000))).unwrap();
    let mut projectiles = Projectiles::new();
    let mut fired_at = Vec::new();
    for t in 0..240 {
        if towers.tick(&enemies, &mut projectiles) == 1 {
            fired_at.push(t);
        }
    }
    assert_eq!(fired_at, vec![0, 60, 120, 180]);
    assert_eq!(projectiles.projectiles.len(), 4);
}

#[test]
fn lethal_hit_removes_enemy_next_tick() {
    let map = corridor();
    let mut enemies = Enemies::new();
    let pos = GameMap::tile_center(1, 1);
    let id = enemies.spawn(Enemy::new(pos, (1, 1), &wave(0, 150))).unwrap();
    let mut projectile = Projectile::new(pos, 0, id, 150, 10);
    assert!(projectile.tick(&mut enemies));
    assert_eq!(enemies.enemies[0].1.health, 0);
    assert_eq!(enemies.enemies.len(), 1);
    enemies.tick(&map);
    assert!(enemies.enemies.is_empty());
}

#[test]
fn aura_adds_to_own_buff_once() {
    let mut towers = Towers::new(base_stats(60), all_tables()).unwrap();
    towers.spawn(Tower::new((1, 0))).unwrap();
    towers.spawn(Tower::new((2, 0))).unwrap();
    assert!(towers.add_buff_at_pos(1, 0, BuffType::Damage));
    assert!(towers.add_buff_at_pos(2, 0, BuffType::Damage));
    assert!(towers.add_buff_at_pos(1, 0, BuffType::Aura));
    let plain = towers.stats_at(2, 0).unwrap();
    let caster = towers.stats_at(1, 0).unwrap();
    assert_eq!(plain.damage, 10 + 25 + 25);
    assert_eq!(caster.damage, 10 + 25);
}

#[test]
fn waiting_zero_becomes_ready_then_ongoing_on_start() {
    let mut waves = Waves::new(vec![wave(5, 10)]);
    waves.skip_wait();
    assert_eq!(waves.status, WaveStatus::Waiting(0));
    assert_eq!(waves.tick(false), None);
    assert_eq!(waves.status, WaveStatus::Ready);
    waves.tick(false);
    assert_eq!(waves.status, WaveStatus::Ready);
    assert!(waves.start());
    assert_eq!(waves.status, WaveStatus::Ongoing);
}

#[test]
fn enemy_on_target_costs_one_life_and_leaves() {
    let map = corridor();
    let towers = Towers::new(base_stats(60), all_tables()).unwrap();
    let mut sim = Simulation::new(map, towers, Waves::new(vec![wave(5, 10)]), 10);
    let pos = GameMap::tile_center(4, 1);
    sim.enemies.spawn(Enemy::new(pos, (4, 1), &wave(5, 10))).unwrap();
    let report = sim.tick();
    assert_eq!(report.arrived, 1);
    assert_eq!(sim.life, 9);
    assert!(sim.enemies.enemies.is_empty());
}

#[test]
fn enemy_walks_the_corridor_to_the_target() {
    let map = corridor();
    let mut enemies = Enemies::new();
    let start = GameMap::tile_center(0, 1);
    enemies.spawn(Enemy::new(start, (0, 1), &wave(690, 10))).unwrap();
    let mut lost = 0;
    for _ in 0..10 {
        lost += enemies.tick(&map);
    }
    assert_eq!(lost, 1);
    assert!(enemies.enemies.is_empty());
}

#[test]
fn freeze_slows_by_the_strongest_debuff() {
    let mut e = Enemy::new(Point::new(0, 0), (0, 0), &wave(100, 10));
    assert_eq!(e.get_walk_speed(), 100);
    e.debuffs.push(Debuff { kind: BuffType::Damage, cooldown: 5, effectiveness: 90 });
    assert_eq!(e.get_walk_speed(), 100);
    e.debuffs.push(Debuff { kind: BuffType::Freeze, cooldown: 5, effectiveness: 30 });
    e.debuffs.push(Debuff { kind: BuffType::Freeze, cooldown: 5, effectiveness: 50 });
    assert_eq!(e.get_walk_speed(), 50);
    assert!(e.get_walk_speed() < e.walk_speed);
}

#[test]
fn buffed_stats_never_below_base() {
    let mut towers = Towers::new(base_stats(60), all_tables()).unwrap();
    towers.spawn(Tower::new((1, 0))).unwrap();
    for _ in 0..6 {
        assert!(towers.add_buff_at_pos(1, 0, BuffType::Damage));
        assert!(towers.add_buff_at_pos(1, 0, BuffType::RPM));
    }
    assert!(!towers.add_buff_at_pos(1, 0, BuffType::Range));
    let s = towers.stats_at(1, 0).unwrap();
    assert_eq!(s.damage, 10 + 125);
    assert_eq!(s.rpm, 60 + 150);
    assert_eq!(s.range, 2000);
    assert!(s.damage >= 10 && s.rpm >= 60 && s.range >= 2000);
}

#[test]
fn selling_an_empty_cell_changes_nothing() {
    let map = corridor();
    let towers = Towers::new(base_stats(60), all_tables()).unwrap();
    let mut sim = Simulation::new(map, towers, Waves::new(vec![]), 10);
    assert!(sim.build_tower(0, 0));
    sim.sell_tower(1, 0);
    assert_eq!(sim.towers.built.len(), 1);
    sim.sell_tower(0, 0);
    assert_eq!(sim.towers.built.len(), 0);
    sim.sell_tower(0, 0);
    assert_eq!(sim.towers.built.len(), 0);
}

#[test]
fn build_is_refused_off_buildable_or_occupied_cells() {
    let map = corridor();
    let towers = Towers::new(base_stats(60), all_tables()).unwrap();
    let mut sim = Simulation::new(map, towers, Waves::new(vec![]), 10);
    assert!(!sim.build_tower(1, 1));
    assert!(!sim.build_tower(9, 9));
    assert!(sim.build_tower(2, 2));
    assert!(!sim.build_tower(2, 2));
    assert_eq!(sim.towers.built.len(), 1);
}

#[test]
fn area_strike_hits_enemies_near_the_cell() {
    let map = corridor();
    let towers = Towers::new(base_stats(60), all_tables()).unwrap();
    let mut sim = Simulation::new(map, towers, Waves::new(vec![]), 10);
    sim.enemies.spawn(Enemy::new(GameMap::tile_center(1, 1), (1, 1), &wave(0, 200))).unwrap();
    sim.enemies.spawn(Enemy::new(GameMap::tile_center(4, 1), (4, 1), &wave(0, 200))).unwrap();
    assert_eq!(sim.damage_enemies_in_area(1, 1), 1);
    assert_eq!(sim.enemies.enemies[0].1.health, 50);
    assert_eq!(sim.enemies.enemies[1].1.health, 200);
    assert_eq!(sim.damage_enemies_in_area(1, 1), 1);
    assert_eq!(sim.enemies.enemies[0].1.health, 0);
}

#[test]
fn waves_spawn_on_cadence_and_finish() {
    let mut waves = Waves::new(vec![wave(5, 10)]);
    waves.skip_wait();
    waves.tick(false);
    assert!(waves.start());
    let spawns: Vec<bool> = (0..6).map(|_| waves.tick(true).is_some()).collect();
    assert_eq!(spawns, vec![true, false, false, false, true, false]);
    assert_eq!(waves.enemy_count, 2);
    assert_eq!(waves.tick(true), None);
    assert_eq!(waves.status, WaveStatus::Ongoing);
    waves.tick(false);
    assert_eq!(waves.status, WaveStatus::WaveFinished);
    waves.rest();
    assert_eq!(waves.status, WaveStatus::Waiting(300));
    waves.tick(false);
    assert_eq!(waves.status, WaveStatus::LevelFinished);
}

#[test]
fn simulation_spawns_from_the_last_spawn_cell() {
    let map = corridor();
    let towers = Towers::new(base_stats(60), all_tables()).unwrap();
    let mut sim = Simulation::new(map, towers, Waves::new(vec![wave(5, 10)]), 10);
    sim.waves.skip_wait();
    sim.tick();
    assert!(sim.waves.start());
    let report = sim.tick();
    assert_eq!(report.spawned, Some(GameMap::tile_center(0, 1)));
    assert_eq!(sim.enemies.enemies.len(), 1);
}

#[test]
fn projectile_keeps_strongest_debuff_per_kind() {
    let mut p = Projectile::new(Point::new(0, 0), 0, 0, 1, 1);
    p.add_debuff(Debuff { kind: BuffType::Freeze, cooldown: 3, effectiveness: 20 });
    p.add_debuff(Debuff { kind: BuffType::Freeze, cooldown: 3, effectiveness: 10 });
    p.add_debuff(Debuff { kind: BuffType::Damage, cooldown: 3, effectiveness: 5 });
    p.add_debuff(Debuff { kind: BuffType::Freeze, cooldown: 4, effectiveness: 40 });
    assert_eq!(p.debuffs.len(), 2);
    assert_eq!(p.debuffs[0].effectiveness, 40);
    assert_eq!(p.debuffs[1].kind, BuffType::Damage);
}

#[test]
fn debuffs_count_down_and_expire() {
    let map = corridor();
    let mut e = Enemy::new(GameMap::tile_center(1, 1), (1, 1), &wave(0, 10));
    e.debuffs.push(Debuff { kind: BuffType::Freeze, cooldown: 1, effectiveness: 50 });
    e.debuffs.push(Debuff { kind: BuffType::Freeze, cooldown: 3, effectiveness: 20 });
    e.tick(&map);
    assert_eq!(e.debuffs.len(), 1);
    assert_eq!(e.debuffs[0].cooldown, 2);
}

#[test]
fn tower_buff_capacity_is_two_kinds() {
    let tables = all_tables();
    let mut t = Tower::new((0, 0));
    assert!(t.add_buff(&tables[0]));
    assert!(t.add_buff(&tables[1]));
    assert!(!t.can_have_buff(&BuffType::Aura));
    assert!(!t.add_buff(&tables[4]));
    assert!(t.add_buff(&tables[0]));
    assert_eq!(t.buffs.len(), 2);
    assert_eq!(t.buffs[0].level, 2);
    assert_eq!(t.aura_level(), 0);
}

#[test]
fn towers_new_rejects_zero_rate_and_duplicate_tables() {
    assert!(Towers::new(base_stats(0), all_tables()).is_none());
    let mut tables = all_tables();
    tables.push(table(BuffType::Damage, 5));
    assert!(Towers::new(base_stats(60), tables).is_none());
}

#[test]
fn nearest_cell_of_a_point() {
    assert_eq!(GameMap::tile_index_at(GameMap::tile_center(2, 1)), (2, 1));
    assert_eq!(GameMap::tile_index_at(GameMap::tile_center(0, 0)), (0, 0));
    assert_eq!(GameMap::tile_index_at(Point::new(-50, -50)), (0, 0));
    let map = corridor();
    assert_eq!(map.tile_at(GameMap::tile_center(4, 1)), Some(TileType::Target));
    assert_eq!(map.tile_at(GameMap::tile_center(9, 9)), None);
}

#[test]
fn playing_cards_against_the_simulation() {
    let map = corridor();
    let towers = Towers::new(base_stats(60), all_tables()).unwrap();
    let mut sim = Simulation::new(map, towers, Waves::new(vec![wave(5, 10)]), 10);
    let mut player = Player::new(42);
    assert_eq!((player.hp, player.gold), (10, 300));
    assert_eq!(player.deck.hand.len(), 2);
    assert!(player.is_applicable(&sim, CardType::Tower, 1, 0));
    assert!(!player.is_applicable(&sim, CardType::Tower, 1, 1));
    assert!(!player.is_applicable(&sim, CardType::SellTower, 1, 0));
    player.activate(&mut sim, CardType::Tower, 1, 0);
    assert_eq!(player.gold, 240);
    assert_eq!(sim.towers.built.len(), 1);
    assert!(player.is_applicable(&sim, CardType::Buff(BuffType::Freeze), 1, 0));
    player.activate(&mut sim, CardType::Buff(BuffType::Freeze), 1, 0);
    assert_eq!(player.gold, 230);
    assert!(!player.is_applicable(&sim, CardType::DamageEnemy, 1, 1));
    player.gold = 50;
    assert!(!player.is_applicable(&sim, CardType::Tower, 2, 0));
    player.gold = 100;
    assert!(player.play_instant(&mut sim, CardType::Coin(2), 1));
    assert_eq!(player.gold, 200);
    assert!(player.play_instant(&mut sim, CardType::NextWave, 0));
    assert_eq!(sim.waves.status, WaveStatus::Waiting(0));
    assert!(!player.play_instant(&mut sim, CardType::Shop, 0));
}

#[test]
fn card_prices() {
    assert_eq!(CardType::Tower.activation_cost(60), 60);
    assert_eq!(CardType::DamageEnemy.activation_cost(60), 150);
    assert_eq!(CardType::Coin(1).activation_cost(60), 0);
    assert_eq!(CardType::Buff(BuffType::Aura).aquisition_cost(), 300);
    assert_eq!(CardType::Buff(BuffType::Range).aquisition_cost(), 100);
    assert_eq!(CardType::Coin(3).aquisition_cost(), 5000);
}

#[test]
fn cursor_wraps_round() {
    let c = CursorMode::OnMap { x: 0, y: 2, card: CardType::Tower, slot: 1 };
    assert_eq!(c.moved(-1, 1, 5, 3, 4), CursorMode::OnMap { x: 4, y: 0, card: CardType::Tower, slot: 1 });
    assert_eq!(CursorMode::Actions(3).moved(1, 0, 5, 3, 4), CursorMode::Actions(0));
    assert_eq!(CursorMode::Actions(3).moved(1, 0, 5, 3, 0), CursorMode::Actions(3));
}

#[test]
fn finished_wave_rests_within_the_tick() {
    let map = corridor();
    let towers = Towers::new(base_stats(60), all_tables()).unwrap();
    let spec = WaveSpec { speed: 5, health: 10, enemy_count: 0, spawn_delay: 3, img: ImgID::Zombie };
    let mut sim = Simulation::new(map, towers, Waves::new(vec![spec, spec]), 10);
    sim.waves.skip_wait();
    sim.tick();
    assert!(sim.waves.start());
    sim.tick();
    assert_eq!(sim.waves.status, WaveStatus::Waiting(300));
    assert_eq!(sim.waves.id, 1);
}

#[test]
fn draw_takes_what_is_left() {
    let mut deck = hex_td::card_deck::CardDeck::all();
    deck.draw(20);
    assert_eq!(deck.hand.len(), 11);
    assert!(deck.deck.is_empty() && deck.discard.is_empty());
}

#[test]
fn spawn_keeps_a_towers_buffs() {
    let tables = all_tables();
    let mut towers = Towers::new(base_stats(60), all_tables()).unwrap();
    let mut t = Tower::new((3, 0));
    assert!(t.add_buff(&tables[1]));
    assert!(t.add_buff(&tables[1]));
    assert_eq!(towers.spawn(t), Some(0));
    assert_eq!(towers.built.len(), 1);
    assert_eq!(towers.built[0].buffs.len(), 1);
    assert_eq!(towers.built[0].buffs[0].level, 2);
    assert_eq!(towers.stats_at(3, 0).unwrap().damage, 10 + 50);
    assert_eq!(towers.spawn(Tower::new((3, 0))), None);
}

#[test]
fn map_without_spawn_is_rejected() {
    let w = TileType::Walk(Dir::East);
    let kinds = vec![vec![w, w, TileType::Target]];
    assert!(GameMap::new(&kinds).is_none());
}
