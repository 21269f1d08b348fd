use hex_td::assets::ImgID;
use hex_td::auras::Auras;
use hex_td::buffs::{Buff, BuffStats, BuffType};
use hex_td::card::CardType;
use hex_td::card_deck::CardDeck;
use hex_td::debuffs::Debuff;
use hex_td::dijkstra::{Edge, reconstruct_path, shortest_path};
use hex_td::direction::{Dir, direction};
use hex_td::geometry::{Point, Position, distance_squared, in_range, isqrt, move_to};
use hex_td::hex_grid::{HexGrid, ID, Pos};
use hex_td::map::GameMap;
use hex_td::overlays::{MenuItem, PileOverlay, ShopOverlay};
use hex_td::tile::{Tile, TileType};
use hex_td::tower_stats::TowerStats;
use hex_td::utils::{add_mod, buff_to_img};

fn damage_table() -> BuffStats {
    BuffStats {
        kind: BuffType::Damage,
        level_to_effectiveness: vec![0, 25, 50, 75, 100, 125],
        level_to_cooldown: vec![0, 7, 7, 7, 7, 7],
        level_to_price: vec![0, 10, 20, 30, 40, 50],
    }
}

#[test]
fn add_mod_wraps_both_ways() {
    assert_eq!(add_mod(0, -1, 5), 4);
    assert_eq!(add_mod(3, 4, 5), 2);
    assert_eq!(add_mod(2, -7, 5), 0);
    assert_eq!(add_mod(4, 0, 5), 4);
}

#[test]
fn integer_geometry() {
    assert_eq!(isqrt(0), 0);
    assert_eq!(isqrt(24), 4);
    assert_eq!(isqrt(25), 5);
    assert_eq!(distance_squared(Point::new(0, 0), Point::new(3, 4)), 25);
    assert!(in_range(Point::new(0, 0), Point::new(3, 4), 5));
    assert!(!in_range(Point::new(0, 0), Point::new(3, 4), 4));
    assert_eq!(move_to(Point::new(0, 0), Point::new(30, 40), 10), (Point::new(6, 8), false));
    assert_eq!(move_to(Point::new(0, 0), Point::new(-30, -40), 10), (Point::new(-6, -8), false));
    assert_eq!(move_to(Point::new(0, 0), Point::new(30, 40), 50), (Point::new(30, 40), true));
    assert_eq!(move_to(Point::new(5, 5), Point::new(9, 9), 0), (Point::new(5, 5), false));
}

#[test]
fn tile_costs_follow_kind() {
    assert_eq!(Tile::new_from_type(TileType::Build, 1, 2).cost, 30);
    assert_eq!(Tile::new_from_type(TileType::Walk(Dir::East), 1, 2).cost, 1);
    assert_eq!(Tile::new_from_type(TileType::Empty, 0, 0).cost, usize::MAX);
    let t = Tile::new(TileType::Spawn, 7, 3, 4);
    assert_eq!(t.position, Position::new(3, 4));
    assert_eq!(t.cost, 7);
}

#[test]
fn ring_walk_follows_direction_order() {
    assert_eq!(
        GameMap::tile_ring(2, 2, 1),
        vec![(1, 3), (2, 3), (3, 2), (2, 1), (1, 1), (1, 2)]
    );
    assert_eq!(GameMap::tile_ring(2, 2, 2).len(), 12);
    assert_eq!(GameMap::tile_potential_neighbors(2, 2, 2).len(), 18);
    assert_eq!(direction(0), Dir::East);
    assert_eq!(direction(4), Dir::SouthWest);
}

#[test]
fn pixel_positions() {
    assert_eq!(GameMap::tile_pos(0, 0), Point::new(0, 0));
    assert_eq!(GameMap::tile_pos(1, 1), Point::new(1040, 590));
    assert_eq!(GameMap::tile_center(0, 0), Point::new(355, 395));
}

#[test]
fn map_layout_is_checked() {
    let b = TileType::Build;
    let w = TileType::Walk(Dir::East);
    assert!(GameMap::new(&vec![]).is_none());
    assert!(GameMap::new(&vec![vec![b, b], vec![b]]).is_none());
    let cut = vec![vec![TileType::Spawn, w, TileType::Empty, TileType::Target]];
    assert!(GameMap::from_kinds(&cut).is_some());
    assert!(GameMap::new(&cut).is_none());
    let two_targets = vec![vec![TileType::Target, w, TileType::Target]];
    assert!(GameMap::new(&two_targets).is_none());
    let ok = vec![vec![TileType::Spawn, w, b, TileType::Target]];
    let m = GameMap::new(&ok).unwrap();
    assert!(m.is_playable());
    assert_eq!(m.get_spawn_points(), vec![(0, 0)]);
    assert_eq!(m.target().position, Position::new(3, 0));
    assert!(m.is_buildable(2, 0));
    assert!(!m.is_spawn(1, 0));
    assert!(m.valid_tile_pos(1, 0));
    assert!(!m.valid_tile_pos(-1, 0));
    assert_eq!(m.neighbors(0, 0, 1), vec![(1, 0)]);
}

#[test]
fn path_goes_along_the_cheap_row() {
    let b = TileType::Build;
    let w = TileType::Walk(Dir::East);
    let kinds = vec![
        vec![b, b, b, b, b],
        vec![TileType::Spawn, w, w, w, TileType::Target],
        vec![b, b, b, b, b],
    ];
    let m = GameMap::new(&kinds).unwrap();
    let p = m.path(0, 1).unwrap();
    let expected: Vec<Position> = (0..5).map(|x| Position::new(x, 1)).collect();
    assert_eq!(p, expected);
    assert_eq!(m.path(4, 1).unwrap(), vec![Position::new(4, 1)]);
    let g = m.build_graph();
    assert_eq!(g.len(), 15);
}

#[test]
fn dijkstra_on_a_small_graph() {
    let graph = vec![
        vec![Edge { node: 1, cost: 5 }, Edge { node: 2, cost: 1 }],
        vec![Edge { node: 3, cost: 1 }],
        vec![Edge { node: 1, cost: 1 }],
        vec![],
        vec![Edge { node: 0, cost: 1 }],
    ];
    let came_from = shortest_path(&graph, 0, 3).unwrap();
    assert_eq!(reconstruct_path(&came_from, 0, 3), Some(vec![0, 2, 1, 3]));
    assert!(shortest_path(&graph, 0, 4).is_none());
    assert!(shortest_path(&graph, 3, 0).is_none());
}

#[test]
fn buff_levels_and_text() {
    let stats = damage_table();
    let mut buff = Buff::new(&stats);
    assert_eq!(buff.level, 1);
    assert_eq!(buff.effectiveness(), 25);
    assert_eq!(buff.cooldown(), 7);
    buff.upgrade();
    buff.upgrade();
    assert_eq!(buff.info(), "Damage: 3");
    for _ in 0..5 {
        buff.upgrade();
    }
    assert_eq!(buff.level, 5);
    assert!(!buff.upgradeable());
    let d = Debuff::new(&buff);
    assert_eq!((d.kind, d.effectiveness, d.cooldown), (BuffType::Damage, 125, 125));
    assert_eq!(buff_to_img(&BuffType::Aura), ImgID::Aura);
}

#[test]
fn stats_info_text() {
    let s = TowerStats { damage: 12, projectile_speed: 5, range: 1500, rpm: 60, price: 1 };
    assert_eq!(s.info(), "Damage: 12\nRange: 150\nRPM: 60");
}

#[test]
fn card_pictures_and_descriptions() {
    assert_eq!(CardType::Coin(2).get_image_id(), ImgID::Coin(2));
    assert_eq!(CardType::Buff(BuffType::RPM).get_preview_image_id(), ImgID::RPM);
    assert_eq!(CardType::Coin(3).get_description(), "Produces 1000 Gold");
    assert_eq!(CardType::Tower.get_description(), "Builds a tower");
}

#[test]
fn deck_draws_and_reshuffles_the_discard_pile() {
    let mut deck = CardDeck::new();
    assert_eq!(deck.get_selected_card(1), Some(CardType::Coin(1)));
    assert_eq!(deck.get_selected_card(2), Some(CardType::NextWave));
    assert_eq!(deck.get_selected_card(9), None);
    deck.card_used(1);
    assert_eq!(deck.hand, vec![CardType::Tower, CardType::Coin(1)]);
    assert!(deck.discard.is_empty() && deck.deck.is_empty());
    deck.discard_all();
    assert!(deck.hand.is_empty());
    assert_eq!(deck.discard.len(), 2);
    deck.draw(5);
    assert_eq!(deck.hand.len(), 2);
    assert!(deck.discard.is_empty() && deck.deck.is_empty());
    let mut drawn = deck.hand.clone();
    drawn.sort_by_key(|c| format!("{:?}", c));
    assert_eq!(drawn, vec![CardType::Coin(1), CardType::Tower]);
    assert_eq!(deck.draw_one(), None);
}

#[test]
fn full_deck_shuffle_keeps_cards() {
    let mut deck = CardDeck::all();
    let mut before: Vec<String> = deck.deck.iter().map(|c| format!("{:?}", c)).collect();
    deck.shuffle();
    let mut after: Vec<String> = deck.deck.iter().map(|c| format!("{:?}", c)).collect();
    before.sort();
    after.sort();
    assert_eq!(before, after);
    for _ in 0..6 {
        deck.buy_card(CardType::Take2);
    }
    assert_eq!(deck.hand.len(), 5);
    assert_eq!(deck.deck.len(), 12);
}

#[test]
fn cube_coordinates() {
    let o = Pos::new(0, 0, 0);
    assert_eq!(o.neighbors(1).len(), 7);
    assert_eq!(o.neighbors(2).len(), 19);
    assert_eq!(Pos::distance(o, Pos::new(2, -1, -1)), 2);
    assert_eq!(o.left(), Pos::new(-1, 1, 0));
    assert_eq!(o.right(), Pos::new(1, -1, 0));
    assert_eq!(o.up(), Pos::new(0, 1, -1));
    assert_eq!(Pos::new(0, 1, -1).up(), Pos::new(1, 1, -2));
    assert_eq!(o.down(), Pos::new(-1, 0, 1));
}

struct Marker(usize);

impl ID for Marker {
    fn id_spec(&self) -> usize {
        self.0
    }

    fn id(&self) -> usize {
        self.0
    }
}

#[test]
fn hex_grid_entries() {
    let mut grid: HexGrid<Marker> = HexGrid::new();
    let o = Pos::new(0, 0, 0);
    let far = Pos::new(5, -5, 0);
    grid.add(&o, Marker(1));
    grid.add(&o.right(), Marker(2));
    grid.add(&far, Marker(3));
    assert_eq!(grid.get(&o).map(|m| m.0), Some(1));
    let mut near: Vec<usize> = grid.neighbors(&o, 1).iter().map(|m| m.0).collect();
    near.sort();
    assert_eq!(near, vec![1, 2]);
    grid.add(&o, Marker(4));
    assert_eq!(grid.get(&o).map(|m| m.0), Some(4));
    grid.del(&o);
    assert!(grid.get(&o).is_none());
    assert!(grid.ids_to_pos.iter().all(|(id, _)| *id != 4));
    assert!(grid.ids_to_pos.iter().any(|(id, _)| *id == 1));
    assert_eq!(grid.entries.len(), 2);
}

#[test]
fn overlays_and_menu() {
    let mut shop = ShopOverlay::new(3);
    assert_eq!(shop.selected(), Some(CardType::Tower));
    shop.move_selection(-1);
    assert_eq!(shop.selected(), Some(CardType::Buff(BuffType::Aura)));
    assert_eq!(shop.get_available_cards().len(), 13);
    let mut pile = PileOverlay::new(vec![CardType::Take2, CardType::Shop]);
    assert_eq!(pile.cards.len(), 2);
    pile.move_selection(3);
    assert_eq!(pile.cur_selected, 1);
    assert_eq!(MenuItem::Level("Play".to_string()).get_text(), "Play level: Play");
    assert_eq!(MenuItem::Exit.get_text(), "Exit");
}

#[test]
fn aura_level_table_lookup() {
    let table = vec![((1, BuffType::Damage), 3), ((2, BuffType::Damage), 4), ((1, BuffType::RPM), 2)];
    assert_eq!(Auras::get_aura_levels(1, &table), vec![(BuffType::Damage, 3)]);
    assert!(Auras::get_aura_levels(7, &table).is_empty());
}

#[test]
fn decimal_digits() {
    assert_eq!(hex_td::text::number_text(0), "0");
    assert_eq!(hex_td::text::number_text(1204), "1204");
    assert_eq!(hex_td::text::number_text(u64::MAX), u64::MAX.to_string());
}
