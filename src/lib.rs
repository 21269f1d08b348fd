//! Simulation core of a hexagonal tower-defense game: map and pathfinding,
//! entity registries, buffs and auras, targeting, projectiles and waves.

pub mod geometry;
pub mod text;
pub mod buffs;
pub mod debuffs;
pub mod direction;
pub mod tile;
pub mod dijkstra;
pub mod map;
pub mod tower;
pub mod tower_stats;
pub mod assets;
pub mod wave;
pub mod enemy;
pub mod enemies;
pub mod projectiles;
pub mod towers;
pub mod simulation;
pub mod card;
pub mod card_deck;
pub mod utils;
pub mod hex_grid;
pub mod overlays;
pub mod auras;
pub mod player;
