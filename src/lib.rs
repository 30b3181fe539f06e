//! The simulation core of a turn-based dungeon crawler: the world's
//! component storages, level generation, field-of-view bookkeeping, and
//! the systems that resolve each turn (monster reactions, map indexing,
//! melee, damage, pickup, item use, drop and taking off), with the turn
//! orchestration and level transitions around them.
pub mod components;
pub mod connectivity;
pub mod damage;
pub mod effects;
pub mod inventory;
pub mod map;
pub mod map_indexing;
pub mod melee;
pub mod monster_ai;
pub mod player;
pub mod rand_table;
pub mod rect;
pub mod render;
pub mod rng;
pub mod snapshot;
pub mod spawner;
pub mod state;
pub mod targeting;
pub mod visibility;
pub mod world;
