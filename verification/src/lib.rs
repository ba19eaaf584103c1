//! Verified core of the Titanium Quoridor engine.

pub mod board;
pub mod bridge;
pub mod browser;
pub mod config;
pub mod corridor;
pub mod dist_cache;
pub mod dump;
pub mod eval;
pub mod fx;
pub mod game;
pub mod game_length;
pub mod history;
pub mod host;
pub mod hygiene;
pub mod json;
pub mod laws_clock;
pub mod laws_nodes;
pub mod laws_play;
pub mod laws_races;
pub mod laws_routes;
pub mod laws_rules;
pub mod laws_search;
pub mod laws_setup;
pub mod laws_text;
pub mod laws_values;
pub mod lazy_smp;
pub mod lazy_think;
pub mod modes;
pub mod movegen;
pub mod moves;
pub mod num;
pub mod ordering;
pub mod ponder;
pub mod pruning;
pub mod race;
pub mod race_cache;
pub mod race_root;
pub mod race_table;
pub mod race_theorems;
pub mod root_moves;
pub mod root_select;
pub mod root_verify;
pub mod routes;
pub mod score;
pub mod search;
pub mod session;
pub mod setup;
pub mod switches;
pub mod text;
pub mod think;
pub mod time_alloc;
pub mod timing;
pub mod trace;
pub mod tt;
pub mod tt_sizing;
pub mod zobrist;
