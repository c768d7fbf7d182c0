//! Engine-independent gameplay rules and build-tool logic of the magicrate
//! puzzle-platformer, with their contracts proved by Verus.
pub mod activation;
pub mod export_config;
pub mod export_preset;
pub mod game_flow;
pub mod lines;
pub mod player_logic;
pub mod scene_rules;
pub mod stage_manifest;
pub mod stage_paths;
pub mod text;
pub mod undo_history;
