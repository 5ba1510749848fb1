pub mod render_graph;
pub mod seq_facts;
pub mod keyed;
pub mod text;
pub mod procedural;
pub mod procedural_scene;
pub mod procedural_tiles;
pub mod render_types;
pub mod render_order;
pub mod audio_types;
pub mod scan;
pub mod assets;
pub mod paths;
pub mod game;
pub mod string_lists;
pub mod project_tools;
pub mod input;
pub mod app_config;
pub mod world;
pub mod tile_map;
pub mod scene_diff;
pub mod scene_export;
pub mod scene_reload;
pub mod mobile;
pub mod audio_system;
pub mod records;
pub mod resolution;
pub mod schedule;
pub mod components;
pub mod scenes;
pub mod textures;
pub mod patches;
pub mod main_scene;
