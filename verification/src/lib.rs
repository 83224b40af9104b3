//! eidolon's game registry, verified: registry names, the rules for
//! registering and launching games, the reading of Steam manifests, Lutris'
//! game list and both config formats, and the game menu.
pub mod text;
pub mod patterns;
pub mod helper;
pub mod auto;
pub mod games;
pub mod config;
pub mod menu;
pub mod add_tool;
pub mod legacy;
