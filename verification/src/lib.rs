//! Verified core logic of a small dungeon action game: its random numbers, hit points and
//! damage rolls, procedural floor layout, pause menu, targeting and input rules, and the
//! rotation of its debug log.

pub mod combat;
pub mod debug;
pub mod hud;
pub mod player;
pub mod rng;
pub mod targeting;
pub mod world;
