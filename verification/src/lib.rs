//! Core of a turn-based grid-world simulation.
//!
//! The library provides the geometry primitives (`geom`), an occlusion-aware
//! field-of-view engine (`fov`), a generational entity store (`world`), a
//! multi-reader broadcast event channel (`events`), the per-turn handler
//! pipeline with its map index (`game`), a scene stack (`scene`), sprite and
//! palette data (`gfx`), and map-carving helpers (`mapgen`).

pub mod events;
pub mod gfx;
pub mod fov;
pub mod game;
pub mod geom;
pub mod mapgen;
pub mod scene;
pub mod world;
