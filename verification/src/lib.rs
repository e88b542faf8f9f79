//! Behavior logic for scene objects: built-in behaviors (blink, menu selection and
//! carousels, scene audio), emitter bookkeeping, integer geometry for vector shapes,
//! the mod behavior registry, palettes, configuration documents with their deep
//! merge and prefab inheritance, the frame protocol of scripted behaviors with the
//! command lists scripts return, and the small command-producing script services.

pub mod text;
pub mod command;
pub mod params;
pub mod geometry;
pub mod emitter_state;
pub mod menu;
pub mod timing;
pub mod path;
pub mod registry;
pub mod names;
pub mod palette;
pub mod doc;
pub mod catalog;
pub mod script_api;
pub mod script_output;
pub mod script_behavior;
pub mod input;
pub mod laws;
