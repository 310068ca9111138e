//! Verified core of the NewViso engine host: the scripting wire codec, texture
//! layout arithmetic, scene bookkeeping values, a JSON value model with the
//! readers the runtime uses, and living-world validation rules.

pub mod bindings;
pub mod bootstrap;
pub mod checkpoint;
pub mod clients;
pub mod commands;
pub mod facts;
pub mod frame;
pub mod json;
pub mod persistence;
pub mod physics;
pub mod presentation;
pub mod readers;
pub mod runtime_entities;
pub mod reality;
pub mod reservations;
pub mod scene;
pub mod scene_load;
pub mod scene_world;
pub mod scripting;
pub mod sky;
pub mod strmap;
pub mod text;
pub mod textures;
pub mod wire;
pub mod wire_laws;
pub mod world;
