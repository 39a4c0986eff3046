//! Moteur d'animaux de bureau au format eSheep : expressions, lecture des
//! `animations.xml`, spritesheets, machine à états du pet, troupeau et
//! pilote du démon.

pub mod text;
pub mod arith;
pub mod context;
pub mod value;
pub mod model;
pub mod geometry;
pub mod anim_state;
pub mod transitions;
pub mod pet;
pub mod flock;
pub mod xml;
pub mod parse;
pub mod sprites;
pub mod cache;
pub mod engine;
