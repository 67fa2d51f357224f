//! The rules of a top-down arena game about fire, gasoline and barrels.

pub mod arena;
pub mod components;
pub mod config;
pub mod deaths;
pub mod gen;
pub mod geometry;
pub mod health;
pub mod logic;
pub mod model;
pub mod random;
pub mod units;
