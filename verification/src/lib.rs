pub mod behaviour;
pub mod element;
pub mod grid;
pub mod laws;
pub mod model;
pub mod particle;
pub mod rng;
