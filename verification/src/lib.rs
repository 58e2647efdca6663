pub mod factory;
pub mod game;
pub mod player;
pub mod sampler;
pub mod tiles;
