//! A falling-sand particle engine: a registry of matter kinds, a grid of
//! cells, and a per-tick update that moves particles and lets neighbours react.
pub mod matter;
pub mod registry;
pub mod grid;
pub mod world;
pub mod tick;
pub mod dice;
pub mod physics;
pub mod codec;
