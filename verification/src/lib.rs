//! Mildew Valley: the game rules, world layout and bookkeeping behind a
//! farming game built on a region simulation, with each piece's behavior
//! stated as a contract and proved.

pub mod terrain;
pub mod command;
pub mod engine;
pub mod game;
pub mod pace;
pub mod tags;
pub mod wire;
pub mod phased;
pub mod prefab;
pub mod world;
pub mod crowd;
pub mod meter;
pub mod figure;
pub mod pixels;
pub mod cadence;
pub mod clock;
pub mod loadgen;
pub mod envelope;
