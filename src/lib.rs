pub mod fixed;
pub mod particle;
pub mod spawn;
pub mod simulation;
pub mod laws;

pub use particle::{BlackHole, Color, Fate, Particle, Point};
pub use simulation::BlackHoleSimulation;
pub use spawn::SpawnDraw;
