//! Deterministic simulation core of a rollback-netcode platform fighter, and
//! the decision logic around it: fixed-point math, a state-seeded random
//! number generator, the world and its pure one-tick `advance`, the desync
//! checksum, the rollback request loop's steps, netplay limits, player-slot
//! assignment, and the demo's command line.

pub mod checksum;
pub mod cli;
pub mod entropy;
pub mod input;
pub mod keyboard;
pub mod math;
pub mod netplay;
pub mod session;
pub mod slots;
pub mod systems;
pub mod world;

pub use input::buttons;
pub use input::Input;
pub use math::fx::Fx;
pub use math::rng::Rng;
pub use math::vector::V2;
pub use netplay::{check_netplay_machines, scripted_input, TooManyMachines, MAX_NETPLAY_MACHINES};
pub use session::{Advanced, PlayerHandle, SessionError};
pub use slots::Slots;
pub use world::{ActionState, Fighter, Stage, World};
