//! A rectangular lobe of spiking neurons with banded connectivity between
//! columns, advanced in discrete time steps over fixed-point amounts.
pub mod amount;
pub mod base;
pub mod lobe;
pub mod theorems;

pub use amount::Amount;
pub use base::NeuralObject;
pub use lobe::{Lobe, LobeError, LobeView};
