pub mod index_swapping;
pub mod types;
pub mod state_vector;
pub mod density_matrix;
pub mod program;
pub mod operations;
pub mod draw;

pub use density_matrix::DensityMatrix;
pub use operations::{implement_gate, SingleQubitGate, Step, TwoQubitGate};
pub use program::{Operations, Program};
pub use state_vector::StateVector;
pub use types::QuantumError;
