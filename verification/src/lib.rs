//! Execution runtime for a compiled quantum program: a state-vector
//! simulation engine with qubit bookkeeping, a device capability
//! interface with stackable decorators, and a process-local
//! coordination layer for classical messages and entangled pairs.

pub mod amp;
pub mod qdevice;
pub mod naive;
pub mod noop;
pub mod checked;
pub mod sq2u3;
pub mod context;
pub mod shim_isq;
pub mod shim_qsharp;
pub mod tokens;
pub mod laws;
