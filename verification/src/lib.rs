//! Speculative-execution hardening of an SSA function: a flow network over
//! values and sensitive instructions, a minimum cut of it, and the fences or
//! pointer masks that the cut asks for.

pub mod ancestors;
pub mod construct;
pub mod cut;
pub mod defuse;
pub mod error;
pub mod fence;
pub mod flow;
pub mod graph;
pub mod ir;
pub mod network;
pub mod pass;
pub mod reasons;
pub mod settings;
pub mod shape;
pub mod slh;
