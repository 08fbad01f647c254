//! Verified core of a snapshot-fuzzing toolkit for Bitcoin nodes.
pub mod assertions;
pub mod builder;
pub mod deps;
pub mod http;
pub mod input;
pub mod ir;
pub mod mutators;
pub mod nyx;
pub mod snapshot;
pub mod text;
