//! The logic of a text-embedding service: which texts run together through the model,
//! how they are laid out for it, how its output becomes one vector for each text, and
//! which of several copies of the model serves which request.
//!
//! What the service does with sockets, files and floating point stands outside this
//! library. The model and the arithmetic on its output come in as operations.

pub mod config;
pub mod embed;
pub mod outcome;
pub mod plan;
pub mod pool;
pub mod pooling;
mod queue;
pub mod service;
pub mod tensor;
pub mod tokens;
