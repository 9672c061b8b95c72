//! A process-pair byte transport: unidirectional OS pipes with owned
//! endpoints, a framed message codec over them, readiness-step logic for a
//! nonblocking adapter, and a duplex composition of two pipes.

pub mod codec;
pub mod duplex;
pub mod errors;
pub mod pipe;
pub mod poll;

pub use duplex::{pipe_duplex, DuplexChannel, PipeSendRecv};
pub use errors::PipeError;
pub use pipe::{pipe, PipeRead, PipeWrite};
