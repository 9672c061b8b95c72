use vstd::prelude::*;

verus! {

/// The one error surface of the transport: operating-system failures carry
/// their error code; stream and decoding faults get their own variants.
#[derive(Debug, Clone, Copy, PartialEq, Eq, Structural)]
pub enum PipeError {
    /// An operating-system call failed with this error code.
    Os(i32),
    /// The stream ended before a complete message had been read.
    Incomplete,
    /// The bytes read do not decode to a value of the requested type.
    Malformed,
}

} // verus!
