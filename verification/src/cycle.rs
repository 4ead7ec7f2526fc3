//! The cycle engine: fetch, decode, execute, and report an outcome.

use vstd::prelude::*;

use crate::exception::Exception;

pub use compute::perform_cycle;

/// Actual code performing each instruction.
pub mod compute;
/// Operations on instruction words.
pub mod data;
/// The specification-level machine the engine is proved against.
pub mod model;

verus! {

/// The resolution of one cycle. This value is the sole channel from the
/// decoder to the outer driver.
#[derive(Debug)]
pub enum Next {
    /// The instruction performed with no issue; the next one can be loaded.
    Forward,
    /// A branch or jump must be performed immediately.
    Branch(u32),
    /// An architectural exception was raised. Depending on the coprocessor-0
    /// configuration, a kernel would vector execution to its handler.
    Exception(Exception),
    /// A VM-internal error: a bug in the host, never guest-visible.
    VmError(String),
}

impl From<Exception> for Next {
    /// An architectural exception resolves the cycle that raised it.
    fn from(value: Exception) -> (r: Self) {
        Next::Exception(value)
    }
}

impl vstd::std_specs::convert::FromSpecImpl<Exception> for Next {
    open spec fn obeys_from_spec() -> bool {
        true
    }

    open spec fn from_spec(value: Exception) -> Self {
        Next::Exception(value)
    }
}

} // verus!
