use vstd::prelude::*;

verus! {

/// The errors of the library; each carries a human-readable message.
#[derive(Debug, Clone)]
pub enum BlackError {
    BlackShapeError { black_msg: String },
    BlackDTypeError { black_msg: String },
    BlackDeviceError { black_msg: String },
    BlackMemoryError { black_msg: String },
    BlackGradError { black_msg: String },
    BlackOpsError { black_msg: String },
    BlackIOError { black_msg: String },
    BlackIndexError { black_msg: String },
    BlackInternalError { black_msg: String },
}

} // verus!
