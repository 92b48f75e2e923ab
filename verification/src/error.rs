use vstd::prelude::*;

verus! {

/// Everything a pool operation can fail with.
///
/// `Io` covers a backing file that is missing when it must exist,
/// `Serialize` / `Deserialize` cover the value codec, and the two
/// `Transform` kinds cover each direction of the byte transformer.
#[derive(Clone, Copy, Debug, PartialEq, Eq, Structural)]
pub enum SwapError {
    Io,
    Serialize,
    Deserialize,
    TransformForward,
    TransformBackward,
}

pub type SwapResult<T> = Result<T, SwapError>;

impl SwapError {
    /// A short human-readable description of the error kind.
    pub fn message(&self) -> (s: &'static str)
        ensures
            *self is Io ==> s@ == "swap file input or output failed"@,
            *self is Serialize ==> s@ == "failed to serialize value to bytes"@,
            *self is Deserialize ==> s@ == "failed to deserialize value from bytes"@,
            *self is TransformForward ==> s@ == "failed to transform value forward"@,
            *self is TransformBackward ==> s@ == "failed to transform value backward"@,
    {
        match self {
            SwapError::Io => "swap file input or output failed",
            SwapError::Serialize => "failed to serialize value to bytes",
            SwapError::Deserialize => "failed to deserialize value from bytes",
            SwapError::TransformForward => "failed to transform value forward",
            SwapError::TransformBackward => "failed to transform value backward",
        }
    }
}

} // verus!
