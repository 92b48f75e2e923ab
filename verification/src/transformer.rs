use vstd::prelude::*;

verus! {

/// Byte-stream pre/post-processor applied at the swap-file boundary.
///
/// `forward` runs on serialized bytes before they become a backing
/// file's contents; `backward` runs on a backing file's contents before
/// they are deserialized. Implementations (compression, encryption, ...)
/// must prove `lemma_transform_round_trip`: whatever `forward` produced,
/// `backward` restores — without that, a cold entity could not be
/// rehydrated.
pub trait SwapTransformer {
    /// What `forward` does to a byte sequence; `None` means it fails.
    spec fn spec_forward(&self, b: Seq<u8>) -> Option<Seq<u8>>;

    /// What `backward` does to a byte sequence; `None` means it fails.
    spec fn spec_backward(&self, b: Seq<u8>) -> Option<Seq<u8>>;

    /// `backward` inverts `forward` wherever `forward` succeeds.
    proof fn lemma_transform_round_trip(&self, b: Seq<u8>)
        ensures
            self.spec_forward(b) matches Some(f) ==> self.spec_backward(f) == Some(b),
    ;

    /// Transform serialized bytes on their way to the backing file.
    fn forward(&self, data: Vec<u8>) -> (r: Option<Vec<u8>>)
        ensures
            r matches Some(o) ==> self.spec_forward(data@) == Some(o@),
            r is None <==> self.spec_forward(data@) is None,
    ;

    /// Transform backing-file bytes on their way to deserialization.
    fn backward(&self, data: Vec<u8>) -> (r: Option<Vec<u8>>)
        ensures
            r matches Some(o) ==> self.spec_backward(data@) == Some(o@),
            r is None <==> self.spec_backward(data@) is None,
    ;
}

/// The transformer that stores serialized bytes unchanged.
pub struct SwapIdentityTransformer;

impl SwapTransformer for SwapIdentityTransformer {
    open spec fn spec_forward(&self, b: Seq<u8>) -> Option<Seq<u8>> {
        Some(b)
    }

    open spec fn spec_backward(&self, b: Seq<u8>) -> Option<Seq<u8>> {
        Some(b)
    }

    proof fn lemma_transform_round_trip(&self, b: Seq<u8>) {
    }

    fn forward(&self, data: Vec<u8>) -> (r: Option<Vec<u8>>) {
        Some(data)
    }

    fn backward(&self, data: Vec<u8>) -> (r: Option<Vec<u8>>) {
        Some(data)
    }
}

} // verus!
