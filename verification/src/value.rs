use vstd::prelude::*;

use crate::error::{SwapError, SwapResult};
use crate::size::SizeOf;

verus! {

/// A value that a swap entity can hold: it can be measured, serialized
/// to bytes, deserialized back, and cloned.
///
/// The codec is described at the level of the value's view: `spec_encode`
/// gives the serialized bytes, `spec_decode` reads a view back out of
/// bytes, and `lemma_codec_round_trip` obliges every implementation to
/// prove that decoding an encoding yields the encoded view. That law is
/// what makes a cold entity's backing file an authoritative
/// representation of its value.
pub trait SwapValue: View + SizeOf + Sized {
    /// Whether a value with this view serializes at all.
    spec fn spec_encodable(v: Self::V) -> bool;

    /// The serialized bytes of a value with this view.
    spec fn spec_encode(v: Self::V) -> Seq<u8>;

    /// The view read back from serialized bytes, if they are a valid
    /// encoding.
    spec fn spec_decode(b: Seq<u8>) -> Option<Self::V>;

    /// Decoding an encoding yields the encoded view.
    proof fn lemma_codec_round_trip(v: Self::V)
        requires
            Self::spec_encodable(v),
        ensures
            Self::spec_decode(Self::spec_encode(v)) == Some(v),
    ;

    /// Serialize this value to bytes.
    fn encode(&self) -> (r: SwapResult<Vec<u8>>)
        ensures
            r matches Ok(b) ==> Self::spec_encodable(self@) && b@ == Self::spec_encode(self@),
            r is Err ==> !Self::spec_encodable(self@) && r == SwapResult::<Vec<u8>>::Err(
                SwapError::Serialize,
            ),
    ;

    /// Deserialize a value from bytes.
    fn decode(b: Vec<u8>) -> (r: SwapResult<Self>)
        ensures
            r matches Ok(v) ==> Self::spec_decode(b@) == Some(v@),
            r is Err ==> Self::spec_decode(b@) is None && r == SwapResult::<Self>::Err(
                SwapError::Deserialize,
            ),
    ;

    /// Clone this value; the clone has the same view and charges the
    /// same size.
    fn clone_value(&self) -> (r: Self)
        ensures
            r@ == self@,
            r.spec_size_of() == self.spec_size_of(),
    ;
}

/// Clone a byte vector; the clone holds the same bytes.
pub fn clone_bytes(b: &Vec<u8>) -> (c: Vec<u8>)
    ensures
        c@ == b@,
{
    let c = b.clone();
    proof {
        assert(c@ =~= b@);
    }
    c
}

/// Raw byte payloads serialize as themselves: every byte vector is
/// encodable, and every byte sequence decodes.
impl SwapValue for Vec<u8> {
    open spec fn spec_encodable(v: Seq<u8>) -> bool {
        true
    }

    open spec fn spec_encode(v: Seq<u8>) -> Seq<u8> {
        v
    }

    open spec fn spec_decode(b: Seq<u8>) -> Option<Seq<u8>> {
        Some(b)
    }

    proof fn lemma_codec_round_trip(v: Seq<u8>) {
    }

    fn encode(&self) -> (r: SwapResult<Vec<u8>>) {
        let c = self.clone();
        proof {
            assert(c@ =~= self@);
        }
        Ok(c)
    }

    fn decode(b: Vec<u8>) -> (r: SwapResult<Vec<u8>>) {
        Ok(b)
    }

    fn clone_value(&self) -> (r: Vec<u8>) {
        let c = self.clone();
        proof {
            assert(c@ =~= self@);
        }
        c
    }
}

} // verus!
