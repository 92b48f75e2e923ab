use vstd::prelude::*;

verus! {

use vstd::string::{StrSliceExecFns, StringExecFns};

/// The 64-bit XXH3 digest of a byte sequence. The digest is a pure
/// function of the input bytes, stable across processes and machines;
/// nothing else is assumed about its value.
pub uninterp spec fn xxh3_of(b: Seq<u8>) -> u64;

/// Relies on xxhash_rust::xxh3::xxh3_64: the 64-bit XXH3 digest,
/// a deterministic function of the input bytes alone.
#[verifier::external_body]
fn xxh3_64(data: &[u8]) -> (r: u64)
    ensures
        r == xxh3_of(data@),
{
    xxhash_rust::xxh3::xxh3_64(data)
}

/// The identifier derived for a byte sequence.
pub open spec fn uuid_of(b: Seq<u8>) -> u64 {
    xxh3_of(b)
}

/// Derive a stable 64-bit identifier for the given bytes.
///
/// Entities use this on the bytes of their backing file path, so the
/// identifier is as unique as the path is.
pub fn get(data: &[u8]) -> (r: u64)
    ensures
        r == uuid_of(data@),
{
    xxh3_64(data)
}

/// The sixteen hexadecimal digit characters, lowest first.
pub open spec fn hex_digit(d: nat) -> char {
    seq!['0', '1', '2', '3', '4', '5', '6', '7', '8', '9', 'a', 'b', 'c', 'd', 'e', 'f'][d as int]
}

/// The hexadecimal digits of a number, most significant first; empty
/// for zero.
pub open spec fn hex_digits(n: nat) -> Seq<char>
    decreases n,
{
    if n == 0 {
        Seq::empty()
    } else {
        hex_digits(n / 16).push(hex_digit(n % 16))
    }
}

/// A number rendered in lowercase hexadecimal.
pub open spec fn hex_of(n: nat) -> Seq<char> {
    if n == 0 {
        seq!['0']
    } else {
        hex_digits(n)
    }
}

/// Render a number in lowercase hexadecimal, as `spawn` does for the
/// file names it derives from identifiers.
pub fn to_hex(n: u64) -> (s: String)
    ensures
        s@ == hex_of(n as nat),
{
    let digits = "0123456789abcdef";
    proof {
        reveal_strlit("0123456789abcdef");
        assert(digits@ =~= seq![
            '0', '1', '2', '3', '4', '5', '6', '7', '8', '9', 'a', 'b', 'c', 'd', 'e', 'f',
        ]);
    }
    if n == 0 {
        let s = String::from_str("0");
        proof {
            reveal_strlit("0");
            assert(s@ =~= seq!['0']);
        }
        return s;
    }
    let mut s = String::new();
    let mut m = n;
    while m > 0
        invariant
            digits@ == seq![
                '0', '1', '2', '3', '4', '5', '6', '7', '8', '9', 'a', 'b', 'c', 'd', 'e', 'f',
            ],
            hex_digits(n as nat) == hex_digits(m as nat) + s@,
        decreases m,
    {
        let d = (m % 16) as usize;
        let ds = digits.substring_char(d, d + 1);
        let mut t = String::from_str(ds);
        t.append(s.as_str());
        proof {
            assert(ds@ =~= seq![hex_digit(m as nat % 16)]);
            assert(hex_digits(m as nat) =~= hex_digits(m as nat / 16) + seq![
                hex_digit(m as nat % 16),
            ]);
            assert(hex_digits(m as nat / 16) + (seq![hex_digit(m as nat % 16)] + s@)
                =~= hex_digits(m as nat) + s@);
        }
        s = t;
        m = m / 16;
    }
    proof {
        assert(hex_digits(n as nat) =~= s@);
    }
    s
}

/// Equal byte sequences always derive equal identifiers.
pub proof fn lemma_uuid_deterministic(b1: Seq<u8>, b2: Seq<u8>)
    requires
        b1 == b2,
    ensures
        uuid_of(b1) == uuid_of(b2),
{
}

} // verus!
