//! Order-preserving codec between IEEE 754 double-precision bit patterns
//! and signed 64-bit integer keys.
//!
//! A double is handed to the library as its raw bit pattern (`f64::to_bits`
//! on the caller's side).  IEEE 754 stores doubles in sign-magnitude form:
//! for two finite doubles of equal sign, the one with the larger magnitude
//! field is the one farther from zero.  [`encode`] folds that sign-magnitude
//! form into a two's-complement key so that, for all finite doubles,
//! numeric order of the doubles is exactly integer order of the keys, and
//! interval-endpoint comparisons can run on the integer unit instead of the
//! floating-point unit.
//!
//! The mapping is a bijection on all 2^64 bit patterns, so [`decode`]
//! recovers the original pattern exactly; nothing is collapsed or
//! truncated.  Non-finite patterns get a consistent placement: +infinity
//! and the NaN patterns with sign bit 0 sort above every finite double,
//! -infinity and the NaN patterns with sign bit 1 sort below, the same
//! way in every call.  The two zeroes stay distinct keys (`-0.0` directly
//! below `+0.0`), which keeps the map bijective while respecting their
//! numeric equality as tightly as a total order can.

use vstd::prelude::*;

verus! {

/// Sign bit of an IEEE 754 double-precision bit pattern.
pub const SIGN_BIT: u64 = 0x8000_0000_0000_0000;

/// True when the bit pattern has its sign bit set (a negative double,
/// including `-0.0`, or a negative-signed non-finite pattern).
pub open spec fn sign_of(bits: u64) -> bool {
    bits >= SIGN_BIT
}

/// The sign-magnitude payload of the pattern: everything below the sign bit.
/// For equal-signed finite doubles this orders them by distance from zero.
pub open spec fn magnitude_of(bits: u64) -> int {
    if sign_of(bits) {
        bits - SIGN_BIT
    } else {
        bits as int
    }
}

/// The key [`encode`] assigns to a bit pattern: the magnitude itself for
/// positive-signed patterns, and `-1 - magnitude` for negative-signed ones,
/// so that larger negative magnitudes sit further below zero.  This is a
/// bijection from the 2^64 bit patterns onto the full `i64` range.
pub open spec fn total_key(bits: u64) -> int {
    if sign_of(bits) {
        -1 - magnitude_of(bits)
    } else {
        magnitude_of(bits)
    }
}

/// The numeric order of the doubles themselves, expressed on bit patterns:
/// for finite doubles, `a` is numerically below `b` exactly when
/// `numeric_key(a) < numeric_key(b)`.  Unlike [`total_key`] it gives the
/// two zeroes the same key, matching `-0.0 == 0.0`.
pub open spec fn numeric_key(bits: u64) -> int {
    if sign_of(bits) {
        -magnitude_of(bits)
    } else {
        magnitude_of(bits)
    }
}

/// Maps a double's bit pattern to its totally ordered integer key.
pub fn encode(bits: u64) -> (code: i64)
    ensures
        code as int == total_key(bits),
{
    if bits < SIGN_BIT {
        bits as i64
    } else {
        let m: u64 = bits - SIGN_BIT;
        -1 - (m as i64)
    }
}

/// Recovers the exact bit pattern a key was encoded from.
pub fn decode(code: i64) -> (bits: u64)
    ensures
        total_key(bits) == code as int,
{
    if code >= 0 {
        code as u64
    } else {
        let m: i64 = -1 - code;
        (m as u64) + SIGN_BIT
    }
}

/// Law: the codec round-trips.  [`total_key`] is injective, so the bit
/// pattern [`decode`] returns for a key is exactly the pattern [`encode`]
/// made that key from; `decode(encode(f)) == f` for every double `f`.
pub proof fn lemma_codec_round_trip(a: u64, b: u64)
    ensures
        total_key(a) == total_key(b) ==> a == b,
{
}

/// Law: encoding preserves numeric order.  For doubles `a` numerically
/// below `b` (on finite doubles, `a < b`), the key of `a` is strictly
/// below the key of `b`; and keys only ever order patterns whose numeric
/// order agrees, so integer comparisons of keys decide double comparisons.
pub proof fn lemma_encode_order_preserving(a: u64, b: u64)
    ensures
        numeric_key(a) < numeric_key(b) ==> total_key(a) < total_key(b),
        total_key(a) < total_key(b) ==> numeric_key(a) <= numeric_key(b),
        numeric_key(a) == numeric_key(b) ==> magnitude_of(a) == magnitude_of(b),
{
}

} // verus!
