//! The FNV-1a checksum over 64-bit values.
use vstd::prelude::*;

verus! {

/// The checksum of no values.
pub const FNV_BASIS: u64 = 0xcbf29ce484222325;

/// The factor that each value is mixed in with.
pub const FNV_PRIME: u64 = 0x100000001b3;

/// The checksum `h` with one more value mixed in.
pub open spec fn mixed(h: u64, value: u64) -> u64 {
    (h ^ value).wrapping_mul(FNV_PRIME)
}

/// The checksum of a sequence of values.
pub open spec fn fnv1a(values: Seq<u64>) -> u64
    decreases values.len(),
{
    if values.len() == 0 {
        FNV_BASIS
    } else {
        mixed(fnv1a(values.drop_last()), values.last())
    }
}

pub fn mix(h: u64, value: u64) -> (r: u64)
    ensures
        r == mixed(h, value),
{
    (h ^ value).wrapping_mul(FNV_PRIME)
}

/// One more value changes the checksum by one mixing step.
pub proof fn lemma_fnv1a_push(values: Seq<u64>, value: u64)
    ensures
        fnv1a(values.push(value)) == mixed(fnv1a(values), value),
{
    assert(values.push(value).drop_last() =~= values);
}

/// The checksum of no values is the offset basis; each further value is joined by exclusive or, and
/// the result is multiplied by the prime, modulo two to the power of 64.
pub proof fn law_checksum_step(values: Seq<u64>, value: u64)
    ensures
        fnv1a(Seq::empty()) == 14_695_981_039_346_656_037,
        fnv1a(values.push(value)) == ((fnv1a(values) ^ value) * 1_099_511_628_211)
            % 18_446_744_073_709_551_616,
{
    lemma_fnv1a_push(values, value);
}

} // verus!
