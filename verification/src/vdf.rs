use vdf_rs::{InvalidIterations, PietrzakVDFParams, VDFParams, VDF};
use vstd::prelude::*;

use crate::hex::{hex_digit_str, spec_hex_digit};

verus! {

/// The size in bits of the class group that the delay function works in.
pub const VDF_BITS: u16 = 1024;

#[verifier::external_type_specification]
#[verifier::external_body]
pub struct ExInvalidIterations(InvalidIterations);

/// Why no solution could be computed.
#[derive(Debug, Clone, Copy, PartialEq, Eq)]
pub enum VdfError {
    /// The delay is odd or shorter than the Pietrzak scheme allows.
    InvalidIterations,
}

/// Whether the Pietrzak scheme accepts a delay: an even number of at least
/// 66 iterations.
pub open spec fn valid_difficulty(difficulty: u64) -> bool {
    difficulty % 2 == 0 && difficulty >= 66
}

/// The Pietrzak proof of time for a challenge and delay, in the class group
/// of `VDF_BITS` bits that this library always works in.
pub uninterp spec fn pietrzak_solution(challenge: Seq<u8>, difficulty: u64) -> Seq<u8>;

/// Calls `VDF::solve` of `vdf_rs::PietrzakVDF`, built with
/// `PietrzakVDFParams(VDF_BITS)`; the size is fixed here because the crate
/// panics on a discriminant size of zero. Claimed, from the crate's source:
/// it fails exactly on a delay that is odd or below 66, and otherwise
/// returns the named proof, which depends on the challenge and the delay
/// alone.
#[verifier::external_body]
fn pietrzak_solve(challenge: &[u8], difficulty: u64) -> (r: Result<Vec<u8>, InvalidIterations>)
    ensures
        r is Ok <==> valid_difficulty(difficulty),
        r matches Ok(s) ==> s@ == pietrzak_solution(challenge@, difficulty),
{
    PietrzakVDFParams(VDF_BITS).new().solve(challenge, difficulty)
}

/// Whether `solution` proves that the delay `difficulty` passed over
/// `challenge`: the delay is one the scheme accepts and the solution is the
/// proof that the scheme computes for it. The `VDF` trait of vdf-rs
/// documents that for a valid delay exactly one proof is accepted, the one
/// that `solve` returns, and none for an invalid delay; so the proof is
/// checked by computing that one proof and comparing. The crate's own
/// `verify` parses the alleged proof first, and that parser panics on some
/// malformed proofs (a zero first coordinate divides by zero), which a node
/// that checks proofs from its peers must not do.
pub fn verify_solution(difficulty: u64, challenge: &[u8], solution: &[u8]) -> (r: bool)
    ensures
        r == (valid_difficulty(difficulty) && solution@ == pietrzak_solution(challenge@, difficulty)),
{
    match pietrzak_solve(challenge, difficulty) {
        Ok(expected) => bytes_equal(expected.as_slice(), solution),
        Err(_) => false,
    }
}

/// Whether two byte strings are equal.
fn bytes_equal(a: &[u8], b: &[u8]) -> (r: bool)
    ensures
        r == (a@ == b@),
{
    if a.len() != b.len() {
        return false;
    }
    let mut i: usize = 0;
    while i < a.len()
        invariant
            0 <= i <= a@.len(),
            a@.len() == b@.len(),
            forall|j: int| 0 <= j < i ==> a@[j] == b@[j],
        decreases a@.len() - i,
    {
        if a[i] != b[i] {
            return false;
        }
        i = i + 1;
    }
    proof {
        assert(a@ =~= b@);
    }
    true
}

/// Lets the delay `difficulty` pass over `challenge` and returns the proof.
pub fn solve(challenge: &[u8], difficulty: u64) -> (r: Result<Vec<u8>, VdfError>)
    ensures
        r is Ok <==> valid_difficulty(difficulty),
        r matches Ok(s) ==> s@ == pietrzak_solution(challenge@, difficulty),
{
    match pietrzak_solve(challenge, difficulty) {
        Ok(s) => Ok(s),
        Err(_) => Err(VdfError::InvalidIterations),
    }
}

/// The decimal digits of a byte, without leading zeros.
pub open spec fn spec_decimal(n: u8) -> Seq<char> {
    if n < 10 {
        seq![spec_hex_digit(n)]
    } else if n < 100 {
        seq![spec_hex_digit(n / 10), spec_hex_digit(n % 10)]
    } else {
        seq![spec_hex_digit(n / 100), spec_hex_digit((n / 10) % 10), spec_hex_digit(n % 10)]
    }
}

/// The decimal numbers of the bytes of a solution, written one after
/// another.
pub open spec fn spec_solution_to_string(s: Seq<u8>) -> Seq<char>
    decreases s.len(),
{
    if s.len() == 0 {
        Seq::empty()
    } else {
        spec_solution_to_string(s.drop_last()) + spec_decimal(s.last())
    }
}

pub fn solution_to_string(solution: &[u8]) -> (r: String)
    ensures
        r@ == spec_solution_to_string(solution@),
{
    let mut r = String::new();
    let mut i: usize = 0;
    while i < solution.len()
        invariant
            0 <= i <= solution@.len(),
            r@ == spec_solution_to_string(solution@.take(i as int)),
        decreases solution@.len() - i,
    {
        let n = solution[i];
        if n >= 100 {
            r.append(hex_digit_str(n / 100));
        }
        if n >= 10 {
            r.append(hex_digit_str((n / 10) % 10));
        }
        r.append(hex_digit_str(n % 10));
        proof {
            assert(solution@.take(i + 1).drop_last() =~= solution@.take(i as int));
            assert(solution@.take(i + 1).last() == n);
            assert(r@ =~= spec_solution_to_string(solution@.take(i + 1)));
        }
        i = i + 1;
    }
    proof {
        assert(solution@.take(solution@.len() as int) =~= solution@);
    }
    r
}

} // verus!
