//! Proof of work: a sequential Ascon hash chain bound to a challenge and
//! a payload.
//!
//! The chain starts at the digest of the challenge id, the difficulty and
//! the payload; every step hashes the previous link. A solution is the hex
//! rendering of three 32-byte links: the start, the link after
//! `difficulty / 2` steps and the link after `difficulty` steps.

use vstd::prelude::*;
use crate::hash::{ascon_hash256, tagged_digest, tagged_digest_bytes};
use crate::hex::{decode, encode, hex_decode, hex_encode, lemma_hex_roundtrip};

verus! {

/// Largest payload, in UTF-8 bytes, that a proof may carry.
pub const MAX_PAYLOAD_BYTES: usize = 4096;

/// Largest accepted difficulty (number of chain steps).
pub const MAX_DIFFICULTY: u64 = 10000;

/// Length in bytes of a decoded solution.
pub const SOLUTION_BYTES: usize = 96;

/// Length in hex characters of a solution.
pub const SOLUTION_HEX_CHARS: usize = 192;

/// Domain tag of the chain's starting digest.
pub const SEED_TAG: u8 = 4;

/// Domain tag of every chain step.
pub const STEP_TAG: u8 = 5;

/// A challenge issued by the server: its id (the 128-bit value of a UUID)
/// and the number of chain steps it asks for.
#[derive(Clone, Copy, Debug, PartialEq, Eq, Structural)]
pub struct Challenge {
    pub id: u128,
    pub difficulty: u64,
}

/// A solved challenge for a payload.
#[derive(Clone, Debug)]
pub struct Pow {
    pub challenge: Challenge,
    pub solution: String,
    pub payload: String,
}

/// What the client proves work for.
#[derive(Clone, Debug)]
pub struct ProveInput {
    pub challenge: Challenge,
    pub payload: String,
}

/// Why a proof could not be produced.
#[derive(Clone, Copy, Debug, PartialEq, Eq, Structural)]
pub enum PowError {
    PayloadTooLarge,
    DifficultyOutOfRange,
}

/// The UTF-8 bytes of a character sequence.
pub open spec fn utf8(s: Seq<char>) -> Seq<u8> {
    vstd::utf8::encode_utf8(s)
}

/// Big-endian bytes of a 128-bit value.
pub open spec fn be_u128(v: u128) -> Seq<u8> {
    Seq::new(16, |i: int| (v >> ((8 * (15 - i)) as u32)) as u8)
}

/// Big-endian bytes of a 64-bit value.
pub open spec fn be_u64(v: u64) -> Seq<u8> {
    Seq::new(8, |i: int| (v >> ((8 * (7 - i)) as u32)) as u8)
}

/// The first link of the chain for a challenge and payload.
pub open spec fn chain_seed(id: u128, difficulty: u64, payload: Seq<u8>) -> Seq<u8> {
    tagged_digest(SEED_TAG, be_u128(id) + be_u64(difficulty) + payload)
}

/// The link reached from `start` after `n` steps.
pub open spec fn chain(start: Seq<u8>, n: nat) -> Seq<u8>
    decreases n,
{
    if n == 0 {
        start
    } else {
        tagged_digest(STEP_TAG, chain(start, (n - 1) as nat))
    }
}

/// The solution bytes for a challenge and payload.
pub open spec fn solution_for(id: u128, difficulty: u64, payload: Seq<u8>) -> Seq<u8> {
    let start = chain_seed(id, difficulty, payload);
    start + chain(start, (difficulty / 2) as nat) + chain(start, difficulty as nat)
}

/// Whether a proof is accepted for the expected difficulty.
pub open spec fn pow_valid(pow: Pow, expected: u64) -> bool {
    &&& pow.challenge.difficulty == expected
    &&& 1 <= expected <= MAX_DIFFICULTY
    &&& utf8(pow.payload@).len() <= MAX_PAYLOAD_BYTES
    &&& utf8(pow.solution@).len() == SOLUTION_HEX_CHARS
    &&& hex_decode(utf8(pow.solution@)) == Some(
        solution_for(pow.challenge.id, expected, utf8(pow.payload@)),
    )
}

fn be_bytes_u128(v: u128) -> (r: Vec<u8>)
    ensures
        r@ == be_u128(v),
{
    let mut r: Vec<u8> = Vec::new();
    let mut i: u32 = 0;
    while i < 16
        invariant
            i <= 16,
            r@.len() == i,
            forall|j: int| 0 <= j < i ==> #[trigger] r@[j] == (v >> ((8 * (15 - j)) as u32)) as u8,
        decreases 16 - i,
    {
        let shift: u32 = 8 * (15 - i);
        r.push((v >> shift) as u8);
        i = i + 1;
    }
    assert(r@ =~= be_u128(v));
    r
}

fn be_bytes_u64(v: u64) -> (r: Vec<u8>)
    ensures
        r@ == be_u64(v),
{
    let mut r: Vec<u8> = Vec::new();
    let mut i: u32 = 0;
    while i < 8
        invariant
            i <= 8,
            r@.len() == i,
            forall|j: int| 0 <= j < i ==> #[trigger] r@[j] == (v >> ((8 * (7 - j)) as u32)) as u8,
        decreases 8 - i,
    {
        let shift: u32 = 8 * (7 - i);
        r.push((v >> shift) as u8);
        i = i + 1;
    }
    assert(r@ =~= be_u64(v));
    r
}

/// The chain links for a challenge whose difficulty is at least 1.
fn compute_solution(id: u128, difficulty: u64, payload: &[u8]) -> (r: Vec<u8>)
    requires
        difficulty >= 1,
    ensures
        r@ == solution_for(id, difficulty, payload@),
        r@.len() == SOLUTION_BYTES,
{
    let mut input = be_bytes_u128(id);
    let mut d = be_bytes_u64(difficulty);
    input.append(&mut d);
    input.extend_from_slice(payload);
    assert(input@ =~= be_u128(id) + be_u64(difficulty) + payload@);
    let start = tagged_digest_bytes(SEED_TAG, input.as_slice());
    let ghost seed = start@;
    assert(seed == chain_seed(id, difficulty, payload@));
    let half = difficulty / 2;
    let mut link = start.clone();
    let mut middle: Vec<u8> = Vec::new();
    assert(link@ =~= chain(seed, 0));
    let mut k: u64 = 0;
    while k < difficulty
        invariant
            k <= difficulty,
            half == difficulty / 2,
            seed.len() == 32,
            link@ == chain(seed, k as nat),
            link@.len() == 32,
            k > half ==> middle@ == chain(seed, half as nat),
            k > half ==> middle@.len() == 32,
        decreases difficulty - k,
    {
        if k == half {
            middle = link.clone();
            assert(middle@ =~= link@);
        }
        let next = tagged_digest_bytes(STEP_TAG, link.as_slice());
        link = next;
        k = k + 1;
    }
    let mut out = start;
    out.extend_from_slice(middle.as_slice());
    out.extend_from_slice(link.as_slice());
    assert(out@ =~= seed + chain(seed, half as nat) + chain(seed, difficulty as nat));
    out
}

/// Solves the challenge for the payload.
///
/// Fails when the payload is longer than [`MAX_PAYLOAD_BYTES`] bytes or the
/// difficulty is not in `1..=MAX_DIFFICULTY`; a produced proof is always
/// accepted by [`verify`] at the challenge's difficulty.
pub fn prove(input: ProveInput) -> (r: Result<Pow, PowError>)
    ensures
        utf8(input.payload@).len() > MAX_PAYLOAD_BYTES ==> r == Err::<Pow, PowError>(
            PowError::PayloadTooLarge,
        ),
        utf8(input.payload@).len() <= MAX_PAYLOAD_BYTES && !(1 <= input.challenge.difficulty
            <= MAX_DIFFICULTY) ==> r == Err::<Pow, PowError>(PowError::DifficultyOutOfRange),
        utf8(input.payload@).len() <= MAX_PAYLOAD_BYTES && 1 <= input.challenge.difficulty
            <= MAX_DIFFICULTY ==> r is Ok,
        r matches Ok(p) ==> {
            &&& p.challenge == input.challenge
            &&& p.payload@ == input.payload@
            &&& p.solution@ == hex_encode(
                solution_for(
                    input.challenge.id,
                    input.challenge.difficulty,
                    utf8(input.payload@),
                ),
            )
            &&& pow_valid(p, input.challenge.difficulty)
        },
{
    let payload_bytes = input.payload.as_str().as_bytes();
    if payload_bytes.len() > MAX_PAYLOAD_BYTES {
        return Err(PowError::PayloadTooLarge);
    }
    let difficulty = input.challenge.difficulty;
    if difficulty < 1 || difficulty > MAX_DIFFICULTY {
        return Err(PowError::DifficultyOutOfRange);
    }
    let links = compute_solution(input.challenge.id, difficulty, payload_bytes);
    let solution = encode(links.as_slice());
    proof {
        lemma_hex_roundtrip(links@);
        vstd::utf8::is_ascii_chars_encode_utf8(solution@);
    }
    let pow = Pow { challenge: input.challenge, solution, payload: input.payload };
    Ok(pow)
}

/// Whether `pow` solves its challenge at the expected difficulty.
pub fn verify(pow: &Pow, expected_difficulty: u64) -> (ok: bool)
    ensures
        ok == pow_valid(*pow, expected_difficulty),
{
    if pow.challenge.difficulty != expected_difficulty {
        return false;
    }
    if expected_difficulty < 1 || expected_difficulty > MAX_DIFFICULTY {
        return false;
    }
    let payload_bytes = pow.payload.as_str().as_bytes();
    if payload_bytes.len() > MAX_PAYLOAD_BYTES {
        return false;
    }
    let solution_bytes = pow.solution.as_str().as_bytes();
    if solution_bytes.len() != SOLUTION_HEX_CHARS {
        return false;
    }
    let decoded = match decode(solution_bytes) {
        Some(d) => d,
        None => return false,
    };
    let expected = compute_solution(pow.challenge.id, expected_difficulty, payload_bytes);
    bytes_equal(decoded.as_slice(), expected.as_slice())
}

/// Whether two byte strings are equal.
pub fn bytes_equal(a: &[u8], b: &[u8]) -> (eq: bool)
    ensures
        eq == (a@ == b@),
{
    if a.len() != b.len() {
        return false;
    }
    for i in 0..a.len()
        invariant
            a@.len() == b@.len(),
            forall|j: int| 0 <= j < i ==> a@[j] == b@[j],
    {
        if a[i] != b[i] {
            return false;
        }
    }
    assert(a@ =~= b@);
    true
}

} // verus!
