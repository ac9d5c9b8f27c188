use crate::utils::{
    be_bytes, be_value, convert_to_hex_string, convert_to_int_string, decimal_of, decimal_of_be,
    hex_bytes, hex_decode, hex_text, is_hex_text, lemma_be_value_of_bytes, lemma_decimal_of,
    lemma_hex_round_trip, lemma_hex_text_subrange, sha512, sha512_of, ConvertInputValueType,
    HexStringInvalid,
};
use num_bigint::BigUint;
use vstd::arithmetic::div_mod::{lemma_fundamental_div_mod, lemma_small_mod};
use vstd::arithmetic::power2::{lemma2_to64, lemma_pow2_adds, lemma_pow2_pos, pow2};
use vstd::prelude::*;
use vstd::string::*;

verus! {

/// The most draws that one request may ask for.
pub const MAX_ITERATIONS: usize = 3100;

#[derive(Debug, PartialEq, Eq, Clone, Copy, Structural)]
pub struct IterationsExceeded;

/// One draw: the ticket, the seed it leads to and the random half of the digest, both as hex.
#[derive(Debug)]
pub struct RngResult {
    pub ticket_number: u64,
    pub new_seed: String,
    pub random_result: String,
}

#[derive(Debug)]
pub struct RngInputs {
    pub initial_seed: String,
    pub iterations: usize,
    pub limit: u64,
}

#[derive(Debug)]
pub struct RngOutput {
    pub results: Vec<RngResult>,
}

/// SHA-512 of the seed's shortest big-endian bytes.
pub open spec fn seed_digest(seed: nat) -> Seq<u8> {
    sha512_of(be_bytes(seed))
}

/// The seed that follows: the first half of the digest, big-endian.
pub open spec fn next_seed(seed: nat) -> nat {
    be_value(seed_digest(seed).subrange(0, 32))
}

/// The seed after `k` steps.
pub open spec fn seed_at(seed: nat, k: nat) -> nat
    decreases k,
{
    if k == 0 {
        seed
    } else {
        next_seed(seed_at(seed, (k - 1) as nat))
    }
}

/// `r` scaled from `[0, 2^256)` into `[0, limit)`, kept to its low 64 bits.
pub open spec fn ticket_of(r: nat, limit: u64) -> nat {
    (r * (limit as nat) / pow2(256)) % pow2(64)
}

/// `d` is the draw made from `seed`.
pub open spec fn is_draw(d: RngResult, seed: nat, limit: u64) -> bool {
    let h = seed_digest(seed);
    &&& h.len() == 64
    &&& d.ticket_number == ticket_of(be_value(h.subrange(32, 64)), limit)
    &&& d.new_seed@ == hex_text(h.subrange(0, 32))
    &&& d.random_result@ == hex_text(h.subrange(32, 64))
}

/// `out` is the `n` draws made in turn from `seed`.
pub open spec fn is_draw_sequence(out: Seq<RngResult>, seed: nat, n: nat, limit: u64) -> bool {
    &&& out.len() == n
    &&& forall|i: int| 0 <= i < n ==> is_draw(#[trigger] out[i], seed_at(seed, i as nat), limit)
}

/// Relies on `BigUint`'s `Mul`: the exact product, read and written with
/// `from_bytes_be` and `to_bytes_be`.
#[verifier::external_body]
fn mul_be(a: &[u8], k: u64) -> (r: Vec<u8>)
    ensures
        r@ == be_bytes(be_value(a@) * (k as nat)),
{
    (BigUint::from_bytes_be(a) * BigUint::from(k)).to_bytes_be()
}

/// Relies on `BigUint`'s `Shr`: division by a power of two, rounded down.
#[verifier::external_body]
fn shr_be(a: &[u8], bits: usize) -> (r: Vec<u8>)
    ensures
        r@ == be_bytes(be_value(a@) / pow2(bits as nat)),
{
    (BigUint::from_bytes_be(a) >> bits).to_bytes_be()
}

/// Relies on `BigUint::to_u64_digits`: its first digit holds the low 64 bits, and zero has
/// no digit.
#[verifier::external_body]
fn low_u64(a: &[u8]) -> (r: u64)
    ensures
        r == be_value(a@) % pow2(64),
{
    BigUint::from_bytes_be(a).to_u64_digits().first().copied().unwrap_or(0)
}

pub proof fn lemma_be_value_bound(b: Seq<u8>)
    ensures
        be_value(b) < pow2(8 * b.len()),
    decreases b.len(),
{
    if b.len() == 0 {
        lemma_pow2_pos(0);
    } else {
        lemma_be_value_bound(b.drop_last());
        lemma_pow2_adds(8 * (b.len() - 1) as nat, 8);
        lemma2_to64();
        assert(8 * b.len() == 8 * (b.len() - 1) as nat + 8);
    }
}

/// A 256-bit value scaled into a positive limit lands below it.
pub proof fn lemma_ticket_below_limit(r: nat, limit: u64)
    requires
        r < pow2(256),
        limit > 0,
    ensures
        ticket_of(r, limit) < limit,
        ticket_of(r, limit) == r * (limit as nat) / pow2(256),
{
    let m = pow2(256) as int;
    let x = r * limit;
    lemma_pow2_pos(256);
    lemma_fundamental_div_mod(x, m);
    let q = x / m;
    assert(q < limit) by (nonlinear_arith)
        requires
            x == m * q + x % m,
            x % m >= 0,
            x == r * limit,
            r < m,
            limit > 0,
    ;
    lemma2_to64();
    lemma_small_mod(q as nat, pow2(64));
}

pub proof fn lemma_seed_at_add(seed: nat, k: nat, j: nat)
    ensures
        seed_at(seed_at(seed, k), j) == seed_at(seed, k + j),
    decreases j,
{
    if j > 0 {
        lemma_seed_at_add(seed, k, (j - 1) as nat);
        assert(seed_at(seed, k + j) == next_seed(seed_at(seed, (k + j - 1) as nat)));
    }
}

/// Draws `iterations` tickets below `limit`, each seed the first half of the SHA-512
/// digest of the one before.
pub fn random(initial_seed: &str, iterations: usize, limit: u64) -> (r: Result<
    Vec<RngResult>,
    HexStringInvalid,
>)
    ensures
        match r {
            Ok(v) => is_hex_text(initial_seed@) && is_draw_sequence(
                v@,
                be_value(hex_bytes(initial_seed@)),
                iterations as nat,
                limit,
            ),
            Err(_) => !is_hex_text(initial_seed@),
        },
        r matches Ok(v) ==> (limit > 0 ==> forall|i: int|
            0 <= i < v.len() ==> #[trigger] v[i].ticket_number < limit),
{
    let mut current: String = match convert_to_int_string(
        initial_seed.to_owned(),
        ConvertInputValueType::Be,
    ) {
        Ok(s) => s,
        Err(e) => {
            return Err(e);
        },
    };
    let ghost seed0 = be_value(hex_bytes(initial_seed@));
    let mut results: Vec<RngResult> = Vec::new();
    let mut i: usize = 0;
    while i < iterations
        invariant
            i <= iterations,
            is_hex_text(initial_seed@),
            seed0 == be_value(hex_bytes(initial_seed@)),
            current@ == decimal_of(seed_at(seed0, i as nat)),
            results@.len() == i,
            forall|k: int|
                0 <= k < i ==> is_draw(#[trigger] results@[k], seed_at(seed0, k as nat), limit),
            limit > 0 ==> forall|k: int| 0 <= k < i ==> #[trigger] results@[k].ticket_number < limit,
        decreases iterations - i,
    {
        let ghost s = seed_at(seed0, i as nat);
        let ghost digest = seed_digest(s);
        proof {
            lemma_decimal_of(s);
            lemma_hex_round_trip(be_bytes(s));
        }
        let hex = match convert_to_hex_string(current, ConvertInputValueType::Be) {
            Ok(h) => h,
            Err(_) => {
                return Err(HexStringInvalid);
            },
        };
        let hash = match sha512(hex) {
            Ok(h) => h,
            Err(e) => {
                return Err(e);
            },
        };
        proof {
            assert(hash@ == hex_text(digest));
            lemma_hex_text_subrange(digest, 0, 32);
            lemma_hex_text_subrange(digest, 32, 64);
            lemma_hex_round_trip(digest.subrange(0, 32));
            lemma_hex_round_trip(digest.subrange(32, 64));
        }
        let first_half_hex = hash.as_str().substring_char(0, 64);
        let second_half_hex = hash.as_str().substring_char(64, 128);
        let first_half_bytes = match hex_decode(first_half_hex) {
            Some(b) => b,
            None => {
                return Err(HexStringInvalid);
            },
        };
        let second_half_bytes = match hex_decode(second_half_hex) {
            Some(b) => b,
            None => {
                return Err(HexStringInvalid);
            },
        };
        current = decimal_of_be(first_half_bytes.as_slice());

        let product = mul_be(second_half_bytes.as_slice(), limit);
        let scaled = shr_be(product.as_slice(), 256);
        let ticket_number = low_u64(scaled.as_slice());
        proof {
            let rv = be_value(digest.subrange(32, 64));
            lemma_be_value_of_bytes(rv * (limit as nat));
            lemma_be_value_of_bytes(rv * (limit as nat) / pow2(256));
            lemma_be_value_bound(digest.subrange(32, 64));
            if limit > 0 {
                lemma_ticket_below_limit(rv, limit);
            }
        }
        let draw = RngResult {
            ticket_number,
            new_seed: first_half_hex.to_owned(),
            random_result: second_half_hex.to_owned(),
        };
        results.push(draw);
        i = i + 1;
    }
    Ok(results)
}

pub fn api_random(rng_inputs: RngInputs) -> (r: Result<RngOutput, HexStringInvalid>)
    ensures
        match r {
            Ok(o) => is_hex_text(rng_inputs.initial_seed@) && is_draw_sequence(
                o.results@,
                be_value(hex_bytes(rng_inputs.initial_seed@)),
                rng_inputs.iterations as nat,
                rng_inputs.limit,
            ),
            Err(_) => !is_hex_text(rng_inputs.initial_seed@),
        },
{
    match random(rng_inputs.initial_seed.as_str(), rng_inputs.iterations, rng_inputs.limit) {
        Ok(results) => Ok(RngOutput { results }),
        Err(e) => Err(e),
    }
}

/// Refuses a request for more draws than `MAX_ITERATIONS`.
pub fn check_iterations(iterations: usize) -> (r: Result<(), IterationsExceeded>)
    ensures
        r is Ok <==> iterations <= MAX_ITERATIONS,
{
    if iterations > MAX_ITERATIONS {
        Err(IterationsExceeded)
    } else {
        Ok(())
    }
}

/// Two runs of `random` on the same seed, count and limit give the same draws.
pub proof fn lemma_draws_deterministic(
    initial_seed: Seq<char>,
    iterations: nat,
    limit: u64,
    a: Seq<RngResult>,
    b: Seq<RngResult>,
)
    requires
        is_draw_sequence(a, be_value(hex_bytes(initial_seed)), iterations, limit),
        is_draw_sequence(b, be_value(hex_bytes(initial_seed)), iterations, limit),
    ensures
        a.len() == b.len(),
        forall|i: int|
            0 <= i < a.len() ==> {
                &&& (#[trigger] a[i]).ticket_number == b[i].ticket_number
                &&& a[i].new_seed@ == b[i].new_seed@
                &&& a[i].random_result@ == b[i].random_result@
            },
{
    assert forall|i: int| 0 <= i < a.len() implies {
        &&& (#[trigger] a[i]).ticket_number == b[i].ticket_number
        &&& a[i].new_seed@ == b[i].new_seed@
        &&& a[i].random_result@ == b[i].random_result@
    } by {
        assert(is_draw(a[i], seed_at(be_value(hex_bytes(initial_seed)), i as nat), limit));
        assert(is_draw(b[i], seed_at(be_value(hex_bytes(initial_seed)), i as nat), limit));
    }
}

/// Each ticket of a positive limit lies in `[0, limit)`.
pub proof fn lemma_draws_below_limit(seed: nat, iterations: nat, limit: u64, a: Seq<RngResult>)
    requires
        is_draw_sequence(a, seed, iterations, limit),
        limit > 0,
    ensures
        forall|i: int| 0 <= i < a.len() ==> #[trigger] a[i].ticket_number < limit,
{
    assert forall|i: int| 0 <= i < a.len() implies #[trigger] a[i].ticket_number < limit by {
        let h = seed_digest(seed_at(seed, i as nat));
        assert(is_draw(a[i], seed_at(seed, i as nat), limit));
        lemma_be_value_bound(h.subrange(32, 64));
        lemma_ticket_below_limit(be_value(h.subrange(32, 64)), limit);
    }
}

/// Starting again from the new seed of draw `k`, with the draws that are left, gives the
/// rest of the sequence.
pub proof fn lemma_replay_from_draw(
    seed: nat,
    iterations: nat,
    limit: u64,
    a: Seq<RngResult>,
    k: int,
    b: Seq<RngResult>,
)
    requires
        is_draw_sequence(a, seed, iterations, limit),
        0 <= k < iterations,
        is_draw_sequence(
            b,
            be_value(hex_bytes(a[k].new_seed@)),
            (iterations - k - 1) as nat,
            limit,
        ),
    ensures
        is_hex_text(a[k].new_seed@),
        b.len() == a.len() - k - 1,
        forall|j: int|
            0 <= j < b.len() ==> {
                &&& (#[trigger] b[j]).ticket_number == a[k + 1 + j].ticket_number
                &&& b[j].new_seed@ == a[k + 1 + j].new_seed@
                &&& b[j].random_result@ == a[k + 1 + j].random_result@
            },
{
    let s = seed_at(seed, k as nat);
    assert(is_draw(a[k], s, limit));
    let first = seed_digest(s).subrange(0, 32);
    lemma_hex_round_trip(first);
    assert(be_value(hex_bytes(a[k].new_seed@)) == seed_at(seed, (k + 1) as nat));
    assert forall|j: int| 0 <= j < b.len() implies {
        &&& (#[trigger] b[j]).ticket_number == a[k + 1 + j].ticket_number
        &&& b[j].new_seed@ == a[k + 1 + j].new_seed@
        &&& b[j].random_result@ == a[k + 1 + j].random_result@
    } by {
        lemma_seed_at_add(seed, (k + 1) as nat, j as nat);
        assert(is_draw(b[j], seed_at(seed_at(seed, (k + 1) as nat), j as nat), limit));
        assert(is_draw(a[k + 1 + j], seed_at(seed, (k + 1 + j) as nat), limit));
    }
}

} // verus!
