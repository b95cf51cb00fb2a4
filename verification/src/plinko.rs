use vstd::prelude::*;

use sha2::Digest;

use crate::errors::ErrorKind;

verus! {

/// The risk profile of a plinko drop.
#[derive(Clone, Copy, Debug, PartialEq, Eq, Structural)]
pub enum RiskLevel {
    Low,
    Medium,
    High,
}

/// The number of peg rows on the board.
pub const PLINKO_ROWS: usize = 8;

/// What the SHA-256 digest of a byte string is. The function itself is
/// the outside library's; only that it depends on the input alone is
/// assumed here.
pub uninterp spec fn sha256_of(input: Seq<u8>) -> Seq<u8>;

/// Relies on sha2's SHA-256 digest: 32 bytes, a function of the input
/// bytes alone.
#[verifier::external_body]
fn sha256(input: &Vec<u8>) -> (r: Vec<u8>)
    ensures
        r@ == sha256_of(input@),
        r@.len() == 32,
{
    sha2::Sha256::digest(input.as_slice()).to_vec()
}

/// The big-endian bytes of a timestamp.
pub open spec fn spec_be_bytes(t: u64) -> Seq<u8> {
    seq![
        (t >> 56) as u8,
        (t >> 48) as u8,
        (t >> 40) as u8,
        (t >> 32) as u8,
        (t >> 24) as u8,
        (t >> 16) as u8,
        (t >> 8) as u8,
        t as u8,
    ]
}

/// The fallback randomness seed when the host's beacon is unavailable:
/// the SHA-256 digest of the time and the caller's identity bytes.
pub fn fallback_seed(time: u64, caller: &Vec<u8>) -> (r: Vec<u8>)
    ensures
        r@ == sha256_of(spec_be_bytes(time) + caller@),
        r@.len() == 32,
{
    let mut input: Vec<u8> = Vec::new();
    input.push((time >> 56) as u8);
    input.push((time >> 48) as u8);
    input.push((time >> 40) as u8);
    input.push((time >> 32) as u8);
    input.push((time >> 24) as u8);
    input.push((time >> 16) as u8);
    input.push((time >> 8) as u8);
    input.push(time as u8);
    let n = caller.len();
    let mut k: usize = 0;
    while k < n
        invariant
            n == caller@.len(),
            k <= n,
            input@ == spec_be_bytes(time) + caller@.take(k as int),
        decreases n - k,
    {
        proof {
            assert(caller@.take(k + 1) =~= caller@.take(k as int).push(caller@[k as int]));
            assert((spec_be_bytes(time) + caller@.take(k as int)).push(caller@[k as int])
                =~= spec_be_bytes(time) + caller@.take(k + 1));
        }
        input.push(caller[k]);
        k += 1;
    }
    proof {
        assert(caller@.take(n as int) =~= caller@);
        assert(input@ =~= spec_be_bytes(time) + caller@);
    }
    sha256(&input)
}

/// How many of the first `k` path steps bounce right.
pub open spec fn spec_count_true(s: Seq<bool>, k: int) -> int
    decreases k,
{
    if k <= 0 {
        0
    } else {
        spec_count_true(s, k - 1) + (if s[k - 1] {
            1int
        } else {
            0int
        })
    }
}

proof fn lemma_count_true_push(s: Seq<bool>, x: bool, k: int)
    requires
        0 <= k <= s.len(),
    ensures
        spec_count_true(s.push(x), k) == spec_count_true(s, k),
    decreases k,
{
    if k > 0 {
        assert(s.push(x)[k - 1] == s[k - 1]);
        lemma_count_true_push(s, x, k - 1);
    }
}

/// Decode one ball's path from a random byte string: bit `i` of the
/// first byte decides row `i`, and the final position is the number of
/// rightward bounces.
pub fn ball_path(random_bytes: &Vec<u8>) -> (r: (Vec<bool>, u8))
    requires
        random_bytes@.len() >= 1,
    ensures
        r.0@.len() == PLINKO_ROWS,
        forall|i: int|
            0 <= i < PLINKO_ROWS ==> r.0@[i] == ((random_bytes@[0] >> (i as u8)) & 1 == 1),
        r.1 == spec_count_true(r.0@, PLINKO_ROWS as int),
        r.1 <= PLINKO_ROWS,
{
    let byte = random_bytes[0];
    let mut path: Vec<bool> = Vec::new();
    let mut pos: u8 = 0;
    let mut i: usize = 0;
    while i < PLINKO_ROWS
        invariant
            i <= PLINKO_ROWS,
            path@.len() == i,
            forall|j: int| 0 <= j < i ==> path@[j] == ((byte >> (j as u8)) & 1 == 1),
            pos == spec_count_true(path@, i as int),
            pos <= i,
        decreases PLINKO_ROWS - i,
    {
        let right = (byte >> (i as u8)) & 1 == 1;
        proof {
            lemma_count_true_push(path@, right, i as int);
        }
        path.push(right);
        if right {
            pos = pos + 1;
        }
        i += 1;
    }
    (path, pos)
}

/// The number of equally likely paths that end at `pos` on an 8-row
/// board: the binomial coefficient `C(8, pos)`.
pub open spec fn spec_paths_to(pos: int) -> int {
    if pos == 0 || pos == 8 {
        1
    } else if pos == 1 || pos == 7 {
        8
    } else if pos == 2 || pos == 6 {
        28
    } else if pos == 3 || pos == 5 {
        56
    } else if pos == 4 {
        70
    } else {
        0
    }
}

/// The payout of a bet that landed at `pos`, in e8s: the fair return
/// `256 / C(8, pos)` scaled by the 0.99 house factor, computed exactly
/// as `bet * 25_344 / (100 * C(8, pos))`. Positions past the board are
/// rejected; a payout past the 64-bit range is refused as overflow.
pub fn payout_for_position(bet: u64, pos: u8) -> (r: Result<u64, ErrorKind>)
    ensures
        r is Ok <==> pos <= 8 && (bet * 25_344) / (100 * spec_paths_to(pos as int)) <= u64::MAX,
        match r {
            Ok(v) => {
                &&& pos <= 8
                &&& v == (bet * 25_344) / (100 * spec_paths_to(pos as int))
            },
            Err(e) => {
                &&& (e == ErrorKind::AboveMaximum <==> pos > 8)
                &&& (e == ErrorKind::Overflow <==> pos <= 8 && (bet * 25_344) / (100
                    * spec_paths_to(pos as int)) > u64::MAX)
                &&& (e == ErrorKind::AboveMaximum || e == ErrorKind::Overflow)
            },
        },
{
    if pos > 8 {
        return Err(ErrorKind::AboveMaximum);
    }
    let paths: u64 = if pos == 0 || pos == 8 {
        1
    } else if pos == 1 || pos == 7 {
        8
    } else if pos == 2 || pos == 6 {
        28
    } else if pos == 3 || pos == 5 {
        56
    } else {
        70
    };
    let numerator = (bet as u128) * 25_344;
    let value = numerator / ((100 * paths) as u128);
    if value > u64::MAX as u128 {
        return Err(ErrorKind::Overflow);
    }
    proof {
        assert(paths == spec_paths_to(pos as int));
    }
    Ok(value as u64)
}

} // verus!
