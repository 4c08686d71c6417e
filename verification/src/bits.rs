//! Bitboards: a `u64` with one bit per square, bit `i` standing for square `i`.

use vstd::prelude::*;
use vstd::arithmetic::power2::{lemma2_to64, lemma_pow2_unfold, pow2};

verus! {

/// Number of one bits in a word.
pub open spec fn bit_count(x: u64) -> nat
    decreases x,
{
    if x == 0 {
        0
    } else {
        (x % 2) as nat + bit_count(x / 2)
    }
}

/// `u64::count_ones` returns the number of ones in the binary representation of its argument.
pub assume_specification[ u64::count_ones ](x: u64) -> (r: u32)
    ensures
        r == bit_count(x),
;

proof fn lemma_bit_count_below(x: u64, k: nat)
    requires
        (x as nat) < pow2(k),
    ensures
        bit_count(x) <= k,
    decreases k,
{
    if x != 0 {
        if k == 0 {
            lemma2_to64();
        } else {
            lemma_pow2_unfold(k);
            lemma_bit_count_below(x / 2, (k - 1) as nat);
        }
    }
}

/// A word has at most 64 one bits.
pub proof fn lemma_bit_count_bound(x: u64)
    ensures
        bit_count(x) <= 64,
{
    lemma2_to64();
    lemma_bit_count_below(x, 64);
}

/// Whether the bit of square `sq` is set in `board`.
pub open spec fn has_bit(board: u64, sq: int) -> bool {
    0 <= sq < 64 && (board >> (sq as u64)) & 1 == 1
}

/// Whether the bit of square `sq` is set in `board`.
pub fn test_bit(board: u64, sq: u8) -> (r: bool)
    ensures
        r == has_bit(board, sq as int),
{
    sq < 64 && (board >> (sq as u64)) & 1 == 1
}

/// Number of one bits in `board`, never more than 64.
pub fn count_bits(board: u64) -> (r: u32)
    ensures
        r == bit_count(board),
        r <= 64,
{
    proof {
        lemma_bit_count_bound(board);
    }
    board.count_ones()
}

/// Number of squares below `n` whose bit is set in `board`.
pub open spec fn bits_below(board: u64, n: int) -> nat
    decreases n,
{
    if n <= 0 {
        0
    } else {
        bits_below(board, n - 1) + if has_bit(board, n - 1) {
            1nat
        } else {
            0nat
        }
    }
}

/// A square is in both of two bitboards exactly when it is in their intersection, and
/// bitboards without a common bit have no common square.
pub proof fn lemma_common_bit(x: u64, y: u64, e: int)
    requires
        0 <= e < 64,
    ensures
        has_bit(x & y, e) <==> has_bit(x, e) && has_bit(y, e),
        x & y == 0 ==> !has_bit(x & y, e),
{
    let at = e as u64;
    assert(((x & y) >> at) & 1 == 1 <==> ((x >> at) & 1 == 1 && (y >> at) & 1 == 1))
        by (bit_vector)
        requires
            at < 64,
    ;
    assert(x & y == 0 ==> ((x & y) >> at) & 1 == 0) by (bit_vector)
        requires
            at < 64,
    ;
}

proof fn lemma_halved_bit(x: u64, n: int)
    requires
        1 <= n < 64,
    ensures
        has_bit(x / 2, n - 1) == has_bit(x, n),
        has_bit(x, 0) == (x % 2 == 1),
{
    let at = n as u64;
    let before = (n - 1) as u64;
    assert((((x / 2) >> before) & 1 == 1) == ((x >> at) & 1 == 1)) by (bit_vector)
        requires
            1 <= at < 64,
            before == at - 1,
    ;
    assert(((x >> 0) & 1 == 1) == (x % 2 == 1)) by (bit_vector);
}

proof fn lemma_bits_below_halved(x: u64, n: int)
    requires
        0 <= n < 64,
    ensures
        bits_below(x, n + 1) == bits_below(x / 2, n) + if x % 2 == 1 {
            1nat
        } else {
            0nat
        },
    decreases n,
{
    if n == 0 {
        assert(((x >> 0) & 1 == 1) == (x % 2 == 1)) by (bit_vector);
        assert(bits_below(x, 0) == 0);
    } else {
        lemma_bits_below_halved(x, n - 1);
        lemma_halved_bit(x, n);
    }
}

proof fn lemma_no_bits_in_zero(n: int)
    requires
        0 <= n <= 64,
    ensures
        bits_below(0, n) == 0,
    decreases n,
{
    if n > 0 {
        lemma_no_bits_in_zero(n - 1);
        let at = (n - 1) as u64;
        assert((0u64 >> at) & 1 == 0) by (bit_vector);
    }
}

proof fn lemma_bit_count_by_squares(x: u64, k: nat)
    requires
        k <= 64,
        (x as nat) < pow2(k),
    ensures
        bit_count(x) == bits_below(x, k as int),
    decreases k,
{
    if x == 0 {
        lemma_no_bits_in_zero(k as int);
    } else {
        if k == 0 {
            lemma2_to64();
        } else {
            lemma_pow2_unfold(k);
            lemma_bit_count_by_squares(x / 2, (k - 1) as nat);
            lemma_bits_below_halved(x, k - 1);
        }
    }
}

/// The number of one bits of a bitboard is the number of its squares.
pub proof fn lemma_bit_count_counts_squares(x: u64)
    ensures
        bit_count(x) == bits_below(x, 64),
{
    lemma2_to64();
    lemma_bit_count_by_squares(x, 64);
}

} // verus!
