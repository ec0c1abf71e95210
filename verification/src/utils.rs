//! Index bit-reversal: the permutation used as the canonical storage order
//! for domain-indexed data.

use vstd::prelude::*;
use vstd::arithmetic::power2::{pow2, lemma_pow2_pos, lemma_pow2_unfold};
use vstd::arithmetic::div_mod::{lemma_div_denominator, lemma_fundamental_div_mod};

verus! {

/// The low `k` bits of `i`, reversed: the lowest bit becomes the highest.
pub open spec fn bit_rev(i: nat, k: nat) -> nat
    decreases k,
{
    if k == 0 {
        0
    } else {
        (i % 2) * pow2((k - 1) as nat) + bit_rev(i / 2, (k - 1) as nat)
    }
}

/// A reversed index stays below `2^k`.
pub proof fn lemma_bit_rev_range(i: nat, k: nat)
    ensures
        bit_rev(i, k) < pow2(k),
    decreases k,
{
    lemma_pow2_pos(k);
    if k > 0 {
        lemma_bit_rev_range(i / 2, (k - 1) as nat);
        lemma_pow2_unfold(k);
        if i % 2 == 0 {
            assert((i % 2) * pow2((k - 1) as nat) == 0);
        } else {
            assert(i % 2 == 1);
            assert((i % 2) * pow2((k - 1) as nat) == pow2((k - 1) as nat));
        }
    }
}

/// Reversing one more bit appends the next bit of `i` at the bottom.
pub proof fn lemma_bit_rev_step(i: nat, t: nat)
    ensures
        bit_rev(i, t + 1) == 2 * bit_rev(i, t) + (i / pow2(t)) % 2,
    decreases t,
{
    if t == 0 {
        assert(pow2(0) == 1) by {
            vstd::arithmetic::power2::lemma2_to64();
        }
        assert(bit_rev(i, 1) == (i % 2) * pow2(0) + bit_rev(i / 2, 0));
    } else {
        lemma_bit_rev_step(i / 2, (t - 1) as nat);
        lemma_pow2_unfold(t);
        lemma_pow2_pos((t - 1) as nat);
        lemma_div_denominator(i as int, 2, pow2((t - 1) as nat) as int);
        assert((i / 2) / pow2((t - 1) as nat) == i / pow2(t));
        assert(bit_rev(i, t + 1) == (i % 2) * pow2(t) + bit_rev(i / 2, t));
        assert(bit_rev(i / 2, t) == 2 * bit_rev(i / 2, (t - 1) as nat) + (i / pow2(t)) % 2);
        assert((i % 2) * pow2(t) == 2 * ((i % 2) * pow2((t - 1) as nat)))
            by (nonlinear_arith)
            requires
                pow2(t) == 2 * pow2((t - 1) as nat),
        ;
    }
}

/// Reversal of a value split into a top bit `b` and a low part `j`.
proof fn lemma_bit_rev_split(b: nat, j: nat, k: nat)
    requires
        b < 2,
        k >= 1,
        j < pow2((k - 1) as nat),
    ensures
        bit_rev(b * pow2((k - 1) as nat) + j, k) == 2 * bit_rev(j, (k - 1) as nat) + b,
    decreases k,
{
    let x = b * pow2((k - 1) as nat) + j;
    if k == 1 {
        assert(pow2(0) == 1) by {
            vstd::arithmetic::power2::lemma2_to64();
        }
        assert(j == 0);
        assert(x == b);
        assert(bit_rev(b, 1) == (b % 2) * pow2(0) + bit_rev(b / 2, 0));
    } else {
        lemma_pow2_unfold((k - 1) as nat);
        lemma_pow2_pos((k - 2) as nat);
        // x = 2 * (b * pow2(k-2) + j/2) + j % 2.
        assert(x == 2 * (b * pow2((k - 2) as nat) + j / 2) + j % 2) by (nonlinear_arith)
            requires
                x == b * pow2((k - 1) as nat) + j,
                pow2((k - 1) as nat) == 2 * pow2((k - 2) as nat),
                j == 2 * (j / 2) + j % 2,
        ;
        assert(x % 2 == j % 2 && x / 2 == b * pow2((k - 2) as nat) + j / 2) by (nonlinear_arith)
            requires
                x == 2 * (b * pow2((k - 2) as nat) + j / 2) + j % 2,
                0 <= j % 2 < 2,
        ;
        assert(j / 2 < pow2((k - 2) as nat)) by (nonlinear_arith)
            requires
                j < pow2((k - 1) as nat),
                pow2((k - 1) as nat) == 2 * pow2((k - 2) as nat),
                j == 2 * (j / 2) + j % 2,
                0 <= j % 2,
        ;
        lemma_bit_rev_split(b, j / 2, (k - 1) as nat);
        assert(bit_rev(x, k) == (j % 2) * pow2((k - 1) as nat) + 2 * bit_rev(j / 2, (k - 2) as nat)
            + b);
        assert(bit_rev(j, (k - 1) as nat) == (j % 2) * pow2((k - 2) as nat) + bit_rev(
            j / 2,
            (k - 2) as nat,
        ));
        assert((j % 2) * pow2((k - 1) as nat) == 2 * ((j % 2) * pow2((k - 2) as nat)))
            by (nonlinear_arith)
            requires
                pow2((k - 1) as nat) == 2 * pow2((k - 2) as nat),
        ;
    }
}

/// Reversing the low `k` bits twice restores any index below `2^k`.
pub proof fn lemma_bit_rev_involution(i: nat, k: nat)
    requires
        i < pow2(k),
    ensures
        bit_rev(bit_rev(i, k), k) == i,
    decreases k,
{
    if k == 0 {
        assert(pow2(0) == 1) by {
            vstd::arithmetic::power2::lemma2_to64();
        }
    } else {
        let b = i % 2;
        let j = bit_rev(i / 2, (k - 1) as nat);
        lemma_bit_rev_range(i / 2, (k - 1) as nat);
        assert(bit_rev(i, k) == b * pow2((k - 1) as nat) + j);
        lemma_bit_rev_split(b, j, k);
        lemma_pow2_unfold(k);
        assert(i / 2 < pow2((k - 1) as nat)) by (nonlinear_arith)
            requires
                i < pow2(k),
                pow2(k) == 2 * pow2((k - 1) as nat),
                i == 2 * (i / 2) + i % 2,
                0 <= i % 2,
        ;
        lemma_bit_rev_involution(i / 2, (k - 1) as nat);
        assert(bit_rev(bit_rev(i, k), k) == 2 * (i / 2) + b);
        lemma_fundamental_div_mod(i as int, 2);
    }
}

/// The sequence permuted into bit-reversed order.
pub open spec fn bit_reversed_seq<T>(s: Seq<T>, k: nat) -> Seq<T> {
    Seq::new(s.len(), |i: int| s[bit_rev(i as nat, k) as int])
}

/// Permuting into bit-reversed order twice restores any sequence of length
/// `2^k`.
pub proof fn lemma_bit_reverse_involution<T>(s: Seq<T>, k: nat)
    requires
        s.len() == pow2(k),
    ensures
        bit_reversed_seq(bit_reversed_seq(s, k), k) == s,
{
    let twice = bit_reversed_seq(bit_reversed_seq(s, k), k);
    assert forall|i: int| 0 <= i < s.len() implies twice[i] == s[i] by {
        lemma_bit_rev_range(i as nat, k);
        lemma_bit_rev_involution(i as nat, k);
    }
    assert(twice =~= s);
}

/// The reversed low bits of `i`, as executable code.
pub fn bit_reverse_index(i: usize, log_size: u32) -> (r: usize)
    requires
        log_size <= 31,
        (i as nat) < pow2(log_size as nat),
    ensures
        r as nat == bit_rev(i as nat, log_size as nat),
        (r as nat) < pow2(log_size as nat),
{
    proof {
        vstd::arithmetic::power2::lemma2_to64();
    }
    let mut acc: usize = 0;
    let mut x = i;
    let mut t: u32 = 0;
    while t < log_size
        invariant
            log_size <= 31,
            t <= log_size,
            acc as nat == bit_rev(i as nat, t as nat),
            (acc as nat) < pow2(t as nat),
            pow2(t as nat) <= pow2(31),
            pow2(31) == 0x8000_0000,
            x as nat == (i as nat) / pow2(t as nat),
        decreases log_size - t,
    {
        proof {
            lemma_bit_rev_step(i as nat, t as nat);
            lemma_pow2_unfold((t + 1) as nat);
            if t + 1 < 31 {
                vstd::arithmetic::power2::lemma_pow2_strictly_increases((t + 1) as nat, 31);
            }
            lemma_pow2_pos(t as nat);
            lemma_div_denominator(i as int, pow2(t as nat) as int, 2);
        }
        acc = 2 * acc + x % 2;
        x = x / 2;
        t = t + 1;
    }
    proof {
        lemma_bit_rev_range(i as nat, log_size as nat);
    }
    acc
}

/// A copy of the sequence in bit-reversed order: entry `i` of the result is
/// entry `bit_rev(i)` of the input.
pub fn bit_reverse<T: Copy>(v: &Vec<T>, log_size: u32) -> (r: Vec<T>)
    requires
        log_size <= 31,
        v@.len() == pow2(log_size as nat),
    ensures
        r@.len() == v@.len(),
        forall|i: int|
            0 <= i < v@.len() ==> #[trigger] r@[i] == v@[bit_rev(i as nat, log_size as nat) as int],
        r@ == bit_reversed_seq(v@, log_size as nat),
{
    let n = v.len();
    let mut out: Vec<T> = Vec::new();
    let mut i: usize = 0;
    while i < n
        invariant
            log_size <= 31,
            n == v@.len(),
            v@.len() == pow2(log_size as nat),
            i <= n,
            out@.len() == i,
            forall|j: int|
                0 <= j < i ==> #[trigger] out@[j] == v@[bit_rev(j as nat, log_size as nat) as int],
        decreases n - i,
    {
        let src = bit_reverse_index(i, log_size);
        out.push(v[src]);
        i = i + 1;
    }
    proof {
        assert(out@ =~= bit_reversed_seq(v@, log_size as nat));
    }
    out
}

} // verus!
