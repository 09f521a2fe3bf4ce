//! The index permutation of the radix-2 FFT: before its butterfly stages,
//! the Cooley-Tukey FFT puts the sample at index `i` at the index whose
//! binary digits are those of `i` in reverse order.
use vstd::prelude::*;
use vstd::arithmetic::power2::{pow2, lemma_pow2_unfold, lemma_pow2_pos, lemma_pow2_strictly_increases, lemma2_to64, lemma2_to64_rest};
use vstd::bits::{lemma_usize_shl_is_mul, lemma_usize_shr_is_div};
use vstd::arithmetic::div_mod::{lemma_mod_mod, lemma_div_denominator, lemma_mod_breakdown, lemma_fundamental_div_mod};

verus! {

/// `x` with its lowest `bits` binary digits in reverse order.
pub open spec fn reverse_bits(x: nat, bits: nat) -> nat
    decreases bits,
{
    if bits == 0 {
        0
    } else {
        (x % 2) * pow2((bits - 1) as nat) + reverse_bits(x / 2, (bits - 1) as nat)
    }
}

/// The number of binary digits below the highest one of `n` (the base-2
/// logarithm of a power of two).
pub open spec fn log2(n: nat) -> nat
    decreases n,
{
    if n <= 1 {
        0
    } else {
        1 + log2(n / 2)
    }
}

/// `n` is a power of two.
pub open spec fn is_power_of_two(n: nat) -> bool {
    pow2(log2(n)) == n
}

/// The index that the sample at index `i` of an `n`-point FFT moves to.
pub open spec fn bit_reversed_index(i: nat, n: nat) -> nat {
    reverse_bits(i, log2(n))
}

proof fn lemma_reverse_bits_bound(x: nat, bits: nat)
    ensures
        reverse_bits(x, bits) < pow2(bits),
    decreases bits,
{
    if bits == 0 {
        lemma2_to64();
    } else {
        let b1 = (bits - 1) as nat;
        lemma_reverse_bits_bound(x / 2, b1);
        lemma_pow2_unfold(bits);
        assert((x % 2) * pow2(b1) <= pow2(b1)) by (nonlinear_arith)
            requires
                x % 2 <= 1,
        ;
    }
}

/// Reversing `bits + 1` digits moves the top digit to the bottom and
/// reverses the lower `bits` digits above it (while, by definition, the
/// bottom digit goes to the top). With `reverse_bits(x, 0) == 0` this
/// fixes the reversal of every number.
pub proof fn lemma_reverse_bits_top(x: nat, bits: nat)
    requires
        x < pow2(bits + 1),
    ensures
        reverse_bits(x, bits + 1) == 2 * reverse_bits(x % pow2(bits), bits) + x / pow2(bits),
    decreases bits,
{
    lemma_pow2_pos(bits);
    if bits == 0 {
        lemma2_to64();
    } else {
        let b1 = (bits - 1) as nat;
        let p = pow2(b1);
        lemma_pow2_unfold(bits);
        lemma_pow2_unfold(bits + 1);
        lemma_pow2_pos(b1);
        assert(x / 2 < pow2(bits));
        lemma_reverse_bits_top(x / 2, b1);
        // (x % 2p) % 2 == x % 2
        lemma_mod_mod(x as int, 2, p as int);
        // x % 2p == 2 * ((x / 2) % p) + x % 2
        lemma_mod_breakdown(x as int, 2, p as int);
        // (x / 2) / p == x / 2p
        lemma_div_denominator(x as int, 2, p as int);
        let xm = x % pow2(bits);
        assert(xm / 2 == (x / 2) % p);
        assert(xm % 2 == x % 2);
        assert((x / 2) / p == x / pow2(bits));
        let r_low = reverse_bits((x / 2) % p, b1);
        assert(reverse_bits(x / 2, bits) == 2 * r_low + (x / 2) / p);
        assert(reverse_bits(xm, bits) == (x % 2) * p + r_low);
        assert(reverse_bits(x, bits + 1) == (x % 2) * pow2(bits) + reverse_bits(x / 2, bits));
        assert((x % 2) * pow2(bits) == 2 * ((x % 2) * p)) by (nonlinear_arith)
            requires
                pow2(bits) == 2 * p,
        ;
    }
}

/// Reversing the digits twice gives the number back.
pub proof fn lemma_reverse_bits_involution(x: nat, bits: nat)
    requires
        x < pow2(bits),
    ensures
        reverse_bits(reverse_bits(x, bits), bits) == x,
    decreases bits,
{
    if bits == 0 {
        lemma2_to64();
    } else {
        let b1 = (bits - 1) as nat;
        let p = pow2(b1);
        lemma_pow2_pos(b1);
        lemma_pow2_unfold(bits);
        lemma_reverse_bits_top(x, b1);
        let low = x % p;
        let top = x / p;
        assert(top <= 1) by (nonlinear_arith)
            requires
                x < 2 * p,
                top == x / p,
                p > 0,
        ;
        let r = reverse_bits(low, b1);
        lemma_reverse_bits_bound(low, b1);
        lemma_reverse_bits_involution(low, b1);
        let y = 2 * r + top;
        assert(y % 2 == top);
        assert(y / 2 == r);
        lemma_fundamental_div_mod(x as int, p as int);
        assert(x == top * p + low) by (nonlinear_arith)
            requires
                x == p * (x / p) + x % p,
                top == x / p,
                low == x % p,
        ;
    }
}

/// Clearing the run of leading one digits of `j` (looking down from digit
/// `m`) and setting the zero digit below it: how the reversed index of
/// `i + 1` follows from that of `i`.
pub open spec fn reverse_increment(j: nat, m: nat) -> nat
    decreases m,
{
    if j >= pow2(m) {
        if m == 0 {
            0
        } else {
            reverse_increment((j - pow2(m)) as nat, (m - 1) as nat)
        }
    } else {
        j + pow2(m)
    }
}

/// Adding one to `i` adds one at the top of its reversal.
proof fn lemma_reverse_increment(i: nat, bits: nat)
    requires
        bits >= 1,
        i + 1 < pow2(bits),
    ensures
        reverse_increment(reverse_bits(i, bits), (bits - 1) as nat) == reverse_bits(i + 1, bits),
    decreases bits,
{
    let b1 = (bits - 1) as nat;
    lemma_pow2_unfold(bits);
    lemma_reverse_bits_bound(i / 2, b1);
    if i % 2 == 0 {
        assert((i + 1) / 2 == i / 2);
        assert((i + 1) % 2 == 1);
    } else {
        if b1 == 0 {
            lemma2_to64();
        } else {
            assert((i + 1) / 2 == i / 2 + 1);
            assert((i + 1) % 2 == 0);
            lemma_pow2_unfold(b1);
            assert(i / 2 + 1 < pow2(b1));
            lemma_reverse_increment(i / 2, b1);
        }
    }
}


/// For a digit `1 << m` and a number below `2 << m`: the digit is set
/// exactly when the number reaches it, and flipping it subtracts or adds it.
proof fn lemma_flip_top_digit(j: usize, m: usize)
    by (bit_vector)
    requires
        m + 1 < usize::BITS,
        j < (1usize << m) + (1usize << m),
    ensures
        ((j & (1usize << m)) != 0) == (j >= (1usize << m)),
        j >= (1usize << m) ==> (j ^ (1usize << m)) == j - (1usize << m),
        j < (1usize << m) ==> (j ^ (1usize << m)) == j + (1usize << m),
{
}

/// `1 << m` is the `m`-th power of two.
proof fn lemma_digit_is_pow2(m: nat)
    requires
        m + 1 < usize::BITS,
    ensures
        (1usize << (m as usize)) == pow2(m),
        pow2(m + 1) <= usize::MAX,
{
    lemma2_to64();
    lemma2_to64_rest();
    lemma_pow2_strictly_increases(m + 1, usize::BITS as nat);
    lemma_usize_shl_is_mul(1, m as usize);
}

/// The permutation `(re, im)` undergo: the sample at `i` moves to
/// `bit_reversed_index(i, n)`, and (the reversal being its own inverse)
/// position `k` receives the sample from `bit_reversed_index(k, n)`.
pub open spec fn bit_reversed<T>(data: Seq<T>) -> Seq<T> {
    Seq::new(data.len(), |k: int| data[bit_reversed_index(k as nat, data.len()) as int])
}

/// The contents of `data` while the permutation is under way: the pairs
/// `(k, reverse(k))` with an index below `done` have been exchanged.
spec fn partly_reversed<T>(orig: Seq<T>, bits: nat, done: nat, data: Seq<T>) -> bool {
    &&& data.len() == orig.len()
    &&& forall|k: int|
        0 <= k < orig.len() ==> #[trigger] data[k] == if k < done || reverse_bits(k as nat, bits) < done {
            orig[reverse_bits(k as nat, bits) as int]
        } else {
            orig[k]
        }
}

/// Exchange `data[i]` and `data[j]`.
fn swap_entries<T: Copy>(data: &mut [T], i: usize, j: usize)
    requires
        i < old(data)@.len(),
        j < old(data)@.len(),
    ensures
        final(data)@ == old(data)@.update(i as int, old(data)@[j as int]).update(j as int, old(data)@[i as int]),
{
    let a = data[i];
    let b = data[j];
    data[i] = b;
    data[j] = a;
}

proof fn lemma_exchange_step<T>(orig: Seq<T>, bits: nat, i: nat, j: nat, before: Seq<T>, after: Seq<T>)
    requires
        orig.len() == pow2(bits),
        i < orig.len(),
        j == reverse_bits(i, bits),
        partly_reversed(orig, bits, i, before),
        after == if i < j { before.update(i as int, before[j as int]).update(j as int, before[i as int]) } else { before },
    ensures
        partly_reversed(orig, bits, i + 1, after),
{
    lemma_reverse_bits_bound(i, bits);
    lemma_reverse_bits_involution(i, bits);
    assert forall|k: int| 0 <= k < orig.len() implies #[trigger] after[k] == if k < i + 1 || reverse_bits(k as nat, bits) < i + 1 {
        orig[reverse_bits(k as nat, bits) as int]
    } else {
        orig[k]
    } by {
        lemma_reverse_bits_involution(k as nat, bits);
        lemma_reverse_bits_bound(k as nat, bits);
        assert(before[k] == before[k]);
        assert(before[i as int] == before[i as int]);
        assert(before[j as int] == before[j as int]);
        if k == j && k != i {
            assert(reverse_bits(k as nat, bits) == i);
        }
        if reverse_bits(k as nat, bits) == i {
            assert(k == j);
        }
    }
}

/// The first phase of the in-place radix-2 Cooley-Tukey FFT: reorder
/// `re` and `im` (of the same power-of-two length) by bit reversal of the
/// indices.
pub fn bit_reverse_permute<T: Copy>(re: &mut [T], im: &mut [T])
    requires
        is_power_of_two(old(re)@.len() as nat),
        old(im)@.len() == old(re)@.len(),
    ensures
        final(re)@ == bit_reversed(old(re)@),
        final(im)@ == bit_reversed(old(im)@),
        final(re)@.len() == old(re)@.len() && final(im)@.len() == old(im)@.len(),
        forall|i: int|
            0 <= i < old(re)@.len() ==> #[trigger] final(re)@[reverse_bits(i as nat, log2(old(re)@.len() as nat)) as int]
                == old(re)@[i] && final(im)@[reverse_bits(i as nat, log2(old(re)@.len() as nat)) as int] == old(im)@[i],
{
    let n = re.len();
    let ghost bits = log2(n as nat);
    let ghost orig_re = re@;
    let ghost orig_im = im@;
    proof {
        lemma_pow2_pos(bits);
        lemma2_to64();
        lemma2_to64_rest();
        if bits > usize::BITS {
            lemma_pow2_strictly_increases(usize::BITS as nat, bits);
        }
        lemma_reverse_bits_zero(bits);
    }
    let mut j: usize = 0;
    let mut i: usize = 1;
    while i < n
        invariant
            1 <= i <= n,
            n == orig_re.len(),
            n == orig_im.len(),
            n == pow2(bits),
            bits < usize::BITS,
            j == reverse_bits((i - 1) as nat, bits),
            partly_reversed(orig_re, bits, i as nat, re@),
            partly_reversed(orig_im, bits, i as nat, im@),
        decreases n - i,
    {
        proof {
            if bits == 0 {
                lemma2_to64();
            }
            lemma_pow2_unfold(bits);
            lemma_reverse_bits_bound((i - 1) as nat, bits);
            lemma_reverse_increment((i - 1) as nat, bits);
            lemma_usize_shr_is_div(n, 1);
            lemma2_to64();
        }
        let ghost target = reverse_bits(i as nat, bits);
        proof {
            lemma_reverse_bits_involution(i as nat, bits);
            lemma_reverse_bits_zero(bits);
        }
        let mut bit = n >> 1;
        let ghost mut m: nat = (bits - 1) as nat;
        proof {
            lemma_digit_is_pow2(m);
            lemma_pow2_unfold(m + 1);
            lemma_flip_top_digit(j, m as usize);
        }
        while j & bit != 0
            invariant
                bits >= 1,
                m < bits,
                bits < usize::BITS,
                bit == pow2(m),
                j < pow2(m + 1),
                reverse_increment(j as nat, m) == target,
                target != 0,
            decreases m,
        {
            proof {
                lemma_digit_is_pow2(m);
                lemma_pow2_unfold(m + 1);
                lemma_flip_top_digit(j, m as usize);
                if m == 0 {
                    assert(reverse_increment(j as nat, m) == 0);
                }
                lemma_pow2_unfold(m);
                lemma_usize_shr_is_div(bit, 1);
                lemma2_to64();
            }
            j = j ^ bit;
            bit = bit >> 1;
            proof {
                m = (m - 1) as nat;
            }
        }
        proof {
            lemma_digit_is_pow2(m);
            lemma_pow2_unfold(m + 1);
            lemma_flip_top_digit(j, m as usize);
        }
        j = j ^ bit;
        assert(j == target);
        proof {
            lemma_reverse_bits_bound(i as nat, bits);
        }
        let ghost before_re = re@;
        let ghost before_im = im@;
        if i < j {
            swap_entries(re, i, j);
            swap_entries(im, i, j);
        }
        proof {
            lemma_exchange_step(orig_re, bits, i as nat, j as nat, before_re, re@);
            lemma_exchange_step(orig_im, bits, i as nat, j as nat, before_im, im@);
        }
        i = i + 1;
    }
    proof {
        assert forall|k: int| 0 <= k < n implies #[trigger] reverse_bits(k as nat, bits) < n by {
            lemma_reverse_bits_bound(k as nat, bits);
        }
        assert(re@ =~= bit_reversed(orig_re));
        assert(im@ =~= bit_reversed(orig_im));
        assert forall|i: int| 0 <= i < n implies #[trigger] re@[reverse_bits(i as nat, bits) as int] == orig_re[i]
            && im@[reverse_bits(i as nat, bits) as int] == orig_im[i] by {
            lemma_reverse_bits_bound(i as nat, bits);
            lemma_reverse_bits_involution(i as nat, bits);
        }
    }
}

/// Zero reversed is zero, and only zero reverses to zero.
proof fn lemma_reverse_bits_zero(bits: nat)
    ensures
        reverse_bits(0, bits) == 0,
        forall|x: nat| x < pow2(bits) && #[trigger] reverse_bits(x, bits) == 0 ==> x == 0,
{
    lemma_reverse_bits_zero_base(bits);
    assert forall|x: nat| x < pow2(bits) && #[trigger] reverse_bits(x, bits) == 0 implies x == 0 by {
        lemma_reverse_bits_involution(x, bits);
    }
}

proof fn lemma_reverse_bits_zero_base(bits: nat)
    ensures
        reverse_bits(0, bits) == 0,
    decreases bits,
{
    if bits > 0 {
        lemma_reverse_bits_zero_base((bits - 1) as nat);
        assert(0nat % 2 == 0 && 0nat / 2 == 0);
        assert((0nat % 2) * pow2((bits - 1) as nat) == 0);
    }
}

} // verus!
