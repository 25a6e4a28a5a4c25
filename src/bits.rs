//! Encoding of integers as bits: single bits, widths and binary digit strings.
use vstd::prelude::*;
use vstd::arithmetic::div_mod::{lemma_div_denominator, lemma_mod_breakdown, lemma_basic_div, lemma_div_non_zero};
use vstd::arithmetic::power2::{
    pow2,
    lemma2_to64,
    lemma_pow2_pos,
    lemma_pow2_unfold,
    lemma_pow2_strictly_increases,
};
use vstd::bits::lemma_usize_shr_is_div;

verus! {

/// Bit `i` (counting from the least significant, which is bit 0) of `s` is one.
pub open spec fn bit_set(s: nat, i: nat) -> bool {
    (s / pow2(i)) % 2 == 1
}

/// `s` is representable in `n` bits.
pub open spec fn fits_in(s: nat, n: nat) -> bool {
    s < pow2(n)
}

/// The digit character of one bit.
pub open spec fn digit(b: bool) -> char {
    if b {
        '1'
    } else {
        '0'
    }
}

/// The `n` low bits of `s`, most significant first.
pub open spec fn binary_digits(s: nat, n: nat) -> Seq<char> {
    Seq::new(n, |k: int| digit(bit_set(s, (n - 1 - k) as nat)))
}

/// The unsigned integer that a string of binary digits denotes, most significant first;
/// any character other than `'1'` counts as a zero.
pub open spec fn binary_value(d: Seq<char>) -> nat
    decreases d.len(),
{
    if d.len() == 0 {
        0
    } else {
        2 * binary_value(d.drop_last()) + if d.last() == '1' {
            1nat
        } else {
            0nat
        }
    }
}

/// Bit `i` of `s / 2` is bit `i + 1` of `s`.
pub proof fn lemma_bit_of_half(s: nat, i: nat)
    ensures
        bit_set(s / 2, i) == bit_set(s, i + 1),
{
    lemma_pow2_pos(i);
    lemma_pow2_unfold(i + 1);
    lemma_div_denominator(s as int, 2, pow2(i) as int);
}

/// The digits of `s` in `n` places denote `s` modulo `2^n`.
pub proof fn lemma_binary_value_of_digits(s: nat, n: nat)
    ensures
        binary_value(binary_digits(s, n)) == s % pow2(n),
    decreases n,
{
    if n == 0 {
        lemma2_to64();
        assert(binary_digits(s, 0).len() == 0);
    } else {
        let d = binary_digits(s, n);
        assert forall|k: int| 0 <= k < n - 1 implies d.drop_last()[k] == binary_digits(
            s / 2,
            (n - 1) as nat,
        )[k] by {
            lemma_bit_of_half(s, (n - 2 - k) as nat);
        }
        assert(d.drop_last() =~= binary_digits(s / 2, (n - 1) as nat));
        lemma_binary_value_of_digits(s / 2, (n - 1) as nat);
        lemma2_to64();
        assert(d.last() == digit(bit_set(s, 0)));
        assert(s / pow2(0) == s);
        lemma_pow2_pos((n - 1) as nat);
        lemma_pow2_unfold(n);
        lemma_mod_breakdown(s as int, 2, pow2((n - 1) as nat) as int);
    }
}

/// Every machine word lies below `2^i` once `i` reaches the word's width.
proof fn lemma_below_word_pow2(s: usize, i: usize)
    requires
        i >= usize::BITS,
    ensures
        (s as nat) < pow2(i as nat),
{
    lemma2_to64();
    assert(usize::BITS == 32 || usize::BITS == 64);
    if i > usize::BITS {
        lemma_pow2_strictly_increases(usize::BITS as nat, i as nat);
    }
}

/// Whether bit `i` of `s` is one.
pub fn test_bit(s: usize, i: usize) -> (r: bool)
    ensures
        r == bit_set(s as nat, i as nat),
{
    if i >= usize::BITS as usize {
        proof {
            lemma_below_word_pow2(s, i);
            lemma_pow2_pos(i as nat);
            lemma_basic_div(s as int, pow2(i as nat) as int);
        }
        false
    } else {
        let y = s >> i;
        proof {
            lemma_usize_shr_is_div(s, i);
            assert((y & 1 == 1) == (y % 2 == 1)) by (bit_vector);
        }
        y & 1 == 1
    }
}

/// Whether `s` is representable in `n` bits.
pub fn fits_in_width(s: usize, n: usize) -> (r: bool)
    ensures
        r == fits_in(s as nat, n as nat),
{
    if n >= usize::BITS as usize {
        proof {
            lemma_below_word_pow2(s, n);
        }
        true
    } else {
        let y = s >> n;
        proof {
            lemma_usize_shr_is_div(s, n);
            lemma_pow2_pos(n as nat);
            if s as nat >= pow2(n as nat) {
                lemma_div_non_zero(s as int, pow2(n as nat) as int);
            } else {
                lemma_basic_div(s as int, pow2(n as nat) as int);
            }
        }
        y == 0
    }
}

/// Relies on `String::push`: appends `c` to the end of `s`.
#[verifier::external_body]
fn push_char(s: &mut String, c: char)
    ensures
        final(s)@ == old(s)@.push(c),
{
    s.push(c)
}

/// The `n` low bits of `s` as a string of `'0'` and `'1'`, most significant first,
/// padded with leading zeros.
pub fn binary_string(s: usize, n: usize) -> (r: String)
    ensures
        r@ == binary_digits(s as nat, n as nat),
{
    let mut r = String::new();
    let mut j: usize = 0;
    while j < n
        invariant
            j <= n,
            r@ =~= binary_digits(s as nat, n as nat).take(j as int),
        decreases n - j,
    {
        let b = test_bit(s, n - 1 - j);
        let c = if b {
            '1'
        } else {
            '0'
        };
        push_char(&mut r, c);
        j = j + 1;
        assert(r@ =~= binary_digits(s as nat, n as nat).take(j as int));
    }
    assert(binary_digits(s as nat, n as nat).take(n as int) =~= binary_digits(s as nat, n as nat));
    r
}

} // verus!
