//! The packed array seen as one long string of bits, and the arithmetic of
//! cutting a run of bits out of a number and putting another in its place.

use vstd::arithmetic::div_mod::{
    lemma_div_denominator, lemma_fundamental_div_mod, lemma_fundamental_div_mod_converse,
    lemma_mod_multiples_vanish,
};
use vstd::arithmetic::power2::{lemma2_to64, lemma_pow2_adds, lemma_pow2_pos, pow2};
use vstd::prelude::*;

verus! {

/// The run of `width` bits of `x` that starts at bit `lo`, as a number.
pub open spec fn bits_of(x: nat, lo: nat, width: nat) -> nat {
    (x / pow2(lo)) % pow2(width)
}

/// The words of a packed array read as one number: word 0 holds the lowest
/// 64 bits, and each word counts as unsigned.
pub open spec fn bit_string(words: Seq<i64>) -> nat
    decreases words.len(),
{
    if words.len() == 0 {
        0
    } else {
        bit_string(words.drop_last()) + (words.last() as u64) as nat * pow2(
            (64 * (words.len() - 1)) as nat,
        )
    }
}

/// The word at `index` together with the one after it, if there is one, as
/// a number of up to 128 bits.
pub open spec fn window(words: Seq<i64>, index: int) -> nat {
    if index + 1 < words.len() {
        (words[index] as u64) as nat + (words[index + 1] as u64) as nat * pow2(64)
    } else {
        (words[index] as u64) as nat
    }
}

/// What is left of a division by `d` of `q * d + r` with `r` below `d`.
pub proof fn lemma_div_mul_add(q: int, d: int, r: int)
    requires
        d > 0,
        0 <= r < d,
    ensures
        (q * d + r) / d == q,
        (q * d + r) % d == r,
{
    lemma_fundamental_div_mod_converse(q * d + r, d, q, r);
}

/// A run of bits is below two to the power of its width.
pub proof fn lemma_bits_of_bound(x: nat, lo: nat, width: nat)
    ensures
        bits_of(x, lo, width) < pow2(width),
{
    lemma_pow2_pos(width);
    lemma_pow2_pos(lo);
}

/// Bits at or above bit `m` play no part in a run that ends at or below `m`.
pub proof fn lemma_bits_of_ignores_high(x: nat, k: nat, m: nat, lo: nat, width: nat)
    requires
        lo + width <= m,
    ensures
        bits_of(x + k * pow2(m), lo, width) == bits_of(x, lo, width),
{
    let a = pow2(lo) as int;
    let b = pow2(width) as int;
    let c = pow2((m - lo - width) as nat) as int;
    lemma_pow2_pos(lo);
    lemma_pow2_pos(width);
    lemma_pow2_pos((m - lo - width) as nat);
    lemma_pow2_adds(lo, width);
    lemma_pow2_adds(lo + width, (m - lo - width) as nat);
    assert(pow2(m) == a * b * c);
    let q = x as int / a;
    let r = x as int % a;
    lemma_fundamental_div_mod(x as int, a);
    assert(x + k * pow2(m) == (q + (k * c) * b) * a + r) by (nonlinear_arith)
        requires
            x == a * q + r,
            pow2(m) == a * b * c,
    ;
    lemma_div_mul_add(q + (k * c) * b, a, r);
    lemma_mod_multiples_vanish(k * c, q, b);
    assert(b * (k * c) + q == q + (k * c) * b) by (nonlinear_arith);
}

/// A run that starts at or above bit `m` is a run of what stands above bit `m`.
pub proof fn lemma_bits_of_skips_low(a: nat, b: nat, m: nat, lo: nat, width: nat)
    requires
        a < pow2(m),
        m <= lo,
    ensures
        bits_of(a + b * pow2(m), lo, width) == bits_of(b, (lo - m) as nat, width),
{
    let pm = pow2(m) as int;
    let pr = pow2((lo - m) as nat) as int;
    lemma_pow2_pos(m);
    lemma_pow2_pos((lo - m) as nat);
    lemma_pow2_adds(m, (lo - m) as nat);
    let x = (a + b * pow2(m)) as int;
    lemma_div_denominator(x, pm, pr);
    lemma_div_mul_add(b as int, pm, a as int);
}

/// A number is its bits below `lo`, a run of `width` bits, and the rest above.
pub proof fn lemma_three_parts(x: nat, lo: nat, width: nat)
    ensures
        x == x % pow2(lo) + bits_of(x, lo, width) * pow2(lo) + (x / pow2(lo + width)) * pow2(
            lo + width,
        ),
{
    let a = pow2(lo) as int;
    let b = pow2(width) as int;
    lemma_pow2_pos(lo);
    lemma_pow2_pos(width);
    lemma_pow2_adds(lo, width);
    let y = x as int / a;
    lemma_fundamental_div_mod(x as int, a);
    lemma_fundamental_div_mod(y, b);
    lemma_div_denominator(x as int, a, b);
    let r = x as int % a;
    assert(x == r + (y % b) * a + (y / b) * (a * b)) by (nonlinear_arith)
        requires
            x == a * y + r,
            y == b * (y / b) + y % b,
    ;
}

/// The number that has `value` where `x` has the run of `width` bits at `lo`,
/// and the bits of `x` everywhere else.
pub open spec fn splice(x: nat, lo: nat, width: nat, value: nat) -> int {
    x - bits_of(x, lo, width) * pow2(lo) + value * pow2(lo)
}

/// Putting a value in place of a run of bits changes that run and nothing
/// below or above it.
pub proof fn lemma_splice(x: nat, lo: nat, width: nat, value: nat)
    requires
        value < pow2(width),
    ensures
        splice(x, lo, width, value) >= 0,
        bits_of(splice(x, lo, width, value) as nat, lo, width) == value,
        splice(x, lo, width, value) % (pow2(lo) as int) == x % pow2(lo),
        splice(x, lo, width, value) / (pow2(lo + width) as int) == x / pow2(lo + width),
{
    let a = pow2(lo) as int;
    let b = pow2(width) as int;
    lemma_pow2_pos(lo);
    lemma_pow2_pos(width);
    lemma_pow2_adds(lo, width);
    lemma_three_parts(x, lo, width);
    let low = x as int % a;
    let high = x as int / (a * b);
    lemma_pow2_pos(lo + width);
    vstd::arithmetic::div_mod::lemma_div_pos_is_pos(x as int, a * b);
    let t = splice(x, lo, width, value);
    assert(t == (value + high * b) * a + low) by (nonlinear_arith)
        requires
            x == low + bits_of(x, lo, width) * a + high * (a * b),
            t == x - bits_of(x, lo, width) * a + value * a,
    ;
    assert((value + high * b) * a >= 0) by (nonlinear_arith)
        requires
            value >= 0,
            high >= 0,
            a > 0,
            b > 0,
    ;
    lemma_div_mul_add(value + high * b, a, low);
    lemma_div_mul_add(high, b, value as int);
    lemma_div_denominator(t, a, b);
}

/// Two numbers with the same bits below `m` have the same runs below `m`.
pub proof fn lemma_same_low_bits(x: nat, y: nat, m: nat, lo: nat, width: nat)
    requires
        x % pow2(m) == y % pow2(m),
        lo + width <= m,
    ensures
        bits_of(x, lo, width) == bits_of(y, lo, width),
{
    let pm = pow2(m) as int;
    lemma_pow2_pos(m);
    lemma_fundamental_div_mod(x as int, pm);
    lemma_fundamental_div_mod(y as int, pm);
    assert(x == x % pow2(m) + (x / pow2(m)) * pow2(m)) by (nonlinear_arith)
        requires
            x == pm * (x as int / pm) + x as int % pm,
            pm == pow2(m),
    ;
    assert(y == y % pow2(m) + (y / pow2(m)) * pow2(m)) by (nonlinear_arith)
        requires
            y == pm * (y as int / pm) + y as int % pm,
            pm == pow2(m),
    ;
    lemma_bits_of_ignores_high(x % pow2(m), x / pow2(m), m, lo, width);
    lemma_bits_of_ignores_high(y % pow2(m), y / pow2(m), m, lo, width);
}

/// Two numbers with the same bits from `m` upwards have the same runs from
/// `m` upwards.
pub proof fn lemma_same_high_bits(x: nat, y: nat, m: nat, lo: nat, width: nat)
    requires
        x / pow2(m) == y / pow2(m),
        m <= lo,
    ensures
        bits_of(x, lo, width) == bits_of(y, lo, width),
{
    let pm = pow2(m) as int;
    lemma_pow2_pos(m);
    lemma_fundamental_div_mod(x as int, pm);
    lemma_fundamental_div_mod(y as int, pm);
    assert(x == x % pow2(m) + (x / pow2(m)) * pow2(m)) by (nonlinear_arith)
        requires
            x == pm * (x as int / pm) + x as int % pm,
            pm == pow2(m),
    ;
    assert(y == y % pow2(m) + (y / pow2(m)) * pow2(m)) by (nonlinear_arith)
        requires
            y == pm * (y as int / pm) + y as int % pm,
            pm == pow2(m),
    ;
    lemma_bits_of_skips_low(x % pow2(m), x / pow2(m), m, lo, width);
    lemma_bits_of_skips_low(y % pow2(m), y / pow2(m), m, lo, width);
}

/// A packed array of `n` words is a number of at most `64 * n` bits.
pub proof fn lemma_bit_string_bound(words: Seq<i64>)
    ensures
        bit_string(words) < pow2((64 * words.len()) as nat),
    decreases words.len(),
{
    if words.len() == 0 {
        lemma2_to64();
    } else {
        let n = (words.len() - 1) as nat;
        lemma_bit_string_bound(words.drop_last());
        lemma_pow2_adds(64, 64 * n);
        lemma2_to64();
        let p = pow2(64 * n);
        let w = (words.last() as u64) as nat;
        assert(w * p + p <= pow2(64) * p) by (nonlinear_arith)
            requires
                w + 1 <= pow2(64),
        ;
    }
}

/// Replacing one word changes the number by the difference of the two
/// words, at that word's place.
pub proof fn lemma_bit_string_update(words: Seq<i64>, index: int, word: i64)
    requires
        0 <= index < words.len(),
    ensures
        bit_string(words.update(index, word)) == bit_string(words) - (words[index] as u64) * pow2(
            (64 * index) as nat,
        ) + (word as u64) * pow2((64 * index) as nat),
    decreases words.len(),
{
    let updated = words.update(index, word);
    if index == words.len() - 1 {
        assert(updated.drop_last() =~= words.drop_last());
    } else {
        assert(updated.drop_last() =~= words.drop_last().update(index, word));
        lemma_bit_string_update(words.drop_last(), index, word);
    }
}

/// The 128 bits of the array that start at a word are that word and the next.
pub proof fn lemma_window(words: Seq<i64>, index: int)
    requires
        0 <= index < words.len(),
    ensures
        bits_of(bit_string(words), (64 * index) as nat, 128) == window(words, index),
    decreases words.len(),
{
    let n = (words.len() - 1) as nat;
    let init = words.drop_last();
    let last = (words.last() as u64) as nat;
    lemma2_to64();
    lemma_pow2_pos(128);
    lemma_pow2_adds(64, 64);
    lemma_bit_string_bound(init);
    if index == n {
        lemma_bits_of_skips_low(bit_string(init), last, 64 * n, 64 * n, 128);
        assert(bits_of(last, 0, 128) == last) by {
            assert(pow2(64) < pow2(128)) by {
                vstd::arithmetic::power2::lemma_pow2_strictly_increases(64, 128);
            }
        }
    } else if index + 1 == n {
        let init2 = init.drop_last();
        let mid = (init.last() as u64) as nat;
        let lo = (64 * index) as nat;
        lemma_bit_string_bound(init2);
        lemma_pow2_adds(64, lo);
        assert(bit_string(words) == bit_string(init2) + (mid + last * pow2(64)) * pow2(lo))
            by (nonlinear_arith)
            requires
                bit_string(words) == bit_string(init) + last * pow2(64 * n),
                bit_string(init) == bit_string(init2) + mid * pow2(lo),
                pow2(64 * n) == pow2(64) * pow2(lo),
        ;
        lemma_bits_of_skips_low(bit_string(init2), mid + last * pow2(64), lo, lo, 128);
        assert(mid + last * pow2(64) < pow2(128)) by (nonlinear_arith)
            requires
                mid < pow2(64),
                last < pow2(64),
                pow2(128) == pow2(64) * pow2(64),
        ;
        assert(init[index] == words[index]);
    } else {
        lemma_window(init, index);
        lemma_bits_of_ignores_high(bit_string(init), last, 64 * n, (64 * index) as nat, 128);
        assert(init[index] == words[index]);
        assert(init[index + 1] == words[index + 1]);
    }
}

/// A run of bits that starts in word `index`, at bit `shift` of it, and is
/// not longer than the window allows, can be read from the window.
pub proof fn lemma_bits_in_window(words: Seq<i64>, index: int, shift: nat, width: nat)
    requires
        0 <= index < words.len(),
        shift + width <= 128,
    ensures
        bits_of(bit_string(words), (64 * index + shift) as nat, width) == bits_of(
            window(words, index),
            shift,
            width,
        ),
{
    let b = bit_string(words);
    let lo = (64 * index) as nat;
    let p = pow2(lo) as int;
    let ps = pow2(shift) as int;
    let p128 = pow2(128) as int;
    lemma_pow2_pos(lo);
    lemma_pow2_pos(shift);
    lemma_pow2_pos(128);
    lemma_pow2_adds(lo, shift);
    lemma_div_denominator(b as int, p, ps);
    let y = b / pow2(lo);
    assert(bits_of(b, lo + shift, width) == bits_of(y, shift, width));
    lemma_window(words, index);
    lemma_fundamental_div_mod(y as int, p128);
    assert(y == y % pow2(128) + (y / pow2(128)) * pow2(128)) by (nonlinear_arith)
        requires
            y == p128 * (y as int / p128) + y as int % p128,
            p128 == pow2(128),
    ;
    lemma_bits_of_ignores_high(y % pow2(128), y / pow2(128), 128, shift, width);
}

/// Putting a value in place of a run of bits of a number of at most `m` bits
/// gives a number of at most `m` bits, where the run ends at or below `m`.
pub proof fn lemma_splice_bound(x: nat, lo: nat, width: nat, value: nat, m: nat)
    requires
        value < pow2(width),
        x < pow2(m),
        lo + width <= m,
    ensures
        0 <= splice(x, lo, width, value) < pow2(m),
{
    let t = splice(x, lo, width, value);
    let p = pow2(lo + width) as int;
    let r = pow2((m - lo - width) as nat) as int;
    let pm = pow2(m) as int;
    lemma_splice(x, lo, width, value);
    lemma_pow2_pos(lo + width);
    lemma_pow2_pos((m - lo - width) as nat);
    lemma_pow2_pos(m);
    lemma_pow2_adds(lo + width, (m - lo - width) as nat);
    lemma_div_denominator(t, p, r);
    lemma_div_denominator(x as int, p, r);
    vstd::arithmetic::div_mod::lemma_basic_div(x as int, pm);
    assert(pm == p * r);
    assert(t / p == x as int / p);
    assert(t / pm == 0);
    lemma_fundamental_div_mod(t, pm);
    vstd::arithmetic::div_mod::lemma_mod_pos_bound(t, pm);
}

/// A run of bits that reaches the top of a number is not changed by asking
/// for more bits than the number has.
pub proof fn lemma_bits_of_short(x: nat, lo: nat, width: nat, wider: nat)
    requires
        x < pow2(lo + width),
        width <= wider,
    ensures
        bits_of(x, lo, wider) == bits_of(x, lo, width),
        bits_of(x, lo, width) == x / pow2(lo),
{
    let a = pow2(lo) as int;
    let b = pow2(width) as int;
    lemma_pow2_pos(lo);
    lemma_pow2_pos(width);
    lemma_pow2_adds(lo, width);
    let y = x as int / a;
    lemma_fundamental_div_mod(x as int, a);
    assert(y < b) by (nonlinear_arith)
        requires
            x == a * y + x as int % a,
            0 <= x as int % a,
            x < a * b,
            a > 0,
    ;
    vstd::arithmetic::div_mod::lemma_div_pos_is_pos(x as int, a);
    vstd::arithmetic::div_mod::lemma_small_mod(y as nat, b as nat);
    if width < wider {
        vstd::arithmetic::power2::lemma_pow2_strictly_increases(width, wider);
    }
    vstd::arithmetic::div_mod::lemma_small_mod(y as nat, pow2(wider));
}

/// An array of zero words is the number zero.
pub proof fn lemma_bit_string_zero(words: Seq<i64>)
    requires
        forall|i: int| 0 <= i < words.len() ==> words[i] == 0,
    ensures
        bit_string(words) == 0,
        forall|lo: nat, width: nat| #[trigger] bits_of(bit_string(words), lo, width) == 0,
    decreases words.len(),
{
    if words.len() > 0 {
        lemma_bit_string_zero(words.drop_last());
        assert(words[words.len() - 1] == 0);
        assert((words.last() as u64) == 0);
        let p = pow2((64 * (words.len() - 1)) as nat);
        assert(0 * p == 0) by (nonlinear_arith);
    }
    assert forall|lo: nat, width: nat| #[trigger] bits_of(0, lo, width) == 0 by {
        lemma_pow2_pos(lo);
        lemma_pow2_pos(width);
        vstd::arithmetic::div_mod::lemma_basic_div(0, pow2(lo) as int);
        vstd::arithmetic::div_mod::lemma_small_mod(0, pow2(width));
    }
}

} // verus!
