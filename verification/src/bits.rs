use vstd::prelude::*;
use vstd::std_specs::bits::{
    axiom_u32_trailing_ones, axiom_u32_trailing_zeros, u32_trailing_ones, u32_trailing_zeros,
};

verus! {

/// Whether bit `b` of `w` is set.
pub open spec fn bit_set(w: u32, b: u32) -> bool {
    (w >> b) & 1 == 1
}

/// Setting bit `k` leaves every other bit as it was.
pub proof fn lemma_bit_or(w: u32, k: u32, b: u32)
    requires
        k < 32,
        b < 32,
    ensures
        bit_set(w | (1u32 << k), b) == (bit_set(w, b) || b == k),
{
    assert((((w | (1u32 << k)) >> b) & 1 == 1) == (((w >> b) & 1 == 1) || b == k))
        by (bit_vector)
        requires
            k < 32,
            b < 32,
    ;
}

/// Clearing bit `k` leaves every other bit as it was.
pub proof fn lemma_bit_clear(w: u32, k: u32, b: u32)
    requires
        k < 32,
        b < 32,
    ensures
        bit_set(w & !(1u32 << k), b) == (bit_set(w, b) && b != k),
{
    assert((((w & !(1u32 << k)) >> b) & 1 == 1) == (((w >> b) & 1 == 1) && b != k))
        by (bit_vector)
        requires
            k < 32,
            b < 32,
    ;
}

/// No bit of zero is set.
pub proof fn lemma_bit_zero(b: u32)
    ensures
        !bit_set(0, b),
{
    assert(((0u32 >> b) & 1 == 1) == false) by (bit_vector);
}

/// Two words with the same bits are equal.
pub proof fn lemma_bits_ext(v: u32, w: u32)
    requires
        forall|b: u32| b < 32 ==> bit_set(v, b) == bit_set(w, b),
    ensures
        v == w,
{
    lemma_bits_ext_from(v, w, 0);
    assert(v >> 0 == v && w >> 0 == w) by (bit_vector);
}

proof fn lemma_bits_ext_from(v: u32, w: u32, n: u32)
    requires
        n < 32,
        forall|b: u32| b < 32 ==> bit_set(v, b) == bit_set(w, b),
    ensures
        v >> n == w >> n,
    decreases 31 - n,
{
    assert(bit_set(v, n) == bit_set(w, n));
    assert((((v >> n) & 1) == 1 || ((v >> n) & 1) == 0) && (((w >> n) & 1) == 1 || ((w >> n) & 1) == 0)) by (bit_vector);
    if n == 31 {
        assert(v >> 31 == (v >> 31) & 1 && w >> 31 == (w >> 31) & 1) by (bit_vector);
    } else {
        lemma_bits_ext_from(v, w, (n + 1) as u32);
        assert(v >> n == ((v >> ((n + 1) as u32)) << 1u32) | ((v >> n) & 1)) by (bit_vector)
            requires
                n < 31,
        ;
        assert(w >> n == ((w >> ((n + 1) as u32)) << 1u32) | ((w >> n) & 1)) by (bit_vector)
            requires
                n < 31,
        ;
    }
}

/// A bit of a word shifted down is the bit that many places higher in the word.
pub proof fn lemma_shr_bit(v: u32, y: u32, b: u32)
    requires
        y < 32,
        b < 32,
    ensures
        bit_set(v >> y, b) == (b + y < 32 && bit_set(v, (b + y) as u32)),
{
    if b + y < 32 {
        assert((((v >> y) >> b) & 1 == 1) == ((v >> ((b + y) as u32)) & 1 == 1)) by (bit_vector)
            requires
                y < 32,
                b < 32,
                b + y < 32,
        ;
    } else {
        assert(((v >> y) >> b) & 1 == 0) by (bit_vector)
            requires
                y < 32,
                b < 32,
                b + y >= 32,
        ;
    }
}

/// The trailing zeros of a word: that many low bits are clear, and the next one is set.
pub proof fn lemma_trailing_zeros_bits(v: u32)
    ensures
        u32_trailing_zeros(v) <= 32,
        (v == 0) == (u32_trailing_zeros(v) == 32),
        u32_trailing_zeros(v) < 32 ==> bit_set(v, u32_trailing_zeros(v)),
        forall|j: u32| j < u32_trailing_zeros(v) ==> !#[trigger] bit_set(v, j),
{
    axiom_u32_trailing_zeros(v);
    assert forall|j: u32| j < u32_trailing_zeros(v) implies !#[trigger] bit_set(v, j) by {
        assert((v >> j) & 1u32 == 0u32);
    }
}

/// The trailing ones of a word: that many low bits are set, and the next one is clear.
pub proof fn lemma_trailing_ones_bits(v: u32)
    ensures
        u32_trailing_ones(v) <= 32,
        u32_trailing_ones(v) < 32 ==> !bit_set(v, u32_trailing_ones(v)),
        forall|j: u32| j < u32_trailing_ones(v) ==> #[trigger] bit_set(v, j),
        bit_set(v, 0) ==> u32_trailing_ones(v) >= 1,
{
    axiom_u32_trailing_ones(v);
    assert forall|j: u32| j < u32_trailing_ones(v) implies #[trigger] bit_set(v, j) by {
        assert((v >> j) & 1u32 == 1u32);
    }
}

/// A word holds every column of a run of `h` columns from `y` when its bits from `y` under
/// the mask of `h` bits are the whole mask.
pub proof fn lemma_run_present(x: u32, y: u32, h: u32, col: u32)
    requires
        h < 32,
        y + h <= 32,
        (x >> y) & ((((1u32 << h) - 1) as u32)) == (((1u32 << h) - 1) as u32),
        y <= col < y + h,
    ensures
        bit_set(x, col),
{
    assert((x >> col) & 1 == 1) by (bit_vector)
        requires
            h < 32,
            y + h <= 32,
            (x >> y) & ((((1u32 << h) - 1) as u32)) == (((1u32 << h) - 1) as u32),
            y <= col,
            col < y + h,
    ;
}

/// Conversely, a word that holds every column of a run has its whole mask from `y`.
pub proof fn lemma_run_mask(x: u32, y: u32, h: u32)
    requires
        h < 32,
        y + h <= 32,
        forall|col: u32| y <= col < y + h ==> #[trigger] bit_set(x, col),
    ensures
        (x >> y) & ((((1u32 << h) - 1) as u32)) == (((1u32 << h) - 1) as u32),
{
    let m = (((1u32 << h) - 1) as u32);
    let v = (x >> y) & m;
    assert forall|b: u32| b < 32 implies bit_set(v, b) == bit_set(m, b) by {
        if b < h {
            assert(bit_set(x, (y + b) as u32));
            assert((((x >> y) & ((((1u32 << h) - 1) as u32))) >> b) & 1 == 1) by (bit_vector)
                requires
                    h < 32,
                    y + h <= 32,
                    b < h,
                    (x >> ((y + b) as u32)) & 1 == 1,
            ;
            assert(((((1u32 << h) - 1) as u32) >> b) & 1 == 1) by (bit_vector)
                requires
                    h < 32,
                    b < h,
            ;
        } else {
            assert((((x >> y) & ((((1u32 << h) - 1) as u32))) >> b) & 1 == 0) by (bit_vector)
                requires
                    h < 32,
                    b >= h,
                    b < 32,
            ;
            assert(((((1u32 << h) - 1) as u32) >> b) & 1 == 0) by (bit_vector)
                requires
                    h < 32,
                    b >= h,
                    b < 32,
            ;
        }
    }
    lemma_bits_ext(v, m);
}

/// Clearing a run of `h` columns from `y` clears exactly those columns.
pub proof fn lemma_run_clear(x: u32, y: u32, h: u32, col: u32)
    requires
        h < 32,
        y + h <= 32,
        col < 32,
    ensures
        bit_set(x & !((((1u32 << h) - 1) as u32) << y), col) == (bit_set(x, col) && !(y <= col
            && col < y + h)),
{
    assert((((x & !((((1u32 << h) - 1) as u32) << y)) >> col) & 1 == 1) == (((x >> col) & 1
        == 1) && !(y <= col && col < y + h))) by (bit_vector)
        requires
            h < 32,
            y + h <= 32,
            col < 32,
    ;
}

} // verus!
