//! Integer core of the int8 matrix-vector product: the dot product of a
//! quantized weight row with quantized activations, summed exactly.

use vstd::prelude::*;

verus! {

/// `w[0] * x[0] + ... + w[n-1] * x[n-1]`.
pub open spec fn dot_i8_spec(w: Seq<i8>, x: Seq<i8>, n: int) -> int
    decreases n,
{
    if n <= 0 {
        0
    } else {
        dot_i8_spec(w, x, n - 1) + w[n - 1] * x[n - 1]
    }
}

proof fn lemma_dot_bound(w: Seq<i8>, x: Seq<i8>, n: int)
    requires
        0 <= n <= w.len(),
        n <= x.len(),
    ensures
        -16384 * n <= dot_i8_spec(w, x, n) <= 16384 * n,
    decreases n,
{
    if n > 0 {
        lemma_dot_bound(w, x, n - 1);
        let a = w[n - 1] as int;
        let b = x[n - 1] as int;
        assert(-16384 <= a * b <= 16384) by (nonlinear_arith)
            requires -128 <= a <= 127, -128 <= b <= 127;
    }
}

fn mul_i8(a: i8, b: i8) -> (r: i128)
    ensures
        r == a * b,
        -16384 <= r <= 16384,
{
    assert(-16384 <= a * b <= 16384) by (nonlinear_arith)
        requires -128 <= a <= 127, -128 <= b <= 127;
    a as i128 * b as i128
}

/// Dot product of an int8 row with int8 activations, accumulated in four
/// lanes over blocks of four, then the leftover columns.
pub fn dot_i8(w: &[i8], x: &[i8]) -> (r: i128)
    requires
        w@.len() == x@.len(),
    ensures
        r == dot_i8_spec(w@, x@, w@.len() as int),
{
    let n = w.len();
    let blocks = n / 4;
    let (mut a0, mut a1, mut a2, mut a3) = (0i128, 0i128, 0i128, 0i128);
    let mut k: usize = 0;
    while k < blocks
        invariant
            n == w@.len(),
            n == x@.len(),
            blocks == n / 4,
            k <= blocks,
            a0 + a1 + a2 + a3 == dot_i8_spec(w@, x@, 4 * k as int),
            -16384 * k <= a0 <= 16384 * k,
            -16384 * k <= a1 <= 16384 * k,
            -16384 * k <= a2 <= 16384 * k,
            -16384 * k <= a3 <= 16384 * k,
        decreases blocks - k,
    {
        let c = 4 * k;
        let p0 = mul_i8(w[c], x[c]);
        let p1 = mul_i8(w[c + 1], x[c + 1]);
        let p2 = mul_i8(w[c + 2], x[c + 2]);
        let p3 = mul_i8(w[c + 3], x[c + 3]);
        assert(dot_i8_spec(w@, x@, c + 1) == dot_i8_spec(w@, x@, c as int) + p0);
        assert(dot_i8_spec(w@, x@, c + 2) == dot_i8_spec(w@, x@, c + 1) + p1);
        assert(dot_i8_spec(w@, x@, c + 3) == dot_i8_spec(w@, x@, c + 2) + p2);
        assert(dot_i8_spec(w@, x@, c + 4) == dot_i8_spec(w@, x@, c + 3) + p3);
        a0 = a0 + p0;
        a1 = a1 + p1;
        a2 = a2 + p2;
        a3 = a3 + p3;
        k = k + 1;
    }
    let mut acc: i128 = a0 + a1 + a2 + a3;
    let mut c: usize = 4 * blocks;
    while c < n
        invariant
            n == w@.len(),
            n == x@.len(),
            c <= n,
            acc == dot_i8_spec(w@, x@, c as int),
            -16384 * c <= acc <= 16384 * c,
        decreases n - c,
    {
        let p = mul_i8(w[c], x[c]);
        acc = acc + p;
        c = c + 1;
    }
    acc
}

/// The accumulator bound of the int8 product: over at most 131071 columns the
/// exact dot product fits an `i32`. The widest product of the model, the MLP
/// down-projection, has `4 * d_model <= 4096` columns.
pub proof fn law_dot_i8_fits_i32(w: Seq<i8>, x: Seq<i8>, n: int)
    requires
        0 <= n <= 131071,
        n <= w.len(),
        n <= x.len(),
    ensures
        i32::MIN <= dot_i8_spec(w, x, n) <= i32::MAX,
{
    lemma_dot_bound(w, x, n);
}

} // verus!
