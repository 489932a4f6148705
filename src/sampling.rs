//! Camera sampling on the image plane, in hundredths of a pixel.
use vstd::prelude::*;
use vstd::arithmetic::div_mod::{lemma_fundamental_div_mod, lemma_fundamental_div_mod_converse};

verus! {

/// `num / den` rounded to the nearest integer, a half rounded up.
pub open spec fn round_ratio_spec(num: nat, den: nat) -> nat {
    ((2 * num + den) / (2 * den)) as nat
}

/// Position of grid line `k` (counted from 1) of an `n`-wide sub-sample grid,
/// in hundredths of a pixel: `k / (n + 1)` rounded to two decimal digits.
pub open spec fn grid_step(k: nat, n: nat) -> nat {
    round_ratio_spec(100 * k, n + 1)
}

/// Sub-sample `idx` of the `n × n` grid, the grid read row by row: its
/// horizontal offset, and its vertical offset, which points down.
pub open spec fn sample_offset(n: nat, idx: int) -> (int, int) {
    let i = (idx / n as int + 1) as nat;
    let j = (idx % n as int + 1) as nat;
    (grid_step(j, n) as int, -(grid_step(i, n) as int))
}

/// Rounds `num / den` to the nearest integer, a half rounded up.
pub fn round_ratio(num: u64, den: u64) -> (r: u64)
    requires
        den > 0,
    ensures
        r == round_ratio_spec(num as nat, den as nat),
        r <= num,
{
    let q: u64 = num / den;
    let rem: u64 = num % den;
    let up: bool = rem >= den - rem;
    proof {
        let n = num as int;
        let d = den as int;
        lemma_fundamental_div_mod(n, d);
        assert(n == q * d + rem && 0 <= rem < d);
        let spec_q = (2 * n + d) / (2 * d);
        assert(spec_q == if up { q + 1 } else { q as int }) by (nonlinear_arith)
            requires
                n == q * d + rem,
                0 <= rem < d,
                spec_q == (2 * n + d) / (2 * d),
                up == (rem >= d - rem),
        {
            let m = 2 * n + d;
            assert(m == (2 * d) * q + (2 * rem + d));
            if up {
                assert(m == (2 * d) * (q + 1) + (2 * rem - d));
                assert(0 <= 2 * rem - d < 2 * d);
            } else {
                assert(0 <= 2 * rem + d < 2 * d);
            }
        }
        if up {
            assert(q + 1 <= n) by (nonlinear_arith)
                requires
                    n == q * d + rem,
                    0 < d - rem <= rem,
            ;
        }
    }
    if up {
        q + 1
    } else {
        q
    }
}

/// Every grid line of an `n`-wide grid lies within the pixel, so every
/// sub-sample offset does too.
pub proof fn lemma_grid_step_bounded(k: nat, n: nat)
    requires
        1 <= k <= n,
    ensures
        grid_step(k, n) <= 100,
{
    let d = n + 1;
    assert((2 * (100 * k) + d) / (2 * d) <= 100) by (nonlinear_arith)
        requires
            k <= n,
            d == n + 1,
    {
        assert(2 * (100 * k) + d < (2 * d) * 101);
    }
}

/// The `n × n` anti-aliasing offsets of a pixel, in hundredths of a pixel,
/// row by row: entry `(i - 1) * n + (j - 1)` is
/// `(round(100 * j / (n + 1)), -round(100 * i / (n + 1)))`.
pub fn anti_aliasing_offsets(n: u32) -> (r: Vec<(i32, i32)>)
    requires
        n >= 1,
        n as int * n as int <= usize::MAX,
    ensures
        r.len() == n as int * n as int,
        forall|k: int| 0 <= k < r.len() ==> (#[trigger] r[k].0 as int, r[k].1 as int) == sample_offset(n as nat, k),
{
    let mut r: Vec<(i32, i32)> = Vec::new();
    let mut i: u64 = 1;
    while i <= n as u64
        invariant
            1 <= i <= n as int + 1,
            n as int * n as int <= usize::MAX,
            r.len() == (i - 1) * n,
            forall|k: int| 0 <= k < r.len() ==> (#[trigger] r[k].0 as int, r[k].1 as int) == sample_offset(n as nat, k),
        decreases n as int + 1 - i,
    {
        let dy: u64 = round_ratio(100 * i, n as u64 + 1);
        proof {
            lemma_grid_step_bounded(i as nat, n as nat);
        }
        let mut j: u64 = 1;
        while j <= n as u64
            invariant
                1 <= i <= n,
                1 <= j <= n as int + 1,
                n as int * n as int <= usize::MAX,
                dy == grid_step(i as nat, n as nat),
                dy <= 100,
                r.len() == (i - 1) * n + (j - 1),
                forall|k: int| 0 <= k < r.len() ==> (#[trigger] r[k].0 as int, r[k].1 as int) == sample_offset(n as nat, k),
            decreases n as int + 1 - j,
        {
            let dx: u64 = round_ratio(100 * j, n as u64 + 1);
            proof {
                lemma_grid_step_bounded(j as nat, n as nat);
                let k = (i - 1) * n + (j - 1);
                lemma_fundamental_div_mod_converse(k, n as int, i - 1, j - 1);
                assert(k < n as int * n as int) by (nonlinear_arith)
                    requires
                        k == (i - 1) * n + (j - 1),
                        1 <= i <= n,
                        1 <= j <= n,
                ;
            }
            r.push((dx as i32, -(dy as i32)));
            j = j + 1;
        }
        proof {
            assert(r.len() == i * n) by (nonlinear_arith)
                requires
                    r.len() == (i - 1) * n + n,
            ;
        }
        i = i + 1;
    }
    r
}

/// Each grid line is `k / (n + 1)` of a pixel rounded to two decimal digits:
/// it lies within half a hundredth of the exact ratio.
pub proof fn lemma_grid_step_nearest(k: nat, n: nat)
    ensures
        -((n + 1) as int) <= 2 * (100 * k - (n + 1) * grid_step(k, n)) <= n + 1,
{
    let d = n + 1;
    let num = 100 * k;
    let q = grid_step(k, n);
    assert(q == (2 * num + d) / (2 * d));
    assert(-(d as int) <= 2 * (num - d * q) <= d) by (nonlinear_arith)
        requires
            q == (2 * num + d) / (2 * d),
            d > 0,
    {
        let m = 2 * num + d;
        assert(m == (2 * d) * q + m % (2 * d));
        assert(0 <= m % (2 * d) < 2 * d);
    }
}

/// Offset of pixel `(w, h)` from the centre of a `width × height` image, in
/// whole pixels, to the right and up.
pub open spec fn pixel_offset_spec(width: nat, height: nat, w: nat, h: nat) -> (int, int) {
    (w - width / 2, height / 2 - h)
}

/// The camera-space position of pixel `(w, h)` before sub-sampling:
/// `(w - floor(width / 2), floor(height / 2) - h)`.
pub fn pixel_offset(width: u32, height: u32, w: u32, h: u32) -> (r: (i64, i64))
    ensures
        (r.0 as int, r.1 as int) == pixel_offset_spec(width as nat, height as nat, w as nat, h as nat),
{
    (w as i64 - (width / 2) as i64, (height / 2) as i64 - h as i64)
}

} // verus!
