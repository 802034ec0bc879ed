use vstd::prelude::*;
use vstd::arithmetic::div_mod::{lemma_div_is_ordered, lemma_div_is_ordered_by_denominator, lemma_div_multiples_vanish};

verus! {

/// Material of a struck bar.
#[derive(Clone, Copy, Debug, PartialEq, Eq, Structural)]
pub enum Material {
    Rosewood,
    Maple,
    Steel,
    Aluminum,
    Glass,
}

pub open spec fn youngs_modulus_spec(m: Material) -> u64 {
    match m {
        Material::Rosewood => 16_000_000_000,
        Material::Maple => 12_000_000_000,
        Material::Steel => 200_000_000_000,
        Material::Aluminum => 70_000_000_000,
        Material::Glass => 70_000_000_000,
    }
}

pub open spec fn density_spec(m: Material) -> u64 {
    match m {
        Material::Rosewood => 800,
        Material::Maple => 700,
        Material::Steel => 7850,
        Material::Aluminum => 2700,
        Material::Glass => 2500,
    }
}

impl Material {
    /// Young's modulus, in pascals.
    pub fn youngs_modulus(&self) -> (r: u64)
        ensures
            r == youngs_modulus_spec(*self),
    {
        match self {
            Material::Rosewood => 16_000_000_000,
            Material::Maple => 12_000_000_000,
            Material::Steel => 200_000_000_000,
            Material::Aluminum => 70_000_000_000,
            Material::Glass => 70_000_000_000,
        }
    }

    /// Density, in kilograms per cubic metre.
    pub fn density(&self) -> (r: u64)
        ensures
            r == density_spec(*self),
    {
        match self {
            Material::Rosewood => 800,
            Material::Maple => 700,
            Material::Steel => 7850,
            Material::Aluminum => 2700,
            Material::Glass => 2500,
        }
    }
}

/// Largest bar dimension accepted, in micrometres (ten metres).
pub const MAX_DIMENSION_UM: u64 = 10_000_000;

/// Cross-sectional area (square micrometres) and second moment of area
/// (micrometres to the fourth, rounded down) of a `b` by `h` rectangle given
/// in micrometres.
pub fn rect_section(b: u64, h: u64) -> (r: (u128, u128))
    requires
        b <= MAX_DIMENSION_UM,
        h <= MAX_DIMENSION_UM,
    ensures
        r.0 == b * h,
        r.1 == (b * h * h * h) / 12,
{
    assert((b as u128) * (h as u128) <= 10_000_000u128 * 10_000_000u128) by (nonlinear_arith)
        requires
            b <= 10_000_000,
            h <= 10_000_000,
    ;
    let s = (b as u128) * (h as u128);
    assert(s * (h as u128) <= 10_000_000u128 * 10_000_000u128 * 10_000_000u128) by (nonlinear_arith)
        requires
            s == b * h,
            b <= 10_000_000,
            h <= 10_000_000,
    ;
    let s_h = s * (h as u128);
    assert(s_h * (h as u128) <= 10_000_000u128 * 10_000_000u128 * 10_000_000u128 * 10_000_000u128)
        by (nonlinear_arith)
        requires
            s_h == b * h * h,
            b <= 10_000_000,
            h <= 10_000_000,
    ;
    let i = s_h * (h as u128) / 12;
    (s, i)
}

/// A mode of a struck bar: its frequency in nanohertz, and its amplitude
/// relative to the fundamental, which is `1 / amp_divisor`.
#[derive(Clone, Copy, Debug, PartialEq, Eq, Structural)]
pub struct Mode {
    pub freq_nhz: u128,
    pub amp_divisor: u64,
}

/// `r` is the square root of `q` rounded down.
pub open spec fn is_floor_sqrt(q: int, r: int) -> bool {
    0 <= r && r * r <= q < (r + 1) * (r + 1)
}

pub open spec fn floor_sqrt(q: int) -> int {
    choose|r: int| is_floor_sqrt(q, r)
}

proof fn lemma_floor_sqrt_unique(q: int, a: int, b: int)
    requires
        is_floor_sqrt(q, a),
        is_floor_sqrt(q, b),
    ensures
        a == b,
{
    if a < b {
        assert((a + 1) * (a + 1) <= b * b) by (nonlinear_arith)
            requires
                0 <= a,
                a + 1 <= b,
        ;
    } else if b < a {
        assert((b + 1) * (b + 1) <= a * a) by (nonlinear_arith)
            requires
                0 <= b,
                b + 1 <= a,
        ;
    }
}

proof fn lemma_mul_le(a: int, x: int, c: int, y: int)
    requires
        0 <= a <= x,
        0 <= c <= y,
    ensures
        0 <= a * c <= x * y,
{
    assert(0 <= a * c <= x * c) by (nonlinear_arith)
        requires
            0 <= a <= x,
            0 <= c,
    ;
    assert(x * c <= x * y) by (nonlinear_arith)
        requires
            0 <= x,
            0 <= c <= y,
    ;
}

/// The square root of `q`, rounded down.
fn floor_sqrt_u128(q: u128) -> (r: u128)
    ensures
        r < 0x1_0000_0000_0000_0000,
        is_floor_sqrt(q as int, r as int),
        r == floor_sqrt(q as int),
{
    let mut lo: u128 = 0;
    let mut hi: u128 = 0x1_0000_0000_0000_0000;
    assert(q < 0x1_0000_0000_0000_0000 * 0x1_0000_0000_0000_0000);
    while hi - lo > 1
        invariant
            lo < hi <= 0x1_0000_0000_0000_0000,
            lo * lo <= q,
            q < hi * hi,
        decreases hi - lo,
    {
        let mid = lo + (hi - lo) / 2;
        assert(mid * mid <= 0xffff_ffff_ffff_ffff * 0xffff_ffff_ffff_ffff) by (nonlinear_arith)
            requires
                mid <= 0xffff_ffff_ffff_ffff,
        ;
        if mid * mid <= q {
            lo = mid;
        } else {
            hi = mid;
        }
    }
    proof {
        lemma_floor_sqrt_unique(q as int, lo as int, floor_sqrt(q as int));
    }
    lo
}

/// Numerator and denominator of a rational approximation of pi, good to
/// about one part in 10^16.
pub const PI_NUM: u128 = 245_850_922;

pub const PI_DEN: u128 = 78_256_779;

/// Largest number of modes asked for at once: the modes are returned in an
/// array on the stack.
pub const MAX_MODES: usize = 65_536;

/// `10^12 * E * I / (rho * S)` of a bar of height `h` micrometres, rounded
/// down once. For a rectangle `I / S == h^2 / 12`, so the width cancels and
/// this is `10^12 * E * h^2 / (12 * rho)`, in square micrometres times
/// pascals per kilogram per cubic metre.
pub open spec fn stiffness_scaled(material: Material, h: u64) -> int {
    (youngs_modulus_spec(material) * (h * h) * 1_000_000_000_000) / (12 * density_spec(material))
}

/// Fundamental of a free-free bar of length `l` and height `h` (micrometres),
/// in nanohertz, rounded down: `pi / (8 l^2) * sqrt(E I / (rho S))`, with pi
/// as `PI_NUM / PI_DEN`. The width of the bar does not enter.
pub open spec fn fundamental_nhz(material: Material, l: u64, h: u64) -> int {
    (PI_NUM * 1_000_000_000 * floor_sqrt(stiffness_scaled(material, h))) / (PI_DEN * 8 * (l * l))
}

/// Frequency of mode `n`: the fundamental times `(2n + 1)^2`.
pub open spec fn mode_freq_nhz(material: Material, l: u64, h: u64, n: int) -> int {
    fundamental_nhz(material, l, h) * ((2 * n + 1) * (2 * n + 1))
}

/// An upper bound on every fundamental, from the square root being below 2^64.
pub open spec fn fundamental_bound() -> int {
    (0xffff_ffff_ffff_ffff * (PI_NUM * 1_000_000_000)) / (PI_DEN * 8)
}

/// `x / d >= c` when `x >= c * d`.
proof fn lemma_div_at_least(x: int, c: int, d: int)
    requires
        0 <= c,
        0 < d,
        c * d <= x,
    ensures
        c <= x / d,
{
    lemma_div_is_ordered(c * d, x, d);
    assert(c * d == d * c) by (nonlinear_arith);
    lemma_div_multiples_vanish(c, d);
}

fn fundamental(material: Material, l: u64, h: u64) -> (r: u128)
    requires
        1 <= l <= MAX_DIMENSION_UM,
        1 <= h <= MAX_DIMENSION_UM,
    ensures
        r == fundamental_nhz(material, l, h),
        1 <= r,
        r <= fundamental_bound(),
{
    let e = material.youngs_modulus() as u128;
    let rho = material.density() as u128;
    let d = 10_000_000u128;
    proof {
        lemma_mul_le(h as int, d as int, h as int, d as int);
        lemma_mul_le(1, h as int, 1, h as int);
        lemma_mul_le(e as int, 200_000_000_000, (h * h) as int, (d * d) as int);
        lemma_mul_le(
            (e * (h * h)) as int,
            200_000_000_000 * (d * d),
            1_000_000_000_000,
            1_000_000_000_000,
        );
    }
    let num_q = e * ((h as u128) * (h as u128)) * 1_000_000_000_000;
    let den_q = 12 * rho;
    let q = num_q / den_q;
    proof {
        // Every material is stiff enough that q is at least 10^18.
        assert(e >= 12 * rho * 1_000_000);
        lemma_mul_le(e as int, e as int, 1, (h * h) as int);
        lemma_mul_le(
            (12 * rho * 1_000_000) as int,
            (e * (h * h)) as int,
            1_000_000_000_000,
            1_000_000_000_000,
        );
        assert(1_000_000_000_000_000_000 * den_q == 12 * rho * 1_000_000 * 1_000_000_000_000);
        lemma_div_at_least(num_q as int, 1_000_000_000_000_000_000, den_q as int);
    }
    let root = floor_sqrt_u128(q);
    proof {
        assert(root >= 1_000_000_000) by (nonlinear_arith)
            requires
                q < (root + 1) * (root + 1),
                q >= 1_000_000_000_000_000_000,
                root >= 0,
        ;
        lemma_mul_le(PI_NUM * 1_000_000_000, PI_NUM * 1_000_000_000, root as int, 0xffff_ffff_ffff_ffff);
        lemma_mul_le(PI_NUM * 1_000_000_000, PI_NUM * 1_000_000_000, 1_000_000_000, root as int);
        lemma_mul_le(l as int, d as int, l as int, d as int);
        lemma_mul_le(1, l as int, 1, l as int);
        lemma_mul_le(PI_DEN * 8, PI_DEN * 8, (l * l) as int, (d * d) as int);
        lemma_mul_le(PI_DEN * 8, PI_DEN * 8, 1, (l * l) as int);
    }
    let num = PI_NUM * 1_000_000_000 * root;
    let den = PI_DEN * 8 * ((l as u128) * (l as u128));
    proof {
        lemma_div_at_least(num as int, 1, den as int);
        lemma_div_is_ordered_by_denominator(num as int, PI_DEN * 8, den as int);
        lemma_div_is_ordered(
            num as int,
            0xffff_ffff_ffff_ffff * (PI_NUM * 1_000_000_000),
            PI_DEN * 8,
        );
        assert((PI_NUM * 1_000_000_000) * root == root * (PI_NUM * 1_000_000_000)) by (nonlinear_arith);
    }
    num / den
}

/// The first `K` modes of a free-free bar of the given material, length `l`,
/// width `b` and height `h` (in micrometres): mode `n` rings at `(2n + 1)^2`
/// times the fundamental, with amplitude `1 / (n + 1)^2`. The fundamental is
/// positive, so the frequencies rise strictly with `n`.
pub fn xylophone_modes<const K: usize>(material: Material, l: u64, b: u64, h: u64) -> (r: [Mode; K])
    requires
        1 <= l <= MAX_DIMENSION_UM,
        1 <= b <= MAX_DIMENSION_UM,
        1 <= h <= MAX_DIMENSION_UM,
        K <= MAX_MODES,
    ensures
        forall|n: int|
            0 <= n < K ==> {
                &&& (#[trigger] r@[n]).freq_nhz == mode_freq_nhz(material, l, h, n)
                &&& r@[n].amp_divisor == (n + 1) * (n + 1)
            },
        K > 0 ==> r@[0].freq_nhz > 0,
        forall|n: int, m: int| 0 <= n < m < K ==> #[trigger] r@[n].freq_nhz < #[trigger] r@[m].freq_nhz,
{
    let f0 = fundamental(material, l, h);
    let mut modes: [Mode; K] = [Mode { freq_nhz: 0, amp_divisor: 1 }; K];
    let mut n: usize = 0;
    while n < K
        invariant
            n <= K,
            K <= MAX_MODES,
            f0 == fundamental_nhz(material, l, h),
            1 <= f0 <= fundamental_bound(),
            modes@.len() == K,
            forall|j: int|
                0 <= j < n ==> {
                    &&& (#[trigger] modes@[j]).freq_nhz == mode_freq_nhz(material, l, h, j)
                    &&& modes@[j].amp_divisor == (j + 1) * (j + 1)
                },
        decreases K - n,
    {
        let odd = 2 * (n as u128) + 1;
        proof {
            lemma_mul_le(odd as int, 131_071, odd as int, 131_071);
            lemma_mul_le(f0 as int, fundamental_bound(), (odd * odd) as int, (131_071 * 131_071) as int);
        }
        let sq = odd * odd;
        let freq_nhz = f0 * sq;
        let next = (n as u64) + 1;
        proof {
            lemma_mul_le(next as int, 65_536, next as int, 65_536);
        }
        modes[n] = Mode { freq_nhz, amp_divisor: next * next };
        n = n + 1;
    }
    proof {
        assert forall|a: int, c: int| 0 <= a < c < K implies #[trigger] modes@[a].freq_nhz < #[trigger] modes@[c].freq_nhz by {
            assert((2 * a + 1) * (2 * a + 1) < (2 * c + 1) * (2 * c + 1)) by (nonlinear_arith)
                requires
                    0 <= a < c,
            ;
            assert(f0 * ((2 * a + 1) * (2 * a + 1)) < f0 * ((2 * c + 1) * (2 * c + 1))) by (nonlinear_arith)
                requires
                    f0 >= 1,
                    (2 * a + 1) * (2 * a + 1) < (2 * c + 1) * (2 * c + 1),
            ;
        }
        if K > 0 {
            assert(modes@[0].freq_nhz == f0 * 1);
        }
    }
    modes
}

} // verus!
