//! Integer arithmetic of the slippy-map tile grid: the grid is `2^zoom`
//! tiles on a side, and the whole map is `pixel_scale * 2^zoom` pixels wide.

use vstd::prelude::*;

verus! {

/// `2^n`.
pub open spec fn pow2_spec(n: nat) -> nat
    decreases n,
{
    if n == 0 {
        1
    } else {
        2 * pow2_spec((n - 1) as nat)
    }
}

proof fn lemma_pow2_mono(a: nat, b: nat)
    requires
        a <= b,
    ensures
        pow2_spec(a) <= pow2_spec(b),
    decreases b,
{
    if a < b {
        lemma_pow2_mono(a, (b - 1) as nat);
    }
}

/// Computes `2^n` for the zoom range of the tile scheme.
pub fn pow2_u64(n: u8) -> (r: u64)
    requires
        n <= 30,
    ensures
        r == pow2_spec(n as nat),
{
    let mut r: u64 = 1;
    let mut i: u8 = 0;
    while i < n
        invariant
            i <= n,
            n <= 30,
            r == pow2_spec(i as nat),
        decreases n - i,
    {
        proof {
            lemma_pow2_mono(i as nat, 29);
            assert(pow2_spec(29) == 0x20000000) by {
                reveal_with_fuel(pow2_spec, 30);
            }
        }
        r = r * 2;
        i += 1;
    }
    r
}

/// A tile request is valid when the zoom is in range and both indices lie
/// within the `2^zoom`-by-`2^zoom` grid of that zoom.
pub open spec fn valid_tile(zoom: u8, x: i32, y: i32) -> bool {
    &&& zoom <= 30
    &&& 0 <= x < pow2_spec(zoom as nat)
    &&& 0 <= y < pow2_spec(zoom as nat)
}

/// Decides whether a tile request addresses a tile that exists at its zoom.
pub fn is_valid_tile(zoom: u8, x: i32, y: i32) -> (b: bool)
    ensures
        b == valid_tile(zoom, x, y),
{
    if zoom > 30 {
        return false;
    }
    let m = pow2_u64(zoom);
    x >= 0 && (x as u64) < m && y >= 0 && (y as u64) < m
}

/// The total map width in pixels at a zoom: the tile pixel width times the
/// number of tiles across the map.
pub fn total_map_width_pixels(pixel_scale: i64, zoom: u8) -> (r: u64)
    requires
        0 < pixel_scale <= 0x10000,
        zoom <= 30,
    ensures
        r == pixel_scale * pow2_spec(zoom as nat),
{
    let m = pow2_u64(zoom);
    proof {
        lemma_pow2_mono(zoom as nat, 30);
        assert(pow2_spec(30) == 0x40000000) by {
            reveal_with_fuel(pow2_spec, 31);
        }
        vstd::arithmetic::mul::lemma_mul_upper_bound(
            pixel_scale as int,
            0x10000,
            m as int,
            0x40000000,
        );
    }
    (pixel_scale as u64) * m
}

} // verus!
