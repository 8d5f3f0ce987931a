//! The avatar image pipeline: circular anti-aliased masking of a square RGBA
//! image, deterministic identicon synthesis from a login, and the cache-file
//! naming and cache-hit rules. All pixel math is exact integer arithmetic;
//! decoding, resampling and PNG encoding are done by the `image` crate
//! behind trusted wrappers.

use vstd::prelude::*;
use vstd::arithmetic::div_mod::lemma_add_mod_noop;
use vstd::arithmetic::div_mod::lemma_fundamental_div_mod_converse;
use vstd::arithmetic::div_mod::lemma_small_mod;
use vstd::string::StrSliceExecFns;
use vstd::string::StringSliceAdditionalSpecFns;
use vstd::string::StringExecFns;
use image::ImageEncoder;

verus! {

// ── Integer square root ─────────────────────────────────────────────────────

/// The floor of the square root of `n`.
pub open spec fn sqrt_floor(n: nat) -> nat
    decreases n,
{
    if n == 0 {
        0
    } else {
        let r = sqrt_floor((n - 1) as nat);
        if (r + 1) * (r + 1) <= n {
            (r + 1) as nat
        } else {
            r
        }
    }
}

proof fn lemma_sqrt_floor_bounds(n: nat)
    ensures
        sqrt_floor(n) * sqrt_floor(n) <= n,
        n < (sqrt_floor(n) + 1) * (sqrt_floor(n) + 1),
    decreases n,
{
    if n == 0 {
        assert(sqrt_floor(n) == 0);
        assert(n < (sqrt_floor(n) + 1) * (sqrt_floor(n) + 1)) by (nonlinear_arith)
            requires
                n == 0,
                sqrt_floor(n) == 0,
        ;
    } else {
        lemma_sqrt_floor_bounds((n - 1) as nat);
        let r = sqrt_floor((n - 1) as nat);
        assert(r * r <= n - 1);
        assert(n - 1 < (r + 1) * (r + 1));
        if (r + 1) * (r + 1) <= n {
            assert(sqrt_floor(n) == r + 1);
            assert(n == (r + 1) * (r + 1));
            assert((r + 1) * (r + 1) < (r + 2) * (r + 2)) by (nonlinear_arith)
                requires
                    r >= 0,
            ;
            assert(sqrt_floor(n) * sqrt_floor(n) <= n);
            assert(n < (sqrt_floor(n) + 1) * (sqrt_floor(n) + 1));
        } else {
            assert(sqrt_floor(n) == r);
            assert(sqrt_floor(n) * sqrt_floor(n) <= n);
            assert(n < (sqrt_floor(n) + 1) * (sqrt_floor(n) + 1));
        }
    }
}

proof fn lemma_sqrt_floor_unique(n: nat, r: nat)
    requires
        r * r <= n,
        n < (r + 1) * (r + 1),
    ensures
        r == sqrt_floor(n),
{
    lemma_sqrt_floor_bounds(n);
    let s = sqrt_floor(n);
    if r < s {
        assert((r + 1) * (r + 1) <= s * s) by (nonlinear_arith)
            requires
                0 <= r,
                r + 1 <= s,
        ;
    }
    if s < r {
        assert((s + 1) * (s + 1) <= r * r) by (nonlinear_arith)
            requires
                0 <= s,
                s + 1 <= r,
        ;
    }
}

/// The floor of the square root, by binary search.
pub fn isqrt(n: u64) -> (r: u64)
    ensures
        r as nat == sqrt_floor(n as nat),
{
    let mut lo: u64 = 0;
    let mut hi: u64 = 4294967296;
    proof {
        assert((4294967296 as nat) * (4294967296 as nat) > n as nat);
    }
    while lo + 1 < hi
        invariant
            lo < hi <= 4294967296,
            (lo as nat) * (lo as nat) <= n as nat,
            (n as nat) < (hi as nat) * (hi as nat),
        decreases hi - lo,
    {
        let mid = lo + (hi - lo) / 2;
        proof {
            assert((mid as int) * (mid as int) <= 0x10000000000000000) by (nonlinear_arith)
                requires
                    0 <= mid <= 4294967296,
            ;
        }
        if (mid as u128) * (mid as u128) <= n as u128 {
            lo = mid;
        } else {
            hi = mid;
        }
    }
    proof {
        lemma_sqrt_floor_unique(n as nat, lo as nat);
    }
    lo
}

// ── Circular mask ───────────────────────────────────────────────────────────

/// Four times the squared distance of the pixel center `(x + 0.5, y + 0.5)`
/// from the image center `(size/2, size/2)`: `(2x+1-size)² + (2y+1-size)²`.
pub open spec fn dist2(x: int, y: int, size: int) -> int {
    let dx = 2 * x + 1 - size;
    let dy = 2 * y + 1 - size;
    dx * dx + dy * dy
}

/// The feather-band alpha, exactly: `round((radius - dist) * 255)` clamped
/// into `[0, 255]`, where `dist² = d2/4` and `radius = size/2`. Written over
/// the integer square root of `255²·d2`.
pub open spec fn feather_alpha(d2: int, size: int) -> int {
    let y = sqrt_floor((65025 * d2) as nat) as int;
    let raw = if y * y == 65025 * d2 {
        (255 * size + 1 - y) / 2
    } else {
        (255 * size - y) / 2
    };
    if raw < 0 {
        0
    } else if raw > 255 {
        255
    } else {
        raw
    }
}

/// Channel `c` of the masked image's pixel `(x, y)`: outside the circle
/// everything is transparent black; inside, color channels keep the source
/// value, and alpha keeps the source value up to `radius - 1`, fades over
/// the one-pixel feather band, and is 0 at the radius.
pub open spec fn mask_channel(src: Seq<u8>, size: int, x: int, y: int, c: int) -> u8 {
    let d2 = dist2(x, y, size);
    if d2 > size * size {
        0u8
    } else if c == 3 {
        if d2 <= (size - 2) * (size - 2) {
            src[4 * (y * size + x) + 3]
        } else {
            feather_alpha(d2, size) as u8
        }
    } else {
        src[4 * (y * size + x) + c]
    }
}

/// The masked image as a flat RGBA byte sequence, row-major.
pub open spec fn masked_image(src: Seq<u8>, size: int) -> Seq<u8> {
    Seq::new(
        (size * size * 4) as nat,
        |i: int| mask_channel(src, size, (i / 4) % size, i / (4 * size), i % 4),
    )
}

/// Row-major RGBA indexing: byte `4·(y·size + x) + c` belongs to pixel
/// `(x, y)`, channel `c`.
proof fn lemma_rgba_index(size: int, x: int, y: int, c: int)
    requires
        0 <= x < size,
        0 <= y < size,
        0 <= c < 4,
    ensures
        ((4 * (y * size + x) + c) / 4) % size == x,
        (4 * (y * size + x) + c) / (4 * size) == y,
        (4 * (y * size + x) + c) % 4 == c,
        4 * (y * size + x) + c < size * size * 4,
        0 <= 4 * (y * size + x) + c,
{
    let i = 4 * (y * size + x) + c;
    lemma_fundamental_div_mod_converse(i, 4, y * size + x, c);
    assert(i / 4 == y * size + x);
    lemma_fundamental_div_mod_converse(y * size + x, size, y, x);
    assert((i / 4) % size == x);
    assert(i == y * (4 * size) + (4 * x + c)) by (nonlinear_arith)
        requires
            i == 4 * (y * size + x) + c,
    ;
    assert(0 <= 4 * x + c < 4 * size);
    lemma_fundamental_div_mod_converse(i, 4 * size, y, 4 * x + c);
    assert(y * size + x < size * size) by (nonlinear_arith)
        requires
            0 <= x < size,
            0 <= y < size,
    ;
    assert(i < size * size * 4) by (nonlinear_arith)
        requires
            i == 4 * (y * size + x) + c,
            y * size + x < size * size,
            0 <= c < 4,
    ;
}

/// Compute the feather-band alpha for a pixel inside the circle.
fn feather_alpha_exec(d2: u64, size: u32) -> (r: u8)
    requires
        2 <= size <= 4096,
        d2 <= size * size,
    ensures
        r as int == feather_alpha(d2 as int, size as int),
{
    proof {
        assert(d2 <= 16777216) by (nonlinear_arith)
            requires
                d2 <= size * size,
                size <= 4096,
        ;
    }
    let m: u64 = 65025 * d2;
    let yroot = isqrt(m);
    let c255s: u64 = 255 * (size as u64);
    proof {
        lemma_sqrt_floor_bounds(m as nat);
        assert((c255s as int) * (c255s as int) == 65025 * ((size as int) * (size as int)))
            by (nonlinear_arith)
            requires
                c255s == 255 * (size as int),
        ;
        assert(m as int <= (c255s as int) * (c255s as int)) by (nonlinear_arith)
            requires
                d2 as int <= (size as int) * (size as int),
                (c255s as int) * (c255s as int) == 65025 * ((size as int) * (size as int)),
                m as int == 65025 * (d2 as int),
        ;
        assert(yroot <= c255s) by (nonlinear_arith)
            requires
                (yroot as int) * (yroot as int) <= m as int,
                m as int <= (c255s as int) * (c255s as int),
                yroot >= 0,
                c255s >= 0,
        ;
    }
    let raw: u64 = if (yroot as u128) * (yroot as u128) == m as u128 {
        (c255s + 1 - yroot) / 2
    } else {
        (c255s - yroot) / 2
    };
    let alpha: u64 = if raw > 255 {
        255
    } else {
        raw
    };
    alpha as u8
}

/// Apply the circular anti-aliased mask to a `size`×`size` RGBA image held
/// as a flat byte buffer: pixels outside the circle become transparent,
/// pixels within `radius - 1` keep their alpha, and the one-pixel feather
/// band fades linearly.
#[verifier::loop_isolation(false)]
pub fn apply_circular_mask(pixels: &Vec<u8>, size: u32) -> (out: Vec<u8>)
    requires
        2 <= size <= 4096,
        pixels@.len() == size * size * 4,
    ensures
        out@ == masked_image(pixels@, size as int),
{
    let ghost target = masked_image(pixels@, size as int);
    let s64: u64 = size as u64;
    proof {
        assert(s64 * s64 <= 4096 * 4096 && (s64 - 2) * (s64 - 2) <= 4096 * 4096)
            by (nonlinear_arith)
            requires
                2 <= s64 <= 4096,
        ;
    }
    let s2: u64 = s64 * s64;
    let inner: u64 = (s64 - 2) * (s64 - 2);
    let mut out: Vec<u8> = Vec::new();
    let mut y: u32 = 0;
    while y < size
        invariant
            y <= size,
            out@.len() == 4 * ((y as int) * (size as int)),
            forall|i: int| 0 <= i < out@.len() ==> out@[i] == target[i],
        decreases size - y,
    {
        let mut x: u32 = 0;
        while x < size
            invariant
                y < size,
                x <= size,
                out@.len() == 4 * ((y as int) * (size as int) + (x as int)),
                forall|i: int| 0 <= i < out@.len() ==> out@[i] == target[i],
            decreases size - x,
        {
            let dx: i64 = 2 * (x as i64) + 1 - (size as i64);
            let dy: i64 = 2 * (y as i64) + 1 - (size as i64);
            proof {
                assert(dx * dx + dy * dy <= 2 * 8192 * 8192 && dx * dx >= 0 && dy * dy >= 0)
                    by (nonlinear_arith)
                    requires
                        -8192 <= dx <= 8192,
                        -8192 <= dy <= 8192,
                ;
            }
            let q: i64 = dx * dx + dy * dy;
            let d2: u64 = q as u64;
            let ghost xi = x as int;
            let ghost yi = y as int;
            let ghost si = size as int;
            let ghost i0 = 4 * (yi * si + xi);
            proof {
                assert(d2 == dist2(xi, yi, si));
                lemma_rgba_index(si, xi, yi, 0);
                lemma_rgba_index(si, xi, yi, 1);
                lemma_rgba_index(si, xi, yi, 2);
                lemma_rgba_index(si, xi, yi, 3);
                assert(target[i0] == mask_channel(pixels@, si, xi, yi, 0));
                assert(target[i0 + 1] == mask_channel(pixels@, si, xi, yi, 1));
                assert(target[i0 + 2] == mask_channel(pixels@, si, xi, yi, 2));
                assert(target[i0 + 3] == mask_channel(pixels@, si, xi, yi, 3));
            }
            let base: usize = 4 * ((y as usize) * (size as usize) + (x as usize));
            if d2 > s2 {
                out.push(0);
                out.push(0);
                out.push(0);
                out.push(0);
                proof {
                    assert(dist2(xi, yi, si) > si * si);
                    assert(out@[i0] == target[i0]);
                    assert(out@[i0 + 1] == target[i0 + 1]);
                    assert(out@[i0 + 2] == target[i0 + 2]);
                    assert(out@[i0 + 3] == target[i0 + 3]);
                }
            } else {
                let alpha: u8 = if d2 <= inner {
                    pixels[base + 3]
                } else {
                    feather_alpha_exec(d2, size)
                };
                proof {
                    assert(alpha == mask_channel(pixels@, si, xi, yi, 3));
                }
                out.push(pixels[base]);
                out.push(pixels[base + 1]);
                out.push(pixels[base + 2]);
                out.push(alpha);
                proof {
                    assert(out@[i0] == target[i0]);
                    assert(out@[i0 + 1] == target[i0 + 1]);
                    assert(out@[i0 + 2] == target[i0 + 2]);
                    assert(out@[i0 + 3] == target[i0 + 3]);
                }
            }
            x += 1;
        }
        proof {
            assert(4 * ((y as int) * (size as int) + (size as int)) == 4 * (((y as int) + 1) * (
            size as int))) by (nonlinear_arith);
        }
        y += 1;
    }
    proof {
        assert(4 * ((size as int) * (size as int)) == (size as int) * (size as int) * 4)
            by (nonlinear_arith);
        assert(out@.len() == target.len());
        assert(out@ =~= target);
    }
    out
}

/// Mask boundary law, outer edge: a pixel whose center lies exactly on the
/// radius (`dist2 == size²`) gets alpha 0 — the feather formula
/// `round((radius - dist)·255)` evaluates to 0 there.
pub proof fn lemma_mask_boundary(src: Seq<u8>, size: int, x: int, y: int)
    requires
        2 <= size,
        0 <= x < size,
        0 <= y < size,
        src.len() == size * size * 4,
        dist2(x, y, size) == size * size,
    ensures
        mask_channel(src, size, x, y, 3) == 0,
{
    let d2 = size * size;
    assert(65025 * d2 == (255 * size) * (255 * size)) by (nonlinear_arith)
        requires
            d2 == size * size,
    ;
    assert((255 * size) * (255 * size) < (255 * size + 1) * (255 * size + 1)) by (nonlinear_arith)
        requires
            size >= 2,
    ;
    lemma_sqrt_floor_unique((65025 * d2) as nat, (255 * size) as nat);
    assert((size - 2) * (size - 2) < size * size) by (nonlinear_arith)
        requires
            size >= 2,
    ;
    assert(feather_alpha(d2, size) == 0);
}

// ── Identicon synthesis ─────────────────────────────────────────────────────

/// The multiplicative hash of a byte string: start 5381, then
/// `hash·33 + byte` for each byte, wrapping at 2^64.
pub open spec fn djb2(bytes: Seq<u8>) -> u64
    decreases bytes.len(),
{
    if bytes.len() == 0 {
        5381u64
    } else {
        ((djb2(bytes.drop_last()) * 33 + bytes.last()) % 0x1_0000_0000_0000_0000) as u64
    }
}

/// Hash a byte string with the wrapping multiplicative hash.
#[verifier::loop_isolation(false)]
pub fn djb2_hash(bytes: &Vec<u8>) -> (r: u64)
    ensures
        r == djb2(bytes@),
{
    let mut h: u64 = 5381;
    let mut i: usize = 0;
    while i < bytes.len()
        invariant
            i <= bytes@.len(),
            h == djb2(bytes@.take(i as int)),
        decreases bytes@.len() - i,
    {
        proof {
            assert(bytes@.take(i + 1).drop_last() =~= bytes@.take(i as int));
            assert(bytes@.take(i + 1).last() == bytes@[i as int]);
        }
        let ghost h0 = h as int;
        let ghost b = bytes@[i as int] as int;
        let ghost m = 0x1_0000_0000_0000_0000int;
        let h1 = h.wrapping_mul(33);
        let h2 = h1.wrapping_add(bytes[i] as u64);
        proof {
            assert(h1 == (h0 * 33) % m);
            assert(h2 == (h1 + b) % m) by {
                if h1 + b < m {
                    lemma_small_mod((h1 + b) as nat, m as nat);
                } else {
                    lemma_fundamental_div_mod_converse(h1 + b, m, 1, h1 + b - m);
                }
            }
            lemma_small_mod(b as nat, m as nat);
            lemma_add_mod_noop(h0 * 33, b, m);
            assert(h2 == (h0 * 33 + b) % m);
        }
        h = h2;
        i += 1;
    }
    proof {
        assert(bytes@.take(bytes@.len() as int) =~= bytes@);
    }
    h
}

/// The `x` ramp channel of the HSL-derived palette (saturation 0.65,
/// lightness 0.55), already scaled to 0..=255 and floored: `e` is the
/// distance of the hue from its sextant pair's midpoint, in degrees.
pub open spec fn hsl_x_channel(e: int) -> int {
    ((117 * (60 - e) + 3090) * 17) / 800
}

/// The RGB channels, each floored into 0..=255, of the HSL color
/// (hue, 0.65, 0.55): the constant channels come to 214 and 65, and the ramp
/// channel interpolates between them.
pub open spec fn hsl_rgb(hue: int) -> (int, int, int) {
    let e = if hue % 120 >= 60 {
        hue % 120 - 60
    } else {
        60 - hue % 120
    };
    let xv = hsl_x_channel(e);
    if hue / 60 == 0 {
        (214, xv, 65)
    } else if hue / 60 == 1 {
        (xv, 214, 65)
    } else if hue / 60 == 2 {
        (65, 214, xv)
    } else if hue / 60 == 3 {
        (65, xv, 214)
    } else if hue / 60 == 4 {
        (xv, 65, 214)
    } else {
        (214, 65, xv)
    }
}

/// Convert a hue (0..360) at fixed saturation 0.65 and lightness 0.55 to
/// RGB, in exact integer arithmetic.
pub fn hsl_to_rgb(hue: u64) -> (r: (u8, u8, u8))
    requires
        hue < 360,
    ensures
        (r.0 as int, r.1 as int, r.2 as int) == hsl_rgb(hue as int),
{
    let rem: u64 = hue % 120;
    let e: u64 = if rem >= 60 {
        rem - 60
    } else {
        60 - rem
    };
    let num: u64 = 117 * (60 - e) + 3090;
    let xv64: u64 = (num * 17) / 800;
    proof {
        assert(xv64 <= 214) by (nonlinear_arith)
            requires
                xv64 == (num * 17) / 800,
                num <= 10110,
        ;
    }
    let xv: u8 = xv64 as u8;
    let sextant = hue / 60;
    if sextant == 0 {
        (214, xv, 65)
    } else if sextant == 1 {
        (xv, 214, 65)
    } else if sextant == 2 {
        (65, 214, xv)
    } else if sextant == 3 {
        (65, xv, 214)
    } else if sextant == 4 {
        (xv, 65, 214)
    } else {
        (214, 65, xv)
    }
}

/// Whether the 5×5 identicon grid cell `(row, col)` is filled: one bit of
/// `hash >> 8` per cell of the left three columns, mirrored horizontally.
pub open spec fn cell_on(hash: u64, row: int, col: int) -> bool {
    let mc = if col <= 2 {
        col
    } else {
        4 - col
    };
    ((hash >> 8) >> ((row * 3 + mc) as u64)) & 1 == 1
}

/// Channel `c` of the identicon's pixel `(x, y)` on the 64-pixel canvas:
/// twelve-pixel cells with a two-pixel margin; filled cells take the
/// hash-derived foreground color, everything else the fixed dark
/// background; alpha is 255 everywhere (the circular mask comes later).
pub open spec fn identicon_channel(hash: u64, x: int, y: int, c: int) -> u8 {
    if c == 3 {
        255u8
    } else {
        let inside = 2 <= x < 62 && 2 <= y < 62 && cell_on(hash, (y - 2) / 12, (x - 2) / 12);
        let fg = hsl_rgb(hash as int % 360);
        if inside {
            (if c == 0 {
                fg.0
            } else if c == 1 {
                fg.1
            } else {
                fg.2
            }) as u8
        } else {
            if c == 2 {
                50u8
            } else {
                30u8
            }
        }
    }
}

/// The identicon's raw 64×64 RGBA bytes, row-major.
pub open spec fn identicon_rgba(hash: u64) -> Seq<u8> {
    Seq::new(16384, |i: int| identicon_channel(hash, (i / 4) % 64, i / (4 * 64int), i % 4))
}

/// Render the 64×64 identicon for a hash as raw RGBA bytes.
#[verifier::loop_isolation(false)]
fn render_identicon(hash: u64) -> (out: Vec<u8>)
    ensures
        out@ == identicon_rgba(hash),
{
    let ghost target = identicon_rgba(hash);
    let (fr, fgr, fb) = hsl_to_rgb(hash % 360);
    let mut out: Vec<u8> = Vec::new();
    let mut y: u32 = 0;
    while y < 64
        invariant
            y <= 64,
            out@.len() == 4 * ((y as int) * 64),
            forall|i: int| 0 <= i < out@.len() ==> out@[i] == target[i],
        decreases 64 - y,
    {
        let mut x: u32 = 0;
        while x < 64
            invariant
                y < 64,
                x <= 64,
                out@.len() == 4 * ((y as int) * 64 + (x as int)),
                forall|i: int| 0 <= i < out@.len() ==> out@[i] == target[i],
            decreases 64 - x,
        {
            let ghost xi = x as int;
            let ghost yi = y as int;
            let ghost i0 = 4 * (yi * 64 + xi);
            proof {
                lemma_rgba_index(64, xi, yi, 0);
                lemma_rgba_index(64, xi, yi, 1);
                lemma_rgba_index(64, xi, yi, 2);
                lemma_rgba_index(64, xi, yi, 3);
                assert(target[i0] == identicon_channel(hash, xi, yi, 0));
                assert(target[i0 + 1] == identicon_channel(hash, xi, yi, 1));
                assert(target[i0 + 2] == identicon_channel(hash, xi, yi, 2));
                assert(target[i0 + 3] == identicon_channel(hash, xi, yi, 3));
            }
            let mut filled = false;
            if x >= 2 && x < 62 && y >= 2 && y < 62 {
                let col = (x - 2) / 12;
                let row = (y - 2) / 12;
                let mc = if col <= 2 {
                    col
                } else {
                    4 - col
                };
                let sh: u64 = (row * 3 + mc) as u64;
                filled = ((hash >> 8) >> sh) & 1 == 1;
                proof {
                    assert(col == (xi - 2) / 12 && col <= 4);
                    assert(row == (yi - 2) / 12 && row <= 4);
                    assert(filled == cell_on(hash, (yi - 2) / 12, (xi - 2) / 12));
                }
            }
            let px: (u8, u8, u8) = if filled {
                (fr, fgr, fb)
            } else {
                (30, 30, 50)
            };
            out.push(px.0);
            out.push(px.1);
            out.push(px.2);
            out.push(255);
            proof {
                assert(out@[i0] == target[i0]);
                assert(out@[i0 + 1] == target[i0 + 1]);
                assert(out@[i0 + 2] == target[i0 + 2]);
                assert(out@[i0 + 3] == target[i0 + 3]);
            }
            x += 1;
        }
        y += 1;
    }
    proof {
        assert(out@ =~= target);
    }
    out
}

/// Mask interior law: a pixel at distance `radius - 1` or less from the
/// center — for instance one at `radius - 2` — keeps the source alpha.
pub proof fn lemma_mask_interior(src: Seq<u8>, size: int, x: int, y: int)
    requires
        2 <= size,
        0 <= x < size,
        0 <= y < size,
        src.len() == size * size * 4,
        dist2(x, y, size) <= (size - 2) * (size - 2),
    ensures
        mask_channel(src, size, x, y, 3) == src[4 * (y * size + x) + 3],
{
    assert((size - 2) * (size - 2) <= size * size) by (nonlinear_arith)
        requires
            size >= 2,
    ;
}

// ── PNG encoding and decoding, through the image crate ──────────────────────

/// What the PNG encoder produces for a `width`×`height` RGBA byte buffer: a
/// function of the dimensions and bytes alone.
pub uninterp spec fn png_encoding(width: nat, height: nat, data: Seq<u8>) -> Seq<u8>;

/// Whether `image::load_from_memory` decodes these bytes: a function of the
/// bytes alone.
pub uninterp spec fn decodes(bytes: Seq<u8>) -> bool;

/// The raw RGBA bytes of the image that `bytes` decode to, resampled to
/// `width`×`height` with the Lanczos3 filter: a function of its arguments
/// alone.
pub uninterp spec fn resized_rgba(bytes: Seq<u8>, width: nat, height: nat) -> Seq<u8>;

/// Relies on image's `PngEncoder::new` and `ImageEncoder::write_image`:
/// encodes an RGBA8 buffer as PNG bytes, deterministically in the
/// dimensions and bytes (fixed settings, no metadata). `write_image` asserts
/// that the buffer length matches the dimensions, so that is required here.
/// With nonzero dimensions this size, a valid Rgba8 buffer, and a `Vec`
/// writer, the encoder's error paths (zero dimensions, invalid color
/// combination, writer errors) are all unreachable, so encoding succeeds.
#[verifier::external_body]
fn encode_png(data: &Vec<u8>, width: u32, height: u32) -> (r: Option<Vec<u8>>)
    requires
        data@.len() == width * height * 4,
    ensures
        r is Some ==> r.unwrap()@ == png_encoding(width as nat, height as nat, data@),
        0 < width <= 4096 && 0 < height <= 4096 ==> r is Some,
{
    let mut buf: Vec<u8> = Vec::new();
    let encoder = image::codecs::png::PngEncoder::new(&mut buf);
    match encoder.write_image(data, width, height, image::ExtendedColorType::Rgba8) {
        Ok(()) => Some(buf),
        Err(_) => None,
    }
}

/// Relies on `image::load_from_memory`, `DynamicImage::resize_exact` and
/// `ImageBuffer::into_raw`: decode the bytes (guessing the format), resample
/// to exactly `width`×`height` with the Lanczos3 filter, and hand out the
/// raw RGBA bytes — `width · height · 4` of them. The intermediate image
/// value cannot be spoken about, so the three calls stand together in this
/// one trusted pipeline from plain bytes to plain bytes; every step is a
/// function of the input bytes alone, named by `resized_rgba`. `None`
/// exactly when the bytes do not decode.
#[verifier::external_body]
fn decode_resized_rgba(bytes: &Vec<u8>, width: u32, height: u32) -> (r: Option<Vec<u8>>)
    ensures
        (r is Some) == decodes(bytes@),
        r is Some ==> r.unwrap()@ == resized_rgba(bytes@, width as nat, height as nat),
        r is Some ==> r.unwrap()@.len() == width * height * 4,
{
    match image::load_from_memory(bytes) {
        Ok(img) => {
            let resized = img.resize_exact(width, height, image::imageops::FilterType::Lanczos3);
            Some(resized.to_rgba8().into_raw())
        },
        Err(_) => None,
    }
}

// ── The two cache-fill pipelines ─────────────────────────────────────────────

/// Synthesize the circular identicon PNG for a login: hash the login, render
/// the mirrored 5×5 grid in the hash-derived color, apply the circular mask,
/// and encode as PNG. The output bytes are a function of the login alone.
pub fn generate_identicon(username: &str) -> (r: Vec<u8>)
    ensures
        r@ == png_encoding(64, 64, masked_image(identicon_rgba(djb2(username.spec_bytes())), 64)),
{
    let bytes = username.as_bytes_vec();
    let hash = djb2_hash(&bytes);
    let img = render_identicon(hash);
    proof {
        assert(img@.len() == 64 * 64 * 4);
    }
    let masked = apply_circular_mask(&img, 64);
    match encode_png(&masked, 64, 64) {
        Some(png) => png,
        None => {
            proof {
                assert(false);
            }
            Vec::new()
        },
    }
}

/// Prepare a downloaded avatar: decode the bytes, resample to 64×64 with
/// Lanczos3, apply the circular mask, and encode as PNG. Succeeds exactly
/// when the bytes decode as an image; the caller treats `None` as a soft,
/// retryable failure and caches nothing.
pub fn mask_avatar_png(bytes: &Vec<u8>) -> (r: Option<Vec<u8>>)
    ensures
        (r is Some) == decodes(bytes@),
        r is Some ==> r.unwrap()@ == png_encoding(
            64,
            64,
            masked_image(resized_rgba(bytes@, 64, 64), 64),
        ),
{
    let raw = match decode_resized_rgba(bytes, 64, 64) {
        Some(raw) => raw,
        None => {
            return None;
        },
    };
    let masked = apply_circular_mask(&raw, 64);
    match encode_png(&masked, 64, 64) {
        Some(png) => Some(png),
        None => {
            proof {
                assert(false);
            }
            None
        },
    }
}

// ── Cache naming and the cache-hit rule ──────────────────────────────────────

/// The cache file name for a login: `<login>.png`.
pub fn avatar_file_name(author: &str) -> (r: String)
    ensures
        r@ == author@ + ".png"@,
{
    let mut s = author.to_owned();
    s.append(".png");
    s
}

/// The temporary download artifact name for a login: `<login>.tmp`. It is
/// removed after every download attempt, successful or not.
pub fn avatar_tmp_file_name(author: &str) -> (r: String)
    ensures
        r@ == author@ + ".tmp"@,
{
    let mut s = author.to_owned();
    s.append(".tmp");
    s
}

/// The cache-hit rule, shared by both fill paths and by readers: a cache
/// entry exists if and only if the avatar file exists and is non-empty.
/// On a hit the fill operation writes nothing — however often it is asked.
pub fn avatar_cache_hit(file_exists: bool, file_len: u64) -> (r: bool)
    ensures
        r == (file_exists && file_len > 0),
{
    file_exists && file_len > 0
}

} // verus!
