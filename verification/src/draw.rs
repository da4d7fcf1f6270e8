//! Rasterization helpers for the read-only world snapshot handed to an
//! external visualizer: RGBA pixels in an `x`-major byte buffer.
//!
//! Every writer states exactly which bytes it may touch (a framing clause
//! over the pixel decoding of byte indices) and which pixels it paints.
use vstd::prelude::*;
use crate::world::{Animal, Environment, DrawType, HEIGHT, WIDTH, WINDOW_HEIGHT, pos_in};

verus! {

/// The first byte of a pixel's four RGBA bytes.
pub open spec fn pix_base(px: int, py: int) -> int {
    4 * (px * (WINDOW_HEIGHT as int) + py)
}

/// The pixel column a byte index belongs to.
pub open spec fn px_of(t: int) -> int {
    (t / 4) / (WINDOW_HEIGHT as int)
}

/// The pixel row a byte index belongs to.
pub open spec fn py_of(t: int) -> int {
    (t / 4) % (WINDOW_HEIGHT as int)
}

/// A pixel that can be written: on the screen and with all four bytes inside
/// the buffer.
pub open spec fn pix_ok(s: Seq<u8>, px: int, py: int) -> bool {
    &&& 0 <= px < crate::world::WINDOW_WIDTH as int
    &&& 0 <= py < WINDOW_HEIGHT as int
    &&& pix_base(px, py) + 3 < s.len()
}

/// The byte size of the window's pixel area: writes never go past it.
pub open spec fn window_bytes() -> int {
    4 * (crate::world::WINDOW_WIDTH as int) * (WINDOW_HEIGHT as int)
}

/// A pixel's four bytes hold the given color.
pub open spec fn pix_eq(s: Seq<u8>, px: int, py: int, r: u8, g: u8, b: u8, a: u8) -> bool {
    &&& s[pix_base(px, py)] == r
    &&& s[pix_base(px, py) + 1] == g
    &&& s[pix_base(px, py) + 2] == b
    &&& s[pix_base(px, py) + 3] == a
}

/// Byte indices decode uniquely back to their pixel: the byte ranges of two
/// different on-screen pixels never overlap.
pub proof fn lemma_pix_decode(px: int, py: int, c: int)
    requires
        0 <= px,
        0 <= py < WINDOW_HEIGHT as int,
        0 <= c < 4,
    ensures
        px_of(pix_base(px, py) + c) == px,
        py_of(pix_base(px, py) + c) == py,
{
    let wh = WINDOW_HEIGHT as int;
    let q = px * wh + py;
    assert(q >= 0) by (nonlinear_arith)
        requires
            px >= 0,
            py >= 0,
            wh > 0,
            q == px * wh + py,
    ;
    assert((4 * q + c) / 4 == q) by (nonlinear_arith)
        requires
            0 <= c < 4,
            q >= 0,
    ;
    assert(q / wh == px && q % wh == py) by (nonlinear_arith)
        requires
            0 <= py < wh,
            px >= 0,
            wh > 0,
            q == px * wh + py,
    ;
}

/// One byte of a pixel never falls into the byte range of a different pixel.
proof fn lemma_byte_disjoint(px: int, py: int, c: int, x0: int, y0: int)
    requires
        0 <= px,
        0 <= py < WINDOW_HEIGHT as int,
        0 <= x0,
        0 <= y0 < WINDOW_HEIGHT as int,
        0 <= c < 4,
        (px, py) != (x0, y0),
    ensures
        !(pix_base(x0, y0) <= pix_base(px, py) + c <= pix_base(x0, y0) + 3),
{
    if pix_base(x0, y0) <= pix_base(px, py) + c <= pix_base(x0, y0) + 3 {
        lemma_pix_decode(px, py, c);
        lemma_pix_decode(x0, y0, pix_base(px, py) + c - pix_base(x0, y0));
    }
}

/// A painted pixel stays painted across a write to a different pixel whose
/// framing clause is known.
proof fn lemma_pix_eq_frame(
    s0: Seq<u8>,
    s1: Seq<u8>,
    x0: int,
    y0: int,
    px: int,
    py: int,
    r: u8,
    g: u8,
    b: u8,
    a: u8,
)
    requires
        s1.len() == s0.len(),
        forall|t: int|
            0 <= t < s0.len() && !(pix_base(x0, y0) <= t <= pix_base(x0, y0) + 3) ==> s1[t]
                == s0[t],
        0 <= x0 < crate::world::WINDOW_WIDTH as int,
        0 <= y0 < WINDOW_HEIGHT as int,
        pix_ok(s0, px, py),
        (px, py) != (x0, y0),
        pix_eq(s0, px, py, r, g, b, a),
    ensures
        pix_eq(s1, px, py, r, g, b, a),
{
    lemma_byte_disjoint(px, py, 0, x0, y0);
    lemma_byte_disjoint(px, py, 1, x0, y0);
    lemma_byte_disjoint(px, py, 2, x0, y0);
    lemma_byte_disjoint(px, py, 3, x0, y0);
    lemma_pix_decode(px, py, 0);
}

/// Writes one RGBA pixel. An off-screen coordinate or a buffer too short for
/// it leaves the buffer untouched; otherwise exactly that pixel's four bytes
/// change.
pub fn draw_pixel(screen: &mut Vec<u8>, x: i32, y: i32, r: u8, g: u8, b: u8, a: u8)
    ensures
        final(screen)@.len() == old(screen)@.len(),
        pix_ok(old(screen)@, x as int, y as int) ==> pix_eq(
            final(screen)@,
            x as int,
            y as int,
            r,
            g,
            b,
            a,
        ),
        forall|t: int|
            0 <= t < old(screen)@.len() && !(pix_ok(old(screen)@, x as int, y as int) && pix_base(
                x as int,
                y as int,
            ) <= t <= pix_base(x as int, y as int) + 3) ==> final(screen)@[t] == old(screen)@[t],
        forall|t: int|
            window_bytes() <= t < old(screen)@.len() ==> final(screen)@[t] == old(screen)@[t],
{
    if x < 0 || y < 0 || x >= crate::world::WINDOW_WIDTH as i32 || y >= WINDOW_HEIGHT as i32 {
        return ;
    }
    let xs: u64 = x as u64;
    let ys: u64 = y as u64;
    proof {
        assert(xs < crate::world::WINDOW_WIDTH as u64 && ys < WINDOW_HEIGHT as u64);
        assert(xs * (WINDOW_HEIGHT as u64) <= 0xffff_ffffu64 * (WINDOW_HEIGHT as u64))
            by (nonlinear_arith)
            requires
                xs <= 0xffff_ffffu64,
        ;
    }
    let base64: u64 = 4 * (xs * (WINDOW_HEIGHT as u64) + ys);
    if screen.len() as u64 <= base64 + 3 {
        return ;
    }
    let base: usize = base64 as usize;
    screen[base] = r;
    screen[base + 1] = g;
    screen[base + 2] = b;
    screen[base + 3] = a;
}

/// The filled square of pixels a rect drawing covers.
pub open spec fn in_rect(px: int, py: int, x: int, y: int, half: int) -> bool {
    x - half < px < x + half && y - half < py < y + half
}

/// Half of a drawing diameter, rounded up.
pub open spec fn half_of(d: int) -> int {
    (d + 1) / 2
}

/// Paints the filled square of diameter `d` centered on `(x, y)`: every
/// on-screen pixel of the square gets the color, and no byte outside the
/// square changes.
#[verifier::rlimit(50)]
pub fn draw_rect(screen: &mut Vec<u8>, x: i32, y: i32, d: i32, r: u8, g: u8, b: u8, a: u8)
    requires
        -0x3fff_ffff <= x <= 0x3fff_ffff,
        -0x3fff_ffff <= y <= 0x3fff_ffff,
        0 <= d <= 0x3fff_ffff,
    ensures
        final(screen)@.len() == old(screen)@.len(),
        forall|px: int, py: int|
            in_rect(px, py, x as int, y as int, half_of(d as int)) && pix_ok(old(screen)@, px, py)
                ==> pix_eq(final(screen)@, px, py, r, g, b, a),
        forall|t: int|
            0 <= t < old(screen)@.len() && !in_rect(
                px_of(t),
                py_of(t),
                x as int,
                y as int,
                half_of(d as int),
            ) ==> final(screen)@[t] == old(screen)@[t],
        forall|t: int|
            window_bytes() <= t < old(screen)@.len() ==> final(screen)@[t] == old(screen)@[t],
{
    let ghost s0 = screen@;
    let half: i32 = (d + 1) / 2;
    if half == 0 {
        return ;
    }
    let mut di: i32 = 1 - half;
    while di < half
        invariant
            1 - half <= di <= half,
            screen@.len() == s0.len(),
            -0x3fff_ffff <= x <= 0x3fff_ffff,
            -0x3fff_ffff <= y <= 0x3fff_ffff,
            1 <= half <= 0x2000_0000,
            forall|px: int, py: int|
                x - half < px < x + di && y - half < py < y + half && pix_ok(s0, px, py) ==> pix_eq(
                    screen@,
                    px,
                    py,
                    r,
                    g,
                    b,
                    a,
                ),
            forall|t: int|
                0 <= t < s0.len() && !in_rect(px_of(t), py_of(t), x as int, y as int, half as int)
                    ==> screen@[t] == s0[t],
            forall|t: int| window_bytes() <= t < s0.len() ==> screen@[t] == s0[t],
        decreases half - di,
    {
        let mut dj: i32 = 1 - half;
        while dj < half
            invariant
                1 - half <= dj <= half,
                1 - half <= di < half,
                screen@.len() == s0.len(),
                -0x3fff_ffff <= x <= 0x3fff_ffff,
                -0x3fff_ffff <= y <= 0x3fff_ffff,
                0 < half <= 0x2000_0000,
                forall|px: int, py: int|
                    x - half < px < x + di && y - half < py < y + half && pix_ok(s0, px, py)
                        ==> pix_eq(screen@, px, py, r, g, b, a),
                forall|px: int, py: int|
                    px == x + di && y - half < py < y + dj && pix_ok(s0, px, py) ==> pix_eq(
                        screen@,
                        px,
                        py,
                        r,
                        g,
                        b,
                        a,
                    ),
                forall|t: int|
                    0 <= t < s0.len() && !in_rect(
                        px_of(t),
                        py_of(t),
                        x as int,
                        y as int,
                        half as int,
                    ) ==> screen@[t] == s0[t],
                forall|t: int| window_bytes() <= t < s0.len() ==> screen@[t] == s0[t],
            decreases half - dj,
        {
            let ghost pre = screen@;
            draw_pixel(screen, x + di, y + dj, r, g, b, a);
            proof {
                let x0 = (x + di) as int;
                let y0 = (y + dj) as int;
                if pix_ok(s0, x0, y0) {
                    assert(pix_eq(screen@, x0, y0, r, g, b, a));
                }
                assert forall|px: int, py: int|
                    (x - half < px < x + di && y - half < py < y + half && pix_ok(s0, px, py)) || (
                    px == x + di && y - half < py < y + dj && pix_ok(s0, px, py)) implies pix_eq(
                    screen@,
                    px,
                    py,
                    r,
                    g,
                    b,
                    a,
                ) by {
                    if (px, py) != (x0, y0) {
                        if pix_ok(pre, x0, y0) {
                            lemma_pix_eq_frame(pre, screen@, x0, y0, px, py, r, g, b, a);
                        }
                    }
                }
                assert forall|t: int|
                    0 <= t < s0.len() && !in_rect(
                        px_of(t),
                        py_of(t),
                        x as int,
                        y as int,
                        half as int,
                    ) implies screen@[t] == s0[t] by {
                    if pix_ok(pre, x0, y0) && pix_base(x0, y0) <= t <= pix_base(x0, y0) + 3 {
                        let c = t - pix_base(x0, y0);
                        lemma_pix_decode(x0, y0, c);
                        assert(in_rect(px_of(t), py_of(t), x as int, y as int, half as int));
                    }
                }
            }
            dj = dj + 1;
        }
        di = di + 1;
    }
}

/// The disc of pixels a round drawing covers: inside the bounding square and
/// within the squared half-diameter.
pub open spec fn in_round(px: int, py: int, x: int, y: int, half: int) -> bool {
    &&& x - half < px < x + half
    &&& y - half < py < y + half
    &&& (px - x) * (px - x) + (py - y) * (py - y) <= half * half
}

/// Paints the filled disc of diameter `d` centered on `(x, y)`: every
/// on-screen pixel of the disc gets the color, and no byte outside the disc
/// changes.
#[verifier::rlimit(50)]
pub fn draw_round(screen: &mut Vec<u8>, x: i32, y: i32, d: i32, r: u8, g: u8, b: u8, a: u8)
    requires
        -0x3fff_ffff <= x <= 0x3fff_ffff,
        -0x3fff_ffff <= y <= 0x3fff_ffff,
        0 <= d <= 0x3fff_ffff,
    ensures
        final(screen)@.len() == old(screen)@.len(),
        forall|px: int, py: int|
            in_round(px, py, x as int, y as int, half_of(d as int)) && pix_ok(old(screen)@, px, py)
                ==> pix_eq(final(screen)@, px, py, r, g, b, a),
        forall|t: int|
            0 <= t < old(screen)@.len() && !in_round(
                px_of(t),
                py_of(t),
                x as int,
                y as int,
                half_of(d as int),
            ) ==> final(screen)@[t] == old(screen)@[t],
        forall|t: int|
            window_bytes() <= t < old(screen)@.len() ==> final(screen)@[t] == old(screen)@[t],
{
    let ghost s0 = screen@;
    let half: i32 = (d + 1) / 2;
    if half == 0 {
        return ;
    }
    proof {
        assert(half as int * half as int <= 0x2000_0000 * 0x2000_0000) by (nonlinear_arith)
            requires
                0 <= half <= 0x2000_0000,
        ;
    }
    let sqr_half: i64 = (half as i64) * (half as i64);
    let mut di: i32 = 1 - half;
    while di < half
        invariant
            1 - half <= di <= half,
            screen@.len() == s0.len(),
            -0x3fff_ffff <= x <= 0x3fff_ffff,
            -0x3fff_ffff <= y <= 0x3fff_ffff,
            1 <= half <= 0x2000_0000,
            sqr_half == half as int * half as int,
            forall|px: int, py: int|
                x - half < px < x + di && in_round(px, py, x as int, y as int, half as int)
                    && pix_ok(s0, px, py) ==> pix_eq(screen@, px, py, r, g, b, a),
            forall|t: int|
                0 <= t < s0.len() && !in_round(px_of(t), py_of(t), x as int, y as int, half as int)
                    ==> screen@[t] == s0[t],
            forall|t: int| window_bytes() <= t < s0.len() ==> screen@[t] == s0[t],
        decreases half - di,
    {
        let mut dj: i32 = 1 - half;
        while dj < half
            invariant
                1 - half <= dj <= half,
                1 - half <= di < half,
                screen@.len() == s0.len(),
                -0x3fff_ffff <= x <= 0x3fff_ffff,
                -0x3fff_ffff <= y <= 0x3fff_ffff,
                1 <= half <= 0x2000_0000,
                sqr_half == half as int * half as int,
                forall|px: int, py: int|
                    x - half < px < x + di && in_round(px, py, x as int, y as int, half as int)
                        && pix_ok(s0, px, py) ==> pix_eq(screen@, px, py, r, g, b, a),
                forall|px: int, py: int|
                    px == x + di && y - half < py < y + dj && in_round(
                        px,
                        py,
                        x as int,
                        y as int,
                        half as int,
                    ) && pix_ok(s0, px, py) ==> pix_eq(screen@, px, py, r, g, b, a),
                forall|t: int|
                    0 <= t < s0.len() && !in_round(
                        px_of(t),
                        py_of(t),
                        x as int,
                        y as int,
                        half as int,
                    ) ==> screen@[t] == s0[t],
                forall|t: int| window_bytes() <= t < s0.len() ==> screen@[t] == s0[t],
            decreases half - dj,
        {
            let ghost pre = screen@;
            let dii: i64 = di as i64;
            let djj: i64 = dj as i64;
            proof {
                assert(dii as int * dii as int <= 0x2000_0000 * 0x2000_0000 && dii as int
                    * dii as int >= 0) by (nonlinear_arith)
                    requires
                        -0x2000_0000 <= dii <= 0x2000_0000,
                ;
                assert(djj as int * djj as int <= 0x2000_0000 * 0x2000_0000 && djj as int
                    * djj as int >= 0) by (nonlinear_arith)
                    requires
                        -0x2000_0000 <= djj <= 0x2000_0000,
                ;
            }
            if dii * dii + djj * djj <= sqr_half {
                draw_pixel(screen, x + di, y + dj, r, g, b, a);
            }
            proof {
                let x0 = (x + di) as int;
                let y0 = (y + dj) as int;
                let inside = dii * dii + djj * djj <= sqr_half;
                if inside && pix_ok(s0, x0, y0) {
                    assert(pix_eq(screen@, x0, y0, r, g, b, a));
                }
                assert forall|px: int, py: int|
                    ((x - half < px < x + di && in_round(px, py, x as int, y as int, half as int)
                        && pix_ok(s0, px, py)) || (px == x0 && y - half < py < y + dj && in_round(
                        px,
                        py,
                        x as int,
                        y as int,
                        half as int,
                    ) && pix_ok(s0, px, py))) implies pix_eq(screen@, px, py, r, g, b, a) by {
                    if (px, py) != (x0, y0) {
                        if inside && pix_ok(pre, x0, y0) {
                            lemma_pix_eq_frame(pre, screen@, x0, y0, px, py, r, g, b, a);
                        }
                    }
                }
                assert forall|t: int|
                    0 <= t < s0.len() && !in_round(
                        px_of(t),
                        py_of(t),
                        x as int,
                        y as int,
                        half as int,
                    ) implies screen@[t] == s0[t] by {
                    if inside && pix_ok(pre, x0, y0) && pix_base(x0, y0) <= t <= pix_base(x0, y0)
                        + 3 {
                        let c = t - pix_base(x0, y0);
                        lemma_pix_decode(x0, y0, c);
                        assert(in_round(px_of(t), py_of(t), x as int, y as int, half as int));
                    }
                }
            }
            dj = dj + 1;
        }
        di = di + 1;
    }
}

/// The sprite offsets of the agent's star, all within `[-6, 5]` on each
/// axis.
fn star_offsets() -> (v: Vec<(i32, i32)>)
    ensures
        forall|k: int|
            0 <= k < v@.len() ==> -6 <= (#[trigger] v@[k]).0 <= 5 && -6 <= v@[k].1 <= 5,
        v@.len() == 76,
        v@[38] == (0i32, 0i32),
{
    let mut v: Vec<(i32, i32)> = Vec::new();
    v.push((-6i32, 0i32));
    v.push((-6i32, -1i32));
    v.push((-5i32, 0i32));
    v.push((-5i32, -1i32));
    v.push((-5i32, 3i32));
    v.push((-5i32, 4i32));
    v.push((-5i32, -4i32));
    v.push((-5i32, -5i32));
    v.push((-4i32, 0i32));
    v.push((-4i32, 2i32));
    v.push((-4i32, 3i32));
    v.push((-4i32, 4i32));
    v.push((-4i32, -1i32));
    v.push((-4i32, -3i32));
    v.push((-4i32, -4i32));
    v.push((-4i32, -5i32));
    v.push((-3i32, 1i32));
    v.push((-3i32, 2i32));
    v.push((-3i32, -2i32));
    v.push((-3i32, -3i32));
    v.push((-3i32, 0i32));
    v.push((-3i32, -1i32));
    v.push((-3i32, 3i32));
    v.push((-3i32, -1i32));
    v.push((-2i32, 1i32));
    v.push((-2i32, 2i32));
    v.push((-2i32, -2i32));
    v.push((-2i32, -3i32));
    v.push((-1i32, 0i32));
    v.push((-1i32, -1i32));
    v.push((-1i32, -3i32));
    v.push((-1i32, -4i32));
    v.push((-1i32, -5i32));
    v.push((-1i32, -6i32));
    v.push((-1i32, 2i32));
    v.push((-1i32, 3i32));
    v.push((-1i32, 4i32));
    v.push((-1i32, 5i32));
    v.push((0i32, 0i32));
    v.push((0i32, -1i32));
    v.push((0i32, -3i32));
    v.push((0i32, -4i32));
    v.push((0i32, -5i32));
    v.push((0i32, -6i32));
    v.push((0i32, 2i32));
    v.push((0i32, 3i32));
    v.push((0i32, 4i32));
    v.push((0i32, 5i32));
    v.push((1i32, 1i32));
    v.push((1i32, 2i32));
    v.push((1i32, -2i32));
    v.push((1i32, -3i32));
    v.push((2i32, 1i32));
    v.push((2i32, 2i32));
    v.push((2i32, -2i32));
    v.push((2i32, -3i32));
    v.push((2i32, 0i32));
    v.push((2i32, -1i32));
    v.push((2i32, 3i32));
    v.push((2i32, -1i32));
    v.push((3i32, 0i32));
    v.push((3i32, 2i32));
    v.push((3i32, 3i32));
    v.push((3i32, 4i32));
    v.push((3i32, -1i32));
    v.push((3i32, -3i32));
    v.push((3i32, -4i32));
    v.push((3i32, -5i32));
    v.push((4i32, 0i32));
    v.push((4i32, -1i32));
    v.push((4i32, 3i32));
    v.push((4i32, 4i32));
    v.push((4i32, -4i32));
    v.push((4i32, -5i32));
    v.push((5i32, 0i32));
    v.push((5i32, -1i32));
    proof {
        assert forall|k: int| 0 <= k < v@.len() implies -6 <= (#[trigger] v@[k]).0 <= 5 && -6
            <= v@[k].1 <= 5 by {
        }
    }
    v
}

/// The bounding box a star sprite can touch.
pub open spec fn in_star_box(px: int, py: int, x: int, y: int) -> bool {
    x - 5 <= px <= x + 6 && y - 5 <= py <= y + 6
}

/// Paints the agent's star sprite around `(x, y)`: the sprite's center
/// pixel gets the color, and no byte outside the sprite's bounding box
/// changes.
#[verifier::rlimit(50)]
pub fn draw_star(screen: &mut Vec<u8>, x: i32, y: i32, r: u8, g: u8, b: u8, a: u8)
    requires
        -0x3fff_ffff <= x <= 0x3fff_ffff,
        -0x3fff_ffff <= y <= 0x3fff_ffff,
    ensures
        final(screen)@.len() == old(screen)@.len(),
        pix_ok(old(screen)@, x as int + 1, y as int + 1) ==> pix_eq(
            final(screen)@,
            x as int + 1,
            y as int + 1,
            r,
            g,
            b,
            a,
        ),
        forall|t: int|
            0 <= t < old(screen)@.len() && !in_star_box(px_of(t), py_of(t), x as int, y as int)
                ==> final(screen)@[t] == old(screen)@[t],
        forall|t: int|
            window_bytes() <= t < old(screen)@.len() ==> final(screen)@[t] == old(screen)@[t],
{
    let ghost s0 = screen@;
    let offsets = star_offsets();
    let mut k: usize = 0;
    while k < offsets.len()
        invariant
            0 <= k <= offsets@.len(),
            -0x3fff_ffff <= x <= 0x3fff_ffff,
            -0x3fff_ffff <= y <= 0x3fff_ffff,
            forall|q: int|
                0 <= q < offsets@.len() ==> -6 <= (#[trigger] offsets@[q]).0 <= 5 && -6
                    <= offsets@[q].1 <= 5,
            offsets@.len() == 76,
            offsets@[38] == (0i32, 0i32),
            screen@.len() == s0.len(),
            forall|q: int|
                0 <= q < k ==> (pix_ok(
                    s0,
                    x + (#[trigger] offsets@[q]).0 + 1,
                    y + offsets@[q].1 + 1,
                ) ==> pix_eq(
                    screen@,
                    x + offsets@[q].0 + 1,
                    y + offsets@[q].1 + 1,
                    r,
                    g,
                    b,
                    a,
                )),
            forall|t: int|
                0 <= t < s0.len() && !in_star_box(px_of(t), py_of(t), x as int, y as int)
                    ==> screen@[t] == s0[t],
            forall|t: int| window_bytes() <= t < s0.len() ==> screen@[t] == s0[t],
        decreases offsets@.len() - k,
    {
        let off = offsets[k];
        let ghost pre = screen@;
        draw_pixel(screen, x + off.0 + 1, y + off.1 + 1, r, g, b, a);
        proof {
            let x0 = (x + off.0 + 1) as int;
            let y0 = (y + off.1 + 1) as int;
            assert forall|t: int|
                0 <= t < s0.len() && !in_star_box(
                    px_of(t),
                    py_of(t),
                    x as int,
                    y as int,
                ) implies screen@[t] == s0[t] by {
                if pix_ok(pre, x0, y0) && pix_base(x0, y0) <= t <= pix_base(x0, y0) + 3 {
                    lemma_pix_decode(x0, y0, t - pix_base(x0, y0));
                    assert(in_star_box(px_of(t), py_of(t), x as int, y as int));
                }
            }
            assert forall|q: int|
                0 <= q <= k && pix_ok(
                    s0,
                    x + (#[trigger] offsets@[q]).0 + 1,
                    y + offsets@[q].1 + 1,
                ) implies pix_eq(
                screen@,
                x + offsets@[q].0 + 1,
                y + offsets@[q].1 + 1,
                r,
                g,
                b,
                a,
            ) by {
                let px = x + offsets@[q].0 + 1;
                let py = y + offsets@[q].1 + 1;
                if q == k as int || (px, py) == (x0, y0) {
                    assert(pix_ok(pre, px, py) && (px, py) == (x0, y0));
                    assert(pix_eq(screen@, px, py, r, g, b, a));
                } else {
                    if pix_ok(pre, x0, y0) {
                        lemma_pix_eq_frame(pre, screen@, x0, y0, px, py, r, g, b, a);
                    }
                }
            }
        }
        k = k + 1;
    }
}

/// The pixel at which an agent's star sprite is centered: one past the
/// center pixel of its grid cell, on each axis.
pub open spec fn agent_star_center(a: Animal) -> (int, int) {
    (
        (crate::world::GRID_WIDTH as int + 1) / 2 + crate::world::GRID_WIDTH as int * a.position.0
            + 1,
        (crate::world::GRID_HEIGHT as int + 1) / 2 + crate::world::GRID_HEIGHT as int
            * a.position.1 + 1,
    )
}

/// Renders a read-only world snapshot: every object drawn per its draw type
/// at its cell's center pixel, then the agents' star sprites (so the last
/// agent's star center holds the agent color). The buffer's length never
/// changes, nothing past the window's pixel area is written, and the world
/// snapshot itself is read-only.
pub fn visualize_map(ve: &Vec<Environment>, va: &Vec<Animal>, screen: &mut Vec<u8>)
    requires
        forall|k: int|
            0 <= k < ve@.len() ==> pos_in((#[trigger] ve@[k]).position, WIDTH, HEIGHT)
                && ve@[k].d <= 0x3fff_ffff,
        forall|k: int| 0 <= k < va@.len() ==> pos_in((#[trigger] va@[k]).position, WIDTH, HEIGHT),
    ensures
        final(screen)@.len() == old(screen)@.len(),
        forall|t: int|
            window_bytes() <= t < old(screen)@.len() ==> final(screen)@[t] == old(screen)@[t],
        va@.len() >= 1 ==> (pix_ok(
            old(screen)@,
            agent_star_center(va@[va@.len() - 1]).0,
            agent_star_center(va@[va@.len() - 1]).1,
        ) ==> pix_eq(
            final(screen)@,
            agent_star_center(va@[va@.len() - 1]).0,
            agent_star_center(va@[va@.len() - 1]).1,
            0xff,
            0xff,
            0,
            0xff,
        )),
{
    let ghost s0 = screen@;
    let mut k: usize = 0;
    while k < ve.len()
        invariant
            0 <= k <= ve@.len(),
            forall|q: int|
                0 <= q < ve@.len() ==> pos_in((#[trigger] ve@[q]).position, WIDTH, HEIGHT)
                    && ve@[q].d <= 0x3fff_ffff,
            screen@.len() == old(screen)@.len(),
            screen@.len() == s0.len(),
            forall|t: int| window_bytes() <= t < s0.len() ==> screen@[t] == s0[t],
        decreases ve@.len() - k,
    {
        let e = &ve[k];
        let pos = e.get_center_pixel_pos();
        match e.draw_type {
            DrawType::Round => draw_round(
                screen,
                pos.0,
                pos.1,
                e.d as i32,
                e.color.0,
                e.color.1,
                e.color.2,
                e.color.3,
            ),
            DrawType::Pixel => draw_pixel(
                screen,
                pos.0,
                pos.1,
                e.color.0,
                e.color.1,
                e.color.2,
                e.color.3,
            ),
            DrawType::Rect => draw_rect(
                screen,
                pos.0,
                pos.1,
                e.d as i32,
                e.color.0,
                e.color.1,
                e.color.2,
                e.color.3,
            ),
            _ => {},
        }
        k = k + 1;
    }
    let mut q: usize = 0;
    while q < va.len()
        invariant
            0 <= q <= va@.len(),
            forall|w: int| 0 <= w < va@.len() ==> pos_in((#[trigger] va@[w]).position, WIDTH, HEIGHT),
            screen@.len() == old(screen)@.len(),
            screen@.len() == s0.len(),
            forall|t: int| window_bytes() <= t < s0.len() ==> screen@[t] == s0[t],
            (va@.len() >= 1 && q == va@.len()) ==> (pix_ok(
                s0,
                agent_star_center(va@[va@.len() - 1]).0,
                agent_star_center(va@[va@.len() - 1]).1,
            ) ==> pix_eq(
                screen@,
                agent_star_center(va@[va@.len() - 1]).0,
                agent_star_center(va@[va@.len() - 1]).1,
                0xff,
                0xff,
                0,
                0xff,
            )),
        decreases va@.len() - q,
    {
        let a = &va[q];
        let pos = a.get_center_pixel_pos();
        draw_star(screen, pos.0, pos.1, 0xff, 0xff, 0, 0xff);
        proof {
            if q + 1 == va@.len() {
                assert(agent_star_center(va@[q as int]) == (pos.0 as int + 1, pos.1 as int + 1));
            }
        }
        q = q + 1;
    }
}

/// Blanks the whole screen: every byte of the window's pixel area becomes
/// zero; bytes beyond it are untouched.
pub fn clear_pixels(pixels: &mut Vec<u8>)
    requires
        old(pixels)@.len() >= 4 * (crate::world::WINDOW_WIDTH as int) * (WINDOW_HEIGHT as int),
    ensures
        final(pixels)@.len() == old(pixels)@.len(),
        forall|t: int|
            0 <= t < 4 * (crate::world::WINDOW_WIDTH as int) * (WINDOW_HEIGHT as int)
                ==> final(pixels)@[t] == 0,
        forall|t: int|
            4 * (crate::world::WINDOW_WIDTH as int) * (WINDOW_HEIGHT as int) <= t
                < old(pixels)@.len() ==> final(pixels)@[t] == old(pixels)@[t],
{
    let total: usize = (4 * crate::world::WINDOW_WIDTH * WINDOW_HEIGHT) as usize;
    let mut t: usize = 0;
    while t < total
        invariant
            0 <= t <= total,
            total == 4 * (crate::world::WINDOW_WIDTH as int) * (WINDOW_HEIGHT as int),
            pixels@.len() >= total,
            pixels@.len() == old(pixels)@.len(),
            forall|q: int| 0 <= q < t ==> pixels@[q] == 0,
            forall|q: int| t <= q < pixels@.len() ==> pixels@[q] == old(pixels)@[q],
        decreases total - t,
    {
        pixels[t] = 0;
        t = t + 1;
    }
}

} // verus!
