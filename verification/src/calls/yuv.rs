//! Conversions between packed RGB and planar I420 (4:2:0 YUV), in
//! fixed-point BT.601 arithmetic.
use vstd::prelude::*;

verus! {

/// Clamps to a byte.
pub open spec fn clamp_byte(x: int) -> u8 {
    if x < 0 {
        0
    } else if x > 255 {
        255
    } else {
        x as u8
    }
}

/// Red from luma and centred chroma (shifts round down).
pub open spec fn yuv_red(y: int, u: int, v: int) -> u8 {
    clamp_byte(y + (1436 * v) / 1024)
}

/// Green from luma and centred chroma.
pub open spec fn yuv_green(y: int, u: int, v: int) -> u8 {
    clamp_byte(y - (352 * u + 731 * v) / 1024)
}

/// Blue from luma and centred chroma.
pub open spec fn yuv_blue(y: int, u: int, v: int) -> u8 {
    clamp_byte(y + (1815 * u) / 1024)
}

/// Index of the chroma sample shared by a 2x2 block of pixels.
pub open spec fn chroma_index(width: int, row: int, col: int) -> int {
    (row / 2) * (width / 2) + col / 2
}

/// Bytes an I420 frame of these dimensions takes.
pub open spec fn i420_len(width: int, height: int) -> int {
    width * height * 3 / 2
}

/// Every pixel's chroma index lies inside the chroma plane (which holds
/// for even dimensions).
pub open spec fn chroma_fits(width: int, height: int) -> bool {
    width == 0 || height == 0 || chroma_index(width, height - 1, width - 1) < width * height / 4
}

/// Channel `c` (0 red, 1 green, 2 blue) of pixel `(row, col)`.
pub open spec fn rgb_channel(i420: Seq<u8>, width: int, height: int, row: int, col: int, c: int) -> u8 {
    let ci = chroma_index(width, row, col);
    let y = i420[row * width + col] as int;
    let u = i420[width * height + ci] as int - 128;
    let v = i420[width * height + width * height / 4 + ci] as int - 128;
    if c == 0 {
        yuv_red(y, u, v)
    } else if c == 1 {
        yuv_green(y, u, v)
    } else {
        yuv_blue(y, u, v)
    }
}

fn floor_div_1024(x: i32) -> (r: i32)
    requires
        -0x1000_0000 <= x <= 0x1000_0000,
    ensures
        r == x as int / 1024,
{
    if x >= 0 {
        x / 1024
    } else {
        let q = (-x + 1023) / 1024;
        proof {
            let a: int = -x as int;
            let m = x as int / 1024;
            vstd::arithmetic::div_mod::lemma_fundamental_div_mod(a + 1023, 1024);
            vstd::arithmetic::div_mod::lemma_fundamental_div_mod(x as int, 1024);
            vstd::arithmetic::div_mod::lemma_mod_pos_bound(a + 1023, 1024);
            assert(-q == m) by (nonlinear_arith)
                requires
                    x as int == 1024 * m + x as int % 1024,
                    0 <= x as int % 1024 < 1024,
                    a + 1023 == 1024 * (q as int) + (a + 1023) % 1024,
                    0 <= (a + 1023) % 1024 < 1024,
                    a == -(x as int),
            ;
        }
        -q
    }
}

fn clamp_to_byte(x: i32) -> (r: u8)
    ensures
        r == clamp_byte(x as int),
{
    if x < 0 {
        0
    } else if x > 255 {
        255
    } else {
        x as u8
    }
}

proof fn lemma_chroma_index_bound(width: int, height: int, row: int, col: int)
    requires
        0 <= row < height,
        0 <= col < width,
    ensures
        0 <= chroma_index(width, row, col) <= chroma_index(width, height - 1, width - 1),
{
    assert(row / 2 <= (height - 1) / 2);
    assert(col / 2 <= (width - 1) / 2);
    assert(0 <= (row / 2) * (width / 2) <= ((height - 1) / 2) * (width / 2)) by (nonlinear_arith)
        requires
            0 <= row / 2 <= (height - 1) / 2,
            width / 2 >= 0,
    ;
}

/// Channel `c` of the pixel at linear position `p`.
pub open spec fn pixel_channel(i420: Seq<u8>, width: int, height: int, p: int, c: int) -> u8 {
    rgb_channel(i420, width, height, p / width, p % width, c)
}

/// Converts a planar I420 frame to packed RGB (three bytes a pixel, rows
/// top to bottom). A buffer too short for the dimensions gives an
/// all-black frame.
pub fn i420_to_rgb(i420: &[u8], width: usize, height: usize) -> (r: Vec<u8>)
    requires
        width * height * 3 <= usize::MAX,
        i420@.len() >= i420_len(width as int, height as int) ==> chroma_fits(width as int, height as int),
    ensures
        r@.len() == width * height * 3,
        i420@.len() < i420_len(width as int, height as int) ==> forall|j: int| 0 <= j < r@.len() ==> r@[j] == 0,
        i420@.len() >= i420_len(width as int, height as int) ==> forall|row: int, col: int, c: int|
            0 <= row < height && 0 <= col < width && 0 <= c < 3 ==> #[trigger] r@[(row * width + col) * 3 + c]
                == rgb_channel(i420@, width as int, height as int, row, col, c),
{
    let n = width * height;
    let total = n * 3;
    let mut rgb: Vec<u8> = Vec::new();
    let mut k: usize = 0;
    while k < total
        invariant
            k <= total,
            rgb@.len() == k,
            forall|j: int| 0 <= j < k ==> rgb@[j] == 0,
        decreases total - k,
    {
        rgb.push(0);
        k += 1;
    }
    if i420.len() < n * 3 / 2 {
        return rgb;
    }
    let ghost w = width as int;
    let ghost h = height as int;
    let u_off = n;
    let v_off = n + n / 4;
    let mut p: usize = 0;
    let mut row: usize = 0;
    let mut col: usize = 0;
    while p < n
        invariant
            n == w * h,
            total == n * 3,
            w == width,
            h == height,
            u_off == n,
            v_off == n + n / 4,
            i420@.len() >= n * 3 / 2,
            chroma_fits(w, h),
            rgb@.len() == total,
            p <= n,
            p == row * w + col,
            p < n ==> row < h && col < w,
            forall|q: int, c: int| 0 <= q < p && 0 <= c < 3 ==> #[trigger] rgb@[q * 3 + c] == pixel_channel(i420@, w, h, q, c),
        decreases n - p,
    {
        proof {
            lemma_chroma_index_bound(w, h, row as int, col as int);
            assert((row / 2) * (width / 2) <= chroma_index(w, h - 1, w - 1));
            assert(n * 3 / 2 >= n + n / 4 + n / 4);
            vstd::arithmetic::div_mod::lemma_fundamental_div_mod_converse(p as int, w, row as int, col as int);
        }
        let ci = (row / 2) * (width / 2) + col / 2;
        let y = i420[p] as i32;
        let u = i420[u_off + ci] as i32 - 128;
        let v = i420[v_off + ci] as i32 - 128;
        let red = clamp_to_byte(y + floor_div_1024(1436 * v));
        let green = clamp_to_byte(y - floor_div_1024(352 * u + 731 * v));
        let blue = clamp_to_byte(y + floor_div_1024(1815 * u));
        let o = p * 3;
        rgb.set(o, red);
        rgb.set(o + 1, green);
        rgb.set(o + 2, blue);
        proof {
            assert(rgb@[p * 3 + 0] == pixel_channel(i420@, w, h, p as int, 0));
            assert(rgb@[p * 3 + 1] == pixel_channel(i420@, w, h, p as int, 1));
            assert(rgb@[p * 3 + 2] == pixel_channel(i420@, w, h, p as int, 2));
        }
        p = p + 1;
        if col + 1 == width {
            col = 0;
            row = row + 1;
            proof {
                assert(p == row * w + col) by (nonlinear_arith)
                    requires
                        p == (row - 1) * w + w,
                        col == 0,
                ;
            }
        } else {
            col = col + 1;
        }
        proof {
            if p < n {
                if row >= h {
                    assert(row * w >= h * w) by (nonlinear_arith)
                        requires
                            row >= h,
                            w >= 0,
                    ;
                }
            }
        }
    }
    proof {
        assert forall|rr: int, cc: int, c: int|
            0 <= rr < height && 0 <= cc < width && 0 <= c < 3 implies #[trigger] rgb@[(rr * w + cc) * 3 + c]
                == rgb_channel(i420@, w, h, rr, cc, c) by {
            let q = rr * w + cc;
            assert(0 <= q < n) by (nonlinear_arith)
                requires
                    0 <= rr < h,
                    0 <= cc < w,
                    n == w * h,
                    q == rr * w + cc,
            ;
            vstd::arithmetic::div_mod::lemma_fundamental_div_mod_converse(q, w, rr, cc);
            assert(rgb@[q * 3 + c] == pixel_channel(i420@, w, h, q, c));
        }
    }
    rgb
}

/// Luma of one RGB pixel.
pub open spec fn rgb_luma(r: int, g: int, b: int) -> u8 {
    clamp_byte((306 * r + 601 * g + 117 * b) / 1024)
}

/// Blue-difference chroma of one (averaged) RGB pixel.
pub open spec fn rgb_u(r: int, g: int, b: int) -> u8 {
    clamp_byte((-173 * r - 339 * g + 512 * b + 131072) / 1024)
}

/// Red-difference chroma of one (averaged) RGB pixel.
pub open spec fn rgb_v(r: int, g: int, b: int) -> u8 {
    clamp_byte((512 * r - 429 * g - 83 * b + 131072) / 1024)
}

/// Whether the packed buffer holds all three bytes of pixel `p`.
pub open spec fn has_pixel(rgb: Seq<u8>, p: int) -> bool {
    p * 3 + 2 < rgb.len()
}

/// Channel `c` of pixel `p`, or zero where the buffer does not hold it.
pub open spec fn sample(rgb: Seq<u8>, p: int, c: int) -> int {
    if has_pixel(rgb, p) {
        rgb[p * 3 + c] as int
    } else {
        0
    }
}

/// Channel `c` summed over the 2x2 block at chroma position `(crow, ccol)`,
/// counting only pixels the buffer holds.
pub open spec fn block_sum(rgb: Seq<u8>, width: int, crow: int, ccol: int, c: int) -> int {
    sample(rgb, (2 * crow) * width + 2 * ccol, c) + sample(rgb, (2 * crow) * width + 2 * ccol + 1, c) + sample(
        rgb,
        (2 * crow + 1) * width + 2 * ccol,
        c,
    ) + sample(rgb, (2 * crow + 1) * width + 2 * ccol + 1, c)
}

/// The chroma of block `(crow, ccol)` is that of the block's average
/// colour.
pub open spec fn block_chroma_ok(rgb: Seq<u8>, width: int, u: Seq<u8>, v: Seq<u8>, crow: int, ccol: int) -> bool {
    let k = crow * (width / 2) + ccol;
    let ar = block_sum(rgb, width, crow, ccol, 0) / 4;
    let ag = block_sum(rgb, width, crow, ccol, 1) / 4;
    let ab = block_sum(rgb, width, crow, ccol, 2) / 4;
    &&& 0 <= k < u.len()
    &&& k < v.len()
    &&& u[k] == rgb_u(ar, ag, ab)
    &&& v[k] == rgb_v(ar, ag, ab)
}

/// The three planes of a frame converted from packed RGB.
pub struct I420Planes {
    /// Luma of each pixel the buffer holds, in scan order.
    pub y: Vec<u8>,
    /// Blue-difference chroma, one per 2x2 block, `width / 2` a row.
    pub u: Vec<u8>,
    /// Red-difference chroma, one per 2x2 block.
    pub v: Vec<u8>,
}

fn luma_of(r: i32, g: i32, b: i32) -> (o: u8)
    requires
        0 <= r <= 255,
        0 <= g <= 255,
        0 <= b <= 255,
    ensures
        o == rgb_luma(r as int, g as int, b as int),
{
    clamp_to_byte((306 * r + 601 * g + 117 * b) / 1024)
}

fn u_of(r: i32, g: i32, b: i32) -> (o: u8)
    requires
        0 <= r <= 255,
        0 <= g <= 255,
        0 <= b <= 255,
    ensures
        o == rgb_u(r as int, g as int, b as int),
{
    clamp_to_byte((131072 + 512 * b - 173 * r - 339 * g) / 1024)
}

fn v_of(r: i32, g: i32, b: i32) -> (o: u8)
    requires
        0 <= r <= 255,
        0 <= g <= 255,
        0 <= b <= 255,
    ensures
        o == rgb_v(r as int, g as int, b as int),
{
    clamp_to_byte((131072 + 512 * r - 429 * g - 83 * b) / 1024)
}

fn sample_at(rgb: &[u8], p: usize, c: usize) -> (r: i32)
    requires
        c < 3,
        p * 3 + 2 <= usize::MAX,
    ensures
        r == sample(rgb@, p as int, c as int),
        0 <= r <= 255,
{
    if p * 3 + 2 < rgb.len() {
        rgb[p * 3 + c] as i32
    } else {
        0
    }
}

/// Converts packed RGB to I420 planes: luma for every pixel the buffer
/// holds, and for each 2x2 block the chroma of its average colour (the
/// block's held pixels summed, divided by four).
pub fn rgb_to_i420_planes(rgb: &[u8], width: usize, height: usize) -> (r: I420Planes)
    requires
        width * height * 3 + 2 <= usize::MAX,
    ensures
        r.y@.len() == (if rgb@.len() / 3 < width * height {
            rgb@.len() as int / 3
        } else {
            width * height
        }),
        forall|p: int| 0 <= p < r.y@.len() ==> #[trigger] r.y@[p] == rgb_luma(
            rgb@[p * 3] as int,
            rgb@[p * 3 + 1] as int,
            rgb@[p * 3 + 2] as int,
        ),
        r.u@.len() == (width / 2) * (height / 2),
        r.v@.len() == (width / 2) * (height / 2),
        forall|crow: int, ccol: int|
            0 <= crow < height / 2 && 0 <= ccol < width / 2 ==> #[trigger] block_chroma_ok(
                rgb@,
                width as int,
                r.u@,
                r.v@,
                crow,
                ccol,
            ),
{
    let n = width * height;
    let mut y: Vec<u8> = Vec::new();
    let mut p: usize = 0;
    while p < n && p * 3 + 2 < rgb.len()
        invariant
            n == width * height,
            n * 3 + 2 <= usize::MAX,
            p <= n,
            y@.len() == p,
            forall|q: int| 0 <= q < p ==> #[trigger] y@[q] == rgb_luma(
                rgb@[q * 3] as int,
                rgb@[q * 3 + 1] as int,
                rgb@[q * 3 + 2] as int,
            ),
            p > 0 ==> (p - 1) * 3 + 2 < rgb@.len(),
        decreases n - p,
    {
        let o = p * 3;
        y.push(luma_of(rgb[o] as i32, rgb[o + 1] as i32, rgb[o + 2] as i32));
        p += 1;
    }
    proof {
        if p < n {
            assert(p * 3 + 2 >= rgb@.len());
            assert(rgb@.len() / 3 == p);
        } else if rgb@.len() / 3 < n {
            assert((p - 1) * 3 + 2 < rgb@.len());
            assert(false);
        }
    }
    let cw = width / 2;
    let ch = height / 2;
    let mut u: Vec<u8> = Vec::new();
    let mut v: Vec<u8> = Vec::new();
    let mut crow: usize = 0;
    while crow < ch
        invariant
            cw == width / 2,
            ch == height / 2,
            width * height * 3 + 2 <= usize::MAX,
            crow <= ch,
            u@.len() == crow * cw,
            v@.len() == crow * cw,
            forall|cr: int, cc: int|
                0 <= cr < crow && 0 <= cc < cw ==> #[trigger] block_chroma_ok(rgb@, width as int, u@, v@, cr, cc),
        decreases ch - crow,
    {
        let mut ccol: usize = 0;
        let ghost base = u@.len();
        while ccol < cw
            invariant
                cw == width / 2,
                ch == height / 2,
                width * height * 3 + 2 <= usize::MAX,
                crow < ch,
                ccol <= cw,
                base == crow * cw,
                u@.len() == base + ccol,
                v@.len() == base + ccol,
                forall|cr: int, cc: int|
                    0 <= cr < crow && 0 <= cc < cw ==> #[trigger] block_chroma_ok(rgb@, width as int, u@, v@, cr, cc),
                forall|cc: int| 0 <= cc < ccol ==> #[trigger] block_chroma_ok(rgb@, width as int, u@, v@, crow as int, cc),
            decreases cw - ccol,
        {
            let row = crow * 2;
            let col = ccol * 2;
            proof {
                assert(row + 1 < height);
                assert(col + 1 < width);
                assert((row + 1) * width + col + 1 < width * height) by (nonlinear_arith)
                    requires
                        row + 1 < height,
                        col + 1 < width,
                ;
                assert(row * width + width == (row + 1) * width) by (nonlinear_arith);
            }
            let p00 = row * width + col;
            let p10 = (row + 1) * width + col;
            let mut sums: [i32; 3] = [0, 0, 0];
            let mut c: usize = 0;
            while c < 3
                invariant
                    c <= 3,
                    p00 == (2 * crow) * width + 2 * ccol,
                    p10 == (2 * crow + 1) * width + 2 * ccol,
                    p10 + 1 < width * height,
                    p00 < p10,
                    width * height * 3 + 2 <= usize::MAX,
                    forall|j: int| 0 <= j < c ==> #[trigger] sums@[j] == block_sum(rgb@, width as int, crow as int, ccol as int, j),
                    forall|j: int| 0 <= j < c ==> 0 <= #[trigger] sums@[j] <= 1020,
                decreases 3 - c,
            {
                let s = sample_at(rgb, p00, c) + sample_at(rgb, p00 + 1, c) + sample_at(rgb, p10, c) + sample_at(
                    rgb,
                    p10 + 1,
                    c,
                );
                sums[c] = s;
                c += 1;
            }
            let ar = sums[0] / 4;
            let ag = sums[1] / 4;
            let ab = sums[2] / 4;
            let ghost u_old = u@;
            let ghost v_old = v@;
            u.push(u_of(ar, ag, ab));
            v.push(v_of(ar, ag, ab));
            proof {
                assert(base + ccol == crow * cw + ccol);
                assert forall|cr: int, cc: int| 0 <= cr < crow && 0 <= cc < cw implies #[trigger] block_chroma_ok(
                    rgb@,
                    width as int,
                    u@,
                    v@,
                    cr,
                    cc,
                ) by {
                    assert(cr * cw + cc < crow * cw) by (nonlinear_arith)
                        requires
                            0 <= cr < crow,
                            0 <= cc < cw,
                    ;
                    assert(block_chroma_ok(rgb@, width as int, u_old, v_old, cr, cc));
                }
                assert forall|cc: int| 0 <= cc < ccol + 1 implies #[trigger] block_chroma_ok(
                    rgb@,
                    width as int,
                    u@,
                    v@,
                    crow as int,
                    cc,
                ) by {
                    if cc < ccol {
                        assert(block_chroma_ok(rgb@, width as int, u_old, v_old, crow as int, cc));
                    }
                }
            }
            ccol += 1;
        }
        proof {
            assert((crow + 1) * cw == crow * cw + cw) by (nonlinear_arith);
            assert forall|cr: int, cc: int| 0 <= cr < crow + 1 && 0 <= cc < cw implies #[trigger] block_chroma_ok(
                rgb@,
                width as int,
                u@,
                v@,
                cr,
                cc,
            ) by {
                if cr == crow {
                    assert(block_chroma_ok(rgb@, width as int, u@, v@, crow as int, cc));
                }
            }
        }
        crow += 1;
    }
    proof {
        assert(ch * cw == (width / 2) * (height / 2)) by (nonlinear_arith)
            requires
                cw == width / 2,
                ch == height / 2,
        ;
    }
    I420Planes { y, u, v }
}

/// Length of the blue-difference plane of a packed I420 buffer.
pub open spec fn u_plane_len(width: int, height: int) -> int {
    width * height / 4
}

/// Length of the red-difference plane: what remains after luma and blue.
pub open spec fn v_plane_len(width: int, height: int) -> int {
    i420_len(width, height) - width * height - width * height / 4
}

/// The packed I420 buffer after the first `k` pixels in scan order have
/// been converted: each pixel the RGB buffer holds sets its luma, and each
/// pixel in an even row and even column also sets the chroma sample it
/// maps to, where that lies inside both chroma planes; a later pixel
/// overwrites an earlier one mapped to the same sample.
pub open spec fn i420_after(rgb: Seq<u8>, width: int, height: int, k: nat) -> Seq<u8>
    decreases k,
{
    if k == 0 {
        Seq::new(i420_len(width, height) as nat, |i: int| 0u8)
    } else {
        let prev = i420_after(rgb, width, height, (k - 1) as nat);
        let p = k - 1;
        let row = p / width;
        let col = p % width;
        if !has_pixel(rgb, p) {
            prev
        } else {
            let r = rgb[p * 3] as int;
            let g = rgb[p * 3 + 1] as int;
            let b = rgb[p * 3 + 2] as int;
            let with_luma = prev.update(p, rgb_luma(r, g, b));
            let ci = chroma_index(width, row, col);
            if row % 2 == 0 && col % 2 == 0 && ci < u_plane_len(width, height) && ci < v_plane_len(width, height) {
                with_luma.update(width * height + ci, rgb_u(r, g, b)).update(
                    width * height + width * height / 4 + ci,
                    rgb_v(r, g, b),
                )
            } else {
                with_luma
            }
        }
    }
}

/// Converts packed RGB to one packed I420 buffer (luma, then the two
/// chroma planes), sampling chroma from the top-left pixel of each 2x2
/// block. Pixels the RGB buffer does not hold stay zero.
pub fn rgb_to_i420(rgb: &[u8], width: usize, height: usize) -> (r: Vec<u8>)
    requires
        width * height * 3 <= usize::MAX,
    ensures
        r@ == i420_after(rgb@, width as int, height as int, (width * height) as nat),
{
    let n = width * height;
    let len = n * 3 / 2;
    let ghost w = width as int;
    let ghost h = height as int;
    let mut out: Vec<u8> = Vec::new();
    let mut k: usize = 0;
    while k < len
        invariant
            k <= len,
            out@.len() == k,
            forall|j: int| 0 <= j < k ==> out@[j] == 0,
        decreases len - k,
    {
        out.push(0);
        k += 1;
    }
    proof {
        assert(out@ =~= i420_after(rgb@, w, h, 0));
    }
    let u_len = n / 4;
    let v_len = len - n - n / 4;
    proof {
        if n > 0 {
            assert(w > 0 && h > 0) by (nonlinear_arith)
                requires
                    n == w * h,
                    n > 0,
                    w >= 0,
                    h >= 0,
            ;
        }
    }
    let mut p: usize = 0;
    let mut row: usize = 0;
    let mut col: usize = 0;
    while p < n
        invariant
            n == w * h,
            w == width,
            h == height,
            n * 3 <= usize::MAX,
            len == n * 3 / 2,
            u_len == n / 4,
            v_len == len - n - n / 4,
            p <= n,
            p == row * w + col,
            p < n ==> row < h && col < w,
            out@ == i420_after(rgb@, w, h, p as nat),
            out@.len() == len,
        decreases n - p,
    {
        proof {
            vstd::arithmetic::div_mod::lemma_fundamental_div_mod_converse(p as int, w, row as int, col as int);
            assert(i420_after(rgb@, w, h, p as nat).len() == len);
        }
        if p * 3 + 2 < rgb.len() {
            let o = p * 3;
            let r = rgb[o] as i32;
            let g = rgb[o + 1] as i32;
            let b = rgb[o + 2] as i32;
            out.set(p, luma_of(r, g, b));
            if row % 2 == 0 && col % 2 == 0 {
                proof {
                    assert((row / 2) * (width / 2) <= row * width) by (nonlinear_arith)
                        requires
                            row >= 0,
                            width >= 0,
                    ;
                }
                let ci = (row / 2) * (width / 2) + col / 2;
                if ci < u_len && ci < v_len {
                    out.set(n + ci, u_of(r, g, b));
                    out.set(n + n / 4 + ci, v_of(r, g, b));
                }
            }
        }
        p = p + 1;
        if col + 1 == width {
            col = 0;
            row = row + 1;
            proof {
                assert(p == row * w + col) by (nonlinear_arith)
                    requires
                        p == (row - 1) * w + w,
                        col == 0,
                ;
            }
        } else {
            col = col + 1;
        }
        proof {
            if p < n && row >= h {
                assert(row * w >= h * w) by (nonlinear_arith)
                    requires
                        row >= h,
                        w >= 0,
                ;
            }
        }
    }
    out
}

} // verus!
