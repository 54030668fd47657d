//! The morphological filters of the image preprocessing before OCR: erosion
//! (each pixel becomes the darkest of its neighbourhood) and dilation (the
//! brightest). They work on one grey channel, row by row; decoding, scaling,
//! blurring and thresholding the image stay with the image library.

use vstd::prelude::*;

verus! {

/// The darker (`take_min`) or the brighter of two values.
pub open spec fn pick(a: u8, b: u8, take_min: bool) -> u8 {
    if take_min {
        if a <= b {
            a
        } else {
            b
        }
    } else {
        if a >= b {
            a
        } else {
            b
        }
    }
}

/// The value an empty neighbourhood gives: 255 for erosion, 0 for dilation.
pub open spec fn neutral(take_min: bool) -> u8 {
    if take_min {
        255
    } else {
        0
    }
}

/// The darkest (or brightest) of row `y` of a `w`-wide image between columns
/// `xlo` and `xhi`, both included.
pub open spec fn row_pick(img: Seq<u8>, w: int, y: int, xlo: int, xhi: int, take_min: bool) -> u8
    decreases xhi - xlo + 1,
{
    if xhi < xlo {
        neutral(take_min)
    } else {
        pick(row_pick(img, w, y, xlo, xhi - 1, take_min), img[y * w + xhi], take_min)
    }
}

/// The darkest (or brightest) of the rectangle of rows `ylo..=yhi` and columns
/// `xlo..=xhi`.
pub open spec fn rect_pick(
    img: Seq<u8>,
    w: int,
    ylo: int,
    yhi: int,
    xlo: int,
    xhi: int,
    take_min: bool,
) -> u8
    decreases yhi - ylo + 1,
{
    if yhi < ylo {
        neutral(take_min)
    } else {
        pick(
            rect_pick(img, w, ylo, yhi - 1, xlo, xhi, take_min),
            row_pick(img, w, yhi, xlo, xhi, take_min),
            take_min,
        )
    }
}

/// The larger of two integers.
pub open spec fn max_int(a: int, b: int) -> int {
    if a >= b {
        a
    } else {
        b
    }
}

/// The smaller of two integers.
pub open spec fn min_int(a: int, b: int) -> int {
    if a <= b {
        a
    } else {
        b
    }
}

/// The value of pixel (`x`, `y`) after the filter: the darkest (or brightest)
/// pixel of the square of half-side `r` around it, clipped to the image.
pub open spec fn window_pick(
    img: Seq<u8>,
    w: int,
    h: int,
    x: int,
    y: int,
    r: int,
    take_min: bool,
) -> u8 {
    rect_pick(
        img,
        w,
        max_int(0, y - r),
        min_int(h - 1, y + r),
        max_int(0, x - r),
        min_int(w - 1, x + r),
        take_min,
    )
}

/// A `w` x `h` image, row by row, after the filter with radius `r`.
pub open spec fn morph_spec(img: Seq<u8>, w: int, h: int, r: int, take_min: bool) -> Seq<u8> {
    Seq::new((w * h) as nat, |p: int| window_pick(img, w, h, p % w, p / w, r, take_min))
}

proof fn lemma_pick_assoc(a: u8, b: u8, c: u8, take_min: bool)
    ensures
        pick(pick(a, b, take_min), c, take_min) == pick(a, pick(b, c, take_min), take_min),
        pick(neutral(take_min), a, take_min) == a,
{
}

/// Position of pixel (`x`, `y`) in a `w`-wide image stored row by row.
proof fn lemma_row_major(x: int, y: int, w: int, h: int)
    requires
        0 <= x < w,
        0 <= y < h,
    ensures
        0 <= y * w + x < w * h,
        (y * w + x) % w == x,
        (y * w + x) / w == y,
{
    assert(0 <= y * w + x < w * h) by (nonlinear_arith)
        requires
            0 <= x < w,
            0 <= y < h,
    ;
    vstd::arithmetic::div_mod::lemma_fundamental_div_mod_converse(y * w + x, w, y, x);
}

/// The filter on a `width` x `height` grey image stored row by row: erosion
/// when `take_min`, dilation otherwise.
fn morph(values: &Vec<u8>, width: u32, height: u32, radius: u8, take_min: bool) -> (r: Vec<u8>)
    requires
        values@.len() == width * height,
    ensures
        r@ == morph_spec(values@, width as int, height as int, radius as int, take_min),
{
    let w = width as i64;
    let h = height as i64;
    let rad = radius as i64;
    let ghost img = values@;
    let mut out: Vec<u8> = Vec::new();
    let mut y: i64 = 0;
    while y < h
        invariant
            0 <= y <= h,
            w == width,
            h == height,
            rad == radius,
            img == values@,
            img.len() == w * h,
            out@.len() == y * w,
            forall|p: int|
                0 <= p < y * w ==> #[trigger] out@[p] == window_pick(
                    img,
                    w as int,
                    h as int,
                    p % (w as int),
                    p / (w as int),
                    rad as int,
                    take_min,
                ),
        decreases h - y,
    {
        let mut x: i64 = 0;
        while x < w
            invariant
                0 <= y < h,
                0 <= x <= w,
                w == width,
                h == height,
                rad == radius,
                img == values@,
                img.len() == w * h,
                out@.len() == y * w + x,
                forall|p: int|
                    0 <= p < y * w + x ==> #[trigger] out@[p] == window_pick(
                        img,
                        w as int,
                        h as int,
                        p % (w as int),
                        p / (w as int),
                        rad as int,
                        take_min,
                    ),
            decreases w - x,
        {
            let ghost xlo = max_int(0, x - rad);
            let ghost xhi = min_int(w - 1, x + rad);
            let ghost ylo = max_int(0, y - rad);
            let mut acc: u8 = if take_min {
                255
            } else {
                0
            };
            let mut dy: i64 = -rad;
            while dy <= rad
                invariant
                    -rad <= dy <= rad + 1,
                    0 <= x < w,
                    0 <= y < h,
                    w == width,
                    h == height,
                    0 <= rad <= 255,
                    img == values@,
                    img.len() == w * h,
                    xlo == max_int(0, x - rad),
                    xhi == min_int(w - 1, x + rad),
                    ylo == max_int(0, y - rad),
                    acc == rect_pick(
                        img,
                        w as int,
                        ylo,
                        min_int(h - 1, y + dy - 1),
                        xlo,
                        xhi,
                        take_min,
                    ),
                decreases rad + 1 - dy,
            {
                let ny = y + dy;
                let ghost row_start = acc;
                let mut dx: i64 = -rad;
                while dx <= rad
                    invariant
                        -rad <= dx <= rad + 1,
                        -rad <= dy <= rad,
                        ny == y + dy,
                        0 <= x < w,
                        0 <= y < h,
                        w == width,
                        h == height,
                        0 <= rad <= 255,
                        img == values@,
                        img.len() == w * h,
                        xlo == max_int(0, x - rad),
                        xhi == min_int(w - 1, x + rad),
                        0 <= ny < h ==> acc == pick(
                            row_start,
                            row_pick(img, w as int, ny as int, xlo, min_int(w - 1, x + dx - 1), take_min),
                            take_min,
                        ),
                        !(0 <= ny < h) ==> acc == row_start,
                    decreases rad + 1 - dx,
                {
                    let nx = x + dx;
                    let ghost before = acc;
                    if nx >= 0 && nx < w && ny >= 0 && ny < h {
                        proof {
                            lemma_row_major(nx as int, ny as int, w as int, h as int);
                        }
                        let vlen = values.len();
                        assert(ny * w + nx < vlen);
                        let v = values[((ny as i128) * (w as i128) + (nx as i128)) as usize];
                        acc = if take_min {
                            if acc <= v {
                                acc
                            } else {
                                v
                            }
                        } else {
                            if acc >= v {
                                acc
                            } else {
                                v
                            }
                        };
                        proof {
                            let rp = row_pick(img, w as int, ny as int, xlo, min_int(w - 1, x + dx - 1), take_min);
                            lemma_pick_assoc(row_start, rp, v, take_min);
                            if nx == xlo {
                                assert(row_pick(img, w as int, ny as int, xlo, nx - 1, take_min) == neutral(take_min));
                                lemma_pick_assoc(row_start, neutral(take_min), v, take_min);
                            }
                        }
                    }
                    dx = dx + 1;
                }
                proof {
                    let rows_before = rect_pick(img, w as int, ylo, min_int(h - 1, y + dy - 1), xlo, xhi, take_min);
                    if 0 <= ny < h {
                        if ny == ylo {
                            assert(rect_pick(img, w as int, ylo, ny - 1, xlo, xhi, take_min) == neutral(take_min));
                        }
                    }
                }
                dy = dy + 1;
            }
            proof {
                lemma_row_major(x as int, y as int, w as int, h as int);
            }
            out.push(acc);
            x = x + 1;
            proof {
                assert forall|p: int| 0 <= p < y * w + x implies #[trigger] out@[p] == window_pick(
                    img,
                    w as int,
                    h as int,
                    p % (w as int),
                    p / (w as int),
                    rad as int,
                    take_min,
                ) by {
                    if p == y * w + x - 1 {
                        lemma_row_major((x - 1) as int, y as int, w as int, h as int);
                    }
                }
            }
        }
        proof {
            assert(y * w + w == (y + 1) * w) by (nonlinear_arith);
        }
        y = y + 1;
    }
    assert(h * w == w * h) by (nonlinear_arith);
    assert(out@ =~= morph_spec(img, w as int, h as int, rad as int, take_min));
    out
}

/// Erosion: each pixel becomes the darkest pixel of the square of half-side
/// `radius` around it (clipped to the image). Removes small bright specks.
pub fn erode_gray(values: &Vec<u8>, width: u32, height: u32, radius: u8) -> (r: Vec<u8>)
    requires
        values@.len() == width * height,
    ensures
        r@ == morph_spec(values@, width as int, height as int, radius as int, true),
{
    morph(values, width, height, radius, true)
}

/// Dilation: each pixel becomes the brightest pixel of the square of
/// half-side `radius` around it (clipped to the image). Thickens thin strokes.
pub fn dilate_gray(values: &Vec<u8>, width: u32, height: u32, radius: u8) -> (r: Vec<u8>)
    requires
        values@.len() == width * height,
    ensures
        r@ == morph_spec(values@, width as int, height as int, radius as int, false),
{
    morph(values, width, height, radius, false)
}

/// A row's darkest (or brightest) value over columns that include `x` is at
/// most (or at least) the value at `x`.
proof fn lemma_row_pick_bound(img: Seq<u8>, w: int, y: int, xlo: int, xhi: int, x: int, take_min: bool)
    requires
        xlo <= x <= xhi,
    ensures
        take_min ==> row_pick(img, w, y, xlo, xhi, take_min) <= img[y * w + x],
        !take_min ==> row_pick(img, w, y, xlo, xhi, take_min) >= img[y * w + x],
    decreases xhi - xlo + 1,
{
    if xhi > x {
        lemma_row_pick_bound(img, w, y, xlo, xhi - 1, x, take_min);
    }
}

/// The same over a rectangle that includes (`x`, `y`).
proof fn lemma_rect_pick_bound(
    img: Seq<u8>,
    w: int,
    ylo: int,
    yhi: int,
    xlo: int,
    xhi: int,
    x: int,
    y: int,
    take_min: bool,
)
    requires
        ylo <= y <= yhi,
        xlo <= x <= xhi,
    ensures
        take_min ==> rect_pick(img, w, ylo, yhi, xlo, xhi, take_min) <= img[y * w + x],
        !take_min ==> rect_pick(img, w, ylo, yhi, xlo, xhi, take_min) >= img[y * w + x],
    decreases yhi - ylo + 1,
{
    if yhi > y {
        lemma_rect_pick_bound(img, w, ylo, yhi - 1, xlo, xhi, x, y, take_min);
    } else {
        lemma_row_pick_bound(img, w, y, xlo, xhi, x, take_min);
    }
}

/// Erosion never brightens a pixel and dilation never darkens one: each
/// pixel is part of its own neighbourhood.
pub proof fn law_erosion_darkens_dilation_brightens(img: Seq<u8>, w: int, h: int, r: int, p: int)
    requires
        w > 0,
        h > 0,
        r >= 0,
        img.len() == w * h,
        0 <= p < w * h,
    ensures
        morph_spec(img, w, h, r, true)[p] <= img[p],
        morph_spec(img, w, h, r, false)[p] >= img[p],
{
    let x = p % w;
    let y = p / w;
    vstd::arithmetic::div_mod::lemma_fundamental_div_mod(p, w);
    assert(0 <= x < w) by (nonlinear_arith)
        requires
            w > 0,
            x == p % w,
    ;
    assert(0 <= y < h) by (nonlinear_arith)
        requires
            w > 0,
            0 <= p < w * h,
            y == p / w,
            p == w * y + x,
            0 <= x < w,
    ;
    assert(y * w + x == p) by (nonlinear_arith)
        requires
            p == w * y + x,
    ;
    lemma_rect_pick_bound(img, w, max_int(0, y - r), min_int(h - 1, y + r), max_int(0, x - r), min_int(w - 1, x + r), x, y, true);
    lemma_rect_pick_bound(img, w, max_int(0, y - r), min_int(h - 1, y + r), max_int(0, x - r), min_int(w - 1, x + r), x, y, false);
}

/// With radius 0 both filters leave the image as it is.
pub proof fn law_radius_zero_keeps_image(img: Seq<u8>, w: int, h: int, take_min: bool)
    requires
        w > 0,
        h > 0,
        img.len() == w * h,
    ensures
        morph_spec(img, w, h, 0, take_min) == img,
{
    assert forall|p: int| 0 <= p < w * h implies #[trigger] morph_spec(img, w, h, 0, take_min)[p] == img[p] by {
        let x = p % w;
        let y = p / w;
        vstd::arithmetic::div_mod::lemma_fundamental_div_mod(p, w);
        assert(0 <= x < w) by (nonlinear_arith)
            requires
                w > 0,
                x == p % w,
        ;
        assert(0 <= y < h) by (nonlinear_arith)
            requires
                w > 0,
                0 <= p < w * h,
                y == p / w,
                p == w * y + x,
                0 <= x < w,
        ;
        assert(y * w + x == p) by (nonlinear_arith)
            requires
                p == w * y + x,
        ;
        assert(row_pick(img, w, y, x, x - 1, take_min) == neutral(take_min));
        assert(rect_pick(img, w, y, y - 1, x, x, take_min) == neutral(take_min));
        lemma_pick_assoc(neutral(take_min), neutral(take_min), img[p], take_min);
    }
    assert(morph_spec(img, w, h, 0, take_min) =~= img);
}

} // verus!
