use vstd::prelude::*;
use crate::scalar::{Scalar, lt};
use crate::math::{min, spec_min};
use crate::shape::{Point2, Shape, shape_crossings, shape_nearest};
use crate::scanline::{sorted_seq, ordered_on, count_at_or_below, insertion_point};

verus! {

/// Maps pixel coordinates to shape space: a pixel center divided by the
/// scale, less the translation, on each axis.
pub struct Rasterizer<S> {
    pub scale: Point2<S>,
    pub translate: Point2<S>,
}

/// `1/2`.
pub open spec fn half<S: Scalar>() -> S {
    S::spec_div(S::spec_one(), S::spec_add(S::spec_one(), S::spec_one()))
}

/// The shape-space coordinate of the center of pixel `i` on one axis.
pub open spec fn pixel_center<S: Scalar>(i: usize, scale: S, translate: S) -> S {
    S::spec_sub(S::spec_div(S::spec_add(S::spec_from_usize(i), half::<S>()), scale), translate)
}

/// Parity fill: an odd number of crossings lie at or below `x`.
pub open spec fn filled_at<S: Scalar>(row: Seq<S>, x: S) -> bool {
    count_at_or_below(row, x) % 2 == 1
}

/// The sorted crossings of the row through the centers of pixel row `y`.
pub open spec fn row_crossings<S: Scalar>(shape: Shape<S>, r: Rasterizer<S>, y: usize) -> Seq<S> {
    sorted_seq(shape_crossings(shape, pixel_center(y, r.scale.y, r.translate.y)))
}

/// The shape-space distance that maps to the full byte range:
/// `offset / min(scale.x, scale.y)`.
pub open spec fn scaled_offset<S: Scalar>(r: Rasterizer<S>, offset: u8) -> S {
    S::spec_div(S::spec_from_u16(offset as u16), spec_min(r.scale.x, r.scale.y))
}

/// The precision of the curve searches: `min(scale.x, scale.y) / offset`.
pub open spec fn search_epsilon<S: Scalar>(r: Rasterizer<S>, offset: u8) -> S {
    S::spec_div(spec_min(r.scale.x, r.scale.y), S::spec_from_u16(offset as u16))
}

/// A distance as a byte step: `round(distance * 128 / scaled_offset)`, or
/// `None` when that falls outside the byte range.
pub open spec fn distance_step<S: Scalar>(distance: S, scaled_offset: S) -> Option<u8> {
    S::spec_to_u8(
        S::spec_round(S::spec_div(S::spec_mul(distance, S::spec_from_u16(128)), scaled_offset)),
    )
}

/// The encoded byte: `128 + step` inside, `128 - step` outside, clamped to
/// `255` and `0`; a step out of range counts as the largest.
pub open spec fn sdf_byte(filled: bool, step: Option<u8>) -> u8 {
    let k: int = match step {
        Some(k) => k as int,
        None => 128,
    };
    if filled {
        if k >= 127 {
            255
        } else {
            (128 + k) as u8
        }
    } else {
        if k >= 128 {
            0
        } else {
            (128 - k) as u8
        }
    }
}

/// The signed distance byte of the point `(px, py)`: `0` when no edge lies
/// within the scaled offset, otherwise the encoded distance to the nearest.
pub open spec fn sdf_value<S: Scalar>(
    shape: Shape<S>,
    r: Rasterizer<S>,
    offset: u8,
    px: S,
    py: S,
    filled: bool,
) -> u8 {
    let so = scaled_offset(r, offset);
    match shape_nearest(shape, Point2 { x: px, y: py }, so, search_epsilon(r, offset)) {
        Some(found) => sdf_byte(filled, distance_step(found.0, so)),
        None => 0,
    }
}

/// `v` is a fill bit the cursor search can give at `px`: the parity of an
/// insertion point of `px`, and the parity fill whenever the order is
/// consistent there.
pub open spec fn bitmap_pixel<S: Scalar>(crossings: Seq<S>, px: S, v: bool) -> bool {
    &&& exists|i: int| insertion_point(crossings, px, i) && v == (i % 2 == 1)
    &&& ordered_on(crossings, px) ==> v == filled_at(crossings, px)
}

/// `line` is pixel row `y` of the bitmap: one fill bit per pixel center.
pub open spec fn bitmap_row<S: Scalar>(
    shape: Shape<S>,
    r: Rasterizer<S>,
    y: usize,
    width: usize,
    line: Seq<bool>,
) -> bool {
    &&& line.len() == width
    &&& forall|x: int|
        0 <= x < width ==> bitmap_pixel(
            row_crossings(shape, r, y),
            pixel_center(x as usize, r.scale.x, r.translate.x),
            #[trigger] line[x],
        )
}

/// `v` is a distance byte the cursor search can give at `(px, py)`: encoded
/// with the parity of an insertion point of `px` as the sign, and with the
/// parity fill whenever the order is consistent there.
pub open spec fn sdf_pixel<S: Scalar>(
    shape: Shape<S>,
    r: Rasterizer<S>,
    offset: u8,
    crossings: Seq<S>,
    px: S,
    py: S,
    v: u8,
) -> bool {
    &&& exists|i: int|
        insertion_point(crossings, px, i) && v == sdf_value(shape, r, offset, px, py, i % 2 == 1)
    &&& ordered_on(crossings, px) ==> v == sdf_value(
        shape,
        r,
        offset,
        px,
        py,
        filled_at(crossings, px),
    )
}

/// `line` is pixel row `y` of the distance field.
pub open spec fn sdf_row<S: Scalar>(
    shape: Shape<S>,
    r: Rasterizer<S>,
    offset: u8,
    y: usize,
    width: usize,
    line: Seq<u8>,
) -> bool {
    &&& line.len() == width
    &&& forall|x: int|
        0 <= x < width ==> sdf_pixel(
            shape,
            r,
            offset,
            row_crossings(shape, r, y),
            pixel_center(x as usize, r.scale.x, r.translate.x),
            pixel_center(y, r.scale.y, r.translate.y),
            #[trigger] line[x],
        )
}

/// The order is consistent at every pixel center of the image.
pub open spec fn ordered_image<S: Scalar>(
    shape: Shape<S>,
    r: Rasterizer<S>,
    width: usize,
    height: usize,
) -> bool {
    forall|y: int, x: int|
        0 <= y < height && 0 <= x < width ==> ordered_on(
            #[trigger] row_crossings(shape, r, y as usize),
            #[trigger] pixel_center(x as usize, r.scale.x, r.translate.x),
        )
}

/// Two bitmaps of the same shape with the same parameters are identical
/// wherever the order is consistent: nothing but the arguments decides a pixel.
pub proof fn lemma_bitmap_deterministic<S: Scalar>(
    shape: Shape<S>,
    r: Rasterizer<S>,
    width: usize,
    height: usize,
    a: Seq<Seq<bool>>,
    b: Seq<Seq<bool>>,
)
    requires
        ordered_image(shape, r, width, height),
        a.len() == height,
        b.len() == height,
        forall|row: int|
            0 <= row < height ==> bitmap_row(shape, r, (height - 1 - row) as usize, width, #[trigger] a[row]),
        forall|row: int|
            0 <= row < height ==> bitmap_row(shape, r, (height - 1 - row) as usize, width, #[trigger] b[row]),
    ensures
        a == b,
{
    assert forall|row: int| 0 <= row < height implies #[trigger] a[row] == b[row] by {
        let y = (height - 1 - row) as usize;
        assert(bitmap_row(shape, r, y, width, a[row]));
        assert(bitmap_row(shape, r, y, width, b[row]));
        assert forall|x: int| 0 <= x < width implies #[trigger] a[row][x] == b[row][x] by {
            let px = pixel_center(x as usize, r.scale.x, r.translate.x);
            assert(ordered_on(row_crossings(shape, r, y as int as usize), px));
            assert(bitmap_pixel(row_crossings(shape, r, y), px, a[row][x]));
            assert(bitmap_pixel(row_crossings(shape, r, y), px, b[row][x]));
        }
        assert(a[row] =~= b[row]);
    }
    assert(a =~= b);
}

/// Two distance fields of the same shape with the same parameters are
/// identical wherever the order is consistent.
pub proof fn lemma_sdf_deterministic<S: Scalar>(
    shape: Shape<S>,
    r: Rasterizer<S>,
    offset: u8,
    width: usize,
    height: usize,
    a: Seq<Seq<u8>>,
    b: Seq<Seq<u8>>,
)
    requires
        ordered_image(shape, r, width, height),
        a.len() == height,
        b.len() == height,
        forall|row: int|
            0 <= row < height ==> sdf_row(shape, r, offset, (height - 1 - row) as usize, width, #[trigger] a[row]),
        forall|row: int|
            0 <= row < height ==> sdf_row(shape, r, offset, (height - 1 - row) as usize, width, #[trigger] b[row]),
    ensures
        a == b,
{
    assert forall|row: int| 0 <= row < height implies #[trigger] a[row] == b[row] by {
        let y = (height - 1 - row) as usize;
        assert(sdf_row(shape, r, offset, y, width, a[row]));
        assert(sdf_row(shape, r, offset, y, width, b[row]));
        assert forall|x: int| 0 <= x < width implies #[trigger] a[row][x] == b[row][x] by {
            let px = pixel_center(x as usize, r.scale.x, r.translate.x);
            let py = pixel_center(y, r.scale.y, r.translate.y);
            assert(ordered_on(row_crossings(shape, r, y as int as usize), px));
            assert(sdf_pixel(shape, r, offset, row_crossings(shape, r, y), px, py, a[row][x]));
            assert(sdf_pixel(shape, r, offset, row_crossings(shape, r, y), px, py, b[row][x]));
        }
        assert(a[row] =~= b[row]);
    }
    assert(a =~= b);
}

fn encode(filled: bool, step: Option<u8>) -> (r: u8)
    ensures
        r == sdf_byte(filled, step),
{
    let k: u8 = match step {
        Some(k) => k,
        None => 128,
    };
    if filled {
        if k >= 127 {
            255
        } else {
            128 + k
        }
    } else {
        if k >= 128 {
            0
        } else {
            128 - k
        }
    }
}

impl<S: Scalar> Rasterizer<S> {
    /// Scale 1 and no translation.
    pub fn new() -> (r: Rasterizer<S>)
        ensures
            r.scale == (Point2 { x: S::spec_one(), y: S::spec_one() }),
            r.translate == (Point2 { x: S::spec_zero(), y: S::spec_zero() }),
    {
        Rasterizer {
            scale: Point2 { x: S::one(), y: S::one() },
            translate: Point2 { x: S::zero(), y: S::zero() },
        }
    }

    /// The same scale on both axes.
    pub fn with_scale(self, scale: S) -> (r: Rasterizer<S>)
        ensures
            r.scale == (Point2 { x: scale, y: scale }),
            r.translate == self.translate,
    {
        Rasterizer { scale: Point2 { x: scale, y: scale }, translate: self.translate }
    }

    /// Separate scales on the two axes.
    pub fn with_scale2(self, scale_x: S, scale_y: S) -> (r: Rasterizer<S>)
        ensures
            r.scale == (Point2 { x: scale_x, y: scale_y }),
            r.translate == self.translate,
    {
        Rasterizer { scale: Point2 { x: scale_x, y: scale_y }, translate: self.translate }
    }

    /// The translation subtracted after scaling.
    pub fn with_translate(self, x: S, y: S) -> (r: Rasterizer<S>)
        ensures
            r.scale == self.scale,
            r.translate == (Point2 { x, y }),
    {
        Rasterizer { scale: self.scale, translate: Point2 { x, y } }
    }

    fn center(i: usize, scale: S, translate: S) -> (r: S)
        ensures
            r == pixel_center(i, scale, translate),
    {
        let half = S::one().div(S::one().add(S::one()));
        S::from_usize(i).add(half).div(scale).sub(translate)
    }

    /// The inside/outside image of `shape`, `height` rows of `width` pixels;
    /// the first row is the one of largest y. A pixel is filled when an odd
    /// number of its row's crossings lie at or left of its center.
    pub fn rasterize_bitmap(&self, shape: &Shape<S>, width: usize, height: usize) -> (r: Vec<
        Vec<bool>,
    >)
        ensures
            r@.len() == height,
            forall|row: int|
                0 <= row < height ==> bitmap_row(
                    *shape,
                    *self,
                    (height - 1 - row) as usize,
                    width,
                    #[trigger] r@[row]@,
                ),
    {
        let mut rows: Vec<Vec<bool>> = Vec::new();
        let mut row: usize = 0;
        while row < height
            invariant
                row <= height,
                rows@.len() == row,
                forall|k: int|
                    0 <= k < row ==> bitmap_row(
                        *shape,
                        *self,
                        (height - 1 - k) as usize,
                        width,
                        #[trigger] rows@[k]@,
                    ),
            decreases height - row,
        {
            let y = height - 1 - row;
            let py = Self::center(y, self.scale.y, self.translate.y);
            let mut scanline = shape.scanline(py);
            let ghost crossings = row_crossings(*shape, *self, y);
            let mut line: Vec<bool> = Vec::new();
            let mut x: usize = 0;
            while x < width
                invariant
                    x <= width,
                    line@.len() == x,
                    scanline.crossings() == crossings,
                    forall|j: int|
                        0 <= j < x ==> bitmap_pixel(
                            crossings,
                            pixel_center(j as usize, self.scale.x, self.translate.x),
                            #[trigger] line@[j],
                        ),
                decreases width - x,
            {
                let px = Self::center(x, self.scale.x, self.translate.x);
                let filled = scanline.is_filled(px);
                proof {
                    let i = scanline.cursor() as int;
                    assert(insertion_point(crossings, px, i) && filled == (i % 2 == 1));
                    assert(bitmap_pixel(crossings, px, filled));
                }
                let ghost before = line@;
                line.push(filled);
                proof {
                    assert forall|j: int|
                        0 <= j < x + 1 implies bitmap_pixel(
                        crossings,
                        pixel_center(j as usize, self.scale.x, self.translate.x),
                        #[trigger] line@[j],
                    ) by {
                        if j < x {
                            assert(line@[j] == before[j]);
                        }
                    }
                }
                x = x + 1;
            }
            let ghost done = rows@;
            rows.push(line);
            proof {
                assert forall|k: int|
                    0 <= k < row + 1 implies bitmap_row(
                    *shape,
                    *self,
                    (height - 1 - k) as usize,
                    width,
                    #[trigger] rows@[k]@,
                ) by {
                    if k < row {
                        assert(rows@[k] == done[k]);
                    }
                }
            }
            row = row + 1;
        }
        rows
    }

    /// The signed distance field of `shape`, `height` rows of `width` bytes;
    /// the first row is the one of largest y. A pixel with no edge within
    /// `offset / min(scale.x, scale.y)` of its center is `0`; otherwise its
    /// distance to the nearest edge is encoded around `128`, above inside and
    /// below outside. The scales are positive, and the curve search precision
    /// `min(scale.x, scale.y) / offset` exceeds machine epsilon.
    pub fn rasterize_sdf(&self, shape: &Shape<S>, width: usize, height: usize, offset: u8) -> (r:
        Vec<Vec<u8>>)
        requires
            lt(S::spec_zero(), self.scale.x),
            lt(S::spec_zero(), self.scale.y),
            lt(S::spec_epsilon(), search_epsilon(*self, offset)),
        ensures
            r@.len() == height,
            forall|row: int|
                0 <= row < height ==> sdf_row(
                    *shape,
                    *self,
                    offset,
                    (height - 1 - row) as usize,
                    width,
                    #[trigger] r@[row]@,
                ),
    {
        let min_scale = min(self.scale.x, self.scale.y);
        let offset_s = S::from_u16(offset as u16);
        let epsilon = min_scale.div(offset_s);
        let so = offset_s.div(min_scale);
        let steps = S::from_u16(128);
        let mut rows: Vec<Vec<u8>> = Vec::new();
        let mut row: usize = 0;
        while row < height
            invariant
                row <= height,
                rows@.len() == row,
                epsilon == search_epsilon(*self, offset),
                lt(S::spec_epsilon(), search_epsilon(*self, offset)),
                so == scaled_offset(*self, offset),
                steps == S::spec_from_u16(128),
                forall|k: int|
                    0 <= k < row ==> sdf_row(
                        *shape,
                        *self,
                        offset,
                        (height - 1 - k) as usize,
                        width,
                        #[trigger] rows@[k]@,
                    ),
            decreases height - row,
        {
            let y = height - 1 - row;
            let py = Self::center(y, self.scale.y, self.translate.y);
            let mut scanline = shape.scanline(py);
            let ghost crossings = row_crossings(*shape, *self, y);
            let mut line: Vec<u8> = Vec::new();
            let mut x: usize = 0;
            while x < width
                invariant
                    x <= width,
                    line@.len() == x,
                    scanline.crossings() == crossings,
                    py == pixel_center(y, self.scale.y, self.translate.y),
                    epsilon == search_epsilon(*self, offset),
                    so == scaled_offset(*self, offset),
                    lt(S::spec_epsilon(), search_epsilon(*self, offset)),
                    steps == S::spec_from_u16(128),
                    forall|j: int|
                        0 <= j < x ==> sdf_pixel(
                            *shape,
                            *self,
                            offset,
                            crossings,
                            pixel_center(j as usize, self.scale.x, self.translate.x),
                            py,
                            #[trigger] line@[j],
                        ),
                decreases width - x,
            {
                let px = Self::center(x, self.scale.x, self.translate.x);
                let filled = scanline.is_filled(px);
                let value = match shape.closest_point(Point2 { x: px, y: py }, so, epsilon) {
                    Some(found) => encode(filled, found.0.mul(steps).div(so).round().to_u8()),
                    None => 0,
                };
                proof {
                    let i = scanline.cursor() as int;
                    assert(insertion_point(crossings, px, i) && value == sdf_value(
                        *shape,
                        *self,
                        offset,
                        px,
                        py,
                        i % 2 == 1,
                    ));
                    assert(sdf_pixel(*shape, *self, offset, crossings, px, py, value));
                }
                let ghost before = line@;
                line.push(value);
                proof {
                    assert forall|j: int|
                        0 <= j < x + 1 implies sdf_pixel(
                        *shape,
                        *self,
                        offset,
                        crossings,
                        pixel_center(j as usize, self.scale.x, self.translate.x),
                        py,
                        #[trigger] line@[j],
                    ) by {
                        if j < x {
                            assert(line@[j] == before[j]);
                        }
                    }
                }
                x = x + 1;
            }
            let ghost done = rows@;
            rows.push(line);
            proof {
                assert forall|k: int|
                    0 <= k < row + 1 implies sdf_row(
                    *shape,
                    *self,
                    offset,
                    (height - 1 - k) as usize,
                    width,
                    #[trigger] rows@[k]@,
                ) by {
                    if k < row {
                        assert(rows@[k] == done[k]);
                    }
                }
            }
            row = row + 1;
        }
        rows
    }
}

} // verus!
