//! Curve templates: the eight canonical tab and recess silhouettes, rendered
//! once per run as cubic bezier strokes and kept as boundary-pixel sets.
//!
//! Rendering itself is done by an outside drawing routine; everything the
//! library reads back from it (the stroked pixels, and the margin by which a
//! tab protrudes past the nominal cell box) is recovered by verified scans
//! over the raw canvas bytes.

use vstd::arithmetic::div_mod::lemma_div_is_ordered;
use vstd::prelude::*;
use crate::JigsawError;

verus! {

/// A pixel offset inside a template canvas.
#[derive(Clone, Copy, Debug, PartialEq, Eq, Structural)]
pub struct Point {
    pub x: u32,
    pub y: u32,
}

/// The rendered boundary of one silhouette: the stroked pixels of a canvas of
/// the given size, in column-by-column scan order.
#[derive(Clone, Debug, PartialEq, Eq)]
pub struct CurveTemplate {
    pub width: u32,
    pub height: u32,
    pub points: Vec<Point>,
}

/// The RGBA bytes of the canvas that the outside bezier renderer produces for
/// the given canvas size, stroke start and end, and two control points. The
/// stroke is a pure function of these ten values.
pub uninterp spec fn bezier_raster(
    w: int,
    h: int,
    sx: int,
    sy: int,
    ex: int,
    ey: int,
    ax: int,
    ay: int,
    bx: int,
    by: int,
) -> Seq<u8>;

/// Pixel `(x, y)` of an RGBA canvas of width `w` carries the stroke colour.
pub open spec fn marked(buf: Seq<u8>, w: int, x: int, y: int) -> bool {
    buf[4 * (y * w + x)] == 255u8
}

/// Relies on `imageproc::drawing::draw_cubic_bezier_curve`: it strokes the
/// bezier onto a copy of the blank canvas made by
/// `image::RgbaImage::from_pixel`, deterministically from the canvas size and
/// the four (start, end, two control) points alone, and
/// `ImageBuffer::into_raw` hands back the canvas bytes, four per pixel.
#[verifier::external_body]
fn draw_bezier(
    w: u32,
    h: u32,
    sx: i64,
    sy: i64,
    ex: i64,
    ey: i64,
    ax: i64,
    ay: i64,
    bx: i64,
    by: i64,
) -> (buf: Vec<u8>)
    requires
        1 <= w,
        1 <= h,
        4 * (w as int) * (h as int) <= usize::MAX,
    ensures
        buf@ == bezier_raster(
            w as int,
            h as int,
            sx as int,
            sy as int,
            ex as int,
            ey as int,
            ax as int,
            ay as int,
            bx as int,
            by as int,
        ),
        buf@.len() == 4 * (w as int) * (h as int),
{
    let blank = image::RgbaImage::from_pixel(w, h, image::Rgba([0u8, 0u8, 0u8, 0u8]));
    let drawn = imageproc::drawing::draw_cubic_bezier_curve(
        &blank,
        (sx as _, sy as _),
        (ex as _, ey as _),
        (ax as _, ay as _),
        (bx as _, by as _),
        image::Rgba([255u8, 0u8, 0u8, 255u8]),
    );
    drawn.into_raw()
}

/// The stroked pixels of a canvas, column by column and top to bottom within
/// a column, starting at position `(x, y)` of the scan.
pub open spec fn points_from(buf: Seq<u8>, w: int, h: int, x: int, y: int) -> Seq<Point>
    decreases w - x, h - y,
    when 0 <= x && 0 <= y && x <= w && y <= h
{
    if x >= w {
        Seq::empty()
    } else if y >= h {
        points_from(buf, w, h, x + 1, 0)
    } else if marked(buf, w, x, y) {
        seq![Point { x: x as u32, y: y as u32 }] + points_from(buf, w, h, x, y + 1)
    } else {
        points_from(buf, w, h, x, y + 1)
    }
}

/// All stroked pixels of a canvas, in scan order.
pub open spec fn template_points(buf: Seq<u8>, w: int, h: int) -> Seq<Point> {
    points_from(buf, w, h, 0, 0)
}

/// Every collected point lies at or right of the scan start and inside the
/// canvas.
pub proof fn lemma_points_from_bounded(buf: Seq<u8>, w: int, h: int, x: int, y: int)
    requires
        0 <= x <= w,
        0 <= y <= h,
    ensures
        forall|i: int|
            0 <= i < points_from(buf, w, h, x, y).len() ==> (#[trigger] points_from(
                buf,
                w,
                h,
                x,
                y,
            )[i]).x < w && points_from(buf, w, h, x, y)[i].y < h,
    decreases w - x, h - y,
{
    let s = points_from(buf, w, h, x, y);
    if x >= w {
    } else if y >= h {
        lemma_points_from_bounded(buf, w, h, x + 1, 0);
        let rest = points_from(buf, w, h, x + 1, 0);
        assert(s == rest);
        assert forall|i: int| 0 <= i < s.len() implies (#[trigger] s[i]).x < w && s[i].y < h by {
            assert(rest[i].x < w && rest[i].y < h);
        }
    } else {
        lemma_points_from_bounded(buf, w, h, x, y + 1);
        let rest = points_from(buf, w, h, x, y + 1);
        if marked(buf, w, x, y) {
            assert(s == seq![Point { x: x as u32, y: y as u32 }] + rest);
            assert forall|i: int| 0 <= i < s.len() implies (#[trigger] s[i]).x < w && s[i].y < h by {
                if i > 0 {
                    assert(s[i] == rest[i - 1]);
                    assert(rest[i - 1].x < w && rest[i - 1].y < h);
                }
            }
        } else {
            assert(s == rest);
            assert forall|i: int| 0 <= i < s.len() implies (#[trigger] s[i]).x < w && s[i].y < h by {
                assert(rest[i].x < w && rest[i].y < h);
            }
        }
    }
}

/// Gathers the stroked pixels of the raw canvas bytes, in scan order.
pub fn collect_points(buf: &Vec<u8>, w: u32, h: u32) -> (r: Vec<Point>)
    requires
        buf@.len() == 4 * (w as int) * (h as int),
        4 * (w as int) * (h as int) <= usize::MAX,
    ensures
        r@ == template_points(buf@, w as int, h as int),
{
    let ghost total = template_points(buf@, w as int, h as int);
    let mut pts: Vec<Point> = Vec::new();
    let mut x: u32 = 0;
    while x < w
        invariant
            x <= w,
            buf@.len() == 4 * (w as int) * (h as int),
            4 * (w as int) * (h as int) <= usize::MAX,
            pts@ + points_from(buf@, w as int, h as int, x as int, 0) == total,
            total == template_points(buf@, w as int, h as int),
        decreases w - x,
    {
        let mut y: u32 = 0;
        while y < h
            invariant
                x < w,
                y <= h,
                buf@.len() == 4 * (w as int) * (h as int),
                4 * (w as int) * (h as int) <= usize::MAX,
                pts@ + points_from(buf@, w as int, h as int, x as int, y as int) == total,
                total == template_points(buf@, w as int, h as int),
            decreases h - y,
        {
            proof {
                assert(0 <= 4 * ((y as int) * (w as int) + (x as int)) && 4 * ((y as int) * (
                w as int) + (x as int)) < 4 * (w as int) * (h as int)) by (nonlinear_arith)
                    requires
                        0 <= (x as int) && (x as int) < (w as int),
                        0 <= (y as int) && (y as int) < (h as int),
                ;
            }
            let idx: usize = 4 * ((y as usize) * (w as usize) + (x as usize));
            if buf[idx] == 255 {
                let p = Point { x, y };
                pts.push(p);
                proof {
                    assert(marked(buf@, w as int, x as int, y as int));
                    assert(pts@ + points_from(buf@, w as int, h as int, x as int, y as int + 1)
                        =~= pts@.drop_last() + points_from(
                        buf@,
                        w as int,
                        h as int,
                        x as int,
                        y as int,
                    ));
                }
            } else {
                proof {
                    assert(!marked(buf@, w as int, x as int, y as int));
                }
            }
            y += 1;
        }
        x += 1;
    }
    proof {
        assert(pts@ =~= total);
    }
    pts
}

/// The default curve proportions: connector half-span and bulge depth as
/// fixed fractions of the combined cell dimensions, truncated to pixels.
pub fn curve_dimensions(column_size: u32, row_size: u32) -> (r: (u32, u32))
    ensures
        r.0 == ((column_size as int) + (row_size as int)) * 5639 / 100000,
        r.1 == ((column_size as int) + (row_size as int)) * 9398 / 100000,
{
    let s: u64 = (column_size as u64) + (row_size as u64);
    proof {
        assert(s * 5639 <= 0x200000000 * 5639) by (nonlinear_arith)
            requires
                s <= 0x200000000,
        ;
        assert(s * 9398 <= 0x200000000 * 9398) by (nonlinear_arith)
            requires
                s <= 0x200000000,
        ;
        lemma_div_is_ordered((s * 5639) as int, (0x200000000 * 5639) as int, 100000);
        lemma_div_is_ordered((s * 9398) as int, (0x200000000 * 9398) as int, 100000);
    }
    let cw: u64 = s * 5639 / 100000;
    let ch: u64 = s * 9398 / 100000;
    (cw as u32, ch as u32)
}

/// The cell and curve dimensions leave room for the connector window inside
/// the cell borders, and every canvas the run needs fits this machine.
pub open spec fn geometry_ok(cs: int, rs: int, cw: int, ch: int) -> bool {
    &&& 4 <= cs
    &&& 4 <= rs
    &&& 1 <= cw
    &&& 1 <= ch
    &&& cw < cs / 2
    &&& cw < rs / 2
    &&& cs / 2 + cw <= cs - 2
    &&& rs / 2 + cw <= rs - 2
    &&& cs + ch <= u32::MAX
    &&& rs + ch <= u32::MAX
    &&& 4 * (cs + ch) * (rs + ch) <= usize::MAX
}

/// Decides `geometry_ok` for concrete dimensions.
pub fn geometry_supported(column_size: u32, row_size: u32, curve_width: u32, curve_height: u32) -> (
    b: bool)
    ensures
        b == geometry_ok(
            column_size as int,
            row_size as int,
            curve_width as int,
            curve_height as int,
        ),
{
    let cs: u64 = column_size as u64;
    let rs: u64 = row_size as u64;
    let cw: u64 = curve_width as u64;
    let ch: u64 = curve_height as u64;
    if !(4 <= cs && 4 <= rs && 1 <= cw && 1 <= ch && cw < cs / 2 && cw < rs / 2 && cs / 2 + cw <= cs
        - 2 && rs / 2 + cw <= rs - 2 && cs + ch <= u32::MAX as u64 && rs + ch <= u32::MAX as u64) {
        return false;
    }
    proof {
        assert((cs + ch) * (rs + ch) < 0x10000000000000000) by (nonlinear_arith)
            requires
                cs + ch <= 0xffffffff,
                rs + ch <= 0xffffffff,
                0 <= cs + ch,
                0 <= rs + ch,
        ;
        assert(4 * ((cs + ch) as int * (rs + ch) as int) == 4 * ((cs + ch) as int) * ((rs
            + ch) as int)) by (nonlinear_arith);
    }
    4 * ((cs + ch) as u128) * ((rs + ch) as u128) <= usize::MAX as u128
}

/// The canvas bytes of each of the eight silhouettes, as the outside renderer
/// produces them for the control points this library uses.
pub open spec fn left_in_raster(cs: int, rs: int, cw: int, ch: int) -> Seq<u8> {
    bezier_raster(cs, rs, 0, rs / 2 - cw, 0, rs / 2 + cw, ch, rs / 2 - cw, ch, rs / 2 + cw)
}

pub open spec fn right_in_raster(cs: int, rs: int, cw: int, ch: int) -> Seq<u8> {
    bezier_raster(
        cs,
        rs,
        cs - 1,
        rs / 2 - cw,
        cs - 1,
        rs / 2 + cw,
        cs - 1 - ch,
        rs / 2 - cw,
        cs - 1 - ch,
        rs / 2 + cw,
    )
}

pub open spec fn top_in_raster(cs: int, rs: int, cw: int, ch: int) -> Seq<u8> {
    bezier_raster(cs, rs, cs / 2 - cw, 0, cs / 2 + cw, 0, cs / 2 - cw, ch, cs / 2 + cw, ch)
}

pub open spec fn bottom_in_raster(cs: int, rs: int, cw: int, ch: int) -> Seq<u8> {
    bezier_raster(
        cs,
        rs,
        cs / 2 - cw,
        rs - 1,
        cs / 2 + cw,
        rs - 1,
        cs / 2 - cw,
        rs - 1 - ch,
        cs / 2 + cw,
        rs - 1 - ch,
    )
}

pub open spec fn left_out_raster(cs: int, rs: int, cw: int, ch: int, m: int) -> Seq<u8> {
    bezier_raster(
        cs + ch,
        rs,
        m,
        rs / 2 - cw,
        m,
        rs / 2 + cw,
        m - ch,
        rs / 2 - cw,
        m - ch,
        rs / 2 + cw,
    )
}

pub open spec fn right_out_raster(cs: int, rs: int, cw: int, ch: int) -> Seq<u8> {
    bezier_raster(
        cs + ch,
        rs,
        cs - 1,
        rs / 2 - cw,
        cs - 1,
        rs / 2 + cw,
        cs - 1 + ch,
        rs / 2 - cw,
        cs - 1 + ch,
        rs / 2 + cw,
    )
}

pub open spec fn top_out_raster(cs: int, rs: int, cw: int, ch: int, m: int) -> Seq<u8> {
    bezier_raster(
        cs,
        rs + ch,
        cs / 2 - cw,
        m,
        cs / 2 + cw,
        m,
        cs / 2 - cw,
        m - ch,
        cs / 2 + cw,
        m - ch,
    )
}

pub open spec fn bottom_out_raster(cs: int, rs: int, cw: int, ch: int) -> Seq<u8> {
    bezier_raster(
        cs,
        rs + ch,
        cs / 2 - cw,
        rs - 1,
        cs / 2 + cw,
        rs - 1,
        cs / 2 - cw,
        rs - 1 + ch,
        cs / 2 + cw,
        rs - 1 + ch,
    )
}

/// Some pixel of the probed midline row of the recess silhouette for the left
/// side is stroked; its position defines the curve margin.
pub open spec fn margin_exists(cs: int, rs: int, cw: int, ch: int) -> bool {
    exists|x: int|
        0 <= x < cs && #[trigger] marked(left_in_raster(cs, rs, cw, ch), cs, x, rs / 2)
}

pub open spec fn is_least_margin(cs: int, rs: int, cw: int, ch: int, m: int) -> bool {
    &&& 0 <= m < cs
    &&& marked(left_in_raster(cs, rs, cw, ch), cs, m, rs / 2)
    &&& forall|x: int|
        0 <= x < m ==> !(#[trigger] marked(left_in_raster(cs, rs, cw, ch), cs, x, rs / 2))
}

/// The least stroked midline pixel is unique.
pub proof fn lemma_least_margin_unique(cs: int, rs: int, cw: int, ch: int, m1: int, m2: int)
    requires
        is_least_margin(cs, rs, cw, ch, m1),
        is_least_margin(cs, rs, cw, ch, m2),
    ensures
        m1 == m2,
{
    if m1 < m2 {
        assert(!marked(left_in_raster(cs, rs, cw, ch), cs, m1, rs / 2));
    }
    if m2 < m1 {
        assert(!marked(left_in_raster(cs, rs, cw, ch), cs, m2, rs / 2));
    }
}

impl CurveTemplate {
    /// Every template point lies inside the template canvas.
    pub open spec fn wf(self) -> bool {
        forall|i: int|
            0 <= i < self.points@.len() ==> (#[trigger] self.points@[i]).x < self.width
                && self.points@[i].y < self.height
    }
}

/// The eight shared silhouette templates, the curve proportions they were
/// rendered with, and the margin by which a tab protrudes.
#[derive(Clone, Debug, PartialEq, Eq)]
pub struct TemplateSet {
    pub column_size: u32,
    pub row_size: u32,
    pub curve_width: u32,
    pub curve_height: u32,
    pub margin: u32,
    pub left_in: CurveTemplate,
    pub right_in: CurveTemplate,
    pub top_in: CurveTemplate,
    pub bottom_in: CurveTemplate,
    pub left_out: CurveTemplate,
    pub right_out: CurveTemplate,
    pub top_out: CurveTemplate,
    pub bottom_out: CurveTemplate,
}

impl TemplateSet {
    pub open spec fn dims_ok(self) -> bool {
        let cs = self.column_size as int;
        let rs = self.row_size as int;
        let ch = self.curve_height as int;
        &&& self.left_in.width == cs && self.left_in.height == rs
        &&& self.right_in.width == cs && self.right_in.height == rs
        &&& self.top_in.width == cs && self.top_in.height == rs
        &&& self.bottom_in.width == cs && self.bottom_in.height == rs
        &&& self.left_out.width == cs + ch && self.left_out.height == rs
        &&& self.right_out.width == cs + ch && self.right_out.height == rs
        &&& self.top_out.width == cs && self.top_out.height == rs + ch
        &&& self.bottom_out.width == cs && self.bottom_out.height == rs + ch
    }

    pub open spec fn wf(self) -> bool {
        &&& geometry_ok(
            self.column_size as int,
            self.row_size as int,
            self.curve_width as int,
            self.curve_height as int,
        )
        &&& self.margin < self.column_size
        &&& self.dims_ok()
        &&& self.left_in.wf() && self.right_in.wf() && self.top_in.wf() && self.bottom_in.wf()
        &&& self.left_out.wf() && self.right_out.wf() && self.top_out.wf()
            && self.bottom_out.wf()
    }

    /// The templates are exactly the scans of the eight rendered canvases for
    /// these cell and curve dimensions, and the margin is the least stroked
    /// midline pixel of the left recess silhouette.
    pub open spec fn exact_for(self, cs: int, rs: int, cw: int, ch: int) -> bool {
        let m = self.margin as int;
        &&& self.column_size == cs && self.row_size == rs
        &&& self.curve_width == cw && self.curve_height == ch
        &&& is_least_margin(cs, rs, cw, ch, m)
        &&& self.left_in.points@ == template_points(left_in_raster(cs, rs, cw, ch), cs, rs)
        &&& self.right_in.points@ == template_points(right_in_raster(cs, rs, cw, ch), cs, rs)
        &&& self.top_in.points@ == template_points(top_in_raster(cs, rs, cw, ch), cs, rs)
        &&& self.bottom_in.points@ == template_points(bottom_in_raster(cs, rs, cw, ch), cs, rs)
        &&& self.left_out.points@ == template_points(
            left_out_raster(cs, rs, cw, ch, m),
            cs + ch,
            rs,
        )
        &&& self.right_out.points@ == template_points(right_out_raster(cs, rs, cw, ch), cs + ch, rs)
        &&& self.top_out.points@ == template_points(top_out_raster(cs, rs, cw, ch, m), cs, rs + ch)
        &&& self.bottom_out.points@ == template_points(
            bottom_out_raster(cs, rs, cw, ch),
            cs,
            rs + ch,
        )
    }
}

/// Renders one silhouette and gathers its stroked pixels.
fn render_template(
    w: u32,
    h: u32,
    sx: i64,
    sy: i64,
    ex: i64,
    ey: i64,
    ax: i64,
    ay: i64,
    bx: i64,
    by: i64,
) -> (t: CurveTemplate)
    requires
        1 <= w,
        1 <= h,
        4 * (w as int) * (h as int) <= usize::MAX,
    ensures
        t.width == w,
        t.height == h,
        t.points@ == template_points(
            bezier_raster(
                w as int,
                h as int,
                sx as int,
                sy as int,
                ex as int,
                ey as int,
                ax as int,
                ay as int,
                bx as int,
                by as int,
            ),
            w as int,
            h as int,
        ),
        t.wf(),
{
    let buf = draw_bezier(w, h, sx, sy, ex, ey, ax, ay, bx, by);
    let points = collect_points(&buf, w, h);
    proof {
        lemma_points_from_bounded(buf@, w as int, h as int, 0, 0);
    }
    CurveTemplate { width: w, height: h, points }
}

/// Renders the eight canonical silhouettes for uniform cells of the given
/// size and the given curve proportions, and measures the curve margin.
/// Degenerate geometry is refused rather than rasterized; a curve that never
/// crosses the probed midline leaves the margin undefined and is refused too.
pub fn generate_templates(
    column_size: u32,
    row_size: u32,
    curve_width: u32,
    curve_height: u32,
) -> (r: Result<TemplateSet, JigsawError>)
    ensures
        r is Ok <==> (geometry_ok(
            column_size as int,
            row_size as int,
            curve_width as int,
            curve_height as int,
        ) && margin_exists(
            column_size as int,
            row_size as int,
            curve_width as int,
            curve_height as int,
        )),
        r matches Ok(t) ==> t.wf() && t.exact_for(
            column_size as int,
            row_size as int,
            curve_width as int,
            curve_height as int,
        ),
        r matches Err(e) ==> (e == JigsawError::DegenerateGeometry <==> !geometry_ok(
            column_size as int,
            row_size as int,
            curve_width as int,
            curve_height as int,
        )),
        r matches Err(e) ==> (e == JigsawError::DegenerateGeometry || e == JigsawError::EmptyCurve),
{
    let ghost cs = column_size as int;
    let ghost rs = row_size as int;
    let ghost cw = curve_width as int;
    let ghost ch = curve_height as int;
    if !geometry_supported(column_size, row_size, curve_width, curve_height) {
        return Err(JigsawError::DegenerateGeometry);
    }
    proof {
        assert(4 * cs * rs <= 4 * (cs + ch) * (rs + ch) && 4 * (cs + ch) * rs <= 4 * (cs + ch) * (
        rs + ch) && 4 * cs * (rs + ch) <= 4 * (cs + ch) * (rs + ch)) by (nonlinear_arith)
            requires
                1 <= cs,
                1 <= rs,
                1 <= ch,
        ;
    }
    let wide: u32 = column_size + curve_height;
    let tall: u32 = row_size + curve_height;
    let mid_lo_y: i64 = (row_size as i64) / 2 - (curve_width as i64);
    let mid_hi_y: i64 = (row_size as i64) / 2 + (curve_width as i64);
    let mid_lo_x: i64 = (column_size as i64) / 2 - (curve_width as i64);
    let mid_hi_x: i64 = (column_size as i64) / 2 + (curve_width as i64);
    let chi: i64 = curve_height as i64;
    let right_edge: i64 = (column_size as i64) - 1;
    let bottom_edge: i64 = (row_size as i64) - 1;

    let left_in_buf = draw_bezier(
        column_size,
        row_size,
        0,
        mid_lo_y,
        0,
        mid_hi_y,
        chi,
        mid_lo_y,
        chi,
        mid_hi_y,
    );
    let margin = match find_margin(&left_in_buf, column_size, row_size, row_size / 2) {
        Some(m) => m,
        None => {
            proof {
                assert(left_in_buf@ == left_in_raster(cs, rs, cw, ch));
                assert forall|x: int| 0 <= x < cs implies !(#[trigger] marked(
                    left_in_raster(cs, rs, cw, ch),
                    cs,
                    x,
                    rs / 2,
                )) by {
                    assert(!marked(left_in_buf@, cs, x, rs / 2));
                }
            }
            return Err(JigsawError::EmptyCurve);
        },
    };
    proof {
        assert(left_in_buf@ == left_in_raster(cs, rs, cw, ch));
        assert(marked(left_in_raster(cs, rs, cw, ch), cs, margin as int, rs / 2));
    }
    let left_in_points = collect_points(&left_in_buf, column_size, row_size);
    proof {
        lemma_points_from_bounded(left_in_buf@, cs, rs, 0, 0);
    }
    let left_in = CurveTemplate { width: column_size, height: row_size, points: left_in_points };
    let right_in = render_template(
        column_size,
        row_size,
        right_edge,
        mid_lo_y,
        right_edge,
        mid_hi_y,
        right_edge - chi,
        mid_lo_y,
        right_edge - chi,
        mid_hi_y,
    );
    let top_in = render_template(
        column_size,
        row_size,
        mid_lo_x,
        0,
        mid_hi_x,
        0,
        mid_lo_x,
        chi,
        mid_hi_x,
        chi,
    );
    let bottom_in = render_template(
        column_size,
        row_size,
        mid_lo_x,
        bottom_edge,
        mid_hi_x,
        bottom_edge,
        mid_lo_x,
        bottom_edge - chi,
        mid_hi_x,
        bottom_edge - chi,
    );
    let mi: i64 = margin as i64;
    let left_out = render_template(
        wide,
        row_size,
        mi,
        mid_lo_y,
        mi,
        mid_hi_y,
        mi - chi,
        mid_lo_y,
        mi - chi,
        mid_hi_y,
    );
    let right_out = render_template(
        wide,
        row_size,
        right_edge,
        mid_lo_y,
        right_edge,
        mid_hi_y,
        right_edge + chi,
        mid_lo_y,
        right_edge + chi,
        mid_hi_y,
    );
    let top_out = render_template(
        column_size,
        tall,
        mid_lo_x,
        mi,
        mid_hi_x,
        mi,
        mid_lo_x,
        mi - chi,
        mid_hi_x,
        mi - chi,
    );
    let bottom_out = render_template(
        column_size,
        tall,
        mid_lo_x,
        bottom_edge,
        mid_hi_x,
        bottom_edge,
        mid_lo_x,
        bottom_edge + chi,
        mid_hi_x,
        bottom_edge + chi,
    );
    let t = TemplateSet {
        column_size,
        row_size,
        curve_width,
        curve_height,
        margin,
        left_in,
        right_in,
        top_in,
        bottom_in,
        left_out,
        right_out,
        top_out,
        bottom_out,
    };
    Ok(t)
}

/// Least `x` at which row `probe_y` of the canvas is stroked, if any.
pub fn find_margin(buf: &Vec<u8>, w: u32, h: u32, probe_y: u32) -> (r: Option<u32>)
    requires
        buf@.len() == 4 * (w as int) * (h as int),
        4 * (w as int) * (h as int) <= usize::MAX,
        probe_y < h,
    ensures
        r matches Some(m) ==> m < w && marked(buf@, w as int, m as int, probe_y as int) && (forall|
            x: int,
        |
            0 <= x < m ==> !marked(buf@, w as int, x, probe_y as int)),
        r is None ==> forall|x: int| 0 <= x < w ==> !marked(buf@, w as int, x, probe_y as int),
{
    let mut x: u32 = 0;
    while x < w
        invariant
            x <= w,
            buf@.len() == 4 * (w as int) * (h as int),
            4 * (w as int) * (h as int) <= usize::MAX,
            probe_y < h,
            forall|t: int| 0 <= t < x ==> !marked(buf@, w as int, t, probe_y as int),
        decreases w - x,
    {
        proof {
            assert(0 <= 4 * ((probe_y as int) * (w as int) + (x as int)) && 4 * ((probe_y as int)
                * (w as int) + (x as int)) < 4 * (w as int) * (h as int)) by (nonlinear_arith)
                requires
                    0 <= (x as int) && (x as int) < (w as int),
                    0 <= (probe_y as int) && (probe_y as int) < (h as int),
            ;
        }
        let idx: usize = 4 * ((probe_y as usize) * (w as usize) + (x as usize));
        if buf[idx] == 255 {
            return Some(x);
        }
        x += 1;
    }
    None
}

} // verus!
