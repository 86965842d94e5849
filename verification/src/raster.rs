//! Per-cell rasterization: composes the shared curve templates and straight
//! edges into a closed silhouette on a tag grid, floods its interior, and
//! copies the matching source pixels into an RGBA piece image.
//!
//! Pixel classes live in an out-of-band tag buffer, never as sentinel colours
//! in the output, so no marker value can collide with a genuine source pixel.

use vstd::prelude::*;
use crate::curve::{CurveTemplate, Point, TemplateSet};
use crate::grid::{CellEdges, Polarity};

verus! {

/// The class of one canvas pixel while a piece is being built.
#[derive(Clone, Copy, Debug, PartialEq, Eq, Structural)]
pub enum PixelTag {
    Background,
    Boundary,
    Interior,
}

/// A canvas of pixel classes, row by row.
#[derive(Clone, Debug, PartialEq, Eq)]
pub struct TagGrid {
    pub width: u32,
    pub height: u32,
    pub tags: Vec<PixelTag>,
}

/// The decoded source picture: RGB bytes, three per pixel, row by row.
#[derive(Clone, Debug, PartialEq, Eq)]
pub struct SourceImage {
    pub width: u32,
    pub height: u32,
    pub pixels: Vec<u8>,
}

/// One finished piece: RGBA bytes, four per pixel, row by row.
#[derive(Clone, Debug, PartialEq, Eq)]
pub struct PieceRaster {
    pub width: u32,
    pub height: u32,
    pub pixels: Vec<u8>,
}

pub open spec fn grid_index(w: int, x: int, y: int) -> int {
    y * w + x
}

impl TagGrid {
    pub open spec fn wf(self) -> bool {
        self.tags@.len() == (self.width as int) * (self.height as int)
    }

    pub open spec fn tag(self, x: int, y: int) -> PixelTag {
        self.tags@[grid_index(self.width as int, x, y)]
    }
}

impl SourceImage {
    pub open spec fn wf(self) -> bool {
        self.pixels@.len() == 3 * (self.width as int) * (self.height as int)
    }

    /// Channel `c` of source pixel `(x, y)`.
    pub open spec fn channel(self, x: int, y: int, c: int) -> u8 {
        self.pixels@[3 * grid_index(self.width as int, x, y) + c]
    }
}

proof fn lemma_grid_index_injective(w: int, x1: int, y1: int, x2: int, y2: int)
    requires
        1 <= w,
        0 <= x1 < w,
        0 <= x2 < w,
        0 <= y1,
        0 <= y2,
        grid_index(w, x1, y1) == grid_index(w, x2, y2),
    ensures
        x1 == x2,
        y1 == y2,
{
    assert(x1 == x2 && y1 == y2) by (nonlinear_arith)
        requires
            1 <= w,
            0 <= x1 < w,
            0 <= x2 < w,
            0 <= y1,
            0 <= y2,
            y1 * w + x1 == y2 * w + x2,
    ;
}

proof fn lemma_grid_index_bounds(w: int, h: int, x: int, y: int)
    requires
        0 <= x < w,
        0 <= y < h,
    ensures
        0 <= grid_index(w, x, y),
        grid_index(w, x, y) < w * h,
{
    assert(0 <= y * w + x && y * w + x < w * h) by (nonlinear_arith)
        requires
            0 <= x < w,
            0 <= y < h,
    ;
}

/// Whether a side carries a tab, that is, protrudes past the nominal box.
pub open spec fn is_tab(o: Option<Polarity>) -> bool {
    o == Some(Polarity::Tab)
}

/// Horizontal offset of the nominal cell content inside the canvas.
pub open spec fn origin_x(edges: CellEdges, m: int) -> int {
    if is_tab(edges.left) {
        m
    } else {
        0
    }
}

/// Vertical offset of the nominal cell content inside the canvas.
pub open spec fn origin_y(edges: CellEdges, m: int) -> int {
    if is_tab(edges.top) {
        m
    } else {
        0
    }
}

/// Canvas width: the nominal cell width plus one margin per horizontal tab.
pub open spec fn canvas_w(edges: CellEdges, cs: int, m: int) -> int {
    cs + (if is_tab(edges.left) {
        m
    } else {
        0
    }) + (if is_tab(edges.right) {
        m
    } else {
        0
    })
}

/// Canvas height: the nominal cell height plus one margin per vertical tab.
pub open spec fn canvas_h(edges: CellEdges, rs: int, m: int) -> int {
    rs + (if is_tab(edges.top) {
        m
    } else {
        0
    }) + (if is_tab(edges.bottom) {
        m
    } else {
        0
    })
}

/// Canvas pixel `(x, y)` is covered by some template point shifted by
/// `(dx, dy)`.
pub open spec fn covered(pts: Seq<Point>, dx: int, dy: int, x: int, y: int) -> bool {
    exists|i: int|
        0 <= i < pts.len() && (#[trigger] pts[i]).x + dx == x && pts[i].y + dy == y
}

/// Canvas pixel `(x, y)` is covered by the template of a label the cell
/// carries, stamped at that label's offset: templates for tabs on the top or
/// left side already include the margin in their own canvas, so they shift
/// only along the other axis.
pub open spec fn stamped(edges: CellEdges, ts: TemplateSet, x: int, y: int) -> bool {
    let m = ts.margin as int;
    let sx = origin_x(edges, m);
    let sy = origin_y(edges, m);
    ||| (edges.top == Some(Polarity::Recess) && covered(ts.top_in.points@, sx, sy, x, y))
    ||| (edges.top == Some(Polarity::Tab) && covered(ts.top_out.points@, sx, 0, x, y))
    ||| (edges.bottom == Some(Polarity::Recess) && covered(ts.bottom_in.points@, sx, sy, x, y))
    ||| (edges.bottom == Some(Polarity::Tab) && covered(ts.bottom_out.points@, sx, sy, x, y))
    ||| (edges.left == Some(Polarity::Recess) && covered(ts.left_in.points@, sx, sy, x, y))
    ||| (edges.left == Some(Polarity::Tab) && covered(ts.left_out.points@, 0, sy, x, y))
    ||| (edges.right == Some(Polarity::Recess) && covered(ts.right_in.points@, sx, sy, x, y))
    ||| (edges.right == Some(Polarity::Tab) && covered(ts.right_out.points@, sx, sy, x, y))
}

/// Canvas pixel `(x, y)` lies on a straight nominal edge, outside the centred
/// connector window of any labelled side.
pub open spec fn straight_edge_at(edges: CellEdges, ts: TemplateSet, x: int, y: int) -> bool {
    let cs = ts.column_size as int;
    let rs = ts.row_size as int;
    let cw = ts.curve_width as int;
    let m = ts.margin as int;
    let sx = origin_x(edges, m);
    let sy = origin_y(edges, m);
    let xs_lo = cs / 2 - cw + sx;
    let xs_hi = cs / 2 + cw + sx;
    let ys_lo = rs / 2 - cw + sy;
    let ys_hi = rs / 2 + cw + sy;
    ||| (y == sy && sx <= x < sx + cs && !(edges.top is Some && xs_lo <= x <= xs_hi))
    ||| (y == sy + rs - 1 && sx <= x < sx + cs && !(edges.bottom is Some && xs_lo <= x <= xs_hi))
    ||| (x == sx && sy <= y < sy + rs && !(edges.left is Some && ys_lo <= y <= ys_hi))
    ||| (x == sx + cs - 1 && sy <= y < sy + rs && !(edges.right is Some && ys_lo <= y <= ys_hi))
}

/// Canvas pixel `(x, y)` belongs to the piece boundary.
pub open spec fn is_boundary(edges: CellEdges, ts: TemplateSet, x: int, y: int) -> bool {
    stamped(edges, ts, x, y) || straight_edge_at(edges, ts, x, y)
}

/// Canvas pixel `(x, y)` is reached by the row scan: rows outside the
/// horizontal connector window, left to right from just inside the nominal
/// left edge, skipping the vertical window columns, stopping at the first
/// boundary pixel of the row.
pub open spec fn scan_interior(edges: CellEdges, ts: TemplateSet, x: int, y: int) -> bool {
    let cs = ts.column_size as int;
    let rs = ts.row_size as int;
    let cw = ts.curve_width as int;
    let m = ts.margin as int;
    let sx = origin_x(edges, m);
    let sy = origin_y(edges, m);
    let w = canvas_w(edges, cs, m);
    let xs_lo = cs / 2 - cw + sx;
    let xs_hi = cs / 2 + cw + sx;
    let ys_lo = rs / 2 - cw + sy;
    let ys_hi = rs / 2 + cw + sy;
    &&& sy <= y < sy + rs
    &&& !(ys_lo <= y <= ys_hi)
    &&& sx + 1 <= x < w
    &&& !(xs_lo <= x <= xs_hi)
    &&& !is_boundary(edges, ts, x, y)
    &&& forall|t: int|
        sx + 1 <= t < x && !(xs_lo <= t <= xs_hi) ==> !(#[trigger] is_boundary(edges, ts, t, y))
}

/// Canvas pixel `(x, y)` is reached by the downward window scan.
pub open spec fn win_down(edges: CellEdges, ts: TemplateSet, x: int, y: int) -> bool {
    let cs = ts.column_size as int;
    let rs = ts.row_size as int;
    let cw = ts.curve_width as int;
    let m = ts.margin as int;
    let sx = origin_x(edges, m);
    let sy = origin_y(edges, m);
    let h = canvas_h(edges, rs, m);
    let xs_lo = cs / 2 - cw + sx;
    let xs_hi = cs / 2 + cw + sx;
    let ys_lo = rs / 2 - cw + sy;
    &&& xs_lo <= x <= xs_hi
    &&& ys_lo <= y < h
    &&& forall|t: int| ys_lo <= t <= y ==> !(#[trigger] is_boundary(edges, ts, x, t))
}

/// Canvas pixel `(x, y)` is reached by the upward window scan.
pub open spec fn win_up(edges: CellEdges, ts: TemplateSet, x: int, y: int) -> bool {
    let cs = ts.column_size as int;
    let rs = ts.row_size as int;
    let cw = ts.curve_width as int;
    let m = ts.margin as int;
    let sx = origin_x(edges, m);
    let sy = origin_y(edges, m);
    let xs_lo = cs / 2 - cw + sx;
    let xs_hi = cs / 2 + cw + sx;
    let ys_lo = rs / 2 - cw + sy;
    &&& xs_lo <= x <= xs_hi
    &&& 0 <= y <= ys_lo
    &&& forall|t: int| y <= t <= ys_lo ==> !(#[trigger] is_boundary(edges, ts, x, t))
}

/// Canvas pixel `(x, y)` is reached by the rightward window scan.
pub open spec fn win_right(edges: CellEdges, ts: TemplateSet, x: int, y: int) -> bool {
    let cs = ts.column_size as int;
    let rs = ts.row_size as int;
    let cw = ts.curve_width as int;
    let m = ts.margin as int;
    let sx = origin_x(edges, m);
    let sy = origin_y(edges, m);
    let w = canvas_w(edges, cs, m);
    let xs_lo = cs / 2 - cw + sx;
    let ys_lo = rs / 2 - cw + sy;
    let ys_hi = rs / 2 + cw + sy;
    &&& ys_lo <= y <= ys_hi
    &&& xs_lo <= x < w
    &&& forall|t: int| xs_lo <= t <= x ==> !(#[trigger] is_boundary(edges, ts, t, y))
}

/// Canvas pixel `(x, y)` is reached by the leftward window scan.
pub open spec fn win_left(edges: CellEdges, ts: TemplateSet, x: int, y: int) -> bool {
    let cs = ts.column_size as int;
    let rs = ts.row_size as int;
    let cw = ts.curve_width as int;
    let m = ts.margin as int;
    let sx = origin_x(edges, m);
    let sy = origin_y(edges, m);
    let xs_lo = cs / 2 - cw + sx;
    let ys_lo = rs / 2 - cw + sy;
    let ys_hi = rs / 2 + cw + sy;
    &&& ys_lo <= y <= ys_hi
    &&& 0 <= x <= xs_lo
    &&& forall|t: int| x <= t <= xs_lo ==> !(#[trigger] is_boundary(edges, ts, t, y))
}

/// Canvas pixel `(x, y)` is reached by one of the four directional window
/// scans that recover the connector interiors the row scan skipped.
pub open spec fn window_interior(edges: CellEdges, ts: TemplateSet, x: int, y: int) -> bool {
    ||| win_down(edges, ts, x, y)
    ||| win_up(edges, ts, x, y)
    ||| win_right(edges, ts, x, y)
    ||| win_left(edges, ts, x, y)
}

/// Canvas pixel `(x, y)` belongs to the piece silhouette.
pub open spec fn is_piece(edges: CellEdges, ts: TemplateSet, x: int, y: int) -> bool {
    is_boundary(edges, ts, x, y) || scan_interior(edges, ts, x, y) || window_interior(
        edges,
        ts,
        x,
        y,
    )
}

/// Channel `c` of output pixel `(x, y)` of the piece for cell `(gx, gy)`:
/// a fully opaque copy of the matching source pixel on the silhouette, where
/// the source has such a pixel, and fully transparent everywhere else.
pub open spec fn out_channel(
    edges: CellEdges,
    ts: TemplateSet,
    src: SourceImage,
    gx: int,
    gy: int,
    x: int,
    y: int,
    c: int,
) -> u8 {
    let m = ts.margin as int;
    let sx = origin_x(edges, m);
    let sy = origin_y(edges, m);
    let src_x = gx * (ts.column_size as int) + x - sx;
    let src_y = gy * (ts.row_size as int) + y - sy;
    if is_piece(edges, ts, x, y) && 0 <= src_x < src.width && 0 <= src_y < src.height {
        if c < 3 {
            src.channel(src_x, src_y, c)
        } else {
            255u8
        }
    } else {
        0u8
    }
}

/// Tag value of the canvas once boundary curves and straight edges are
/// painted onto a blank canvas.
pub open spec fn bnd_stage(edges: CellEdges, ts: TemplateSet, x: int, y: int) -> PixelTag {
    if is_boundary(edges, ts, x, y) {
        PixelTag::Boundary
    } else {
        PixelTag::Background
    }
}

/// Tag value of the finished canvas, after the row scan and the four window
/// scans.
pub open spec fn final_stage(edges: CellEdges, ts: TemplateSet, x: int, y: int) -> PixelTag {
    if scan_interior(edges, ts, x, y) || window_interior(edges, ts, x, y) {
        PixelTag::Interior
    } else {
        bnd_stage(edges, ts, x, y)
    }
}

fn new_grid(width: u32, height: u32) -> (g: TagGrid)
    requires
        (width as int) * (height as int) <= usize::MAX,
    ensures
        g.width == width,
        g.height == height,
        g.wf(),
        forall|x: int, y: int|
            0 <= x < width && 0 <= y < height ==> #[trigger] g.tag(x, y) == PixelTag::Background,
{
    proof {
        assert((width as int) * (height as int) >= 0) by (nonlinear_arith)
            requires
                0 <= width,
                0 <= height,
        ;
    }
    let n: usize = (width as usize) * (height as usize);
    let mut tags: Vec<PixelTag> = Vec::new();
    let mut i: usize = 0;
    while i < n
        invariant
            i <= n,
            tags@.len() == i,
            forall|j: int| 0 <= j < i ==> tags@[j] == PixelTag::Background,
        decreases n - i,
    {
        tags.push(PixelTag::Background);
        i += 1;
    }
    let g = TagGrid { width, height, tags };
    proof {
        assert forall|x: int, y: int| 0 <= x < width && 0 <= y < height implies #[trigger] g.tag(
            x,
            y,
        ) == PixelTag::Background by {
            lemma_grid_index_bounds(width as int, height as int, x, y);
        }
    }
    g
}

/// Stamps one template's points onto the canvas at offset `(dx, dy)`,
/// skipping points that would fall outside the canvas.
fn stamp_template(grid: &mut TagGrid, tpl: &CurveTemplate, dx: u32, dy: u32)
    requires
        old(grid).wf(),
    ensures
        final(grid).wf(),
        final(grid).width == old(grid).width,
        final(grid).height == old(grid).height,
        forall|x: int, y: int|
            0 <= x < old(grid).width && 0 <= y < old(grid).height ==> #[trigger] final(grid).tag(
                x,
                y,
            ) == (if covered(tpl.points@, dx as int, dy as int, x, y) {
                PixelTag::Boundary
            } else {
                old(grid).tag(x, y)
            }),
{
    let w = grid.width;
    let h = grid.height;
    let ghost pts = tpl.points@;
    let n = tpl.points.len();
    let mut i: usize = 0;
    while i < n
        invariant
            i <= n,
            n == pts.len(),
            pts == tpl.points@,
            grid.wf(),
            grid.width == w,
            grid.height == h,
            forall|x: int, y: int|
                0 <= x < w && 0 <= y < h ==> #[trigger] grid.tag(x, y) == (if covered(
                    pts.take(i as int),
                    dx as int,
                    dy as int,
                    x,
                    y,
                ) {
                    PixelTag::Boundary
                } else {
                    old(grid).tag(x, y)
                }),
        decreases n - i,
    {
        let p = tpl.points[i];
        let px: u64 = (p.x as u64) + (dx as u64);
        let py: u64 = (p.y as u64) + (dy as u64);
        if px < (w as u64) && py < (h as u64) {
            let cap: usize = grid.tags.len();
            proof {
                lemma_grid_index_bounds(w as int, h as int, px as int, py as int);
                assert(cap == (w as int) * (h as int));
            }
            let idx: usize = (py as usize) * (w as usize) + (px as usize);
            grid.tags.set(idx, PixelTag::Boundary);
        }
        i += 1;
        proof {
            assert forall|x: int, y: int| 0 <= x < w && 0 <= y < h implies #[trigger] grid.tag(x, y)
                == (if covered(pts.take(i as int), dx as int, dy as int, x, y) {
                PixelTag::Boundary
            } else {
                old(grid).tag(x, y)
            }) by {
                lemma_grid_index_bounds(w as int, h as int, x, y);
                let prev = pts.take(i - 1);
                let cur = pts.take(i as int);
                assert(cur[i - 1] == pts[i - 1]);
                assert(forall|j: int| 0 <= j < i - 1 ==> cur[j] == prev[j]);
                if covered(prev, dx as int, dy as int, x, y) {
                    let j = choose|j: int|
                        0 <= j < prev.len() && (#[trigger] prev[j]).x + dx == x && prev[j].y + dy
                            == y;
                    assert(cur[j] == prev[j]);
                    assert(covered(cur, dx as int, dy as int, x, y));
                } else if pts[i - 1].x + dx == x && pts[i - 1].y + dy == y {
                    assert(covered(cur, dx as int, dy as int, x, y));
                    if x < old(grid).width && y < old(grid).height {
                        lemma_grid_index_injective(w as int, x, y, x, y);
                    }
                } else {
                    if covered(cur, dx as int, dy as int, x, y) {
                        let j = choose|j: int|
                            0 <= j < cur.len() && (#[trigger] cur[j]).x + dx == x && cur[j].y + dy
                                == y;
                        if j < i - 1 {
                            assert(prev[j] == cur[j]);
                            assert(covered(prev, dx as int, dy as int, x, y));
                        }
                    }
                    if grid.tag(x, y) != old(grid).tag(x, y) {
                        lemma_grid_index_injective(
                            w as int,
                            x,
                            y,
                            pts[i - 1].x + dx,
                            pts[i - 1].y + dy,
                        );
                    }
                }
            }
        }
    }
    proof {
        assert(pts.take(n as int) == pts);
    }
}

/// `straight_edge_at`, restricted to the horizontal rows painted for
/// `x < hcut` and the vertical columns painted for `y < vcut`.
pub open spec fn edge_partial(
    edges: CellEdges,
    ts: TemplateSet,
    x: int,
    y: int,
    hcut: int,
    vcut: int,
) -> bool {
    let cs = ts.column_size as int;
    let rs = ts.row_size as int;
    let cw = ts.curve_width as int;
    let m = ts.margin as int;
    let sx = origin_x(edges, m);
    let sy = origin_y(edges, m);
    let xs_lo = cs / 2 - cw + sx;
    let xs_hi = cs / 2 + cw + sx;
    let ys_lo = rs / 2 - cw + sy;
    let ys_hi = rs / 2 + cw + sy;
    ||| (y == sy && sx <= x < sx + cs && x < hcut && !(edges.top is Some && xs_lo <= x <= xs_hi))
    ||| (y == sy + rs - 1 && sx <= x < sx + cs && x < hcut && !(edges.bottom is Some && xs_lo <= x
        <= xs_hi))
    ||| (x == sx && sy <= y < sy + rs && y < vcut && !(edges.left is Some && ys_lo <= y <= ys_hi))
    ||| (x == sx + cs - 1 && sy <= y < sy + rs && y < vcut && !(edges.right is Some && ys_lo <= y
        <= ys_hi))
}

/// Stamps every labelled side's template and paints the four straight edges,
/// leaving exactly the boundary pixels marked on a blank canvas.
#[verifier::rlimit(100)]
fn paint_boundary(grid: &mut TagGrid, edges: &CellEdges, ts: &TemplateSet)
    requires
        old(grid).wf(),
        ts.wf(),
        old(grid).width as int == canvas_w(*edges, ts.column_size as int, ts.margin as int),
        old(grid).height as int == canvas_h(*edges, ts.row_size as int, ts.margin as int),
        forall|x: int, y: int|
            0 <= x < old(grid).width && 0 <= y < old(grid).height ==> #[trigger] old(grid).tag(x, y)
                == PixelTag::Background,
    ensures
        final(grid).wf(),
        final(grid).width == old(grid).width,
        final(grid).height == old(grid).height,
        forall|x: int, y: int|
            0 <= x < old(grid).width && 0 <= y < old(grid).height ==> #[trigger] final(grid).tag(
                x,
                y,
            ) == bnd_stage(*edges, *ts, x, y),
{
    let m = ts.margin;
    let cs = ts.column_size;
    let rs = ts.row_size;
    let cw = ts.curve_width;
    let w = grid.width;
    let h = grid.height;
    let sx: u32 = match edges.left {
        Some(Polarity::Tab) => m,
        _ => 0,
    };
    let sy: u32 = match edges.top {
        Some(Polarity::Tab) => m,
        _ => 0,
    };
    match edges.top {
        Some(Polarity::Recess) => stamp_template(grid, &ts.top_in, sx, sy),
        Some(Polarity::Tab) => stamp_template(grid, &ts.top_out, sx, 0),
        None => (),
    }
    match edges.bottom {
        Some(Polarity::Recess) => stamp_template(grid, &ts.bottom_in, sx, sy),
        Some(Polarity::Tab) => stamp_template(grid, &ts.bottom_out, sx, sy),
        None => (),
    }
    match edges.left {
        Some(Polarity::Recess) => stamp_template(grid, &ts.left_in, sx, sy),
        Some(Polarity::Tab) => stamp_template(grid, &ts.left_out, 0, sy),
        None => (),
    }
    match edges.right {
        Some(Polarity::Recess) => stamp_template(grid, &ts.right_in, sx, sy),
        Some(Polarity::Tab) => stamp_template(grid, &ts.right_out, sx, sy),
        None => (),
    }
    proof {
        assert forall|x: int, y: int| 0 <= x < w && 0 <= y < h implies #[trigger] grid.tag(x, y)
            == (if stamped(*edges, *ts, x, y) {
            PixelTag::Boundary
        } else {
            PixelTag::Background
        }) by {}
    }
    let ghost mid = *grid;
    let has_top = match edges.top {
        Some(_) => true,
        None => false,
    };
    let has_bottom = match edges.bottom {
        Some(_) => true,
        None => false,
    };
    let has_left = match edges.left {
        Some(_) => true,
        None => false,
    };
    let has_right = match edges.right {
        Some(_) => true,
        None => false,
    };
    let xs_lo: u32 = cs / 2 - cw + sx;
    let xs_hi: u32 = cs / 2 + cw + sx;
    let ys_lo: u32 = rs / 2 - cw + sy;
    let ys_hi: u32 = rs / 2 + cw + sy;
    let cap: usize = grid.tags.len();
    proof {
        assert(cap == (w as int) * (h as int));
    }
    let mut xx: u32 = sx;
    while xx < sx + cs
        invariant
            grid.wf(),
            grid.width == w,
            grid.height == h,
            ts.wf(),
            cap == (w as int) * (h as int),
            cs == ts.column_size,
            rs == ts.row_size,
            cw == ts.curve_width,
            m == ts.margin,
            sx == origin_x(*edges, m as int),
            sy == origin_y(*edges, m as int),
            w as int == canvas_w(*edges, cs as int, m as int),
            h as int == canvas_h(*edges, rs as int, m as int),
            xs_lo as int == cs as int / 2 - cw as int + sx as int,
            xs_hi as int == cs as int / 2 + cw as int + sx as int,
            ys_lo as int == rs as int / 2 - cw as int + sy as int,
            ys_hi as int == rs as int / 2 + cw as int + sy as int,
            has_top == edges.top is Some,
            has_bottom == edges.bottom is Some,
            has_left == edges.left is Some,
            has_right == edges.right is Some,
            sx <= xx <= sx + cs,
            sx + cs <= w,
            sy + rs <= h,
            forall|x: int, y: int|
                0 <= x < w && 0 <= y < h ==> #[trigger] grid.tag(x, y) == (if stamped(
                    *edges,
                    *ts,
                    x,
                    y,
                ) || edge_partial(*edges, *ts, x, y, xx as int, sy as int) {
                    PixelTag::Boundary
                } else {
                    PixelTag::Background
                }),
        decreases sx + cs - xx,
    {
        let ghost entry = *grid;
        if !(has_top && xs_lo <= xx && xx <= xs_hi) {
            proof {
                lemma_grid_index_bounds(w as int, h as int, xx as int, sy as int);
            }
            let idx: usize = (sy as usize) * (w as usize) + (xx as usize);
            grid.tags.set(idx, PixelTag::Boundary);
        }
        if !(has_bottom && xs_lo <= xx && xx <= xs_hi) {
            proof {
                lemma_grid_index_bounds(w as int, h as int, xx as int, sy as int + rs as int - 1);
            }
            let idx: usize = ((sy + rs - 1) as usize) * (w as usize) + (xx as usize);
            grid.tags.set(idx, PixelTag::Boundary);
        }
        xx += 1;
        proof {
            assert forall|x: int, y: int| 0 <= x < w && 0 <= y < h implies #[trigger] grid.tag(x, y)
                == (if stamped(*edges, *ts, x, y) || edge_partial(
                *edges,
                *ts,
                x,
                y,
                xx as int,
                sy as int,
            ) {
                PixelTag::Boundary
            } else {
                PixelTag::Background
            }) by {
                lemma_grid_index_bounds(w as int, h as int, x, y);
                assert(entry.tag(x, y) == (if stamped(*edges, *ts, x, y) || edge_partial(
                    *edges,
                    *ts,
                    x,
                    y,
                    xx - 1,
                    sy as int,
                ) {
                    PixelTag::Boundary
                } else {
                    PixelTag::Background
                }));
                if grid_index(w as int, x, y) == grid_index(w as int, xx - 1, sy as int) {
                    lemma_grid_index_injective(w as int, x, y, xx - 1, sy as int);
                }
                if grid_index(w as int, x, y) == grid_index(
                    w as int,
                    xx - 1,
                    sy as int + rs as int - 1,
                ) {
                    lemma_grid_index_injective(w as int, x, y, xx - 1, sy as int + rs as int - 1);
                }
            }
        }
    }
    let mut yy: u32 = sy;
    while yy < sy + rs
        invariant
            grid.wf(),
            grid.width == w,
            grid.height == h,
            ts.wf(),
            cap == (w as int) * (h as int),
            cs == ts.column_size,
            rs == ts.row_size,
            cw == ts.curve_width,
            m == ts.margin,
            sx == origin_x(*edges, m as int),
            sy == origin_y(*edges, m as int),
            w as int == canvas_w(*edges, cs as int, m as int),
            h as int == canvas_h(*edges, rs as int, m as int),
            xs_lo as int == cs as int / 2 - cw as int + sx as int,
            xs_hi as int == cs as int / 2 + cw as int + sx as int,
            ys_lo as int == rs as int / 2 - cw as int + sy as int,
            ys_hi as int == rs as int / 2 + cw as int + sy as int,
            has_top == edges.top is Some,
            has_bottom == edges.bottom is Some,
            has_left == edges.left is Some,
            has_right == edges.right is Some,
            sy <= yy <= sy + rs,
            sx + cs <= w,
            sy + rs <= h,
            forall|x: int, y: int|
                0 <= x < w && 0 <= y < h ==> #[trigger] grid.tag(x, y) == (if stamped(
                    *edges,
                    *ts,
                    x,
                    y,
                ) || edge_partial(*edges, *ts, x, y, sx as int + cs as int, yy as int) {
                    PixelTag::Boundary
                } else {
                    PixelTag::Background
                }),
        decreases sy + rs - yy,
    {
        let ghost entry = *grid;
        if !(has_left && ys_lo <= yy && yy <= ys_hi) {
            proof {
                lemma_grid_index_bounds(w as int, h as int, sx as int, yy as int);
            }
            let idx: usize = (yy as usize) * (w as usize) + (sx as usize);
            grid.tags.set(idx, PixelTag::Boundary);
        }
        if !(has_right && ys_lo <= yy && yy <= ys_hi) {
            proof {
                lemma_grid_index_bounds(w as int, h as int, sx as int + cs as int - 1, yy as int);
            }
            let idx: usize = (yy as usize) * (w as usize) + ((sx + cs - 1) as usize);
            grid.tags.set(idx, PixelTag::Boundary);
        }
        yy += 1;
        proof {
            assert forall|x: int, y: int| 0 <= x < w && 0 <= y < h implies #[trigger] grid.tag(x, y)
                == (if stamped(*edges, *ts, x, y) || edge_partial(
                *edges,
                *ts,
                x,
                y,
                sx as int + cs as int,
                yy as int,
            ) {
                PixelTag::Boundary
            } else {
                PixelTag::Background
            }) by {
                lemma_grid_index_bounds(w as int, h as int, x, y);
                assert(entry.tag(x, y) == (if stamped(*edges, *ts, x, y) || edge_partial(
                    *edges,
                    *ts,
                    x,
                    y,
                    sx as int + cs as int,
                    yy - 1,
                ) {
                    PixelTag::Boundary
                } else {
                    PixelTag::Background
                }));
                if grid_index(w as int, x, y) == grid_index(w as int, sx as int, yy - 1) {
                    lemma_grid_index_injective(w as int, x, y, sx as int, yy - 1);
                }
                if grid_index(w as int, x, y) == grid_index(
                    w as int,
                    sx as int + cs as int - 1,
                    yy - 1,
                ) {
                    lemma_grid_index_injective(w as int, x, y, sx as int + cs as int - 1, yy - 1);
                }
            }
        }
    }
    proof {
        assert forall|x: int, y: int| 0 <= x < w && 0 <= y < h implies #[trigger] grid.tag(x, y)
            == bnd_stage(*edges, *ts, x, y) by {}
    }
}

/// Marks the interior pixels that the row-major scan reaches.
#[verifier::rlimit(100)]
fn scan_fill(grid: &mut TagGrid, edges: &CellEdges, ts: &TemplateSet)
    requires
        old(grid).wf(),
        ts.wf(),
        old(grid).width as int == canvas_w(*edges, ts.column_size as int, ts.margin as int),
        old(grid).height as int == canvas_h(*edges, ts.row_size as int, ts.margin as int),
        forall|x: int, y: int|
            0 <= x < old(grid).width && 0 <= y < old(grid).height ==> #[trigger] old(grid).tag(x, y)
                == bnd_stage(*edges, *ts, x, y),
    ensures
        final(grid).wf(),
        final(grid).width == old(grid).width,
        final(grid).height == old(grid).height,
        forall|x: int, y: int|
            0 <= x < old(grid).width && 0 <= y < old(grid).height ==> #[trigger] final(grid).tag(
                x,
                y,
            ) == (if scan_interior(*edges, *ts, x, y) {
                PixelTag::Interior
            } else {
                bnd_stage(*edges, *ts, x, y)
            }),
{
    let m = ts.margin;
    let cs = ts.column_size;
    let rs = ts.row_size;
    let cw = ts.curve_width;
    let w = grid.width;
    let h = grid.height;
    let sx: u32 = match edges.left {
        Some(Polarity::Tab) => m,
        _ => 0,
    };
    let sy: u32 = match edges.top {
        Some(Polarity::Tab) => m,
        _ => 0,
    };
    let xs_lo: u32 = cs / 2 - cw + sx;
    let xs_hi: u32 = cs / 2 + cw + sx;
    let ys_lo: u32 = rs / 2 - cw + sy;
    let ys_hi: u32 = rs / 2 + cw + sy;
    let cap: usize = grid.tags.len();
    proof {
        assert(cap == (w as int) * (h as int));
    }
    let mut yy: u32 = sy;
    while yy < sy + rs
        invariant
            grid.wf(),
            grid.width == w,
            grid.height == h,
            ts.wf(),
            cap == (w as int) * (h as int),
            cs == ts.column_size,
            rs == ts.row_size,
            cw == ts.curve_width,
            m == ts.margin,
            sx == origin_x(*edges, m as int),
            sy == origin_y(*edges, m as int),
            w as int == canvas_w(*edges, cs as int, m as int),
            h as int == canvas_h(*edges, rs as int, m as int),
            xs_lo as int == cs as int / 2 - cw as int + sx as int,
            xs_hi as int == cs as int / 2 + cw as int + sx as int,
            ys_lo as int == rs as int / 2 - cw as int + sy as int,
            ys_hi as int == rs as int / 2 + cw as int + sy as int,
            sy <= yy <= sy + rs,
            sx + cs <= w,
            sy + rs <= h,
            forall|x: int, y: int|
                0 <= x < w && 0 <= y < h ==> #[trigger] grid.tag(x, y) == (if scan_interior(
                    *edges,
                    *ts,
                    x,
                    y,
                ) && y < yy {
                    PixelTag::Interior
                } else {
                    bnd_stage(*edges, *ts, x, y)
                }),
        decreases sy + rs - yy,
    {
        if !(ys_lo <= yy && yy <= ys_hi) {
            let mut xx: u32 = sx + 1;
            loop
                invariant_except_break
                    grid.wf(),
                    grid.width == w,
                    grid.height == h,
                    ts.wf(),
                    cap == (w as int) * (h as int),
                    cs == ts.column_size,
                    rs == ts.row_size,
                    cw == ts.curve_width,
                    m == ts.margin,
                    sx == origin_x(*edges, m as int),
                    sy == origin_y(*edges, m as int),
                    w as int == canvas_w(*edges, cs as int, m as int),
                    h as int == canvas_h(*edges, rs as int, m as int),
                    xs_lo as int == cs as int / 2 - cw as int + sx as int,
                    xs_hi as int == cs as int / 2 + cw as int + sx as int,
                    ys_lo as int == rs as int / 2 - cw as int + sy as int,
                    ys_hi as int == rs as int / 2 + cw as int + sy as int,
                    sy <= yy < sy + rs,
                    !(ys_lo <= yy <= ys_hi),
                    sx + cs <= w,
                    sy + rs <= h,
                    sx + 1 <= xx <= w,
                    forall|t: int|
                        sx + 1 <= t < xx && !(xs_lo as int <= t <= xs_hi as int) ==> !(
                        #[trigger] is_boundary(*edges, *ts, t, yy as int)),
                    forall|x: int, y: int|
                        0 <= x < w && 0 <= y < h ==> #[trigger] grid.tag(x, y) == (if scan_interior(
                            *edges,
                            *ts,
                            x,
                            y,
                        ) && (y < yy || (y == yy && x < xx)) {
                            PixelTag::Interior
                        } else {
                            bnd_stage(*edges, *ts, x, y)
                        }),
                ensures
                    grid.wf(),
                    grid.width == w,
                    grid.height == h,
                    forall|x: int, y: int|
                        0 <= x < w && 0 <= y < h ==> #[trigger] grid.tag(x, y) == (if scan_interior(
                            *edges,
                            *ts,
                            x,
                            y,
                        ) && y <= yy {
                            PixelTag::Interior
                        } else {
                            bnd_stage(*edges, *ts, x, y)
                        }),
                decreases w - xx,
            {
                if xx >= w {
                    break ;
                }
                if xs_lo <= xx && xx <= xs_hi {
                    xx += 1;
                    continue ;
                }
                proof {
                    lemma_grid_index_bounds(w as int, h as int, xx as int, yy as int);
                }
                let idx: usize = (yy as usize) * (w as usize) + (xx as usize);
                let t = grid.tags[idx];
                proof {
                    assert(t == grid.tag(xx as int, yy as int));
                    assert(grid.tag(xx as int, yy as int) == bnd_stage(
                        *edges,
                        *ts,
                        xx as int,
                        yy as int,
                    ));
                }
                if t == PixelTag::Boundary {
                    proof {
                        assert(is_boundary(*edges, *ts, xx as int, yy as int));
                        assert forall|x: int, y: int| 0 <= x < w && 0 <= y < h implies #[trigger] grid.tag(
                            x,
                            y,
                        ) == (if scan_interior(*edges, *ts, x, y) && y <= yy {
                            PixelTag::Interior
                        } else {
                            bnd_stage(*edges, *ts, x, y)
                        }) by {
                            if y == yy as int && x >= xx && scan_interior(*edges, *ts, x, y) {
                                assert(!is_boundary(*edges, *ts, xx as int, yy as int));
                            }
                        }
                    }
                    break ;
                }
                proof {
                    assert(!is_boundary(*edges, *ts, xx as int, yy as int));
                    assert(scan_interior(*edges, *ts, xx as int, yy as int));
                }
                let ghost entry = *grid;
                grid.tags.set(idx, PixelTag::Interior);
                xx += 1;
                proof {
                    assert forall|x: int, y: int| 0 <= x < w && 0 <= y < h implies #[trigger] grid.tag(
                        x,
                        y,
                    ) == (if scan_interior(*edges, *ts, x, y) && (y < yy || (y == yy && x < xx)) {
                        PixelTag::Interior
                    } else {
                        bnd_stage(*edges, *ts, x, y)
                    }) by {
                        lemma_grid_index_bounds(w as int, h as int, x, y);
                        assert(entry.tag(x, y) == (if scan_interior(*edges, *ts, x, y) && (y < yy
                            || (y == yy && x < xx - 1)) {
                            PixelTag::Interior
                        } else {
                            bnd_stage(*edges, *ts, x, y)
                        }));
                        if grid_index(w as int, x, y) == grid_index(w as int, xx - 1, yy as int) {
                            lemma_grid_index_injective(w as int, x, y, xx - 1, yy as int);
                        }
                    }
                }
            }
        }
        yy += 1;
    }
    proof {
        assert forall|x: int, y: int| 0 <= x < w && 0 <= y < h implies #[trigger] grid.tag(x, y)
            == (if scan_interior(*edges, *ts, x, y) {
            PixelTag::Interior
        } else {
            bnd_stage(*edges, *ts, x, y)
        }) by {}
    }
}

/// Marks the connector-window interiors by the four directional scans.
#[verifier::rlimit(100)]
fn fill_windows(grid: &mut TagGrid, edges: &CellEdges, ts: &TemplateSet)
    requires
        old(grid).wf(),
        ts.wf(),
        old(grid).width as int == canvas_w(*edges, ts.column_size as int, ts.margin as int),
        old(grid).height as int == canvas_h(*edges, ts.row_size as int, ts.margin as int),
        forall|x: int, y: int|
            0 <= x < old(grid).width && 0 <= y < old(grid).height ==> #[trigger] old(grid).tag(x, y)
                == (if scan_interior(*edges, *ts, x, y) {
                PixelTag::Interior
            } else {
                bnd_stage(*edges, *ts, x, y)
            }),
    ensures
        final(grid).wf(),
        final(grid).width == old(grid).width,
        final(grid).height == old(grid).height,
        forall|x: int, y: int|
            0 <= x < old(grid).width && 0 <= y < old(grid).height ==> #[trigger] final(grid).tag(
                x,
                y,
            ) == final_stage(*edges, *ts, x, y),
{
    let m = ts.margin;
    let cs = ts.column_size;
    let rs = ts.row_size;
    let cw = ts.curve_width;
    let w = grid.width;
    let h = grid.height;
    let sx: u32 = match edges.left {
        Some(Polarity::Tab) => m,
        _ => 0,
    };
    let sy: u32 = match edges.top {
        Some(Polarity::Tab) => m,
        _ => 0,
    };
    let xs_lo: u32 = cs / 2 - cw + sx;
    let xs_hi: u32 = cs / 2 + cw + sx;
    let ys_lo: u32 = rs / 2 - cw + sy;
    let ys_hi: u32 = rs / 2 + cw + sy;
    let cap: usize = grid.tags.len();
    proof {
        assert(cap == (w as int) * (h as int));
    }
    let mut xc: u32 = xs_lo;
    while xc <= xs_hi
        invariant
            grid.wf(),
            grid.width == w,
            grid.height == h,
            ts.wf(),
            cap == (w as int) * (h as int),
            cs == ts.column_size,
            rs == ts.row_size,
            cw == ts.curve_width,
            m == ts.margin,
            sx == origin_x(*edges, m as int),
            sy == origin_y(*edges, m as int),
            w as int == canvas_w(*edges, cs as int, m as int),
            h as int == canvas_h(*edges, rs as int, m as int),
            xs_lo as int == cs as int / 2 - cw as int + sx as int,
            xs_hi as int == cs as int / 2 + cw as int + sx as int,
            ys_lo as int == rs as int / 2 - cw as int + sy as int,
            ys_hi as int == rs as int / 2 + cw as int + sy as int,
            sx + cs <= w,
            sy + rs <= h,
            xs_hi < w,
            ys_hi < h,
            xs_lo <= xc <= xs_hi + 1,
            forall|x: int, y: int|
                0 <= x < w && 0 <= y < h ==> #[trigger] grid.tag(x, y) == (if (scan_interior(*edges, *ts, x, y)) || (win_down(*edges, *ts, x, y) && x < xc) {
                    PixelTag::Interior
                } else {
                    bnd_stage(*edges, *ts, x, y)
                }),
        decreases xs_hi + 1 - xc,
    {
            let mut yc: u32 = ys_lo;
            loop
                invariant_except_break
                    grid.wf(),
                    grid.width == w,
                    grid.height == h,
                    ts.wf(),
                    cap == (w as int) * (h as int),
                    cs == ts.column_size,
                    rs == ts.row_size,
                    cw == ts.curve_width,
                    m == ts.margin,
                    sx == origin_x(*edges, m as int),
                    sy == origin_y(*edges, m as int),
                    w as int == canvas_w(*edges, cs as int, m as int),
                    h as int == canvas_h(*edges, rs as int, m as int),
                    xs_lo as int == cs as int / 2 - cw as int + sx as int,
                    xs_hi as int == cs as int / 2 + cw as int + sx as int,
                    ys_lo as int == rs as int / 2 - cw as int + sy as int,
                    ys_hi as int == rs as int / 2 + cw as int + sy as int,
                    sx + cs <= w,
                    sy + rs <= h,
                    xs_hi < w,
                    ys_hi < h,
                    xs_lo <= xc <= xs_hi,
                    ys_lo <= yc <= h,
                    forall|t: int|
                        ys_lo <= t < yc ==> !(#[trigger] is_boundary(*edges, *ts, xc as int, t)),
                    forall|x: int, y: int|
                        0 <= x < w && 0 <= y < h ==> #[trigger] grid.tag(x, y) == (if (scan_interior(*edges, *ts, x, y)) || (win_down(*edges, *ts, x, y) && (x < xc || (x == xc && y < yc))) {
                            PixelTag::Interior
                        } else {
                            bnd_stage(*edges, *ts, x, y)
                        }),
                ensures
                    grid.wf(),
                    grid.width == w,
                    grid.height == h,
                    forall|x: int, y: int|
                        0 <= x < w && 0 <= y < h ==> #[trigger] grid.tag(x, y) == (if (scan_interior(*edges, *ts, x, y)) || (win_down(*edges, *ts, x, y) && x <= xc) {
                            PixelTag::Interior
                        } else {
                            bnd_stage(*edges, *ts, x, y)
                        }),
                decreases h - yc,
            {
                if yc >= h {
                    break ;
                }
                proof {
                    lemma_grid_index_bounds(w as int, h as int, xc as int, yc as int);
                }
                let idx: usize = (yc as usize) * (w as usize) + (xc as usize);
                let t = grid.tags[idx];
                proof {
                    assert(t == grid.tag(xc as int, yc as int));
                }
                if t == PixelTag::Boundary {
                    proof {
                        assert(is_boundary(*edges, *ts, xc as int, yc as int));
                        assert forall|x: int, y: int| 0 <= x < w && 0 <= y < h implies #[trigger] grid.tag(x, y) == (if (scan_interior(*edges, *ts, x, y)) || (win_down(*edges, *ts, x, y) && x <= xc) {
                            PixelTag::Interior
                        } else {
                            bnd_stage(*edges, *ts, x, y)
                        }) by {
                            if x == xc as int && y >= yc as int && win_down(*edges, *ts, x, y) {
                                assert(!is_boundary(*edges, *ts, xc as int, yc as int));
                            }
                        }
                    }
                    break ;
                }
                proof {
                    assert(!is_boundary(*edges, *ts, xc as int, yc as int));
                    assert(win_down(*edges, *ts, xc as int, yc as int));
                }
                let ghost entry = *grid;
                grid.tags.set(idx, PixelTag::Interior);
                yc += 1;
                proof {
                    assert forall|x: int, y: int| 0 <= x < w && 0 <= y < h implies #[trigger] grid.tag(x, y) == (if (scan_interior(*edges, *ts, x, y)) || (win_down(*edges, *ts, x, y) && (x < xc || (x == xc && y < yc))) {
                        PixelTag::Interior
                    } else {
                        bnd_stage(*edges, *ts, x, y)
                    }) by {
                        lemma_grid_index_bounds(w as int, h as int, x, y);
                        assert(entry.tag(x, y) == grid.tag(x, y) || grid_index(w as int, x, y) == grid_index(w as int, xc as int, (yc - 1) as int));
                        if grid_index(w as int, x, y) == grid_index(w as int, xc as int, (yc - 1) as int) {
                            lemma_grid_index_injective(w as int, x, y, xc as int, (yc - 1) as int);
                        }
                    }
                }
            }
        xc += 1;
    }
    let mut xc: u32 = xs_lo;
    while xc <= xs_hi
        invariant
            grid.wf(),
            grid.width == w,
            grid.height == h,
            ts.wf(),
            cap == (w as int) * (h as int),
            cs == ts.column_size,
            rs == ts.row_size,
            cw == ts.curve_width,
            m == ts.margin,
            sx == origin_x(*edges, m as int),
            sy == origin_y(*edges, m as int),
            w as int == canvas_w(*edges, cs as int, m as int),
            h as int == canvas_h(*edges, rs as int, m as int),
            xs_lo as int == cs as int / 2 - cw as int + sx as int,
            xs_hi as int == cs as int / 2 + cw as int + sx as int,
            ys_lo as int == rs as int / 2 - cw as int + sy as int,
            ys_hi as int == rs as int / 2 + cw as int + sy as int,
            sx + cs <= w,
            sy + rs <= h,
            xs_hi < w,
            ys_hi < h,
            xs_lo <= xc <= xs_hi + 1,
            forall|x: int, y: int|
                0 <= x < w && 0 <= y < h ==> #[trigger] grid.tag(x, y) == (if (scan_interior(*edges, *ts, x, y) || win_down(*edges, *ts, x, y)) || (win_up(*edges, *ts, x, y) && x < xc) {
                    PixelTag::Interior
                } else {
                    bnd_stage(*edges, *ts, x, y)
                }),
        decreases xs_hi + 1 - xc,
    {
            let mut yc: u32 = ys_lo;
            loop
                invariant_except_break
                    grid.wf(),
                    grid.width == w,
                    grid.height == h,
                    ts.wf(),
                    cap == (w as int) * (h as int),
                    cs == ts.column_size,
                    rs == ts.row_size,
                    cw == ts.curve_width,
                    m == ts.margin,
                    sx == origin_x(*edges, m as int),
                    sy == origin_y(*edges, m as int),
                    w as int == canvas_w(*edges, cs as int, m as int),
                    h as int == canvas_h(*edges, rs as int, m as int),
                    xs_lo as int == cs as int / 2 - cw as int + sx as int,
                    xs_hi as int == cs as int / 2 + cw as int + sx as int,
                    ys_lo as int == rs as int / 2 - cw as int + sy as int,
                    ys_hi as int == rs as int / 2 + cw as int + sy as int,
                    sx + cs <= w,
                    sy + rs <= h,
                    xs_hi < w,
                    ys_hi < h,
                    xs_lo <= xc <= xs_hi,
                    0 <= yc <= ys_lo,
                    forall|t: int|
                        yc < t <= ys_lo ==> !(#[trigger] is_boundary(*edges, *ts, xc as int, t)),
                    forall|x: int, y: int|
                        0 <= x < w && 0 <= y < h ==> #[trigger] grid.tag(x, y) == (if (scan_interior(*edges, *ts, x, y) || win_down(*edges, *ts, x, y)) || (win_up(*edges, *ts, x, y) && (x < xc || (x == xc && y > yc))) {
                            PixelTag::Interior
                        } else {
                            bnd_stage(*edges, *ts, x, y)
                        }),
                ensures
                    grid.wf(),
                    grid.width == w,
                    grid.height == h,
                    forall|x: int, y: int|
                        0 <= x < w && 0 <= y < h ==> #[trigger] grid.tag(x, y) == (if (scan_interior(*edges, *ts, x, y) || win_down(*edges, *ts, x, y)) || (win_up(*edges, *ts, x, y) && x <= xc) {
                            PixelTag::Interior
                        } else {
                            bnd_stage(*edges, *ts, x, y)
                        }),
                decreases yc,
            {
                proof {
                    lemma_grid_index_bounds(w as int, h as int, xc as int, yc as int);
                }
                let idx: usize = (yc as usize) * (w as usize) + (xc as usize);
                let t = grid.tags[idx];
                proof {
                    assert(t == grid.tag(xc as int, yc as int));
                }
                if t == PixelTag::Boundary {
                    proof {
                        assert(is_boundary(*edges, *ts, xc as int, yc as int));
                        assert forall|x: int, y: int| 0 <= x < w && 0 <= y < h implies #[trigger] grid.tag(x, y) == (if (scan_interior(*edges, *ts, x, y) || win_down(*edges, *ts, x, y)) || (win_up(*edges, *ts, x, y) && x <= xc) {
                            PixelTag::Interior
                        } else {
                            bnd_stage(*edges, *ts, x, y)
                        }) by {
                            if x == xc as int && y <= yc as int && win_up(*edges, *ts, x, y) {
                                assert(!is_boundary(*edges, *ts, xc as int, yc as int));
                            }
                        }
                    }
                    break ;
                }
                proof {
                    assert(!is_boundary(*edges, *ts, xc as int, yc as int));
                    assert(win_up(*edges, *ts, xc as int, yc as int));
                }
                let ghost entry = *grid;
                grid.tags.set(idx, PixelTag::Interior);
                proof {
                    assert forall|x: int, y: int| 0 <= x < w && 0 <= y < h implies #[trigger] grid.tag(x, y) == (if (scan_interior(*edges, *ts, x, y) || win_down(*edges, *ts, x, y)) || (win_up(*edges, *ts, x, y) && (x < xc || (x == xc && y >= yc))) {
                        PixelTag::Interior
                    } else {
                        bnd_stage(*edges, *ts, x, y)
                    }) by {
                        lemma_grid_index_bounds(w as int, h as int, x, y);
                        assert(entry.tag(x, y) == grid.tag(x, y) || grid_index(w as int, x, y) == grid_index(w as int, xc as int, yc as int));
                        if grid_index(w as int, x, y) == grid_index(w as int, xc as int, yc as int) {
                            lemma_grid_index_injective(w as int, x, y, xc as int, yc as int);
                        }
                    }
                }
                if yc == 0 {
                    break ;
                }
                yc -= 1;
            }
        xc += 1;
    }
    let mut yc: u32 = ys_lo;
    while yc <= ys_hi
        invariant
            grid.wf(),
            grid.width == w,
            grid.height == h,
            ts.wf(),
            cap == (w as int) * (h as int),
            cs == ts.column_size,
            rs == ts.row_size,
            cw == ts.curve_width,
            m == ts.margin,
            sx == origin_x(*edges, m as int),
            sy == origin_y(*edges, m as int),
            w as int == canvas_w(*edges, cs as int, m as int),
            h as int == canvas_h(*edges, rs as int, m as int),
            xs_lo as int == cs as int / 2 - cw as int + sx as int,
            xs_hi as int == cs as int / 2 + cw as int + sx as int,
            ys_lo as int == rs as int / 2 - cw as int + sy as int,
            ys_hi as int == rs as int / 2 + cw as int + sy as int,
            sx + cs <= w,
            sy + rs <= h,
            xs_hi < w,
            ys_hi < h,
            ys_lo <= yc <= ys_hi + 1,
            forall|x: int, y: int|
                0 <= x < w && 0 <= y < h ==> #[trigger] grid.tag(x, y) == (if (scan_interior(*edges, *ts, x, y) || win_down(*edges, *ts, x, y) || win_up(*edges, *ts, x, y)) || (win_right(*edges, *ts, x, y) && y < yc) {
                    PixelTag::Interior
                } else {
                    bnd_stage(*edges, *ts, x, y)
                }),
        decreases ys_hi + 1 - yc,
    {
            let mut xc: u32 = xs_lo;
            loop
                invariant_except_break
                    grid.wf(),
                    grid.width == w,
                    grid.height == h,
                    ts.wf(),
                    cap == (w as int) * (h as int),
                    cs == ts.column_size,
                    rs == ts.row_size,
                    cw == ts.curve_width,
                    m == ts.margin,
                    sx == origin_x(*edges, m as int),
                    sy == origin_y(*edges, m as int),
                    w as int == canvas_w(*edges, cs as int, m as int),
                    h as int == canvas_h(*edges, rs as int, m as int),
                    xs_lo as int == cs as int / 2 - cw as int + sx as int,
                    xs_hi as int == cs as int / 2 + cw as int + sx as int,
                    ys_lo as int == rs as int / 2 - cw as int + sy as int,
                    ys_hi as int == rs as int / 2 + cw as int + sy as int,
                    sx + cs <= w,
                    sy + rs <= h,
                    xs_hi < w,
                    ys_hi < h,
                    ys_lo <= yc <= ys_hi,
                    xs_lo <= xc <= w,
                    forall|t: int|
                        xs_lo <= t < xc ==> !(#[trigger] is_boundary(*edges, *ts, t, yc as int)),
                    forall|x: int, y: int|
                        0 <= x < w && 0 <= y < h ==> #[trigger] grid.tag(x, y) == (if (scan_interior(*edges, *ts, x, y) || win_down(*edges, *ts, x, y) || win_up(*edges, *ts, x, y)) || (win_right(*edges, *ts, x, y) && (y < yc || (y == yc && x < xc))) {
                            PixelTag::Interior
                        } else {
                            bnd_stage(*edges, *ts, x, y)
                        }),
                ensures
                    grid.wf(),
                    grid.width == w,
                    grid.height == h,
                    forall|x: int, y: int|
                        0 <= x < w && 0 <= y < h ==> #[trigger] grid.tag(x, y) == (if (scan_interior(*edges, *ts, x, y) || win_down(*edges, *ts, x, y) || win_up(*edges, *ts, x, y)) || (win_right(*edges, *ts, x, y) && y <= yc) {
                            PixelTag::Interior
                        } else {
                            bnd_stage(*edges, *ts, x, y)
                        }),
                decreases w - xc,
            {
                if xc >= w {
                    break ;
                }
                proof {
                    lemma_grid_index_bounds(w as int, h as int, xc as int, yc as int);
                }
                let idx: usize = (yc as usize) * (w as usize) + (xc as usize);
                let t = grid.tags[idx];
                proof {
                    assert(t == grid.tag(xc as int, yc as int));
                }
                if t == PixelTag::Boundary {
                    proof {
                        assert(is_boundary(*edges, *ts, xc as int, yc as int));
                        assert forall|x: int, y: int| 0 <= x < w && 0 <= y < h implies #[trigger] grid.tag(x, y) == (if (scan_interior(*edges, *ts, x, y) || win_down(*edges, *ts, x, y) || win_up(*edges, *ts, x, y)) || (win_right(*edges, *ts, x, y) && y <= yc) {
                            PixelTag::Interior
                        } else {
                            bnd_stage(*edges, *ts, x, y)
                        }) by {
                            if y == yc as int && x >= xc as int && win_right(*edges, *ts, x, y) {
                                assert(!is_boundary(*edges, *ts, xc as int, yc as int));
                            }
                        }
                    }
                    break ;
                }
                proof {
                    assert(!is_boundary(*edges, *ts, xc as int, yc as int));
                    assert(win_right(*edges, *ts, xc as int, yc as int));
                }
                let ghost entry = *grid;
                grid.tags.set(idx, PixelTag::Interior);
                xc += 1;
                proof {
                    assert forall|x: int, y: int| 0 <= x < w && 0 <= y < h implies #[trigger] grid.tag(x, y) == (if (scan_interior(*edges, *ts, x, y) || win_down(*edges, *ts, x, y) || win_up(*edges, *ts, x, y)) || (win_right(*edges, *ts, x, y) && (y < yc || (y == yc && x < xc))) {
                        PixelTag::Interior
                    } else {
                        bnd_stage(*edges, *ts, x, y)
                    }) by {
                        lemma_grid_index_bounds(w as int, h as int, x, y);
                        assert(entry.tag(x, y) == grid.tag(x, y) || grid_index(w as int, x, y) == grid_index(w as int, (xc - 1) as int, yc as int));
                        if grid_index(w as int, x, y) == grid_index(w as int, (xc - 1) as int, yc as int) {
                            lemma_grid_index_injective(w as int, x, y, (xc - 1) as int, yc as int);
                        }
                    }
                }
            }
        yc += 1;
    }
    let mut yc: u32 = ys_lo;
    while yc <= ys_hi
        invariant
            grid.wf(),
            grid.width == w,
            grid.height == h,
            ts.wf(),
            cap == (w as int) * (h as int),
            cs == ts.column_size,
            rs == ts.row_size,
            cw == ts.curve_width,
            m == ts.margin,
            sx == origin_x(*edges, m as int),
            sy == origin_y(*edges, m as int),
            w as int == canvas_w(*edges, cs as int, m as int),
            h as int == canvas_h(*edges, rs as int, m as int),
            xs_lo as int == cs as int / 2 - cw as int + sx as int,
            xs_hi as int == cs as int / 2 + cw as int + sx as int,
            ys_lo as int == rs as int / 2 - cw as int + sy as int,
            ys_hi as int == rs as int / 2 + cw as int + sy as int,
            sx + cs <= w,
            sy + rs <= h,
            xs_hi < w,
            ys_hi < h,
            ys_lo <= yc <= ys_hi + 1,
            forall|x: int, y: int|
                0 <= x < w && 0 <= y < h ==> #[trigger] grid.tag(x, y) == (if (scan_interior(*edges, *ts, x, y) || win_down(*edges, *ts, x, y) || win_up(*edges, *ts, x, y) || win_right(*edges, *ts, x, y)) || (win_left(*edges, *ts, x, y) && y < yc) {
                    PixelTag::Interior
                } else {
                    bnd_stage(*edges, *ts, x, y)
                }),
        decreases ys_hi + 1 - yc,
    {
            let mut xc: u32 = xs_lo;
            loop
                invariant_except_break
                    grid.wf(),
                    grid.width == w,
                    grid.height == h,
                    ts.wf(),
                    cap == (w as int) * (h as int),
                    cs == ts.column_size,
                    rs == ts.row_size,
                    cw == ts.curve_width,
                    m == ts.margin,
                    sx == origin_x(*edges, m as int),
                    sy == origin_y(*edges, m as int),
                    w as int == canvas_w(*edges, cs as int, m as int),
                    h as int == canvas_h(*edges, rs as int, m as int),
                    xs_lo as int == cs as int / 2 - cw as int + sx as int,
                    xs_hi as int == cs as int / 2 + cw as int + sx as int,
                    ys_lo as int == rs as int / 2 - cw as int + sy as int,
                    ys_hi as int == rs as int / 2 + cw as int + sy as int,
                    sx + cs <= w,
                    sy + rs <= h,
                    xs_hi < w,
                    ys_hi < h,
                    ys_lo <= yc <= ys_hi,
                    0 <= xc <= xs_lo,
                    forall|t: int|
                        xc < t <= xs_lo ==> !(#[trigger] is_boundary(*edges, *ts, t, yc as int)),
                    forall|x: int, y: int|
                        0 <= x < w && 0 <= y < h ==> #[trigger] grid.tag(x, y) == (if (scan_interior(*edges, *ts, x, y) || win_down(*edges, *ts, x, y) || win_up(*edges, *ts, x, y) || win_right(*edges, *ts, x, y)) || (win_left(*edges, *ts, x, y) && (y < yc || (y == yc && x > xc))) {
                            PixelTag::Interior
                        } else {
                            bnd_stage(*edges, *ts, x, y)
                        }),
                ensures
                    grid.wf(),
                    grid.width == w,
                    grid.height == h,
                    forall|x: int, y: int|
                        0 <= x < w && 0 <= y < h ==> #[trigger] grid.tag(x, y) == (if (scan_interior(*edges, *ts, x, y) || win_down(*edges, *ts, x, y) || win_up(*edges, *ts, x, y) || win_right(*edges, *ts, x, y)) || (win_left(*edges, *ts, x, y) && y <= yc) {
                            PixelTag::Interior
                        } else {
                            bnd_stage(*edges, *ts, x, y)
                        }),
                decreases xc,
            {
                proof {
                    lemma_grid_index_bounds(w as int, h as int, xc as int, yc as int);
                }
                let idx: usize = (yc as usize) * (w as usize) + (xc as usize);
                let t = grid.tags[idx];
                proof {
                    assert(t == grid.tag(xc as int, yc as int));
                }
                if t == PixelTag::Boundary {
                    proof {
                        assert(is_boundary(*edges, *ts, xc as int, yc as int));
                        assert forall|x: int, y: int| 0 <= x < w && 0 <= y < h implies #[trigger] grid.tag(x, y) == (if (scan_interior(*edges, *ts, x, y) || win_down(*edges, *ts, x, y) || win_up(*edges, *ts, x, y) || win_right(*edges, *ts, x, y)) || (win_left(*edges, *ts, x, y) && y <= yc) {
                            PixelTag::Interior
                        } else {
                            bnd_stage(*edges, *ts, x, y)
                        }) by {
                            if y == yc as int && x <= xc as int && win_left(*edges, *ts, x, y) {
                                assert(!is_boundary(*edges, *ts, xc as int, yc as int));
                            }
                        }
                    }
                    break ;
                }
                proof {
                    assert(!is_boundary(*edges, *ts, xc as int, yc as int));
                    assert(win_left(*edges, *ts, xc as int, yc as int));
                }
                let ghost entry = *grid;
                grid.tags.set(idx, PixelTag::Interior);
                proof {
                    assert forall|x: int, y: int| 0 <= x < w && 0 <= y < h implies #[trigger] grid.tag(x, y) == (if (scan_interior(*edges, *ts, x, y) || win_down(*edges, *ts, x, y) || win_up(*edges, *ts, x, y) || win_right(*edges, *ts, x, y)) || (win_left(*edges, *ts, x, y) && (y < yc || (y == yc && x >= xc))) {
                        PixelTag::Interior
                    } else {
                        bnd_stage(*edges, *ts, x, y)
                    }) by {
                        lemma_grid_index_bounds(w as int, h as int, x, y);
                        assert(entry.tag(x, y) == grid.tag(x, y) || grid_index(w as int, x, y) == grid_index(w as int, xc as int, yc as int));
                        if grid_index(w as int, x, y) == grid_index(w as int, xc as int, yc as int) {
                            lemma_grid_index_injective(w as int, x, y, xc as int, yc as int);
                        }
                    }
                }
                if xc == 0 {
                    break ;
                }
                xc -= 1;
            }
        yc += 1;
    }
    proof {
        assert forall|x: int, y: int| 0 <= x < w && 0 <= y < h implies #[trigger] grid.tag(x, y)
            == final_stage(*edges, *ts, x, y) by {}
    }
}


/// Byte position of channel `c` of pixel `(x, y)` in an RGBA buffer.
pub open spec fn pix_index(w: int, x: int, y: int, c: int) -> int {
    4 * grid_index(w, x, y) + c
}

/// Copies, for every silhouette pixel whose source coordinate lies inside the
/// source image, that source pixel at full opacity; every other output pixel
/// is fully transparent.
#[verifier::rlimit(100)]
fn copy_pixels(
    grid: &TagGrid,
    edges: &CellEdges,
    ts: &TemplateSet,
    src: &SourceImage,
    gx: u32,
    gy: u32,
) -> (out: Vec<u8>)
    requires
        grid.wf(),
        ts.wf(),
        src.wf(),
        grid.width as int == canvas_w(*edges, ts.column_size as int, ts.margin as int),
        grid.height as int == canvas_h(*edges, ts.row_size as int, ts.margin as int),
        4 * (grid.width as int) * (grid.height as int) <= usize::MAX,
        forall|x: int, y: int|
            0 <= x < grid.width && 0 <= y < grid.height ==> #[trigger] grid.tag(x, y)
                == final_stage(*edges, *ts, x, y),
    ensures
        out@.len() == 4 * (grid.width as int) * (grid.height as int),
        forall|x: int, y: int, c: int|
            0 <= x < grid.width && 0 <= y < grid.height && 0 <= c < 4 ==> out@[#[trigger] pix_index(
                grid.width as int,
                x,
                y,
                c,
            )] == out_channel(*edges, *ts, *src, gx as int, gy as int, x, y, c),
{
    let w = grid.width;
    let h = grid.height;
    let cs = ts.column_size;
    let rs = ts.row_size;
    let m = ts.margin;
    let sx: u32 = match edges.left {
        Some(Polarity::Tab) => m,
        _ => 0,
    };
    let sy: u32 = match edges.top {
        Some(Polarity::Tab) => m,
        _ => 0,
    };
    let scap: usize = src.pixels.len();
    proof {
        assert(scap == 3 * (src.width as int) * (src.height as int));
    }
    let mut out: Vec<u8> = Vec::new();
    let mut yy: u32 = 0;
    while yy < h
        invariant
            grid.wf(),
            ts.wf(),
            src.wf(),
            scap == 3 * (src.width as int) * (src.height as int),
            grid.width == w,
            grid.height == h,
            cs == ts.column_size,
            rs == ts.row_size,
            m == ts.margin,
            sx == origin_x(*edges, m as int),
            sy == origin_y(*edges, m as int),
            4 * (w as int) * (h as int) <= usize::MAX,
            forall|x: int, y: int|
                0 <= x < w && 0 <= y < h ==> #[trigger] grid.tag(x, y) == final_stage(
                    *edges,
                    *ts,
                    x,
                    y,
                ),
            yy <= h,
            out@.len() == 4 * ((yy as int) * (w as int)),
            forall|x: int, y: int, c: int|
                0 <= x < w && 0 <= y < yy && 0 <= c < 4 ==> out@[#[trigger] pix_index(
                    w as int,
                    x,
                    y,
                    c,
                )] == out_channel(*edges, *ts, *src, gx as int, gy as int, x, y, c),
        decreases h - yy,
    {
        let mut xx: u32 = 0;
        while xx < w
            invariant
                grid.wf(),
                ts.wf(),
                src.wf(),
                scap == 3 * (src.width as int) * (src.height as int),
                grid.width == w,
                grid.height == h,
                cs == ts.column_size,
                rs == ts.row_size,
                m == ts.margin,
                sx == origin_x(*edges, m as int),
                sy == origin_y(*edges, m as int),
                4 * (w as int) * (h as int) <= usize::MAX,
                forall|x: int, y: int|
                    0 <= x < w && 0 <= y < h ==> #[trigger] grid.tag(x, y) == final_stage(
                        *edges,
                        *ts,
                        x,
                        y,
                    ),
                yy < h,
                xx <= w,
                out@.len() == 4 * ((yy as int) * (w as int) + (xx as int)),
                forall|x: int, y: int, c: int|
                    0 <= x < w && 0 <= c < 4 && (0 <= y < yy || (y == yy && 0 <= x < xx)) ==> out@[
                        #[trigger] pix_index(w as int, x, y, c)] == out_channel(
                        *edges,
                        *ts,
                        *src,
                        gx as int,
                        gy as int,
                        x,
                        y,
                        c,
                    ),
            decreases w - xx,
        {
            proof {
                lemma_grid_index_bounds(w as int, h as int, xx as int, yy as int);
                assert(4 * ((yy as int) * (w as int) + (xx as int)) + 4 <= 4 * (w as int) * (
                h as int)) by (nonlinear_arith)
                    requires
                        0 <= (xx as int) && (xx as int) < (w as int),
                        0 <= (yy as int) && (yy as int) < (h as int),
                ;
            }
            let idx: usize = (yy as usize) * (w as usize) + (xx as usize);
            let t = grid.tags[idx];
            proof {
                assert(t == grid.tag(xx as int, yy as int));
            }
            let piece = t == PixelTag::Boundary || t == PixelTag::Interior;
            proof {
                assert(piece == is_piece(*edges, *ts, xx as int, yy as int));
                assert((gx as int) * (cs as int) < 0x10000000000000000) by (nonlinear_arith)
                    requires
                        0 <= gx as int <= 0xffffffff,
                        0 <= cs as int <= 0xffffffff,
                ;
                assert((gy as int) * (rs as int) < 0x10000000000000000) by (nonlinear_arith)
                    requires
                        0 <= gy as int <= 0xffffffff,
                        0 <= rs as int <= 0xffffffff,
                ;
            }
            let sxc: i128 = (gx as i128) * (cs as i128) + (xx as i128) - (sx as i128);
            let syc: i128 = (gy as i128) * (rs as i128) + (yy as i128) - (sy as i128);
            if piece && 0 <= sxc && sxc < src.width as i128 && 0 <= syc && syc
                < src.height as i128 {
                proof {
                    lemma_grid_index_bounds(
                        src.width as int,
                        src.height as int,
                        sxc as int,
                        syc as int,
                    );
                    assert(3 * ((syc as int) * (src.width as int) + (sxc as int)) + 3 <= 3 * (
                    src.width as int) * (src.height as int)) by (nonlinear_arith)
                        requires
                            0 <= (sxc as int) && (sxc as int) < (src.width as int),
                            0 <= (syc as int) && (syc as int) < (src.height as int),
                    ;
                }
                let sidx: usize = 3 * ((syc as usize) * (src.width as usize) + (sxc as usize));
                out.push(src.pixels[sidx]);
                out.push(src.pixels[sidx + 1]);
                out.push(src.pixels[sidx + 2]);
                out.push(255);
            } else {
                out.push(0);
                out.push(0);
                out.push(0);
                out.push(0);
            }
            xx += 1;
            proof {
                assert forall|x: int, y: int, c: int|
                    0 <= x < w && 0 <= c < 4 && (0 <= y < yy || (y == yy && 0 <= x
                        < xx)) implies out@[#[trigger] pix_index(w as int, x, y, c)] == out_channel(
                    *edges,
                    *ts,
                    *src,
                    gx as int,
                    gy as int,
                    x,
                    y,
                    c,
                ) by {
                    lemma_grid_index_bounds(w as int, h as int, x, y);
                    if y == yy as int && x == xx - 1 {
                        assert(grid_index(w as int, x, y) == (yy as int) * (w as int) + (
                        xx as int) - 1);
                    } else {
                        assert(grid_index(w as int, x, y) < grid_index(w as int, xx - 1, yy as int))
                            by (nonlinear_arith)
                            requires
                                1 <= (w as int),
                                0 <= x < (w as int),
                                0 <= y,
                                1 <= (xx as int),
                                (y < yy as int || (y == yy as int && x < xx - 1)),
                                grid_index(w as int, x, y) == y * (w as int) + x,
                                grid_index(w as int, xx - 1, yy as int) == (yy as int) * (w as int)
                                    + (xx as int) - 1,
                        ;
                    }
                }
            }
        }
        proof {
            assert(4 * ((yy as int) * (w as int) + (w as int)) == 4 * (((yy as int) + 1) * (
            w as int))) by (nonlinear_arith);
        }
        yy += 1;
    }
    proof {
        assert(4 * ((h as int) * (w as int)) == 4 * (w as int) * (h as int)) by (nonlinear_arith);
    }
    out
}

/// Builds the finished piece for cell `(gx, gy)`: sizes the canvas, stamps
/// the labelled templates, paints the straight edges, floods the interior,
/// and copies the matching source pixels.
pub fn rasterize_cell(
    edges: &CellEdges,
    ts: &TemplateSet,
    src: &SourceImage,
    gx: u32,
    gy: u32,
) -> (r: PieceRaster)
    requires
        ts.wf(),
        src.wf(),
        canvas_w(*edges, ts.column_size as int, ts.margin as int) <= u32::MAX,
        canvas_h(*edges, ts.row_size as int, ts.margin as int) <= u32::MAX,
        4 * canvas_w(*edges, ts.column_size as int, ts.margin as int) * canvas_h(
            *edges,
            ts.row_size as int,
            ts.margin as int,
        ) <= usize::MAX,
    ensures
        r.width as int == canvas_w(*edges, ts.column_size as int, ts.margin as int),
        r.height as int == canvas_h(*edges, ts.row_size as int, ts.margin as int),
        r.pixels@.len() == 4 * (r.width as int) * (r.height as int),
        forall|x: int, y: int, c: int|
            0 <= x < r.width && 0 <= y < r.height && 0 <= c < 4 ==> r.pixels@[#[trigger] pix_index(
                r.width as int,
                x,
                y,
                c,
            )] == out_channel(*edges, *ts, *src, gx as int, gy as int, x, y, c),
{
    let m = ts.margin;
    let mut w: u32 = ts.column_size;
    let mut h: u32 = ts.row_size;
    match edges.left {
        Some(Polarity::Tab) => {
            w += m;
        },
        _ => (),
    }
    match edges.right {
        Some(Polarity::Tab) => {
            w += m;
        },
        _ => (),
    }
    match edges.top {
        Some(Polarity::Tab) => {
            h += m;
        },
        _ => (),
    }
    match edges.bottom {
        Some(Polarity::Tab) => {
            h += m;
        },
        _ => (),
    }
    proof {
        assert((w as int) * (h as int) <= 4 * (w as int) * (h as int)) by (nonlinear_arith)
            requires
                0 <= w as int,
                0 <= h as int,
        ;
    }
    let mut grid = new_grid(w, h);
    paint_boundary(&mut grid, edges, ts);
    scan_fill(&mut grid, edges, ts);
    fill_windows(&mut grid, edges, ts);
    let pixels = copy_pixels(&grid, edges, ts, src, gx, gy);
    PieceRaster { width: w, height: h, pixels }
}

/// Law: rasterization is a function of its inputs alone; two pieces built
/// from the same labels, templates, source image and cell coordinate are
/// pixel-identical.
pub proof fn lemma_rasterize_deterministic(
    edges: CellEdges,
    ts: TemplateSet,
    src: SourceImage,
    gx: int,
    gy: int,
    r1: PieceRaster,
    r2: PieceRaster,
)
    requires
        r1.width as int == canvas_w(edges, ts.column_size as int, ts.margin as int),
        r1.height as int == canvas_h(edges, ts.row_size as int, ts.margin as int),
        r1.pixels@.len() == 4 * (r1.width as int) * (r1.height as int),
        forall|x: int, y: int, c: int|
            0 <= x < r1.width && 0 <= y < r1.height && 0 <= c < 4 ==> r1.pixels@[
                #[trigger] pix_index(r1.width as int, x, y, c)] == out_channel(
                edges,
                ts,
                src,
                gx,
                gy,
                x,
                y,
                c,
            ),
        r2.width as int == canvas_w(edges, ts.column_size as int, ts.margin as int),
        r2.height as int == canvas_h(edges, ts.row_size as int, ts.margin as int),
        r2.pixels@.len() == 4 * (r2.width as int) * (r2.height as int),
        forall|x: int, y: int, c: int|
            0 <= x < r2.width && 0 <= y < r2.height && 0 <= c < 4 ==> r2.pixels@[
                #[trigger] pix_index(r2.width as int, x, y, c)] == out_channel(
                edges,
                ts,
                src,
                gx,
                gy,
                x,
                y,
                c,
            ),
    ensures
        r1.width == r2.width,
        r1.height == r2.height,
        r1.pixels@ == r2.pixels@,
{
    let w = r1.width as int;
    let h = r1.height as int;
    if w >= 1 && h >= 1 {
        assert forall|i: int| 0 <= i < r1.pixels@.len() implies r1.pixels@[i] == r2.pixels@[i] by {
            let c = i % 4;
            let k = i / 4;
            let x = k % w;
            let y = k / w;
            assert(0 <= c < 4 && 0 <= x < w && 0 <= y < h && i == pix_index(w, x, y, c))
                by (nonlinear_arith)
                requires
                    0 <= i < 4 * w * h,
                    1 <= w,
                    1 <= h,
                    c == i % 4,
                    k == i / 4,
                    x == k % w,
                    y == k / w,
                    pix_index(w, x, y, c) == 4 * (y * w + x) + c,
            ;
        }
    } else {
        assert(4 * w * h <= 0) by (nonlinear_arith)
            requires
                0 <= w,
                0 <= h,
                w < 1 || h < 1,
        ;
    }
    assert(r1.pixels@ =~= r2.pixels@);
}

/// Law: every output pixel is either fully transparent or a fully opaque copy
/// of one source pixel; no internal marker value survives into the output.
pub proof fn lemma_output_closure(
    edges: CellEdges,
    ts: TemplateSet,
    src: SourceImage,
    gx: int,
    gy: int,
    x: int,
    y: int,
)
    ensures
        (forall|c: int| 0 <= c < 4 ==> out_channel(edges, ts, src, gx, gy, x, y, c) == 0u8) || (
        out_channel(edges, ts, src, gx, gy, x, y, 3) == 255u8 && exists|px: int, py: int|
            #![trigger src.channel(px, py, 0)]
            0 <= px < src.width && 0 <= py < src.height && out_channel(
                edges,
                ts,
                src,
                gx,
                gy,
                x,
                y,
                0,
            ) == src.channel(px, py, 0) && out_channel(edges, ts, src, gx, gy, x, y, 1)
                == src.channel(px, py, 1) && out_channel(edges, ts, src, gx, gy, x, y, 2)
                == src.channel(px, py, 2)),
{
    let m = ts.margin as int;
    let sx = origin_x(edges, m);
    let sy = origin_y(edges, m);
    let src_x = gx * (ts.column_size as int) + x - sx;
    let src_y = gy * (ts.row_size as int) + y - sy;
    if is_piece(edges, ts, x, y) && 0 <= src_x < src.width && 0 <= src_y < src.height {
        assert(0 <= src_x < src.width && 0 <= src_y < src.height && out_channel(
            edges,
            ts,
            src,
            gx,
            gy,
            x,
            y,
            0,
        ) == src.channel(src_x, src_y, 0) && out_channel(edges, ts, src, gx, gy, x, y, 1)
            == src.channel(src_x, src_y, 1) && out_channel(edges, ts, src, gx, gy, x, y, 2)
            == src.channel(src_x, src_y, 2));
    }
}

} // verus!
