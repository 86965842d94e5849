//! The whole cut, minus input and output: derives the cell geometry from the
//! source size and the grid, plans the connectivity from the drawn coins,
//! renders the shared templates once, and rasterizes every cell.

use vstd::prelude::*;
use crate::JigsawError;
use crate::curve::{
    TemplateSet, curve_dimensions, generate_templates, geometry_ok, is_least_margin,
    lemma_least_margin_unique, margin_exists,
};
use crate::grid::{
    CellCoordinate, ConnectivityMap, cell_index, edge_total, plan_connectivity, plan_rel,
};
use crate::raster::{
    PieceRaster, SourceImage, canvas_h, canvas_w, out_channel, pix_index, rasterize_cell,
};
use crate::rng::CoinSource;

verus! {

/// One finished piece, named by its cell.
#[derive(Clone, Debug, PartialEq, Eq)]
pub struct Piece {
    pub coordinate: CellCoordinate,
    pub raster: PieceRaster,
}

/// Everything one run produces: the shared templates, the edge-label plan,
/// and one piece per cell, in column-by-column cell order.
#[derive(Clone, Debug, PartialEq, Eq)]
pub struct CutResult {
    pub templates: TemplateSet,
    pub plan: ConnectivityMap,
    pub pieces: Vec<Piece>,
}

/// Nominal cell width: trailing source columns that do not fill a cell are
/// dropped.
pub open spec fn cell_w(src: SourceImage, columns: int) -> int {
    src.width as int / columns
}

/// Nominal cell height.
pub open spec fn cell_h(src: SourceImage, rows: int) -> int {
    src.height as int / rows
}

/// The margin that the rendered left recess silhouette determines.
pub open spec fn the_margin(cs: int, rs: int, cw: int, ch: int) -> int {
    choose|m: int| is_least_margin(cs, rs, cw, ch, m)
}

/// Connector half-span the run derives for this source and grid.
pub open spec fn derived_cw(src: SourceImage, columns: int, rows: int) -> int {
    (cell_w(src, columns) + cell_h(src, rows)) * 5639 / 100000
}

/// Connector bulge depth the run derives for this source and grid.
pub open spec fn derived_ch(src: SourceImage, columns: int, rows: int) -> int {
    (cell_w(src, columns) + cell_h(src, rows)) * 9398 / 100000
}

/// The derived cell geometry leaves room for the connector curves.
pub open spec fn geometry_possible(src: SourceImage, columns: int, rows: int) -> bool {
    geometry_ok(
        cell_w(src, columns),
        cell_h(src, rows),
        derived_cw(src, columns, rows),
        derived_ch(src, columns, rows),
    )
}

/// The rendered left recess silhouette crosses the probed midline row.
pub open spec fn margin_found(src: SourceImage, columns: int, rows: int) -> bool {
    margin_exists(
        cell_w(src, columns),
        cell_h(src, rows),
        derived_cw(src, columns, rows),
        derived_ch(src, columns, rows),
    )
}

/// Every canvas of the run, sized with the measured margin, fits this
/// machine.
pub open spec fn canvas_possible(src: SourceImage, columns: int, rows: int) -> bool {
    canvas_fits(
        cell_w(src, columns),
        cell_h(src, rows),
        the_margin(
            cell_w(src, columns),
            cell_h(src, rows),
            derived_cw(src, columns, rows),
            derived_ch(src, columns, rows),
        ),
    )
}

/// Every canvas of the run, margins included, fits this machine.
pub open spec fn canvas_fits(cs: int, rs: int, m: int) -> bool {
    &&& cs + 2 * m <= u32::MAX
    &&& rs + 2 * m <= u32::MAX
    &&& 4 * (cs + 2 * m) * (rs + 2 * m) <= usize::MAX
}

/// The piece for cell `(x, y)` is exactly the rasterization of that cell's
/// labels with the shared templates over the source image.
pub open spec fn piece_ok(
    p: Piece,
    plan: ConnectivityMap,
    ts: TemplateSet,
    src: SourceImage,
    x: int,
    y: int,
) -> bool {
    let e = plan.cell(x, y);
    let m = ts.margin as int;
    let cs = ts.column_size as int;
    let rs = ts.row_size as int;
    &&& p.coordinate.x == x
    &&& p.coordinate.y == y
    &&& p.raster.width as int == canvas_w(e, cs, m)
    &&& p.raster.height as int == canvas_h(e, rs, m)
    &&& p.raster.pixels@.len() == 4 * (p.raster.width as int) * (p.raster.height as int)
    &&& forall|px: int, py: int, c: int|
        0 <= px < p.raster.width && 0 <= py < p.raster.height && 0 <= c < 4 ==> p.raster.pixels@[
            #[trigger] pix_index(p.raster.width as int, px, py, c)] == out_channel(
            e,
            ts,
            src,
            x,
            y,
            px,
            py,
            c,
        )
}

/// The outcome is exactly the cut that the source, the grid and the coins
/// determine.
pub open spec fn cut_ok(
    o: CutResult,
    src: SourceImage,
    columns: int,
    rows: int,
    coins: Seq<bool>,
) -> bool {
    let cs = cell_w(src, columns);
    let rs = cell_h(src, rows);
    let cw = derived_cw(src, columns, rows);
    let ch = derived_ch(src, columns, rows);
    &&& o.templates.wf()
    &&& o.templates.exact_for(cs, rs, cw, ch)
    &&& plan_rel(o.plan, columns, rows, coins)
    &&& o.pieces@.len() == columns * rows
    &&& forall|x: int, y: int|
        0 <= x < columns && 0 <= y < rows ==> piece_ok(
            #[trigger] o.pieces@[cell_index(rows, x, y)],
            o.plan,
            o.templates,
            src,
            x,
            y,
        )
}

/// A cut of this source, grid and coin count can succeed.
pub open spec fn cut_possible(src: SourceImage, columns: int, rows: int, ncoins: int) -> bool {
    &&& 1 <= columns
    &&& 1 <= rows
    &&& 4 * columns * rows <= usize::MAX
    &&& ncoins == edge_total(columns, rows)
    &&& geometry_possible(src, columns, rows)
    &&& margin_found(src, columns, rows)
    &&& canvas_possible(src, columns, rows)
}

/// Number of internal edges, and so of coins one cut consumes.
pub fn edge_count(columns: u32, rows: u32) -> (r: u128)
    ensures
        1 <= columns && 1 <= rows ==> r as int == edge_total(columns as int, rows as int),
        columns == 0 || rows == 0 ==> r == 0,
{
    if columns == 0 || rows == 0 {
        return 0;
    }
    proof {
        assert((columns as int) * (rows as int) < 0x10000000000000000) by (nonlinear_arith)
            requires
                columns as int <= 0xffffffff,
                rows as int <= 0xffffffff,
                0 <= columns as int,
                0 <= rows as int,
        ;
        assert(2 * ((columns as int) * (rows as int)) == 2 * (columns as int) * (rows as int))
            by (nonlinear_arith);
        assert(2 * (columns as int) * (rows as int) - columns - rows == edge_total(
            columns as int,
            rows as int,
        )) by (nonlinear_arith);
        assert((columns as int) <= (columns as int) * (rows as int)) by (nonlinear_arith)
            requires
                1 <= rows,
                0 <= columns,
        ;
        assert((rows as int) <= (columns as int) * (rows as int)) by (nonlinear_arith)
            requires
                1 <= columns,
                0 <= rows,
        ;
    }
    let prod: u128 = (columns as u128) * (rows as u128);
    2 * prod - (columns as u128) - (rows as u128)
}

/// Cuts the source image into `columns` by `rows` interlocking pieces, one
/// internal edge decided per coin. Fails exactly on an empty grid, a grid or
/// canvas too large for this machine, a coin vector of the wrong length, or
/// cell geometry the curve proportions cannot fit.
#[verifier::rlimit(100)]
pub fn make_pieces(src: &SourceImage, columns: u32, rows: u32, coins: &Vec<bool>) -> (r: Result<
    CutResult,
    JigsawError,
>)
    requires
        src.wf(),
    ensures
        r matches Ok(o) ==> cut_ok(o, *src, columns as int, rows as int, coins@),
        r is Ok <==> cut_possible(*src, columns as int, rows as int, coins@.len() as int),
        r matches Err(e) ==> (e == JigsawError::InvalidGrid <==> (columns == 0 || rows == 0)),
        r matches Err(e) ==> (e == JigsawError::DegenerateGeometry <==> (1 <= columns && 1 <= rows
            && !geometry_possible(*src, columns as int, rows as int))),
        r matches Err(e) ==> (e == JigsawError::EmptyCurve <==> (1 <= columns && 1 <= rows
            && geometry_possible(*src, columns as int, rows as int) && !margin_found(
            *src,
            columns as int,
            rows as int,
        ))),
        r matches Err(e) ==> (e == JigsawError::CoinCountMismatch <==> (1 <= columns && 1 <= rows
            && geometry_possible(*src, columns as int, rows as int) && margin_found(
            *src,
            columns as int,
            rows as int,
        ) && 4 * (columns as int) * (rows as int) <= usize::MAX && coins@.len() != edge_total(
            columns as int,
            rows as int,
        ))),
        r matches Err(e) ==> (e == JigsawError::GridTooLarge <==> (1 <= columns && 1 <= rows
            && geometry_possible(*src, columns as int, rows as int) && margin_found(
            *src,
            columns as int,
            rows as int,
        ) && (4 * (columns as int) * (rows as int) > usize::MAX || (coins@.len() == edge_total(
            columns as int,
            rows as int,
        ) && !canvas_possible(*src, columns as int, rows as int))))),
{
    let ghost cols = columns as int;
    let ghost rws = rows as int;
    if columns == 0 || rows == 0 {
        return Err(JigsawError::InvalidGrid);
    }
    let column_size: u32 = src.width / columns;
    let row_size: u32 = src.height / rows;
    let (curve_width, curve_height) = curve_dimensions(column_size, row_size);
    let ghost cs = column_size as int;
    let ghost rs = row_size as int;
    let ghost cw = curve_width as int;
    let ghost ch = curve_height as int;
    let ts = match generate_templates(column_size, row_size, curve_width, curve_height) {
        Ok(t) => t,
        Err(e) => {
            return Err(e);
        },
    };
    let plan = match plan_connectivity(columns, rows, coins) {
        Ok(p) => p,
        Err(e) => {
            proof {
                assert(e != JigsawError::InvalidGrid);
            }
            return Err(e);
        },
    };
    let m: u64 = ts.margin as u64;
    proof {
        lemma_least_margin_unique(cs, rs, cw, ch, ts.margin as int, the_margin(cs, rs, cw, ch));
        assert((cs + 2 * (m as int)) * (rs + 2 * (m as int)) < 0x100000000000000000)
            by (nonlinear_arith)
            requires
                0 <= cs + 2 * (m as int) <= 0x300000000,
                0 <= rs + 2 * (m as int) <= 0x300000000,
        ;
        assert(4 * ((cs + 2 * (m as int)) * (rs + 2 * (m as int))) == 4 * (cs + 2 * (m as int)) * (
        rs + 2 * (m as int))) by (nonlinear_arith);
    }
    let big_w: u64 = (column_size as u64) + 2 * m;
    let big_h: u64 = (row_size as u64) + 2 * m;
    if !(big_w <= u32::MAX as u64 && big_h <= u32::MAX as u64 && 4 * (big_w as u128) * (
    big_h as u128) <= usize::MAX as u128) {
        return Err(JigsawError::GridTooLarge);
    }
    let mut pieces: Vec<Piece> = Vec::new();
    let mut x: u32 = 0;
    while x < columns
        invariant
            src.wf(),
            ts.wf(),
            cols == columns as int,
            rws == rows as int,
            1 <= columns,
            1 <= rows,
            cs == ts.column_size as int,
            rs == ts.row_size as int,
            m == ts.margin,
            cs + 2 * (m as int) <= u32::MAX,
            rs + 2 * (m as int) <= u32::MAX,
            4 * (cs + 2 * (m as int)) * (rs + 2 * (m as int)) <= usize::MAX,
            plan_rel(plan, cols, rws, coins@),
            plan.rows == rows,
            4 * cols * rws <= usize::MAX,
            x <= columns,
            pieces@.len() == (x as int) * rws,
            forall|a: int, b: int|
                0 <= a < x as int && 0 <= b < rws ==> piece_ok(
                    #[trigger] pieces@[cell_index(rws, a, b)],
                    plan,
                    ts,
                    *src,
                    a,
                    b,
                ),
        decreases columns - x,
    {
        let mut y: u32 = 0;
        while y < rows
            invariant
                src.wf(),
                ts.wf(),
                cols == columns as int,
                rws == rows as int,
                1 <= columns,
                1 <= rows,
                cs == ts.column_size as int,
                rs == ts.row_size as int,
                m == ts.margin,
                cs + 2 * (m as int) <= u32::MAX,
                rs + 2 * (m as int) <= u32::MAX,
                4 * (cs + 2 * (m as int)) * (rs + 2 * (m as int)) <= usize::MAX,
                plan_rel(plan, cols, rws, coins@),
                plan.rows == rows,
                4 * cols * rws <= usize::MAX,
                x < columns,
                y <= rows,
                pieces@.len() == (x as int) * rws + (y as int),
                forall|a: int, b: int|
                    0 <= a < cols && 0 <= b < rws && (a < x as int || (a == x as int && b
                        < y as int)) ==> piece_ok(
                        #[trigger] pieces@[cell_index(rws, a, b)],
                        plan,
                        ts,
                        *src,
                        a,
                        b,
                    ),
            decreases rows - y,
        {
            let ghost e = plan.cell(x as int, y as int);
            proof {
                assert(canvas_w(e, cs, m as int) <= cs + 2 * (m as int));
                assert(canvas_h(e, rs, m as int) <= rs + 2 * (m as int));
                assert(4 * canvas_w(e, cs, m as int) * canvas_h(e, rs, m as int) <= 4 * (cs + 2 * (
                m as int)) * (rs + 2 * (m as int))) by (nonlinear_arith)
                    requires
                        0 <= canvas_w(e, cs, m as int) <= cs + 2 * (m as int),
                        0 <= canvas_h(e, rs, m as int) <= rs + 2 * (m as int),
                ;
            }
            proof {
                assert(0 <= cell_index(rws, x as int, y as int) && cell_index(rws, x as int, y as int)
                    < cols * rws && cols * rws <= usize::MAX) by (nonlinear_arith)
                    requires
                        0 <= (x as int) && (x as int) < cols,
                        0 <= (y as int) && (y as int) < rws,
                        4 * cols * rws <= usize::MAX,
                        1 <= cols,
                        1 <= rws,
                        cell_index(rws, x as int, y as int) == (x as int) * rws + (y as int),
                ;
            }
            let idx: usize = (x as usize) * (rows as usize) + (y as usize);
            let cell = plan.cells[idx];
            proof {
                assert(cell == plan.cell(x as int, y as int));
            }
            let raster = rasterize_cell(&cell, &ts, src, x, y);
            let piece = Piece { coordinate: CellCoordinate { x, y }, raster };
            pieces.push(piece);
            y += 1;
            proof {
                assert forall|a: int, b: int|
                    0 <= a < cols && 0 <= b < rws && (a < x as int || (a == x as int && b
                        < y as int)) implies piece_ok(
                    #[trigger] pieces@[cell_index(rws, a, b)],
                    plan,
                    ts,
                    *src,
                    a,
                    b,
                ) by {
                    assert(0 <= cell_index(rws, a, b) && cell_index(rws, a, b) < pieces@.len())
                        by (nonlinear_arith)
                        requires
                            0 <= a,
                            0 <= b < rws,
                            (a < x as int || (a == x as int && b < y as int)),
                            pieces@.len() == (x as int) * rws + (y as int),
                            cell_index(rws, a, b) == a * rws + b,
                    ;
                    if cell_index(rws, a, b) == pieces@.len() - 1 {
                        assert(a == x as int && b == y as int - 1) by (nonlinear_arith)
                            requires
                                0 <= a,
                                0 <= b < rws,
                                0 <= (y as int) - 1 && (y as int) - 1 < rws,
                                a * rws + b == (x as int) * rws + (y as int) - 1,
                        ;
                    }
                }
            }
        }
        x += 1;
        proof {
            assert((x as int) * rws == (x as int - 1) * rws + rws) by (nonlinear_arith);
        }
    }
    let o = CutResult { templates: ts, plan, pieces };
    proof {
        if !(4 * cols * rws <= usize::MAX) {
            assert(false);
        }
        assert(cut_ok(o, *src, cols, rws, coins@));
        assert(cut_possible(*src, cols, rws, coins@.len() as int));
    }
    Ok(o)
}

/// Cuts the source image with coins drawn from a seeded generator: a fixed
/// seed, source and grid give one fixed outcome. Success never depends on the
/// drawn values: the cut goes through exactly when one with the owed coin
/// count can, and each failure is classified as in `make_pieces`.
pub fn make_pieces_seeded(src: &SourceImage, columns: u32, rows: u32, seed: u64) -> (r: Result<
    CutResult,
    JigsawError,
>)
    requires
        src.wf(),
    ensures
        r matches Ok(o) ==> exists|coins: Seq<bool>|
            coins.len() == edge_total(columns as int, rows as int) && #[trigger] cut_ok(
                o,
                *src,
                columns as int,
                rows as int,
                coins,
            ),
        r is Ok <==> cut_possible(
            *src,
            columns as int,
            rows as int,
            edge_total(columns as int, rows as int),
        ),
        r matches Err(e) ==> (e == JigsawError::InvalidGrid <==> (columns == 0 || rows == 0)),
        r matches Err(e) ==> e != JigsawError::CoinCountMismatch,
        r matches Err(e) ==> ((1 <= columns && 1 <= rows && edge_total(
            columns as int,
            rows as int,
        ) > usize::MAX) ==> e == JigsawError::GridTooLarge),
{
    if columns == 0 || rows == 0 {
        return Err(JigsawError::InvalidGrid);
    }
    let needed: u128 = edge_count(columns, rows);
    if needed > usize::MAX as u128 {
        proof {
            assert(4 * (columns as int) * (rows as int) > usize::MAX) by (nonlinear_arith)
                requires
                    1 <= columns as int,
                    1 <= rows as int,
                    (columns as int) * ((rows as int) - 1) + ((columns as int) - 1) * (
                    rows as int) > usize::MAX,
            ;
        }
        return Err(JigsawError::GridTooLarge);
    }
    let mut source = CoinSource::new(seed);
    let coins = source.draw(needed as usize);
    match make_pieces(src, columns, rows, &coins) {
        Ok(o) => {
            proof {
                assert(coins@.len() == edge_total(columns as int, rows as int) && cut_ok(
                    o,
                    *src,
                    columns as int,
                    rows as int,
                    coins@,
                ));
            }
            Ok(o)
        },
        Err(e) => Err(e),
    }
}

} // verus!
