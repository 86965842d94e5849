//! Connectivity planning: decides, for every internal edge of the grid, which
//! of the two adjacent cells carries the protruding tab and which the recess.
//!
//! Every internal edge is decided exactly once, from one drawn coin: the cell
//! whose neighbour lies to the right (or below) receives the drawn polarity on
//! that side, and the neighbour receives the opposite polarity on the facing
//! side. Border sides carry no label.

use vstd::prelude::*;
use crate::JigsawError;

verus! {

/// A cell position in the grid, zero based.
#[derive(Clone, Copy, Debug, PartialEq, Eq, Structural)]
pub struct CellCoordinate {
    pub x: u32,
    pub y: u32,
}

/// Whether a labelled side protrudes (a tab) or recedes (a blank).
#[derive(Clone, Copy, Debug, PartialEq, Eq, Structural)]
pub enum Polarity {
    Tab,
    Recess,
}

/// The labels of one cell: for each side, the polarity of its connector, or
/// `None` where the side lies on the grid border.
#[derive(Clone, Copy, Debug, PartialEq, Eq)]
pub struct CellEdges {
    pub top: Option<Polarity>,
    pub bottom: Option<Polarity>,
    pub left: Option<Polarity>,
    pub right: Option<Polarity>,
}

/// An unordered adjacency between two grid cells, stored with the
/// lexicographically smaller endpoint first so that the two directed
/// encounters of one edge name the same value.
#[derive(Clone, Copy, Debug, PartialEq, Eq, Structural)]
pub struct CanonicalEdge {
    pub ax: u32,
    pub ay: u32,
    pub bx: u32,
    pub by: u32,
}

/// The completed edge-label assignment: one `CellEdges` per cell, stored
/// column by column (cell `(x, y)` at index `x * rows + y`).
#[derive(Clone, Debug, PartialEq, Eq)]
pub struct ConnectivityMap {
    pub columns: u32,
    pub rows: u32,
    pub cells: Vec<CellEdges>,
}

pub open spec fn opposite(p: Polarity) -> Polarity {
    match p {
        Polarity::Tab => Polarity::Recess,
        Polarity::Recess => Polarity::Tab,
    }
}

/// The polarity the deciding cell receives for a drawn coin.
pub open spec fn polarity_of(coin: bool) -> Polarity {
    if coin {
        Polarity::Tab
    } else {
        Polarity::Recess
    }
}

/// Number of internal edges of a `cols` by `rows` grid.
pub open spec fn edge_total(cols: int, rows: int) -> int {
    cols * (rows - 1) + (cols - 1) * rows
}

pub open spec fn cell_index(rows: int, x: int, y: int) -> int {
    x * rows + y
}

/// Coin index of the first edge decided at cell `(x, y)`: cells are visited
/// column by column, and each cell decides its right edge first, then its
/// lower edge.
pub open spec fn cell_coin_base(cols: int, rows: int, x: int, y: int) -> int {
    x * (2 * rows - 1) + y * (if x + 1 < cols { 2int } else { 1int })
}

/// Coin index of the edge between `(x, y)` and `(x + 1, y)`.
pub open spec fn right_coin_index(cols: int, rows: int, x: int, y: int) -> int {
    cell_coin_base(cols, rows, x, y)
}

/// Coin index of the edge between `(x, y)` and `(x, y + 1)`.
pub open spec fn down_coin_index(cols: int, rows: int, x: int, y: int) -> int {
    cell_coin_base(cols, rows, x, y) + if x + 1 < cols { 1int } else { 0int }
}

/// Number of coins consumed once the planner stands at `(x, y)`, where
/// `y == rows` means the column is finished.
pub open spec fn coins_done(cols: int, rows: int, x: int, y: int) -> int {
    if y < rows {
        cell_coin_base(cols, rows, x, y)
    } else if x + 1 < cols {
        cell_coin_base(cols, rows, x + 1, 0)
    } else {
        edge_total(cols, rows)
    }
}

/// The labels of cell `(x, y)` once every edge whose deciding cell comes
/// before `(px, py)` in visiting order has been decided.
pub open spec fn planned_cell_upto(
    cols: int,
    rows: int,
    coins: Seq<bool>,
    x: int,
    y: int,
    px: int,
    py: int,
) -> CellEdges {
    CellEdges {
        right: if x + 1 < cols && visited_before(x, y, px, py) {
            Some(polarity_of(coins[right_coin_index(cols, rows, x, y)]))
        } else {
            None
        },
        left: if 0 < x && visited_before(x - 1, y, px, py) {
            Some(opposite(polarity_of(coins[right_coin_index(cols, rows, x - 1, y)])))
        } else {
            None
        },
        bottom: if y + 1 < rows && visited_before(x, y, px, py) {
            Some(polarity_of(coins[down_coin_index(cols, rows, x, y)]))
        } else {
            None
        },
        top: if 0 < y && visited_before(x, y - 1, px, py) {
            Some(opposite(polarity_of(coins[down_coin_index(cols, rows, x, y - 1)])))
        } else {
            None
        },
    }
}

pub open spec fn visited_before(x: int, y: int, px: int, py: int) -> bool {
    x < px || (x == px && y < py)
}

/// The labels of cell `(x, y)` in the completed plan.
pub open spec fn planned_cell(cols: int, rows: int, coins: Seq<bool>, x: int, y: int) -> CellEdges {
    planned_cell_upto(cols, rows, coins, x, y, cols, 0)
}

impl ConnectivityMap {
    pub open spec fn cell(self, x: int, y: int) -> CellEdges {
        self.cells@[cell_index(self.rows as int, x, y)]
    }
}

/// `m` is exactly the plan that `coins` determines on a `cols` by `rows` grid.
pub open spec fn plan_rel(m: ConnectivityMap, cols: int, rows: int, coins: Seq<bool>) -> bool {
    &&& m.columns == cols
    &&& m.rows == rows
    &&& m.cells@.len() == cols * rows
    &&& forall|x: int, y: int|
        0 <= x < cols && 0 <= y < rows ==> #[trigger] m.cell(x, y) == planned_cell(
            cols,
            rows,
            coins,
            x,
            y,
        )
}

/// The grid-adjacent neighbours of `(x, y)` that lie inside a `column_count`
/// by `row_count` grid, in the order left, above, right, below.
pub fn get_neighbors(x: u32, y: u32, column_count: u32, row_count: u32) -> (r: Vec<CellCoordinate>)
    ensures
        r@ == neighbor_seq(x as int, y as int, column_count as int, row_count as int),
{
    let mut neighbors: Vec<CellCoordinate> = Vec::new();
    if x != 0 {
        neighbors.push(CellCoordinate { x: x - 1, y });
    }
    if y != 0 {
        neighbors.push(CellCoordinate { x, y: y - 1 });
    }
    if x < u32::MAX && x + 1 < column_count {
        neighbors.push(CellCoordinate { x: x + 1, y });
    }
    if y < u32::MAX && y + 1 < row_count {
        neighbors.push(CellCoordinate { x, y: y + 1 });
    }
    proof {
        assert(neighbors@ =~= neighbor_seq(
            x as int,
            y as int,
            column_count as int,
            row_count as int,
        ));
    }
    neighbors
}

pub open spec fn neighbor_seq(x: int, y: int, cols: int, rows: int) -> Seq<CellCoordinate> {
    let left = if x != 0 {
        seq![CellCoordinate { x: (x - 1) as u32, y: y as u32 }]
    } else {
        Seq::empty()
    };
    let up = if y != 0 {
        seq![CellCoordinate { x: x as u32, y: (y - 1) as u32 }]
    } else {
        Seq::empty()
    };
    let right = if x + 1 < cols {
        seq![CellCoordinate { x: (x + 1) as u32, y: y as u32 }]
    } else {
        Seq::empty()
    };
    let down = if y + 1 < rows {
        seq![CellCoordinate { x: x as u32, y: (y + 1) as u32 }]
    } else {
        Seq::empty()
    };
    left + up + right + down
}

/// The decide-once key of the edge between cells `(x, y)` and `(z, t)`: the
/// same value whichever endpoint is named first.
pub fn hash_connection(x: u32, y: u32, z: u32, t: u32) -> (r: CanonicalEdge)
    ensures
        r == canonical_edge(x as int, y as int, z as int, t as int),
{
    if x < z || (x == z && y <= t) {
        CanonicalEdge { ax: x, ay: y, bx: z, by: t }
    } else {
        CanonicalEdge { ax: z, ay: t, bx: x, by: y }
    }
}

pub open spec fn canonical_edge(x: int, y: int, z: int, t: int) -> CanonicalEdge {
    if x < z || (x == z && y <= t) {
        CanonicalEdge { ax: x as u32, ay: y as u32, bx: z as u32, by: t as u32 }
    } else {
        CanonicalEdge { ax: z as u32, ay: t as u32, bx: x as u32, by: y as u32 }
    }
}

/// Both encounters of one adjacency give the same key.
pub proof fn lemma_canonical_edge_symmetric(x: int, y: int, z: int, t: int)
    ensures
        canonical_edge(x, y, z, t) == canonical_edge(z, t, x, y),
{
}

proof fn lemma_cell_index_injective(rows: int, a: int, b: int, c: int, d: int)
    requires
        1 <= rows,
        0 <= a,
        0 <= c,
        0 <= b < rows,
        0 <= d < rows,
        cell_index(rows, a, b) == cell_index(rows, c, d),
    ensures
        a == c,
        b == d,
{
    assert(a == c && b == d) by (nonlinear_arith)
        requires
            1 <= rows,
            0 <= a,
            0 <= c,
            0 <= b < rows,
            0 <= d < rows,
            a * rows + b == c * rows + d,
    ;
}

proof fn lemma_coin_base_bounds(cols: int, rows: int, x: int, y: int)
    requires
        1 <= cols,
        1 <= rows,
        0 <= x < cols,
        0 <= y < rows,
    ensures
        0 <= cell_coin_base(cols, rows, x, y),
        cell_coin_base(cols, rows, x, y) + (if x + 1 < cols { 1int } else { 0int }) + (if y + 1
            < rows {
            1int
        } else {
            0int
        }) <= edge_total(cols, rows),
{
    if x + 1 < cols {
        if y + 1 < rows {
            assert(x * (2 * rows - 1) + 2 * y + 2 <= edge_total(cols, rows)) by (nonlinear_arith)
                requires
                    1 <= rows,
                    0 <= x,
                    x + 2 <= cols,
                    0 <= y,
                    y + 2 <= rows,
            ;
        } else {
            assert(x * (2 * rows - 1) + 2 * y + 1 <= edge_total(cols, rows)) by (nonlinear_arith)
                requires
                    1 <= rows,
                    0 <= x,
                    x + 2 <= cols,
                    0 <= y,
                    y + 1 == rows,
            ;
        }
    } else {
        if y + 1 < rows {
            assert(x * (2 * rows - 1) + y + 1 <= edge_total(cols, rows)) by (nonlinear_arith)
                requires
                    1 <= rows,
                    0 <= x,
                    x + 1 == cols,
                    0 <= y,
                    y + 2 <= rows,
            ;
        } else {
            assert(x * (2 * rows - 1) + y <= edge_total(cols, rows)) by (nonlinear_arith)
                requires
                    1 <= rows,
                    0 <= x,
                    x + 1 == cols,
                    0 <= y,
                    y + 1 == rows,
            ;
        }
    }
    assert(0 <= cell_coin_base(cols, rows, x, y)) by (nonlinear_arith)
        requires
            1 <= rows,
            0 <= x,
            0 <= y,
    ;
}

/// Plans the whole grid from the drawn coins: coin `k` decides the `k`-th
/// internal edge in visiting order. Fails exactly on an empty grid, a grid too
/// large for this machine, or a coin vector of the wrong length.
#[verifier::rlimit(60)]
pub fn plan_connectivity(columns: u32, rows: u32, coins: &Vec<bool>) -> (r: Result<
    ConnectivityMap,
    JigsawError,
>)
    ensures
        r is Ok <==> (1 <= columns && 1 <= rows && 4 * (columns as int) * (rows as int)
            <= usize::MAX && coins@.len() == edge_total(columns as int, rows as int)),
        r matches Ok(m) ==> plan_rel(m, columns as int, rows as int, coins@),
        r matches Err(e) ==> (e == JigsawError::InvalidGrid <==> (columns == 0 || rows == 0)),
        r matches Err(e) ==> (e == JigsawError::GridTooLarge <==> (1 <= columns && 1 <= rows && 4
            * (columns as int) * (rows as int) > usize::MAX)),
        r matches Err(e) ==> (e == JigsawError::CoinCountMismatch <==> (1 <= columns && 1 <= rows
            && 4 * (columns as int) * (rows as int) <= usize::MAX && coins@.len() != edge_total(
            columns as int,
            rows as int,
        ))),
{
    if columns == 0 || rows == 0 {
        return Err(JigsawError::InvalidGrid);
    }
    proof {
        assert((columns as int) * (rows as int) < 0x10000000000000000) by (nonlinear_arith)
            requires
                columns as int <= 0xffffffff,
                rows as int <= 0xffffffff,
                0 <= columns as int,
                0 <= rows as int,
        ;
    }
    let prod: u128 = (columns as u128) * (rows as u128);
    proof {
        assert(4 * ((columns as int) * (rows as int)) == 4 * (columns as int) * (rows as int))
            by (nonlinear_arith);
        assert(2 * ((columns as int) * (rows as int)) == 2 * (columns as int) * (rows as int))
            by (nonlinear_arith);
        assert(2 * (columns as int) * (rows as int) - columns - rows == edge_total(
            columns as int,
            rows as int,
        )) by (nonlinear_arith);
        assert((columns as int) <= (columns as int) * (rows as int)) by (nonlinear_arith)
            requires
                1 <= rows,
                0 <= columns,
        ;
        assert((rows as int) <= (columns as int) * (rows as int)) by (nonlinear_arith)
            requires
                1 <= columns,
                0 <= rows,
        ;
    }
    if 4 * prod > usize::MAX as u128 {
        return Err(JigsawError::GridTooLarge);
    }
    let expected: u128 = 2 * prod - (columns as u128) - (rows as u128);
    if (coins.len() as u128) != expected {
        return Err(JigsawError::CoinCountMismatch);
    }
    let count: usize = (columns as usize) * (rows as usize);
    let mut cells: Vec<CellEdges> = Vec::new();
    let blank = CellEdges { top: None, bottom: None, left: None, right: None };
    let mut i: usize = 0;
    while i < count
        invariant
            count == (columns as int) * (rows as int),
            cells@.len() == i,
            i <= count,
            forall|j: int| 0 <= j < i ==> cells@[j] == blank,
            blank == (CellEdges { top: None, bottom: None, left: None, right: None }),
        decreases count - i,
    {
        cells.push(blank);
        i += 1;
    }
    let ghost cols = columns as int;
    let ghost rws = rows as int;
    proof {
        assert forall|a: int, b: int| 0 <= a < cols && 0 <= b < rws implies #[trigger] cells@[
            cell_index(rws, a, b)] == planned_cell_upto(cols, rws, coins@, a, b, 0, 0) by {
            assert(0 <= cell_index(rws, a, b) < cols * rws) by (nonlinear_arith)
                requires
                    0 <= a < cols,
                    0 <= b < rws,
                    cell_index(rws, a, b) == a * rws + b,
            ;
        }
    }
    let mut k: usize = 0;
    let mut x: u32 = 0;
    while x < columns
        invariant
            1 <= columns,
            1 <= rows,
            cols == columns as int,
            rws == rows as int,
            4 * cols * rws <= usize::MAX,
            coins@.len() == edge_total(cols, rws),
            coins@.len() <= usize::MAX,
            x <= columns,
            k == (if (x as int) < cols {
                cell_coin_base(cols, rws, x as int, 0)
            } else {
                edge_total(cols, rws)
            }),
            cells@.len() == cols * rws,
            forall|a: int, b: int|
                0 <= a < cols && 0 <= b < rws ==> #[trigger] cells@[cell_index(rws, a, b)]
                    == planned_cell_upto(cols, rws, coins@, a, b, x as int, 0),
        decreases columns - x,
    {
        let mut y: u32 = 0;
        while y < rows
            invariant
                1 <= columns,
                1 <= rows,
                cols == columns as int,
                rws == rows as int,
                4 * cols * rws <= usize::MAX,
                coins@.len() == edge_total(cols, rws),
                coins@.len() <= usize::MAX,
                x < columns,
                y <= rows,
                k == coins_done(cols, rws, x as int, y as int),
                cells@.len() == cols * rws,
                forall|a: int, b: int|
                    0 <= a < cols && 0 <= b < rws ==> #[trigger] cells@[cell_index(rws, a, b)]
                        == planned_cell_upto(cols, rws, coins@, a, b, x as int, y as int),
            decreases rows - y,
        {
            proof {
                lemma_coin_base_bounds(cols, rws, x as int, y as int);
                assert(0 <= cell_index(rws, x as int, y as int) && cell_index(
                    rws,
                    x as int,
                    y as int,
                ) < cols * rws) by (nonlinear_arith)
                    requires
                        0 <= (x as int) && (x as int) < cols,
                        0 <= (y as int) && (y as int) < rws,
                        cell_index(rws, x as int, y as int) == (x as int) * rws + (y as int),
                ;
                if x as int + 1 < cols {
                    assert(cell_index(rws, x as int, y as int) + rws < cols * rws)
                        by (nonlinear_arith)
                        requires
                            0 <= (x as int) && (x as int) + 1 < cols,
                            0 <= (y as int) && (y as int) < rws,
                            cell_index(rws, x as int, y as int) == (x as int) * rws + (y as int),
                    ;
                }
                assert(cols * rws <= usize::MAX) by (nonlinear_arith)
                    requires
                        4 * cols * rws <= usize::MAX,
                        1 <= cols,
                        1 <= rws,
                ;
            }
            let idx: usize = (x as usize) * (rows as usize) + (y as usize);
            if x + 1 < columns {
                let coin = coins[k];
                let here_pol = if coin {
                    Polarity::Tab
                } else {
                    Polarity::Recess
                };
                let there_pol = if coin {
                    Polarity::Recess
                } else {
                    Polarity::Tab
                };
                let mut here = cells[idx];
                here.right = Some(here_pol);
                cells.set(idx, here);
                let nidx: usize = idx + (rows as usize);
                let mut there = cells[nidx];
                there.left = Some(there_pol);
                cells.set(nidx, there);
                proof {
                    assert(k < coins@.len());
                }
                k += 1;
                proof {
                    assert(cell_index(rws, x as int + 1, y as int) == cell_index(
                        rws,
                        x as int,
                        y as int,
                    ) + rws) by (nonlinear_arith);
                }
            }
            if y + 1 < rows {
                let coin = coins[k];
                let here_pol = if coin {
                    Polarity::Tab
                } else {
                    Polarity::Recess
                };
                let there_pol = if coin {
                    Polarity::Recess
                } else {
                    Polarity::Tab
                };
                let mut here = cells[idx];
                here.bottom = Some(here_pol);
                cells.set(idx, here);
                proof {
                    assert(cell_index(rws, x as int, y as int) + 1 < cols * rws)
                        by (nonlinear_arith)
                        requires
                            0 <= (x as int) && (x as int) < cols,
                            0 <= (y as int) && (y as int) + 1 < rws,
                            cell_index(rws, x as int, y as int) == (x as int) * rws + (y as int),
                    ;
                }
                let mut there = cells[idx + 1];
                there.top = Some(there_pol);
                cells.set(idx + 1, there);
                proof {
                    assert(k < coins@.len());
                }
                k += 1;
            }
            y += 1;
            proof {
                if y == rows {
                    if x as int + 1 < cols {
                        assert((x as int + 1) * (2 * rws - 1) == (x as int) * (2 * rws - 1) + 2
                            * rws - 1) by (nonlinear_arith);
                    } else {
                        assert((x as int) * (2 * rws - 1) + (rws - 1) == edge_total(cols, rws))
                            by (nonlinear_arith)
                            requires
                                (x as int) + 1 == cols,
                                1 <= rws,
                        ;
                    }
                }
                assert forall|a: int, b: int| 0 <= a < cols && 0 <= b < rws implies #[trigger] cells@[
                    cell_index(rws, a, b)] == planned_cell_upto(
                    cols,
                    rws,
                    coins@,
                    a,
                    b,
                    x as int,
                    y as int,
                ) by {
                    let xi = x as int;
                    let yp = y as int - 1;
                    let i = cell_index(rws, a, b);
                    assert(i < cols * rws) by (nonlinear_arith)
                        requires
                            0 <= a < cols,
                            0 <= b < rws,
                            i == a * rws + b,
                    ;
                    assert(cell_index(rws, xi + 1, yp) == cell_index(rws, xi, yp) + rws)
                        by (nonlinear_arith);
                    if i == cell_index(rws, xi, yp) {
                        lemma_cell_index_injective(rws, a, b, xi, yp);
                    } else if i == cell_index(rws, xi + 1, yp) {
                        lemma_cell_index_injective(rws, a, b, xi + 1, yp);
                    } else if i == cell_index(rws, xi, yp + 1) && yp + 1 < rws {
                        lemma_cell_index_injective(rws, a, b, xi, yp + 1);
                    }
                }
            }
        }
        x += 1;
    }
    let m = ConnectivityMap { columns, rows, cells };
    proof {
        assert forall|a: int, b: int| 0 <= a < cols && 0 <= b < rws implies #[trigger] m.cell(a, b)
            == planned_cell(cols, rws, coins@, a, b) by {
            assert(m.cell(a, b) == m.cells@[cell_index(rws, a, b)]);
            assert(m.cells@[cell_index(rws, a, b)] == planned_cell_upto(
                cols,
                rws,
                coins@,
                a,
                b,
                cols,
                0,
            ));
        }
    }
    Ok(m)
}

/// Law: every internal edge carries exactly one tab and one recess on its two
/// adjacent cells, and border sides carry no label.
pub proof fn lemma_one_decision_per_edge(
    m: ConnectivityMap,
    cols: int,
    rows: int,
    coins: Seq<bool>,
    x: int,
    y: int,
)
    requires
        plan_rel(m, cols, rows, coins),
        1 <= cols,
        1 <= rows,
        0 <= x < cols,
        0 <= y < rows,
    ensures
        x + 1 < cols ==> (m.cell(x, y).right matches Some(p) && m.cell(x + 1, y).left == Some(
            opposite(p),
        )),
        y + 1 < rows ==> (m.cell(x, y).bottom matches Some(p) && m.cell(x, y + 1).top == Some(
            opposite(p),
        )),
        x == 0 ==> m.cell(x, y).left is None,
        x + 1 == cols ==> m.cell(x, y).right is None,
        y == 0 ==> m.cell(x, y).top is None,
        y + 1 == rows ==> m.cell(x, y).bottom is None,
{
    assert(m.cell(x, y) == planned_cell(cols, rows, coins, x, y));
    if x + 1 < cols {
        assert(m.cell(x + 1, y) == planned_cell(cols, rows, coins, x + 1, y));
        let p = polarity_of(coins[right_coin_index(cols, rows, x, y)]);
        assert(opposite(opposite(p)) == p);
    }
    if y + 1 < rows {
        assert(m.cell(x, y + 1) == planned_cell(cols, rows, coins, x, y + 1));
    }
}

/// Law: the plan is a function of the grid size and the coins alone; two maps
/// planned from the same inputs are identical.
pub proof fn lemma_plan_determined(
    m1: ConnectivityMap,
    m2: ConnectivityMap,
    cols: int,
    rows: int,
    coins: Seq<bool>,
)
    requires
        plan_rel(m1, cols, rows, coins),
        plan_rel(m2, cols, rows, coins),
        1 <= cols,
        1 <= rows,
    ensures
        m1.columns == m2.columns,
        m1.rows == m2.rows,
        m1.cells@ == m2.cells@,
{
    assert forall|i: int| 0 <= i < m1.cells@.len() implies m1.cells@[i] == m2.cells@[i] by {
        let x = i / rows;
        let y = i % rows;
        assert(0 <= y < rows && i == x * rows + y && 0 <= x < cols) by (nonlinear_arith)
            requires
                1 <= rows,
                1 <= cols,
                0 <= i < cols * rows,
                x == i / rows,
                y == i % rows,
        ;
        assert(m1.cell(x, y) == planned_cell(cols, rows, coins, x, y));
        assert(m2.cell(x, y) == planned_cell(cols, rows, coins, x, y));
    }
    assert(m1.cells@ =~= m2.cells@);
}

} // verus!
