use jigsaw::JigsawError;
use jigsaw::curve::{curve_dimensions, generate_templates};
use jigsaw::grid::{
    CanonicalEdge, CellCoordinate, CellEdges, Polarity, get_neighbors, hash_connection,
    plan_connectivity,
};
use jigsaw::pipeline::{edge_count, make_pieces, make_pieces_seeded};
use jigsaw::raster::{PieceRaster, SourceImage, rasterize_cell};
use jigsaw::rng::CoinSource;

/// A source image whose pixel colours encode their own coordinates.
fn coded_source(width: u32, height: u32) -> SourceImage {
    let mut pixels = Vec::new();
    for y in 0..height {
        for x in 0..width {
            pixels.push((x % 200) as u8);
            pixels.push((y % 200) as u8);
            pixels.push(77);
        }
    }
    SourceImage { width, height, pixels }
}

fn raster_pixel(r: &PieceRaster, x: u32, y: u32) -> (u8, u8, u8, u8) {
    let i = (4 * (y * r.width + x)) as usize;
    (r.pixels[i], r.pixels[i + 1], r.pixels[i + 2], r.pixels[i + 3])
}

fn cell(plan: &jigsaw::grid::ConnectivityMap, x: u32, y: u32) -> CellEdges {
    plan.cells[(x * plan.rows + y) as usize]
}

#[test]
fn curve_dimensions_match_fixed_ratios() {
    assert_eq!(curve_dimensions(40, 40), (4, 7));
    assert_eq!(curve_dimensions(100, 60), (9, 15));
}

#[test]
fn edge_count_matches_grid() {
    assert_eq!(edge_count(1, 1), 0);
    assert_eq!(edge_count(2, 1), 1);
    assert_eq!(edge_count(4, 4), 24);
    assert_eq!(edge_count(0, 5), 0);
}

#[test]
fn neighbors_in_reading_order() {
    let n = get_neighbors(0, 0, 4, 4);
    assert_eq!(n, vec![CellCoordinate { x: 1, y: 0 }, CellCoordinate { x: 0, y: 1 }]);
    let n = get_neighbors(1, 1, 3, 3);
    assert_eq!(
        n,
        vec![
            CellCoordinate { x: 0, y: 1 },
            CellCoordinate { x: 1, y: 0 },
            CellCoordinate { x: 2, y: 1 },
            CellCoordinate { x: 1, y: 2 },
        ]
    );
    let n = get_neighbors(2, 2, 3, 3);
    assert_eq!(n, vec![CellCoordinate { x: 1, y: 2 }, CellCoordinate { x: 2, y: 1 }]);
}

#[test]
fn hash_connection_is_symmetric() {
    let a = hash_connection(2, 3, 1, 3);
    let b = hash_connection(1, 3, 2, 3);
    assert_eq!(a, b);
    assert_eq!(a, CanonicalEdge { ax: 1, ay: 3, bx: 2, by: 3 });
    assert_eq!(hash_connection(5, 5, 5, 6), hash_connection(5, 6, 5, 5));
}

#[test]
fn every_internal_edge_has_one_tab_and_one_recess() {
    let coins = vec![true, false, true, true, false, true, false];
    let plan = plan_connectivity(3, 2, &coins).unwrap();
    for x in 0..3u32 {
        for y in 0..2u32 {
            let e = cell(&plan, x, y);
            if x + 1 < 3 {
                let right = e.right.unwrap();
                let facing = cell(&plan, x + 1, y).left.unwrap();
                assert_ne!(right, facing);
            } else {
                assert!(e.right.is_none());
            }
            if y + 1 < 2 {
                let down = e.bottom.unwrap();
                let facing = cell(&plan, x, y + 1).top.unwrap();
                assert_ne!(down, facing);
            } else {
                assert!(e.bottom.is_none());
            }
            if x == 0 {
                assert!(e.left.is_none());
            }
            if y == 0 {
                assert!(e.top.is_none());
            }
        }
    }
}

#[test]
fn same_seed_gives_identical_cut() {
    let src = coded_source(80, 80);
    let a = make_pieces_seeded(&src, 2, 2, 12345).unwrap();
    let b = make_pieces_seeded(&src, 2, 2, 12345).unwrap();
    assert_eq!(a.plan, b.plan);
    assert_eq!(a.templates, b.templates);
    assert_eq!(a.pieces, b.pieces);
}

#[test]
fn coin_source_draws_requested_count_deterministically() {
    let mut s1 = CoinSource::new(7);
    let mut s2 = CoinSource::new(7);
    let c1 = s1.draw(64);
    let c2 = s2.draw(64);
    assert_eq!(c1.len(), 64);
    assert_eq!(c1, c2);
}

/// Every point of one set lies within one pixel of some point of the other.
fn within_one_pixel(a: &[(u32, u32)], b: &[(u32, u32)]) -> bool {
    a.iter().all(|&(ax, ay)| {
        b.iter().any(|&(bx, by)| ax.abs_diff(bx) <= 1 && ay.abs_diff(by) <= 1)
    })
}

#[test]
fn left_recess_template_mirrors_right_recess() {
    let (cw, ch) = curve_dimensions(40, 40);
    let ts = generate_templates(40, 40, cw, ch).unwrap();
    let left_mirrored: Vec<(u32, u32)> =
        ts.left_in.points.iter().map(|p| (39 - p.x, p.y)).collect();
    let right: Vec<(u32, u32)> = ts.right_in.points.iter().map(|p| (p.x, p.y)).collect();
    assert!(!left_mirrored.is_empty() && !right.is_empty());
    assert!(within_one_pixel(&left_mirrored, &right));
    assert!(within_one_pixel(&right, &left_mirrored));
}

#[test]
fn top_recess_template_mirrors_bottom_recess() {
    let (cw, ch) = curve_dimensions(40, 40);
    let ts = generate_templates(40, 40, cw, ch).unwrap();
    let top_mirrored: Vec<(u32, u32)> =
        ts.top_in.points.iter().map(|p| (p.x, 39 - p.y)).collect();
    let bottom: Vec<(u32, u32)> = ts.bottom_in.points.iter().map(|p| (p.x, p.y)).collect();
    assert!(!top_mirrored.is_empty() && !bottom.is_empty());
    assert!(within_one_pixel(&top_mirrored, &bottom));
    assert!(within_one_pixel(&bottom, &top_mirrored));
}

#[test]
fn rasterizing_twice_gives_identical_piece() {
    let src = coded_source(40, 40);
    let (cw, ch) = curve_dimensions(20, 20);
    let ts = generate_templates(20, 20, cw, ch).unwrap();
    let edges = CellEdges {
        top: None,
        bottom: Some(Polarity::Tab),
        left: None,
        right: Some(Polarity::Recess),
    };
    let a = rasterize_cell(&edges, &ts, &src, 0, 0);
    let b = rasterize_cell(&edges, &ts, &src, 0, 0);
    assert_eq!(a, b);
}

#[test]
fn every_output_pixel_is_transparent_or_a_source_copy() {
    let src = coded_source(80, 80);
    let cut = make_pieces(&src, 2, 2, &vec![true, false, false, true]).unwrap();
    for piece in &cut.pieces {
        let r = &piece.raster;
        for y in 0..r.height {
            for x in 0..r.width {
                let (red, green, blue, alpha) = raster_pixel(r, x, y);
                if alpha == 0 {
                    assert_eq!((red, green, blue), (0, 0, 0));
                } else {
                    assert_eq!(alpha, 255);
                    assert_eq!(blue, 77);
                    let sx = red as u32;
                    let sy = green as u32;
                    let i = (3 * (sy * src.width + sx)) as usize;
                    assert_eq!(
                        (src.pixels[i], src.pixels[i + 1], src.pixels[i + 2]),
                        (red, green, blue)
                    );
                }
            }
        }
    }
}

#[test]
fn single_cell_grid_is_a_plain_opaque_crop() {
    let src = coded_source(40, 40);
    let cut = make_pieces(&src, 1, 1, &Vec::new()).unwrap();
    assert_eq!(cut.pieces.len(), 1);
    let piece = &cut.pieces[0];
    let e = &cut.plan.cells[0];
    assert!(e.top.is_none() && e.bottom.is_none() && e.left.is_none() && e.right.is_none());
    let r = &piece.raster;
    assert_eq!((r.width, r.height), (40, 40));
    for y in 0..40u32 {
        for x in 0..40u32 {
            let (red, green, blue, alpha) = raster_pixel(r, x, y);
            assert_eq!(alpha, 255, "pixel {x},{y} should be opaque");
            assert_eq!((red, green, blue), ((x % 200) as u8, (y % 200) as u8, 77));
        }
    }
}

#[test]
fn two_cell_grid_pairs_one_tab_with_one_recess() {
    let src = coded_source(80, 40);
    for coin in [false, true] {
        let cut = make_pieces(&src, 2, 1, &vec![coin]).unwrap();
        let left_cell = cell(&cut.plan, 0, 0);
        let right_cell = cell(&cut.plan, 1, 0);
        let r = left_cell.right.unwrap();
        let l = right_cell.left.unwrap();
        assert_ne!(r, l);
        let m = cut.templates.margin;
        let left_piece = &cut.pieces[0].raster;
        let right_piece = &cut.pieces[1].raster;
        if r == Polarity::Tab {
            assert_eq!((left_piece.width, left_piece.height), (40 + m, 40));
            assert_eq!((right_piece.width, right_piece.height), (40, 40));
        } else {
            assert_eq!((left_piece.width, left_piece.height), (40, 40));
            assert_eq!((right_piece.width, right_piece.height), (40 + m, 40));
        }
    }
}

#[test]
fn top_tab_extends_canvas_and_shifts_content_down() {
    let src = coded_source(40, 40);
    let (cw, ch) = curve_dimensions(40, 40);
    let ts = generate_templates(40, 40, cw, ch).unwrap();
    let m = ts.margin;
    let edges = CellEdges { top: Some(Polarity::Tab), bottom: None, left: None, right: None };
    let r = rasterize_cell(&edges, &ts, &src, 0, 0);
    assert_eq!(r.width, 40);
    assert_eq!(r.height, 40 + m);
    let (red, green, blue, alpha) = raster_pixel(&r, 5, m + 5);
    assert_eq!(alpha, 255);
    assert_eq!((red, green, blue), (5, 5, 77));
}

#[test]
fn templates_are_rendered_and_measured() {
    let (cw, ch) = curve_dimensions(40, 40);
    let ts = generate_templates(40, 40, cw, ch).unwrap();
    assert!(ts.margin < 40);
    assert!(!ts.left_in.points.is_empty());
    assert!(!ts.top_out.points.is_empty());
    assert_eq!((ts.left_in.width, ts.left_in.height), (40, 40));
    assert_eq!((ts.left_out.width, ts.left_out.height), (40 + ch, 40));
    assert_eq!((ts.top_out.width, ts.top_out.height), (40, 40 + ch));
}

#[test]
fn zero_dimension_grid_is_rejected() {
    let src = coded_source(40, 40);
    assert_eq!(make_pieces(&src, 0, 4, &Vec::new()), Err(JigsawError::InvalidGrid));
    assert_eq!(make_pieces(&src, 4, 0, &Vec::new()), Err(JigsawError::InvalidGrid));
}

#[test]
fn wrong_coin_count_is_rejected() {
    let coins = vec![true, true, true];
    assert_eq!(plan_connectivity(2, 2, &coins), Err(JigsawError::CoinCountMismatch));
}

#[test]
fn oversized_grid_is_rejected() {
    let coins = Vec::new();
    assert_eq!(plan_connectivity(u32::MAX, u32::MAX, &coins), Err(JigsawError::GridTooLarge));
}

#[test]
fn degenerate_cell_geometry_is_rejected() {
    assert_eq!(generate_templates(3, 3, 1, 1), Err(JigsawError::DegenerateGeometry));
    let src = coded_source(6, 6);
    assert_eq!(make_pieces(&src, 2, 2, &vec![true, true, true, true]),
        Err(JigsawError::DegenerateGeometry));
}

#[test]
fn seeded_cut_fails_like_the_coin_driven_cut() {
    let small = coded_source(6, 6);
    for seed in [0u64, 99] {
        assert_eq!(make_pieces_seeded(&small, 2, 2, seed),
            Err(JigsawError::DegenerateGeometry));
        assert_eq!(make_pieces_seeded(&small, 0, 2, seed), Err(JigsawError::InvalidGrid));
    }
}
