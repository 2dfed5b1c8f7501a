//! Superblock geometry.
use libsrs::srsv2::ctu64::{
    ctu_chroma_bounds_yuv420, ctu_grid_stats, ctu_luma_bounds, map_ctu_to_yuv420_bounds,
    validate_ctu_grid, CtuBounds, CtuError, CtuGrid, CtuSize, MAX_CTU_COUNT,
};
use libsrs::srsv2::limits::MAX_LUMA_SAMPLES;

fn chroma_plane_extent(width: u32, height: u32) -> (u32, u32) {
    (
        width.div_ceil(2),
        height.div_ceil(2),
    )
}

fn assert_chroma_inside_plane(grid: &CtuGrid, bounds: &CtuBounds) {
    let (cw, ch) = chroma_plane_extent(grid.width, grid.height);
    assert!(bounds.chroma.x0 <= bounds.chroma.x1);
    assert!(bounds.chroma.y0 <= bounds.chroma.y1);
    assert!(bounds.chroma.x1 <= cw);
    assert!(bounds.chroma.y1 <= ch);
    assert!(bounds.chroma.width() <= bounds.luma.width().div_ceil(2));
    assert!(bounds.chroma.height() <= bounds.luma.height().div_ceil(2));
}

#[test]
fn one_twenty_eight_square_splits_to_four_ctu64s() {
    let g = CtuGrid::new(128, 128, CtuSize::Ctu64).unwrap();
    assert_eq!(g.cols, 2);
    assert_eq!(g.rows, 2);
    assert_eq!(g.ctu_count(), 4);
    assert_eq!(g.count, g.ctu_count());
    let bounds: Vec<_> = g.iter().into_iter().map(|a| g.bounds_for_address(a).unwrap()).collect();
    assert_eq!(bounds[0].luma_width(), 64);
    assert_eq!(bounds[0].luma_height(), 64);
    assert_eq!(bounds[3].luma.x0, 64);
    assert_eq!(bounds[3].luma.y0, 64);
    assert_eq!(bounds[3].luma.x1, 128);
    assert_eq!(bounds[3].luma.y1, 128);
}

#[test]
fn nineteen_twenty_by_ten_eighty_has_safe_partial_edges() {
    let g = CtuGrid::new(1920, 1080, CtuSize::Ctu64).unwrap();
    assert_eq!(g.cols, 30);
    assert_eq!(g.rows, 17);
    assert_eq!(g.ctu_count(), 510);

    let last = g.ctu_bounds(g.ctu_count() - 1).unwrap();
    assert_eq!(last.luma.x0, 1856);
    assert_eq!(last.luma.x1, 1920);
    assert_eq!(last.luma.y0, 1024);
    assert_eq!(last.luma.y1, 1080);
    assert_eq!(last.luma_width(), 64);
    assert_eq!(last.luma_height(), 56);
    assert_eq!(last.chroma.x1, 960);
    assert_eq!(last.chroma.y1, 540);
    assert_chroma_inside_plane(&g, &last);
}

#[test]
fn eight_k_grid_accepted_and_bounded() {
    let g = CtuGrid::new(7680, 4320, CtuSize::Ctu64).unwrap();
    assert_eq!(g.cols, 120);
    assert_eq!(g.rows, 68);
    assert_eq!(g.ctu_count(), 8160);
    assert!((g.ctu_count() as u64) < MAX_CTU_COUNT);

    let dense = CtuGrid::new(7680, 4320, CtuSize::Ctu16).unwrap();
    assert_eq!(dense.cols, 480);
    assert_eq!(dense.rows, 270);
    assert_eq!(dense.ctu_count(), 129_600);
    assert!((dense.ctu_count() as u64) < MAX_CTU_COUNT);
}

#[test]
fn zero_dimensions_rejected() {
    assert_eq!(
        validate_ctu_grid(0, 64, CtuSize::Ctu64),
        Err(CtuError::ZeroDimensions)
    );
    assert_eq!(
        validate_ctu_grid(64, 0, CtuSize::Ctu64),
        Err(CtuError::ZeroDimensions)
    );
}

#[test]
fn oversized_dimensions_rejected() {
    assert_eq!(
        CtuGrid::new(u32::MAX, 64, CtuSize::Ctu64),
        Err(CtuError::DimensionTooLarge {
            width: u32::MAX,
            height: 64
        })
    );
    assert_eq!(
        CtuGrid::new(8192, 8192, CtuSize::Ctu16),
        Err(CtuError::LumaSamplesTooLarge {
            samples: 67_108_864,
            max: MAX_LUMA_SAMPLES
        })
    );
}

#[test]
fn chroma_bounds_valid_for_yuv420() {
    let g = CtuGrid::new(65, 65, CtuSize::Ctu64).unwrap();
    assert_eq!(g.cols, 2);
    assert_eq!(g.rows, 2);

    let top_left = map_ctu_to_yuv420_bounds(&g, 0).unwrap();
    assert_eq!(top_left.luma.x0, 0);
    assert_eq!(top_left.luma.x1, 64);
    assert_eq!(top_left.chroma.x0, 0);
    assert_eq!(top_left.chroma.x1, 32);
    assert_eq!(top_left.chroma.y1, 32);
    assert_chroma_inside_plane(&g, &top_left);

    let bottom_right = map_ctu_to_yuv420_bounds(&g, 3).unwrap();
    assert_eq!(bottom_right.luma.x0, 64);
    assert_eq!(bottom_right.luma.x1, 65);
    assert_eq!(bottom_right.luma.y0, 64);
    assert_eq!(bottom_right.luma.y1, 65);
    assert_eq!(bottom_right.chroma.x0, 32);
    assert_eq!(bottom_right.chroma.x1, 33);
    assert_eq!(bottom_right.chroma.y0, 32);
    assert_eq!(bottom_right.chroma.y1, 33);
    assert!(bottom_right.chroma.x1 <= 65_u32.div_ceil(2));
    assert!(bottom_right.chroma.y1 <= 65_u32.div_ceil(2));
    assert_chroma_inside_plane(&g, &bottom_right);

    assert_eq!(ctu_luma_bounds(&g, 3).unwrap(), bottom_right.luma);
    assert_eq!(
        ctu_chroma_bounds_yuv420(&g, 3).unwrap(),
        bottom_right.chroma
    );
}

#[test]
fn iter_covers_every_ctu_once() {
    let g = CtuGrid::new(1920, 1080, CtuSize::Ctu64).unwrap();
    let n = g.ctu_count() as usize;
    let mut seen = vec![false; n];
    for addr in g.iter() {
        assert!(addr.raster_index < g.ctu_count());
        assert!(
            !seen[addr.raster_index as usize],
            "duplicate raster_index {}",
            addr.raster_index
        );
        seen[addr.raster_index as usize] = true;
        let b = g.ctu_bounds(addr.raster_index).unwrap();
        assert_chroma_inside_plane(&g, &b);
    }
    assert!(
        seen.iter().all(|&x| x),
        "iterator missed {} CTUs",
        seen.iter().filter(|&&x| !x).count()
    );
}

#[test]
fn reporting_stats_count_partial_edge_ctus() {
    let s = ctu_grid_stats(1920, 1080, CtuSize::Ctu64).unwrap();
    assert_eq!(s.ctu_size, 64);
    assert_eq!(s.ctu_cols, 30);
    assert_eq!(s.ctu_rows, 17);
    assert_eq!(s.ctu_count, 510);
    assert_eq!(s.edge_ctu_count, 30);
    assert_eq!(
        s.total_luma_area as f64 / s.ctu_count as f64,
        (1920 * 1080) as f64 / 510.0
    );
    assert_eq!(s.max_ctu_luma_area, 64 * 64);
}

#[test]
fn stats_max_reflects_partial_edge_cell() {
    let s = ctu_grid_stats(96, 80, CtuSize::Ctu64).unwrap();
    assert_eq!(s.max_ctu_luma_area, 64 * 64);
    assert!(s.total_luma_area as f64 / (s.ctu_count as f64) < s.max_ctu_luma_area as f64);
}
