use tppss::window::{assemble_window, observer_cell, study_window, tile_plan, TileData, Window};

#[test]
fn observer_must_be_on_the_dem() {
    assert_eq!(observer_cell(2, 3, 10, 20), Some((2, 3)));
    assert_eq!(observer_cell(-1, 3, 10, 20), None);
    assert_eq!(observer_cell(2, -3, 10, 20), None);
    assert_eq!(observer_cell(10, 3, 10, 20), None);
    assert_eq!(observer_cell(2, 20, 10, 20), None);
    assert_eq!(observer_cell(9, 19, 10, 20), Some((9, 19)));
}

#[test]
fn study_window_is_clamped_to_the_dem() {
    let w = study_window(5, 5, 3, 2, 100, 100).unwrap();
    assert_eq!(w, Window { row_start: 2, col_start: 3, height: 6, width: 4 });
    let w = study_window(1, 98, 5, 5, 100, 100).unwrap();
    assert_eq!(w, Window { row_start: 0, col_start: 93, height: 6, width: 7 });
    assert!(w.row_start <= 1 && 1 < w.row_start + w.height);
}

#[test]
fn empty_study_window_is_refused() {
    assert_eq!(study_window(5, 5, 0, 2, 100, 100), None);
    assert_eq!(study_window(5, 5, 2, 0, 100, 100), None);
    assert_eq!(study_window(5, 5, -3, 2, 100, 100), None);
}

#[test]
fn tile_plan_lists_touched_tiles_in_reading_order() {
    let w = Window { row_start: 3, col_start: 5, height: 4, width: 6 };
    // rows 3..7 with tiles of 2 rows: tile rows 1..=3; cols 5..11 with tiles of 4 cols: tile cols 1..=2
    let plan = tile_plan(&w, 2, 4);
    assert_eq!(plan, vec![(1, 1), (2, 1), (1, 2), (2, 2), (1, 3), (2, 3)]);
}

fn dem_value(row: usize, col: usize) -> i64 {
    (row * 1000 + col) as i64
}

fn full_tile(tx: usize, ty: usize, th: usize, tw: usize) -> TileData<i64> {
    let mut data = Vec::new();
    for r in 0..th {
        for c in 0..tw {
            data.push(dem_value(ty * th + r, tx * tw + c));
        }
    }
    TileData { tile_x: tx, tile_y: ty, height: th, width: tw, data }
}

#[test]
fn assembled_window_is_the_dem_restricted_to_it() {
    let (th, tw) = (3, 4);
    for w in [
        Window { row_start: 0, col_start: 0, height: 1, width: 1 },
        Window { row_start: 2, col_start: 3, height: 7, width: 9 },
        Window { row_start: 5, col_start: 7, height: 1, width: 10 },
    ] {
        let plan = tile_plan(&w, th, tw);
        let tiles: Vec<TileData<i64>> = plan.iter().map(|&(tx, ty)| full_tile(tx, ty, th, tw)).collect();
        let out = assemble_window(&w, th, tw, &tiles, -1);
        assert_eq!(out.len(), w.height * w.width);
        for r in 0..w.height {
            for c in 0..w.width {
                assert_eq!(out[r * w.width + c], dem_value(w.row_start + r, w.col_start + c));
            }
        }
    }
}

#[test]
fn cells_without_a_tile_keep_the_fill_value() {
    let w = Window { row_start: 0, col_start: 0, height: 2, width: 4 };
    let tiles = vec![full_tile(0, 0, 2, 2)];
    let out = assemble_window(&w, 2, 2, &tiles, -1);
    assert_eq!(out, vec![0, 1, -1, -1, 1000, 1001, -1, -1]);
}

#[test]
fn smaller_edge_tiles_only_fill_what_they_hold() {
    // a 1x1 tile at tile coordinates (1, 0) on a 2x2 grid covers pixel (0, 2) only
    let w = Window { row_start: 0, col_start: 2, height: 2, width: 2 };
    let tiles = vec![TileData { tile_x: 1, tile_y: 0, height: 1, width: 1, data: vec![7i64] }];
    let out = assemble_window(&w, 2, 2, &tiles, 0);
    assert_eq!(out, vec![7, 0, 0, 0]);
}

#[test]
fn later_tiles_overwrite_earlier_ones() {
    let w = Window { row_start: 0, col_start: 0, height: 1, width: 2 };
    let a = TileData { tile_x: 0, tile_y: 0, height: 1, width: 2, data: vec![1i64, 2] };
    let b = TileData { tile_x: 0, tile_y: 0, height: 1, width: 1, data: vec![9i64] };
    let out = assemble_window(&w, 1, 2, &vec![a, b], 0);
    assert_eq!(out, vec![9, 2]);
}
