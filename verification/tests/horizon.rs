use tppss::horizon::{
    concat_arrays, sector_bin_cells, sector_isolines, sector_len, sector_value_cell, BinCell, MaskGeometry,
    Sector,
};

const G: MaskGeometry = MaskGeometry { x_obs: 2, y_obs: 1, height: 4, width: 5 };

#[test]
fn sector_lengths_cover_a_quarter_or_half_turn() {
    assert_eq!(sector_len(Sector::NorthEast, 1), 91);
    assert_eq!(sector_len(Sector::NorthWest, 2), 181);
    assert_eq!(sector_len(Sector::East, 1), 181);
    assert_eq!(sector_len(Sector::South, 1), 181);
    assert_eq!(sector_len(Sector::West, 3), 541);
}

#[test]
fn isolines_per_sector() {
    assert_eq!(sector_isolines(&G, Sector::NorthEast), 1);
    assert_eq!(sector_isolines(&G, Sector::NorthWest), 1);
    assert_eq!(sector_isolines(&G, Sector::East), 3);
    assert_eq!(sector_isolines(&G, Sector::South), 3);
    assert_eq!(sector_isolines(&G, Sector::West), 2);
    let first_col = MaskGeometry { x_obs: 0, ..G };
    assert_eq!(sector_isolines(&first_col, Sector::NorthEast), 0);
}

fn cells(v: &[BinCell]) -> Vec<(usize, usize, i8)> {
    v.iter().map(|c| (c.row, c.col, c.turn)).collect()
}

#[test]
fn bin_cells_follow_the_scan() {
    assert_eq!(cells(&sector_bin_cells(&G, Sector::NorthEast, 0)), vec![(0, 1, -1), (0, 2, 0), (0, 3, 0), (0, 4, 0)]);
    assert_eq!(cells(&sector_bin_cells(&G, Sector::NorthWest, 0)), vec![(0, 0, 0), (0, 1, 0), (0, 2, 1)]);
    assert_eq!(cells(&sector_bin_cells(&G, Sector::East, 1)), vec![(0, 3, 0), (1, 3, 0), (2, 3, 0), (3, 3, 0)]);
    assert_eq!(cells(&sector_bin_cells(&G, Sector::South, 2)), vec![(3, 4, 0), (3, 3, 0), (3, 2, 0), (3, 1, 0), (3, 0, 0)]);
    assert_eq!(cells(&sector_bin_cells(&G, Sector::West, 1)), vec![(3, 1, 0), (2, 1, 0), (1, 1, 0), (0, 1, 0)]);
}

#[test]
fn value_cells_skip_out_of_range_bins() {
    assert_eq!(sector_value_cell(&G, Sector::NorthEast, 0, 0), None);
    assert_eq!(sector_value_cell(&G, Sector::NorthEast, 0, 1), Some((0, 2)));
    assert_eq!(sector_value_cell(&G, Sector::NorthEast, 0, 3), Some((0, 4)));
    assert_eq!(sector_value_cell(&G, Sector::NorthEast, 0, 4), None);
    assert_eq!(sector_value_cell(&G, Sector::NorthWest, 0, 1), Some((0, 0)));
    assert_eq!(sector_value_cell(&G, Sector::NorthWest, 0, 3), None);
    assert_eq!(sector_value_cell(&G, Sector::East, 2, 3), Some((3, 4)));
    assert_eq!(sector_value_cell(&G, Sector::East, 2, 4), None);
    assert_eq!(sector_value_cell(&G, Sector::South, 0, 1), Some((1, 3)));
    assert_eq!(sector_value_cell(&G, Sector::South, 0, 5), None);
    assert_eq!(sector_value_cell(&G, Sector::West, 1, 1), Some((2, 1)));
    assert_eq!(sector_value_cell(&G, Sector::West, 1, 0), None);
}

#[test]
fn concat_keeps_order() {
    let parts = vec![vec![1.0f64, 2.0], vec![], vec![3.0], vec![4.0, 5.0]];
    assert_eq!(concat_arrays(&parts), vec![1.0, 2.0, 3.0, 4.0, 5.0]);
    let none: Vec<Vec<u8>> = vec![];
    assert_eq!(concat_arrays(&none), Vec::<u8>::new());
}
