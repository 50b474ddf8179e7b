use grid_model::models::{Cell, Grid, GrowthStatus, MAX_HEAT, MIN_HEAT, OVERHEAT};

#[test]
fn default_cell_is_idle_with_capacity_five() {
    let c = Cell::default();
    assert_eq!(c.capacity, 5);
    assert_eq!(c.radiators, 0);
}

#[test]
fn new_grid_has_default_cells_and_fixed_dimensions() {
    let g = Grid::new(4, 3);
    assert_eq!(g.dimensions(), (4, 3));
    let entries = g.iter();
    assert_eq!(entries.len(), 12);
    for (_, cell) in entries {
        assert_eq!(cell.capacity, 5);
        assert_eq!(cell.radiators, 0);
    }
}

#[test]
fn get_is_absent_exactly_outside_the_rectangle() {
    let g = Grid::new(4, 3);
    assert!(g.get(&(0, 0)).is_some());
    assert!(g.get(&(2, 3)).is_some());
    assert!(g.get(&(-1, 0)).is_none());
    assert!(g.get(&(0, -1)).is_none());
    assert!(g.get(&(0, 4)).is_none());
    // Both axes are bounded: a row at or past the height is absent too.
    assert!(g.get(&(3, 0)).is_none());
    assert!(g.get(&(i32::MAX, 0)).is_none());
}

#[test]
fn get_and_get_mut_agree_on_cell_content() {
    let mut g = Grid::new(4, 4);
    for i in 0..4i32 {
        for j in 0..4i32 {
            let seen = *g.get(&(i, j)).unwrap();
            let seen_mut = *g.get_mut(&(i, j)).unwrap();
            assert_eq!(seen, seen_mut);
        }
    }
    g.get_mut(&(2, 1)).unwrap().radiators = 1;
    g.get_mut(&(2, 1)).unwrap().capacity = 9;
    let cell = *g.get(&(2, 1)).unwrap();
    assert_eq!(cell, *g.get_mut(&(2, 1)).unwrap());
    assert_eq!(cell.radiators, 1);
    assert_eq!(cell.capacity, 9);
    assert!(g.get_mut(&(4, 0)).is_none());
    assert!(g.get_mut(&(0, 4)).is_none());
}

#[test]
fn toggling_twice_restores_the_cell() {
    let mut g = Grid::new(3, 3);
    assert_eq!(g.get(&(1, 1)).unwrap().radiators, 0);
    g.toggle(&(1, 1));
    assert_eq!(g.get(&(1, 1)).unwrap().radiators, 1);
    g.toggle(&(1, 1));
    assert_eq!(g.get(&(1, 1)).unwrap().radiators, 0);

    g.get_mut(&(0, 2)).unwrap().radiators = 1;
    g.toggle(&(0, 2));
    g.toggle(&(0, 2));
    assert_eq!(g.get(&(0, 2)).unwrap().radiators, 1);

    // Out of range: a no-op.
    g.toggle(&(-1, 5));
    assert_eq!(g.get(&(1, 1)).unwrap().radiators, 0);
}

#[test]
fn isolated_center_radiator_heats_itself_to_five() {
    let mut g = Grid::new(5, 5);
    g.get_mut(&(2, 2)).unwrap().radiators = 1;
    assert_eq!(g.get_heat(&(2, 2)), 5);
    // Orthogonal neighbors see weight 3, diagonal neighbors weight 1.
    assert_eq!(g.get_heat(&(1, 2)), 3);
    assert_eq!(g.get_heat(&(2, 1)), 3);
    assert_eq!(g.get_heat(&(1, 1)), 1);
    assert_eq!(g.get_heat(&(3, 3)), 1);
    // Two steps away: no contribution.
    assert_eq!(g.get_heat(&(0, 2)), 0);
}

#[test]
fn heat_reaches_out_of_range_coordinates() {
    let mut g = Grid::new(3, 3);
    g.get_mut(&(0, 0)).unwrap().radiators = 1;
    // The queried coordinate is outside the rectangle, but its in-range
    // orthogonal neighbor still contributes.
    assert_eq!(g.get_heat(&(-1, 0)), 3);
    assert_eq!(g.get_heat(&(0, -1)), 3);
    assert_eq!(g.get_heat(&(-1, -1)), 1);
    assert_eq!(g.get_heat(&(-1, 2)), 0);
}

#[test]
fn status_bands_follow_the_thresholds() {
    assert_eq!((MIN_HEAT, MAX_HEAT, OVERHEAT), (3, 6, 8));

    // Heat 3: one orthogonal active neighbor, nothing else.
    let mut g = Grid::new(5, 5);
    g.get_mut(&(1, 2)).unwrap().radiators = 1;
    assert_eq!(g.get_heat(&(2, 2)), 3);
    assert_eq!(g.get_status(&(2, 2)), Some(GrowthStatus::Fruiting(5)));

    // Heat 6: two orthogonal active neighbors, still fruiting.
    let mut g = Grid::new(5, 5);
    g.get_mut(&(1, 2)).unwrap().radiators = 1;
    g.get_mut(&(3, 2)).unwrap().radiators = 1;
    assert_eq!(g.get_heat(&(2, 2)), 6);
    assert_eq!(g.get_status(&(2, 2)), Some(GrowthStatus::Fruiting(5)));

    // Heat 2: two diagonal active neighbors, too cold.
    let mut g = Grid::new(5, 5);
    g.get_mut(&(1, 1)).unwrap().radiators = 1;
    g.get_mut(&(1, 3)).unwrap().radiators = 1;
    assert_eq!(g.get_heat(&(2, 2)), 2);
    assert_eq!(g.get_status(&(2, 2)), Some(GrowthStatus::TooCold));

    // Heat 7: two orthogonal and one diagonal, too hot.
    let mut g = Grid::new(5, 5);
    g.get_mut(&(1, 2)).unwrap().radiators = 1;
    g.get_mut(&(3, 2)).unwrap().radiators = 1;
    g.get_mut(&(1, 1)).unwrap().radiators = 1;
    assert_eq!(g.get_heat(&(2, 2)), 7);
    assert_eq!(g.get_status(&(2, 2)), Some(GrowthStatus::TooHot));

    // Heat 8: the cell itself plus one orthogonal neighbor, overheated.
    let mut g = Grid::new(5, 5);
    g.get_mut(&(2, 2)).unwrap().radiators = 1;
    g.get_mut(&(1, 2)).unwrap().radiators = 1;
    assert_eq!(g.get_heat(&(2, 2)), 8);
    assert_eq!(g.get_status(&(2, 2)), Some(GrowthStatus::Overheated));
}

#[test]
fn status_is_absent_out_of_range() {
    let g = Grid::new(3, 3);
    assert_eq!(g.get_status(&(-1, 0)), None);
    assert_eq!(g.get_status(&(0, 3)), None);
    assert_eq!(g.get_status(&(3, 0)), None);
}

#[test]
fn total_growth_sums_capacity_over_fruiting_cells_only() {
    let mut g = Grid::new(4, 4);
    g.get_mut(&(0, 0)).unwrap().radiators = 1;
    g.get_mut(&(2, 2)).unwrap().radiators = 1;
    let mut expected: u32 = 0;
    for ((i, j), _) in g.iter() {
        if let Some(GrowthStatus::Fruiting(c)) = g.get_status(&(i, j)) {
            expected += c;
        }
    }
    assert_eq!(g.total_growth(), expected);
    // An independent count: the cells orthogonal to each active radiator sit
    // at heat 3, the diagonal ones at 1; the radiator cells themselves at 5.
    // Fruiting are the two radiator cells (heat 5) and their orthogonal
    // neighbors with heat 3: (0,1),(1,0) and (1,2),(2,1),(2,3),(3,2).
    assert_eq!(g.total_growth(), 8 * 5);

    let empty = Grid::new(4, 4);
    assert_eq!(empty.total_growth(), 0);
}

#[test]
fn iter_yields_each_coordinate_exactly_once_in_row_major_order() {
    let g = Grid::new(4, 3);
    let entries = g.iter();
    assert_eq!(entries.len(), 12);
    let mut expected: Vec<(i32, i32)> = Vec::new();
    for i in 0..3i32 {
        for j in 0..4i32 {
            expected.push((i, j));
        }
    }
    let coords: Vec<(i32, i32)> = entries.iter().map(|(c, _)| *c).collect();
    assert_eq!(coords, expected);
    // Restartable: a second traversal yields the same entries.
    assert_eq!(g.iter(), entries);
}

#[test]
fn zero_sized_grids_are_empty_and_harmless() {
    let g = Grid::new(0, 3);
    assert_eq!(g.dimensions(), (0, 3));
    assert!(g.iter().is_empty());
    assert!(g.get(&(0, 0)).is_none());
    assert_eq!(g.total_growth(), 0);
    assert_eq!(g.get_heat(&(1, 1)), 0);
}
