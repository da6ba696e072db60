use jones21cma::jones_table::{
    angle_cells, jones_column, AngleGrid, JONES_COMPONENTS, PHI_COL, ROW_ENTRIES, THETA_COL,
};

#[test]
fn angle_columns_come_first() {
    assert_eq!(THETA_COL, 0);
    assert_eq!(PHI_COL, 1);
    assert_eq!(ROW_ENTRIES, 10);
    assert_eq!(JONES_COMPONENTS, 4);
}

#[test]
fn jones_columns_interleave_real_and_imaginary() {
    assert_eq!(jones_column(0, false), 2);
    assert_eq!(jones_column(0, true), 3);
    assert_eq!(jones_column(1, false), 4);
    assert_eq!(jones_column(1, true), 5);
    assert_eq!(jones_column(2, false), 6);
    assert_eq!(jones_column(2, true), 7);
    assert_eq!(jones_column(3, false), 8);
    assert_eq!(jones_column(3, true), 9);
}

#[test]
fn jones_columns_fill_the_row_exactly_once() {
    let mut seen = [false; 10];
    seen[THETA_COL] = true;
    seen[PHI_COL] = true;
    for comp in 0..4 {
        for imag in [false, true] {
            let col = jones_column(comp, imag);
            assert!(!seen[col]);
            seen[col] = true;
        }
    }
    assert!(seen.iter().all(|&s| s));
}

#[test]
fn row_index_runs_polar_angle_fastest() {
    let g = AngleGrid { ntheta: 4, nphi: 3 };
    assert_eq!(g.rows(), 12);
    assert_eq!(g.row_index(0, 0), 0);
    assert_eq!(g.row_index(3, 0), 3);
    assert_eq!(g.row_index(0, 1), 4);
    assert_eq!(g.row_index(2, 1), 6);
    assert_eq!(g.row_index(3, 2), 11);
}

#[test]
fn entry_index_is_row_major() {
    let g = AngleGrid { ntheta: 4, nphi: 3 };
    assert_eq!(g.entry_index(0, 0), 0);
    assert_eq!(g.entry_index(0, 9), 9);
    assert_eq!(g.entry_index(1, 0), 10);
    assert_eq!(g.entry_index(11, 9), 119);
}

#[test]
fn angle_plan_rows_equal_positions() {
    let g = AngleGrid { ntheta: 3, nphi: 2 };
    let cells = angle_cells(&g);
    assert_eq!(cells.len(), 6);
    for (k, c) in cells.iter().enumerate() {
        assert_eq!(c.row, k);
        assert_eq!(c.phi_idx, k / 3);
        assert_eq!(c.theta_idx, k % 3);
        assert_eq!(c.row, g.row_index(c.theta_idx, c.phi_idx));
    }
}
