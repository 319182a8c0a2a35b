use conway_app::{DecodeError, Grid};

fn grid3(live: &[(usize, usize)]) -> Grid<3, 3> {
    let mut cells = vec![false; 9];
    for &(y, x) in live {
        cells[y * 3 + x] = true;
    }
    Grid::<3, 3>::deserialize(&cells).unwrap()
}

fn live_cells<const W: usize, const H: usize>(g: &Grid<W, H>) -> usize {
    g.serialize().iter().filter(|&&c| c).count()
}

#[test]
fn empty_has_no_live_cells() {
    assert_eq!(live_cells(&Grid::<16, 16>::empty()), 0);
    assert_eq!(live_cells(&Grid::<3, 7>::empty()), 0);
    assert_eq!(Grid::<0, 0>::empty().serialize().len(), 0);
    assert_eq!(Grid::<5, 0>::empty().serialize().len(), 0);
    assert_eq!(Grid::<4, 2>::empty().serialize(), vec![false; 8]);
}

#[test]
fn at_off_grid_is_dead() {
    let all = Grid::<2, 3>::deserialize(&[true; 6]).unwrap();
    assert!(all.at(0, 0));
    assert!(all.at(2, 1));
    assert!(!all.at(3, 0));
    assert!(!all.at(0, 2));
    assert!(!all.at(usize::MAX, 0));
    assert!(!all.at(0, usize::MAX));
}

#[test]
fn at_reads_row_major() {
    let g = Grid::<3, 2>::deserialize(&[false, true, false, false, false, true]).unwrap();
    assert!(g.at(0, 1));
    assert!(g.at(1, 2));
    assert!(!g.at(1, 1));
    assert!(!g.at(0, 2));
}

#[test]
fn round_trip_keeps_cells() {
    let cells = vec![true, false, false, true, true, false, true, true, false, false, true, false];
    let g = Grid::<4, 3>::deserialize(&cells).unwrap();
    assert_eq!(g.serialize(), cells);
    let again = Grid::<4, 3>::deserialize(&g.serialize()).unwrap();
    assert_eq!(again, g);
}

#[test]
fn decode_rejects_wrong_lengths() {
    assert_eq!(
        Grid::<3, 3>::deserialize(&[false; 8]).unwrap_err(),
        DecodeError::NotEnoughElements
    );
    assert_eq!(
        Grid::<3, 3>::deserialize(&[]).unwrap_err(),
        DecodeError::NotEnoughElements
    );
    assert_eq!(
        Grid::<3, 3>::deserialize(&[true; 10]).unwrap_err(),
        DecodeError::TooManyElements
    );
    assert!(Grid::<3, 3>::deserialize(&[true; 9]).is_ok());
    assert!(Grid::<0, 4>::deserialize(&[]).is_ok());
    assert_eq!(
        Grid::<0, 4>::deserialize(&[false]).unwrap_err(),
        DecodeError::TooManyElements
    );
}

#[test]
fn isolated_cell_dies() {
    let g = grid3(&[(1, 1)]);
    assert_eq!(g.count_neighbors(1, 1), 0);
    assert!(!g.next_at(1, 1));
    assert_eq!(g.step(), Grid::<3, 3>::empty());
}

#[test]
fn l_shape_grows_a_cell() {
    let g = grid3(&[(0, 0), (0, 1), (1, 0)]);
    assert_eq!(g.count_neighbors(1, 1), 3);
    assert_eq!(g.count_neighbors(0, 0), 2);
    let next = g.step();
    assert!(next.at(1, 1));
    assert!(next.at(0, 0));
    assert_eq!(next, grid3(&[(0, 0), (0, 1), (1, 0), (1, 1)]));
}

#[test]
fn block_is_still_life() {
    let g = grid3(&[(0, 0), (0, 1), (1, 0), (1, 1)]);
    for &(y, x) in &[(0, 0), (0, 1), (1, 0), (1, 1)] {
        assert_eq!(g.count_neighbors(y, x), 3);
    }
    assert_eq!(g.step(), g);
}

#[test]
fn blinker_oscillates() {
    let g = Grid::<5, 5>::deserialize(&[
        false, false, false, false, false, //
        false, false, true, false, false, //
        false, false, true, false, false, //
        false, false, true, false, false, //
        false, false, false, false, false,
    ])
    .unwrap();
    let flipped = g.step();
    assert_eq!(
        flipped.serialize(),
        vec![
            false, false, false, false, false, //
            false, false, false, false, false, //
            false, true, true, true, false, //
            false, false, false, false, false, //
            false, false, false, false, false,
        ]
    );
    assert_eq!(flipped.step(), g);
}

#[test]
fn count_active_counts_repeats_and_off_grid() {
    let g = grid3(&[(0, 0), (2, 2)]);
    assert_eq!(g.count_active(&vec![(0, 0), (0, 0), (2, 2), (5, 5), (1, 1)]), 3);
    assert_eq!(g.count_active(&vec![]), 0);
}

#[test]
fn corner_neighbors_skip_missing_coordinates() {
    let all = Grid::<3, 3>::deserialize(&[true; 9]).unwrap();
    assert_eq!(all.count_neighbors(0, 0), 3);
    assert_eq!(all.count_neighbors(0, 1), 5);
    assert_eq!(all.count_neighbors(1, 1), 8);
    assert_eq!(all.count_neighbors(2, 2), 3);
    assert_eq!(all.count_neighbors(usize::MAX, usize::MAX), 0);
}

#[test]
fn stepping_is_deterministic() {
    let a = grid3(&[(0, 1), (1, 1), (2, 0), (2, 2)]);
    let b = grid3(&[(2, 2), (2, 0), (1, 1), (0, 1)]);
    assert_eq!(a, b);
    assert_eq!(a.step(), b.step());
}

#[test]
fn iterator_walks_generations() {
    let g = grid3(&[(0, 0), (0, 1), (1, 0)]);
    let mut gens = g.clone().into_iter();
    let first = gens.next().unwrap();
    assert_eq!(first, g.step());
    let second = gens.next().unwrap();
    assert_eq!(second, first.step());
    assert_eq!(g, grid3(&[(0, 0), (0, 1), (1, 0)]));
}

#[test]
fn display_of_empty_two_by_one() {
    assert_eq!(Grid::<2, 1>::empty().to_display_string(), "/==\\\n|  |\n\\==/");
}

#[test]
fn display_marks_live_cells() {
    let g = Grid::<3, 2>::deserialize(&[true, false, true, false, true, false]).unwrap();
    assert_eq!(g.to_display_string(), "/===\\\n|X X|\n| X |\n\\===/");
    assert_eq!(Grid::<0, 0>::empty().to_display_string(), "/\\\n\\/");
}

#[test]
fn random_has_every_cell() {
    let g = Grid::<16, 16>::random();
    assert_eq!(g.serialize().len(), 256);
    let many = Grid::<64, 64>::random();
    let n = live_cells(&many);
    assert!(n > 0 && n < 64 * 64);
}
