use game_of_life::universe::{next_cell_state, GridError, Universe};

/// A `width` x `height` grid whose live cells are exactly `live`, as (row, col).
fn grid(width: usize, height: usize, live: &[(usize, usize)]) -> Universe {
    let mut cells = vec![false; width * height];
    for &(row, col) in live {
        cells[row * width + col] = true;
    }
    Universe::from_cells(width, height, cells).unwrap()
}

fn live_cells(u: &Universe) -> Vec<(usize, usize)> {
    let mut live = Vec::new();
    for row in 0..u.height() {
        for col in 0..u.width() {
            if u.is_alive(row, col) {
                live.push((row, col));
            }
        }
    }
    live
}

#[test]
fn new_has_one_cell_per_position() {
    let mut u = Universe::new(128, 128);
    assert_eq!(u.width(), 128);
    assert_eq!(u.height(), 128);
    assert_eq!(u.cells().len(), 128 * 128);
    for _ in 0..5 {
        u.tick();
        assert_eq!(u.cells().len(), 128 * 128);
        assert_eq!(u.width(), 128);
        assert_eq!(u.height(), 128);
    }
}

#[test]
fn new_on_uneven_dimensions() {
    let u = Universe::new(7, 3);
    assert_eq!(u.cells().len(), 21);
    assert_eq!((u.width(), u.height()), (7, 3));
}

#[test]
fn try_new_accepts_positive_dimensions() {
    let u = Universe::try_new(4, 6).unwrap();
    assert_eq!((u.width(), u.height()), (4, 6));
    assert_eq!(u.cells().len(), 24);
}

#[test]
fn try_new_rejects_zero_dimensions() {
    assert_eq!(Universe::try_new(0, 5), Err(GridError::InvalidDimensions));
    assert_eq!(Universe::try_new(5, 0), Err(GridError::InvalidDimensions));
    assert_eq!(Universe::try_new(0, 0), Err(GridError::InvalidDimensions));
}

#[test]
fn try_new_rejects_overflowing_dimensions() {
    assert_eq!(Universe::try_new(usize::MAX, 2), Err(GridError::InvalidDimensions));
}

#[test]
fn from_cells_checks_the_buffer() {
    assert_eq!(Universe::from_cells(3, 3, vec![false; 8]), Err(GridError::InvalidDimensions));
    assert_eq!(Universe::from_cells(0, 3, vec![]), Err(GridError::InvalidDimensions));
    let u = Universe::from_cells(3, 2, vec![true, false, false, false, false, true]).unwrap();
    assert!(u.is_alive(0, 0));
    assert!(u.is_alive(1, 2));
    assert!(!u.is_alive(1, 0));
    assert_eq!(u.cells(), &[true, false, false, false, false, true][..]);
}

#[test]
fn tick_is_deterministic() {
    let cells = vec![
        true, false, true, true, false, //
        false, true, true, false, false, //
        true, true, false, false, true, //
        false, false, true, false, true, //
    ];
    let mut a = Universe::from_cells(5, 4, cells.clone()).unwrap();
    let mut b = Universe::from_cells(5, 4, cells).unwrap();
    let mut c = a.clone();
    a.tick();
    b.tick();
    c.tick();
    assert_eq!(a, b);
    assert_eq!(a, c);
    assert_eq!(a.cells(), b.cells());
}

#[test]
fn tick_is_deterministic_on_random_grid() {
    let original = Universe::new(32, 24);
    let mut a = original.clone();
    let mut b = original.clone();
    for _ in 0..3 {
        a.tick();
        b.tick();
    }
    assert_eq!(a, b);
}

#[test]
fn corner_counts_opposite_corner() {
    let u = grid(6, 4, &[(3, 5)]);
    assert_eq!(u.live_neighbor_count(0, 0), 1);
    let v = grid(6, 4, &[(0, 0)]);
    assert_eq!(v.live_neighbor_count(3, 5), 1);
}

#[test]
fn edges_wrap_to_opposite_edge() {
    let u = grid(5, 5, &[(0, 2)]);
    assert_eq!(u.live_neighbor_count(4, 2), 1);
    assert_eq!(u.live_neighbor_count(4, 1), 1);
    assert_eq!(u.live_neighbor_count(3, 2), 0);
    let v = grid(5, 5, &[(2, 4)]);
    assert_eq!(v.live_neighbor_count(2, 0), 1);
    assert_eq!(v.live_neighbor_count(2, 1), 0);
}

#[test]
fn block_is_still_life() {
    let block = [(4, 4), (4, 5), (5, 4), (5, 5)];
    let mut u = grid(10, 10, &block);
    let before = u.clone();
    u.tick();
    assert_eq!(u, before);
    assert_eq!(live_cells(&u), block.to_vec());
}

#[test]
fn block_counts() {
    let u = grid(10, 10, &[(4, 4), (4, 5), (5, 4), (5, 5)]);
    assert_eq!(u.live_neighbor_count(4, 4), 3);
    assert_eq!(u.live_neighbor_count(5, 5), 3);
    assert_eq!(u.live_neighbor_count(3, 4), 2);
    assert_eq!(u.live_neighbor_count(3, 3), 1);
    assert_eq!(u.live_neighbor_count(6, 5), 2);
}

#[test]
fn isolated_cell_dies() {
    let mut u = grid(5, 5, &[(2, 2)]);
    assert_eq!(u.live_neighbor_count(2, 2), 0);
    u.tick();
    assert!(!u.is_alive(2, 2));
    assert!(live_cells(&u).is_empty());
}

#[test]
fn three_neighbours_give_birth() {
    let mut u = grid(5, 5, &[(1, 2), (2, 1), (2, 2)]);
    assert_eq!(u.live_neighbor_count(1, 1), 3);
    assert!(!u.is_alive(1, 1));
    u.tick();
    assert!(u.is_alive(1, 1));
    assert_eq!(live_cells(&u), vec![(1, 1), (1, 2), (2, 1), (2, 2)]);
}

#[test]
fn crowded_cell_dies() {
    let mut u = grid(5, 5, &[(2, 2), (1, 1), (1, 3), (3, 1), (3, 3)]);
    assert_eq!(u.live_neighbor_count(2, 2), 4);
    u.tick();
    assert!(!u.is_alive(2, 2));
}

#[test]
fn blinker_oscillates() {
    let horizontal = [(2, 1), (2, 2), (2, 3)];
    let vertical = [(1, 2), (2, 2), (3, 2)];
    let mut u = grid(5, 5, &horizontal);
    u.tick();
    assert_eq!(live_cells(&u), vertical.to_vec());
    u.tick();
    assert_eq!(live_cells(&u), horizontal.to_vec());
}

#[test]
fn glider_moves_diagonally() {
    let mut u = grid(8, 8, &[(0, 1), (1, 2), (2, 0), (2, 1), (2, 2)]);
    for _ in 0..4 {
        u.tick();
    }
    assert_eq!(live_cells(&u), vec![(1, 2), (2, 3), (3, 1), (3, 2), (3, 3)]);
}

#[test]
fn neighbour_count_stays_in_range() {
    let full = grid(3, 3, &[(0, 0), (0, 1), (0, 2), (1, 0), (1, 1), (1, 2), (2, 0), (2, 1), (2, 2)]);
    for row in 0..3 {
        for col in 0..3 {
            assert_eq!(full.live_neighbor_count(row, col), 8);
        }
    }
    let empty = grid(3, 3, &[]);
    assert_eq!(empty.live_neighbor_count(1, 1), 0);
    let random = Universe::new(40, 30);
    for row in 0..30 {
        for col in 0..40 {
            assert!(random.live_neighbor_count(row, col) <= 8);
        }
    }
}

#[test]
fn single_cell_grid_skips_pairs_with_zero_offsets() {
    // offsets [0, 0, 1] x [0, 0, 1]: four pairs are both 0, the other five
    // all reach the one cell
    let alive = grid(1, 1, &[(0, 0)]);
    assert_eq!(alive.live_neighbor_count(0, 0), 5);
    let mut u = alive.clone();
    u.tick();
    assert!(!u.is_alive(0, 0));
    let dead = grid(1, 1, &[]);
    assert_eq!(dead.live_neighbor_count(0, 0), 0);
}

#[test]
fn narrow_grid_counts_by_offset_pairs() {
    let column = grid(1, 3, &[(0, 0)]);
    assert_eq!(column.live_neighbor_count(1, 0), 3);
    assert_eq!(column.live_neighbor_count(0, 0), 1);
    assert_eq!(column.live_neighbor_count(2, 0), 3);
    let row = grid(4, 1, &[(0, 1)]);
    assert_eq!(row.live_neighbor_count(0, 0), 3);
    assert_eq!(row.live_neighbor_count(0, 1), 1);
    assert_eq!(row.live_neighbor_count(0, 3), 0);
}

#[test]
fn lone_cell_on_one_row_grid_dies() {
    // the live cell counts 1 and dies; its two neighbours count 3 each and
    // are born, the cell opposite counts 0
    let mut u = grid(4, 1, &[(0, 1)]);
    assert_eq!(u.live_neighbor_count(0, 2), 3);
    u.tick();
    assert!(!u.is_alive(0, 1));
    assert_eq!(live_cells(&u), vec![(0, 0), (0, 2)]);
}

#[test]
fn rule_table() {
    for n in 0..=8u8 {
        let survives = n == 2 || n == 3;
        assert_eq!(next_cell_state(true, n), survives);
        assert_eq!(next_cell_state(false, n), n == 3);
    }
}

#[test]
fn random_cells_are_about_half_alive() {
    let u = Universe::new(400, 250);
    let alive = u.cells().iter().filter(|&&c| c).count();
    let fraction = alive as f64 / u.cells().len() as f64;
    assert!(fraction > 0.45 && fraction < 0.55, "fraction alive: {}", fraction);
}

#[test]
fn two_random_universes_differ() {
    let a = Universe::new(64, 64);
    let b = Universe::new(64, 64);
    assert_ne!(a.cells(), b.cells());
}
