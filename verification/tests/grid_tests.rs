use connectfour::disk::Disk;
use connectfour::grid::{Grid, GRID_COLS, GRID_ROWS};

fn disk(player: u8) -> Disk {
    Disk { player, color: (0, 0, 0) }
}

#[test]
fn new_grid_is_empty() {
    let g = Grid::new(GRID_COLS, GRID_ROWS);
    assert_eq!(g.cells.len(), 7);
    assert!(g.cells.iter().all(|c| c.len() == 6 && c.iter().all(|&v| v == 0)));
    assert_eq!(g.col_fill, [0; 7]);
    assert!(!g.is_full());
}

#[test]
fn push_stacks_disks_in_a_column() {
    let mut g = Grid::default();
    assert_eq!(g.push(disk(0), 3), Ok(0));
    assert_eq!(g.push(disk(1), 3), Ok(1));
    assert_eq!(g.get_cell(3, 0), 1);
    assert_eq!(g.get_cell(3, 1), 2);
    assert_eq!(g.col_fill[3], 2);
}

#[test]
fn push_rejects_bad_and_full_columns() {
    let mut g = Grid::default();
    assert_eq!(g.push(disk(0), 7), Err("Invalid column".to_string()));
    for _ in 0..6 {
        assert!(g.push(disk(0), 0).is_ok());
    }
    assert!(g.is_column_full(0));
    assert_eq!(g.push(disk(1), 0), Err("Column full".to_string()));
}

#[test]
fn horizontal_line_of_four_wins() {
    let mut g = Grid::default();
    for c in 0..3 {
        g.push(disk(0), c).unwrap();
        assert!(!g.check_winner(c, 0));
    }
    g.push(disk(0), 3).unwrap();
    assert!(g.check_winner(3, 0));
    assert!(g.check_winner(0, 0));
}

#[test]
fn vertical_line_of_four_wins() {
    let mut g = Grid::default();
    for r in 0..4 {
        g.push(disk(1), 5).unwrap();
        assert_eq!(g.check_winner(5, r), r == 3);
    }
}

#[test]
fn diagonal_lines_of_four_win() {
    // Rising diagonal: (0,0) (1,1) (2,2) (3,3) for player 0, filler for player 1.
    let mut g = Grid::default();
    for c in 0..4 {
        for _ in 0..c {
            g.push(disk(1), c).unwrap();
        }
        g.push(disk(0), c).unwrap();
    }
    assert!(g.check_winner(3, 3));
    assert!(g.check_winner(1, 1));
    // Falling diagonal: (3,3) (4,2) (5,1) (6,0).
    let mut h = Grid::default();
    for c in 3..7 {
        for _ in 0..(6 - c) {
            h.push(disk(1), c).unwrap();
        }
        h.push(disk(0), c).unwrap();
    }
    assert!(h.check_winner(6, 0));
    assert!(h.check_winner(3, 3));
}

#[test]
fn three_in_a_row_with_a_gap_does_not_win() {
    let mut g = Grid::default();
    for c in [0, 1, 3] {
        g.push(disk(0), c).unwrap();
    }
    assert!(!g.check_winner(3, 0));
    assert!(!g.check_winner(0, 0));
    assert!(!g.check_winner(2, 0));
}

#[test]
fn remove_undoes_push() {
    let mut g = Grid::default();
    g.push(disk(0), 2).unwrap();
    let before = g.to_flat();
    let row = g.push(disk(1), 2).unwrap();
    g.remove(2, row);
    let after = g.to_flat();
    assert_eq!(before.cells, after.cells);
    assert_eq!(before.col_fill, after.col_fill);
}

#[test]
fn remove_below_the_top_leaves_the_fill_height() {
    let mut g = Grid::default();
    g.push(disk(0), 2).unwrap();
    g.push(disk(1), 2).unwrap();
    g.remove(2, 0);
    assert_eq!(g.get_cell(2, 0), 0);
    assert_eq!(g.col_fill[2], 2);
}

#[test]
fn flat_roundtrip_keeps_the_board() {
    let mut g = Grid::default();
    g.push(disk(0), 0).unwrap();
    g.push(disk(1), 6).unwrap();
    g.push(disk(0), 6).unwrap();
    let flat = g.to_flat();
    assert_eq!(flat.cells.len(), 42);
    assert_eq!(flat.cells[0], 1);
    assert_eq!(flat.cells[36], 2);
    assert_eq!(flat.cells[37], 1);
    let back = Grid::from_flat(&flat);
    assert_eq!(back.cells, g.cells);
    assert_eq!(back.col_fill, g.col_fill);
    assert_eq!((back.width, back.height), (7, 6));
}

#[test]
fn from_flat_cuts_a_short_last_column() {
    let flat = connectfour::grid::FlatGrid { cells: vec![1, 2, 0, 1, 2], col_fill: [0; 7], width: 2, height: 2 };
    let g = Grid::from_flat(&flat);
    assert_eq!(g.cells, vec![vec![1, 2], vec![0, 1], vec![2]]);
}

#[test]
fn full_board_is_full() {
    let mut g = Grid::default();
    for c in 0..7 {
        for r in 0..6 {
            g.push(disk(((c + r) % 2) as u8), c).unwrap();
        }
    }
    assert!(g.is_full());
}

#[test]
fn get_disk_colours_by_player() {
    let mut g = Grid::default();
    g.push(disk(1), 4).unwrap();
    let colors = [(1, 2, 3), (4, 5, 6)];
    assert_eq!(g.get_disk(4, 0, &colors), Some(Disk { player: 1, color: (4, 5, 6) }));
    assert_eq!(g.get_disk(4, 1, &colors), None);
}
