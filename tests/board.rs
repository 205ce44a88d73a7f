use life::LifeBoard;

fn parse(rows: &[&str]) -> LifeBoard {
    let size = rows.len() as u32;
    let cells: Vec<bool> = rows.iter().flat_map(|r| r.chars().map(|c| c == '#')).collect();
    LifeBoard::new(size, cells).expect("square board")
}

#[test]
fn test_offset() {
    let target = LifeBoard { size: 3, cells: vec![] };
    assert_eq!(0, target.offset(0, 0));
    assert_eq!(1, target.offset(1, 0));
    assert_eq!(2, target.offset(2, 0));
    assert_eq!(3, target.offset(0, 1));
    assert_eq!(4, target.offset(1, 1));
    assert_eq!(5, target.offset(2, 1));
    assert_eq!(6, target.offset(0, 2));
    assert_eq!(7, target.offset(1, 2));
    assert_eq!(8, target.offset(2, 2));
}

#[test]
fn test_around() {
    let cells = vec![true, true, true, true, true, true, true, true, true];
    let target = LifeBoard { size: 3, cells: cells };
    assert_eq!(3, target.around(0, 0));
    assert_eq!(5, target.around(0, 1));
    assert_eq!(8, target.around(1, 1));
    assert_eq!(3, target.around(2, 2));
    assert_eq!(3, target.around(2, 2));
}

#[test]
fn block_is_still_life() {
    let block = parse(&["....", ".##.", ".##.", "...."]);
    let next = block.next_board();
    assert_eq!(next.size, 4);
    assert_eq!(next.cells, block.cells);
    let later = block.advance(100);
    assert_eq!(later.size, 4);
    assert_eq!(later.cells, block.cells);
}

#[test]
fn blinker_has_period_two() {
    let start = parse(&[".....", ".....", ".###.", ".....", "....."]);
    let vertical = parse(&[".....", "..#..", "..#..", "..#..", "....."]);
    let one = start.next_board();
    assert_eq!(one.cells, vertical.cells);
    assert_ne!(one.cells, start.cells);
    let two = one.next_board();
    assert_eq!(two.cells, start.cells);
    assert_eq!(start.advance(2).cells, start.cells);
    assert_eq!(start.advance(101).cells, vertical.cells);
}

#[test]
fn lone_cell_dies() {
    let g = parse(&["...", ".#.", "..."]);
    assert_eq!(g.around(1, 1), 0);
    assert!(!g.next_cell(1, 1));
    assert_eq!(g.next_board().cells, vec![false; 9]);
}

#[test]
fn all_alive_collapses_to_corners() {
    let g = LifeBoard::new(3, vec![true; 9]).unwrap();
    let expected = parse(&["#.#", "...", "#.#"]);
    assert_eq!(g.next_board().cells, expected.cells);
}

#[test]
fn empty_board_stays_empty() {
    let g = LifeBoard::new(6, vec![false; 36]).unwrap();
    assert_eq!(g.next_board().cells, vec![false; 36]);
    assert_eq!(g.advance(10).cells, vec![false; 36]);
}

#[test]
fn size_zero_and_one() {
    let empty = LifeBoard::new(0, vec![]).unwrap();
    let next = empty.next_board();
    assert_eq!(next.size, 0);
    assert!(next.cells.is_empty());
    let single = LifeBoard::new(1, vec![true]).unwrap();
    assert_eq!(single.around(0, 0), 0);
    assert_eq!(single.next_board().cells, vec![false]);
}

#[test]
fn mismatched_length_is_refused() {
    assert!(LifeBoard::new(3, vec![true; 8]).is_none());
    assert!(LifeBoard::new(2, vec![false; 5]).is_none());
    assert!(LifeBoard::new(0, vec![true]).is_none());
    assert!(LifeBoard::new(2, vec![false; 4]).is_some());
}

#[test]
fn direction_queries_treat_outside_as_dead() {
    let g = LifeBoard::new(3, vec![true; 9]).unwrap();
    assert!(!g.is_alive_nw(0, 0));
    assert!(!g.is_alive_nn(0, 0));
    assert!(!g.is_alive_ne(0, 0));
    assert!(!g.is_alive_ww(0, 0));
    assert!(g.is_alive_ee(0, 0));
    assert!(!g.is_alive_sw(0, 0));
    assert!(g.is_alive_ss(0, 0));
    assert!(g.is_alive_se(0, 0));
    assert!(!g.is_alive_se(2, 2));
    assert!(!g.is_alive_ee(2, 1));
    assert!(!g.is_alive_ss(1, 2));
    assert!(g.is_alive_nw(2, 2));
}

#[test]
fn direction_queries_read_the_right_cell() {
    // only (1, 0) is alive on a 3 by 3 board
    let g = parse(&[".#.", "...", "..."]);
    assert!(g.is_alive_nn(1, 1));
    assert!(g.is_alive_ne(0, 1));
    assert!(g.is_alive_nw(2, 1));
    assert!(g.is_alive_ww(2, 0));
    assert!(g.is_alive_ee(0, 0));
    assert!(!g.is_alive_ss(1, 1));
    assert!(!g.is_alive_sw(1, 1));
    assert!(!g.is_alive_se(1, 1));
    assert!(g.cell(1, 0));
    assert!(!g.cell(0, 1));
}

#[test]
fn neighbor_counts_bounded_at_corners_and_edges() {
    let g = LifeBoard::new(4, vec![true; 16]).unwrap();
    for (x, y) in [(0u32, 0u32), (3, 0), (0, 3), (3, 3)] {
        assert_eq!(g.around(x, y), 3);
    }
    for (x, y) in [(1u32, 0u32), (0, 2), (3, 1), (2, 3)] {
        assert_eq!(g.around(x, y), 5);
    }
    assert_eq!(g.around(1, 1), 8);
    assert_eq!(g.around(2, 2), 8);
}

#[test]
fn transition_is_deterministic_and_pure() {
    let g = parse(&[".....", "..#..", "...#.", ".###.", "....."]);
    let before = g.cells.clone();
    let a = g.next_board();
    let b = g.next_board();
    assert_eq!(a.cells, b.cells);
    assert_eq!(a.cells.len(), 25);
    assert_eq!(a.size, 5);
    assert_eq!(g.cells, before);
}

#[test]
fn birth_with_three_and_survival_with_two() {
    let g = parse(&["#.#", "...", "#.."]);
    // (1, 1) is dead with three live neighbours: born
    assert_eq!(g.around(1, 1), 3);
    assert!(g.next_cell(1, 1));
    // (1, 0) is dead with two: stays dead
    assert_eq!(g.around(1, 0), 2);
    assert!(!g.next_cell(1, 0));
    let h = parse(&["##.", "#..", "..."]);
    // (0, 0) is alive with two: survives
    assert_eq!(h.around(0, 0), 2);
    assert!(h.next_cell(0, 0));
}
