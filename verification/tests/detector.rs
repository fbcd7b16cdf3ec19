use tic_rng_toe::detector::{check_draw, check_win, WIN_LINES};

#[test]
fn top_row_wins() {
    assert!(check_win(&[1, 2, 3]));
}

#[test]
fn main_diagonal_wins() {
    assert!(check_win(&[1, 5, 9]));
}

#[test]
fn three_cells_off_any_line_do_not_win() {
    assert!(!check_win(&[1, 2, 4]));
}

#[test]
fn the_table_holds_rows_columns_and_diagonals() {
    let mut lines = WIN_LINES.to_vec();
    lines.sort();
    assert_eq!(
        lines,
        vec![
            (1, 2, 3),
            (1, 4, 7),
            (1, 5, 9),
            (2, 5, 8),
            (3, 5, 7),
            (3, 6, 9),
            (4, 5, 6),
            (7, 8, 9)
        ]
    );
}

#[test]
fn each_of_the_eight_lines_wins() {
    for (a, b, c) in WIN_LINES {
        assert!(check_win(&[a, b, c]));
        assert!(check_win(&[c, a, b]));
    }
}

#[test]
fn a_line_wins_whatever_else_is_held() {
    assert!(check_win(&[1, 2, 4, 5, 6]));
    assert!(check_win(&[9, 8, 6, 3, 1]));
    assert!(check_win(&[1, 2, 3, 4, 5, 6, 7, 8, 9]));
}

#[test]
fn fewer_than_three_cells_never_win() {
    assert!(!check_win(&[]));
    for a in 1..=9u8 {
        assert!(!check_win(&[a]));
        for b in 1..=9u8 {
            assert!(!check_win(&[a, b]));
        }
    }
}

#[test]
fn check_win_agrees_with_the_table_on_every_set_of_cells() {
    for bits in 0u16..512 {
        let held: Vec<u8> = (1..=9u8).filter(|c| bits & (1 << (c - 1)) != 0).collect();
        let expected = WIN_LINES
            .iter()
            .any(|(a, b, c)| held.contains(a) && held.contains(b) && held.contains(c));
        assert_eq!(check_win(&held), expected);
    }
}

#[test]
fn five_cells_without_a_line_do_not_win() {
    assert!(!check_win(&[1, 2, 6, 7, 9]));
}

#[test]
fn a_cell_held_three_times_is_no_line() {
    assert!(!check_win(&[1, 1, 1]));
}

#[test]
fn draw_only_when_nothing_remains() {
    assert!(check_draw(&[]));
    assert!(!check_draw(&[7]));
    assert!(!check_draw(&[1, 2, 3, 4, 5, 6, 7, 8, 9]));
}
