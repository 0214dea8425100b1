use breakout::level::{
    parse_level, split_lines, LevelError, Rect, BLOCK_H, BLOCK_W, BOTTOM_TO_BLOCK_BOTTOM,
    COORD_LIMIT, MAX_COLS, MAX_ROWS,
};

fn block(col: i32, row_from_bottom: i32) -> Rect {
    Rect {
        x: BLOCK_W * col,
        y: BLOCK_H * row_from_bottom + BOTTOM_TO_BLOCK_BOTTOM,
        w: BLOCK_W,
        h: BLOCK_H,
    }
}

fn chars(text: &str) -> Vec<char> {
    text.chars().collect()
}

#[test]
fn one_cell_grid_is_one_block_above_the_bottom_offset() {
    for text in ["#", "#\n"] {
        let layout = parse_level(text).unwrap();
        assert_eq!(layout.cols(), 1);
        assert_eq!(layout.rows(), 1);
        assert_eq!(layout.block_count(), 1);
        assert_eq!(layout.block(0), Rect { x: 0, y: 256, w: 24, h: 16 });
        assert_eq!(layout.width(), 24);
        assert_eq!(layout.height(), 16 + 256);
    }
}

#[test]
fn lines_end_at_line_ends() {
    assert_eq!(split_lines(""), Vec::<Vec<char>>::new());
    assert_eq!(split_lines("\n"), vec![chars("")]);
    assert_eq!(split_lines("ab"), vec![chars("ab")]);
    assert_eq!(split_lines("ab\n"), vec![chars("ab")]);
    assert_eq!(split_lines("ab\ncd"), vec![chars("ab"), chars("cd")]);
    assert_eq!(split_lines("ab\n\ncd\n"), vec![chars("ab"), chars(""), chars("cd")]);
    assert_eq!(split_lines("\n\n"), vec![chars(""), chars("")]);
}

#[test]
fn carriage_return_is_a_cell_like_any_other() {
    assert_eq!(split_lines("#\r\n#"), vec![chars("#\r"), chars("#")]);
    let layout = parse_level("#\r\n#").unwrap();
    assert_eq!(layout.cols(), 2);
    assert_eq!(layout.block_count(), 2);
}

#[test]
fn a_cell_is_a_character_not_a_byte() {
    assert_eq!(split_lines("\u{e9}#\n\u{4e16}"), vec![chars("\u{e9}#"), chars("\u{4e16}")]);
    let layout = parse_level("\u{e9}#\u{1f600}#\n#").unwrap();
    assert_eq!(layout.cols(), 4);
    assert_eq!(layout.width(), 96);
    assert_eq!(layout.block_count(), 3);
    assert_eq!(layout.block(0), block(1, 1));
    assert_eq!(layout.block(1), block(3, 1));
    assert_eq!(layout.block(2), block(0, 0));
}

#[test]
fn empty_text_is_an_empty_level() {
    let layout = parse_level("").unwrap();
    assert_eq!(layout.cols(), 0);
    assert_eq!(layout.rows(), 0);
    assert_eq!(layout.block_count(), 0);
    assert_eq!(layout.width(), 0);
    assert_eq!(layout.height(), 256);
}

#[test]
fn blocks_come_in_reading_order_and_rows_stack_bottom_up() {
    let layout = parse_level("# #\n ##\n#\n").unwrap();
    assert_eq!(layout.cols(), 3);
    assert_eq!(layout.rows(), 3);
    assert_eq!(layout.width(), 72);
    assert_eq!(layout.height(), 3 * 16 + 256);
    let expected = [block(0, 2), block(2, 2), block(1, 1), block(2, 1), block(0, 0)];
    assert_eq!(layout.block_count(), expected.len());
    for (k, rect) in expected.iter().enumerate() {
        assert_eq!(layout.block(k), *rect);
    }
    assert_eq!(layout.block(0), Rect { x: 0, y: 288, w: 24, h: 16 });
    assert_eq!(layout.block(4), Rect { x: 0, y: 256, w: 24, h: 16 });
}

#[test]
fn only_the_mark_is_a_block() {
    let layout = parse_level(".x#X \t#").unwrap();
    assert_eq!(layout.cols(), 7);
    assert_eq!(layout.block_count(), 2);
    assert_eq!(layout.block(0), block(2, 0));
    assert_eq!(layout.block(1), block(6, 0));
}

#[test]
fn width_is_that_of_the_longest_line() {
    let layout = parse_level("#\n####\n##\n").unwrap();
    assert_eq!(layout.cols(), 4);
    assert_eq!(layout.width(), 96);
    let layout = parse_level("\n\n   \n").unwrap();
    assert_eq!(layout.cols(), 3);
    assert_eq!(layout.rows(), 3);
    assert_eq!(layout.block_count(), 0);
}

#[test]
fn widest_grid_that_fits() {
    let mut text = " ".repeat(MAX_COLS - 1);
    text.push('#');
    let layout = parse_level(&text).unwrap();
    assert_eq!(layout.cols(), MAX_COLS);
    assert!(layout.width() + 48 <= COORD_LIMIT);
    assert_eq!(layout.block(0).x, 24 * (MAX_COLS as i32 - 1));
}

#[test]
fn too_wide() {
    let text = "#".repeat(MAX_COLS + 1);
    assert_eq!(parse_level(&text).unwrap_err(), LevelError::TooWide);
}

#[test]
fn tallest_grid_that_fits() {
    let mut text = String::from("#");
    text.push_str(&"\n".repeat(MAX_ROWS));
    let layout = parse_level(&text).unwrap();
    assert_eq!(layout.rows(), MAX_ROWS);
    assert!(layout.height() + 24 <= COORD_LIMIT);
    assert_eq!(layout.block(0).y, 16 * (MAX_ROWS as i32 - 1) + 256);
}

#[test]
fn too_tall() {
    let text = "\n".repeat(MAX_ROWS + 1);
    assert_eq!(parse_level(&text).unwrap_err(), LevelError::TooTall);
}

#[test]
fn too_wide_is_said_before_too_tall() {
    let mut text = "\n".repeat(MAX_ROWS + 1);
    text.push_str(&"#".repeat(MAX_COLS + 1));
    assert_eq!(parse_level(&text).unwrap_err(), LevelError::TooWide);
}
