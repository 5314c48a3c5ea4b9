use tedit::buffer::Buffer;
use tedit::buffer::Move;

fn build_test_buffer(content: &str) -> Buffer {
    let mut buffer = Buffer::new();
    for i in content.chars() {
        buffer.insert(i);
    }
    buffer
}

#[test]
fn test_insert_char() {
    let mut buffer = Buffer::new();
    buffer.insert('a');
    assert_eq!("a", buffer.content.iter().collect::<String>());
    assert_eq!("buffer_pos:1 line:0 column:1 lines:[1]", buffer.test());
}

#[test]
fn test_remove_char() {
    let mut buffer = Buffer::new();
    buffer.insert('a');
    assert_eq!("a", buffer.content.iter().collect::<String>());
    assert_eq!("buffer_pos:1 line:0 column:1 lines:[1]", buffer.test());

    buffer.remove();
    assert_eq!("", buffer.content.iter().collect::<String>());
    assert_eq!("buffer_pos:0 line:0 column:0 lines:[0]", buffer.test());
}

#[test]
fn test_insert_new_line() {
    let mut buffer = Buffer::new();
    buffer.insert('\n');
    assert_eq!("\n", buffer.content.iter().collect::<String>());
    assert_eq!("buffer_pos:1 line:1 column:0 lines:[1, 1]", buffer.test());
}

#[test]
fn test_remove_new_line() {
    let mut buffer = Buffer::new();
    buffer.insert('\n');
    assert_eq!("\n", buffer.content.iter().collect::<String>());
    assert_eq!("buffer_pos:1 line:1 column:0 lines:[1, 1]", buffer.test());

    buffer.remove();
    assert_eq!("", buffer.content.iter().collect::<String>());
    assert_eq!("buffer_pos:0 line:0 column:0 lines:[0]", buffer.test());
}

#[test]
fn test_insert_new_line_should_split_line() {
    let mut buffer = Buffer::new();
    buffer.insert('a');
    buffer.insert('a');
    buffer.insert('a');
    buffer.insert('a');
    assert_eq!("aaaa", buffer.content.iter().collect::<String>());
    assert_eq!("buffer_pos:4 line:0 column:4 lines:[4]", buffer.test());

    buffer.insert_at(2, '\n');
    assert_eq!("aa\naa", buffer.content.iter().collect::<String>());
    assert_eq!("buffer_pos:3 line:1 column:0 lines:[3, 5]", buffer.test());
}

#[test]
fn test_remove_new_line_should_join_lines() {
    let mut buffer = Buffer::new();
    buffer.insert('a');
    buffer.insert('a');
    buffer.insert('\n');
    buffer.insert('a');
    buffer.insert('a');
    assert_eq!("aa\naa", buffer.content.iter().collect::<String>());
    assert_eq!("buffer_pos:5 line:1 column:2 lines:[3, 5]", buffer.test());

    buffer.remove_at(2);
    assert_eq!("aaaa", buffer.content.iter().collect::<String>());
    assert_eq!("buffer_pos:2 line:0 column:2 lines:[4]", buffer.test());
}

#[test]
fn test_move_cursor_update_line_and_column() {
    let mut buffer = Buffer::new();
    buffer.insert('a');
    buffer.insert('\n');
    buffer.insert('a');
    buffer.insert('a');
    buffer.insert('\n');
    buffer.insert('a');
    buffer.insert('a');
    buffer.insert('a');
    buffer.insert('\n');
    buffer.insert('a');
    buffer.insert('a');
    buffer.insert('a');
    buffer.insert('a');
    assert_eq!("a\naa\naaa\naaaa", buffer.content.iter().collect::<String>());
    assert_eq!("buffer_pos:13 line:3 column:4 lines:[2, 5, 9, 13]", buffer.test());

    buffer.move_cursor(1);
    assert_eq!(2, buffer.current_line_cols());
    buffer.move_cursor(2);
    assert_eq!(3, buffer.current_line_cols());
    buffer.move_cursor(5);
    assert_eq!(4, buffer.current_line_cols());
}

#[test]
fn test_current_line_cols_works_ok() {
    let mut buffer = Buffer::new();
    buffer.insert('a');
    buffer.insert('\n');
    buffer.insert('a');
    buffer.insert('a');
    buffer.insert('\n');
    buffer.insert('a');
    buffer.insert('a');
    buffer.insert('a');
    buffer.insert('\n');
    buffer.insert('a');
    buffer.insert('a');
    buffer.insert('a');
    buffer.insert('a');
    assert_eq!("a\naa\naaa\naaaa", buffer.content.iter().collect::<String>());
    assert_eq!("buffer_pos:13 line:3 column:4 lines:[2, 5, 9, 13]", buffer.test());

    buffer.move_cursor(1);
    assert_eq!(2, buffer.current_line_cols());
    buffer.move_cursor(2);
    assert_eq!(3, buffer.current_line_cols());
    buffer.move_cursor(5);
    assert_eq!(4, buffer.current_line_cols());
}

#[test]
fn test_mv_right_works_ok() {
    let mut buffer = build_test_buffer("aa\naaaa");
    assert_eq!("aa\naaaa", buffer.content.iter().collect::<String>());
    assert_eq!("buffer_pos:7 line:1 column:4 lines:[3, 7]", buffer.test());

    buffer.move_cursor(0);
    assert_eq!("buffer_pos:0 line:0 column:0 lines:[3, 7]", buffer.test());

    buffer.mv(Move::Right, false, false);
    assert_eq!("buffer_pos:1 line:0 column:1 lines:[3, 7]", buffer.test());
    buffer.mv(Move::Right, false, false);
    assert_eq!("buffer_pos:2 line:0 column:2 lines:[3, 7]", buffer.test());
    buffer.mv(Move::Right, false, false);
    assert_eq!("buffer_pos:3 line:1 column:0 lines:[3, 7]", buffer.test());
    buffer.mv(Move::Right, false, false);
    assert_eq!("buffer_pos:4 line:1 column:1 lines:[3, 7]", buffer.test());
}

#[test]
fn test_mv_left_works_ok() {
    let mut buffer = build_test_buffer("aaaa\naa");
    assert_eq!("aaaa\naa", buffer.content.iter().collect::<String>());
    assert_eq!("buffer_pos:7 line:1 column:2 lines:[5, 7]", buffer.test());

    buffer.mv(Move::Left, false, false);
    assert_eq!("buffer_pos:6 line:1 column:1 lines:[5, 7]", buffer.test());
    buffer.mv(Move::Left, false, false);
    assert_eq!("buffer_pos:5 line:1 column:0 lines:[5, 7]", buffer.test());
    buffer.mv(Move::Left, false, false);
    assert_eq!("buffer_pos:4 line:0 column:4 lines:[5, 7]", buffer.test());
    buffer.mv(Move::Left, false, false);
    assert_eq!("buffer_pos:3 line:0 column:3 lines:[5, 7]", buffer.test());
}

#[test]
fn test_mv_down_works_ok() {
    let mut buffer = build_test_buffer("aaaa\naa\naaa");
    assert_eq!("aaaa\naa\naaa", buffer.content.iter().collect::<String>());
    assert_eq!("buffer_pos:11 line:2 column:3 lines:[5, 8, 11]", buffer.test());

    buffer.move_cursor(3);

    buffer.mv(Move::Down, false, false);
    assert_eq!("buffer_pos:8 line:1 column:3 lines:[5, 8, 11]", buffer.test());
    buffer.mv(Move::Down, false, false);
    assert_eq!("buffer_pos:11 line:2 column:3 lines:[5, 8, 11]", buffer.test());
}

#[test]
fn test_mv_up_works_ok() {
    let mut buffer = build_test_buffer("aaaa\naa\naaa");
    assert_eq!("aaaa\naa\naaa", buffer.content.iter().collect::<String>());
    assert_eq!("buffer_pos:11 line:2 column:3 lines:[5, 8, 11]", buffer.test());

    buffer.mv(Move::Up, false, false);
    assert_eq!("buffer_pos:8 line:1 column:3 lines:[5, 8, 11]", buffer.test());
    buffer.mv(Move::Up, false, false);
    assert_eq!("buffer_pos:3 line:0 column:3 lines:[5, 8, 11]", buffer.test());

    buffer.move_cursor(6);
    assert_eq!("buffer_pos:6 line:1 column:1 lines:[5, 8, 11]", buffer.test());
    buffer.mv(Move::Up, false, true);
    assert_eq!("buffer_pos:4 line:0 column:4 lines:[5, 8, 11]", buffer.test());

    buffer.move_cursor(6);
    assert_eq!("buffer_pos:6 line:1 column:1 lines:[5, 8, 11]", buffer.test());
    buffer.mv(Move::Up, true, false);
    assert_eq!("buffer_pos:0 line:0 column:0 lines:[5, 8, 11]", buffer.test());
}

#[test]
fn test_remove_on_empty_is_noop() {
    let mut buffer = Buffer::new();
    buffer.remove();
    assert_eq!("", buffer.content.iter().collect::<String>());
    assert_eq!("buffer_pos:0 line:0 column:0 lines:[0]", buffer.test());
}

#[test]
fn test_mv_on_empty_is_noop() {
    let mut buffer = Buffer::new();
    buffer.mv(Move::Up, false, false);
    buffer.mv(Move::Down, false, false);
    buffer.mv(Move::Left, false, false);
    buffer.mv(Move::Right, false, false);
    assert_eq!("buffer_pos:0 line:0 column:0 lines:[0]", buffer.test());
}

#[test]
fn test_mv_left_at_document_start_is_noop() {
    let mut buffer = build_test_buffer("aa");
    buffer.move_cursor(0);
    buffer.mv(Move::Left, false, false);
    assert_eq!("buffer_pos:0 line:0 column:0 lines:[2]", buffer.test());
}

#[test]
fn test_mv_down_end_snap_on_last_line_is_sentinel() {
    let mut buffer = build_test_buffer("aa\naaa");
    buffer.move_cursor(1);
    buffer.mv(Move::Down, false, true);
    assert_eq!("buffer_pos:6 line:1 column:3 lines:[3, 6]", buffer.test());
}

#[test]
fn test_mv_down_end_snap_mid_document_parks_on_line_end() {
    let mut buffer = build_test_buffer("aa\naa\nbb");
    buffer.move_cursor(0);
    buffer.mv(Move::Down, false, true);
    assert_eq!("buffer_pos:6 line:1 column:3 lines:[3, 6, 8]", buffer.test());
}

#[test]
fn test_mv_down_clamps_into_empty_last_line() {
    let mut buffer = build_test_buffer("ab\n");
    buffer.move_cursor(1);
    buffer.mv(Move::Down, false, false);
    assert_eq!("buffer_pos:3 line:1 column:0 lines:[3, 3]", buffer.test());
}

#[test]
fn test_mv_right_wraps_into_empty_last_line() {
    let mut buffer = build_test_buffer("ab\n");
    buffer.move_cursor(2);
    buffer.mv(Move::Right, false, false);
    assert_eq!("buffer_pos:3 line:1 column:0 lines:[3, 3]", buffer.test());
}

#[test]
fn test_insert_at_end_of_document() {
    let mut buffer = build_test_buffer("a\nb");
    buffer.insert_at(3, 'c');
    assert_eq!("a\nbc", buffer.content.iter().collect::<String>());
    assert_eq!("buffer_pos:4 line:1 column:2 lines:[2, 4]", buffer.test());
}

#[test]
fn test_insert_then_remove_restores_state() {
    let mut buffer = build_test_buffer("aa\naaa");
    buffer.move_cursor(4);
    let before = buffer.test();
    buffer.insert('\n');
    buffer.remove();
    assert_eq!(before, buffer.test());
    assert_eq!("aa\naaa", buffer.content.iter().collect::<String>());
}
