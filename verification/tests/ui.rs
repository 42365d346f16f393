use mtrm::ui::visible_input_window;

#[test]
fn visible_input_window_keeps_cursor_in_view() {
    let (visible, cursor) = visible_input_window("abcdefghijklmnopqrstuvwxyz0123456789", 36, 22);

    assert!(visible.ends_with("6789"));
    assert_eq!(cursor, 22);
}

#[test]
fn visible_input_window_shows_short_input_whole() {
    let (visible, cursor) = visible_input_window("abc", 1, 10);
    assert_eq!(visible, "abc");
    assert_eq!(cursor, 1);
}

use mtrm::layout::Rect;
use mtrm::ui::terminal_content_area;

#[test]
fn content_area_leaves_the_tab_bar_row() {
    assert_eq!(terminal_content_area(80, 24), Rect { x: 0, y: 0, width: 80, height: 23 });
    assert_eq!(terminal_content_area(10, 0), Rect { x: 0, y: 0, width: 10, height: 0 });
}

#[test]
fn pane_cells_are_clipped_and_styled() {
    let mut screen = mtrm::screen::TerminalScreen::new(3, 10, 10);
    screen.process_bytes(b"\x1b[7mab\x1b[0m\x1b[31mc\r\nxyz");
    let lines = screen.visible_lines();
    let drawn = mtrm::ui::pane_cells_to_draw(&lines, 2, 1);
    assert_eq!(drawn.len(), 2);
    assert_eq!((drawn[0].col, drawn[0].row, drawn[0].symbol.as_str()), (0, 0, "a"));
    assert_eq!((drawn[1].col, drawn[1].row, drawn[1].symbol.as_str()), (1, 0, "b"));
    assert_eq!(drawn[0].style.fg, Some(mtrm::ui::DrawColor::Black));
    assert_eq!(drawn[0].style.bg, Some(mtrm::ui::DrawColor::Gray));
    assert!(drawn[0].style.reversed);
    let all = mtrm::ui::pane_cells_to_draw(&lines, 10, 3);
    let red = all.iter().find(|d| d.row == 0 && d.col == 2).unwrap();
    assert_eq!(red.symbol, "c");
    assert_eq!(red.style.fg, Some(mtrm::ui::DrawColor::Indexed(1)));
    assert!(!red.style.reversed);
    let blank = all.iter().find(|d| d.row == 2 && d.col == 0).unwrap();
    assert_eq!(blank.symbol, " ");
}
