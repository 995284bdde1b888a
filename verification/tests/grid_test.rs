use termpp::terminal::grid::{
    ansi_256_color, default_bg, default_fg, Color, GridPerformer, TermEvent,
};
use termpp::config::Platform;
use tokio::sync::mpsc;

fn make_grid(cols: usize, rows: usize) -> (GridPerformer, mpsc::Receiver<TermEvent>) {
    let (tx, rx) = mpsc::channel(32);
    (GridPerformer::new(cols, rows, tx), rx)
}

fn csi(g: &mut GridPerformer, params: &[u16], c: char) {
    let ps: Vec<Vec<u16>> = params.iter().map(|p| vec![*p]).collect();
    assert!(g.csi_fits(&ps, &[], c));
    g.csi_dispatch(&ps, &[], c);
}

#[test]
fn new_grid_is_blank() {
    let (g, _rx) = make_grid(80, 24);
    assert_eq!(g.cell(0, 0).ch, ' ');
    assert_eq!(g.cursor_col, 0);
    assert_eq!(g.cursor_row, 0);
}

#[test]
fn print_writes_char_and_advances_cursor() {
    let (mut g, _rx) = make_grid(80, 24);
    g.print('A');
    assert_eq!(g.cell(0, 0).ch, 'A');
    assert_eq!(g.cursor_col, 1);
}

#[test]
fn execute_newline_moves_cursor_down() {
    let (mut g, _rx) = make_grid(80, 24);
    g.execute(0x0A);
    assert_eq!(g.cursor_row, 1);
}

#[test]
fn execute_cr_resets_column() {
    let (mut g, _rx) = make_grid(80, 24);
    g.cursor_col = 10;
    g.execute(0x0D);
    assert_eq!(g.cursor_col, 0);
}

#[test]
fn execute_bel_sends_event() {
    let (mut g, mut rx) = make_grid(80, 24);
    g.execute(0x07);
    assert!(rx.try_recv().is_ok());
}

#[test]
fn scroll_up_on_row_overflow() {
    let (mut g, _rx) = make_grid(80, 3);
    for _ in 0..3 {
        g.print('X');
        g.execute(0x0A);
    }
    assert_eq!(g.cursor_row, 2);
}

#[test]
fn backspace_stops_at_first_column() {
    let (mut g, _rx) = make_grid(10, 2);
    g.print('a');
    g.execute(0x08);
    assert_eq!(g.cursor_col, 0);
    g.execute(0x08);
    assert_eq!(g.cursor_col, 0);
}

#[test]
fn wide_char_fills_two_cells() {
    let (mut g, _rx) = make_grid(10, 2);
    g.print('世');
    assert_eq!(g.cell(0, 0).ch, '世');
    assert_eq!(g.cell(1, 0).ch, '\0');
    assert_eq!(g.cursor_col, 2);
}

#[test]
fn print_wraps_past_last_column() {
    let (mut g, _rx) = make_grid(3, 2);
    for ch in "abcd".chars() {
        g.print(ch);
    }
    assert_eq!(g.cell(0, 1).ch, 'd');
    assert_eq!(g.cursor_row, 1);
    assert_eq!(g.cursor_col, 1);
}

#[test]
fn cursor_position_sequence_is_clamped() {
    let (mut g, _rx) = make_grid(10, 5);
    csi(&mut g, &[3, 4], 'H');
    assert_eq!((g.cursor_col, g.cursor_row), (3, 2));
    csi(&mut g, &[99, 99], 'H');
    assert_eq!((g.cursor_col, g.cursor_row), (9, 4));
    csi(&mut g, &[2], 'A');
    assert_eq!(g.cursor_row, 2);
    csi(&mut g, &[], 'D');
    assert_eq!(g.cursor_col, 8);
}

#[test]
fn erase_line_blanks_the_row() {
    let (mut g, _rx) = make_grid(5, 2);
    for ch in "abc".chars() {
        g.print(ch);
    }
    csi(&mut g, &[2], 'K');
    assert_eq!(g.cell(0, 0).ch, ' ');
    assert_eq!(g.cell(2, 0).ch, ' ');
}

#[test]
fn delete_chars_shifts_left() {
    let (mut g, _rx) = make_grid(5, 1);
    for ch in "abcde".chars() {
        g.print(ch);
    }
    g.execute(0x0D);
    csi(&mut g, &[2], 'P');
    assert_eq!(g.cell(0, 0).ch, 'c');
    assert_eq!(g.cell(2, 0).ch, 'e');
    assert_eq!(g.cell(4, 0).ch, ' ');
}

#[test]
fn sgr_sets_and_resets_colours() {
    let (mut g, _rx) = make_grid(5, 1);
    csi(&mut g, &[31], 'm');
    g.print('r');
    assert_eq!(g.cell(0, 0).fg, Color(170, 0, 0));
    csi(&mut g, &[0], 'm');
    g.print('n');
    assert_eq!(g.cell(1, 0).fg, default_fg());
    assert_eq!(g.cell(1, 0).bg, default_bg());
}

#[test]
fn colour_cube_and_grey_ramp() {
    assert_eq!(ansi_256_color(16), Color(0, 0, 0));
    assert_eq!(ansi_256_color(196), Color(255, 0, 0));
    assert_eq!(ansi_256_color(232), Color(8, 8, 8));
    assert_eq!(ansi_256_color(9), Color(255, 85, 85));
}

#[test]
fn alternate_screen_round_trip_restores_primary() {
    let (mut g, _rx) = make_grid(5, 2);
    g.print('p');
    let private = [b'?'];
    let ps = vec![vec![1049u16]];
    g.csi_dispatch(&ps, &private, 'h');
    assert_eq!(g.cell(0, 0).ch, ' ');
    assert_eq!(g.cursor_col, 0);
    g.print('a');
    g.csi_dispatch(&ps, &private, 'l');
    assert_eq!(g.cell(0, 0).ch, 'p');
    assert_eq!(g.cursor_col, 1);
}

#[test]
fn save_and_restore_cursor() {
    let (mut g, _rx) = make_grid(10, 3);
    csi(&mut g, &[2, 5], 'H');
    g.esc_dispatch(b'7');
    csi(&mut g, &[1, 1], 'H');
    g.esc_dispatch(b'8');
    assert_eq!((g.cursor_col, g.cursor_row), (4, 1));
}

#[test]
fn resize_keeps_cursor_on_screen() {
    let (mut g, _rx) = make_grid(10, 5);
    csi(&mut g, &[5, 9], 'H');
    g.resize(4, 2);
    assert_eq!((g.cols(), g.rows()), (4, 2));
    assert_eq!((g.cursor_col, g.cursor_row), (3, 1));
}

#[test]
fn osc_title_and_cwd_are_reported() {
    let (mut g, mut rx) = make_grid(10, 2);
    g.osc_dispatch(&vec![b"2".to_vec(), b"my title".to_vec()], Platform::Other);
    g.osc_dispatch(&vec![b"7".to_vec(), b"file://host/home/a%20b".to_vec()], Platform::Other);
    g.osc_dispatch(&vec![b"777".to_vec(), b"notify".to_vec(), b"t".to_vec(), b"body".to_vec()], Platform::Other);
    match rx.try_recv().unwrap() {
        TermEvent::TitleChange(t) => assert_eq!(t, "my title"),
        other => panic!("unexpected {other:?}"),
    }
    match rx.try_recv().unwrap() {
        TermEvent::CwdChange(p) => assert_eq!(p, "/home/a b"),
        other => panic!("unexpected {other:?}"),
    }
    match rx.try_recv().unwrap() {
        TermEvent::OscNotify(n) => assert_eq!(n, "body"),
        other => panic!("unexpected {other:?}"),
    }
}

#[test]
fn empty_title_is_not_reported() {
    let (mut g, mut rx) = make_grid(10, 2);
    g.osc_dispatch(&vec![b"0".to_vec(), b"".to_vec()], Platform::Other);
    assert!(rx.try_recv().is_err());
}

#[test]
fn print_guard_rejects_cursor_below_screen() {
    let (mut g, _rx) = make_grid(10, 3);
    assert!(g.can_print());
    g.cursor_row = 5;
    assert!(!g.can_print());
    g.cursor_col = 10;
    assert!(g.can_print());
}

#[test]
fn windows_cwd_report_loses_slash_before_drive_letter() {
    let (mut g, mut rx) = make_grid(10, 2);
    g.osc_dispatch(&vec![b"7".to_vec(), b"file:///C:/Users/a%20b".to_vec()], Platform::Windows);
    g.osc_dispatch(&vec![b"7".to_vec(), b"file:///C:/Users/x".to_vec()], Platform::Other);
    match rx.try_recv().unwrap() {
        TermEvent::CwdChange(p) => assert_eq!(p, "C:/Users/a b"),
        other => panic!("unexpected {other:?}"),
    }
    match rx.try_recv().unwrap() {
        TermEvent::CwdChange(p) => assert_eq!(p, "/C:/Users/x"),
        other => panic!("unexpected {other:?}"),
    }
}

#[test]
fn alternate_screen_restores_primary_after_much_output() {
    let (mut g, _rx) = make_grid(4, 2);
    g.print('x');
    g.print('y');
    g.execute(0x0A);
    g.print('z');
    let primary: Vec<Vec<char>> = (0..2).map(|r| (0..4).map(|c| g.cell(c, r).ch).collect()).collect();
    let cursor = (g.cursor_col, g.cursor_row);
    let private = [b'?'];
    let ps = vec![vec![1049u16]];
    g.csi_dispatch(&ps, &private, 'h');
    for ch in "abcdefghijkl".chars() {
        if !g.can_print() {
            g.execute(0x0D);
            g.execute(0x0A);
        }
        g.print(ch);
    }
    g.execute(0x0A);
    csi(&mut g, &[2], 'J');
    csi(&mut g, &[1, 3], 'H');
    g.esc_dispatch(b'7');
    g.scroll_up_by(3);
    g.csi_dispatch(&ps, &private, 'l');
    let after: Vec<Vec<char>> = (0..2).map(|r| (0..4).map(|c| g.cell(c, r).ch).collect()).collect();
    assert_eq!(after, primary);
    assert_eq!((g.cursor_col, g.cursor_row), cursor);
    assert_eq!(g.scroll_offset(), 0);
}

#[test]
fn visible_row_in_live_view_needs_no_history_bound() {
    let (mut g, _rx) = make_grid(3, 2);
    g.print('q');
    assert_eq!(g.visible_row(usize::MAX)[0].ch, ' ');
    assert_eq!(g.visible_row(0)[0].ch, 'q');
}
