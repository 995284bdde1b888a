use termpp::terminal::grid::{GridPerformer, TermEvent};
use termpp::terminal::selection::{extract_selection_text, normalize_selection};

fn make_grid(cols: usize, rows: usize) -> GridPerformer {
    let (tx, _rx) = tokio::sync::mpsc::channel::<TermEvent>(32);
    GridPerformer::new(cols, rows, tx)
}

fn extract(grid: &GridPerformer, sel: ((usize, usize), (usize, usize))) -> String {
    extract_selection_text(grid, sel)
}

#[test]
fn extract_single_row() {
    let mut g = make_grid(10, 3);
    for ch in "hello".chars() {
        g.print(ch);
    }
    let text = extract(&g, ((0, 0), (4, 0)));
    assert_eq!(text, "hello");
}

#[test]
fn extract_normalises_reversed_selection() {
    let mut g = make_grid(10, 3);
    for ch in "hello".chars() {
        g.print(ch);
    }
    let text = extract(&g, ((4, 0), (0, 0)));
    assert_eq!(text, "hello");
}

#[test]
fn extract_multirow_joins_with_newline() {
    let mut g = make_grid(10, 3);
    for ch in "abcde".chars() {
        g.print(ch);
    }
    // CR+LF to move to start of next row (pure LF keeps col, hitting wrap on a 5-col grid)
    g.execute(0x0D);
    g.execute(0x0A);
    for ch in "fghij".chars() {
        g.print(ch);
    }
    let text = extract(&g, ((0, 0), (4, 1)));
    assert_eq!(text, "abcde\nfghij");
}

#[test]
fn extract_trims_trailing_spaces() {
    let mut g = make_grid(10, 3);
    g.print('A');
    let text = extract(&g, ((0, 0), (9, 0)));
    assert_eq!(text, "A");
}

#[test]
fn normalize_swaps_only_when_reversed() {
    assert_eq!(normalize_selection(((5, 2), (1, 0))), ((1, 0), (5, 2)));
    assert_eq!(normalize_selection(((1, 0), (5, 2))), ((1, 0), (5, 2)));
    assert_eq!(normalize_selection(((7, 1), (3, 1))), ((3, 1), (7, 1)));
}

#[test]
fn extract_skips_wide_char_continuation() {
    let mut g = make_grid(10, 2);
    g.print('世');
    g.print('x');
    assert_eq!(extract(&g, ((0, 0), (9, 0))), "世x");
}

#[test]
fn extract_middle_of_row() {
    let mut g = make_grid(10, 2);
    for ch in "abcdef".chars() {
        g.print(ch);
    }
    assert_eq!(extract(&g, ((2, 0), (3, 0))), "cd");
}
