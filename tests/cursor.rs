use select_save::cursor::Cursor;

fn visible(c: &Cursor, n: usize) -> Vec<(bool, usize)> {
    let items: Vec<usize> = (0..n).collect();
    c.iter(&items).into_iter().map(|(s, x)| (s, *x)).collect()
}

#[test]
fn new_starts_at_top_with_full_page() {
    let c = Cursor::new(20, 10);
    assert_eq!(c.index(), 0);
    assert_eq!(c.visible_items(), 10);
    let rows = visible(&c, 20);
    assert_eq!(rows.len(), 10);
    assert_eq!(rows[0], (true, 0));
    assert_eq!(rows[9], (false, 9));
}

#[test]
fn new_on_short_and_empty_lists() {
    assert_eq!(Cursor::new(3, 10).visible_items(), 3);
    assert_eq!(Cursor::new(10, 10).visible_items(), 10);
    let mut empty = Cursor::new(0, 10);
    assert_eq!(empty.visible_items(), 0);
    empty.down();
    empty.page_up();
    assert_eq!(empty.index(), 0);
    assert_eq!(visible(&empty, 0).len(), 0);
}

#[test]
fn down_n_times_returns_to_start() {
    for n in [1usize, 2, 5, 10, 23] {
        let mut c = Cursor::new(n, 10);
        c.down();
        let start = c.index();
        for _ in 0..n {
            c.down();
        }
        assert_eq!(c.index(), start, "length {n}");
    }
}

#[test]
fn single_steps_wrap_around() {
    let mut c = Cursor::new(5, 3);
    c.up();
    assert_eq!(c.index(), 4);
    c.down();
    assert_eq!(c.index(), 0);
    c.down();
    assert_eq!(c.index(), 1);
    c.up();
    assert_eq!(c.index(), 0);
}

#[test]
fn page_moves_clamp_then_wrap() {
    let mut c = Cursor::new(25, 10);
    c.page_down();
    assert_eq!(c.index(), 10);
    c.page_down();
    assert_eq!(c.index(), 20);
    c.page_down();
    assert_eq!(c.index(), 24);
    c.page_down();
    assert_eq!(c.index(), 0);
    c.page_up();
    assert_eq!(c.index(), 24);
    c.page_up();
    assert_eq!(c.index(), 14);
    c.page_up();
    assert_eq!(c.index(), 4);
    c.page_up();
    assert_eq!(c.index(), 0);
}

#[test]
fn window_scrolls_ahead_of_selection() {
    let mut c = Cursor::new(25, 10);
    for _ in 0..7 {
        c.down();
    }
    assert_eq!(visible(&c, 25)[0].1, 0);
    c.down();
    let rows = visible(&c, 25);
    assert_eq!(rows.len(), 10);
    assert_eq!(rows[0].1, 1);
    assert_eq!(rows[9].1, 10);
    assert_eq!(rows.iter().position(|r| r.0), Some(7));
}

#[test]
fn selection_stays_visible_in_a_full_page() {
    let mut c = Cursor::new(37, 8);
    let moves = [0u8, 0, 2, 1, 3, 3, 0, 2, 2, 2, 1, 1, 0, 3, 2, 0, 0, 0, 1, 3];
    for (k, m) in moves.iter().cycle().take(200).enumerate() {
        match m {
            0 => c.down(),
            1 => c.up(),
            2 => c.page_down(),
            _ => c.page_up(),
        }
        let rows = visible(&c, 37);
        assert!(rows.len() <= 8, "step {k}");
        assert_eq!(c.visible_items(), 8);
        let sel: Vec<_> = rows.iter().filter(|r| r.0).collect();
        assert_eq!(sel.len(), 1, "step {k}");
        assert_eq!(sel[0].1, c.index());
    }
}
