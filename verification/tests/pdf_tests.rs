use ferroleaf::pdf::{png_dimensions, PageCursor};

fn png(w: u32, h: u32) -> Vec<u8> {
    let mut v = vec![0x89, b'P', b'N', b'G', 0x0D, 0x0A, 0x1A, 0x0A, 0, 0, 0, 13, b'I', b'H', b'D', b'R'];
    v.extend_from_slice(&w.to_be_bytes());
    v.extend_from_slice(&h.to_be_bytes());
    v.extend_from_slice(&[8, 6, 0, 0, 0]);
    v
}

#[test]
fn png_size_round_trip() {
    assert_eq!(png_dimensions(&png(595, 842)), Some((595, 842)));
    assert_eq!(png_dimensions(&png(0x01020304, 1)), Some((0x01020304, 1)));
}

#[test]
fn png_rejects_short_or_foreign_data() {
    assert_eq!(png_dimensions(&png(10, 10)[..23]), None);
    let mut bad = png(10, 10);
    bad[1] = b'X';
    assert_eq!(png_dimensions(&bad), None);
    assert_eq!(png_dimensions(&[]), None);
}

#[test]
fn page_cursor_moves_within_range() {
    let mut c = PageCursor { current_page: 0, total_pages: 3 };
    c.prev_page();
    assert_eq!(c.current_page, 0);
    c.next_page();
    c.next_page();
    assert_eq!(c.current_page, 2);
    c.next_page();
    assert_eq!(c.current_page, 2);
    c.prev_page();
    assert_eq!(c.current_page, 1);
    c.reset();
    assert_eq!(c, PageCursor { current_page: 0, total_pages: 3 });
}

#[test]
fn next_then_prev_returns() {
    let mut c = PageCursor { current_page: 4, total_pages: 9 };
    c.next_page();
    c.prev_page();
    assert_eq!(c.current_page, 4);
}
