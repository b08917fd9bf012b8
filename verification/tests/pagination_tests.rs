use cdt_api::error::ApiErrorCode;
use cdt_api::pagination::{check_page_size, offset_page};

#[test]
fn page_size_zero_is_refused() {
    let e = check_page_size(0).unwrap_err();
    assert_eq!(e.code, ApiErrorCode::ValidationError);
    assert_eq!(e.message, "pageSize must be > 0");
    assert!(check_page_size(1).is_ok());
    let e2 = offset_page(5, None, 0).unwrap_err();
    assert_eq!(e2.code, ApiErrorCode::ValidationError);
}

#[test]
fn first_page_and_next_cursor() {
    let p = offset_page(10, None, 3).unwrap();
    assert_eq!((p.start, p.end), (0, 3));
    assert_eq!(p.next_cursor.as_deref(), Some("3"));
}

#[test]
fn middle_and_last_pages() {
    let p = offset_page(10, Some("3"), 3).unwrap();
    assert_eq!((p.start, p.end), (3, 6));
    assert_eq!(p.next_cursor.as_deref(), Some("6"));
    let last = offset_page(10, Some("9"), 3).unwrap();
    assert_eq!((last.start, last.end), (9, 10));
    assert_eq!(last.next_cursor, None);
    let exact = offset_page(6, Some("3"), 3).unwrap();
    assert_eq!((exact.start, exact.end), (3, 6));
    assert_eq!(exact.next_cursor, None);
}

#[test]
fn cursor_past_the_end_or_malformed() {
    let p = offset_page(4, Some("12"), 3).unwrap();
    assert_eq!((p.start, p.end), (4, 4));
    assert_eq!(p.next_cursor, None);
    let bad = offset_page(4, Some("abc"), 3).unwrap();
    assert_eq!((bad.start, bad.end), (0, 3));
    assert_eq!(bad.next_cursor.as_deref(), Some("3"));
    let empty = offset_page(0, None, 3).unwrap();
    assert_eq!((empty.start, empty.end), (0, 0));
    assert_eq!(empty.next_cursor, None);
}

#[test]
fn following_next_cursors_visits_every_item_once() {
    for total in 0..12usize {
        for page_size in 1..5usize {
            let mut seen: Vec<usize> = Vec::new();
            let mut cursor: Option<String> = None;
            loop {
                let p = offset_page(total, cursor.as_deref(), page_size).unwrap();
                seen.extend(p.start..p.end);
                match p.next_cursor {
                    Some(c) => {
                        let next = offset_page(total, Some(&c), page_size).unwrap();
                        assert_eq!(next.start, p.end);
                        cursor = Some(c);
                    }
                    None => break,
                }
            }
            assert_eq!(seen, (0..total).collect::<Vec<_>>(), "total {total} page {page_size}");
        }
    }
}
