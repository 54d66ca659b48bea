use opencascade::cursor::IndexCursor;

fn drain(mut c: IndexCursor) -> Vec<i32> {
    let mut out = Vec::new();
    while let Some(i) = c.next() {
        out.push(i);
    }
    out
}

#[test]
fn cursor_walks_one_based_range() {
    assert_eq!(drain(IndexCursor::new(3)), vec![1, 2, 3]);
}

#[test]
fn cursor_empty_and_negative() {
    assert!(drain(IndexCursor::new(0)).is_empty());
    assert!(drain(IndexCursor::new(-5)).is_empty());
}

#[test]
fn cursor_stays_exhausted() {
    let mut c = IndexCursor::new(1);
    assert_eq!(c.next(), Some(1));
    assert_eq!(c.next(), None);
    assert_eq!(c.next(), None);
}

#[test]
fn cursor_at_largest_length() {
    let mut c = IndexCursor::new(i32::MAX);
    assert_eq!(c.next(), Some(1));
    assert_eq!(c.next(), Some(2));
}
