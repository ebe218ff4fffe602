use task_timer::paginator::Paginator;

#[test]
fn page_slice_bounds() {
    let mut p = Paginator::new(25, 60);
    assert_eq!(p.page_slice(), (0, 25));
    assert_eq!(p.content_height(), 25);
    p.next_page();
    assert_eq!(p.page, 1);
    assert_eq!(p.offset(), 25);
    assert_eq!(p.page_slice(), (25, 50));
    assert_eq!(p.content_height(), 25);
    p.next_page();
    assert_eq!(p.page_slice(), (50, 60));
    assert_eq!(p.content_height(), 10);
}

#[test]
fn next_page_stops_at_the_last_page() {
    let mut p = Paginator::new(25, 60);
    p.next_page();
    p.next_page();
    p.next_page();
    p.next_page();
    assert_eq!(p.page, 2);
    assert!(p.page <= p.entry_len / p.page_size);
}

#[test]
fn next_page_needs_rows_beyond_the_page() {
    let mut exact = Paginator::new(25, 50);
    exact.next_page();
    assert_eq!(exact.page, 1);
    exact.next_page();
    assert_eq!(exact.page, 1);
    let mut one = Paginator::new(25, 25);
    one.next_page();
    assert_eq!(one.page, 0);
}

#[test]
fn prev_page_stops_at_the_first_page() {
    let mut p = Paginator::new(8, 20);
    p.next_page();
    p.next_page();
    assert_eq!(p.page, 2);
    p.prev_page();
    assert_eq!(p.page, 1);
    p.prev_page();
    p.prev_page();
    assert_eq!(p.page, 0);
}

#[test]
fn an_empty_list_has_one_empty_page() {
    let mut p = Paginator::new(25, 0);
    assert_eq!(p.page_slice(), (0, 0));
    assert_eq!(p.content_height(), 0);
    p.next_page();
    assert_eq!(p.page, 0);
    p.prev_page();
    assert_eq!(p.page, 0);
}

#[test]
fn reset_goes_back_to_the_first_page() {
    let mut p = Paginator::new(8, 30);
    p.next_page();
    p.reset(3);
    assert_eq!((p.page, p.page_size, p.entry_len), (0, 8, 3));
    assert_eq!(p.page_slice(), (0, 3));
}

#[test]
fn bounds_are_ordered_on_every_page() {
    for len in 0..40usize {
        let mut p = Paginator::new(7, len);
        for _ in 0..10 {
            let (start, end) = p.page_slice();
            assert!(start <= end && end <= len);
            assert!(p.page <= len / 7);
            p.next_page();
        }
        for _ in 0..12 {
            p.prev_page();
            let (start, end) = p.page_slice();
            assert!(start <= end && end <= len);
        }
        assert_eq!(p.page, 0);
    }
}
