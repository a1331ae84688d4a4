use kepler::search::{query_view, scroll_for_width, QueryLine};

#[test]
fn scrolls_long_queries_to_the_active_end() {
    let (_, scroll, cursor) = query_view("0123456789", 6);

    assert_eq!(scroll, 5);
    assert_eq!(cursor, 5);
}

#[test]
fn measures_query_in_terminal_cells() {
    let (_, scroll, cursor) = query_view("a\u{301}界", 8);

    assert_eq!(scroll, 0);
    assert_eq!(cursor, 3);
}

#[test]
fn empty_query_shows_the_placeholder() {
    assert_eq!(query_view("", 10), (QueryLine::Placeholder, 0, 0));
    assert_eq!(query_view("ls", 10), (QueryLine::Query, 0, 2));
}

#[test]
fn scroll_keeps_one_cell_for_the_cursor() {
    assert_eq!(scroll_for_width(10, 0), (10, 0));
    assert_eq!(scroll_for_width(10, 1), (10, 0));
    assert_eq!(scroll_for_width(4, 5), (0, 4));
    assert_eq!(scroll_for_width(5, 5), (1, 4));
}
