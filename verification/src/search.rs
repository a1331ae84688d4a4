//! The query line: how far a long query is scrolled and where the cursor
//! stands.
use vstd::prelude::*;

verus! {

/// The width in terminal cells that ratatui's `Span::width` gives for a text.
pub uninterp spec fn display_width(s: Seq<char>) -> usize;

/// Measures a text in terminal cells with ratatui's `Span::width`.
/// Trusted: the result is `display_width` of the text; how wide each
/// character is (by the Unicode width tables) is not stated.
#[verifier::external_body]
fn span_width(s: &str) -> (w: usize)
    ensures
        w == display_width(s@),
{
    ratatui::text::Span::raw(s).width()
}

/// What the input field shows.
#[derive(Clone, Copy, Debug, PartialEq, Eq, Structural)]
pub enum QueryLine {
    /// The greyed "Search commands" hint, shown while the query is empty.
    Placeholder,
    /// The query itself.
    Query,
}

/// The horizontal scroll and the cursor column for a query `query_width`
/// cells wide in a field `area_width` cells wide: the end of the query stays
/// in view, with one cell left for the cursor.
pub open spec fn scroll_spec(query_width: u16, area_width: u16) -> (u16, u16) {
    let visible = if area_width >= 1 { area_width - 1 } else { 0 };
    let scroll = if query_width >= visible { query_width - visible } else { 0 };
    (scroll as u16, (query_width - scroll) as u16)
}

/// Scroll and cursor column for a query of the given width.
pub fn scroll_for_width(query_width: u16, area_width: u16) -> (r: (u16, u16))
    ensures
        r == scroll_spec(query_width, area_width),
        r.0 + r.1 == query_width,
        r.1 <= area_width,
        area_width > 0 ==> r.1 < area_width,
{
    let visible_width = area_width.saturating_sub(1);
    let scroll = query_width.saturating_sub(visible_width);
    (scroll, query_width - scroll)
}

/// The query's width in cells, capped at the largest `u16`.
pub open spec fn capped_width(query: Seq<char>) -> u16 {
    if display_width(query) > u16::MAX { u16::MAX } else { display_width(query) as u16 }
}

/// What the input field shows for `query` in a field `area_width` cells
/// wide, its horizontal scroll, and the cursor column.
pub fn query_view(query: &str, area_width: u16) -> (r: (QueryLine, u16, u16))
    ensures
        query@.len() == 0 ==> r == (QueryLine::Placeholder, 0u16, 0u16),
        query@.len() > 0 ==> r.0 == QueryLine::Query && (r.1, r.2) == scroll_spec(
            capped_width(query@),
            area_width,
        ),
{
    if query.is_empty() {
        return (QueryLine::Placeholder, 0, 0);
    }
    let width = span_width(query);
    let query_width: u16 = if width > 65535 { 65535 } else { width as u16 };
    let (scroll, cursor) = scroll_for_width(query_width, area_width);
    (QueryLine::Query, scroll, cursor)
}

} // verus!
