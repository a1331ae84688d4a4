//! Screen geometry: rectangles, the inline viewport that the picker draws
//! in, and how that viewport is divided into panes.
use vstd::prelude::*;
use ratatui::layout::{Constraint as RConstraint, Direction, Layout};

verus! {

/// A rectangle of terminal cells.
#[derive(Clone, Copy, Debug, Default, PartialEq, Eq, Structural)]
pub struct Rect {
    pub x: u16,
    pub y: u16,
    pub width: u16,
    pub height: u16,
}

/// A sizing rule for one pane of a layout.
#[derive(Clone, Copy, Debug, PartialEq, Eq, Structural)]
pub enum Constraint {
    Length(u16),
    Min(u16),
    Percentage(u16),
    Fill(u16),
}

/// The rows the picker's viewport takes at most.
pub const INLINE_HEIGHT: u16 = 20;

/// `Rect::new` of ratatui: the size is cut so that the rectangle ends within
/// the `u16` coordinate range.
pub open spec fn rect_spec(x: u16, y: u16, width: u16, height: u16) -> Rect {
    Rect {
        x,
        y,
        width: if width > u16::MAX - x { (u16::MAX - x) as u16 } else { width },
        height: if height > u16::MAX - y { (u16::MAX - y) as u16 } else { height },
    }
}

/// Builds a rectangle with ratatui's `Rect::new`.
/// Trusted: the result is `rect_spec` of the arguments, as the crate's source
/// computes it.
#[verifier::external_body]
fn ratatui_rect(x: u16, y: u16, width: u16, height: u16) -> (r: Rect)
    ensures
        r == rect_spec(x, y, width, height),
{
    let r = ratatui::layout::Rect::new(x, y, width, height);
    Rect { x: r.x, y: r.y, width: r.width, height: r.height }
}

/// `Rect::inner` of ratatui with a margin: the rectangle shrunk by the margin
/// on every side, or the empty rectangle at the origin when it does not fit.
pub open spec fn inner_spec(r: Rect, horizontal: u16, vertical: u16) -> Rect {
    let dh = if 2 * horizontal > u16::MAX { u16::MAX as int } else { 2 * horizontal };
    let dv = if 2 * vertical > u16::MAX { u16::MAX as int } else { 2 * vertical };
    if r.width < dh || r.height < dv {
        Rect { x: 0, y: 0, width: 0, height: 0 }
    } else {
        Rect {
            x: if r.x + horizontal > u16::MAX { u16::MAX } else { (r.x + horizontal) as u16 },
            y: if r.y + vertical > u16::MAX { u16::MAX } else { (r.y + vertical) as u16 },
            width: (r.width - dh) as u16,
            height: (r.height - dv) as u16,
        }
    }
}

/// Shrinks a rectangle by a margin with ratatui's `Rect::inner`.
/// Trusted: the result is `inner_spec` of the arguments, as the crate's source
/// computes it.
#[verifier::external_body]
fn ratatui_inner(r: Rect, horizontal: u16, vertical: u16) -> (res: Rect)
    ensures
        res == inner_spec(r, horizontal, vertical),
{
    let area = ratatui::layout::Rect { x: r.x, y: r.y, width: r.width, height: r.height };
    let i = area.inner(ratatui::layout::Margin::new(horizontal, vertical));
    Rect { x: i.x, y: i.y, width: i.width, height: i.height }
}

/// `Block::bordered().inner` of ratatui: the area inside a one-cell border.
pub open spec fn bordered_inner_spec(r: Rect) -> Rect {
    let right = if r.x + r.width > u16::MAX { u16::MAX as int } else { r.x + r.width };
    let bottom = if r.y + r.height > u16::MAX { u16::MAX as int } else { r.y + r.height };
    let x1 = if r.x + 1 > u16::MAX { u16::MAX as int } else { r.x + 1 };
    let y1 = if r.y + 1 > u16::MAX { u16::MAX as int } else { r.y + 1 };
    Rect {
        x: (if x1 < right { x1 } else { right }) as u16,
        y: (if y1 < bottom { y1 } else { bottom }) as u16,
        width: (if r.width >= 2 { r.width - 2 } else { 0 }) as u16,
        height: (if r.height >= 2 { r.height - 2 } else { 0 }) as u16,
    }
}

/// The area inside a bordered block, from ratatui's `Block::inner`.
/// Trusted: the result is `bordered_inner_spec` of the area, as the crate's
/// source computes it for a block with all borders, no title and no padding.
#[verifier::external_body]
fn ratatui_bordered_inner(r: Rect) -> (res: Rect)
    ensures
        res == bordered_inner_spec(r),
{
    let area = ratatui::layout::Rect { x: r.x, y: r.y, width: r.width, height: r.height };
    let i = ratatui::widgets::Block::bordered().inner(area);
    Rect { x: i.x, y: i.y, width: i.width, height: i.height }
}

/// A layout: the direction of the split, one sizing rule per pane, and the
/// cells left between neighbouring panes.
#[derive(Clone, Debug, PartialEq, Eq)]
pub struct LayoutSpec {
    pub vertical: bool,
    pub constraints: Vec<Constraint>,
    pub spacing: u16,
}

/// The last column (or row) past a rectangle, as ratatui's `Rect::right`
/// (or `bottom`) gives it.
pub open spec fn end_along(vertical: bool, r: Rect) -> int {
    if vertical {
        sat_add(r.y, r.height) as int
    } else {
        sat_add(r.x, r.width) as int
    }
}

/// A pane of a split: it spans the whole area across the direction of the
/// split (a vertical split keeps the area's columns, a horizontal one its
/// rows), and along the split it starts and ends inside the area.
pub open spec fn pane_of(vertical: bool, part: Rect, area: Rect) -> bool {
    if vertical {
        &&& part.x == area.x
        &&& part.width == area.width
        &&& area.y <= part.y
        &&& part.y + part.height <= end_along(true, area)
    } else {
        &&& part.y == area.y
        &&& part.height == area.height
        &&& area.x <= part.x
        &&& part.x + part.width <= end_along(false, area)
    }
}

/// `inner` lies within `outer`.
pub open spec fn lies_within(inner: Rect, outer: Rect) -> bool {
    &&& outer.x <= inner.x
    &&& inner.x + inner.width <= end_along(false, outer)
    &&& outer.y <= inner.y
    &&& inner.y + inner.height <= end_along(true, outer)
}

/// Holds when `parts` is a split that ratatui's layout solver may return for
/// an area split in the given direction, by the given constraints, with the
/// given spacing between panes. The solver walks hash maps seeded afresh in
/// each process, so this claims no determinism: two splits of the same area
/// by the same layout may both satisfy it and differ.
pub uninterp spec fn split_outcome(
    vertical: bool,
    constraints: Seq<Constraint>,
    spacing: u16,
    area: Rect,
    parts: Seq<Rect>,
) -> bool;

/// Splits an area with ratatui's `Layout::split` (flex `Start`, no margin).
/// Trusted: the result is a split by exactly the layout and area handed in
/// (`split_outcome`), with one pane per constraint, each as `pane_of` says.
/// The panes' shape follows from the constraints the crate's source adds as
/// REQUIRED (every boundary within the area, every pane ending no earlier
/// than it starts) and from how it rounds the solution to cells. Where the
/// solver places the panes along the split is not stated: the sizes, spacing
/// and order are weighted goals, not requirements, of its optimisation.
#[verifier::external_body]
fn ratatui_split(layout: &LayoutSpec, area: Rect) -> (r: Vec<Rect>)
    ensures
        split_outcome(layout.vertical, layout.constraints@, layout.spacing, area, r@),
        r@.len() == layout.constraints@.len(),
        forall|i: int| 0 <= i < r@.len() ==> pane_of(layout.vertical, #[trigger] r@[i], area),
{
    let cs = layout.constraints.iter().map(|c| match *c {
        Constraint::Length(n) => RConstraint::Length(n),
        Constraint::Min(n) => RConstraint::Min(n),
        Constraint::Percentage(n) => RConstraint::Percentage(n),
        Constraint::Fill(n) => RConstraint::Fill(n),
    });
    let d = if layout.vertical { Direction::Vertical } else { Direction::Horizontal };
    let a = ratatui::layout::Rect { x: area.x, y: area.y, width: area.width, height: area.height };
    let rects = Layout::new(d, cs).spacing(layout.spacing).split(a);
    rects.iter().map(|r| Rect { x: r.x, y: r.y, width: r.width, height: r.height }).collect()
}

impl Rect {
    /// A rectangle, cut to end within the coordinate range.
    pub fn new(x: u16, y: u16, width: u16, height: u16) -> (r: Self)
        ensures
            r == rect_spec(x, y, width, height),
    {
        ratatui_rect(x, y, width, height)
    }
}

/// The smaller of two numbers.
pub open spec fn min_u16(a: u16, b: u16) -> u16 {
    if a < b { a } else { b }
}

/// `a - b`, or 0 when `b` is larger.
pub open spec fn sat_sub(a: u16, b: u16) -> u16 {
    if a >= b { (a - b) as u16 } else { 0 }
}

/// `a + b`, or the largest `u16` when the sum does not fit.
pub open spec fn sat_add(a: u16, b: u16) -> u16 {
    if a + b > u16::MAX { u16::MAX } else { (a + b) as u16 }
}

/// The viewport for a terminal of the given size, kept at its anchor row
/// unless that would push it below the bottom.
pub open spec fn viewport_spec(anchor_y: u16, width: u16, height: u16) -> Rect {
    let viewport_height = min_u16(INLINE_HEIGHT, height);
    let top = min_u16(anchor_y, sat_sub(height, viewport_height));
    Rect { x: 0, y: top, width, height: viewport_height }
}

/// Where the viewport goes after the terminal is resized to `width` by
/// `height`: at most `INLINE_HEIGHT` rows, at the anchor row, moved up just
/// enough to stay on screen.
pub fn viewport_area(anchor_y: u16, width: u16, height: u16) -> (r: Rect)
    ensures
        r == viewport_spec(anchor_y, width, height),
        r.y + r.height <= height,
        r.height == min_u16(INLINE_HEIGHT, height),
        r.y <= anchor_y,
{
    let viewport_height = if INLINE_HEIGHT < height { INLINE_HEIGHT } else { height };
    let room = height - viewport_height;
    let top = if anchor_y < room { anchor_y } else { room };
    Rect::new(0, top, width, viewport_height)
}

/// The viewport placed at the cursor row when the picker opens, and how many
/// lines must first be scrolled up to make room for it below the cursor.
pub open spec fn initial_viewport_spec(cursor_y: u16, width: u16, height: u16) -> (Rect, u16) {
    let viewport_height = min_u16(INLINE_HEIGHT, height);
    let overflow = sat_sub(sat_add(cursor_y, viewport_height), height);
    let top = sat_sub(cursor_y, overflow);
    (rect_spec(0, top, width, viewport_height), overflow)
}

/// Places the viewport when the picker opens with the cursor on row
/// `cursor_y` of a `width` by `height` terminal. Returns the viewport and the
/// number of new lines to print first.
pub fn initial_viewport(cursor_y: u16, width: u16, height: u16) -> (r: (Rect, u16))
    ensures
        r == initial_viewport_spec(cursor_y, width, height),
        cursor_y < height && cursor_y + min_u16(INLINE_HEIGHT, height) <= u16::MAX ==> r.0.y
            + r.0.height <= height && r.0.height == min_u16(INLINE_HEIGHT, height),
{
    let viewport_height = if INLINE_HEIGHT < height { INLINE_HEIGHT } else { height };
    let overflow = cursor_y.saturating_add(viewport_height).saturating_sub(height);
    let top = cursor_y.saturating_sub(overflow);
    (Rect::new(0, top, width, viewport_height), overflow)
}

/// What the terminal must do on a resize: the new viewport, and whether it
/// must be set twice (ratatui clears from row zero when the width shrinks,
/// and a second pass puts the viewport back at its anchor).
#[derive(Clone, Copy, Debug, PartialEq, Eq, Structural)]
pub struct ResizePlan {
    pub area: Rect,
    pub repeat: bool,
}

/// The viewport's anchor row and the terminal width it was last laid out for.
#[derive(Clone, Copy, Debug, PartialEq, Eq, Structural)]
pub struct ViewportState {
    pub anchor_y: u16,
    pub width: u16,
}

impl ViewportState {
    /// The viewport anchored at `anchor_y` for a terminal `width` wide.
    pub fn new(anchor_y: u16, width: u16) -> (r: Self)
        ensures
            r == (ViewportState { anchor_y, width }),
    {
        ViewportState { anchor_y, width }
    }

    /// What to do when the terminal becomes `width` by `height`.
    pub fn plan_resize(&self, width: u16, height: u16) -> (r: ResizePlan)
        ensures
            r.area == viewport_spec(self.anchor_y, width, height),
            r.repeat == (width < self.width),
    {
        ResizePlan { area: viewport_area(self.anchor_y, width, height), repeat: width < self.width }
    }

    /// Records that the viewport is now laid out for `width`.
    pub fn record_width(&mut self, width: u16)
        ensures
            final(self).width == width,
            final(self).anchor_y == old(self).anchor_y,
    {
        self.width = width;
    }
}

/// Two panes in order.
pub open spec fn two_panes(first: Rect, second: Rect) -> Seq<Rect> {
    seq![first, second]
}

/// Three panes in order.
pub open spec fn three_panes(first: Rect, second: Rect, third: Rect) -> Seq<Rect> {
    seq![first, second, third]
}

/// The constraints of `body_layout`.
pub open spec fn body_constraints() -> Seq<Constraint> {
    seq![Constraint::Percentage(44), Constraint::Percentage(56)]
}

/// The constraints of `results_layout`.
pub open spec fn results_constraints() -> Seq<Constraint> {
    seq![Constraint::Length(1), Constraint::Min(5)]
}

/// The constraints of `query_layout`.
pub open spec fn query_constraints() -> Seq<Constraint> {
    seq![Constraint::Length(2), Constraint::Min(0)]
}

/// The constraints of `centered_layout`.
pub open spec fn centered_constraints() -> Seq<Constraint> {
    seq![Constraint::Fill(1), Constraint::Length(1), Constraint::Fill(1)]
}

/// The constraints of `help_path_layout`.
pub open spec fn help_path_constraints() -> Seq<Constraint> {
    seq![Constraint::Min(0), Constraint::Length(1)]
}

/// The split of the screen's inside into the result side and the preview:
/// side by side, 44% and 56%, one cell apart.
pub fn body_layout() -> (r: LayoutSpec)
    ensures
        !r.vertical,
        r.constraints@ == body_constraints(),
        r.spacing == 1,
{
    LayoutSpec {
        vertical: false,
        constraints: vec![Constraint::Percentage(44), Constraint::Percentage(56)],
        spacing: 1,
    }
}

/// The split of the result side: a one-row query line above the results,
/// which take at least five rows.
pub fn results_layout() -> (r: LayoutSpec)
    ensures
        r.vertical,
        r.constraints@ == results_constraints(),
        r.spacing == 0,
{
    LayoutSpec { vertical: true, constraints: vec![Constraint::Length(1), Constraint::Min(5)], spacing: 0 }
}

/// The split of the query line: a two-column prompt, then the input field.
pub fn query_layout() -> (r: LayoutSpec)
    ensures
        !r.vertical,
        r.constraints@ == query_constraints(),
        r.spacing == 0,
{
    LayoutSpec { vertical: false, constraints: vec![Constraint::Length(2), Constraint::Min(0)], spacing: 0 }
}

/// The split that centres one line: equal fills above and below one row.
pub fn centered_layout() -> (r: LayoutSpec)
    ensures
        r.vertical,
        r.constraints@ == centered_constraints(),
        r.spacing == 0,
{
    LayoutSpec {
        vertical: true,
        constraints: vec![Constraint::Fill(1), Constraint::Length(1), Constraint::Fill(1)],
        spacing: 0,
    }
}

/// The split of the preview's inside: the help text, then the path on one row.
pub fn help_path_layout() -> (r: LayoutSpec)
    ensures
        r.vertical,
        r.constraints@ == help_path_constraints(),
        r.spacing == 0,
{
    LayoutSpec { vertical: true, constraints: vec![Constraint::Min(0), Constraint::Length(1)], spacing: 0 }
}

/// Splits an area in two with a layout of two constraints.
fn split_two(layout: &LayoutSpec, area: Rect) -> (r: (Rect, Rect))
    requires
        layout.constraints@.len() == 2,
    ensures
        split_outcome(layout.vertical, layout.constraints@, layout.spacing, area, seq![r.0, r.1]),
        pane_of(layout.vertical, r.0, area),
        pane_of(layout.vertical, r.1, area),
{
    let parts = ratatui_split(layout, area);
    proof {
        assert(parts@ == seq![parts@[0], parts@[1]]);
    }
    (parts[0], parts[1])
}

/// Splits an area by `body_layout` into a left and a right pane; both span
/// the area's rows and lie within its columns.
pub fn body_areas(area: Rect) -> (r: (Rect, Rect))
    ensures
        split_outcome(false, body_constraints(), 1, area, seq![r.0, r.1]),
        pane_of(false, r.0, area),
        pane_of(false, r.1, area),
{
    split_two(&body_layout(), area)
}

/// The panes of the picker's screen: the query line and the result list on
/// the left, the help preview on the right.
#[derive(Clone, Copy, Debug, PartialEq, Eq, Structural)]
pub struct ScreenAreas {
    pub query: Rect,
    pub results: Rect,
    pub preview: Rect,
}

/// The area inside the screen's border, less one column on each side.
pub open spec fn screen_inner_spec(area: Rect) -> Rect {
    inner_spec(bordered_inner_spec(area), 1, 0)
}

/// Lays out the screen: inside the border and a one-column margin, the
/// `body_layout` split gives a left pane and the preview; the left pane is
/// split by `results_layout` into the query line and the results. The query
/// line and the results lie within the inside and share a column range; the
/// preview spans the inside's rows and lies within its columns.
pub fn screen_areas(area: Rect) -> (r: ScreenAreas)
    ensures
        exists|left: Rect|
            split_outcome(false, body_constraints(), 1, screen_inner_spec(area), two_panes(left, r.preview))
                && #[trigger] split_outcome(true, results_constraints(), 0, left, two_panes(r.query, r.results)),
        lies_within(r.query, screen_inner_spec(area)),
        lies_within(r.results, screen_inner_spec(area)),
        screen_inner_spec(area).x <= r.preview.x,
        r.preview.x + r.preview.width <= end_along(false, screen_inner_spec(area)),
        r.preview.y == screen_inner_spec(area).y,
        r.preview.height == screen_inner_spec(area).height,
        r.query.x == r.results.x,
        r.query.width == r.results.width,
{
    let bordered = ratatui_bordered_inner(area);
    let inner = ratatui_inner(bordered, 1, 0);
    let (left, preview) = body_areas(inner);
    let (query, results) = split_two(&results_layout(), left);
    let r = ScreenAreas { query, results, preview };
    proof {
        assert(split_outcome(false, body_constraints(), 1, inner, two_panes(left, r.preview)));
        assert(split_outcome(true, results_constraints(), 0, left, two_panes(r.query, r.results)));
    }
    r
}

/// Splits the query line by `query_layout` into the prompt and the input
/// field, both on the line's rows and within its columns.
pub fn query_areas(area: Rect) -> (r: (Rect, Rect))
    ensures
        split_outcome(false, query_constraints(), 0, area, seq![r.0, r.1]),
        pane_of(false, r.0, area),
        pane_of(false, r.1, area),
{
    split_two(&query_layout(), area)
}

/// The middle pane of the `centered_layout` split, for a one-line message
/// centred vertically; it spans the area's columns and lies within its rows.
pub fn centered_line(area: Rect) -> (r: Rect)
    ensures
        exists|above: Rect, below: Rect|
            #[trigger] split_outcome(
                true,
                centered_constraints(),
                0,
                area,
                three_panes(above, r, below),
            ),
        pane_of(true, r, area),
{
    let parts = ratatui_split(&centered_layout(), area);
    proof {
        assert(parts@ == three_panes(parts@[0], parts@[1], parts@[2]));
    }
    parts[1]
}

/// The area inside the preview's border.
pub fn preview_inner(area: Rect) -> (r: Rect)
    ensures
        r == inner_spec(area, 1, 1),
{
    ratatui_inner(area, 1, 1)
}

/// Splits the inside of the preview by `help_path_layout` into the help text
/// and the command's path; both span its columns and lie within its rows.
pub fn help_and_path_areas(area: Rect) -> (r: (Rect, Rect))
    ensures
        split_outcome(true, help_path_constraints(), 0, area, seq![r.0, r.1]),
        pane_of(true, r.0, area),
        pane_of(true, r.1, area),
{
    split_two(&help_path_layout(), area)
}

} // verus!
