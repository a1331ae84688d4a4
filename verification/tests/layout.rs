use kepler::layout::{
    body_areas, centered_line, help_and_path_areas, initial_viewport, preview_inner, query_areas,
    screen_areas, viewport_area, Rect, ViewportState, INLINE_HEIGHT,
};

#[test]
fn keeps_viewport_visible_across_resizes() {
    assert_eq!(viewport_area(10, 100, 40), Rect::new(0, 10, 100, 20));
    assert_eq!(viewport_area(10, 60, 12), Rect::new(0, 0, 60, 12));
}

#[test]
fn viewport_moves_up_only_as_far_as_needed() {
    assert_eq!(viewport_area(30, 80, 40), Rect { x: 0, y: 20, width: 80, height: INLINE_HEIGHT });
    assert_eq!(viewport_area(0, 80, 0), Rect { x: 0, y: 0, width: 80, height: 0 });
}

#[test]
fn rect_new_keeps_the_rectangle_in_range() {
    let r = Rect::new(65530, 65000, 10, 1000);
    assert_eq!(r, Rect { x: 65530, y: 65000, width: 5, height: 535 });
}

#[test]
fn initial_viewport_scrolls_when_the_cursor_is_low() {
    let (area, overflow) = initial_viewport(35, 100, 40);
    assert_eq!(overflow, 15);
    assert_eq!(area, Rect { x: 0, y: 20, width: 100, height: 20 });
    let (area, overflow) = initial_viewport(3, 100, 40);
    assert_eq!(overflow, 0);
    assert_eq!(area, Rect { x: 0, y: 3, width: 100, height: 20 });
}

#[test]
fn resize_repeats_when_the_width_shrinks() {
    let mut state = ViewportState::new(10, 100);
    let plan = state.plan_resize(60, 12);
    assert_eq!(plan.area, Rect { x: 0, y: 0, width: 60, height: 12 });
    assert!(plan.repeat);
    state.record_width(60);
    assert_eq!(state.width, 60);
    assert_eq!(state.anchor_y, 10);
    assert!(!state.plan_resize(80, 40).repeat);
}

#[test]
fn body_areas_split_side_by_side() {
    let area = Rect::new(0, 0, 101, 10);
    let (left, right) = body_areas(area);
    assert_eq!(left.x, 0);
    assert!(left.width < area.width);
    assert!(right.x > left.x + left.width);
    assert_eq!(left.width + 1 + right.width, area.width);
    assert_eq!(left.height, 10);
}

#[test]
fn screen_areas_leave_room_for_borders() {
    let areas = screen_areas(Rect::new(0, 0, 100, 30));
    assert_eq!(areas.query.y, 1);
    assert_eq!(areas.query.height, 1);
    assert_eq!(areas.query.x, 2);
    assert_eq!(areas.results.y, 2);
    assert_eq!(areas.results.height, 27);
    assert!(areas.preview.x > areas.query.x + areas.query.width);
}

#[test]
fn query_line_has_a_two_column_prompt() {
    let (prompt, input) = query_areas(Rect::new(2, 1, 40, 1));
    assert_eq!(prompt, Rect::new(2, 1, 2, 1));
    assert_eq!(input, Rect::new(4, 1, 38, 1));
}

#[test]
fn centered_line_is_the_middle_row() {
    let line = centered_line(Rect::new(0, 0, 20, 11));
    assert_eq!(line, Rect::new(0, 5, 20, 1));
}

#[test]
fn preview_inner_drops_the_border() {
    assert_eq!(preview_inner(Rect::new(10, 5, 20, 10)), Rect::new(11, 6, 18, 8));
    assert_eq!(preview_inner(Rect::new(10, 5, 1, 10)), Rect::new(0, 0, 0, 0));
    let (help, path) = help_and_path_areas(Rect::new(11, 6, 18, 8));
    assert_eq!(help, Rect::new(11, 6, 18, 7));
    assert_eq!(path, Rect::new(11, 13, 18, 1));
}

#[test]
fn inner_areas_at_the_edge_of_the_range() {
    let edge = Rect { x: 65535, y: 0, width: 2, height: 2 };
    assert_eq!(preview_inner(edge), Rect { x: 65535, y: 1, width: 0, height: 0 });
    let wide = Rect { x: 65530, y: 0, width: 100, height: 10 };
    let areas = screen_areas(wide);
    assert_eq!(areas.preview.y, 1);
    assert_eq!(areas.preview.height, 8);
}
