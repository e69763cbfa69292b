use herdr_pluck::model::{MatchSpan, PaneId, Rect, SourceGeometrySnapshot};

#[test]
fn rect_relative_to_removes_global_sidebar_and_tab_offsets() {
    assert_eq!(
        Rect::new(26, 1, 225, 63).relative_to(Rect::new(26, 1, 226, 63)),
        Rect::new(0, 0, 225, 63)
    );
}

#[test]
fn relative_to_saturates_at_origin() {
    assert_eq!(
        Rect::new(3, 4, 10, 5).relative_to(Rect::new(8, 9, 1, 1)),
        Rect::new(0, 0, 10, 5)
    );
}

#[test]
fn inset_removes_border_on_every_side() {
    assert_eq!(Rect::new(40, 0, 60, 40).inset(1), Rect::new(41, 1, 58, 38));
    assert_eq!(Rect::new(0, 0, 1, 1).inset(1), Rect::new(1, 1, 0, 0));
    assert_eq!(
        Rect::new(65534, 0, 5, 5).inset(3),
        Rect::new(65535, 3, 0, 0)
    );
}

#[test]
fn reserve_right_gutter_never_underflows() {
    assert_eq!(Rect::new(2, 3, 10, 4).reserve_right_gutter(1), Rect::new(2, 3, 9, 4));
    assert_eq!(Rect::new(2, 3, 1, 4).reserve_right_gutter(5), Rect::new(2, 3, 0, 4));
}

#[test]
fn geometry_rects_in_terminal_are_relative_to_terminal_area() {
    let geometry = SourceGeometrySnapshot {
        target_pane_id: PaneId::new("p1"),
        terminal_area: Rect::new(26, 1, 226, 63),
        source_outer_rect: Rect::new(139, 1, 113, 63),
        source_content_rect: Rect::new(140, 2, 110, 61),
        pane_count: 2,
        zoomed: false,
        target_focused: true,
    };
    assert_eq!(geometry.source_outer_rect_in_terminal(), Rect::new(113, 0, 113, 63));
    assert_eq!(geometry.source_content_rect_in_terminal(), Rect::new(114, 1, 110, 61));
}

fn span(line: usize, start: usize, end: usize) -> MatchSpan {
    MatchSpan {
        line,
        start,
        end,
        text: "x".to_string(),
        pattern: "p".to_string(),
        priority: 10,
    }
}

#[test]
fn spans_overlap_only_on_the_same_line_with_shared_bytes() {
    assert!(span(0, 0, 4).overlaps(&span(0, 3, 6)));
    assert!(!span(0, 0, 3).overlaps(&span(0, 3, 6)));
    assert!(!span(0, 0, 4).overlaps(&span(1, 0, 4)));
    assert!(span(0, 2, 2).overlaps(&span(0, 0, 4)));
    assert!(!span(0, 4, 4).overlaps(&span(0, 0, 4)));
}

#[test]
fn span_length_is_saturating() {
    assert_eq!(span(0, 3, 9).len_bytes(), 6);
    assert_eq!(span(0, 9, 3).len_bytes(), 0);
}
