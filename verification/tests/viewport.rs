use herdr_pluck::model::{
    LogicalLineVisualSegment, PaneId, PaneTextCaptureMode, PickerSnapshot, Rect, RenderStyle,
    SourcePaneSnapshot,
};
use herdr_pluck::picker::render::build_picker_view;
use herdr_pluck::viewport::map_visible_viewport;

fn rows(values: &[&str]) -> Vec<String> {
    values.iter().map(|v| v.to_string()).collect()
}

#[test]
fn full_rows_run_on_into_the_next_row() {
    let viewport = map_visible_viewport(rows(&["see https:", "//a.test", "next é"]), 10, 3);
    assert_eq!(viewport.rows, rows(&["see https:", "//a.test", "next é"]));
    assert_eq!(
        viewport.logical_lines,
        rows(&["see https://a.test", "next é"])
    );
    assert_eq!(
        viewport.segments,
        vec![
            LogicalLineVisualSegment {
                logical_line: 0,
                logical_start: 0,
                logical_end: 10,
                row: 0,
                col_start: 0,
                col_end: 10,
            },
            LogicalLineVisualSegment {
                logical_line: 0,
                logical_start: 10,
                logical_end: 18,
                row: 1,
                col_start: 0,
                col_end: 8,
            },
            LogicalLineVisualSegment {
                logical_line: 1,
                logical_start: 0,
                logical_end: 7,
                row: 2,
                col_start: 0,
                col_end: 6,
            },
        ]
    );
}

#[test]
fn only_the_bottom_rows_are_kept_and_the_last_row_never_runs_on() {
    let viewport = map_visible_viewport(rows(&["old", "abcd", "efgh"]), 4, 2);
    assert_eq!(viewport.rows, rows(&["abcd", "efgh"]));
    assert_eq!(viewport.logical_lines, rows(&["abcdefgh"]));
    assert_eq!(viewport.segments.len(), 2);
    assert_eq!(viewport.segments[1].logical_start, 4);
    assert_eq!(viewport.segments[1].logical_end, 8);
}

#[test]
fn picker_draws_hints_on_the_mapped_visible_rows() {
    let viewport = map_visible_viewport(rows(&["see https:", "//a.test"]), 10, 2);
    let snapshot = PickerSnapshot {
        source: SourcePaneSnapshot {
            target_pane_id: PaneId::new("p1"),
            source_tab_id: "t1".to_string(),
            workspace_id: "w1".to_string(),
            tab_area: Rect::new(0, 0, 10, 2),
            target_content_rect: Rect::new(0, 0, 10, 2),
            target_content_width: 10,
            target_content_height: 2,
            logical_lines: viewport.logical_lines.clone(),
            visible_viewport: Some(viewport),
            capture_mode: PaneTextCaptureMode::ExactVisibleUnwrapped,
        },
        custom_patterns: Vec::new(),
    };
    let view = build_picker_view(&snapshot);
    assert_eq!(view.assignments.len(), 1);
    assert_eq!(view.assignments[0].text, "https://a.test");
    let spans: Vec<(String, RenderStyle)> = view.lines[1]
        .spans
        .iter()
        .map(|s| (s.text.clone(), s.style))
        .collect();
    assert_eq!(spans, vec![("//a.test".to_string(), RenderStyle::Match)]);
}
