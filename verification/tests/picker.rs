use herdr_pluck::model::{
    LogicalLineVisualSegment, VisibleViewport, PaneId, PaneTextCaptureMode, PickerOutcome, PickerSnapshot, Rect, RenderStyle,
    SourcePaneSnapshot,
};
use herdr_pluck::picker::render::{
    build_picker_view, build_readonly_picker_view, place_content_in_overlay,
};
use herdr_pluck::picker::session::{
    copy_failure_message, PickerInputEvent, PickerSession, SessionStep, COPY_FAILURE_CONTEXT,
};
use std::cell::RefCell;

fn snapshot(lines: Vec<&str>, width: u16, height: u16) -> PickerSnapshot {
    PickerSnapshot {
        source: SourcePaneSnapshot {
            target_pane_id: PaneId::new("p1"),
            source_tab_id: "t1".to_string(),
            workspace_id: "w1".to_string(),
            tab_area: Rect::new(0, 0, width, height),
            target_content_rect: Rect::new(0, 0, width, height),
            target_content_width: width,
            target_content_height: height,
            logical_lines: lines.into_iter().map(str::to_string).collect(),
            visible_viewport: None,
            capture_mode: PaneTextCaptureMode::RecentUnwrappedBottomApproximation,
        },
        custom_patterns: Vec::new(),
    }
}

fn geometry_snapshot(tab_area: Rect, content: Rect) -> SourcePaneSnapshot {
    SourcePaneSnapshot {
        target_pane_id: PaneId::new("p1"),
        source_tab_id: "t1".to_string(),
        workspace_id: "w1".to_string(),
        tab_area,
        target_content_rect: content,
        target_content_width: content.width,
        target_content_height: content.height,
        logical_lines: Vec::new(),
        visible_viewport: None,
        capture_mode: PaneTextCaptureMode::ExactVisibleUnwrapped,
    }
}

#[test]
fn placement_offsets_content_by_overlay_chrome_inset() {
    // Tab area 100x40 at (26,1); overlay tty is 98x38 → symmetric inset of 1.
    let source = geometry_snapshot(Rect::new(26, 1, 100, 40), Rect::new(31, 3, 60, 20));

    let placement = place_content_in_overlay(&source, 98, 38);

    assert_eq!(placement, Rect::new(4, 1, 60, 20));
}

#[test]
fn placement_clamps_content_to_overlay_bounds() {
    // Content as wide as the tab area but overlay is smaller: clip and pin to origin.
    let source = geometry_snapshot(Rect::new(0, 0, 100, 40), Rect::new(0, 0, 100, 40));

    let placement = place_content_in_overlay(&source, 98, 38);

    assert_eq!(placement, Rect::new(0, 0, 98, 38));
}

#[test]
fn placement_shifts_bottom_right_content_inside_overlay() {
    let source = geometry_snapshot(Rect::new(0, 0, 100, 40), Rect::new(60, 30, 40, 10));

    let placement = place_content_in_overlay(&source, 98, 38);

    assert_eq!(placement, Rect::new(58, 28, 40, 10));
}

#[test]
fn readonly_view_renders_inline_hints_for_matches() {
    let view = build_readonly_picker_view(&snapshot(vec!["open https://example.com/path"], 40, 1));

    assert_eq!(view.match_count, 1);
    assert_eq!(view.hint_count, 1);
    assert_eq!(view.lines.len(), 1);
    assert!(view.lines[0]
        .spans
        .iter()
        .any(|span| span.style == RenderStyle::Hint && span.text == "a"));
}

#[test]
fn readonly_view_reports_no_matches_with_full_size_message() {
    let view = build_readonly_picker_view(&snapshot(vec!["plain text only"], 20, 3));

    assert_eq!(view.match_count, 0);
    assert_eq!(view.hint_count, 0);
    assert_eq!(view.lines.len(), 3);
    assert_eq!(view.lines[0].spans[0].text.len(), 20);
    assert!(view.lines[0].spans[0].text.starts_with("Herdr Pluck"));
    assert!(view.lines[2].spans[0].text.starts_with("Press"));
}

#[test]
fn custom_patterns_join_the_built_in_ones() {
    let mut snap = snapshot(vec!["ticket ABC-42 at /tmp/x"], 40, 2);
    snap.custom_patterns.push(herdr_pluck::model::PatternSpec {
        name: "ticket".to_string(),
        regex: "ABC-(?<match>[0-9]+)".to_string(),
        priority: 25,
    });
    let view = build_picker_view(&snap);

    let texts: Vec<&str> = view.assignments.iter().map(|a| a.text.as_str()).collect();
    assert_eq!(texts, vec!["42", "/tmp/x"]);
    assert_eq!(view.hint_count(), 2);
}

/// Input events replayed from a script.
struct FakeInput {
    events: Vec<PickerInputEvent>,
}

impl FakeInput {
    fn new(events: Vec<PickerInputEvent>) -> Self {
        Self {
            events: events.into_iter().rev().collect(),
        }
    }

    fn read_event(&mut self) -> Result<PickerInputEvent, String> {
        self.events.pop().ok_or_else(|| "fake input exhausted".to_string())
    }
}

/// Records copied texts and optionally fails.
#[derive(Default)]
struct FakeClipboard {
    copied: RefCell<Vec<String>>,
    error: Option<String>,
}

impl FakeClipboard {
    fn copy(&self, text: &str) -> Result<(), String> {
        self.copied.borrow_mut().push(text.to_string());
        match &self.error {
            Some(error) => Err(error.clone()),
            None => Ok(()),
        }
    }
}

/// Drives a picker session over fake input and clipboard, the way the
/// picker process drives it over the terminal and the system clipboard.
fn run_picker_with(
    snapshot: &PickerSnapshot,
    input: &mut FakeInput,
    clipboard: &FakeClipboard,
    output: &mut Vec<u8>,
) -> Result<PickerOutcome, String> {
    let view = build_picker_view(snapshot);
    for line in &view.lines {
        for span in &line.spans {
            output.extend_from_slice(span.text.as_bytes());
        }
        output.extend_from_slice(b"\r\n");
    }
    let mut session = PickerSession::new(&view);
    loop {
        match session.handle(input.read_event()?) {
            SessionStep::Continue => continue,
            SessionStep::Finish(outcome) => return Ok(outcome),
            SessionStep::Copy(text) => {
                if let Err(error) = clipboard.copy(&text) {
                    let error = format!("{COPY_FAILURE_CONTEXT}: {error}");
                    output.extend_from_slice(copy_failure_message(&text, &error).as_bytes());
                    return Err(error);
                }
                return Ok(PickerOutcome::Copied { text });
            }
        }
    }
}

#[test]
fn exact_hint_copies_matched_text_not_hint() {
    let mut input = FakeInput::new(vec![PickerInputEvent::Char('a')]);
    let clipboard = FakeClipboard::default();
    let mut output = Vec::new();

    let outcome = run_picker_with(
        &snapshot(vec!["open https://example.com/path"], 40, 1),
        &mut input,
        &clipboard,
        &mut output,
    )
    .unwrap();

    assert_eq!(
        outcome,
        PickerOutcome::Copied {
            text: "https://example.com/path".to_string()
        }
    );
    assert_eq!(
        clipboard.copied.borrow().as_slice(),
        &["https://example.com/path".to_string()]
    );
}

#[test]
fn duplicate_hint_copies_shared_text_once() {
    let mut input = FakeInput::new(vec![PickerInputEvent::Char('a')]);
    let clipboard = FakeClipboard::default();
    let mut output = Vec::new();

    let outcome = run_picker_with(
        &snapshot(
            vec!["https://example.com first", "again https://example.com"],
            40,
            2,
        ),
        &mut input,
        &clipboard,
        &mut output,
    )
    .unwrap();

    assert_eq!(
        outcome,
        PickerOutcome::Copied {
            text: "https://example.com".to_string()
        }
    );
    assert_eq!(clipboard.copied.borrow().len(), 1);
}

#[test]
fn invalid_hint_clears_buffer_and_keeps_picker_active() {
    let mut input = FakeInput::new(vec![
        PickerInputEvent::Char('x'),
        PickerInputEvent::Char('a'),
    ]);
    let clipboard = FakeClipboard::default();
    let mut output = Vec::new();

    let outcome = run_picker_with(
        &snapshot(vec!["open https://example.com/path"], 40, 1),
        &mut input,
        &clipboard,
        &mut output,
    )
    .unwrap();

    assert!(matches!(outcome, PickerOutcome::Copied { .. }));
    assert_eq!(clipboard.copied.borrow().len(), 1);
}

#[test]
fn escape_and_ctrl_c_cancel_without_copying() {
    for event in [PickerInputEvent::Escape, PickerInputEvent::CtrlC] {
        let mut input = FakeInput::new(vec![event]);
        let clipboard = FakeClipboard::default();
        let mut output = Vec::new();

        let outcome = run_picker_with(
            &snapshot(vec!["open https://example.com/path"], 40, 1),
            &mut input,
            &clipboard,
            &mut output,
        )
        .unwrap();

        assert_eq!(outcome, PickerOutcome::Cancelled);
        assert!(clipboard.copied.borrow().is_empty());
    }
}

#[test]
fn enter_is_ignored_before_valid_hint() {
    let mut input = FakeInput::new(vec![PickerInputEvent::Enter, PickerInputEvent::Char('a')]);
    let clipboard = FakeClipboard::default();
    let mut output = Vec::new();

    let outcome = run_picker_with(
        &snapshot(vec!["open https://example.com/path"], 40, 1),
        &mut input,
        &clipboard,
        &mut output,
    )
    .unwrap();

    assert!(matches!(outcome, PickerOutcome::Copied { .. }));
}

#[test]
fn clipboard_failure_is_reported_and_not_treated_as_success() {
    let mut input = FakeInput::new(vec![PickerInputEvent::Char('a')]);
    let clipboard = FakeClipboard {
        error: Some("no supported clipboard tool found: tried fake-copy".to_string()),
        ..FakeClipboard::default()
    };
    let mut output = Vec::new();

    let error = run_picker_with(
        &snapshot(vec!["open https://example.com/path"], 40, 1),
        &mut input,
        &clipboard,
        &mut output,
    )
    .unwrap_err();

    assert!(error.contains("failed to copy selected text"));
    assert!(String::from_utf8(output)
        .unwrap()
        .contains("failed to copy"));
}

#[test]
fn no_matches_waits_for_close_key_and_returns_no_matches() {
    let mut input = FakeInput::new(vec![PickerInputEvent::Enter, PickerInputEvent::Char('q')]);
    let clipboard = FakeClipboard::default();
    let mut output = Vec::new();

    let outcome = run_picker_with(
        &snapshot(vec!["plain text only"], 30, 3),
        &mut input,
        &clipboard,
        &mut output,
    )
    .unwrap();

    assert_eq!(outcome, PickerOutcome::NoMatches);
    assert!(clipboard.copied.borrow().is_empty());
}

#[test]
fn copy_failure_message_quotes_the_text() {
    assert_eq!(
        copy_failure_message("a\"b", "boom"),
        "Herdr Pluck: failed to copy \"a\\\"b\": boom"
    );
}

#[test]
fn visible_viewport_rows_carry_hints_of_wrapped_matches() {
    let mut snap = snapshot(vec![], 10, 2);
    snap.source.visible_viewport = Some(VisibleViewport {
        rows: vec!["see https:".to_string(), "//a.test".to_string()],
        logical_lines: vec!["see https://a.test".to_string()],
        segments: vec![
            LogicalLineVisualSegment {
                logical_line: 0,
                logical_start: 0,
                logical_end: 10,
                row: 0,
                col_start: 0,
                col_end: 10,
            },
            LogicalLineVisualSegment {
                logical_line: 0,
                logical_start: 10,
                logical_end: 18,
                row: 1,
                col_start: 0,
                col_end: 8,
            },
        ],
    });
    let view = build_picker_view(&snap);
    assert_eq!(view.match_count, 1);
    let rows: Vec<Vec<(String, RenderStyle)>> = view
        .lines
        .iter()
        .map(|line| line.spans.iter().map(|s| (s.text.clone(), s.style)).collect())
        .collect();
    assert_eq!(
        rows,
        vec![
            vec![
                ("see ".to_string(), RenderStyle::Unmatched),
                ("a".to_string(), RenderStyle::Hint),
                ("ttps:".to_string(), RenderStyle::Match),
            ],
            vec![("//a.test".to_string(), RenderStyle::Match)],
        ]
    );
}
