use herdr_pluck::model::{HintAssignment, MatchSpan, Rect, RenderLine, RenderSpan, RenderStyle};
use herdr_pluck::renderer::{
    compose_plain_into_overlay, compose_render_lines_into_overlay, render_inline_hints,
    render_placeholder,
};

#[test]
fn placeholder_renderer_emits_hint_and_match_spans() {
    let lines = render_placeholder(&[HintAssignment {
        hint: "a".to_string(),
        text: "https://example.com".to_string(),
        occurrences: vec![MatchSpan {
            line: 0,
            start: 0,
            end: 19,
            text: "https://example.com".to_string(),
            pattern: "url".to_string(),
            priority: 10,
        }],
    }]);

    assert_eq!(lines[0].spans[0].style, RenderStyle::Hint);
    assert_eq!(lines[0].spans[1].style, RenderStyle::Match);
}

#[test]
fn composition_does_not_add_sidebar_padding_when_rects_are_normalized() {
    let output = compose_plain_into_overlay(
        &["abc".to_string()],
        Rect::new(0, 0, 3, 1),
        Rect::new(0, 0, 10, 2),
        Rect::new(0, 0, 10, 2),
    );

    assert_eq!(output[0], "abc       ");
}

#[test]
fn composition_pads_source_to_its_position_in_larger_overlay() {
    let output = compose_plain_into_overlay(
        &["abc".to_string()],
        Rect::new(3, 2, 3, 1),
        Rect::new(0, 0, 10, 5),
        Rect::new(0, 0, 10, 5),
    );

    assert_eq!(output[0], "          ");
    assert_eq!(output[1], "          ");
    assert_eq!(output[2], "   abc    ");
}

#[test]
fn composition_crops_source_left_and_right_to_overlay_viewport() {
    let output = compose_plain_into_overlay(
        &["abcdef".to_string()],
        Rect::new(0, 0, 6, 1),
        Rect::new(2, 0, 4, 1),
        Rect::new(0, 0, 4, 1),
    );

    assert_eq!(output, vec!["cdef".to_string()]);
}

#[test]
fn composition_crops_source_above_overlay_viewport() {
    let output = compose_plain_into_overlay(
        &["top".to_string(), "bottom".to_string()],
        Rect::new(0, 0, 6, 2),
        Rect::new(0, 1, 6, 1),
        Rect::new(0, 0, 6, 1),
    );

    assert_eq!(output, vec!["bottom".to_string()]);
}

#[test]
fn composing_render_lines_flattens_styles() {
    let source = vec![RenderLine {
        spans: vec![
            RenderSpan {
                text: "ab".to_string(),
                style: RenderStyle::Hint,
            },
            RenderSpan {
                text: "cd".to_string(),
                style: RenderStyle::Match,
            },
        ],
    }];
    let output = compose_render_lines_into_overlay(
        &source,
        Rect::new(1, 0, 4, 1),
        Rect::new(0, 0, 6, 1),
        Rect::new(0, 0, 6, 1),
    );

    assert_eq!(
        output,
        vec![RenderLine {
            spans: vec![RenderSpan {
                text: " abcd ".to_string(),
                style: RenderStyle::Unmatched,
            }],
        }]
    );
}

fn assignment(hint: &str, text: &str, occurrences: Vec<(usize, usize)>) -> HintAssignment {
    HintAssignment {
        hint: hint.to_string(),
        text: text.to_string(),
        occurrences: occurrences
            .into_iter()
            .map(|(line, start)| MatchSpan {
                line,
                start,
                end: start + text.len(),
                text: text.to_string(),
                pattern: "word".to_string(),
                priority: 10,
            })
            .collect(),
    }
}

fn spans(line: &RenderLine) -> Vec<(&str, RenderStyle)> {
    line.spans
        .iter()
        .map(|span| (span.text.as_str(), span.style))
        .collect()
}

#[test]
fn inline_hints_replace_the_start_of_each_occurrence() {
    let lines = vec!["open https://example.com".to_string()];
    let rendered = render_inline_hints(
        &lines,
        &[assignment("a", "https://example.com", vec![(0, 5)])],
        40,
        5,
    );

    assert_eq!(rendered.len(), 1);
    assert_eq!(
        spans(&rendered[0]),
        vec![
            ("open ", RenderStyle::Unmatched),
            ("a", RenderStyle::Hint),
            ("ttps://example.com", RenderStyle::Match),
        ]
    );
}

#[test]
fn inline_hints_wrap_and_keep_the_bottom_rows() {
    let lines = vec!["first".to_string(), "abcdefgh".to_string()];
    let rendered = render_inline_hints(&lines, &[assignment("sd", "cdef", vec![(1, 2)])], 3, 3);

    assert_eq!(rendered.len(), 3);
    assert_eq!(
        spans(&rendered[0]),
        vec![("ab", RenderStyle::Unmatched), ("s", RenderStyle::Hint)]
    );
    assert_eq!(
        spans(&rendered[1]),
        vec![("d", RenderStyle::Hint), ("ef", RenderStyle::Match)]
    );
    assert_eq!(spans(&rendered[2]), vec![("gh", RenderStyle::Unmatched)]);
}

#[test]
fn short_occurrences_and_other_lines_are_left_unmarked() {
    let lines = vec!["ab xy".to_string(), "zz".to_string()];
    let rendered = render_inline_hints(
        &lines,
        &[assignment("sd", "x", vec![(0, 3)]), assignment("fg", "zz", vec![(1, 0)])],
        10,
        10,
    );

    assert_eq!(spans(&rendered[0]), vec![("ab xy", RenderStyle::Unmatched)]);
    assert_eq!(spans(&rendered[1]), vec![("fg", RenderStyle::Hint)]);
}

#[test]
fn zero_width_renders_nothing() {
    let lines = vec!["abc".to_string()];
    assert!(render_inline_hints(&lines, &[], 0, 4).is_empty());
}
