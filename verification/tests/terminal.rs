use herdr_pluck::model::{RenderSpan, RenderStyle};
use herdr_pluck::renderer::terminal::clip_spans;

fn span(text: &str, style: RenderStyle) -> RenderSpan {
    RenderSpan {
        text: text.to_string(),
        style,
    }
}

#[test]
fn clipping_keeps_whole_spans_that_fit() {
    let spans = vec![
        span("ab", RenderStyle::Hint),
        span("cd", RenderStyle::Match),
        span("ef", RenderStyle::Unmatched),
    ];
    assert_eq!(clip_spans(&spans, 6), spans);
    assert_eq!(clip_spans(&spans, 10), spans);
}

#[test]
fn clipping_splits_the_first_span_that_overflows() {
    let spans = vec![
        span("abcd", RenderStyle::Unmatched),
        span("efgh", RenderStyle::Match),
        span("ij", RenderStyle::Hint),
    ];
    assert_eq!(
        clip_spans(&spans, 6),
        vec![span("abcd", RenderStyle::Unmatched), span("ef", RenderStyle::Match)]
    );
}

#[test]
fn clipping_drops_an_empty_remainder() {
    let spans = vec![span("abc", RenderStyle::Unmatched), span("de", RenderStyle::Match)];
    assert_eq!(
        clip_spans(&spans, 3),
        vec![span("abc", RenderStyle::Unmatched)]
    );
    assert_eq!(clip_spans(&spans, 0), Vec::<RenderSpan>::new());
}

#[test]
fn clipping_counts_wide_characters_by_display_width() {
    let spans = vec![span("日本語", RenderStyle::Match)];
    assert_eq!(clip_spans(&spans, 5), vec![span("日本", RenderStyle::Match)]);
    assert_eq!(clip_spans(&spans, 1), Vec::<RenderSpan>::new());
}

#[test]
fn clipping_cuts_the_overflowing_span_at_the_placement_width() {
    let spans = vec![
        span("abc", RenderStyle::Unmatched),
        span("defgh", RenderStyle::Match),
    ];
    let clipped = clip_spans(&spans, 5);
    assert_eq!(
        clipped,
        vec![span("abc", RenderStyle::Unmatched), span("de", RenderStyle::Match)]
    );
}
