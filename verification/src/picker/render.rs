//! Picker view construction from a captured pane snapshot.

use crate::hints::{assign_hints, assignments_for, span_models};
use crate::model::{
    AssignmentModel, HintAssignment, PickerOutcome, PickerSnapshot, Rect, RenderLine, RenderSpan, RenderStyle,
    SourcePaneSnapshot, sat_sub, min_int, relative_rect,
};
use crate::patterns::{
    built_in_pattern_models, built_in_patterns, find_matches_with_patterns, line_models,
    matches_for, pattern_models, PatternModel,
};
use crate::renderer::{
    inline_hint_view, render_inline_hints, render_models, render_visible_inline_hints, string_models,
    visible_hint_view,
};
use crate::text::{chars_of, string_from_chars};
use vstd::prelude::*;

verus! {

/// Rendered picker state and hint assignments derived from a captured pane snapshot.
#[derive(Debug, Clone, PartialEq, Eq)]
pub struct PickerView {
    pub lines: Vec<RenderLine>,
    pub assignments: Vec<HintAssignment>,
    pub match_count: usize,
}

impl PickerView {
    /// Number of unique copied texts that can be selected by hint input.
    pub fn hint_count(&self) -> (n: usize)
        ensures
            n == self.assignments@.len(),
    {
        self.assignments.len()
    }
}

/// Rendered, readonly picker state derived from a captured pane snapshot.
#[derive(Debug, Clone, PartialEq, Eq)]
pub struct ReadonlyPickerView {
    pub lines: Vec<RenderLine>,
    pub match_count: usize,
    pub hint_count: usize,
}

/// Maps the source pane's content rect into overlay-local coordinates.
///
/// Assumes the overlay pane covers the source tab area minus symmetric chrome
/// (borders/title), then clamps so the content never spills past the overlay.
pub fn place_content_in_overlay(source: &SourcePaneSnapshot, overlay_cols: u16, overlay_rows: u16) -> (placed: Rect)
    ensures
        ({
            let inset_x = sat_sub(source.tab_area.width as int, overlay_cols as int) / 2;
            let inset_y = sat_sub(source.tab_area.height as int, overlay_rows as int) / 2;
            let content = relative_rect(source.target_content_rect, source.tab_area);
            let width = min_int(source.target_content_width as int, overlay_cols as int);
            let height = min_int(source.target_content_height as int, overlay_rows as int);
            &&& placed.width == width
            &&& placed.height == height
            &&& placed.x == min_int(
                sat_sub(content.x as int, inset_x),
                sat_sub(overlay_cols as int, width),
            )
            &&& placed.y == min_int(
                sat_sub(content.y as int, inset_y),
                sat_sub(overlay_rows as int, height),
            )
        }),
{
    let inset_x = source.tab_area.width.saturating_sub(overlay_cols) / 2;
    let inset_y = source.tab_area.height.saturating_sub(overlay_rows) / 2;
    let content = source.target_content_rect.relative_to(source.tab_area);
    let width = if source.target_content_width < overlay_cols {
        source.target_content_width
    } else {
        overlay_cols
    };
    let height = if source.target_content_height < overlay_rows {
        source.target_content_height
    } else {
        overlay_rows
    };
    let x0 = content.x.saturating_sub(inset_x);
    let x_max = overlay_cols.saturating_sub(width);
    let y0 = content.y.saturating_sub(inset_y);
    let y_max = overlay_rows.saturating_sub(height);
    let x = if x0 < x_max {
        x0
    } else {
        x_max
    };
    let y = if y0 < y_max {
        y0
    } else {
        y_max
    };
    Rect::new(x, y, width, height)
}

/// `text` cut or padded with spaces to exactly `width` characters.
pub open spec fn fit_text(text: Seq<char>, width: int) -> Seq<char> {
    if text.len() >= width {
        text.take(width)
    } else {
        text + Seq::new((width - text.len()) as nat, |i: int| ' ')
    }
}

/// First line of the no-match view.
pub open spec fn no_matches_message() -> Seq<char> {
    "Herdr Pluck: no copyable matches found"@
}

/// Third line of the no-match view.
pub open spec fn close_key_hint() -> Seq<char> {
    "Press any non-Enter key to close"@
}

/// The full-size no-match view: the message on the first row, the close
/// hint on the third row when there is one, blank rows elsewhere, each row
/// one unmatched span of exactly `width` characters; nothing at all when
/// either dimension is zero.
pub open spec fn no_matches_rows(width: int, height: int) -> Seq<Seq<(Seq<char>, RenderStyle)>> {
    if width == 0 || height == 0 {
        Seq::empty()
    } else {
        Seq::new(
            height as nat,
            |row: int|
                seq![
                    (
                        if row == 0 {
                            fit_text(no_matches_message(), width)
                        } else if row == 2 {
                            fit_text(close_key_hint(), width)
                        } else {
                            fit_text(Seq::empty(), width)
                        },
                        RenderStyle::Unmatched,
                    ),
                ],
        )
    }
}

/// `text` cut or padded with spaces to exactly `width` characters.
fn fit_to_width(text: &str, width: usize) -> (fitted: String)
    ensures
        fitted@ == fit_text(text@, width as int),
{
    let chars = chars_of(text);
    let mut out: Vec<char> = Vec::new();
    let mut i: usize = 0;
    while i < width
        invariant
            chars@ == text@,
            i <= width,
            out@ == fit_text(text@, width as int).take(i as int),
        decreases width - i,
    {
        let c = if i < chars.len() {
            chars[i]
        } else {
            ' '
        };
        out.push(c);
        i = i + 1;
        assert(out@ =~= fit_text(text@, width as int).take(i as int));
    }
    assert(fit_text(text@, width as int).take(width as int) =~= fit_text(text@, width as int));
    string_from_chars(&out)
}

/// The view shown when nothing copyable was found.
fn no_matches_view(width: u16, height: u16) -> (lines: Vec<RenderLine>)
    ensures
        render_models(lines@) == no_matches_rows(width as int, height as int),
{
    let mut lines: Vec<RenderLine> = Vec::new();
    if width == 0 || height == 0 {
        assert(render_models(lines@) =~= no_matches_rows(width as int, height as int));
        return lines;
    }
    let w = width as usize;
    let h = height as usize;
    let ghost target = no_matches_rows(width as int, height as int);
    let mut row: usize = 0;
    while row < h
        invariant
            w == width,
            h == height,
            width > 0,
            height > 0,
            target == no_matches_rows(width as int, height as int),
            row <= h,
            lines@.len() == row,
            forall|m: int| 0 <= m < row ==> #[trigger] lines@[m]@ == target[m],
        decreases h - row,
    {
        let text = if row == 0 {
            fit_to_width("Herdr Pluck: no copyable matches found", w)
        } else if row == 2 {
            fit_to_width("Press any non-Enter key to close", w)
        } else {
            fit_to_width("", w)
        };
        proof {
            reveal_strlit("");
        }
        let mut spans: Vec<RenderSpan> = Vec::new();
        spans.push(RenderSpan { text, style: RenderStyle::Unmatched });
        let line = RenderLine { spans };
        assert(line@ =~= target[row as int]);
        lines.push(line);
        row = row + 1;
    }
    assert(render_models(lines@) =~= target);
    lines
}

/// Lines the picker matches on: the exact viewport's logical lines where the
/// snapshot has them, else the captured logical lines.
pub open spec fn picker_lines(snapshot: PickerSnapshot) -> Seq<Seq<char>> {
    match snapshot.source.visible_viewport {
        Some(viewport) => string_models(viewport.logical_lines@),
        None => string_models(snapshot.source.logical_lines@),
    }
}

/// Patterns the picker matches with: the built-ins, then the custom ones.
pub open spec fn picker_patterns(snapshot: PickerSnapshot) -> Seq<PatternModel> {
    built_in_pattern_models() + pattern_models(snapshot.custom_patterns@)
}

/// The rows the picker shows for the assigned hints: the no-match message
/// without any; else the inline hint rendering at the target content size,
/// over the exact visible viewport's rows where the snapshot has one and
/// over its logical lines otherwise.
pub open spec fn picker_rows(snapshot: PickerSnapshot, assigned: Seq<AssignmentModel>) -> Seq<
    Seq<(Seq<char>, RenderStyle)>,
> {
    let width = snapshot.source.target_content_width as int;
    let height = snapshot.source.target_content_height as int;
    if assigned.len() == 0 {
        no_matches_rows(width, height)
    } else {
        match snapshot.source.visible_viewport {
            Some(v) => visible_hint_view(
                string_models(v.rows@),
                string_models(v.logical_lines@),
                v.segments@,
                assigned,
                width,
                height,
            ),
            None => inline_hint_view(picker_lines(snapshot), assigned, width, height),
        }
    }
}

/// Builds the production picker view from captured pane text: matches of the
/// built-in and custom patterns, their hint assignments, and the rows of
/// [`picker_rows`].
pub fn build_picker_view(snapshot: &PickerSnapshot) -> (view: PickerView)
    ensures
        ({
            let found = matches_for(picker_lines(*snapshot), picker_patterns(*snapshot));
            let assigned = assignments_for(found);
            &&& view.match_count == found.len()
            &&& view.assignments@.map_values(|a: HintAssignment| a@) == assigned
            &&& render_models(view.lines@) == picker_rows(*snapshot, assigned)
        }),
{
    let logical_lines: &Vec<String> = match &snapshot.source.visible_viewport {
        Some(viewport) => &viewport.logical_lines,
        None => &snapshot.source.logical_lines,
    };
    let mut patterns = built_in_patterns();
    let mut i: usize = 0;
    let ghost builtin = pattern_models(patterns@);
    while i < snapshot.custom_patterns.len()
        invariant
            builtin == built_in_pattern_models(),
            i <= snapshot.custom_patterns@.len(),
            pattern_models(patterns@) == builtin + pattern_models(snapshot.custom_patterns@).take(i as int),
        decreases snapshot.custom_patterns@.len() - i,
    {
        let p = crate::model::PatternSpec {
            name: snapshot.custom_patterns[i].name.clone(),
            regex: snapshot.custom_patterns[i].regex.clone(),
            priority: snapshot.custom_patterns[i].priority,
        };
        let ghost before = patterns@;
        patterns.push(p);
        assert(pattern_models(patterns@) =~= pattern_models(before).push(p@));
        i = i + 1;
        assert(pattern_models(patterns@) =~= builtin + pattern_models(snapshot.custom_patterns@).take(i as int));
    }
    assert(pattern_models(snapshot.custom_patterns@).take(snapshot.custom_patterns@.len() as int)
        =~= pattern_models(snapshot.custom_patterns@));
    let matches = find_matches_with_patterns(logical_lines.as_slice(), patterns.as_slice());
    let match_count = matches.len();
    let assignments = assign_hints(matches);
    let width = snapshot.source.target_content_width;
    let height = snapshot.source.target_content_height;
    let lines = if assignments.len() == 0 {
        no_matches_view(width, height)
    } else {
        match &snapshot.source.visible_viewport {
            Some(viewport) => render_visible_inline_hints(viewport, assignments.as_slice(), width, height),
            None => render_inline_hints(logical_lines.as_slice(), assignments.as_slice(), width, height),
        }
    };
    PickerView { lines, assignments, match_count }
}

/// Builds the production readonly picker view from captured pane text.
pub fn build_readonly_picker_view(snapshot: &PickerSnapshot) -> (view: ReadonlyPickerView)
    ensures
        ({
            let found = matches_for(picker_lines(*snapshot), picker_patterns(*snapshot));
            let assigned = assignments_for(found);
            &&& view.match_count == found.len()
            &&& view.hint_count == assigned.len()
            &&& render_models(view.lines@) == picker_rows(*snapshot, assigned)
        }),
{
    let view = build_picker_view(snapshot);
    let hint_count = view.hint_count();
    assert(view.assignments@.map_values(|a: HintAssignment| a@).len() == view.assignments@.len());
    ReadonlyPickerView { lines: view.lines, match_count: view.match_count, hint_count }
}

/// How the readonly picker ends once a close key is pressed: no matches when
/// it showed no hint, else cancelled.
pub fn readonly_picker_outcome(view: &ReadonlyPickerView) -> (outcome: PickerOutcome)
    ensures
        outcome == if view.hint_count == 0 {
            PickerOutcome::NoMatches
        } else {
            PickerOutcome::Cancelled
        },
{
    if view.hint_count == 0 {
        PickerOutcome::NoMatches
    } else {
        PickerOutcome::Cancelled
    }
}

} // verus!
