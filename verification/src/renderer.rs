//! Renderer: styles matched text and destructive inline hints, wraps logical
//! lines to the pane width, crops to the bottom of the viewport, and places
//! rendered text inside an overlay.

use crate::model::{
    AssignmentModel, HintAssignment, LogicalLineVisualSegment, Rect, RenderLine, RenderSpan, RenderStyle,
    VisibleViewport, min_int,
};
use crate::text::{chars_of, string_from_chars};
use crate::viewport::{lemma_char_index_after, lemma_char_index_mono, utf8_len};
use vstd::prelude::*;
use vstd::string::StringExecFns;

pub mod terminal;

verus! {

/// Concatenation of the texts of a rendered line's spans.
pub open spec fn line_text(spans: Seq<(Seq<char>, RenderStyle)>) -> Seq<char>
    decreases spans.len(),
{
    if spans.len() == 0 {
        Seq::empty()
    } else {
        line_text(spans.drop_last()) + spans.last().0
    }
}

/// Views of rendered lines.
pub open spec fn render_models(lines: Seq<RenderLine>) -> Seq<Seq<(Seq<char>, RenderStyle)>> {
    lines.map_values(|l: RenderLine| l@)
}

/// Views of strings.
pub open spec fn string_models(lines: Seq<String>) -> Seq<Seq<char>> {
    lines.map_values(|l: String| l@)
}

/// One line per assignment: its hint styled as a hint, then its copied text
/// styled as a match.
pub fn render_placeholder(assignments: &[HintAssignment]) -> (lines: Vec<RenderLine>)
    ensures
        render_models(lines@) == assignments@.map_values(
            |a: HintAssignment| seq![(a.hint@, RenderStyle::Hint), (a.text@, RenderStyle::Match)],
        ),
{
    let mut lines: Vec<RenderLine> = Vec::new();
    let mut i: usize = 0;
    while i < assignments.len()
        invariant
            i <= assignments@.len(),
            render_models(lines@) == assignments@.take(i as int).map_values(
                |a: HintAssignment|
                    seq![(a.hint@, RenderStyle::Hint), (a.text@, RenderStyle::Match)],
            ),
        decreases assignments@.len() - i,
    {
        let mut spans: Vec<RenderSpan> = Vec::new();
        spans.push(RenderSpan { text: assignments[i].hint.clone(), style: RenderStyle::Hint });
        spans.push(RenderSpan { text: assignments[i].text.clone(), style: RenderStyle::Match });
        let line = RenderLine { spans };
        let ghost prev = lines@;
        lines.push(line);
        assert(line@ =~= seq![
            (assignments@[i as int].hint@, RenderStyle::Hint),
            (assignments@[i as int].text@, RenderStyle::Match),
        ]);
        assert(render_models(lines@) =~= render_models(prev).push(line@));
        assert(assignments@.take(i + 1) =~= assignments@.take(i as int).push(assignments@[i as int]));
        i = i + 1;
    }
    assert(assignments@.take(assignments@.len() as int) =~= assignments@);
    lines
}

/// The character at column `x` of row `y` when `lines`, whose top-left cell
/// sits at (`sx`, `sy`), is shown in an overlay whose content starts at
/// (`ox`, `oy`): the source character there, or a space where the source has
/// none.
pub open spec fn overlay_char(lines: Seq<Seq<char>>, sx: int, sy: int, ox: int, oy: int, x: int, y: int) -> char {
    let source_y = y - (sy - oy);
    let source_x = x - (sx - ox);
    if 0 <= source_y < lines.len() && 0 <= source_x < lines[source_y].len() {
        lines[source_y][source_x]
    } else {
        ' '
    }
}

/// The overlay grid: `overlay_size.height` rows of `overlay_size.width`
/// characters each, given by [`overlay_char`].
pub open spec fn overlay_grid(
    lines: Seq<Seq<char>>,
    source: Rect,
    overlay_content: Rect,
    overlay_size: Rect,
) -> Seq<Seq<char>> {
    Seq::new(
        overlay_size.height as nat,
        |y: int|
            Seq::new(
                overlay_size.width as nat,
                |x: int|
                    overlay_char(
                        lines,
                        source.x as int,
                        source.y as int,
                        overlay_content.x as int,
                        overlay_content.y as int,
                        x,
                        y,
                    ),
            ),
    )
}

/// Places source-sized text into an overlay-local viewport, padding or clipping as needed.
pub fn compose_plain_into_overlay(
    source_lines: &[String],
    source_content_rect: Rect,
    overlay_content_rect: Rect,
    overlay_size: Rect,
) -> (rows: Vec<String>)
    ensures
        string_models(rows@) == overlay_grid(
            string_models(source_lines@),
            source_content_rect,
            overlay_content_rect,
            overlay_size,
        ),
{
    let ghost lines = string_models(source_lines@);
    let ghost target = overlay_grid(lines, source_content_rect, overlay_content_rect, overlay_size);
    let width = overlay_size.width as usize;
    let height = overlay_size.height as usize;
    let offset_x: i64 = source_content_rect.x as i64 - overlay_content_rect.x as i64;
    let offset_y: i64 = source_content_rect.y as i64 - overlay_content_rect.y as i64;
    let mut rows: Vec<String> = Vec::new();
    let mut y: usize = 0;
    while y < height
        invariant
            lines == string_models(source_lines@),
            target == overlay_grid(lines, source_content_rect, overlay_content_rect, overlay_size),
            width == overlay_size.width,
            height == overlay_size.height,
            offset_x == source_content_rect.x - overlay_content_rect.x,
            offset_y == source_content_rect.y - overlay_content_rect.y,
            y <= height,
            rows@.len() == y,
            forall|r: int| 0 <= r < y ==> #[trigger] rows@[r]@ == target[r],
        decreases height - y,
    {
        let source_y: i64 = y as i64 - offset_y;
        let source: Vec<char> = if 0 <= source_y && (source_y as usize) < source_lines.len() {
            chars_of(source_lines[source_y as usize].as_str())
        } else {
            Vec::new()
        };
        let ghost in_rows = 0 <= source_y < lines.len();
        assert(in_rows ==> source@ == lines[source_y as int]);
        let mut row: Vec<char> = Vec::new();
        let mut x: usize = 0;
        while x < width
            invariant
                lines == string_models(source_lines@),
                target == overlay_grid(lines, source_content_rect, overlay_content_rect, overlay_size),
                width == overlay_size.width,
                height == overlay_size.height,
                offset_x == source_content_rect.x - overlay_content_rect.x,
                offset_y == source_content_rect.y - overlay_content_rect.y,
                y < height,
                source_y == y - offset_y,
                in_rows == (0 <= source_y < lines.len()),
                in_rows ==> source@ == lines[source_y as int],
                !in_rows ==> source@.len() == 0,
                x <= width,
                row@.len() == x,
                forall|c: int| 0 <= c < x ==> #[trigger] row@[c] == target[y as int][c],
            decreases width - x,
        {
            let source_x: i64 = x as i64 - offset_x;
            let ch = if 0 <= source_x && (source_x as usize) < source.len() {
                source[source_x as usize]
            } else {
                ' '
            };
            row.push(ch);
            x = x + 1;
        }
        let text = string_from_chars(&row);
        assert(text@ =~= target[y as int]);
        rows.push(text);
        y = y + 1;
    }
    assert(string_models(rows@) =~= target);
    rows
}

/// Concatenation of the span texts of one rendered line.
fn flatten_render_line(line: &RenderLine) -> (text: String)
    ensures
        text@ == line_text(line@),
{
    let mut text = String::new();
    let mut i: usize = 0;
    while i < line.spans.len()
        invariant
            i <= line.spans@.len(),
            text@ == line_text(line@.take(i as int)),
        decreases line.spans@.len() - i,
    {
        text.append(line.spans[i].text.as_str());
        assert(line@.take(i + 1).drop_last() =~= line@.take(i as int));
        i = i + 1;
    }
    assert(line@.take(line.spans@.len() as int) =~= line@);
    text
}

/// Places rendered source lines into an overlay-local viewport, flattening
/// their styles: each overlay row becomes one unmatched span.
pub fn compose_render_lines_into_overlay(
    source_lines: &[RenderLine],
    source_content_rect: Rect,
    overlay_content_rect: Rect,
    overlay_size: Rect,
) -> (rows: Vec<RenderLine>)
    ensures
        render_models(rows@) == overlay_grid(
            render_models(source_lines@).map_values(
                |l: Seq<(Seq<char>, RenderStyle)>| line_text(l),
            ),
            source_content_rect,
            overlay_content_rect,
            overlay_size,
        ).map_values(|t: Seq<char>| seq![(t, RenderStyle::Unmatched)]),
{
    let mut plain: Vec<String> = Vec::new();
    let mut i: usize = 0;
    while i < source_lines.len()
        invariant
            i <= source_lines@.len(),
            plain@.len() == i,
            forall|m: int| 0 <= m < i ==> #[trigger] plain@[m]@ == line_text(source_lines@[m]@),
        decreases source_lines@.len() - i,
    {
        plain.push(flatten_render_line(&source_lines[i]));
        i = i + 1;
    }
    let ghost flat = render_models(source_lines@).map_values(
        |l: Seq<(Seq<char>, RenderStyle)>| line_text(l),
    );
    assert(string_models(plain@) =~= flat);
    let composed = compose_plain_into_overlay(
        plain.as_slice(),
        source_content_rect,
        overlay_content_rect,
        overlay_size,
    );
    let ghost grid = overlay_grid(flat, source_content_rect, overlay_content_rect, overlay_size);
    let mut rows: Vec<RenderLine> = Vec::new();
    let mut j: usize = 0;
    while j < composed.len()
        invariant
            string_models(composed@) == grid,
            j <= composed@.len(),
            rows@.len() == j,
            forall|m: int| 0 <= m < j ==> #[trigger] rows@[m]@ == seq![(grid[m], RenderStyle::Unmatched)],
        decreases composed@.len() - j,
    {
        let mut spans: Vec<RenderSpan> = Vec::new();
        spans.push(RenderSpan { text: composed[j].clone(), style: RenderStyle::Unmatched });
        let line = RenderLine { spans };
        assert(line@ =~= seq![(grid[j as int], RenderStyle::Unmatched)]);
        rows.push(line);
        j = j + 1;
    }
    assert(render_models(rows@) =~= grid.map_values(|t: Seq<char>| seq![(t, RenderStyle::Unmatched)]));
    rows
}

/// Number of bytes UTF-8 uses for the character `c`.
pub open spec fn utf8_width(c: char) -> int {
    let v = c as u32;
    if v < 0x80 {
        1
    } else if v < 0x800 {
        2
    } else if v < 0x10000 {
        3
    } else {
        4
    }
}

/// Index of the character of `s` that starts at UTF-8 byte offset `b`;
/// an offset inside a character rounds up to the next one, and offsets
/// past the end give `s.len()`.
pub open spec fn char_index_of_byte(s: Seq<char>, b: int) -> int
    decreases s.len(),
{
    if s.len() == 0 || b <= 0 {
        0
    } else {
        1 + char_index_of_byte(s.drop_first(), b - utf8_width(s[0]))
    }
}

pub(crate) proof fn lemma_char_index_bounds(s: Seq<char>, b: int)
    ensures
        0 <= char_index_of_byte(s, b) <= s.len(),
    decreases s.len(),
{
    if s.len() > 0 && b > 0 {
        lemma_char_index_bounds(s.drop_first(), b - utf8_width(s[0]));
    }
}

/// UTF-8 width of a character.
pub(crate) fn utf8_width_exec(c: char) -> (w: usize)
    ensures
        w == utf8_width(c),
{
    let v = c as u32;
    if v < 0x80 {
        1
    } else if v < 0x800 {
        2
    } else if v < 0x10000 {
        3
    } else {
        4
    }
}

/// Character index of a UTF-8 byte offset into `chars`.
fn char_index_of_byte_exec(chars: &Vec<char>, b: usize) -> (i: usize)
    ensures
        i == char_index_of_byte(chars@, b as int),
{
    let mut i: usize = 0;
    let mut rest: usize = b;
    proof {
        assert(chars@.skip(0) =~= chars@);
        lemma_char_index_bounds(chars@, b as int);
    }
    while i < chars.len() && rest > 0
        invariant
            i <= chars@.len(),
            char_index_of_byte(chars@, b as int) == i + char_index_of_byte(chars@.skip(i as int), rest as int),
        decreases chars@.len() - i,
    {
        let w = utf8_width_exec(chars[i]);
        proof {
            let tail = chars@.skip(i as int);
            assert(tail.drop_first() =~= chars@.skip(i + 1));
            assert(tail[0] == chars@[i as int]);
            if rest <= w {
                assert(char_index_of_byte(chars@.skip(i + 1), rest - w) == 0);
                assert(char_index_of_byte(chars@.skip(i + 1), 0) == 0);
            }
        }
        if rest <= w {
            rest = 0;
        } else {
            rest = rest - w;
        }
        i = i + 1;
    }
    i
}

/// Every occurrence of every assignment, as (line, start byte, end byte,
/// hint), assignment by assignment.
pub open spec fn hint_marks(assignments: Seq<AssignmentModel>) -> Seq<(int, int, int, Seq<char>)> {
    Seq::new(
        assignments.len(),
        |k: int|
            assignments[k].occurrences.map_values(
                |o: crate::model::SpanModel| (o.line, o.start, o.end, assignments[k].hint),
            ),
    ).flatten_alt()
}

/// `cells` of logical line `l` (text `line`) after drawing the mark `m`:
/// a mark on this line whose character range is at least as long as its
/// hint overwrites the start of that range with the hint characters and
/// styles the rest of the range as a match; other marks change nothing.
pub open spec fn draw_mark(
    cells: Seq<(char, RenderStyle)>,
    l: int,
    line: Seq<char>,
    m: (int, int, int, Seq<char>),
) -> Seq<(char, RenderStyle)> {
    let s = char_index_of_byte(line, m.1);
    let e = char_index_of_byte(line, m.2);
    let hint = m.3;
    if m.0 != l || e - s < hint.len() {
        cells
    } else {
        Seq::new(
            cells.len(),
            |i: int|
                if s <= i < e {
                    if i - s < hint.len() {
                        (hint[i - s], RenderStyle::Hint)
                    } else {
                        (line[i], RenderStyle::Match)
                    }
                } else {
                    cells[i]
                },
        )
    }
}

/// Styled characters of logical line `l`: its text unmatched, with the
/// marks drawn in order (a later mark wins where two overlap).
pub open spec fn styled_line(l: int, line: Seq<char>, marks: Seq<(int, int, int, Seq<char>)>) -> Seq<
    (char, RenderStyle),
>
    decreases marks.len(),
{
    if marks.len() == 0 {
        line.map_values(|c: char| (c, RenderStyle::Unmatched))
    } else {
        draw_mark(styled_line(l, line, marks.drop_last()), l, line, marks.last())
    }
}

/// `cells` cut into rows of `width` cells (the last row may be shorter); an
/// empty line still takes one row.
pub open spec fn wrap_cells(cells: Seq<(char, RenderStyle)>, width: int) -> Seq<Seq<(char, RenderStyle)>>
    decreases cells.len(),
{
    if width <= 0 || cells.len() <= width {
        seq![cells]
    } else {
        seq![cells.take(width)] + wrap_cells(cells.skip(width), width)
    }
}

/// Runs of equally styled consecutive cells, as (text, style) spans.
pub open spec fn group_cells(cells: Seq<(char, RenderStyle)>) -> Seq<(Seq<char>, RenderStyle)>
    decreases cells.len(),
{
    if cells.len() == 0 {
        Seq::empty()
    } else {
        let spans = group_cells(cells.drop_last());
        let c = cells.last();
        if spans.len() > 0 && spans.last().1 == c.1 {
            spans.update(spans.len() - 1, (spans.last().0.push(c.0), c.1))
        } else {
            spans.push((seq![c.0], c.1))
        }
    }
}

/// The rows of all logical lines, styled and wrapped to `width` (none when
/// `width` is zero).
pub open spec fn wrapped_rows(
    lines: Seq<Seq<char>>,
    assignments: Seq<AssignmentModel>,
    width: int,
) -> Seq<Seq<(char, RenderStyle)>> {
    if width <= 0 {
        Seq::empty()
    } else {
        Seq::new(
            lines.len(),
            |l: int| wrap_cells(styled_line(l, lines[l], hint_marks(assignments)), width),
        ).flatten_alt()
    }
}

/// The bottom `height` rows of `rows` (all of them when there are fewer).
pub open spec fn bottom_rows<A>(rows: Seq<A>, height: int) -> Seq<A> {
    if rows.len() > height {
        rows.skip(rows.len() - height)
    } else {
        rows
    }
}

/// The inline hint rendering: logical lines with hints drawn over the start
/// of each long-enough occurrence, wrapped to `width`, cropped to the bottom
/// `height` rows, each row grouped into styled spans.
pub open spec fn inline_hint_view(
    lines: Seq<Seq<char>>,
    assignments: Seq<AssignmentModel>,
    width: int,
    height: int,
) -> Seq<Seq<(Seq<char>, RenderStyle)>> {
    bottom_rows(wrapped_rows(lines, assignments, width), height).map_values(
        |row: Seq<(char, RenderStyle)>| group_cells(row),
    )
}

/// Draws one mark over the styled cells of a line (see [`draw_mark`]).
fn draw_mark_exec(
    cells: &mut Vec<(char, RenderStyle)>,
    l: usize,
    line: &Vec<char>,
    mark_line: usize,
    start: usize,
    end: usize,
    hint: &Vec<char>,
)
    requires
        old(cells)@.len() == line@.len(),
    ensures
        final(cells)@ == draw_mark(
            old(cells)@,
            l as int,
            line@,
            (mark_line as int, start as int, end as int, hint@),
        ),
{
    let ghost m = (mark_line as int, start as int, end as int, hint@);
    let ghost target = draw_mark(old(cells)@, l as int, line@, m);
    let s = char_index_of_byte_exec(line, start);
    let e = char_index_of_byte_exec(line, end);
    proof {
        lemma_char_index_bounds(line@, start as int);
        lemma_char_index_bounds(line@, end as int);
    }
    if mark_line != l || e < s || e - s < hint.len() {
        return;
    }
    let ghost original = cells@;
    let mut i: usize = s;
    while i < e
        invariant
            s <= i <= e,
            e <= line@.len(),
            e - s >= hint@.len(),
            original.len() == line@.len(),
            s == char_index_of_byte(line@, start as int),
            e == char_index_of_byte(line@, end as int),
            mark_line == l,
            target == draw_mark(original, l as int, line@, m),
            m == (mark_line as int, start as int, end as int, hint@),
            cells@.len() == original.len(),
            forall|k: int| 0 <= k < i ==> #[trigger] cells@[k] == target[k],
            forall|k: int| i <= k < cells@.len() ==> #[trigger] cells@[k] == original[k],
        decreases e - i,
    {
        let cell = if i - s < hint.len() {
            (hint[i - s], RenderStyle::Hint)
        } else {
            (line[i], RenderStyle::Match)
        };
        cells.set(i, cell);
        i = i + 1;
    }
    assert(cells@ =~= target);
}

/// Styled characters of logical line `l` under all hint marks.
fn style_line(l: usize, line: &Vec<char>, assignments: &[HintAssignment]) -> (cells: Vec<(char, RenderStyle)>)
    ensures
        cells@ == styled_line(
            l as int,
            line@,
            hint_marks(assignments@.map_values(|a: HintAssignment| a@)),
        ),
{
    let ghost models = assignments@.map_values(|a: HintAssignment| a@);
    let ghost per = Seq::new(
        models.len(),
        |k: int|
            models[k].occurrences.map_values(
                |o: crate::model::SpanModel| (o.line, o.start, o.end, models[k].hint),
            ),
    );
    let mut cells: Vec<(char, RenderStyle)> = Vec::new();
    let mut c: usize = 0;
    while c < line.len()
        invariant
            c <= line@.len(),
            cells@ == line@.take(c as int).map_values(|ch: char| (ch, RenderStyle::Unmatched)),
        decreases line@.len() - c,
    {
        cells.push((line[c], RenderStyle::Unmatched));
        c = c + 1;
        assert(cells@ =~= line@.take(c as int).map_values(|ch: char| (ch, RenderStyle::Unmatched)));
    }
    assert(line@.take(line@.len() as int) =~= line@);
    assert(per.take(0).flatten_alt() =~= Seq::<(int, int, int, Seq<char>)>::empty());
    let mut k: usize = 0;
    while k < assignments.len()
        invariant
            models == assignments@.map_values(|a: HintAssignment| a@),
            per == Seq::new(
                models.len(),
                |k: int|
                    models[k].occurrences.map_values(
                        |o: crate::model::SpanModel| (o.line, o.start, o.end, models[k].hint),
                    ),
            ),
            k <= assignments@.len(),
            cells@.len() == line@.len(),
            cells@ == styled_line(l as int, line@, per.take(k as int).flatten_alt()),
        decreases assignments@.len() - k,
    {
        let hint = chars_of(assignments[k].hint.as_str());
        let ghost before = per.take(k as int).flatten_alt();
        let ghost occ = per[k as int];
        let mut j: usize = 0;
        assert(before + occ.take(0) =~= before);
        while j < assignments[k].occurrences.len()
            invariant
                models == assignments@.map_values(|a: HintAssignment| a@),
                k < assignments@.len(),
                occ == per[k as int],
                per[k as int] == models[k as int].occurrences.map_values(
                    |o: crate::model::SpanModel| (o.line, o.start, o.end, models[k as int].hint),
                ),
                hint@ == assignments@[k as int].hint@,
                j <= assignments@[k as int].occurrences@.len(),
                cells@.len() == line@.len(),
                cells@ == styled_line(l as int, line@, before + occ.take(j as int)),
            decreases assignments@[k as int].occurrences@.len() - j,
        {
            let o = &assignments[k].occurrences[j];
            let ghost prev = before + occ.take(j as int);
            proof {
                assert(models[k as int].occurrences[j as int] == o@);
                assert(occ[j as int] == (o.line as int, o.start as int, o.end as int, hint@));
                assert((before + occ.take(j + 1)).drop_last() =~= prev);
                assert((before + occ.take(j + 1)).last() == occ[j as int]);
            }
            draw_mark_exec(&mut cells, l, line, o.line, o.start, o.end, &hint);
            j = j + 1;
        }
        proof {
            assert(occ.take(occ.len() as int) =~= occ);
            assert(per.take(k + 1).drop_last() =~= per.take(k as int));
            assert(per.take(k + 1).last() == occ);
        }
        k = k + 1;
    }
    assert(per.take(assignments@.len() as int) =~= per);
    cells
}

/// The rows of `cells` wrapped to `width` (see [`wrap_cells`]).
fn wrap_row(cells: &Vec<(char, RenderStyle)>, width: usize) -> (rows: Vec<Vec<(char, RenderStyle)>>)
    requires
        width > 0,
    ensures
        rows@.map_values(|r: Vec<(char, RenderStyle)>| r@) == wrap_cells(cells@, width as int),
{
    let mut rows: Vec<Vec<(char, RenderStyle)>> = Vec::new();
    let mut start: usize = 0;
    let mut done = false;
    assert(cells@.skip(0) =~= cells@);
    assert(rows@.map_values(|r: Vec<(char, RenderStyle)>| r@) =~= Seq::<Seq<(char, RenderStyle)>>::empty());
    while !done
        invariant
            width > 0,
            start <= cells@.len(),
            !done ==> (start == 0 || start < cells@.len()),
            done ==> rows@.map_values(|r: Vec<(char, RenderStyle)>| r@) == wrap_cells(
                cells@,
                width as int,
            ),
            !done ==> wrap_cells(cells@, width as int) == rows@.map_values(
                |r: Vec<(char, RenderStyle)>| r@,
            ) + wrap_cells(cells@.skip(start as int), width as int),
        decreases cells@.len() - start, if done { 0int } else { 1int },
    {
        let rest = cells.len() - start;
        let ghost tail = cells@.skip(start as int);
        let end = if rest <= width {
            cells.len()
        } else {
            start + width
        };
        let mut row: Vec<(char, RenderStyle)> = Vec::new();
        let mut i: usize = start;
        while i < end
            invariant
                start <= i <= end,
                end <= cells@.len(),
                row@ == cells@.subrange(start as int, i as int),
            decreases end - i,
        {
            row.push(cells[i]);
            i = i + 1;
            assert(row@ =~= cells@.subrange(start as int, i as int));
        }
        let ghost before = rows@.map_values(|r: Vec<(char, RenderStyle)>| r@);
        rows.push(row);
        assert(rows@.map_values(|r: Vec<(char, RenderStyle)>| r@) =~= before.push(row@));
        if rest <= width {
            assert(row@ =~= tail);
            assert(wrap_cells(tail, width as int) == seq![tail]);
            assert(before + seq![tail] =~= before.push(tail));
            done = true;
        } else {
            assert(row@ =~= tail.take(width as int));
            assert(tail.skip(width as int) =~= cells@.skip(end as int));
            assert(wrap_cells(tail, width as int) == seq![tail.take(width as int)] + wrap_cells(
                tail.skip(width as int),
                width as int,
            ));
            assert(before + wrap_cells(tail, width as int) =~= before.push(row@) + wrap_cells(
                cells@.skip(end as int),
                width as int,
            ));
            start = end;
        }
    }
    rows
}

/// Groups a row of styled cells into a rendered line of styled spans.
fn group_row(row: &Vec<(char, RenderStyle)>) -> (line: RenderLine)
    ensures
        line@ == group_cells(row@),
{
    let mut spans: Vec<RenderSpan> = Vec::new();
    if row.len() == 0 {
        assert(spans@.map_values(|s: RenderSpan| s@) =~= group_cells(row@));
        return RenderLine { spans };
    }
    let mut run: Vec<char> = Vec::new();
    run.push(row[0].0);
    let mut style = row[0].1;
    let mut i: usize = 1;
    assert(row@.take(1).drop_last() =~= Seq::<(char, RenderStyle)>::empty());
    assert(row@.take(1).last() == row@[0]);
    assert(group_cells(row@.take(1).drop_last()) =~= Seq::<(Seq<char>, RenderStyle)>::empty());
    assert(run@ =~= seq![row@[0].0]);
    assert(spans@.map_values(|s: RenderSpan| s@).push((run@, style)) =~= group_cells(row@.take(1)));
    while i < row.len()
        invariant
            1 <= i <= row@.len(),
            spans@.map_values(|s: RenderSpan| s@).push((run@, style)) == group_cells(row@.take(i as int)),
        decreases row@.len() - i,
    {
        let (c, st) = row[i];
        let ghost prev = group_cells(row@.take(i as int));
        assert(row@.take(i + 1).drop_last() =~= row@.take(i as int));
        assert(row@.take(i + 1).last() == (c, st));
        if st == style {
            run.push(c);
            assert(spans@.map_values(|s: RenderSpan| s@).push((run@, style)) =~= prev.update(
                prev.len() - 1,
                (prev.last().0.push(c), st),
            ));
        } else {
            let ghost before = spans@.map_values(|s: RenderSpan| s@);
            let text = string_from_chars(&run);
            spans.push(RenderSpan { text, style });
            assert(spans@.map_values(|s: RenderSpan| s@) =~= before.push((run@, style)));
            run = Vec::new();
            run.push(c);
            style = st;
            assert(spans@.map_values(|s: RenderSpan| s@).push((run@, style)) =~= prev.push(
                (seq![c], st),
            ));
        }
        i = i + 1;
    }
    let ghost before = spans@.map_values(|s: RenderSpan| s@);
    let text = string_from_chars(&run);
    spans.push(RenderSpan { text, style });
    assert(spans@.map_values(|s: RenderSpan| s@) =~= before.push((run@, style)));
    assert(row@.take(row@.len() as int) =~= row@);
    RenderLine { spans }
}

/// Renders logical lines with destructive inline hints: unmatched text is
/// dimmed, matched text highlighted, and the first characters of every
/// occurrence at least as long as its hint are replaced by the hint. Lines
/// are wrapped to `width` columns and only the bottom `height` rows are kept.
pub fn render_inline_hints(
    lines: &[String],
    assignments: &[HintAssignment],
    width: u16,
    height: u16,
) -> (rendered: Vec<RenderLine>)
    ensures
        render_models(rendered@) == inline_hint_view(
            string_models(lines@),
            assignments@.map_values(|a: HintAssignment| a@),
            width as int,
            height as int,
        ),
{
    let ghost ls = string_models(lines@);
    let ghost models = assignments@.map_values(|a: HintAssignment| a@);
    let ghost per = Seq::new(
        ls.len(),
        |l: int| wrap_cells(styled_line(l, ls[l], hint_marks(models)), width as int),
    );
    let mut rows: Vec<Vec<(char, RenderStyle)>> = Vec::new();
    if width > 0 {
        let mut l: usize = 0;
        assert(per.take(0).flatten_alt() =~= Seq::<Seq<(char, RenderStyle)>>::empty());
        while l < lines.len()
            invariant
                ls == string_models(lines@),
                models == assignments@.map_values(|a: HintAssignment| a@),
                width > 0,
                per == Seq::new(
                    ls.len(),
                    |l: int| wrap_cells(styled_line(l, ls[l], hint_marks(models)), width as int),
                ),
                l <= lines@.len(),
                rows@.map_values(|r: Vec<(char, RenderStyle)>| r@) == per.take(l as int).flatten_alt(),
            decreases lines@.len() - l,
        {
            let chars = chars_of(lines[l].as_str());
            let cells = style_line(l, &chars, assignments);
            assert(chars@ == ls[l as int]);
            let mut wrapped = wrap_row(&cells, width as usize);
            let ghost before = rows@.map_values(|r: Vec<(char, RenderStyle)>| r@);
            let ghost added = wrapped@.map_values(|r: Vec<(char, RenderStyle)>| r@);
            rows.append(&mut wrapped);
            assert(rows@.map_values(|r: Vec<(char, RenderStyle)>| r@) =~= before + added);
            assert(per.take(l + 1).drop_last() =~= per.take(l as int));
            l = l + 1;
        }
        assert(per.take(lines@.len() as int) =~= per);
    }
    let ghost all = rows@.map_values(|r: Vec<(char, RenderStyle)>| r@);
    assert(all == wrapped_rows(ls, models, width as int));
    let h = height as usize;
    let first = if rows.len() > h {
        rows.len() - h
    } else {
        0
    };
    let ghost kept = bottom_rows(all, height as int);
    assert(kept =~= all.skip(first as int));
    let mut rendered: Vec<RenderLine> = Vec::new();
    let mut r: usize = first;
    while r < rows.len()
        invariant
            first <= r <= rows@.len(),
            all == rows@.map_values(|r: Vec<(char, RenderStyle)>| r@),
            kept == all.skip(first as int),
            rendered@.len() == r - first,
            forall|m: int| 0 <= m < r - first ==> #[trigger] rendered@[m]@ == group_cells(kept[m]),
        decreases rows@.len() - r,
    {
        let line = group_row(&rows[r]);
        assert(kept[r - first] == rows@[r as int]@);
        rendered.push(line);
        r = r + 1;
    }
    assert(render_models(rendered@) =~= kept.map_values(|row: Seq<(char, RenderStyle)>| group_cells(row)));
    rendered
}

/// The characters of styled cells.
pub open spec fn cell_chars(cells: Seq<(char, RenderStyle)>) -> Seq<char> {
    cells.map_values(|c: (char, RenderStyle)| c.0)
}

/// Drawing hints keeps a line's geometry: the styled line has exactly one
/// cell per character of the logical line.
pub proof fn law_styled_line_keeps_length(l: int, line: Seq<char>, marks: Seq<(int, int, int, Seq<char>)>)
    ensures
        styled_line(l, line, marks).len() == line.len(),
    decreases marks.len(),
{
    if marks.len() > 0 {
        law_styled_line_keeps_length(l, line, marks.drop_last());
    }
}

/// Wrapping loses and reorders nothing: the rows, put back together, are
/// the cells, and no row is wider than `width`.
pub proof fn law_wrap_fits(cells: Seq<(char, RenderStyle)>, width: int)
    requires
        width > 0,
    ensures
        wrap_cells(cells, width).flatten_alt() == cells,
        forall|r: int|
            0 <= r < wrap_cells(cells, width).len() ==> (#[trigger] wrap_cells(cells, width)[r]).len()
                <= width,
    decreases cells.len(),
{
    let rows = wrap_cells(cells, width);
    if cells.len() <= width {
        assert(rows == seq![cells]);
        assert(rows.drop_last().flatten_alt() =~= Seq::<(char, RenderStyle)>::empty());
        assert(rows.flatten_alt() =~= cells);
    } else {
        let rest = cells.skip(width);
        law_wrap_fits(rest, width);
        let tail = wrap_cells(rest, width);
        assert(rows == seq![cells.take(width)] + tail);
        lemma_flatten_alt_prepend(cells.take(width), tail);
        assert(cells.take(width) + rest =~= cells);
        assert forall|r: int| 0 <= r < rows.len() implies (#[trigger] rows[r]).len() <= width by {
            if r > 0 {
                assert(rows[r] == tail[r - 1]);
            }
        }
    }
}

/// Wrapping fills rows: every row but the last is exactly `width` cells
/// wide, no row is empty unless the line is, and a line of `n > 0` cells
/// takes exactly `ceil(n / width)` rows (an empty line takes one).
pub proof fn law_wrap_rows_are_full(cells: Seq<(char, RenderStyle)>, width: int)
    requires
        width > 0,
    ensures
        wrap_cells(cells, width).len() >= 1,
        forall|r: int|
            0 <= r < wrap_cells(cells, width).len() - 1 ==> (#[trigger] wrap_cells(cells, width)[r]).len()
                == width,
        cells.len() > 0 ==> forall|r: int|
            0 <= r < wrap_cells(cells, width).len() ==> (#[trigger] wrap_cells(cells, width)[r]).len() > 0,
        cells.len() == 0 ==> wrap_cells(cells, width).len() == 1,
        cells.len() > 0 ==> (wrap_cells(cells, width).len() - 1) * width < cells.len() <= wrap_cells(
            cells,
            width,
        ).len() * width,
    decreases cells.len(),
{
    let rows = wrap_cells(cells, width);
    if cells.len() <= width {
        assert(rows == seq![cells]);
        assert((1 - 1) * width == 0);
        assert(1 * width == width);
    } else {
        let rest = cells.skip(width);
        law_wrap_rows_are_full(rest, width);
        let tail = wrap_cells(rest, width);
        assert(rows == seq![cells.take(width)] + tail);
        let k = tail.len();
        assert((k - 1) * width < rest.len() <= k * width);
        assert(rows.len() == k + 1);
        assert((k + 1 - 1) * width == k * width);
        assert((k + 1) * width == k * width + width) by (nonlinear_arith);
        assert((k - 1) * width == k * width - width) by (nonlinear_arith);
        assert(rest.len() == cells.len() - width);
        assert((rows.len() - 1) * width < cells.len() <= rows.len() * width);
        assert forall|r: int| 0 <= r < rows.len() - 1 implies (#[trigger] rows[r]).len() == width by {
            if r > 0 {
                assert(rows[r] == tail[r - 1]);
            }
        }
        assert forall|r: int| 0 <= r < rows.len() implies (#[trigger] rows[r]).len() > 0 by {
            if r > 0 {
                assert(rows[r] == tail[r - 1]);
            }
        }
    }
}

/// The character index at the byte offset where character `k` begins is `k`.
proof fn lemma_char_index_at_boundary(line: Seq<char>, k: int)
    requires
        0 <= k <= line.len(),
    ensures
        char_index_of_byte(line, utf8_len(line.take(k))) == k,
{
    lemma_char_index_after(line.take(k), line.skip(k), 0);
    assert(line.take(k) + line.skip(k) =~= line);
    assert(char_index_of_byte(line.skip(k), 0) == 0);
}

/// A mark is drawn over the characters that its UTF-8 byte range covers:
/// with `s` and `e` the characters that begin at its start and end bytes,
/// the first `hint.len()` characters from `s` show the hint, the rest up to
/// `e` show their own text as a match, and every other cell is left as it
/// was. A range of fewer characters than the hint, or a mark on another
/// line, changes nothing.
pub proof fn law_hint_drawn_over_its_bytes(
    cells: Seq<(char, RenderStyle)>,
    l: int,
    line: Seq<char>,
    start: int,
    end: int,
    hint: Seq<char>,
    s: int,
    e: int,
)
    requires
        cells.len() == line.len(),
        0 <= s <= e <= line.len(),
        utf8_len(line.take(s)) == start,
        utf8_len(line.take(e)) == end,
    ensures
        e - s < hint.len() ==> draw_mark(cells, l, line, (l, start, end, hint)) == cells,
        e - s >= hint.len() ==> draw_mark(cells, l, line, (l, start, end, hint)).len() == line.len(),
        e - s >= hint.len() ==> forall|i: int|
            0 <= i < line.len() ==> #[trigger] draw_mark(cells, l, line, (l, start, end, hint))[i] == if s <= i
                < s + hint.len() {
                (hint[i - s], RenderStyle::Hint)
            } else if s + hint.len() <= i < e {
                (line[i], RenderStyle::Match)
            } else {
                cells[i]
            },
        forall|other: int| other != l ==> draw_mark(cells, l, line, (other, start, end, hint)) == cells,
{
    lemma_char_index_at_boundary(line, s);
    lemma_char_index_at_boundary(line, e);
}

/// Whether two byte ranges do not overlap.
pub open spec fn bytes_apart(a_start: int, a_end: int, b_start: int, b_end: int) -> bool {
    a_end <= b_start || b_end <= a_start
}

/// On a styled line, each mark whose byte range no other mark of that line
/// overlaps shows its hint over the first `hint.len()` characters from the
/// character that begins at its start byte, and its own text as a match on
/// the rest of its characters, whatever the other marks are.
pub proof fn law_marks_drawn_at_their_bytes(
    l: int,
    line: Seq<char>,
    marks: Seq<(int, int, int, Seq<char>)>,
    k: int,
    s: int,
    e: int,
)
    requires
        0 <= k < marks.len(),
        marks[k].0 == l,
        0 <= s <= e <= line.len(),
        utf8_len(line.take(s)) == marks[k].1,
        utf8_len(line.take(e)) == marks[k].2,
        e - s >= marks[k].3.len(),
        forall|j: int|
            0 <= j < marks.len() && j != k && (#[trigger] marks[j]).0 == l ==> bytes_apart(
                marks[j].1,
                marks[j].2,
                marks[k].1,
                marks[k].2,
            ),
    ensures
        forall|i: int|
            s <= i < e ==> #[trigger] styled_line(l, line, marks)[i] == if i < s + marks[k].3.len() {
                (marks[k].3[i - s], RenderStyle::Hint)
            } else {
                (line[i], RenderStyle::Match)
            },
    decreases marks.len(),
{
    let rest = marks.drop_last();
    let m = marks.last();
    law_styled_line_keeps_length(l, line, rest);
    if k == marks.len() - 1 {
        law_hint_drawn_over_its_bytes(styled_line(l, line, rest), l, line, m.1, m.2, m.3, s, e);
    } else {
        assert forall|j: int|
            0 <= j < rest.len() && j != k && (#[trigger] rest[j]).0 == l implies bytes_apart(
            rest[j].1,
            rest[j].2,
            rest[k].1,
            rest[k].2,
        ) by {
            assert(rest[j] == marks[j]);
        }
        law_marks_drawn_at_their_bytes(l, line, rest, k, s, e);
        if m.0 == l {
            assert(marks[marks.len() - 1] == m);
            assert(bytes_apart(m.1, m.2, marks[k].1, marks[k].2));
            lemma_char_index_at_boundary(line, s);
            lemma_char_index_at_boundary(line, e);
            if m.2 <= marks[k].1 {
                lemma_char_index_mono(line, m.2, marks[k].1);
            } else {
                lemma_char_index_mono(line, marks[k].2, m.1);
            }
        }
    }
}

/// On a styled line, a character whose bytes no mark of that line covers
/// shows itself, unmatched.
pub proof fn law_unmarked_characters_stay_plain(
    l: int,
    line: Seq<char>,
    marks: Seq<(int, int, int, Seq<char>)>,
    i: int,
)
    requires
        0 <= i < line.len(),
        forall|j: int|
            0 <= j < marks.len() && (#[trigger] marks[j]).0 == l ==> bytes_apart(
                marks[j].1,
                marks[j].2,
                utf8_len(line.take(i)),
                utf8_len(line.take(i + 1)),
            ),
    ensures
        styled_line(l, line, marks)[i] == (line[i], RenderStyle::Unmatched),
    decreases marks.len(),
{
    if marks.len() > 0 {
        let rest = marks.drop_last();
        let m = marks.last();
        law_styled_line_keeps_length(l, line, rest);
        assert forall|j: int| 0 <= j < rest.len() && (#[trigger] rest[j]).0 == l implies bytes_apart(
            rest[j].1,
            rest[j].2,
            utf8_len(line.take(i)),
            utf8_len(line.take(i + 1)),
        ) by {
            assert(rest[j] == marks[j]);
        }
        law_unmarked_characters_stay_plain(l, line, rest, i);
        if m.0 == l {
            assert(marks[marks.len() - 1] == m);
            lemma_char_index_at_boundary(line, i);
            lemma_char_index_at_boundary(line, i + 1);
            if m.2 <= utf8_len(line.take(i)) {
                lemma_char_index_mono(line, m.2, utf8_len(line.take(i)));
            } else {
                lemma_char_index_mono(line, utf8_len(line.take(i + 1)), m.1);
            }
        }
    }
}

/// Concatenating after a leading row.
proof fn lemma_flatten_alt_prepend<A>(first: Seq<A>, rest: Seq<Seq<A>>)
    ensures
        (seq![first] + rest).flatten_alt() == first + rest.flatten_alt(),
    decreases rest.len(),
{
    let all = seq![first] + rest;
    if rest.len() == 0 {
        assert(all =~= seq![first]);
        assert(all.drop_last() =~= Seq::<Seq<A>>::empty());
        assert(all.drop_last().flatten_alt() =~= Seq::<A>::empty());
        assert(all.flatten_alt() == all.drop_last().flatten_alt() + all.last());
        assert(all.flatten_alt() =~= first);
        assert(rest.flatten_alt() =~= Seq::<A>::empty());
        assert(first + rest.flatten_alt() =~= first);
    } else {
        assert(all.drop_last() =~= seq![first] + rest.drop_last());
        lemma_flatten_alt_prepend(first, rest.drop_last());
        assert(all.last() == rest.last());
        assert(all.flatten_alt() == all.drop_last().flatten_alt() + all.last());
        assert(rest.flatten_alt() == rest.drop_last().flatten_alt() + rest.last());
        assert(first + rest.drop_last().flatten_alt() + rest.last() =~= first + rest.flatten_alt());
    }
}

/// Grouping loses and reorders nothing: the span texts, put back together,
/// are the row's characters; no span is empty, each span's characters carry
/// its style, and neighbouring spans differ in style.
pub proof fn law_grouped_spans(cells: Seq<(char, RenderStyle)>)
    ensures
        line_text(group_cells(cells)) == cell_chars(cells),
        forall|i: int| 0 <= i < group_cells(cells).len() ==> (#[trigger] group_cells(cells)[i]).0.len() > 0,
        forall|i: int|
            0 < i < group_cells(cells).len() ==> (#[trigger] group_cells(cells)[i]).1 != group_cells(
                cells,
            )[i - 1].1,
        cells.len() > 0 ==> group_cells(cells).len() > 0 && group_cells(cells).last().1 == cells.last().1,
    decreases cells.len(),
{
    if cells.len() > 0 {
        let prefix = cells.drop_last();
        let spans = group_cells(prefix);
        let c = cells.last();
        law_grouped_spans(prefix);
        let g = group_cells(cells);
        assert(cell_chars(cells) =~= cell_chars(prefix).push(c.0));
        if spans.len() > 0 && spans.last().1 == c.1 {
            let n = spans.len() - 1;
            assert(g == spans.update(n, (spans.last().0.push(c.0), c.1)));
            assert(g.drop_last() =~= spans.drop_last());
            assert(spans.drop_last().push(spans.last()) =~= spans);
            assert(line_text(spans) == line_text(spans.drop_last()) + spans.last().0);
            assert(line_text(g) == line_text(g.drop_last()) + g.last().0);
            assert(line_text(g) =~= line_text(spans).push(c.0));
            assert forall|i: int| 0 < i < g.len() implies (#[trigger] g[i]).1 != g[i - 1].1 by {
                if i < n {
                    assert(g[i] == spans[i] && g[i - 1] == spans[i - 1]);
                } else {
                    assert(g[i].1 == spans[i].1 && g[i - 1] == spans[i - 1]);
                }
            }
        } else {
            assert(g == spans.push((seq![c.0], c.1)));
            assert(g.drop_last() =~= spans);
            assert(line_text(g) =~= line_text(spans) + seq![c.0]);
            assert forall|i: int| 0 < i < g.len() implies (#[trigger] g[i]).1 != g[i - 1].1 by {
                if i < spans.len() {
                    assert(g[i] == spans[i] && g[i - 1] == spans[i - 1]);
                }
            }
        }
    }
}

/// The overlay grid has exactly the overlay's size.
pub proof fn law_overlay_grid_shape(
    lines: Seq<Seq<char>>,
    source: Rect,
    overlay_content: Rect,
    overlay_size: Rect,
)
    ensures
        overlay_grid(lines, source, overlay_content, overlay_size).len() == overlay_size.height,
        forall|y: int|
            0 <= y < overlay_size.height ==> (#[trigger] overlay_grid(
                lines,
                source,
                overlay_content,
                overlay_size,
            )[y]).len() == overlay_size.width,
{
}

/// A property of every element of every inner sequence holds of every
/// element of the flattened sequence.
proof fn lemma_flatten_alt_all<A>(ss: Seq<Seq<A>>, p: spec_fn(A) -> bool)
    requires
        forall|l: int, r: int| 0 <= l < ss.len() && 0 <= r < ss[l].len() ==> p(#[trigger] ss[l][r]),
    ensures
        forall|k: int| 0 <= k < ss.flatten_alt().len() ==> p(#[trigger] ss.flatten_alt()[k]),
    decreases ss.len(),
{
    if ss.len() > 0 {
        let prefix = ss.drop_last();
        assert forall|l: int, r: int| 0 <= l < prefix.len() && 0 <= r < prefix[l].len() implies p(
            #[trigger] prefix[l][r],
        ) by {
            assert(prefix[l] == ss[l]);
        }
        lemma_flatten_alt_all(prefix, p);
        let f = ss.flatten_alt();
        let pf = prefix.flatten_alt();
        assert(f == pf + ss.last());
        assert forall|k: int| 0 <= k < f.len() implies p(#[trigger] f[k]) by {
            if k < pf.len() {
                assert(f[k] == pf[k]);
            } else {
                assert(f[k] == ss[ss.len() - 1][k - pf.len()]);
            }
        }
    }
}

/// The inline hint view fits the pane: at most `height` rows, none wider
/// than `width` characters.
pub proof fn law_inline_view_fits(
    lines: Seq<Seq<char>>,
    assignments: Seq<AssignmentModel>,
    width: int,
    height: int,
)
    requires
        height >= 0,
    ensures
        inline_hint_view(lines, assignments, width, height).len() <= height,
        forall|i: int|
            0 <= i < inline_hint_view(lines, assignments, width, height).len() ==> line_text(
                #[trigger] inline_hint_view(lines, assignments, width, height)[i],
            ).len() <= width,
{
    let all = wrapped_rows(lines, assignments, width);
    let kept = bottom_rows(all, height);
    let view = inline_hint_view(lines, assignments, width, height);
    assert(view == kept.map_values(|row: Seq<(char, RenderStyle)>| group_cells(row)));
    if width > 0 {
        let per = Seq::new(
            lines.len(),
            |l: int| wrap_cells(styled_line(l, lines[l], hint_marks(assignments)), width),
        );
        assert(all == per.flatten_alt());
        let fits = |row: Seq<(char, RenderStyle)>| row.len() <= width;
        assert forall|l: int, r: int| 0 <= l < per.len() && 0 <= r < per[l].len() implies fits(
            #[trigger] per[l][r],
        ) by {
            law_wrap_fits(styled_line(l, lines[l], hint_marks(assignments)), width);
        }
        lemma_flatten_alt_all(per, fits);
        assert forall|i: int| 0 <= i < view.len() implies line_text(#[trigger] view[i]).len() <= width by {
            let k = if all.len() > height { i + (all.len() - height) } else { i };
            assert(kept[i] == all[k]);
            assert(fits(all[k]));
            law_grouped_spans(all[k]);
            assert(view[i] == group_cells(all[k]));
        }
    }
}

/// The styled cells that a viewport segment shows: the part of its logical
/// line's styled cells between the segment's byte offsets (none for a
/// segment of a line that does not exist).
pub open spec fn segment_cells(
    seg: LogicalLineVisualSegment,
    lines: Seq<Seq<char>>,
    marks: Seq<(int, int, int, Seq<char>)>,
) -> Seq<(char, RenderStyle)> {
    if seg.logical_line >= lines.len() {
        Seq::empty()
    } else {
        let line = lines[seg.logical_line as int];
        let s = char_index_of_byte(line, seg.logical_start as int);
        let e = char_index_of_byte(line, seg.logical_end as int);
        if s < e {
            styled_line(seg.logical_line as int, line, marks).subrange(s, e)
        } else {
            Seq::empty()
        }
    }
}

/// `base` with `piece` laid over it from column `col`, as far as `base` reaches.
pub open spec fn overlay_piece(base: Seq<(char, RenderStyle)>, col: int, piece: Seq<(char, RenderStyle)>) -> Seq<
    (char, RenderStyle),
> {
    Seq::new(
        base.len(),
        |i: int|
            if col <= i < col + piece.len() {
                piece[i - col]
            } else {
                base[i]
            },
    )
}

/// The cells of visible row `r` (text `text`): its text unmatched, with the
/// styled cells of every segment shown on that row laid over it at the
/// segment's first column, segment by segment.
pub open spec fn row_cells(
    r: int,
    text: Seq<char>,
    lines: Seq<Seq<char>>,
    segs: Seq<LogicalLineVisualSegment>,
    marks: Seq<(int, int, int, Seq<char>)>,
) -> Seq<(char, RenderStyle)>
    decreases segs.len(),
{
    if segs.len() == 0 {
        text.map_values(|c: char| (c, RenderStyle::Unmatched))
    } else {
        let base = row_cells(r, text, lines, segs.drop_last(), marks);
        let seg = segs.last();
        if seg.row == r {
            overlay_piece(base, seg.col_start as int, segment_cells(seg, lines, marks))
        } else {
            base
        }
    }
}

/// The inline hint rendering of the exact visible viewport: each visible row
/// with the hints and matches of its segments drawn over it, cut to `width`
/// cells, cropped to the bottom `height` rows, each row grouped into styled
/// spans.
pub open spec fn visible_hint_view(
    rows: Seq<Seq<char>>,
    lines: Seq<Seq<char>>,
    segs: Seq<LogicalLineVisualSegment>,
    assignments: Seq<AssignmentModel>,
    width: int,
    height: int,
) -> Seq<Seq<(Seq<char>, RenderStyle)>> {
    let marks = hint_marks(assignments);
    let cut = Seq::new(
        rows.len(),
        |r: int| row_cells(r, rows[r], lines, segs, marks).take(min_int(width, row_cells(r, rows[r], lines, segs, marks).len() as int)),
    );
    bottom_rows(cut, height).map_values(|row: Seq<(char, RenderStyle)>| group_cells(row))
}

/// The cells of one visible row.
fn visible_row_cells(
    r: usize,
    text: &str,
    line_chars: &Vec<Vec<char>>,
    styled: &Vec<Vec<(char, RenderStyle)>>,
    segs: &Vec<LogicalLineVisualSegment>,
    marks: Ghost<Seq<(int, int, int, Seq<char>)>>,
) -> (cells: Vec<(char, RenderStyle)>)
    requires
        line_chars@.len() == styled@.len(),
        forall|l: int|
            0 <= l < styled@.len() ==> #[trigger] styled@[l]@ == styled_line(l, line_chars@[l]@, marks@),
    ensures
        cells@ == row_cells(
            r as int,
            text@,
            line_chars@.map_values(|v: Vec<char>| v@),
            segs@,
            marks@,
        ),
{
    let ghost lines = line_chars@.map_values(|v: Vec<char>| v@);
    let chars = chars_of(text);
    let mut cells: Vec<(char, RenderStyle)> = Vec::new();
    let mut c: usize = 0;
    while c < chars.len()
        invariant
            c <= chars@.len(),
            cells@ == chars@.take(c as int).map_values(|ch: char| (ch, RenderStyle::Unmatched)),
        decreases chars@.len() - c,
    {
        cells.push((chars[c], RenderStyle::Unmatched));
        assert(chars@.take(c + 1).map_values(|ch: char| (ch, RenderStyle::Unmatched)) =~= chars@.take(
            c as int,
        ).map_values(|ch: char| (ch, RenderStyle::Unmatched)).push((chars@[c as int], RenderStyle::Unmatched)));
        c = c + 1;
    }
    assert(chars@.take(chars@.len() as int) =~= chars@);
    assert(segs@.take(0) =~= Seq::<LogicalLineVisualSegment>::empty());
    let mut k: usize = 0;
    while k < segs.len()
        invariant
            lines == line_chars@.map_values(|v: Vec<char>| v@),
            line_chars@.len() == styled@.len(),
            forall|l: int|
                0 <= l < styled@.len() ==> #[trigger] styled@[l]@ == styled_line(l, line_chars@[l]@, marks@),
            k <= segs@.len(),
            cells@ == row_cells(r as int, text@, lines, segs@.take(k as int), marks@),
        decreases segs@.len() - k,
    {
        let seg = &segs[k];
        assert(segs@.take(k + 1).drop_last() =~= segs@.take(k as int));
        assert(segs@.take(k + 1).last() == segs@[k as int]);
        let ghost base = cells@;
        if seg.row == r && seg.logical_line < line_chars.len() {
            let l = seg.logical_line;
            let line = &line_chars[l];
            assert(lines[l as int] == line@);
            let s = char_index_of_byte_exec(line, seg.logical_start);
            let e = char_index_of_byte_exec(line, seg.logical_end);
            proof {
                lemma_char_index_bounds(line@, seg.logical_end as int);
                law_styled_line_keeps_length(l as int, line@, marks@);
            }
            if s < e && seg.col_start < cells.len() {
                let ghost piece = styled@[l as int]@.subrange(s as int, e as int);
                let ghost target = overlay_piece(base, seg.col_start as int, piece);
                let col = seg.col_start;
                let mut j: usize = 0;
                while j < e - s && j < cells.len() - col
                    invariant
                        l < styled@.len(),
                        s < e <= styled@[l as int]@.len(),
                        col < cells@.len(),
                        cells@.len() == base.len(),
                        piece == styled@[l as int]@.subrange(s as int, e as int),
                        target == overlay_piece(base, col as int, piece),
                        j <= e - s,
                        forall|i: int| 0 <= i < col + j && i < cells@.len() ==> #[trigger] cells@[i] == target[i],
                        forall|i: int| col + j <= i < cells@.len() ==> #[trigger] cells@[i] == base[i],
                    decreases e - s - j,
                {
                    let cell = styled[l][s + j];
                    cells.set(col + j, cell);
                    j = j + 1;
                }
                assert(cells@ =~= target);
            } else {
                assert(cells@ =~= overlay_piece(base, seg.col_start as int, segment_cells(*seg, lines, marks@)));
            }
        }
        k = k + 1;
    }
    assert(segs@.take(segs@.len() as int) =~= segs@);
    cells
}

/// Renders the exact visible viewport with destructive inline hints: every
/// visible row keeps its text, dimmed, and each segment of a logical line
/// shown on the row carries that line's matches and hints, drawn as
/// [`render_inline_hints`] draws them, from the segment's first column. Rows
/// are cut to `width` cells and only the bottom `height` rows are kept.
pub fn render_visible_inline_hints(
    viewport: &VisibleViewport,
    assignments: &[HintAssignment],
    width: u16,
    height: u16,
) -> (rendered: Vec<RenderLine>)
    ensures
        render_models(rendered@) == visible_hint_view(
            string_models(viewport.rows@),
            string_models(viewport.logical_lines@),
            viewport.segments@,
            assignments@.map_values(|a: HintAssignment| a@),
            width as int,
            height as int,
        ),
{
    let ghost marks = hint_marks(assignments@.map_values(|a: HintAssignment| a@));
    let mut line_chars: Vec<Vec<char>> = Vec::new();
    let mut styled: Vec<Vec<(char, RenderStyle)>> = Vec::new();
    let mut l: usize = 0;
    while l < viewport.logical_lines.len()
        invariant
            marks == hint_marks(assignments@.map_values(|a: HintAssignment| a@)),
            l <= viewport.logical_lines@.len(),
            line_chars@.len() == l,
            styled@.len() == l,
            forall|m: int| 0 <= m < l ==> #[trigger] line_chars@[m]@ == viewport.logical_lines@[m]@,
            forall|m: int|
                0 <= m < l ==> #[trigger] styled@[m]@ == styled_line(m, line_chars@[m]@, marks),
        decreases viewport.logical_lines@.len() - l,
    {
        let chars = chars_of(viewport.logical_lines[l].as_str());
        let cells = style_line(l, &chars, assignments);
        line_chars.push(chars);
        styled.push(cells);
        l = l + 1;
    }
    let ghost lines = string_models(viewport.logical_lines@);
    assert(line_chars@.map_values(|v: Vec<char>| v@) =~= lines);
    let ghost rows = string_models(viewport.rows@);
    let ghost cut = Seq::new(
        rows.len(),
        |r: int| row_cells(r, rows[r], lines, viewport.segments@, marks).take(
            min_int(width as int, row_cells(r, rows[r], lines, viewport.segments@, marks).len() as int),
        ),
    );
    let n = viewport.rows.len();
    let h = height as usize;
    let first = if n > h {
        n - h
    } else {
        0
    };
    let ghost kept = bottom_rows(cut, height as int);
    assert(kept =~= cut.skip(first as int));
    let mut rendered: Vec<RenderLine> = Vec::new();
    let mut r: usize = first;
    while r < n
        invariant
            n == viewport.rows@.len(),
            rows == string_models(viewport.rows@),
            lines == string_models(viewport.logical_lines@),
            line_chars@.map_values(|v: Vec<char>| v@) == lines,
            line_chars@.len() == styled@.len(),
            forall|m: int|
                0 <= m < styled@.len() ==> #[trigger] styled@[m]@ == styled_line(m, line_chars@[m]@, marks),
            cut == Seq::new(
                rows.len(),
                |r: int| row_cells(r, rows[r], lines, viewport.segments@, marks).take(
                    min_int(width as int, row_cells(r, rows[r], lines, viewport.segments@, marks).len() as int),
                ),
            ),
            kept == cut.skip(first as int),
            first <= r <= n,
            rendered@.len() == r - first,
            forall|m: int| 0 <= m < r - first ==> #[trigger] rendered@[m]@ == group_cells(kept[m]),
        decreases n - r,
    {
        let mut cells = visible_row_cells(
            r,
            viewport.rows[r].as_str(),
            &line_chars,
            &styled,
            &viewport.segments,
            Ghost(marks),
        );
        let ghost full = cells@;
        assert(full == row_cells(r as int, rows[r as int], lines, viewport.segments@, marks));
        let w = width as usize;
        if cells.len() > w {
            cells.truncate(w);
        }
        assert(cells@ =~= full.take(min_int(width as int, full.len() as int)));
        let line = group_row(&cells);
        assert(kept[r - first] == cut[r as int]);
        rendered.push(line);
        r = r + 1;
    }
    assert(render_models(rendered@) =~= kept.map_values(|row: Seq<(char, RenderStyle)>| group_cells(row)));
    rendered
}

} // verus!
