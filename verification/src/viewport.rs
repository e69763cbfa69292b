//! The exact visible viewport: the pane's visible rows, the logical lines
//! that their soft wraps make up, and where each row's text sits in its
//! logical line.

use crate::model::{LogicalLineVisualSegment, VisibleViewport};
use crate::renderer::{bottom_rows, char_index_of_byte, string_models, utf8_width};
use crate::text::{chars_of, concat_str};
use vstd::prelude::*;

verus! {

/// Length in UTF-8 bytes of a text.
pub open spec fn utf8_len(s: Seq<char>) -> int
    decreases s.len(),
{
    if s.len() == 0 {
        0
    } else {
        utf8_len(s.drop_last()) + utf8_width(s.last())
    }
}

/// UTF-8 lengths add up over joined texts.
proof fn lemma_utf8_len_join(a: Seq<char>, b: Seq<char>)
    ensures
        utf8_len(a + b) == utf8_len(a) + utf8_len(b),
        utf8_len(a) >= 0,
    decreases b.len(),
{
    if b.len() == 0 {
        assert(a + b =~= a);
        lemma_utf8_len_nonneg(a);
    } else {
        lemma_utf8_len_join(a, b.drop_last());
        assert((a + b).drop_last() =~= a + b.drop_last());
        assert((a + b).last() == b.last());
    }
}

proof fn lemma_utf8_len_nonneg(a: Seq<char>)
    ensures
        a.len() <= utf8_len(a),
    decreases a.len(),
{
    if a.len() > 0 {
        lemma_utf8_len_nonneg(a.drop_last());
    }
}

/// Bytes of the first `k` rows, together.
pub open spec fn rows_bytes(rows: Seq<Seq<char>>, k: int) -> int
    decreases k,
{
    if k <= 0 {
        0
    } else {
        rows_bytes(rows, k - 1) + utf8_len(rows[k - 1])
    }
}

proof fn lemma_rows_bytes_mono(rows: Seq<Seq<char>>, j: int, k: int)
    requires
        0 <= j <= k,
    ensures
        rows_bytes(rows, j) <= rows_bytes(rows, k),
    decreases k - j,
{
    if j < k {
        lemma_rows_bytes_mono(rows, j, k - 1);
        lemma_utf8_len_nonneg(rows[k - 1]);
    }
}

/// Whether row `r` runs on into the next row: it fills the whole width and
/// is not the last row.
pub open spec fn wraps_on(rows: Seq<Seq<char>>, r: int, width: int) -> bool {
    width > 0 && r + 1 < rows.len() && rows[r].len() == width
}

/// Logical lines and row segments of the first `k` rows: a row starts a
/// new logical line unless the row before it runs on into it, in which case
/// it continues that row's line.
pub open spec fn mapped_rows(rows: Seq<Seq<char>>, width: int, k: int) -> (
    Seq<Seq<char>>,
    Seq<LogicalLineVisualSegment>,
)
    decreases k,
{
    if k <= 0 {
        (Seq::empty(), Seq::empty())
    } else {
        let (lines, segs) = mapped_rows(rows, width, k - 1);
        let r = k - 1;
        let row = rows[r];
        if r == 0 || !wraps_on(rows, r - 1, width) {
            (
                lines.push(row),
                segs.push(
                    LogicalLineVisualSegment {
                        logical_line: lines.len() as usize,
                        logical_start: 0,
                        logical_end: utf8_len(row) as usize,
                        row: r as usize,
                        col_start: 0,
                        col_end: row.len() as usize,
                    },
                ),
            )
        } else {
            let last = lines.last();
            (
                lines.update(lines.len() - 1, last + row),
                segs.push(
                    LogicalLineVisualSegment {
                        logical_line: (lines.len() - 1) as usize,
                        logical_start: utf8_len(last) as usize,
                        logical_end: (utf8_len(last) + utf8_len(row)) as usize,
                        row: r as usize,
                        col_start: 0,
                        col_end: row.len() as usize,
                    },
                ),
            )
        }
    }
}

/// Facts on the lines of the first `k` rows: there is one once a row is
/// taken, and the last one has at most as many bytes as those rows.
proof fn lemma_mapped_rows(rows: Seq<Seq<char>>, width: int, k: int)
    requires
        0 <= k <= rows.len(),
    ensures
        k > 0 ==> mapped_rows(rows, width, k).0.len() > 0,
        k > 0 ==> utf8_len(mapped_rows(rows, width, k).0.last()) <= rows_bytes(rows, k),
        mapped_rows(rows, width, k).0.len() <= k,
    decreases k,
{
    if k > 0 {
        lemma_mapped_rows(rows, width, k - 1);
        let (lines, segs) = mapped_rows(rows, width, k - 1);
        let row = rows[k - 1];
        lemma_utf8_len_nonneg(row);
        lemma_rows_bytes_mono(rows, 0, k - 1);
        if !(k - 1 == 0 || !wraps_on(rows, k - 2, width)) {
            lemma_utf8_len_join(lines.last(), row);
        }
    }
}

/// Bytes of a text in UTF-8.
fn utf8_len_exec(chars: &Vec<char>, bound: Ghost<int>) -> (n: usize)
    requires
        utf8_len(chars@) <= bound@ <= usize::MAX,
    ensures
        n == utf8_len(chars@),
{
    let mut n: usize = 0;
    let mut i: usize = 0;
    while i < chars.len()
        invariant
            i <= chars@.len(),
            n == utf8_len(chars@.take(i as int)),
            utf8_len(chars@) <= bound@ <= usize::MAX,
        decreases chars@.len() - i,
    {
        proof {
            assert(chars@.take(i + 1).drop_last() =~= chars@.take(i as int));
            assert(chars@.take(i + 1).last() == chars@[i as int]);
            lemma_utf8_len_join(chars@.take(i + 1), chars@.skip(i + 1));
            assert(chars@.take(i + 1) + chars@.skip(i + 1) =~= chars@);
            lemma_utf8_len_nonneg(chars@.skip(i + 1));
        }
        let w = crate::renderer::utf8_width_exec(chars[i]);
        n = n + w;
        i = i + 1;
    }
    assert(chars@.take(chars@.len() as int) =~= chars@);
    n
}

/// The visible viewport of a pane from its visible rows: the bottom
/// `height` rows; the logical lines they make up, a row that fills the whole
/// `width` running on into the next; and, for each row, the byte range of
/// its logical line that it shows, from its first column.
pub fn map_visible_viewport(lines: Vec<String>, width: u16, height: u16) -> (viewport: VisibleViewport)
    requires
        rows_bytes(
            bottom_rows(string_models(lines@), height as int),
            bottom_rows(string_models(lines@), height as int).len() as int,
        ) <= usize::MAX,
    ensures
        string_models(viewport.rows@) == bottom_rows(string_models(lines@), height as int),
        string_models(viewport.logical_lines@) == mapped_rows(
            bottom_rows(string_models(lines@), height as int),
            width as int,
            bottom_rows(string_models(lines@), height as int).len() as int,
        ).0,
        viewport.segments@ == mapped_rows(
            bottom_rows(string_models(lines@), height as int),
            width as int,
            bottom_rows(string_models(lines@), height as int).len() as int,
        ).1,
{
    let ghost all = string_models(lines@);
    let ghost kept = bottom_rows(all, height as int);
    let n = lines.len();
    let h = height as usize;
    let first = if n > h {
        n - h
    } else {
        0
    };
    assert(kept =~= all.skip(first as int));
    let ghost total = rows_bytes(kept, kept.len() as int);
    let mut rows: Vec<String> = Vec::new();
    let mut logical: Vec<String> = Vec::new();
    let mut segments: Vec<LogicalLineVisualSegment> = Vec::new();
    let mut last_bytes: usize = 0;
    let mut prev_len: usize = 0;
    let mut r: usize = first;
    while r < n
        invariant
            n == lines@.len(),
            all == string_models(lines@),
            kept == all.skip(first as int),
            total == rows_bytes(kept, kept.len() as int),
            total <= usize::MAX,
            first <= r <= n,
            string_models(rows@) == kept.take(r - first),
            string_models(logical@) == mapped_rows(kept, width as int, r - first).0,
            segments@ == mapped_rows(kept, width as int, r - first).1,
            r > first ==> last_bytes == utf8_len(mapped_rows(kept, width as int, r - first).0.last()),
            r > first ==> prev_len == kept[r - first - 1].len(),
        decreases n - r,
    {
        let k: usize = r - first;
        let ghost before_lines = mapped_rows(kept, width as int, k as int).0;
        proof {
            lemma_mapped_rows(kept, width as int, k as int);
            lemma_mapped_rows(kept, width as int, k + 1);
            lemma_rows_bytes_mono(kept, k + 1, kept.len() as int);
            lemma_utf8_len_nonneg(kept[k as int]);
            lemma_rows_bytes_mono(kept, 0, k as int);
        }
        let chars = chars_of(lines[r].as_str());
        assert(chars@ == kept[k as int]);
        let row_bytes = utf8_len_exec(&chars, Ghost(total));
        let row_len = chars.len();
        let continues = k > 0 && width > 0 && prev_len == width as usize;
        assert(continues == (k > 0 && wraps_on(kept, k - 1, width as int)));
        if !continues {
            let index = logical.len();
            assert(index == before_lines.len());
            segments.push(
                LogicalLineVisualSegment {
                    logical_line: index,
                    logical_start: 0,
                    logical_end: row_bytes,
                    row: k,
                    col_start: 0,
                    col_end: row_len,
                },
            );
            logical.push(lines[r].clone());
            last_bytes = row_bytes;
            assert(string_models(logical@) =~= before_lines.push(kept[k as int]));
        } else {
            let index = logical.len() - 1;
            proof {
                lemma_utf8_len_join(before_lines.last(), kept[k as int]);
            }
            let end = last_bytes + row_bytes;
            segments.push(
                LogicalLineVisualSegment {
                    logical_line: index,
                    logical_start: last_bytes,
                    logical_end: end,
                    row: k,
                    col_start: 0,
                    col_end: row_len,
                },
            );
            let joined = concat_str(logical[index].as_str(), lines[r].as_str());
            logical.set(index, joined);
            last_bytes = end;
            assert(string_models(logical@) =~= before_lines.update(
                before_lines.len() - 1,
                before_lines.last() + kept[k as int],
            ));
        }
        let ghost before_rows = rows@;
        rows.push(lines[r].clone());
        assert(string_models(rows@) =~= string_models(before_rows).push(kept[k as int]));
        assert(kept.take(k + 1) =~= kept.take(k as int).push(kept[k as int]));
        prev_len = row_len;
        r = r + 1;
    }
    assert(kept.take(n - first) =~= kept);
    VisibleViewport { rows, logical_lines: logical, segments }
}

/// The UTF-8 length of a text is its first character's width plus the
/// length of the rest.
proof fn lemma_utf8_len_front(s: Seq<char>)
    requires
        s.len() > 0,
    ensures
        utf8_len(s) == utf8_width(s[0]) + utf8_len(s.drop_first()),
{
    let head = seq![s[0]];
    lemma_utf8_len_join(head, s.drop_first());
    assert(head + s.drop_first() =~= s);
    assert(head.drop_last() =~= Seq::<char>::empty());
    assert(head.last() == s[0]);
    assert(utf8_len(head) == utf8_len(head.drop_last()) + utf8_width(head.last()));
}

/// A byte offset within `a` finds the same character in `a` followed by
/// more text.
proof fn lemma_char_index_prefix(a: Seq<char>, c: Seq<char>, b: int)
    requires
        b <= utf8_len(a),
    ensures
        char_index_of_byte(a + c, b) == char_index_of_byte(a, b),
    decreases a.len(),
{
    if a.len() > 0 && b > 0 {
        lemma_utf8_len_front(a);
        assert((a + c).drop_first() =~= a.drop_first() + c);
        assert((a + c)[0] == a[0]);
        lemma_char_index_prefix(a.drop_first(), c, b - utf8_width(a[0]));
    } else if a.len() == 0 {
        lemma_utf8_len_nonneg(a);
    }
}

/// The byte offset past all of `a` finds the character of `c` at the
/// remaining offset, after all of `a`'s characters.
pub(crate) proof fn lemma_char_index_after(a: Seq<char>, c: Seq<char>, x: int)
    requires
        x >= 0,
    ensures
        char_index_of_byte(a + c, utf8_len(a) + x) == a.len() + char_index_of_byte(c, x),
    decreases a.len(),
{
    if a.len() == 0 {
        assert(a + c =~= c);
    } else {
        lemma_utf8_len_front(a);
        lemma_utf8_len_nonneg(a.drop_first());
        assert((a + c).drop_first() =~= a.drop_first() + c);
        assert((a + c)[0] == a[0]);
        assert(utf8_width(a[0]) >= 1);
        lemma_char_index_after(a.drop_first(), c, x);
    }
}

/// A later byte offset finds the same character or a later one.
pub(crate) proof fn lemma_char_index_mono(s: Seq<char>, b1: int, b2: int)
    requires
        b1 <= b2,
    ensures
        char_index_of_byte(s, b1) <= char_index_of_byte(s, b2),
    decreases s.len(),
{
    if s.len() > 0 && b1 > 0 {
        lemma_char_index_mono(s.drop_first(), b1 - utf8_width(s[0]), b2 - utf8_width(s[0]));
    } else {
        crate::renderer::lemma_char_index_bounds(s, b2);
    }
}

/// Whether a segment shows exactly row `r` of `rows` from its line: the
/// row's text is the characters of its logical line between the segment's
/// byte offsets, from the row's first column to its end.
pub open spec fn shows_row(
    seg: LogicalLineVisualSegment,
    r: int,
    rows: Seq<Seq<char>>,
    lines: Seq<Seq<char>>,
) -> bool {
    let line = lines[seg.logical_line as int];
    &&& seg.row == r
    &&& seg.logical_line < lines.len()
    &&& seg.col_start == 0
    &&& seg.col_end == rows[r].len()
    &&& seg.logical_start <= seg.logical_end <= utf8_len(line)
    &&& line.subrange(
        char_index_of_byte(line, seg.logical_start as int),
        char_index_of_byte(line, seg.logical_end as int),
    ) == rows[r]
}

/// A row that starts a new logical line is shown by its segment, and the
/// segments before it keep showing their rows.
#[verifier::rlimit(50)]
proof fn lemma_new_line_step(rows: Seq<Seq<char>>, width: int, k: int)
    requires
        1 <= k <= rows.len(),
        rows.len() <= usize::MAX,
        utf8_len(rows[k - 1]) <= usize::MAX,
        k - 1 == 0 || !wraps_on(rows, k - 2, width),
        mapped_rows(rows, width, k - 1).1.len() == k - 1,
        mapped_rows(rows, width, k - 1).0.len() <= k - 1,
        forall|r: int|
            0 <= r < k - 1 ==> shows_row(
                #[trigger] mapped_rows(rows, width, k - 1).1[r],
                r,
                rows,
                mapped_rows(rows, width, k - 1).0,
            ),
    ensures
        mapped_rows(rows, width, k).1.len() == k,
        forall|r: int|
            0 <= r < k ==> shows_row(
                #[trigger] mapped_rows(rows, width, k).1[r],
                r,
                rows,
                mapped_rows(rows, width, k).0,
            ),
{
    let (lines, segs) = mapped_rows(rows, width, k - 1);
    let (lines2, segs2) = mapped_rows(rows, width, k);
    let row = rows[k - 1];
    assert(lines2 == lines.push(row));
    lemma_utf8_len_nonneg(row);
    lemma_char_index_after(row, Seq::empty(), 0);
    assert(row + Seq::<char>::empty() =~= row);
    assert(char_index_of_byte(row, 0) == 0);
    assert(row.subrange(0, row.len() as int) =~= row);
    let seg = segs2[k - 1];
    assert(segs2 == segs.push(seg));
    assert(seg.logical_line as int == lines.len());
    assert(lines2[lines.len() as int] == row);
    assert(seg.row as int == k - 1);
    assert(seg.col_end as int == row.len());
    assert(seg.logical_start == 0);
    assert(seg.logical_end as int == utf8_len(row));
    assert(shows_row(segs2[k - 1], k - 1, rows, lines2));
    assert forall|q: int| 0 <= q < k implies shows_row(#[trigger] segs2[q], q, rows, lines2) by {
        if q < k - 1 {
            assert(segs2[q] == segs[q]);
            assert(shows_row(segs[q], q, rows, lines));
            assert(lines2[segs[q].logical_line as int] == lines[segs[q].logical_line as int]);
        }
    }
}

/// A row that continues the last logical line is shown by its segment, and
/// the segments before it keep showing their rows.
#[verifier::rlimit(50)]
proof fn lemma_continued_line_step(rows: Seq<Seq<char>>, width: int, k: int)
    requires
        2 <= k <= rows.len(),
        rows.len() <= usize::MAX,
        wraps_on(rows, k - 2, width),
        0 < mapped_rows(rows, width, k - 1).0.len() <= k - 1,
        utf8_len(mapped_rows(rows, width, k - 1).0.last()) + utf8_len(rows[k - 1]) <= usize::MAX,
        mapped_rows(rows, width, k - 1).1.len() == k - 1,
        forall|r: int|
            0 <= r < k - 1 ==> shows_row(
                #[trigger] mapped_rows(rows, width, k - 1).1[r],
                r,
                rows,
                mapped_rows(rows, width, k - 1).0,
            ),
    ensures
        mapped_rows(rows, width, k).1.len() == k,
        forall|r: int|
            0 <= r < k ==> shows_row(
                #[trigger] mapped_rows(rows, width, k).1[r],
                r,
                rows,
                mapped_rows(rows, width, k).0,
            ),
{
    let (lines, segs) = mapped_rows(rows, width, k - 1);
    let (lines2, segs2) = mapped_rows(rows, width, k);
    let row = rows[k - 1];
    let last = lines.last();
    let li = lines.len() - 1;
    let joined = last + row;
    assert(lines2 == lines.update(li, joined));
    lemma_utf8_len_join(last, row);
    lemma_utf8_len_nonneg(last);
    lemma_utf8_len_nonneg(row);
    lemma_char_index_after(last, row, 0);
    lemma_char_index_after(last, row, utf8_len(row));
    lemma_char_index_after(row, Seq::empty(), 0);
    assert(row + Seq::<char>::empty() =~= row);
    assert(joined.subrange(last.len() as int, (last.len() + row.len()) as int) =~= row);
    assert(char_index_of_byte(row, utf8_len(row)) == row.len());
    assert(char_index_of_byte(joined, utf8_len(last)) == last.len());
    assert(char_index_of_byte(joined, utf8_len(last) + utf8_len(row)) == last.len() + row.len());
    let seg = segs2[k - 1];
    assert(segs2 == segs.push(seg));
    assert(seg.logical_line as int == li);
    assert(lines2[li] == joined);
    assert(seg.row as int == k - 1);
    assert(seg.col_end as int == row.len());
    assert(seg.logical_start as int == utf8_len(last));
    assert(seg.logical_end as int == utf8_len(last) + utf8_len(row));
    assert(shows_row(segs2[k - 1], k - 1, rows, lines2));
    assert forall|q: int| 0 <= q < k implies shows_row(#[trigger] segs2[q], q, rows, lines2) by {
        if q < k - 1 {
            let sq = segs[q];
            assert(segs2[q] == sq);
            assert(shows_row(sq, q, rows, lines));
            if sq.logical_line as int == li {
                lemma_char_index_prefix(last, row, sq.logical_start as int);
                lemma_char_index_prefix(last, row, sq.logical_end as int);
                crate::renderer::lemma_char_index_bounds(last, sq.logical_end as int);
                crate::renderer::lemma_char_index_bounds(last, sq.logical_start as int);
                lemma_char_index_mono(last, sq.logical_start as int, sq.logical_end as int);
                let s0 = char_index_of_byte(last, sq.logical_start as int);
                let e0 = char_index_of_byte(last, sq.logical_end as int);
                assert(joined.subrange(s0, e0) =~= last.subrange(s0, e0));
            } else {
                assert(lines2[sq.logical_line as int] == lines[sq.logical_line as int]);
            }
        }
    }
}

/// The mapping of the first `k` rows has one segment per row, each showing
/// its row.
proof fn lemma_mapped_rows_show(rows: Seq<Seq<char>>, width: int, k: int)
    requires
        0 <= k <= rows.len(),
        rows.len() <= usize::MAX,
        rows_bytes(rows, rows.len() as int) <= usize::MAX,
    ensures
        mapped_rows(rows, width, k).1.len() == k,
        forall|r: int|
            0 <= r < k ==> shows_row(
                #[trigger] mapped_rows(rows, width, k).1[r],
                r,
                rows,
                mapped_rows(rows, width, k).0,
            ),
    decreases k,
{
    if k > 0 {
        lemma_mapped_rows_show(rows, width, k - 1);
        lemma_mapped_rows(rows, width, k - 1);
        lemma_mapped_rows(rows, width, k);
        lemma_rows_bytes_mono(rows, k, rows.len() as int);
        lemma_rows_bytes_mono(rows, 0, k - 1);
        lemma_utf8_len_nonneg(rows[k - 1]);
        if k - 1 == 0 || !wraps_on(rows, k - 2, width) {
            lemma_new_line_step(rows, width, k);
        } else {
            let last = mapped_rows(rows, width, k - 1).0.last();
            lemma_utf8_len_join(last, rows[k - 1]);
            assert(mapped_rows(rows, width, k).0.last() == last + rows[k - 1]);
            lemma_continued_line_step(rows, width, k);
        }
    }
}

/// Each row of a mapped viewport is shown by its own segment: the row's
/// text is the characters of its logical line between the segment's byte
/// offsets, so the logical lines put the rows back together.
pub proof fn law_rows_are_segments_of_lines(rows: Seq<Seq<char>>, width: int)
    requires
        rows.len() <= usize::MAX,
        rows_bytes(rows, rows.len() as int) <= usize::MAX,
    ensures
        mapped_rows(rows, width, rows.len() as int).1.len() == rows.len(),
        forall|r: int|
            0 <= r < rows.len() ==> shows_row(
                #[trigger] mapped_rows(rows, width, rows.len() as int).1[r],
                r,
                rows,
                mapped_rows(rows, width, rows.len() as int).0,
            ),
{
    lemma_mapped_rows_show(rows, width, rows.len() as int);
}

/// Facts on the mapping of the first `k` rows: one segment per row, and
/// the last row's segment lies on the last logical line.
proof fn lemma_mapped_rows_last(rows: Seq<Seq<char>>, width: int, k: int)
    requires
        1 <= k <= rows.len(),
        rows.len() <= usize::MAX,
    ensures
        mapped_rows(rows, width, k).1.len() == k,
        1 <= mapped_rows(rows, width, k).0.len() <= k,
        mapped_rows(rows, width, k).1[k - 1].logical_line == mapped_rows(rows, width, k).0.len() - 1,
    decreases k,
{
    if k > 1 {
        lemma_mapped_rows_last(rows, width, k - 1);
    } else {
        assert(mapped_rows(rows, width, 0).0.len() == 0);
        assert(mapped_rows(rows, width, 0).1.len() == 0);
    }
    let (lines, segs) = mapped_rows(rows, width, k - 1);
    if k - 1 == 0 || !wraps_on(rows, k - 2, width) {
        assert(mapped_rows(rows, width, k).0 == lines.push(rows[k - 1]));
    } else {
        assert(mapped_rows(rows, width, k).0 == lines.update(lines.len() - 1, lines.last() + rows[k - 1]));
    }
}

/// A row's segment stays as it was first made while later rows are mapped.
proof fn lemma_mapped_rows_prefix(rows: Seq<Seq<char>>, width: int, k: int, r: int)
    requires
        0 <= r < k <= rows.len(),
        rows.len() <= usize::MAX,
    ensures
        mapped_rows(rows, width, k).1[r] == mapped_rows(rows, width, r + 1).1[r],
    decreases k,
{
    if r < k - 1 {
        lemma_mapped_rows_last(rows, width, k - 1);
        lemma_mapped_rows_prefix(rows, width, k - 1, r);
    }
}

/// Soft wraps are joined by character count: a visible row that is not the
/// last and holds exactly `width` characters runs on into the next row, on
/// the same logical line; any other row ends its logical line, and the next
/// row starts a new one.
pub proof fn law_full_rows_run_on(rows: Seq<Seq<char>>, width: int)
    requires
        rows.len() <= usize::MAX,
    ensures
        forall|r: int|
            0 <= r && r + 1 < rows.len() ==> (mapped_rows(rows, width, rows.len() as int).1[r
                + 1].logical_line == #[trigger] mapped_rows(rows, width, rows.len() as int).1[r].logical_line
                <==> (width > 0 && rows[r].len() == width)),
        forall|r: int|
            0 <= r && r + 1 < rows.len() ==> #[trigger] mapped_rows(rows, width, rows.len() as int).1[r
                + 1].logical_line <= mapped_rows(rows, width, rows.len() as int).1[r].logical_line + 1,
{
    let n = rows.len() as int;
    assert forall|r: int| 0 <= r && r + 1 < rows.len() implies {
        &&& (mapped_rows(rows, width, n).1[r + 1].logical_line == #[trigger] mapped_rows(
            rows,
            width,
            n,
        ).1[r].logical_line <==> (width > 0 && rows[r].len() == width))
        &&& mapped_rows(rows, width, n).1[r + 1].logical_line <= mapped_rows(rows, width, n).1[r].logical_line
            + 1
    } by {
        lemma_mapped_rows_prefix(rows, width, n, r);
        lemma_mapped_rows_prefix(rows, width, n, r + 1);
        lemma_mapped_rows_last(rows, width, r + 1);
        lemma_mapped_rows_last(rows, width, r + 2);
        let lines = mapped_rows(rows, width, r + 1).0;
        let segs = mapped_rows(rows, width, r + 1).1;
        assert(mapped_rows(rows, width, r + 2).1 == segs.push(mapped_rows(rows, width, r + 2).1[r + 1]));
        assert(segs[r].logical_line == lines.len() - 1);
        if width > 0 && rows[r].len() == width {
            assert(wraps_on(rows, r, width));
            assert(mapped_rows(rows, width, r + 2).1[r + 1].logical_line == lines.len() - 1);
        } else {
            assert(!wraps_on(rows, r, width));
            assert(mapped_rows(rows, width, r + 2).1[r + 1].logical_line == lines.len());
        }
    }
}

} // verus!
