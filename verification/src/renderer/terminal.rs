//! Fitting rendered spans into the columns of the terminal cells they are
//! drawn in.

use crate::model::{RenderSpan, RenderStyle};
use crate::text::{chars_of, string_from_chars};
use vstd::prelude::*;

verus! {

/// Displayed width in columns of a string, as the unicode-width crate's
/// `UnicodeWidthStr::width` reports it.
pub uninterp spec fn display_width(s: Seq<char>) -> nat;

/// Displayed width in columns of a character, as the unicode-width crate's
/// `UnicodeWidthChar::width` reports it: `None` for a control character.
pub uninterp spec fn char_display_width(c: char) -> Option<nat>;

/// Runs `unicode_width::UnicodeWidthStr::width` on the text. The contract
/// claims that the result is [`display_width`] of the text and nothing more.
#[verifier::external_body]
fn text_width(s: &str) -> (w: usize)
    ensures
        w == display_width(s@),
{
    unicode_width::UnicodeWidthStr::width(s)
}

/// Runs `unicode_width::UnicodeWidthChar::width` on the character. The
/// contract claims that the result is [`char_display_width`] of it.
#[verifier::external_body]
fn char_width(c: char) -> (w: Option<usize>)
    ensures
        match w {
            Some(n) => char_display_width(c) == Some(n as nat),
            None => char_display_width(c) is None,
        },
{
    unicode_width::UnicodeWidthChar::width(c)
}

/// Columns a character takes when clipping: its displayed width, zero for a
/// control character.
pub open spec fn cell_width(c: char) -> nat {
    match char_display_width(c) {
        Some(n) => n,
        None => 0,
    }
}

/// The characters of `text` kept within `budget` columns: taken one by one
/// until the next one would not fit.
pub open spec fn fitting_prefix(text: Seq<char>, budget: int) -> Seq<char>
    decreases text.len(),
{
    if text.len() == 0 || cell_width(text[0]) > budget {
        Seq::empty()
    } else {
        seq![text[0]] + fitting_prefix(text.drop_first(), budget - cell_width(text[0]))
    }
}

/// Spans kept within `budget` columns: whole spans while they fit, then the
/// fitting part of the first span that does not, if that part is not empty.
pub open spec fn clipped(spans: Seq<(Seq<char>, RenderStyle)>, budget: int) -> Seq<
    (Seq<char>, RenderStyle),
>
    decreases spans.len(),
{
    if spans.len() == 0 {
        Seq::empty()
    } else if display_width(spans[0].0) <= budget {
        seq![spans[0]] + clipped(spans.drop_first(), budget - display_width(spans[0].0))
    } else {
        let t = fitting_prefix(spans[0].0, budget);
        if t.len() == 0 {
            Seq::empty()
        } else {
            seq![(t, spans[0].1)]
        }
    }
}

/// Views of spans.
pub open spec fn span_views(spans: Seq<RenderSpan>) -> Seq<(Seq<char>, RenderStyle)> {
    spans.map_values(|s: RenderSpan| s@)
}

/// The characters of a span's text that fit in `budget` columns.
fn fitting_text(text: &str, budget: usize) -> (t: String)
    ensures
        t@ == fitting_prefix(text@, budget as int),
{
    let chars = chars_of(text);
    let mut kept: Vec<char> = Vec::new();
    let mut spent: usize = 0;
    let mut j: usize = 0;
    assert(chars@.skip(0) =~= chars@);
    while j < chars.len()
        invariant
            j <= chars@.len(),
            chars@ == text@,
            spent <= budget,
            fitting_prefix(text@, budget as int) == kept@ + fitting_prefix(
                chars@.skip(j as int),
                budget - spent,
            ),
        decreases chars@.len() - j,
    {
        let c = chars[j];
        let w = match char_width(c) {
            Some(n) => n,
            None => 0,
        };
        assert(chars@.skip(j as int)[0] == c);
        assert(chars@.skip(j as int).drop_first() =~= chars@.skip(j + 1));
        if w > budget - spent {
            assert(kept@ + Seq::<char>::empty() =~= kept@);
            return string_from_chars(&kept);
        }
        let ghost before = kept@;
        kept.push(c);
        assert(before + (seq![c] + fitting_prefix(chars@.skip(j + 1), budget - spent - w)) =~= kept@
            + fitting_prefix(chars@.skip(j + 1), budget - (spent + w)));
        spent = spent + w;
        j = j + 1;
    }
    assert(chars@.skip(chars@.len() as int) =~= Seq::<char>::empty());
    assert(kept@ + Seq::<char>::empty() =~= kept@);
    string_from_chars(&kept)
}

/// Clips styled spans to a maximum display width, splitting mid-span if needed.
pub fn clip_spans(spans: &[RenderSpan], max_width: usize) -> (clipped_spans: Vec<RenderSpan>)
    ensures
        span_views(clipped_spans@) == clipped(span_views(spans@), max_width as int),
{
    let ghost all = span_views(spans@);
    let mut out: Vec<RenderSpan> = Vec::new();
    let mut used: usize = 0;
    let mut i: usize = 0;
    assert(all.skip(0) =~= all);
    while i < spans.len()
        invariant
            all == span_views(spans@),
            i <= spans@.len(),
            used <= max_width,
            clipped(all, max_width as int) == span_views(out@) + clipped(
                all.skip(i as int),
                max_width - used,
            ),
        decreases spans@.len() - i,
    {
        let span = &spans[i];
        assert(all.skip(i as int)[0] == span@);
        assert(all.skip(i as int).drop_first() =~= all.skip(i + 1));
        let width = text_width(span.text.as_str());
        if width <= max_width - used {
            let ghost before = out@;
            out.push(RenderSpan { text: span.text.clone(), style: span.style });
            assert(span_views(out@) =~= span_views(before).push(span@));
            assert(span_views(before) + (seq![span@] + clipped(all.skip(i + 1), max_width - used - width))
                =~= span_views(out@) + clipped(all.skip(i + 1), max_width - (used + width)));
            used = used + width;
            i = i + 1;
        } else {
            let text = fitting_text(span.text.as_str(), max_width - used);
            let ghost before = out@;
            if text.as_str().is_empty() {
                assert(span_views(before) + Seq::<(Seq<char>, RenderStyle)>::empty() =~= span_views(before));
            } else {
                out.push(RenderSpan { text, style: span.style });
                assert(span_views(out@) =~= span_views(before) + seq![(text@, span.style)]);
            }
            return out;
        }
    }
    assert(all.skip(spans@.len() as int) =~= Seq::<(Seq<char>, RenderStyle)>::empty());
    assert(span_views(out@) + Seq::<(Seq<char>, RenderStyle)>::empty() =~= span_views(out@));
    out
}

/// Columns the characters of a text take, char by char.
pub open spec fn cells(text: Seq<char>) -> int
    decreases text.len(),
{
    if text.len() == 0 {
        0
    } else {
        cell_width(text[0]) + cells(text.drop_first())
    }
}

/// The characters kept within a budget are a prefix of the text and take at
/// most the budget's columns.
pub proof fn law_fitting_prefix_fits(text: Seq<char>, budget: int)
    requires
        budget >= 0,
    ensures
        fitting_prefix(text, budget).len() <= text.len(),
        fitting_prefix(text, budget) == text.take(fitting_prefix(text, budget).len() as int),
        cells(fitting_prefix(text, budget)) <= budget,
    decreases text.len(),
{
    if text.len() > 0 && cell_width(text[0]) <= budget {
        let rest = text.drop_first();
        law_fitting_prefix_fits(rest, budget - cell_width(text[0]));
        let p = fitting_prefix(text, budget);
        assert(p.drop_first() =~= fitting_prefix(rest, budget - cell_width(text[0])));
        assert(p =~= text.take(p.len() as int));
    } else {
        assert(fitting_prefix(text, budget) =~= text.take(0));
    }
}

/// Clipping keeps the leading spans in order: never more spans than given,
/// every kept span but the last is the span at its place, and the last is
/// that span or a non-empty leading part of its text in its style.
pub proof fn law_clip_keeps_leading_spans(spans: Seq<(Seq<char>, RenderStyle)>, budget: int)
    requires
        budget >= 0,
    ensures
        clipped(spans, budget).len() <= spans.len(),
        forall|i: int|
            0 <= i < clipped(spans, budget).len() - 1 ==> #[trigger] clipped(spans, budget)[i]
                == spans[i],
        clipped(spans, budget).len() > 0 ==> {
            let k = clipped(spans, budget).len() - 1;
            let last = clipped(spans, budget)[k];
            &&& last.1 == spans[k].1
            &&& last.0 == spans[k].0.take(last.0.len() as int)
            &&& (last == spans[k] || last.0.len() > 0)
        },
    decreases spans.len(),
{
    if spans.len() > 0 {
        let w = display_width(spans[0].0);
        if w <= budget {
            let rest = clipped(spans.drop_first(), budget - w);
            law_clip_keeps_leading_spans(spans.drop_first(), budget - w);
            let c = clipped(spans, budget);
            assert(c == seq![spans[0]] + rest);
            assert forall|i: int| 0 <= i < c.len() - 1 implies #[trigger] c[i] == spans[i] by {
                if i > 0 {
                    assert(c[i] == rest[i - 1]);
                    assert(spans.drop_first()[i - 1] == spans[i]);
                }
            }
            if rest.len() > 0 {
                assert(c[c.len() - 1] == rest[rest.len() - 1]);
                assert(spans.drop_first()[rest.len() - 1] == spans[c.len() - 1]);
            } else {
                assert(spans[0].0 =~= spans[0].0.take(spans[0].0.len() as int));
            }
        } else {
            law_fitting_prefix_fits(spans[0].0, budget);
        }
    }
}

} // verus!
