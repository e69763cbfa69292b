//! Hint engine: fixed-width keyboard hints over a home-row-first alphabet,
//! one hint per distinct copied text in first-visible order.

use crate::model::{AssignmentModel, HintAssignment, MatchSpan, SpanModel};
use crate::text::string_from_chars;
use vstd::prelude::*;

verus! {

/// Widest hint the picker hands out.
pub const MAX_HINT_WIDTH: usize = 2;

/// Hint letters: home row first, then the top row, then the bottom row.
pub open spec fn alphabet() -> Seq<char> {
    seq![
        'a', 's', 'd', 'f', 'g', 'h', 'j', 'k', 'l',
        'q', 'w', 'e', 'r', 't', 'y', 'u', 'i', 'o', 'p',
        'z', 'x', 'c', 'v', 'b', 'n', 'm',
    ]
}

/// Width needed to give `n` distinct texts a hint each: one letter while
/// the alphabet suffices, otherwise the maximum width.
pub open spec fn width_for(n: int) -> int {
    if n <= alphabet().len() {
        1
    } else {
        MAX_HINT_WIDTH as int
    }
}

/// All hints of the given width, in generation order: the letters for width
/// 1, every ordered pair of letters (first letter major) for width 2, and
/// none for any other width.
pub open spec fn hints_of_width(width: int) -> Seq<Seq<char>> {
    let k = alphabet().len() as int;
    if width == 1 {
        Seq::new(k as nat, |i: int| seq![alphabet()[i]])
    } else if width == 2 {
        Seq::new((k * k) as nat, |i: int| seq![alphabet()[i / k], alphabet()[i % k]])
    } else {
        Seq::empty()
    }
}

/// Distinct copied texts of `spans`, in order of first occurrence.
pub open spec fn distinct_texts(spans: Seq<SpanModel>) -> Seq<Seq<char>>
    decreases spans.len(),
{
    if spans.len() == 0 {
        Seq::empty()
    } else {
        let earlier = distinct_texts(spans.drop_last());
        if earlier.contains(spans.last().text) {
            earlier
        } else {
            earlier.push(spans.last().text)
        }
    }
}

/// The spans whose copied text is `text`, in the order they come in.
pub open spec fn occurrences_of(spans: Seq<SpanModel>, text: Seq<char>) -> Seq<SpanModel> {
    spans.filter(|s: SpanModel| s.text == text)
}

/// The alphabet used to build hints.
pub fn hint_alphabet() -> (letters: Vec<char>)
    ensures
        letters@ == alphabet(),
{
    let letters = vec![
        'a', 's', 'd', 'f', 'g', 'h', 'j', 'k', 'l',
        'q', 'w', 'e', 'r', 't', 'y', 'u', 'i', 'o', 'p',
        'z', 'x', 'c', 'v', 'b', 'n', 'm',
    ];
    assert(letters@ =~= alphabet());
    letters
}

/// Determines the appropriate hint width based on the number of unique match texts.
pub fn hint_width(unique_match_count: usize) -> (width: usize)
    ensures
        width == width_for(unique_match_count as int),
{
    let alphabet_len = hint_alphabet().len();
    if unique_match_count <= alphabet_len {
        1
    } else {
        MAX_HINT_WIDTH
    }
}

/// Generates hints based on the specified width. For width 1, it generates single-character hints
/// from the alphabet. For width 2, it generates all possible two-character combinations from the
/// alphabet. Other widths are not supported and yield no hints.
pub fn generate_hints(width: usize) -> (hints: Vec<String>)
    ensures
        hints@.map_values(|h: String| h@) == hints_of_width(width as int),
{
    let letters = hint_alphabet();
    let k = letters.len();
    let mut hints: Vec<String> = Vec::new();
    if width == 1 {
        let mut i: usize = 0;
        while i < k
            invariant
                letters@ == alphabet(),
                k == 26,
                i <= k,
                hints@.len() == i,
                forall|m: int| 0 <= m < i ==> #[trigger] hints@[m]@ == hints_of_width(1)[m],
            decreases k - i,
        {
            let mut cs: Vec<char> = Vec::new();
            cs.push(letters[i]);
            let h = string_from_chars(&cs);
            assert(h@ =~= hints_of_width(1)[i as int]);
            hints.push(h);
            i = i + 1;
        }
        assert(hints@.map_values(|h: String| h@) =~= hints_of_width(1));
    } else if width == 2 {
        let mut i: usize = 0;
        while i < k
            invariant
                letters@ == alphabet(),
                k == 26,
                i <= k,
                hints@.len() == i * 26,
                forall|m: int| 0 <= m < i * 26 ==> #[trigger] hints@[m]@ == hints_of_width(2)[m],
            decreases k - i,
        {
            let mut j: usize = 0;
            while j < k
                invariant
                    letters@ == alphabet(),
                    k == 26,
                    i < k,
                    j <= k,
                    hints@.len() == i * 26 + j,
                    forall|m: int|
                        0 <= m < i * 26 + j ==> #[trigger] hints@[m]@ == hints_of_width(2)[m],
                decreases k - j,
            {
                let mut cs: Vec<char> = Vec::new();
                cs.push(letters[i]);
                cs.push(letters[j]);
                let h = string_from_chars(&cs);
                hints.push(h);
                proof {
                    let idx = i * 26 + j;
                    assert(idx / 26 == i as int) by (nonlinear_arith)
                        requires
                            idx == i * 26 + j,
                            0 <= j < 26,
                    ;
                    assert(idx % 26 == j as int) by (nonlinear_arith)
                        requires
                            idx == i * 26 + j,
                            0 <= j < 26,
                    ;
                    assert(idx < 676) by (nonlinear_arith)
                        requires
                            idx == i * 26 + j,
                            0 <= j < 26,
                            0 <= i < 26,
                    ;
                    assert(h@ =~= hints_of_width(2)[idx]);
                }
                j = j + 1;
            }
            i = i + 1;
        }
        assert(hints@.map_values(|h: String| h@) =~= hints_of_width(2));
    } else {
        assert(hints@.map_values(|h: String| h@) =~= hints_of_width(width as int));
    }
    hints
}

/// Views of a sequence of matches.
pub open spec fn span_models(spans: Seq<MatchSpan>) -> Seq<SpanModel> {
    spans.map_values(|s: MatchSpan| s@)
}

/// The assignment of hints to the matches `spans`: the i-th distinct copied
/// text (in first-visible order) receives the i-th hint of the width that
/// the number of distinct texts calls for, together with all of its
/// occurrences; texts beyond the supply of hints receive none.
pub open spec fn assignments_for(spans: Seq<SpanModel>) -> Seq<AssignmentModel> {
    let texts = distinct_texts(spans);
    let hints = hints_of_width(width_for(texts.len() as int));
    let n = if texts.len() <= hints.len() {
        texts.len()
    } else {
        hints.len()
    };
    Seq::new(
        n,
        |i: int|
            AssignmentModel {
                hint: hints[i],
                text: texts[i],
                occurrences: occurrences_of(spans, texts[i]),
            },
    )
}

/// Index of the first entry of `texts` equal to `text`, if any.
fn position_of(texts: &Vec<String>, text: &String) -> (pos: Option<usize>)
    ensures
        match pos {
            Some(j) => j < texts@.len() && texts@[j as int]@ == text@,
            None => forall|m: int| 0 <= m < texts@.len() ==> #[trigger] texts@[m]@ != text@,
        },
{
    let mut j: usize = 0;
    while j < texts.len()
        invariant
            j <= texts@.len(),
            forall|m: int| 0 <= m < j ==> texts@[m]@ != text@,
        decreases texts@.len() - j,
    {
        if texts[j] == *text {
            return Some(j);
        }
        j = j + 1;
    }
    None
}

/// Distinct copied texts of `matches`, in order of first occurrence.
fn collect_distinct_texts(matches: &Vec<MatchSpan>) -> (texts: Vec<String>)
    ensures
        texts@.map_values(|t: String| t@) == distinct_texts(span_models(matches@)),
{
    let ghost spans = span_models(matches@);
    let mut texts: Vec<String> = Vec::new();
    let mut i: usize = 0;
    while i < matches.len()
        invariant
            spans == span_models(matches@),
            i <= matches@.len(),
            texts@.map_values(|t: String| t@) == distinct_texts(spans.take(i as int)),
        decreases matches@.len() - i,
    {
        assert(spans.take(i + 1).drop_last() =~= spans.take(i as int));
        assert(spans.take(i + 1).last() == matches@[i as int]@);
        let found = position_of(&texts, &matches[i].text);
        if found.is_none() {
            let ghost before = texts@;
            let ghost bv = before.map_values(|t: String| t@);
            assert(!bv.contains(matches@[i as int].text@)) by {
                if bv.contains(matches@[i as int].text@) {
                    let m = choose|m: int| 0 <= m < bv.len() && bv[m] == matches@[i as int].text@;
                    assert(before[m]@ == matches@[i as int].text@);
                }
            }
            texts.push(matches[i].text.clone());
            assert(texts@.map_values(|t: String| t@) =~= before.map_values(|t: String| t@).push(
                matches@[i as int].text@,
            ));
        } else {
            let j = found.unwrap();
            assert(texts@.map_values(|t: String| t@)[j as int] == matches@[i as int].text@);
        }
        i = i + 1;
    }
    assert(spans.take(matches@.len() as int) =~= spans);
    texts
}

/// All matches whose copied text is `text`, in the order they come in.
fn collect_occurrences(matches: &Vec<MatchSpan>, text: &String) -> (occ: Vec<MatchSpan>)
    ensures
        span_models(occ@) == occurrences_of(span_models(matches@), text@),
{
    let ghost spans = span_models(matches@);
    let ghost pred = |s: SpanModel| s.text == text@;
    let mut occ: Vec<MatchSpan> = Vec::new();
    let mut i: usize = 0;
    while i < matches.len()
        invariant
            spans == span_models(matches@),
            pred == (|s: SpanModel| s.text == text@),
            i <= matches@.len(),
            span_models(occ@) == spans.take(i as int).filter(pred),
        decreases matches@.len() - i,
    {
        proof {
            reveal_with_fuel(Seq::<SpanModel>::filter, 1);
            assert(spans.take(i + 1).drop_last() =~= spans.take(i as int));
            assert(spans.take(i + 1).last() == matches@[i as int]@);
        }
        let ghost before = occ@;
        if matches[i].text == *text {
            occ.push(matches[i].duplicate());
            assert(span_models(occ@) =~= span_models(before).push(matches@[i as int]@));
        }
        i = i + 1;
    }
    assert(spans.take(matches@.len() as int) =~= spans);
    occ
}

/// Assigns hints to the given matches: each distinct copied text, taken in
/// first-visible order, receives one hint shared by all of its occurrences.
/// Texts beyond the two-letter hint supply are silently left out.
pub fn assign_hints(matches: Vec<MatchSpan>) -> (assignments: Vec<HintAssignment>)
    ensures
        assignments@.map_values(|a: HintAssignment| a@) == assignments_for(span_models(matches@)),
{
    let texts = collect_distinct_texts(&matches);
    let width = hint_width(texts.len());
    let hints = generate_hints(width);
    let n = if texts.len() <= hints.len() {
        texts.len()
    } else {
        hints.len()
    };
    let ghost spec_texts = distinct_texts(span_models(matches@));
    let ghost spec_hints = hints_of_width(width as int);
    let ghost target = assignments_for(span_models(matches@));
    assert(target.len() == n);
    let mut assignments: Vec<HintAssignment> = Vec::new();
    let mut i: usize = 0;
    while i < n
        invariant
            n <= texts@.len(),
            n <= hints@.len(),
            texts@.map_values(|t: String| t@) == spec_texts,
            hints@.map_values(|h: String| h@) == spec_hints,
            spec_texts == distinct_texts(span_models(matches@)),
            spec_hints == hints_of_width(width_for(spec_texts.len() as int)),
            target == assignments_for(span_models(matches@)),
            target.len() == n,
            i <= n,
            assignments@.len() == i,
            forall|m: int| 0 <= m < i ==> #[trigger] assignments@[m]@ == target[m],
        decreases n - i,
    {
        let occurrences = collect_occurrences(&matches, &texts[i]);
        let a = HintAssignment {
            hint: hints[i].clone(),
            text: texts[i].clone(),
            occurrences,
        };
        assert(texts@.map_values(|t: String| t@)[i as int] == texts@[i as int]@);
        assert(hints@.map_values(|h: String| h@)[i as int] == hints@[i as int]@);
        assert(a@.occurrences =~= target[i as int].occurrences);
        assert(a@ == target[i as int]);
        assignments.push(a);
        i = i + 1;
    }
    assert(assignments@.map_values(|a: HintAssignment| a@) =~= target);
    assignments
}

/// Facts about [`distinct_texts`]: no text twice, every span's text
/// present, every text some span's, and texts in order of first occurrence.
pub proof fn lemma_distinct_texts(spans: Seq<SpanModel>)
    ensures
        forall|i: int, j: int|
            0 <= i < j < distinct_texts(spans).len() ==> #[trigger] distinct_texts(spans)[i]
                != #[trigger] distinct_texts(spans)[j],
        forall|p: int| 0 <= p < spans.len() ==> distinct_texts(spans).contains(#[trigger] spans[p].text),
        forall|i: int|
            0 <= i < distinct_texts(spans).len() ==> exists|p: int|
                0 <= p < spans.len() && #[trigger] spans[p].text == #[trigger] distinct_texts(spans)[i],
        forall|i: int, j: int|
            #![trigger distinct_texts(spans)[i], distinct_texts(spans)[j]]
            0 <= i < j < distinct_texts(spans).len() ==> exists|p: int|
                0 <= p < spans.len() && #[trigger] spans[p].text == distinct_texts(spans)[i] && forall|
                    q: int,
                | 0 <= q <= p ==> #[trigger] spans[q].text != distinct_texts(spans)[j],
    decreases spans.len(),
{
    if spans.len() > 0 {
        let prefix = spans.drop_last();
        let earlier = distinct_texts(prefix);
        let t = spans.last().text;
        let d = distinct_texts(spans);
        lemma_distinct_texts(prefix);
        assert(d == if earlier.contains(t) { earlier } else { earlier.push(t) });
        assert forall|i: int| 0 <= i < earlier.len() implies #[trigger] d[i] == earlier[i] by {}
        assert forall|p: int| 0 <= p < spans.len() implies d.contains(#[trigger] spans[p].text) by {
            if p < prefix.len() {
                assert(spans[p] == prefix[p]);
                assert(earlier.contains(prefix[p].text));
                let k = choose|k: int| 0 <= k < earlier.len() && earlier[k] == prefix[p].text;
                assert(d[k] == earlier[k]);
            } else if earlier.contains(t) {
            } else {
                assert(d[earlier.len() as int] == t);
            }
        }
        assert forall|i: int| 0 <= i < d.len() implies exists|p: int|
            0 <= p < spans.len() && #[trigger] spans[p].text == #[trigger] d[i] by {
            if i < earlier.len() {
                let p = choose|p: int| 0 <= p < prefix.len() && #[trigger] prefix[p].text == earlier[i];
                assert(spans[p] == prefix[p]);
            } else {
                assert(spans[spans.len() - 1].text == d[i]);
            }
        }
        assert forall|i: int, j: int| 0 <= i < j < d.len() implies #[trigger] d[i] != #[trigger] d[j] by {
            if j >= earlier.len() {
                assert(d[j] == t);
                assert(!earlier.contains(t));
                assert(d[i] == earlier[i]);
            }
        }
        assert forall|i: int, j: int|
            #![trigger d[i], d[j]]
            0 <= i < j < d.len() implies exists|p: int|
                0 <= p < spans.len() && #[trigger] spans[p].text == d[i] && forall|q: int|
                    0 <= q <= p ==> #[trigger] spans[q].text != d[j] by {
            if j < earlier.len() {
                let p = choose|p: int|
                    0 <= p < prefix.len() && #[trigger] prefix[p].text == earlier[i] && forall|q: int|
                        0 <= q <= p ==> #[trigger] prefix[q].text != earlier[j];
                assert(spans[p] == prefix[p]);
                assert forall|q: int| 0 <= q <= p implies #[trigger] spans[q].text != d[j] by {
                    assert(spans[q] == prefix[q]);
                }
            } else {
                assert(d[j] == t);
                assert(!earlier.contains(t));
                let p = choose|p: int| 0 <= p < prefix.len() && #[trigger] prefix[p].text == earlier[i];
                assert(spans[p] == prefix[p]);
                assert forall|q: int| 0 <= q <= p implies #[trigger] spans[q].text != d[j] by {
                    assert(spans[q] == prefix[q]);
                    assert(earlier.contains(prefix[q].text));
                }
            }
        }
    }
}

/// Hints of width 1 or 2 are pairwise distinct and all of that width.
pub proof fn law_hints_distinct(width: int)
    ensures
        forall|i: int|
            0 <= i < hints_of_width(width).len() ==> (#[trigger] hints_of_width(width)[i]).len()
                == width,
        forall|i: int, j: int|
            0 <= i < j < hints_of_width(width).len() ==> #[trigger] hints_of_width(width)[i]
                != #[trigger] hints_of_width(width)[j],
{
    let a = alphabet();
    assert(a.len() == 26);
    assert(hints_of_width(2).len() == 676);
    assert forall|x: int, y: int| 0 <= x < y < 26 implies #[trigger] a[x] != #[trigger] a[y] by {}
    let hs = hints_of_width(width);
    if width == 2 {
        assert forall|i: int, j: int| 0 <= i < j < hs.len() implies #[trigger] hs[i] != #[trigger] hs[j] by {
            assert(hs[i][0] == a[i / 26] && hs[i][1] == a[i % 26]);
            assert(hs[j][0] == a[j / 26] && hs[j][1] == a[j % 26]);
            assert(0 <= i / 26 < 26 && 0 <= i % 26 < 26) by (nonlinear_arith)
                requires
                    0 <= i < 676,
            ;
            assert(0 <= j / 26 < 26 && 0 <= j % 26 < 26) by (nonlinear_arith)
                requires
                    0 <= j < 676,
            ;
            assert(i / 26 != j / 26 || i % 26 != j % 26) by (nonlinear_arith)
                requires
                    0 <= i < j,
            ;
        }
    } else if width == 1 {
        assert forall|i: int, j: int| 0 <= i < j < hs.len() implies #[trigger] hs[i] != #[trigger] hs[j] by {
            assert(hs[i][0] == a[i] && hs[j][0] == a[j]);
        }
    }
}

/// One hint per copied text: the assigned texts are pairwise distinct, as
/// are their hints, and every hint has the width the text count calls for.
pub proof fn law_one_hint_per_text(spans: Seq<SpanModel>)
    ensures
        forall|i: int, j: int|
            0 <= i < j < assignments_for(spans).len() ==> (#[trigger] assignments_for(spans)[i]).text
                != (#[trigger] assignments_for(spans)[j]).text && assignments_for(spans)[i].hint
                != assignments_for(spans)[j].hint,
        forall|i: int|
            0 <= i < assignments_for(spans).len() ==> (#[trigger] assignments_for(spans)[i]).hint.len()
                == width_for(distinct_texts(spans).len() as int),
{
    lemma_distinct_texts(spans);
    law_hints_distinct(width_for(distinct_texts(spans).len() as int));
}

/// Duplicates share their hint: each assignment holds exactly the matches
/// whose copied text is its text, and every match's text is assigned unless
/// the hint supply ran out.
pub proof fn law_duplicates_share_hint(spans: Seq<SpanModel>)
    ensures
        forall|i: int, k: int|
            0 <= i < assignments_for(spans).len() && 0 <= k < assignments_for(spans)[i].occurrences.len()
                ==> (#[trigger] assignments_for(spans)[i].occurrences[k]).text == assignments_for(
                spans,
            )[i].text,
        forall|i: int, p: int|
            0 <= i < assignments_for(spans).len() && 0 <= p < spans.len() && (#[trigger] spans[p]).text
                == (#[trigger] assignments_for(spans)[i]).text ==> assignments_for(spans)[i].occurrences.contains(
                spans[p],
            ),
        distinct_texts(spans).len() <= 676 ==> forall|p: int|
            0 <= p < spans.len() ==> exists|i: int|
                0 <= i < assignments_for(spans).len() && #[trigger] assignments_for(spans)[i].text
                    == (#[trigger] spans[p]).text,
{
    broadcast use Seq::lemma_filter_pred, Seq::lemma_filter_contains;

    lemma_distinct_texts(spans);
    let d = distinct_texts(spans);
    let a = assignments_for(spans);
    assert forall|i: int, k: int| 0 <= i < a.len() && 0 <= k < a[i].occurrences.len() implies (
    #[trigger] a[i].occurrences[k]).text == a[i].text by {
        let pred = |s: SpanModel| s.text == d[i];
        assert(a[i].occurrences == spans.filter(pred));
        assert(pred(spans.filter(pred)[k]));
    }
    assert forall|i: int, p: int|
        0 <= i < a.len() && 0 <= p < spans.len() && (#[trigger] spans[p]).text == (
        #[trigger] a[i]).text implies a[i].occurrences.contains(spans[p]) by {
        let pred = |s: SpanModel| s.text == d[i];
        assert(pred(spans[p]));
        assert(spans.filter(pred).contains(spans[p]));
    }
    if d.len() <= 676 {
        assert(alphabet().len() == 26);
        assert(hints_of_width(1).len() == 26);
        assert(hints_of_width(2).len() == 676);
        assert(a.len() == d.len());
        assert forall|p: int| 0 <= p < spans.len() implies exists|i: int|
            0 <= i < a.len() && #[trigger] a[i].text == (#[trigger] spans[p]).text by {
            assert(d.contains(spans[p].text));
            let i = choose|i: int| 0 <= i < d.len() && d[i] == spans[p].text;
            assert(a[i].text == d[i]);
        }
    }
}

/// Hints follow first-visible order: an earlier assignment's text occurs in
/// the matches before any occurrence of a later assignment's text.
pub proof fn law_first_visible_order(spans: Seq<SpanModel>)
    ensures
        forall|i: int, j: int|
            #![trigger assignments_for(spans)[i], assignments_for(spans)[j]]
            0 <= i < j < assignments_for(spans).len() ==> exists|p: int|
                0 <= p < spans.len() && #[trigger] spans[p].text == assignments_for(spans)[i].text
                    && forall|q: int| 0 <= q <= p ==> #[trigger] spans[q].text != assignments_for(spans)[j].text,
{
    lemma_distinct_texts(spans);
    let d = distinct_texts(spans);
    let a = assignments_for(spans);
    assert forall|i: int, j: int|
        #![trigger a[i], a[j]]
        0 <= i < j < a.len() implies exists|p: int|
            0 <= p < spans.len() && #[trigger] spans[p].text == a[i].text && forall|q: int|
                0 <= q <= p ==> #[trigger] spans[q].text != a[j].text by {
        assert(a[i].text == d[i] && a[j].text == d[j]);
    }
}

} // verus!
