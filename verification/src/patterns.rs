//! Pattern engine: runs regex patterns over unwrapped logical lines, resolves
//! overlapping candidates by priority, length and position, and returns the
//! accepted occurrences in visible order.

use crate::hints::span_models;
use crate::model::{MatchSpan, PatternSpec, SpanModel};
use vstd::prelude::*;
use vstd::utf8::encode_utf8;

verus! {

/// The successive non-overlapping matches of the regular expression `pattern`
/// in `haystack`, as the regex crate's `captures_iter` reports them: for
/// each, the UTF-8 byte range and text of the whole match, and those of the
/// group named `group` where that group took part in the match; `None` when
/// the regex crate does not accept `pattern`.
pub uninterp spec fn regex_captures(pattern: Seq<char>, haystack: Seq<char>, group: Seq<char>) -> Option<
    Seq<((int, int, Seq<char>), Option<(int, int, Seq<char>)>)>,
>;

/// Whether a byte range and text are a piece of `haystack`: the range lies
/// within its UTF-8 bytes and the text is the bytes of that range.
pub open spec fn is_slice_of(haystack: Seq<char>, r: (int, int, Seq<char>)) -> bool {
    &&& 0 <= r.0 <= r.1 <= encode_utf8(haystack).len()
    &&& encode_utf8(r.2) == encode_utf8(haystack).subrange(r.0, r.1)
}

/// One match of a regex: the byte range and text of the whole match, and
/// those of a named group where it took part.
#[derive(Debug, PartialEq, Eq)]
pub struct RegexCapture {
    pub whole: (usize, usize, String),
    pub group: Option<(usize, usize, String)>,
}

/// View of a byte range and its text.
pub open spec fn range_model(r: (usize, usize, String)) -> (int, int, Seq<char>) {
    (r.0 as int, r.1 as int, r.2@)
}

/// View of a regex match.
pub open spec fn capture_model(c: RegexCapture) -> ((int, int, Seq<char>), Option<(int, int, Seq<char>)>) {
    (
        range_model(c.whole),
        match c.group {
            Some(g) => Some(range_model(g)),
            None => None,
        },
    )
}

/// Views of regex matches.
pub open spec fn capture_models(caps: Seq<RegexCapture>) -> Seq<
    ((int, int, Seq<char>), Option<(int, int, Seq<char>)>),
> {
    caps.map_values(|c: RegexCapture| capture_model(c))
}

/// Runs `regex::Regex::new(pattern)` and then `captures_iter(haystack)` on
/// the compiled regex, keeping for each match the byte range and text of
/// the whole match (`get_match`) and of the group named `group`
/// (`Captures::name`) where it took part. The contract claims exactly that
/// the result is [`regex_captures`] of the three arguments, and `None` when
/// compilation fails; and, as the regex crate documents of a `Match`, that
/// each range is a byte range of the haystack whose text is that substring.
#[verifier::external_body]
fn regex_capture_ranges(pattern: &str, haystack: &str, group: &str) -> (caps: Option<Vec<RegexCapture>>)
    ensures
        match caps {
            Some(v) => {
                &&& regex_captures(pattern@, haystack@, group@) == Some(capture_models(v@))
                &&& forall|i: int|
                    0 <= i < v@.len() ==> {
                        &&& is_slice_of(haystack@, #[trigger] capture_model(v@[i]).0)
                        &&& capture_model(v@[i]).1 matches Some(g) ==> is_slice_of(haystack@, g)
                    }
            },
            None => regex_captures(pattern@, haystack@, group@) is None,
        },
{
    let regex = regex::Regex::new(pattern).ok()?;
    let mut found = Vec::new();
    for captures in regex.captures_iter(haystack) {
        let whole = captures.get_match();
        found.push(RegexCapture {
            whole: (whole.start(), whole.end(), whole.as_str().to_string()),
            group: captures.name(group).map(|g| (g.start(), g.end(), g.as_str().to_string())),
        });
    }
    Some(found)
}

/// Name of the capture group that, where it takes part in a match, defines
/// the copied and highlighted substring.
pub open spec fn copy_group() -> Seq<char> {
    "match"@
}

/// The copied range of a match: its `match` group where that group took
/// part, else the whole match.
pub open spec fn copied(c: ((int, int, Seq<char>), Option<(int, int, Seq<char>)>)) -> (int, int, Seq<char>) {
    match c.1 {
        Some(g) => g,
        None => c.0,
    }
}

/// The copied range of a match: its `match` group where that group took
/// part, else the whole match.
pub fn copied_range(c: &RegexCapture) -> (r: (usize, usize, String))
    ensures
        range_model(r) == copied(capture_model(*c)),
{
    match &c.group {
        Some(g) => (g.0, g.1, g.2.clone()),
        None => (c.whole.0, c.whole.1, c.whole.2.clone()),
    }
}

/// Mathematical value of a [`PatternSpec`].
pub ghost struct PatternModel {
    pub name: Seq<char>,
    pub regex: Seq<char>,
    pub priority: int,
}

impl View for PatternSpec {
    type V = PatternModel;

    open spec fn view(&self) -> PatternModel {
        PatternModel { name: self.name@, regex: self.regex@, priority: self.priority as int }
    }
}

/// Candidate match occurrence with its pattern definition order for tie-breaking.
#[derive(Debug, Clone, PartialEq, Eq)]
pub struct MatchCandidate {
    pub span: MatchSpan,
    pub pattern_order: usize,
}

/// Mathematical value of a [`MatchCandidate`].
pub ghost struct CandidateModel {
    pub span: SpanModel,
    pub order: int,
}

impl View for MatchCandidate {
    type V = CandidateModel;

    open spec fn view(&self) -> CandidateModel {
        CandidateModel { span: self.span@, order: self.pattern_order as int }
    }
}

/// Views of a sequence of candidates.
pub open spec fn candidate_models(cands: Seq<MatchCandidate>) -> Seq<CandidateModel> {
    cands.map_values(|c: MatchCandidate| c@)
}

/// Views of a sequence of patterns.
pub open spec fn pattern_models(patterns: Seq<PatternSpec>) -> Seq<PatternModel> {
    patterns.map_values(|p: PatternSpec| p@)
}

/// Views of a sequence of lines.
pub open spec fn line_models(lines: Seq<String>) -> Seq<Seq<char>> {
    lines.map_values(|l: String| l@)
}

/// Whether a span is a piece of its logical line: the line exists, and the
/// span's text is the line's bytes in the span's byte range.
pub open spec fn span_in_lines(s: SpanModel, lines: Seq<Seq<char>>) -> bool {
    0 <= s.line < lines.len() && is_slice_of(lines[s.line], (s.start, s.end, s.text))
}

/// Whether a span was found by one of the patterns: it carries that
/// pattern's name and priority.
pub open spec fn named_by(s: SpanModel, patterns: Seq<PatternModel>) -> bool {
    exists|o: int| 0 <= o < patterns.len() && s.pattern == #[trigger] patterns[o].name && s.priority == patterns[o].priority
}

/// Candidates that pattern number `order` yields on logical line `line`.
pub open spec fn pattern_candidates(
    line: int,
    text: Seq<char>,
    order: int,
    pattern: PatternModel,
) -> Seq<CandidateModel> {
    match regex_captures(pattern.regex, text, copy_group()) {
        Some(caps) => caps.map_values(
            |c: ((int, int, Seq<char>), Option<(int, int, Seq<char>)>)|
                CandidateModel {
                    span: SpanModel {
                        line,
                        start: copied(c).0,
                        end: copied(c).1,
                        text: copied(c).2,
                        pattern: pattern.name,
                        priority: pattern.priority,
                    },
                    order,
                },
        ),
        None => Seq::empty(),
    }
}

/// Candidates of all patterns, in pattern order, on one logical line.
pub open spec fn line_candidates(line: int, text: Seq<char>, patterns: Seq<PatternModel>) -> Seq<
    CandidateModel,
> {
    Seq::new(patterns.len(), |o: int| pattern_candidates(line, text, o, patterns[o])).flatten_alt()
}

/// Candidates of all patterns on all lines, line by line.
pub open spec fn candidates_for(lines: Seq<Seq<char>>, patterns: Seq<PatternModel>) -> Seq<
    CandidateModel,
> {
    Seq::new(lines.len(), |l: int| line_candidates(l, lines[l], patterns)).flatten_alt()
}

/// Collects all candidate matches for all patterns with their pattern definition order for tie-breaking.
fn collect_candidates(lines: &[String], patterns: &[PatternSpec]) -> (cands: Vec<MatchCandidate>)
    ensures
        candidate_models(cands@) == candidates_for(line_models(lines@), pattern_models(patterns@)),
        forall|i: int|
            0 <= i < cands@.len() ==> span_in_lines(#[trigger] cands@[i]@.span, line_models(lines@))
                && named_by(cands@[i]@.span, pattern_models(patterns@)),
{
    let ghost ls = line_models(lines@);
    let ghost ps = pattern_models(patterns@);
    let mut cands: Vec<MatchCandidate> = Vec::new();
    let mut l: usize = 0;
    while l < lines.len()
        invariant
            ls == line_models(lines@),
            ps == pattern_models(patterns@),
            l <= lines@.len(),
            candidate_models(cands@) == Seq::new(
                l as nat,
                |i: int| line_candidates(i, ls[i], ps),
            ).flatten_alt(),
            forall|i: int| 0 <= i < cands@.len() ==> span_in_lines(#[trigger] cands@[i]@.span, ls) && named_by(cands@[i]@.span, ps),
        decreases lines@.len() - l,
    {
        let ghost before_line = candidate_models(cands@);
        let mut o: usize = 0;
        while o < patterns.len()
            invariant
                ls == line_models(lines@),
                ps == pattern_models(patterns@),
                l < lines@.len(),
                o <= patterns@.len(),
                candidate_models(cands@) == before_line + Seq::new(
                    o as nat,
                    |j: int| pattern_candidates(l as int, ls[l as int], j, ps[j]),
                ).flatten_alt(),
                forall|i: int| 0 <= i < cands@.len() ==> span_in_lines(#[trigger] cands@[i]@.span, ls) && named_by(cands@[i]@.span, ps),
            decreases patterns@.len() - o,
        {
            let ghost before_pattern = candidate_models(cands@);
            let ghost p = ps[o as int];
            assert(p == patterns@[o as int]@);
            assert(ls[l as int] == lines@[l as int]@);
            let group = "match";
            assert(group@ == copy_group());
            let found = regex_capture_ranges(patterns[o].regex.as_str(), lines[l].as_str(), group);
            let ghost produced = pattern_candidates(l as int, ls[l as int], o as int, p);
            if let Some(caps) = found {
                let mut c: usize = 0;
                while c < caps.len()
                    invariant
                        l < lines@.len(),
                        o < patterns@.len(),
                        p == patterns@[o as int]@,
                        regex_captures(p.regex, ls[l as int], copy_group()) == Some(
                            capture_models(caps@),
                        ),
                        produced == pattern_candidates(l as int, ls[l as int], o as int, p),
                        ps == pattern_models(patterns@),
                        c <= caps@.len(),
                        candidate_models(cands@) == before_pattern + produced.take(c as int),
                        ls == line_models(lines@),
                        forall|i: int| 0 <= i < cands@.len() ==> span_in_lines(#[trigger] cands@[i]@.span, ls) && named_by(cands@[i]@.span, ps),
                        forall|i: int|
                            0 <= i < caps@.len() ==> {
                                &&& is_slice_of(ls[l as int], #[trigger] capture_model(caps@[i]).0)
                                &&& capture_model(caps@[i]).1 matches Some(g) ==> is_slice_of(
                                    ls[l as int],
                                    g,
                                )
                            },
                    decreases caps@.len() - c,
                {
                    let range = copied_range(&caps[c]);
                    assert(capture_models(caps@)[c as int] == capture_model(caps@[c as int]));
                    assert(is_slice_of(ls[l as int], copied(capture_model(caps@[c as int]))));
                    let cand = MatchCandidate {
                        span: MatchSpan {
                            line: l,
                            start: range.0,
                            end: range.1,
                            text: range.2,
                            pattern: patterns[o].name.clone(),
                            priority: patterns[o].priority,
                        },
                        pattern_order: o,
                    };
                    assert(cand@.span.pattern == ps[o as int].name && cand@.span.priority == ps[o as int].priority);
                    let ghost prev = cands@;
                    cands.push(cand);
                    assert(candidate_models(cands@) =~= candidate_models(prev).push(cand@));
                    assert(produced.take(c + 1) =~= produced.take(c as int).push(produced[c as int]));
                    c = c + 1;
                }
                assert(produced.take(caps@.len() as int) =~= produced);
            } else {
                assert(produced =~= Seq::<CandidateModel>::empty());
            }
            let ghost step = Seq::new(
                (o + 1) as nat,
                |j: int| pattern_candidates(l as int, ls[l as int], j, ps[j]),
            );
            assert(step.drop_last() =~= Seq::new(
                o as nat,
                |j: int| pattern_candidates(l as int, ls[l as int], j, ps[j]),
            ));
            o = o + 1;
        }
        let ghost lines_step = Seq::new((l + 1) as nat, |i: int| line_candidates(i, ls[i], ps));
        assert(lines_step.drop_last() =~= Seq::new(
            l as nat,
            |i: int| line_candidates(i, ls[i], ps),
        ));
        assert(Seq::new(
            patterns@.len(),
            |j: int| pattern_candidates(l as int, ls[l as int], j, ps[j]),
        ) =~= Seq::new(ps.len(), |j: int| pattern_candidates(l as int, ls[l as int], j, ps[j])));
        l = l + 1;
    }
    assert(Seq::new(lines@.len(), |i: int| line_candidates(i, ls[i], ps)) =~= Seq::new(
        ls.len(),
        |i: int| line_candidates(i, ls[i], ps),
    ));
    cands
}

/// Index at which a stable insertion places `x` into `sorted`: just before
/// the first element that `le` does not put at or before `x`.
pub open spec fn insertion_point<A>(sorted: Seq<A>, x: A, le: spec_fn(A, A) -> bool) -> int
    decreases sorted.len(),
{
    if sorted.len() == 0 || !le(sorted[0], x) {
        0
    } else {
        1 + insertion_point(sorted.drop_first(), x, le)
    }
}

/// `s` stably sorted by `le`: each element, taken in order, is inserted
/// after every element already placed that `le` puts at or before it.
pub open spec fn stable_sort<A>(s: Seq<A>, le: spec_fn(A, A) -> bool) -> Seq<A>
    decreases s.len(),
{
    if s.len() == 0 {
        s
    } else {
        let sorted = stable_sort(s.drop_last(), le);
        sorted.insert(insertion_point(sorted, s.last(), le), s.last())
    }
}

/// An insertion point reached by scanning from the front.
proof fn lemma_insertion_point<A>(sorted: Seq<A>, x: A, le: spec_fn(A, A) -> bool, k: int)
    requires
        0 <= k <= sorted.len(),
        forall|m: int| 0 <= m < k ==> le(#[trigger] sorted[m], x),
        k == sorted.len() || !le(sorted[k], x),
    ensures
        insertion_point(sorted, x, le) == k,
    decreases k,
{
    if k > 0 {
        assert(le(sorted[0], x));
        lemma_insertion_point(sorted.drop_first(), x, le, k - 1);
    }
}

/// Acceptance order between candidates: lower priority number first, then
/// the longer byte range, then the earlier line, start and end, then the
/// earlier pattern definition.
pub open spec fn accept_le(a: CandidateModel, b: CandidateModel) -> bool {
    if a.span.priority != b.span.priority {
        a.span.priority < b.span.priority
    } else if a.span.len_bytes() != b.span.len_bytes() {
        a.span.len_bytes() > b.span.len_bytes()
    } else if a.span.line != b.span.line {
        a.span.line < b.span.line
    } else if a.span.start != b.span.start {
        a.span.start < b.span.start
    } else if a.span.end != b.span.end {
        a.span.end < b.span.end
    } else {
        a.order <= b.order
    }
}

/// Visible order between spans: by line, then start, then end.
pub open spec fn position_le(a: SpanModel, b: SpanModel) -> bool {
    if a.line != b.line {
        a.line < b.line
    } else if a.start != b.start {
        a.start < b.start
    } else {
        a.end <= b.end
    }
}

/// Greedy acceptance over candidates taken in order: a candidate's span is
/// accepted unless it overlaps a span accepted before it.
pub open spec fn greedy_accept(ordered: Seq<CandidateModel>) -> Seq<SpanModel>
    decreases ordered.len(),
{
    if ordered.len() == 0 {
        Seq::empty()
    } else {
        let accepted = greedy_accept(ordered.drop_last());
        let next = ordered.last().span;
        if forall|i: int| 0 <= i < accepted.len() ==> !(#[trigger] accepted[i]).overlaps(next) {
            accepted.push(next)
        } else {
            accepted
        }
    }
}

/// Whether `a` comes no later than `b` in acceptance order.
fn accept_le_exec(a: &MatchCandidate, b: &MatchCandidate) -> (r: bool)
    ensures
        r == accept_le(a@, b@),
{
    let la = a.span.len_bytes();
    let lb = b.span.len_bytes();
    if a.span.priority != b.span.priority {
        a.span.priority < b.span.priority
    } else if la != lb {
        la > lb
    } else if a.span.line != b.span.line {
        a.span.line < b.span.line
    } else if a.span.start != b.span.start {
        a.span.start < b.span.start
    } else if a.span.end != b.span.end {
        a.span.end < b.span.end
    } else {
        a.pattern_order <= b.pattern_order
    }
}

/// Whether `a` comes no later than `b` in visible order.
fn position_le_exec(a: &MatchSpan, b: &MatchSpan) -> (r: bool)
    ensures
        r == position_le(a@, b@),
{
    if a.line != b.line {
        a.line < b.line
    } else if a.start != b.start {
        a.start < b.start
    } else {
        a.end <= b.end
    }
}

/// Candidates stably sorted into acceptance order.
fn sort_for_acceptance(cands: &Vec<MatchCandidate>) -> (sorted: Vec<MatchCandidate>)
    ensures
        candidate_models(sorted@) == stable_sort(
            candidate_models(cands@),
            |a: CandidateModel, b: CandidateModel| accept_le(a, b),
        ),
{
    let ghost le = |a: CandidateModel, b: CandidateModel| accept_le(a, b);
    let ghost models = candidate_models(cands@);
    let mut sorted: Vec<MatchCandidate> = Vec::new();
    let mut i: usize = 0;
    while i < cands.len()
        invariant
            le == (|a: CandidateModel, b: CandidateModel| accept_le(a, b)),
            models == candidate_models(cands@),
            i <= cands@.len(),
            candidate_models(sorted@) == stable_sort(models.take(i as int), le),
        decreases cands@.len() - i,
    {
        let x = MatchCandidate { span: cands[i].span.duplicate(), pattern_order: cands[i].pattern_order };
        let mut k: usize = 0;
        while k < sorted.len() && accept_le_exec(&sorted[k], &x)
            invariant
                k <= sorted@.len(),
                forall|m: int| 0 <= m < k ==> accept_le(#[trigger] sorted@[m]@, x@),
            decreases sorted@.len() - k,
        {
            k = k + 1;
        }
        proof {
            let sm = candidate_models(sorted@);
            assert forall|m: int| 0 <= m < k implies le(#[trigger] sm[m], x@) by {
                assert(sm[m] == sorted@[m]@);
            }
            lemma_insertion_point(sm, x@, le, k as int);
            assert(models.take(i + 1).drop_last() =~= models.take(i as int));
            assert(models.take(i + 1).last() == x@);
        }
        let ghost prev = sorted@;
        sorted.insert(k, x);
        assert(candidate_models(sorted@) =~= candidate_models(prev).insert(k as int, x@));
        i = i + 1;
    }
    assert(models.take(cands@.len() as int) =~= models);
    sorted
}

/// Spans stably sorted into visible order.
fn sort_by_position(spans: &Vec<MatchSpan>) -> (sorted: Vec<MatchSpan>)
    ensures
        span_models(sorted@) == stable_sort(
            span_models(spans@),
            |a: SpanModel, b: SpanModel| position_le(a, b),
        ),
{
    let ghost le = |a: SpanModel, b: SpanModel| position_le(a, b);
    let ghost models = span_models(spans@);
    let mut sorted: Vec<MatchSpan> = Vec::new();
    let mut i: usize = 0;
    while i < spans.len()
        invariant
            le == (|a: SpanModel, b: SpanModel| position_le(a, b)),
            models == span_models(spans@),
            i <= spans@.len(),
            span_models(sorted@) == stable_sort(models.take(i as int), le),
        decreases spans@.len() - i,
    {
        let x = spans[i].duplicate();
        let mut k: usize = 0;
        while k < sorted.len() && position_le_exec(&sorted[k], &x)
            invariant
                k <= sorted@.len(),
                forall|m: int| 0 <= m < k ==> position_le(#[trigger] sorted@[m]@, x@),
            decreases sorted@.len() - k,
        {
            k = k + 1;
        }
        proof {
            let sm = span_models(sorted@);
            assert forall|m: int| 0 <= m < k implies le(#[trigger] sm[m], x@) by {
                assert(sm[m] == sorted@[m]@);
            }
            lemma_insertion_point(sm, x@, le, k as int);
            assert(models.take(i + 1).drop_last() =~= models.take(i as int));
            assert(models.take(i + 1).last() == x@);
        }
        let ghost prev = sorted@;
        sorted.insert(k, x);
        assert(span_models(sorted@) =~= span_models(prev).insert(
            k as int,
            x@,
        ));
        i = i + 1;
    }
    assert(models.take(spans@.len() as int) =~= models);
    sorted
}

/// The accepted spans of `cands`: greedy acceptance over the candidates in
/// acceptance order.
pub open spec fn accepted_spans(cands: Seq<CandidateModel>) -> Seq<SpanModel> {
    greedy_accept(stable_sort(cands, |a: CandidateModel, b: CandidateModel| accept_le(a, b)))
}

/// The matches reported for `lines` under `patterns`: the accepted spans of
/// all candidates, in visible order.
pub open spec fn matches_for(lines: Seq<Seq<char>>, patterns: Seq<PatternModel>) -> Seq<SpanModel> {
    stable_sort(
        accepted_spans(candidates_for(lines, patterns)),
        |a: SpanModel, b: SpanModel| position_le(a, b),
    )
}

/// Resolves overlapping candidates by acceptance order, where lower priority
/// numbers come first, then longer byte ranges, then earlier positions, then
/// earlier pattern definitions; a candidate is accepted unless it overlaps one
/// accepted before it. The accepted spans are returned in acceptance order.
pub fn resolve_overlaps(candidates: Vec<MatchCandidate>) -> (accepted: Vec<MatchSpan>)
    ensures
        span_models(accepted@) == accepted_spans(candidate_models(candidates@)),
{
    let ordered = sort_for_acceptance(&candidates);
    let ghost om = candidate_models(ordered@);
    let mut accepted: Vec<MatchSpan> = Vec::new();
    let mut i: usize = 0;
    while i < ordered.len()
        invariant
            om == candidate_models(ordered@),
            i <= ordered@.len(),
            span_models(accepted@) == greedy_accept(om.take(i as int)),
        decreases ordered@.len() - i,
    {
        let next = &ordered[i].span;
        let mut j: usize = 0;
        let mut clear = true;
        while j < accepted.len()
            invariant
                j <= accepted@.len(),
                clear <==> forall|m: int| 0 <= m < j ==> !(#[trigger] accepted@[m]@).overlaps(
                    next@,
                ),
            decreases accepted@.len() - j,
        {
            if accepted[j].overlaps(next) {
                clear = false;
            }
            j = j + 1;
        }
        proof {
            assert(om.take(i + 1).drop_last() =~= om.take(i as int));
            assert(om.take(i + 1).last().span == next@);
            let am = span_models(accepted@);
            assert(clear <==> forall|m: int| 0 <= m < am.len() ==> !(#[trigger] am[m]).overlaps(next@)) by {
                if !clear {
                    let m = choose|m: int| 0 <= m < j && (#[trigger] accepted@[m]@).overlaps(next@);
                    assert(am[m] == accepted@[m]@);
                }
                if clear {
                    assert forall|m: int| 0 <= m < am.len() implies !(#[trigger] am[m]).overlaps(next@) by {
                        assert(am[m] == accepted@[m]@);
                    }
                }
            }
        }
        if clear {
            let ghost prev = accepted@;
            accepted.push(next.duplicate());
            assert(span_models(accepted@) =~= span_models(prev).push(next@));
        }
        i = i + 1;
    }
    assert(om.take(ordered@.len() as int) =~= om);
    accepted
}

/// Finds the accepted matches of `patterns` on the unwrapped logical `lines`,
/// in visible order (by line, then start, then end). Duplicate copied texts
/// are kept; the hint engine shares one hint between them.
pub fn find_matches_with_patterns(lines: &[String], patterns: &[PatternSpec]) -> (found: Vec<MatchSpan>)
    ensures
        span_models(found@) == matches_for(line_models(lines@), pattern_models(patterns@)),
        forall|i: int|
            0 <= i < found@.len() ==> span_in_lines(#[trigger] found@[i]@, line_models(lines@)) && named_by(
                found@[i]@,
                pattern_models(patterns@),
            ),
{
    let candidates = collect_candidates(lines, patterns);
    let ghost cands = candidate_models(candidates@);
    let accepted = resolve_overlaps(candidates);
    let found = sort_by_position(&accepted);
    proof {
        let ls = line_models(lines@);
        let ps = pattern_models(patterns@);
        law_matches_are_candidates(ls, ps);
        assert forall|i: int| 0 <= i < found@.len() implies span_in_lines(#[trigger] found@[i]@, ls) && named_by(found@[i]@, ps) by {
            assert(span_models(found@)[i] == found@[i]@);
            assert(candidate_spans(cands).contains(matches_for(ls, ps)[i]));
            let k = choose|k: int| 0 <= k < candidate_spans(cands).len() && candidate_spans(cands)[k] == matches_for(ls, ps)[i];
            assert(cands[k] == candidates@[k]@);
        }
    }
    found
}

/// The built-in patterns, in decreasing precedence: URLs; Git status
/// paths, Git upstream branch names and diff paths; Kubernetes resource
/// references; file paths; UUIDs; deployment-managed Kubernetes pod names;
/// Git SHAs; hex literals; IPv4 addresses; long numbers.
pub open spec fn built_in_pattern_models() -> Seq<PatternModel> {
    seq![
        PatternModel { name: "url"@, regex: "((https?://|git@|git://|ssh://|ftp://|file:///)[^\\s()\"']+)"@, priority: 10 },
        PatternModel { name: "git-status"@, regex: "(?:modified|new file|deleted|renamed|typechange|both modified|both added):[ \\t]+(?P<match>[^\\s]+)"@, priority: 12 },
        PatternModel { name: "git-branch"@, regex: "(?:up to date with|ahead of|behind|diverged from|based on) '(?P<match>[^'\\s]+)'"@, priority: 12 },
        PatternModel { name: "diff-path"@, regex: "(?:^(?:\\+\\+\\+|---) [ab]/|diff --git a/)(?P<match>[^\\s]+)"@, priority: 12 },
        PatternModel { name: "k8s-ref"@, regex: "\\b(?:pods?|deployments?|services?|svc|replicasets?|rs|statefulsets?|sts|daemonsets?|ds|jobs?|cronjobs?|configmaps?|cm|secrets?|ingress(?:es)?|ing|nodes?|namespaces?|ns|persistentvolumeclaims?|pvc)(?:\\.[a-z0-9-]+)*/[a-z0-9](?:[-a-z0-9.]*[a-z0-9])?"@, priority: 15 },
        PatternModel { name: "path"@, regex: "(([.\\w\\-~\\$@]+)?(/[.\\w\\-@]+)+/?)"@, priority: 20 },
        PatternModel { name: "uuid"@, regex: "\\b[0-9a-fA-F]{8}-[0-9a-fA-F]{4}-[0-9a-fA-F]{4}-[0-9a-fA-F]{4}-[0-9a-fA-F]{12}\\b"@, priority: 30 },
        PatternModel { name: "k8s-pod"@, regex: "\\b[a-z0-9](?:[-a-z0-9]*[a-z0-9])?-[a-z0-9]{8,10}-[a-z0-9]{5}\\b"@, priority: 35 },
        PatternModel { name: "git-sha"@, regex: "\\b[0-9a-fA-F]{7,40}\\b"@, priority: 40 },
        PatternModel { name: "hex"@, regex: "\\b0[xX][0-9a-fA-F]+\\b"@, priority: 45 },
        PatternModel { name: "ipv4"@, regex: "\\d{1,3}\\.\\d{1,3}\\.\\d{1,3}\\.\\d{1,3}"@, priority: 50 },
        PatternModel { name: "number"@, regex: "[0-9]{4,}"@, priority: 60 },
    ]
}

/// One pattern specification.
fn pattern(name: &str, regex: &str, priority: u16) -> (p: PatternSpec)
    ensures
        p@ == (PatternModel { name: name@, regex: regex@, priority: priority as int }),
{
    PatternSpec { name: name.to_owned(), regex: regex.to_owned(), priority }
}

/// The built-in pattern specifications.
pub fn built_in_patterns() -> (patterns: Vec<PatternSpec>)
    ensures
        pattern_models(patterns@) == built_in_pattern_models(),
{
    let mut patterns: Vec<PatternSpec> = Vec::new();
    patterns.push(pattern("url", "((https?://|git@|git://|ssh://|ftp://|file:///)[^\\s()\"']+)", 10));
    patterns.push(pattern("git-status", "(?:modified|new file|deleted|renamed|typechange|both modified|both added):[ \\t]+(?P<match>[^\\s]+)", 12));
    patterns.push(pattern("git-branch", "(?:up to date with|ahead of|behind|diverged from|based on) '(?P<match>[^'\\s]+)'", 12));
    patterns.push(pattern("diff-path", "(?:^(?:\\+\\+\\+|---) [ab]/|diff --git a/)(?P<match>[^\\s]+)", 12));
    patterns.push(pattern("k8s-ref", "\\b(?:pods?|deployments?|services?|svc|replicasets?|rs|statefulsets?|sts|daemonsets?|ds|jobs?|cronjobs?|configmaps?|cm|secrets?|ingress(?:es)?|ing|nodes?|namespaces?|ns|persistentvolumeclaims?|pvc)(?:\\.[a-z0-9-]+)*/[a-z0-9](?:[-a-z0-9.]*[a-z0-9])?", 15));
    patterns.push(pattern("path", "(([.\\w\\-~\\$@]+)?(/[.\\w\\-@]+)+/?)", 20));
    patterns.push(pattern("uuid", "\\b[0-9a-fA-F]{8}-[0-9a-fA-F]{4}-[0-9a-fA-F]{4}-[0-9a-fA-F]{4}-[0-9a-fA-F]{12}\\b", 30));
    patterns.push(pattern("k8s-pod", "\\b[a-z0-9](?:[-a-z0-9]*[a-z0-9])?-[a-z0-9]{8,10}-[a-z0-9]{5}\\b", 35));
    patterns.push(pattern("git-sha", "\\b[0-9a-fA-F]{7,40}\\b", 40));
    patterns.push(pattern("hex", "\\b0[xX][0-9a-fA-F]+\\b", 45));
    patterns.push(pattern("ipv4", "\\d{1,3}\\.\\d{1,3}\\.\\d{1,3}\\.\\d{1,3}", 50));
    patterns.push(pattern("number", "[0-9]{4,}", 60));
    assert(pattern_models(patterns@) =~= built_in_pattern_models());
    patterns
}

/// Finds accepted built-in pattern matches in first-visible order.
///
/// Matching runs on unwrapped logical lines. Returned spans are all accepted visible occurrences;
/// duplicate copied texts are intentionally preserved for the hint engine to deduplicate later.
pub fn find_matches(lines: &[String]) -> (found: Vec<MatchSpan>)
    ensures
        span_models(found@) == matches_for(line_models(lines@), built_in_pattern_models()),
        forall|i: int|
            0 <= i < found@.len() ==> span_in_lines(#[trigger] found@[i]@, line_models(lines@)) && named_by(
                found@[i]@,
                built_in_pattern_models(),
            ),
{
    let patterns = built_in_patterns();
    find_matches_with_patterns(lines, patterns.as_slice())
}

/// `le` is a total preorder: total and transitive.
pub open spec fn total_preorder<A>(le: spec_fn(A, A) -> bool) -> bool {
    &&& forall|a: A, b: A| #[trigger] le(a, b) || #[trigger] le(b, a)
    &&& forall|a: A, b: A, c: A| #[trigger] le(a, b) && #[trigger] le(b, c) ==> le(a, c)
}

/// `s` is ordered by `le`.
pub open spec fn ordered_by<A>(s: Seq<A>, le: spec_fn(A, A) -> bool) -> bool {
    forall|i: int, j: int| 0 <= i < j < s.len() ==> le(#[trigger] s[i], #[trigger] s[j])
}

/// Every element of `a` occurs in `b`.
pub open spec fn drawn_from<A>(a: Seq<A>, b: Seq<A>) -> bool {
    forall|i: int| 0 <= i < a.len() ==> b.contains(#[trigger] a[i])
}

/// Facts about the index a stable insertion picks.
proof fn lemma_insertion_point_facts<A>(sorted: Seq<A>, x: A, le: spec_fn(A, A) -> bool)
    ensures
        0 <= insertion_point(sorted, x, le) <= sorted.len(),
        forall|m: int| 0 <= m < insertion_point(sorted, x, le) ==> le(#[trigger] sorted[m], x),
        insertion_point(sorted, x, le) < sorted.len() ==> !le(
            sorted[insertion_point(sorted, x, le)],
            x,
        ),
    decreases sorted.len(),
{
    if sorted.len() > 0 && le(sorted[0], x) {
        let rest = sorted.drop_first();
        lemma_insertion_point_facts(rest, x, le);
        let k = insertion_point(sorted, x, le);
        assert forall|m: int| 0 <= m < k implies le(#[trigger] sorted[m], x) by {
            if m > 0 {
                assert(sorted[m] == rest[m - 1]);
            }
        }
        if k < sorted.len() {
            assert(sorted[k] == rest[k - 1]);
        }
    }
}

/// Inserting `x` into `s` keeps the elements of `s` and adds `x`.
proof fn lemma_insert_members<A>(s: Seq<A>, k: int, x: A)
    requires
        0 <= k <= s.len(),
    ensures
        s.insert(k, x).len() == s.len() + 1,
        forall|i: int| 0 <= i < k ==> #[trigger] s.insert(k, x)[i] == s[i],
        forall|i: int| k < i <= s.len() ==> #[trigger] s.insert(k, x)[i] == s[i - 1],
        s.insert(k, x)[k] == x,
{
    s.insert_ensures(k, x);
}

/// A stable sort keeps the length and draws its elements from the input,
/// and every input element appears in it.
#[verifier::spinoff_prover]
pub proof fn lemma_stable_sort_members<A>(s: Seq<A>, le: spec_fn(A, A) -> bool)
    ensures
        stable_sort(s, le).len() == s.len(),
        drawn_from(stable_sort(s, le), s),
        drawn_from(s, stable_sort(s, le)),
    decreases s.len(),
{
    if s.len() > 0 {
        let prefix = s.drop_last();
        let x = s.last();
        let sorted = stable_sort(prefix, le);
        lemma_stable_sort_members(prefix, le);
        lemma_insertion_point_facts(sorted, x, le);
        let k = insertion_point(sorted, x, le);
        let r = sorted.insert(k, x);
        lemma_insert_members(sorted, k, x);
        assert(r == stable_sort(s, le));
        assert forall|i: int| 0 <= i < r.len() implies s.contains(#[trigger] r[i]) by {
            if i == k {
                assert(s[s.len() - 1] == r[i]);
            } else {
                let m = if i < k { i } else { i - 1 };
                assert(r[i] == sorted[m]);
                assert(prefix.contains(sorted[m]));
                let j = choose|j: int| 0 <= j < prefix.len() && prefix[j] == sorted[m];
                assert(s[j] == prefix[j]);
            }
        }
        assert forall|j: int| 0 <= j < s.len() implies r.contains(#[trigger] s[j]) by {
            if j == s.len() - 1 {
                assert(r[k] == s[j]);
            } else {
                assert(s[j] == prefix[j]);
                assert(sorted.contains(prefix[j]));
                let i = choose|i: int| 0 <= i < sorted.len() && sorted[i] == prefix[j];
                if i < k {
                    assert(r[i] == sorted[i]);
                } else {
                    assert(r[i + 1] == sorted[i]);
                }
            }
        }
    }
}

/// A stable sort by a total preorder is ordered by it.
#[verifier::spinoff_prover]
pub proof fn lemma_stable_sort_ordered<A>(s: Seq<A>, le: spec_fn(A, A) -> bool)
    requires
        total_preorder(le),
    ensures
        ordered_by(stable_sort(s, le), le),
    decreases s.len(),
{
    if s.len() > 0 {
        let prefix = s.drop_last();
        let x = s.last();
        let sorted = stable_sort(prefix, le);
        lemma_stable_sort_ordered(prefix, le);
        lemma_stable_sort_members(prefix, le);
        lemma_insertion_point_facts(sorted, x, le);
        let k = insertion_point(sorted, x, le);
        let r = sorted.insert(k, x);
        lemma_insert_members(sorted, k, x);
        assert(r == stable_sort(s, le));
        if k < sorted.len() {
            assert(le(x, sorted[k]));
        }
        assert forall|i: int, j: int| 0 <= i < j < r.len() implies le(#[trigger] r[i], #[trigger] r[j]) by {
            if j < k {
                assert(r[i] == sorted[i] && r[j] == sorted[j]);
            } else if j == k {
                assert(r[i] == sorted[i] && r[j] == x);
            } else if i < k {
                assert(r[i] == sorted[i] && r[j] == sorted[j - 1]);
            } else if i == k {
                assert(r[i] == x && r[j] == sorted[j - 1]);
                if j - 1 > k {
                    assert(le(sorted[k], sorted[j - 1]));
                }
            } else {
                assert(r[i] == sorted[i - 1] && r[j] == sorted[j - 1]);
            }
        }
    }
}

/// A stable sort keeps a relation that holds between elements at distinct
/// positions.
#[verifier::spinoff_prover]
pub proof fn lemma_stable_sort_pairwise<A>(s: Seq<A>, le: spec_fn(A, A) -> bool, p: spec_fn(A, A) -> bool)
    requires
        forall|i: int, j: int| 0 <= i < s.len() && 0 <= j < s.len() && i != j ==> p(#[trigger] s[i], #[trigger] s[j]),
    ensures
        forall|i: int, j: int|
            0 <= i < stable_sort(s, le).len() && 0 <= j < stable_sort(s, le).len() && i != j ==> p(
                #[trigger] stable_sort(s, le)[i],
                #[trigger] stable_sort(s, le)[j],
            ),
    decreases s.len(),
{
    if s.len() > 0 {
        let prefix = s.drop_last();
        let x = s.last();
        let sorted = stable_sort(prefix, le);
        assert forall|i: int, j: int| 0 <= i < prefix.len() && 0 <= j < prefix.len() && i != j implies p(
            #[trigger] prefix[i],
            #[trigger] prefix[j],
        ) by {
            assert(prefix[i] == s[i] && prefix[j] == s[j]);
        }
        lemma_stable_sort_pairwise(prefix, le, p);
        lemma_stable_sort_members(prefix, le);
        lemma_insertion_point_facts(sorted, x, le);
        let k = insertion_point(sorted, x, le);
        let r = sorted.insert(k, x);
        lemma_insert_members(sorted, k, x);
        assert(r == stable_sort(s, le));
        assert forall|m: int| 0 <= m < sorted.len() implies p(x, #[trigger] sorted[m]) && p(sorted[m], x) by {
            assert(prefix.contains(sorted[m]));
            let j = choose|j: int| 0 <= j < prefix.len() && prefix[j] == sorted[m];
            assert(prefix[j] == s[j]);
            assert(x == s[s.len() - 1]);
        }
        assert forall|i: int, j: int| 0 <= i < r.len() && 0 <= j < r.len() && i != j implies p(
            #[trigger] r[i],
            #[trigger] r[j],
        ) by {
            let ii = if i < k { i } else { i - 1 };
            let jj = if j < k { j } else { j - 1 };
            if i == k {
                assert(r[j] == sorted[jj]);
            } else if j == k {
                assert(r[i] == sorted[ii]);
            } else {
                assert(r[i] == sorted[ii] && r[j] == sorted[jj]);
            }
        }
    }
}

/// The span of each candidate.
pub open spec fn candidate_spans(cands: Seq<CandidateModel>) -> Seq<SpanModel> {
    cands.map_values(|c: CandidateModel| c.span)
}

/// Greedy acceptance keeps accepted spans apart, takes them from the
/// candidates, and accepts or blocks every candidate: a candidate that is
/// not accepted overlaps a span accepted from an earlier candidate.
#[verifier::spinoff_prover]
proof fn lemma_greedy_accept(ordered: Seq<CandidateModel>)
    ensures
        forall|i: int, j: int|
            0 <= i < greedy_accept(ordered).len() && 0 <= j < greedy_accept(ordered).len() && i != j
                ==> !(#[trigger] greedy_accept(ordered)[i]).overlaps(#[trigger] greedy_accept(ordered)[j]),
        forall|i: int|
            0 <= i < greedy_accept(ordered).len() ==> candidate_spans(ordered).contains(
                #[trigger] greedy_accept(ordered)[i],
            ),
        forall|j: int|
            0 <= j < ordered.len() ==> greedy_accept(ordered).contains(#[trigger] ordered[j].span) || exists|
                i: int,
                m: int,
            |
                #![trigger greedy_accept(ordered)[i], ordered[m]]
                0 <= i < greedy_accept(ordered).len() && 0 <= m < j && greedy_accept(ordered)[i]
                    == ordered[m].span && greedy_accept(ordered)[i].overlaps(ordered[j].span),
        forall|i: int, j: int|
            0 <= i < j < greedy_accept(ordered).len() ==> exists|m: int, n: int|
                0 <= m < n < ordered.len() && #[trigger] greedy_accept(ordered)[i] == ordered[m].span
                    && #[trigger] greedy_accept(ordered)[j] == ordered[n].span,
    decreases ordered.len(),
{
    if ordered.len() > 0 {
        let prefix = ordered.drop_last();
        let acc = greedy_accept(prefix);
        let next = ordered.last().span;
        let g = greedy_accept(ordered);
        lemma_greedy_accept(prefix);
        let clear = forall|i: int| 0 <= i < acc.len() ==> !(#[trigger] acc[i]).overlaps(next);
        assert(g == if clear { acc.push(next) } else { acc });
        assert forall|i: int| 0 <= i < acc.len() implies #[trigger] g[i] == acc[i] by {}
        assert forall|i: int, j: int| 0 <= i < g.len() && 0 <= j < g.len() && i != j implies !(
        #[trigger] g[i]).overlaps(#[trigger] g[j]) by {
            if i < acc.len() && j < acc.len() {
                assert(g[i] == acc[i] && g[j] == acc[j]);
            } else if i < acc.len() {
                assert(g[j] == next);
                assert(!acc[i].overlaps(next));
            } else {
                assert(g[i] == next);
                assert(!acc[j].overlaps(next));
            }
        }
        assert forall|i: int| 0 <= i < g.len() implies candidate_spans(ordered).contains(#[trigger] g[i]) by {
            if i < acc.len() {
                assert(candidate_spans(prefix).contains(acc[i]));
                let m = choose|m: int| 0 <= m < candidate_spans(prefix).len() && candidate_spans(prefix)[m] == acc[i];
                assert(candidate_spans(ordered)[m] == prefix[m].span);
            } else {
                assert(candidate_spans(ordered)[ordered.len() - 1] == next);
            }
        }
        assert forall|i: int, j: int| 0 <= i < j < g.len() implies exists|m: int, n: int|
            0 <= m < n < ordered.len() && #[trigger] g[i] == ordered[m].span && #[trigger] g[j]
                == ordered[n].span by {
            assert(candidate_spans(prefix).contains(acc[i]));
            let m = choose|m: int| 0 <= m < candidate_spans(prefix).len() && candidate_spans(prefix)[m] == acc[i];
            assert(prefix[m] == ordered[m]);
            assert(g[i] == acc[i]);
            if j < acc.len() {
                assert(g[j] == acc[j]);
                let (m2, n2) = choose|m2: int, n2: int|
                    0 <= m2 < n2 < prefix.len() && #[trigger] acc[i] == prefix[m2].span && #[trigger] acc[j]
                        == prefix[n2].span;
                assert(prefix[m2] == ordered[m2] && prefix[n2] == ordered[n2]);
            } else {
                assert(g[j] == next);
                assert(ordered[ordered.len() - 1].span == next);
            }
        }
        assert forall|j: int| 0 <= j < ordered.len() implies g.contains(#[trigger] ordered[j].span) || exists|
            i: int,
            m: int,
        |
            #![trigger g[i], ordered[m]]
            0 <= i < g.len() && 0 <= m < j && g[i] == ordered[m].span && g[i].overlaps(ordered[j].span) by {
            if j < prefix.len() {
                assert(ordered[j] == prefix[j]);
                if acc.contains(prefix[j].span) {
                    let i = choose|i: int| 0 <= i < acc.len() && acc[i] == prefix[j].span;
                    assert(g[i] == acc[i]);
                } else {
                    let (i, m) = choose|i: int, m: int|
                        #![trigger acc[i], prefix[m]]
                        0 <= i < acc.len() && 0 <= m < j && acc[i] == prefix[m].span && acc[i].overlaps(
                            prefix[j].span,
                        );
                    assert(g[i] == acc[i]);
                    assert(ordered[m] == prefix[m]);
                }
            } else {
                if clear {
                    assert(g[acc.len() as int] == next);
                } else {
                    let i = choose|i: int| 0 <= i < acc.len() && (#[trigger] acc[i]).overlaps(next);
                    assert(candidate_spans(prefix).contains(acc[i]));
                    let m = choose|m: int| 0 <= m < candidate_spans(prefix).len() && candidate_spans(prefix)[m] == acc[i];
                    assert(prefix[m] == ordered[m]);
                    assert(g[i] == acc[i]);
                }
            }
        }
    }
}

/// Acceptance order between spans alone: lower priority number first, then
/// the longer byte range, then the earlier line, start and end.
pub open spec fn span_precedes(a: SpanModel, b: SpanModel) -> bool {
    if a.priority != b.priority {
        a.priority < b.priority
    } else if a.len_bytes() != b.len_bytes() {
        a.len_bytes() > b.len_bytes()
    } else if a.line != b.line {
        a.line < b.line
    } else if a.start != b.start {
        a.start < b.start
    } else {
        a.end <= b.end
    }
}

proof fn lemma_accept_le_total_preorder()
    ensures
        total_preorder(|a: CandidateModel, b: CandidateModel| accept_le(a, b)),
{
}

proof fn lemma_position_le_total_preorder()
    ensures
        total_preorder(|a: SpanModel, b: SpanModel| position_le(a, b)),
{
}

/// Accepted spans of `cands`, with the facts of greedy acceptance restated
/// over the candidates themselves.
proof fn lemma_accepted_spans(cands: Seq<CandidateModel>)
    ensures
        forall|i: int, j: int|
            0 <= i < accepted_spans(cands).len() && 0 <= j < accepted_spans(cands).len() && i != j
                ==> !(#[trigger] accepted_spans(cands)[i]).overlaps(#[trigger] accepted_spans(cands)[j]),
        forall|i: int|
            0 <= i < accepted_spans(cands).len() ==> candidate_spans(cands).contains(
                #[trigger] accepted_spans(cands)[i],
            ),
        forall|j: int|
            0 <= j < cands.len() ==> accepted_spans(cands).contains(#[trigger] cands[j].span) || exists|
                i: int,
            |
                0 <= i < accepted_spans(cands).len() && (#[trigger] accepted_spans(cands)[i]).overlaps(
                    cands[j].span,
                ) && span_precedes(accepted_spans(cands)[i], cands[j].span),
{
    let le = |a: CandidateModel, b: CandidateModel| accept_le(a, b);
    let ordered = stable_sort(cands, le);
    let g = greedy_accept(ordered);
    assert(g == accepted_spans(cands));
    lemma_accept_le_total_preorder();
    lemma_stable_sort_ordered(cands, le);
    lemma_stable_sort_members(cands, le);
    lemma_greedy_accept(ordered);
    assert forall|i: int| 0 <= i < g.len() implies candidate_spans(cands).contains(#[trigger] g[i]) by {
        assert(candidate_spans(ordered).contains(g[i]));
        let m = choose|m: int| 0 <= m < candidate_spans(ordered).len() && candidate_spans(ordered)[m] == g[i];
        assert(cands.contains(ordered[m]));
        let n = choose|n: int| 0 <= n < cands.len() && cands[n] == ordered[m];
        assert(candidate_spans(cands)[n] == g[i]);
    }
    assert forall|j: int| 0 <= j < cands.len() implies g.contains(#[trigger] cands[j].span) || exists|i: int|
        0 <= i < g.len() && (#[trigger] g[i]).overlaps(cands[j].span) && span_precedes(
            g[i],
            cands[j].span,
        ) by {
        assert(ordered.contains(cands[j]));
        let k = choose|k: int| 0 <= k < ordered.len() && ordered[k] == cands[j];
        assert(ordered[k].span == cands[j].span);
        if !g.contains(ordered[k].span) {
            let (i, m) = choose|i: int, m: int|
                #![trigger g[i], ordered[m]]
                0 <= i < g.len() && 0 <= m < k && g[i] == ordered[m].span && g[i].overlaps(
                    ordered[k].span,
                );
            assert(le(ordered[m], ordered[k]));
        }
    }
}

/// Overlap resolution keeps the best-ranked candidates: every accepted span
/// is a candidate's span; accepted spans never overlap and come in
/// acceptance order (lower priority number, then longer, then earlier); and
/// every candidate that is not accepted overlaps an accepted span that ranks
/// no lower.
pub proof fn law_overlaps_resolved_by_rank(cands: Seq<CandidateModel>)
    ensures
        forall|i: int|
            0 <= i < accepted_spans(cands).len() ==> candidate_spans(cands).contains(
                #[trigger] accepted_spans(cands)[i],
            ),
        forall|i: int, j: int|
            0 <= i < accepted_spans(cands).len() && 0 <= j < accepted_spans(cands).len() && i != j
                ==> !(#[trigger] accepted_spans(cands)[i]).overlaps(#[trigger] accepted_spans(cands)[j]),
        forall|i: int, j: int|
            0 <= i < j < accepted_spans(cands).len() ==> span_precedes(
                #[trigger] accepted_spans(cands)[i],
                #[trigger] accepted_spans(cands)[j],
            ),
        forall|j: int|
            0 <= j < cands.len() ==> accepted_spans(cands).contains(#[trigger] cands[j].span) || exists|
                i: int,
            |
                0 <= i < accepted_spans(cands).len() && (#[trigger] accepted_spans(cands)[i]).overlaps(
                    cands[j].span,
                ) && span_precedes(accepted_spans(cands)[i], cands[j].span),
{
    lemma_accepted_spans(cands);
    let le = |a: CandidateModel, b: CandidateModel| accept_le(a, b);
    let ordered = stable_sort(cands, le);
    let g = greedy_accept(ordered);
    assert(g == accepted_spans(cands));
    lemma_accept_le_total_preorder();
    lemma_stable_sort_ordered(cands, le);
    lemma_greedy_accept(ordered);
    assert forall|i: int, j: int| 0 <= i < j < g.len() implies span_precedes(
        #[trigger] g[i],
        #[trigger] g[j],
    ) by {
        let (m, n) = choose|m: int, n: int|
            0 <= m < n < ordered.len() && #[trigger] g[i] == ordered[m].span && #[trigger] g[j]
                == ordered[n].span;
        assert(le(ordered[m], ordered[n]));
    }
}

/// The reported matches never overlap one another.
pub proof fn law_matches_disjoint(lines: Seq<Seq<char>>, patterns: Seq<PatternModel>)
    ensures
        forall|i: int, j: int|
            0 <= i < matches_for(lines, patterns).len() && 0 <= j < matches_for(lines, patterns).len()
                && i != j ==> !(#[trigger] matches_for(lines, patterns)[i]).overlaps(
                #[trigger] matches_for(lines, patterns)[j],
            ),
{
    let cands = candidates_for(lines, patterns);
    lemma_accepted_spans(cands);
    lemma_stable_sort_pairwise(
        accepted_spans(cands),
        |a: SpanModel, b: SpanModel| position_le(a, b),
        |a: SpanModel, b: SpanModel| !a.overlaps(b),
    );
}

/// The reported matches come in visible order: by line, then start, then end.
pub proof fn law_matches_in_visible_order(lines: Seq<Seq<char>>, patterns: Seq<PatternModel>)
    ensures
        ordered_by(matches_for(lines, patterns), |a: SpanModel, b: SpanModel| position_le(a, b)),
{
    lemma_position_le_total_preorder();
    lemma_stable_sort_ordered(
        accepted_spans(candidates_for(lines, patterns)),
        |a: SpanModel, b: SpanModel| position_le(a, b),
    );
}

/// Every reported match is a candidate that one of the patterns produced.
pub proof fn law_matches_are_candidates(lines: Seq<Seq<char>>, patterns: Seq<PatternModel>)
    ensures
        forall|i: int|
            0 <= i < matches_for(lines, patterns).len() ==> candidate_spans(
                candidates_for(lines, patterns),
            ).contains(#[trigger] matches_for(lines, patterns)[i]),
{
    let cands = candidates_for(lines, patterns);
    let accepted = accepted_spans(cands);
    let r = matches_for(lines, patterns);
    lemma_accepted_spans(cands);
    lemma_stable_sort_members(accepted, |a: SpanModel, b: SpanModel| position_le(a, b));
    assert forall|i: int| 0 <= i < r.len() implies candidate_spans(cands).contains(#[trigger] r[i]) by {
        assert(accepted.contains(r[i]));
        let m = choose|m: int| 0 <= m < accepted.len() && accepted[m] == r[i];
        assert(candidate_spans(cands).contains(accepted[m]));
    }
}

/// Precedence: every candidate is reported, or it overlaps a reported match
/// that ranks no lower (a higher priority, else a longer range, else an
/// earlier position).
pub proof fn law_candidates_reported_or_outranked(lines: Seq<Seq<char>>, patterns: Seq<PatternModel>)
    ensures
        forall|j: int|
            0 <= j < candidates_for(lines, patterns).len() ==> matches_for(lines, patterns).contains(
                #[trigger] candidates_for(lines, patterns)[j].span,
            ) || exists|i: int|
                0 <= i < matches_for(lines, patterns).len() && (#[trigger] matches_for(
                    lines,
                    patterns,
                )[i]).overlaps(candidates_for(lines, patterns)[j].span) && span_precedes(
                    matches_for(lines, patterns)[i],
                    candidates_for(lines, patterns)[j].span,
                ),
{
    let cands = candidates_for(lines, patterns);
    let accepted = accepted_spans(cands);
    let r = matches_for(lines, patterns);
    lemma_accepted_spans(cands);
    lemma_stable_sort_members(accepted, |a: SpanModel, b: SpanModel| position_le(a, b));
    assert forall|j: int| 0 <= j < cands.len() implies r.contains(#[trigger] cands[j].span) || exists|i: int|
        0 <= i < r.len() && (#[trigger] r[i]).overlaps(cands[j].span) && span_precedes(
            r[i],
            cands[j].span,
        ) by {
        if accepted.contains(cands[j].span) {
            let m = choose|m: int| 0 <= m < accepted.len() && accepted[m] == cands[j].span;
            assert(r.contains(accepted[m]));
        } else {
            let m = choose|m: int|
                0 <= m < accepted.len() && (#[trigger] accepted[m]).overlaps(cands[j].span)
                    && span_precedes(accepted[m], cands[j].span);
            assert(r.contains(accepted[m]));
            let i = choose|i: int| 0 <= i < r.len() && r[i] == accepted[m];
            assert(r[i].overlaps(cands[j].span));
        }
    }
}

/// Priority of a custom pattern whose configuration gives none.
pub fn default_custom_priority() -> (priority: u16)
    ensures
        priority == 25,
{
    25
}

/// A configured custom pattern whose regex the regex crate refuses.
#[derive(Debug, Clone, PartialEq, Eq)]
pub struct InvalidPattern {
    pub name: String,
}

impl InvalidPattern {
    /// The message reported for this error.
    pub fn message(&self) -> (m: String)
        ensures
            m@ == "invalid regex for pattern "@ + self.name@,
    {
        crate::text::concat_str("invalid regex for pattern ", self.name.as_str())
    }
}

/// Whether the regex crate accepts a pattern.
pub open spec fn pattern_compiles(p: PatternModel) -> bool {
    regex_captures(p.regex, Seq::empty(), copy_group()) is Some
}

/// Checks configured custom patterns: all of them when every regex
/// compiles, else the first one whose regex does not.
pub fn compile_custom_patterns(entries: Vec<PatternSpec>) -> (patterns: Result<Vec<PatternSpec>, InvalidPattern>)
    ensures
        match patterns {
            Ok(v) => v == entries && forall|k: int|
                0 <= k < entries@.len() ==> pattern_compiles(#[trigger] entries@[k]@),
            Err(e) => exists|k: int|
                0 <= k < entries@.len() && !pattern_compiles(#[trigger] entries@[k]@) && e.name
                    == entries@[k].name && forall|j: int|
                    0 <= j < k ==> pattern_compiles(#[trigger] entries@[j]@),
        },
{
    let mut i: usize = 0;
    while i < entries.len()
        invariant
            i <= entries@.len(),
            forall|j: int| 0 <= j < i ==> pattern_compiles(#[trigger] entries@[j]@),
        decreases entries@.len() - i,
    {
        let empty = "";
        proof {
            reveal_strlit("");
        }
        assert(empty@ =~= Seq::<char>::empty());
        let group = "match";
        assert(group@ == copy_group());
        if regex_capture_ranges(entries[i].regex.as_str(), empty, group).is_none() {
            assert(!pattern_compiles(entries@[i as int]@));
            return Err(InvalidPattern { name: entries[i].name.clone() });
        }
        i = i + 1;
    }
    Ok(entries)
}

} // verus!
