//! Why a split tree needs no more nesting than its layout has panes: every
//! region below the top is the bounding box of panes it holds, so a child
//! region either holds fewer panes than its parent or is its parent again.

use crate::herdr::layout::{
    LayoutError, LayoutPane, LayoutSplit, LayoutTree, bounding_box, first_side_rects,
    law_depth_only_bounds, layout_tree, max_of, min_of, panes_in, rect_within, second_side_rects,
    split_boundary, split_index_for, split_parts,
};
use crate::model::{Rect, sat_add};
use vstd::prelude::*;

verus! {

/// The least element of a non-empty sequence is one of its elements and is
/// at most each of them.
proof fn lemma_min_of(s: Seq<int>)
    requires
        s.len() > 0,
    ensures
        exists|i: int| 0 <= i < s.len() && s[i] == min_of(s),
        forall|i: int| 0 <= i < s.len() ==> min_of(s) <= #[trigger] s[i],
    decreases s.len(),
{
    if s.len() > 1 {
        lemma_min_of(s.drop_last());
        assert forall|i: int| 0 <= i < s.len() implies min_of(s) <= #[trigger] s[i] by {
            if i < s.len() - 1 {
                assert(s.drop_last()[i] == s[i]);
            }
        }
        if min_of(s.drop_last()) <= s.last() {
            let i = choose|i: int| 0 <= i < s.drop_last().len() && s.drop_last()[i] == min_of(s.drop_last());
            assert(s[i] == min_of(s));
        } else {
            assert(s[s.len() - 1] == min_of(s));
        }
    } else {
        assert(s[0] == min_of(s));
    }
}

/// The greatest element of a non-empty sequence is one of its elements and
/// is at least each of them.
proof fn lemma_max_of(s: Seq<int>)
    requires
        s.len() > 0,
    ensures
        exists|i: int| 0 <= i < s.len() && s[i] == max_of(s),
        forall|i: int| 0 <= i < s.len() ==> max_of(s) >= #[trigger] s[i],
    decreases s.len(),
{
    if s.len() > 1 {
        lemma_max_of(s.drop_last());
        assert forall|i: int| 0 <= i < s.len() implies max_of(s) >= #[trigger] s[i] by {
            if i < s.len() - 1 {
                assert(s.drop_last()[i] == s[i]);
            }
        }
        if max_of(s.drop_last()) >= s.last() {
            let i = choose|i: int| 0 <= i < s.drop_last().len() && s.drop_last()[i] == max_of(s.drop_last());
            assert(s[i] == max_of(s));
        } else {
            assert(s[s.len() - 1] == max_of(s));
        }
    } else {
        assert(s[0] == max_of(s));
    }
}

/// Whether a rect's far edges are cell coordinates, unsaturated.
pub open spec fn unsaturated(r: Rect) -> bool {
    r.x + r.width <= 65535 && r.y + r.height <= 65535
}

/// A bounding box holds each of its rects, lies within every rect holding
/// them all, and has unsaturated far edges.
proof fn lemma_bounding_box(rects: Seq<Rect>, outer: Rect)
    requires
        rects.len() > 0,
    ensures
        bounding_box(rects) is Some,
        unsaturated(bounding_box(rects)->0),
        forall|i: int| 0 <= i < rects.len() ==> rect_within(bounding_box(rects)->0, #[trigger] rects[i]),
        (forall|i: int| 0 <= i < rects.len() ==> rect_within(outer, #[trigger] rects[i])) ==> rect_within(
            outer,
            bounding_box(rects)->0,
        ),
{
    let xs = rects.map_values(|r: Rect| r.x as int);
    let ys = rects.map_values(|r: Rect| r.y as int);
    let rs = rects.map_values(|r: Rect| sat_add(r.x as int, r.width as int));
    let bs = rects.map_values(|r: Rect| sat_add(r.y as int, r.height as int));
    lemma_min_of(xs);
    lemma_min_of(ys);
    lemma_max_of(rs);
    lemma_max_of(bs);
    let b = bounding_box(rects)->0;
    let ix = choose|i: int| 0 <= i < xs.len() && xs[i] == min_of(xs);
    let iy = choose|i: int| 0 <= i < ys.len() && ys[i] == min_of(ys);
    let ir = choose|i: int| 0 <= i < rs.len() && rs[i] == max_of(rs);
    let ib = choose|i: int| 0 <= i < bs.len() && bs[i] == max_of(bs);
    assert(xs[ix] == rects[ix].x);
    assert(ys[iy] == rects[iy].y);
    assert(rs[ir] == sat_add(rects[ir].x as int, rects[ir].width as int));
    assert(bs[ib] == sat_add(rects[ib].y as int, rects[ib].height as int));
    assert(rs[0] == sat_add(rects[0].x as int, rects[0].width as int));
    assert(xs[0] == rects[0].x);
    assert(bs[0] == sat_add(rects[0].y as int, rects[0].height as int));
    assert(ys[0] == rects[0].y);
    assert(b.x == min_of(xs));
    assert(b.y == min_of(ys));
    assert(b.width == max_of(rs) - min_of(xs));
    assert(b.height == max_of(bs) - min_of(ys));
    assert forall|i: int| 0 <= i < rects.len() implies rect_within(b, #[trigger] rects[i]) by {
        assert(xs[i] == rects[i].x);
        assert(ys[i] == rects[i].y);
        assert(rs[i] == sat_add(rects[i].x as int, rects[i].width as int));
        assert(bs[i] == sat_add(rects[i].y as int, rects[i].height as int));
    }
    if forall|i: int| 0 <= i < rects.len() ==> rect_within(outer, #[trigger] rects[i]) {
        assert(rect_within(outer, rects[ix]));
        assert(rect_within(outer, rects[iy]));
        assert(rect_within(outer, rects[ir]));
        assert(rect_within(outer, rects[ib]));
    }
}

/// A rect within a rect within another lies within that other.
proof fn lemma_within_trans(a: Rect, b: Rect, c: Rect)
    requires
        rect_within(a, b),
        rect_within(b, c),
    ensures
        rect_within(a, c),
{
}

/// Rects within each other, with unsaturated far edges, are equal.
proof fn lemma_within_both_ways(a: Rect, b: Rect)
    requires
        rect_within(a, b),
        rect_within(b, a),
        unsaturated(a),
        unsaturated(b),
    ensures
        a == b,
{
}

/// Filtering by a stronger predicate keeps at most as many elements, and
/// keeps as many only when every element the weaker one keeps passes it.
proof fn lemma_filter_stronger(
    s: Seq<LayoutPane>,
    weak: spec_fn(LayoutPane) -> bool,
    strong: spec_fn(LayoutPane) -> bool,
)
    requires
        forall|x: LayoutPane| #[trigger] strong(x) ==> weak(x),
    ensures
        s.filter(strong).len() <= s.filter(weak).len(),
        s.filter(strong).len() == s.filter(weak).len() ==> forall|i: int|
            0 <= i < s.len() && weak(s[i]) ==> strong(#[trigger] s[i]),
    decreases s.len(),
{
    reveal_with_fuel(Seq::<LayoutPane>::filter, 1);
    if s.len() > 0 {
        let t = s.drop_last();
        lemma_filter_stronger(t, weak, strong);
        assert(s.filter(strong).len() == t.filter(strong).len() + if strong(s.last()) { 1int } else { 0 });
        assert(s.filter(weak).len() == t.filter(weak).len() + if weak(s.last()) { 1int } else { 0 });
        if s.filter(strong).len() == s.filter(weak).len() {
            assert forall|i: int| 0 <= i < s.len() && weak(s[i]) implies strong(#[trigger] s[i]) by {
                if i < s.len() - 1 {
                    assert(t[i] == s[i]);
                }
            }
        }
    }
}

/// The number of panes lying within a region.
pub open spec fn pane_count(region: Rect, panes: Seq<LayoutPane>) -> int {
    panes_in(region, panes).len() as int
}

/// A region within another holds at most as many panes, and holds as many
/// only when it holds every pane of the other.
proof fn lemma_inner_region_count(outer: Rect, inner: Rect, panes: Seq<LayoutPane>)
    requires
        rect_within(outer, inner),
    ensures
        pane_count(inner, panes) <= pane_count(outer, panes),
        pane_count(inner, panes) == pane_count(outer, panes) ==> forall|i: int|
            0 <= i < panes.len() && rect_within(outer, panes[i].rect) ==> rect_within(
                inner,
                #[trigger] panes[i].rect,
            ),
{
    let weak = |p: LayoutPane| rect_within(outer, p.rect);
    let strong = |p: LayoutPane| rect_within(inner, p.rect);
    assert forall|p: LayoutPane| #[trigger] strong(p) implies weak(p) by {
        lemma_within_trans(outer, inner, p.rect);
    }
    lemma_filter_stronger(panes, weak, strong);
}

/// Whether every rect is the rect of some pane.
pub open spec fn rects_of_panes(rects: Seq<Rect>, panes: Seq<LayoutPane>) -> bool {
    forall|i: int|
        0 <= i < rects.len() ==> exists|j: int| 0 <= j < panes.len() && panes[j].rect == #[trigger] rects[i]
}

/// Whether a region is the bounding box of the rects of some panes.
pub open spec fn tight(region: Rect, panes: Seq<LayoutPane>) -> bool {
    exists|h: Seq<Rect>| #[trigger] bounding_box(h) == Some(region) && rects_of_panes(h, panes)
}

/// The child regions of a split are bounding boxes of panes of the region,
/// lying within it.
proof fn lemma_children_tight(
    region: Rect,
    panes: Seq<LayoutPane>,
    split: LayoutSplit,
    first: Rect,
    second: Rect,
)
    requires
        split_parts(region, split, panes_in(region, panes)) == Ok::<(Rect, Rect), LayoutError>(
            (first, second),
        ),
    ensures
        tight(first, panes),
        tight(second, panes),
        rect_within(region, first),
        rect_within(region, second),
        unsaturated(first),
        unsaturated(second),
{
    broadcast use Seq::lemma_filter_pred;

    let inside = panes_in(region, panes);
    let at = split_boundary(region, split);
    let in_region = |p: LayoutPane| rect_within(region, p.rect);
    let before = |p: LayoutPane| crate::herdr::layout::ends_before(p.rect, split.direction, at);
    let after = |p: LayoutPane|
        !crate::herdr::layout::ends_before(p.rect, split.direction, at)
            && crate::herdr::layout::starts_after(p.rect, split.direction, at);
    let h1 = first_side_rects(inside, split.direction, at);
    let h2 = second_side_rects(inside, split.direction, at);
    assert(h1 == inside.filter(before).map_values(|p: LayoutPane| p.rect));
    assert(h2 == inside.filter(after).map_values(|p: LayoutPane| p.rect));
    assert(bounding_box(h1) == Some(first));
    assert(bounding_box(h2) == Some(second));
    assert forall|i: int| 0 <= i < h1.len() implies rect_within(region, #[trigger] h1[i]) && exists|j: int|
        0 <= j < panes.len() && panes[j].rect == h1[i] by {
        let p = inside.filter(before)[i];
        assert(h1[i] == p.rect);
        assert(inside.filter(before).contains(p));
        inside.lemma_filter_contains_rev(before, p);
        assert(panes.filter(in_region).contains(p));
        panes.lemma_filter_contains_rev(in_region, p);
        let k = choose|k: int| 0 <= k < inside.len() && inside[k] == p;
        assert(in_region(panes.filter(in_region)[k]));
        let j = choose|j: int| 0 <= j < panes.len() && panes[j] == p;
    }
    assert forall|i: int| 0 <= i < h2.len() implies rect_within(region, #[trigger] h2[i]) && exists|j: int|
        0 <= j < panes.len() && panes[j].rect == h2[i] by {
        let p = inside.filter(after)[i];
        assert(h2[i] == p.rect);
        assert(inside.filter(after).contains(p));
        inside.lemma_filter_contains_rev(after, p);
        assert(panes.filter(in_region).contains(p));
        panes.lemma_filter_contains_rev(in_region, p);
        let k = choose|k: int| 0 <= k < inside.len() && inside[k] == p;
        assert(in_region(panes.filter(in_region)[k]));
        let j = choose|j: int| 0 <= j < panes.len() && panes[j] == p;
    }
    lemma_bounding_box(h1, region);
    lemma_bounding_box(h2, region);
    assert(rects_of_panes(h1, panes));
    assert(rects_of_panes(h2, panes));
}

/// A tight region holds a pane and has unsaturated far edges, and a region
/// within it with unsaturated far edges that holds as many panes is the
/// region itself.
proof fn lemma_same_region(region: Rect, inner: Rect, panes: Seq<LayoutPane>)
    requires
        tight(region, panes),
        rect_within(region, inner),
    ensures
        pane_count(region, panes) >= 1,
        unsaturated(region),
        unsaturated(inner) && pane_count(inner, panes) == pane_count(region, panes) ==> inner == region,
{
    broadcast use Seq::lemma_filter_contains;

    let h = choose|h: Seq<Rect>| #[trigger] bounding_box(h) == Some(region) && rects_of_panes(h, panes);
    lemma_bounding_box(h, inner);
    assert(rect_within(region, h[0]));
    let j0 = choose|j: int| 0 <= j < panes.len() && panes[j].rect == h[0];
    let in_region = |p: LayoutPane| rect_within(region, p.rect);
    assert(in_region(panes[j0]));
    assert(panes.filter(in_region).contains(panes[j0]));
    lemma_inner_region_count(region, inner, panes);
    if unsaturated(inner) && pane_count(inner, panes) == pane_count(region, panes) {
        assert forall|i: int| 0 <= i < h.len() implies rect_within(inner, #[trigger] h[i]) by {
            let j = choose|j: int| 0 <= j < panes.len() && panes[j].rect == h[i];
            assert(rect_within(region, h[i]));
            assert(rect_within(region, panes[j].rect));
        }
        lemma_bounding_box(h, inner);
        lemma_within_both_ways(region, inner);
    }
}

/// Results found within some depth and within another agree when neither
/// is cut off by its depth.
proof fn lemma_same_result(
    region: Rect,
    panes: Seq<LayoutPane>,
    splits: Seq<LayoutSplit>,
    a: nat,
    b: nat,
)
    requires
        layout_tree(region, panes, splits, a) != Err::<LayoutTree, LayoutError>(LayoutError::TooDeep),
        layout_tree(region, panes, splits, b) != Err::<LayoutTree, LayoutError>(LayoutError::TooDeep),
    ensures
        layout_tree(region, panes, splits, a) == layout_tree(region, panes, splits, b),
{
    if a <= b {
        law_depth_only_bounds(region, panes, splits, a, b);
    } else {
        law_depth_only_bounds(region, panes, splits, b, a);
    }
}

/// A tight region whose tree resolves within some depth resolves within one
/// split fewer than it holds panes.
proof fn lemma_tight_resolves(region: Rect, panes: Seq<LayoutPane>, splits: Seq<LayoutSplit>, depth: nat)
    requires
        tight(region, panes),
        layout_tree(region, panes, splits, depth) != Err::<LayoutTree, LayoutError>(
            LayoutError::TooDeep,
        ),
    ensures
        pane_count(region, panes) >= 1,
        layout_tree(region, panes, splits, (pane_count(region, panes) - 1) as nat) != Err::<
            LayoutTree,
            LayoutError,
        >(LayoutError::TooDeep),
    decreases depth,
{
    lemma_same_region(region, region, panes);
    let inside = panes_in(region, panes);
    let c = pane_count(region, panes);
    if c >= 2 {
        if let Some(k) = split_index_for(splits, region) {
            if let Ok(parts) = split_parts(region, splits[k], inside) {
                let (r1, r2) = parts;
                let d = (depth - 1) as nat;
                let b = (c - 2) as nat;
                lemma_children_tight(region, panes, splits[k], r1, r2);
                lemma_same_region(region, r1, panes);
                lemma_same_region(region, r2, panes);
                lemma_inner_region_count(region, r1, panes);
                lemma_inner_region_count(region, r2, panes);
                let c1 = pane_count(r1, panes);
                let c2 = pane_count(r2, panes);
                if c1 == c {
                    lemma_tight_resolves(region, panes, splits, d);
                    return;
                }
                lemma_tight_resolves(r1, panes, splits, d);
                law_depth_only_bounds(r1, panes, splits, (c1 - 1) as nat, b);
                lemma_same_result(r1, panes, splits, (c1 - 1) as nat, d);
                assert(layout_tree(r1, panes, splits, b) == layout_tree(r1, panes, splits, d));
                if layout_tree(r1, panes, splits, d) is Ok {
                    if c2 == c {
                        lemma_tight_resolves(region, panes, splits, d);
                        return;
                    }
                    lemma_tight_resolves(r2, panes, splits, d);
                    law_depth_only_bounds(r2, panes, splits, (c2 - 1) as nat, b);
                    lemma_same_result(r2, panes, splits, (c2 - 1) as nat, d);
                    assert(layout_tree(r2, panes, splits, b) == layout_tree(r2, panes, splits, d));
                }
            }
        }
    }
}

/// A layout's split tree that resolves at all resolves within as many
/// levels as the layout has panes: [`LayoutError::TooDeep`] at that depth
/// means that no depth, however great, resolves it.
pub proof fn law_pane_count_depth_suffices(
    area: Rect,
    panes: Seq<LayoutPane>,
    splits: Seq<LayoutSplit>,
    depth: nat,
)
    requires
        layout_tree(area, panes, splits, depth) != Err::<LayoutTree, LayoutError>(LayoutError::TooDeep),
    ensures
        layout_tree(area, panes, splits, panes.len()) == layout_tree(area, panes, splits, depth),
{
    broadcast use Seq::lemma_filter_len;

    let inside = panes_in(area, panes);
    let c = pane_count(area, panes);
    let n = panes.len();
    assert(c <= n);
    if c >= 2 {
        if let Some(k) = split_index_for(splits, area) {
            if let Ok(parts) = split_parts(area, splits[k], inside) {
                let (r1, r2) = parts;
                let d = (depth - 1) as nat;
                let b = (n - 1) as nat;
                lemma_children_tight(area, panes, splits[k], r1, r2);
                lemma_inner_region_count(area, r1, panes);
                lemma_inner_region_count(area, r2, panes);
                let c1 = pane_count(r1, panes);
                let c2 = pane_count(r2, panes);
                lemma_tight_resolves(r1, panes, splits, d);
                law_depth_only_bounds(r1, panes, splits, (c1 - 1) as nat, b);
                lemma_same_result(r1, panes, splits, (c1 - 1) as nat, d);
                if layout_tree(r1, panes, splits, d) is Ok {
                    lemma_tight_resolves(r2, panes, splits, d);
                    law_depth_only_bounds(r2, panes, splits, (c2 - 1) as nat, b);
                    lemma_same_result(r2, panes, splits, (c2 - 1) as nat, d);
                }
            }
        }
    }
}

} // verus!
