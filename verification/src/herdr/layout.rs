//! Herdr tab layouts: the target pane's geometry and the binary split tree
//! that recreates a tab's layout.

use crate::model::{
    PaneId, Rect, SourceGeometrySnapshot, SplitDirection, add_u16, min_int, sat_add, sat_sub, sub_u16,
    u16_max,
};
use crate::text::{concat_str, decimal, decimal_text};
use vstd::prelude::*;

verus! {

/// Pane entry within a Herdr layout snapshot.
#[derive(Debug, Clone, PartialEq, Eq)]
pub struct LayoutPane {
    pub focused: bool,
    pub pane_id: String,
    pub rect: Rect,
}

/// Split entry within a Herdr layout snapshot. The split's ratio is kept
/// as the bit pattern of its `f32` value; `offset` is the distance from the
/// split's leading edge to its boundary (its width or height times the
/// ratio, rounded), worked out where the layout was read.
#[derive(Debug, Clone, Copy, PartialEq, Eq)]
pub struct LayoutSplit {
    pub direction: SplitDirection,
    pub ratio_bits: u32,
    pub offset: u16,
    pub rect: Rect,
}

/// Herdr tab layout snapshot returned by `pane layout` in Herdr-global coordinates.
#[derive(Debug, Clone, PartialEq, Eq)]
pub struct LayoutSnapshot {
    pub area: Rect,
    pub focused_pane_id: Option<String>,
    pub panes: Vec<LayoutPane>,
    pub splits: Vec<LayoutSplit>,
    pub tab_id: Option<String>,
    pub workspace_id: Option<String>,
    pub zoomed: bool,
}

/// Index of the first pane whose id is `id`.
pub open spec fn first_pane_with_id(panes: Seq<LayoutPane>, id: Seq<char>) -> Option<int>
    decreases panes.len(),
{
    if panes.len() == 0 {
        None
    } else if panes[0].pane_id@ == id {
        Some(0)
    } else {
        match first_pane_with_id(panes.drop_first(), id) {
            Some(i) => Some(i + 1),
            None => None,
        }
    }
}

/// Index of the first focused pane.
pub open spec fn first_focused_pane(panes: Seq<LayoutPane>) -> Option<int>
    decreases panes.len(),
{
    if panes.len() == 0 {
        None
    } else if panes[0].focused {
        Some(0)
    } else {
        match first_focused_pane(panes.drop_first()) {
            Some(i) => Some(i + 1),
            None => None,
        }
    }
}

/// The pane standing for the target: the pane with its id, else the focused pane.
pub open spec fn target_pane_index(layout: LayoutSnapshot, target: Seq<char>) -> Option<int> {
    match first_pane_with_id(layout.panes@, target) {
        Some(i) => Some(i),
        None => first_focused_pane(layout.panes@),
    }
}

/// Whether the target is focused: that pane's flag, else whether the
/// layout's focused id is the target, else false.
pub open spec fn target_is_focused(layout: LayoutSnapshot, target: Seq<char>) -> bool {
    match target_pane_index(layout, target) {
        Some(i) => layout.panes@[i].focused,
        None => match layout.focused_pane_id {
            Some(id) => id@ == target,
            None => false,
        },
    }
}

/// The target's outer rect: the whole area when the tab is zoomed on a
/// focused target, else the target pane's rect, else the whole area.
pub open spec fn target_outer_rect(layout: LayoutSnapshot, target: Seq<char>) -> Rect {
    if layout.zoomed && target_is_focused(layout, target) {
        layout.area
    } else {
        match target_pane_index(layout, target) {
            Some(i) => layout.panes@[i].rect,
            None => layout.area,
        }
    }
}

/// `r` inset by `amount` on every side (the meaning of [`Rect::inset`]).
pub open spec fn inset_rect(r: Rect, amount: int) -> Rect {
    Rect {
        x: sat_add(r.x as int, amount) as u16,
        y: sat_add(r.y as int, amount) as u16,
        width: sat_sub(r.width as int, sat_add(amount, amount)) as u16,
        height: sat_sub(r.height as int, sat_add(amount, amount)) as u16,
    }
}

/// The content rect inside an outer rect: a one-cell border when the tab
/// has several panes, then one column reserved on the right when more than
/// one is left.
pub open spec fn content_rect(outer: Rect, pane_count: int) -> Rect {
    let inner = inset_rect(outer, if pane_count > 1 { 1 } else { 0 });
    Rect {
        width: sat_sub(inner.width as int, if inner.width > 1 { 1 } else { 0 }) as u16,
        ..inner
    }
}

/// First pane with the given id.
fn find_pane_with_id(panes: &Vec<LayoutPane>, id: &String) -> (found: Option<usize>)
    ensures
        match found {
            Some(i) => i < panes@.len() && first_pane_with_id(panes@, id@) == Some(i as int),
            None => first_pane_with_id(panes@, id@) is None,
        },
{
    let mut i: usize = 0;
    assert(panes@.skip(0) =~= panes@);
    while i < panes.len()
        invariant
            i <= panes@.len(),
            first_pane_with_id(panes@, id@) == match first_pane_with_id(panes@.skip(i as int), id@) {
                Some(k) => Some(k + i),
                None => None,
            },
        decreases panes@.len() - i,
    {
        assert(panes@.skip(i as int)[0] == panes@[i as int]);
        assert(panes@.skip(i as int).drop_first() =~= panes@.skip(i + 1));
        if panes[i].pane_id == *id {
            return Some(i);
        }
        i = i + 1;
    }
    None
}

/// First focused pane.
fn find_focused_pane(panes: &Vec<LayoutPane>) -> (found: Option<usize>)
    ensures
        match found {
            Some(i) => i < panes@.len() && first_focused_pane(panes@) == Some(i as int),
            None => first_focused_pane(panes@) is None,
        },
{
    let mut i: usize = 0;
    assert(panes@.skip(0) =~= panes@);
    while i < panes.len()
        invariant
            i <= panes@.len(),
            first_focused_pane(panes@) == match first_focused_pane(panes@.skip(i as int)) {
                Some(k) => Some(k + i),
                None => None,
            },
        decreases panes@.len() - i,
    {
        assert(panes@.skip(i as int)[0] == panes@[i as int]);
        assert(panes@.skip(i as int).drop_first() =~= panes@.skip(i + 1));
        if panes[i].focused {
            return Some(i);
        }
        i = i + 1;
    }
    None
}

/// The index of the pane standing for the target.
fn target_pane_position(layout: &LayoutSnapshot, target: &PaneId) -> (found: Option<usize>)
    ensures
        match found {
            Some(i) => i < layout.panes@.len() && target_pane_index(*layout, target.0@) == Some(
                i as int,
            ),
            None => target_pane_index(*layout, target.0@) is None,
        },
{
    match find_pane_with_id(&layout.panes, &target.0) {
        Some(i) => Some(i),
        None => find_focused_pane(&layout.panes),
    }
}

/// The source geometry of the target in a layout.
pub open spec fn source_geometry(layout: LayoutSnapshot, target: PaneId) -> SourceGeometrySnapshot {
    SourceGeometrySnapshot {
        target_pane_id: target,
        terminal_area: layout.area,
        source_outer_rect: target_outer_rect(layout, target.0@),
        source_content_rect: content_rect(target_outer_rect(layout, target.0@), layout.panes@.len() as int),
        pane_count: layout.panes@.len() as usize,
        zoomed: layout.zoomed,
        target_focused: target_is_focused(layout, target.0@),
    }
}

/// Derives source-pane content geometry from Herdr-global pre-overlay layout coordinates.
pub fn derive_source_geometry(layout: &LayoutSnapshot, target: &PaneId) -> (geometry: SourceGeometrySnapshot)
    ensures
        geometry == source_geometry(*layout, *target),
        geometry.target_pane_id == *target,
        geometry.terminal_area == layout.area,
        geometry.pane_count == layout.panes@.len(),
        geometry.zoomed == layout.zoomed,
        geometry.target_focused == target_is_focused(*layout, target.0@),
        geometry.source_outer_rect == target_outer_rect(*layout, target.0@),
        geometry.source_content_rect == content_rect(
            target_outer_rect(*layout, target.0@),
            layout.panes@.len() as int,
        ),
{
    let pane_count = layout.panes.len();
    let target_pane = target_pane_position(layout, target);
    let target_focused = match target_pane {
        Some(i) => layout.panes[i].focused,
        None => match &layout.focused_pane_id {
            Some(id) => *id == target.0,
            None => false,
        },
    };
    let use_full_area = layout.zoomed && target_focused;
    let source_outer_rect = if use_full_area {
        layout.area
    } else {
        match target_pane {
            Some(i) => layout.panes[i].rect,
            None => layout.area,
        }
    };
    let border_inset: u16 = if pane_count > 1 {
        1
    } else {
        0
    };
    let inner = source_outer_rect.inset(border_inset);
    let gutter: u16 = if inner.width > 1 {
        1
    } else {
        0
    };
    let source_content_rect = inner.reserve_right_gutter(gutter);
    SourceGeometrySnapshot {
        target_pane_id: PaneId(target.0.clone()),
        terminal_area: layout.area,
        source_outer_rect,
        source_content_rect,
        pane_count,
        zoomed: layout.zoomed,
        target_focused,
    }
}

/// Whether the target pane is marked focused in the layout: named by the
/// layout's focused id, or a pane with its id is flagged focused.
pub open spec fn target_marked_focused(layout: LayoutSnapshot, target: Seq<char>) -> bool {
    (layout.focused_pane_id matches Some(id) && id@ == target) || exists|i: int|
        0 <= i < layout.panes@.len() && (#[trigger] layout.panes@[i]).pane_id@ == target
            && layout.panes@[i].focused
}

/// Whether the target pane is focused in the layout: named by the layout's
/// focused id, or a pane with its id is flagged focused.
pub fn layout_target_is_focused(layout: &LayoutSnapshot, target: &PaneId) -> (focused: bool)
    ensures
        focused == target_marked_focused(*layout, target.0@),
{
    if let Some(id) = &layout.focused_pane_id {
        if *id == target.0 {
            return true;
        }
    }
    let mut i: usize = 0;
    while i < layout.panes.len()
        invariant
            i <= layout.panes@.len(),
            !(layout.focused_pane_id matches Some(id) && id@ == target.0@),
            forall|j: int|
                0 <= j < i ==> !((#[trigger] layout.panes@[j]).pane_id@ == target.0@
                    && layout.panes@[j].focused),
        decreases layout.panes@.len() - i,
    {
        if layout.panes[i].pane_id == target.0 && layout.panes[i].focused {
            return true;
        }
        i = i + 1;
    }
    false
}


/// Binary Herdr layout tree with source pane ids preserved at leaves. A
/// split's ratio is kept as the bit pattern of its `f32` value.
#[derive(Debug, PartialEq, Eq)]
pub enum LayoutNode {
    Pane { source_pane_id: PaneId, rect: Rect },
    Split {
        direction: SplitDirection,
        ratio_bits: u32,
        first: Box<LayoutNode>,
        second: Box<LayoutNode>,
        rect: Rect,
    },
}

/// Replayable layout plan plus the source pane that must receive the picker.
#[derive(Debug, PartialEq, Eq)]
pub struct LayoutRecreationPlan {
    pub root: LayoutNode,
    pub target_source_pane_id: PaneId,
}

/// Why a layout snapshot describes no split tree.
#[derive(Debug, Clone, Copy, PartialEq, Eq, Structural)]
pub enum LayoutError {
    /// A region holds no pane.
    EmptyRegion { region: Rect },
    /// A region holds several panes and no split has exactly its rect.
    MissingSplit { pane_count: usize },
    /// A pane straddles the boundary of the split that divides its region.
    CrossesSplit { rect: Rect, split_at: u16 },
    /// A split leaves no pane before its boundary.
    EmptyFirstChild,
    /// A split leaves no pane after its boundary.
    EmptySecondChild,
    /// The splits nest deeper than there are panes; they then keep
    /// dividing a region into itself, and no depth resolves them.
    TooDeep,
}

/// A layout tree with pane ids taken as text.
pub ghost enum LayoutTree {
    Pane { id: Seq<char>, rect: Rect },
    Split {
        direction: SplitDirection,
        ratio_bits: u32,
        first: Box<LayoutTree>,
        second: Box<LayoutTree>,
        rect: Rect,
    },
}

/// The tree a layout node stands for.
pub open spec fn tree_of(node: LayoutNode) -> LayoutTree
    decreases node,
{
    match node {
        LayoutNode::Pane { source_pane_id, rect } => LayoutTree::Pane { id: source_pane_id.0@, rect },
        LayoutNode::Split { direction, ratio_bits, first, second, rect } => LayoutTree::Split {
            direction,
            ratio_bits,
            first: Box::new(tree_of(*first)),
            second: Box::new(tree_of(*second)),
            rect,
        },
    }
}

impl View for LayoutNode {
    type V = LayoutTree;

    open spec fn view(&self) -> LayoutTree {
        tree_of(*self)
    }
}

/// Whether `inner` lies within `outer`, far edges taken as saturating sums.
pub open spec fn rect_within(outer: Rect, inner: Rect) -> bool {
    &&& inner.x >= outer.x
    &&& inner.y >= outer.y
    &&& sat_add(inner.x as int, inner.width as int) <= sat_add(outer.x as int, outer.width as int)
    &&& sat_add(inner.y as int, inner.height as int) <= sat_add(outer.y as int, outer.height as int)
}

/// The panes lying within a region, in snapshot order.
pub open spec fn panes_in(region: Rect, panes: Seq<LayoutPane>) -> Seq<LayoutPane> {
    panes.filter(|p: LayoutPane| rect_within(region, p.rect))
}

/// Index of the first split whose rect is exactly the region.
pub open spec fn split_index_for(splits: Seq<LayoutSplit>, region: Rect) -> Option<int>
    decreases splits.len(),
{
    if splits.len() == 0 {
        None
    } else if splits[0].rect == region {
        Some(0)
    } else {
        match split_index_for(splits.drop_first(), region) {
            Some(i) => Some(i + 1),
            None => None,
        }
    }
}

/// The split found for a region has exactly the region's rect.
proof fn lemma_split_index_rect(splits: Seq<LayoutSplit>, region: Rect)
    ensures
        split_index_for(splits, region) matches Some(i) ==> 0 <= i < splits.len() && splits[i].rect
            == region,
    decreases splits.len(),
{
    if splits.len() > 0 && splits[0].rect != region {
        lemma_split_index_rect(splits.drop_first(), region);
    }
}

/// The coordinate at which a split divides a region.
pub open spec fn split_boundary(region: Rect, split: LayoutSplit) -> int {
    match split.direction {
        SplitDirection::Right => region.x + split.offset,
        SplitDirection::Down => region.y + split.offset,
    }
}

/// Whether every split's boundary, taken on its own rect, is a cell coordinate.
pub open spec fn splits_fit(splits: Seq<LayoutSplit>) -> bool {
    forall|i: int|
        0 <= i < splits.len() ==> split_boundary(#[trigger] splits[i].rect, splits[i]) <= u16_max()
}

/// Whether a rect ends at or before the boundary.
pub open spec fn ends_before(r: Rect, direction: SplitDirection, at: int) -> bool {
    match direction {
        SplitDirection::Right => sat_add(r.x as int, r.width as int) <= at,
        SplitDirection::Down => sat_add(r.y as int, r.height as int) <= at,
    }
}

/// Whether a rect starts at or after the boundary.
pub open spec fn starts_after(r: Rect, direction: SplitDirection, at: int) -> bool {
    match direction {
        SplitDirection::Right => r.x >= at,
        SplitDirection::Down => r.y >= at,
    }
}

/// Whether a rect lies on neither side of the boundary.
pub open spec fn crosses(r: Rect, direction: SplitDirection, at: int) -> bool {
    !ends_before(r, direction, at) && !starts_after(r, direction, at)
}

/// Index of the first pane that crosses the boundary.
pub open spec fn first_crossing(panes: Seq<LayoutPane>, direction: SplitDirection, at: int) -> Option<int>
    decreases panes.len(),
{
    if panes.len() == 0 {
        None
    } else if crosses(panes[0].rect, direction, at) {
        Some(0)
    } else {
        match first_crossing(panes.drop_first(), direction, at) {
            Some(i) => Some(i + 1),
            None => None,
        }
    }
}

/// Rects of the panes that end before the boundary.
pub open spec fn first_side_rects(panes: Seq<LayoutPane>, direction: SplitDirection, at: int) -> Seq<Rect> {
    panes.filter(|p: LayoutPane| ends_before(p.rect, direction, at)).map_values(|p: LayoutPane| p.rect)
}

/// Rects of the panes that do not end before the boundary and start after it.
pub open spec fn second_side_rects(panes: Seq<LayoutPane>, direction: SplitDirection, at: int) -> Seq<Rect> {
    panes.filter(
        |p: LayoutPane| !ends_before(p.rect, direction, at) && starts_after(p.rect, direction, at),
    ).map_values(|p: LayoutPane| p.rect)
}

/// The larger of two integers.
pub open spec fn max_int(a: int, b: int) -> int {
    if a >= b {
        a
    } else {
        b
    }
}

/// Least element of a non-empty sequence.
pub open spec fn min_of(s: Seq<int>) -> int
    decreases s.len(),
{
    if s.len() <= 1 {
        s[0]
    } else {
        min_int(min_of(s.drop_last()), s.last())
    }
}

/// Greatest element of a non-empty sequence.
pub open spec fn max_of(s: Seq<int>) -> int
    decreases s.len(),
{
    if s.len() <= 1 {
        s[0]
    } else {
        max_int(max_of(s.drop_last()), s.last())
    }
}

/// The smallest rect holding all the given rects, far edges taken as
/// saturating sums; none for no rects.
pub open spec fn bounding_box(rects: Seq<Rect>) -> Option<Rect> {
    if rects.len() == 0 {
        None
    } else {
        let min_x = min_of(rects.map_values(|r: Rect| r.x as int));
        let min_y = min_of(rects.map_values(|r: Rect| r.y as int));
        let max_x = max_of(rects.map_values(|r: Rect| sat_add(r.x as int, r.width as int)));
        let max_y = max_of(rects.map_values(|r: Rect| sat_add(r.y as int, r.height as int)));
        Some(
            Rect {
                x: min_x as u16,
                y: min_y as u16,
                width: sat_sub(max_x, min_x) as u16,
                height: sat_sub(max_y, min_y) as u16,
            },
        )
    }
}

/// The two child regions of a split: the bounding rects of the panes on
/// either side of its boundary, or why there are none.
pub open spec fn split_parts(region: Rect, split: LayoutSplit, inside: Seq<LayoutPane>) -> Result<
    (Rect, Rect),
    LayoutError,
> {
    let at = split_boundary(region, split);
    match first_crossing(inside, split.direction, at) {
        Some(k) => Err(LayoutError::CrossesSplit { rect: inside[k].rect, split_at: at as u16 }),
        None => match bounding_box(first_side_rects(inside, split.direction, at)) {
            None => Err(LayoutError::EmptyFirstChild),
            Some(first) => match bounding_box(second_side_rects(inside, split.direction, at)) {
                None => Err(LayoutError::EmptySecondChild),
                Some(second) => Ok((first, second)),
            },
        },
    }
}

/// The split tree of a region: a leaf for a region holding one pane, else
/// the split with exactly the region's rect over the trees of its two
/// child regions, nested at most `depth` splits deep.
pub open spec fn layout_tree(region: Rect, panes: Seq<LayoutPane>, splits: Seq<LayoutSplit>, depth: nat) -> Result<
    LayoutTree,
    LayoutError,
>
    decreases depth,
{
    let inside = panes_in(region, panes);
    if inside.len() == 0 {
        Err(LayoutError::EmptyRegion { region })
    } else if inside.len() == 1 {
        Ok(LayoutTree::Pane { id: inside[0].pane_id@, rect: inside[0].rect })
    } else {
        match split_index_for(splits, region) {
            None => Err(LayoutError::MissingSplit { pane_count: inside.len() as usize }),
            Some(k) => match split_parts(region, splits[k], inside) {
                Err(e) => Err(e),
                Ok(parts) => if depth == 0 {
                    Err(LayoutError::TooDeep)
                } else {
                    match layout_tree(parts.0, panes, splits, (depth - 1) as nat) {
                        Err(e) => Err(e),
                        Ok(first) => match layout_tree(parts.1, panes, splits, (depth - 1) as nat) {
                            Err(e) => Err(e),
                            Ok(second) => Ok(
                                LayoutTree::Split {
                                    direction: splits[k].direction,
                                    ratio_bits: splits[k].ratio_bits,
                                    first: Box::new(first),
                                    second: Box::new(second),
                                    rect: region,
                                },
                            ),
                        },
                    }
                },
            },
        }
    }
}

/// Whether `inner` lies within `outer`.
fn rect_contains_rect(outer: Rect, inner: Rect) -> (b: bool)
    ensures
        b == rect_within(outer, inner),
{
    inner.x >= outer.x && inner.y >= outer.y && add_u16(inner.x, inner.width) <= add_u16(
        outer.x,
        outer.width,
    ) && add_u16(inner.y, inner.height) <= add_u16(outer.y, outer.height)
}

/// The panes at the given indices.
pub open spec fn panes_at(panes: Seq<LayoutPane>, indices: Seq<usize>) -> Seq<LayoutPane> {
    indices.map_values(|k: usize| panes[k as int])
}

/// Whether every index is a position of the panes.
pub open spec fn indices_valid(panes: Seq<LayoutPane>, indices: Seq<usize>) -> bool {
    forall|j: int| 0 <= j < indices.len() ==> #[trigger] indices[j] < panes.len()
}

/// Indices of the panes lying within a region, in snapshot order.
fn panes_inside(region: Rect, panes: &Vec<LayoutPane>) -> (inside: Vec<usize>)
    ensures
        indices_valid(panes@, inside@),
        panes_at(panes@, inside@) == panes_in(region, panes@),
{
    let ghost pred = |p: LayoutPane| rect_within(region, p.rect);
    let mut inside: Vec<usize> = Vec::new();
    let mut i: usize = 0;
    while i < panes.len()
        invariant
            pred == (|p: LayoutPane| rect_within(region, p.rect)),
            i <= panes@.len(),
            indices_valid(panes@, inside@),
            panes_at(panes@, inside@) == panes@.take(i as int).filter(pred),
        decreases panes@.len() - i,
    {
        proof {
            reveal_with_fuel(Seq::<LayoutPane>::filter, 1);
            assert(panes@.take(i + 1).drop_last() =~= panes@.take(i as int));
            assert(panes@.take(i + 1).last() == panes@[i as int]);
        }
        let ghost before = inside@;
        if rect_contains_rect(region, panes[i].rect) {
            inside.push(i);
            assert(panes_at(panes@, inside@) =~= panes_at(panes@, before).push(panes@[i as int]));
        }
        i = i + 1;
    }
    assert(panes@.take(panes@.len() as int) =~= panes@);
    inside
}

/// First split whose rect is exactly the region.
fn find_split(splits: &Vec<LayoutSplit>, region: Rect) -> (found: Option<usize>)
    ensures
        match found {
            Some(i) => i < splits@.len() && split_index_for(splits@, region) == Some(i as int),
            None => split_index_for(splits@, region) is None,
        },
{
    let mut i: usize = 0;
    assert(splits@.skip(0) =~= splits@);
    while i < splits.len()
        invariant
            i <= splits@.len(),
            split_index_for(splits@, region) == match split_index_for(splits@.skip(i as int), region) {
                Some(k) => Some(k + i),
                None => None,
            },
        decreases splits@.len() - i,
    {
        assert(splits@.skip(i as int)[0] == splits@[i as int]);
        assert(splits@.skip(i as int).drop_first() =~= splits@.skip(i + 1));
        if splits[i].rect == region {
            return Some(i);
        }
        i = i + 1;
    }
    None
}

/// Bounding rect of the given rects; none for no rects.
fn bounding_rect(rects: &Vec<Rect>) -> (b: Option<Rect>)
    ensures
        b == bounding_box(rects@),
{
    if rects.len() == 0 {
        return None;
    }
    let ghost xs = rects@.map_values(|r: Rect| r.x as int);
    let ghost ys = rects@.map_values(|r: Rect| r.y as int);
    let ghost rs = rects@.map_values(|r: Rect| sat_add(r.x as int, r.width as int));
    let ghost bs = rects@.map_values(|r: Rect| sat_add(r.y as int, r.height as int));
    let mut min_x = rects[0].x;
    let mut min_y = rects[0].y;
    let mut max_x = add_u16(rects[0].x, rects[0].width);
    let mut max_y = add_u16(rects[0].y, rects[0].height);
    let mut i: usize = 1;
    while i < rects.len()
        invariant
            1 <= i <= rects@.len(),
            xs == rects@.map_values(|r: Rect| r.x as int),
            ys == rects@.map_values(|r: Rect| r.y as int),
            rs == rects@.map_values(|r: Rect| sat_add(r.x as int, r.width as int)),
            bs == rects@.map_values(|r: Rect| sat_add(r.y as int, r.height as int)),
            min_x == min_of(xs.take(i as int)),
            min_y == min_of(ys.take(i as int)),
            max_x == max_of(rs.take(i as int)),
            max_y == max_of(bs.take(i as int)),
        decreases rects@.len() - i,
    {
        proof {
            assert(xs.take(i + 1).drop_last() =~= xs.take(i as int));
            assert(ys.take(i + 1).drop_last() =~= ys.take(i as int));
            assert(rs.take(i + 1).drop_last() =~= rs.take(i as int));
            assert(bs.take(i + 1).drop_last() =~= bs.take(i as int));
        }
        let r = rects[i];
        if r.x < min_x {
            min_x = r.x;
        }
        if r.y < min_y {
            min_y = r.y;
        }
        let right = add_u16(r.x, r.width);
        if right > max_x {
            max_x = right;
        }
        let bottom = add_u16(r.y, r.height);
        if bottom > max_y {
            max_y = bottom;
        }
        i = i + 1;
    }
    proof {
        assert(xs.take(rects@.len() as int) =~= xs);
        assert(ys.take(rects@.len() as int) =~= ys);
        assert(rs.take(rects@.len() as int) =~= rs);
        assert(bs.take(rects@.len() as int) =~= bs);
    }
    Some(Rect { x: min_x, y: min_y, width: sub_u16(max_x, min_x), height: sub_u16(max_y, min_y) })
}

/// The two child regions of a split over the panes at `inside`.
fn partition_region(region: Rect, split: LayoutSplit, panes: &Vec<LayoutPane>, inside: &Vec<usize>) -> (parts:
    Result<(Rect, Rect), LayoutError>)
    requires
        indices_valid(panes@, inside@),
        split_boundary(region, split) <= u16_max(),
    ensures
        parts == split_parts(region, split, panes_at(panes@, inside@)),
{
    let ghost seq = panes_at(panes@, inside@);
    let direction = split.direction;
    let at: u16 = match direction {
        SplitDirection::Right => region.x + split.offset,
        SplitDirection::Down => region.y + split.offset,
    };
    let ghost before_pred = |p: LayoutPane| ends_before(p.rect, direction, at as int);
    let ghost after_pred = |p: LayoutPane|
        !ends_before(p.rect, direction, at as int) && starts_after(p.rect, direction, at as int);
    let ghost rect_of = |p: LayoutPane| p.rect;
    let mut first: Vec<Rect> = Vec::new();
    let mut second: Vec<Rect> = Vec::new();
    let mut i: usize = 0;
    assert(seq.skip(0) =~= seq);
    while i < inside.len()
        invariant
            seq == panes_at(panes@, inside@),
            indices_valid(panes@, inside@),
            at == split_boundary(region, split),
            direction == split.direction,
            before_pred == (|p: LayoutPane| ends_before(p.rect, direction, at as int)),
            after_pred == (|p: LayoutPane|
                !ends_before(p.rect, direction, at as int) && starts_after(
                    p.rect,
                    direction,
                    at as int,
                )),
            rect_of == (|p: LayoutPane| p.rect),
            i <= inside@.len(),
            first_crossing(seq, direction, at as int) == match first_crossing(
                seq.skip(i as int),
                direction,
                at as int,
            ) {
                Some(k) => Some(k + i),
                None => None,
            },
            first@ == seq.take(i as int).filter(before_pred).map_values(rect_of),
            second@ == seq.take(i as int).filter(after_pred).map_values(rect_of),
        decreases inside@.len() - i,
    {
        proof {
            reveal_with_fuel(Seq::<LayoutPane>::filter, 1);
            assert(seq.skip(i as int)[0] == seq[i as int]);
            assert(seq.skip(i as int).drop_first() =~= seq.skip(i + 1));
            assert(seq.take(i + 1).drop_last() =~= seq.take(i as int));
            assert(seq.take(i + 1).last() == seq[i as int]);
        }
        let r = panes[inside[i]].rect;
        assert(r == seq[i as int].rect);
        let ends = match direction {
            SplitDirection::Right => add_u16(r.x, r.width) <= at,
            SplitDirection::Down => add_u16(r.y, r.height) <= at,
        };
        let starts = match direction {
            SplitDirection::Right => r.x >= at,
            SplitDirection::Down => r.y >= at,
        };
        let ghost first_before = first@;
        let ghost second_before = second@;
        if ends {
            first.push(r);
            proof {
                let f = seq.take(i as int).filter(before_pred);
                assert(seq.take(i + 1).filter(before_pred) =~= f.push(seq[i as int]));
                assert(f.push(seq[i as int]).map_values(rect_of) =~= f.map_values(rect_of).push(r));
                assert(seq.take(i + 1).filter(after_pred) =~= seq.take(i as int).filter(after_pred));
            }
        } else if starts {
            second.push(r);
            proof {
                let f = seq.take(i as int).filter(after_pred);
                assert(seq.take(i + 1).filter(after_pred) =~= f.push(seq[i as int]));
                assert(f.push(seq[i as int]).map_values(rect_of) =~= f.map_values(rect_of).push(r));
                assert(seq.take(i + 1).filter(before_pred) =~= seq.take(i as int).filter(before_pred));
            }
        } else {
            return Err(LayoutError::CrossesSplit { rect: r, split_at: at });
        }
        i = i + 1;
    }
    proof {
        assert(seq.take(inside@.len() as int) =~= seq);
        assert(seq.skip(inside@.len() as int) =~= Seq::<LayoutPane>::empty());
    }
    let first_region = match bounding_rect(&first) {
        Some(r) => r,
        None => return Err(LayoutError::EmptyFirstChild),
    };
    let second_region = match bounding_rect(&second) {
        Some(r) => r,
        None => return Err(LayoutError::EmptySecondChild),
    };
    Ok((first_region, second_region))
}

/// The split tree of a region, nested at most `depth` splits deep.
fn build_layout_node(region: Rect, panes: &Vec<LayoutPane>, splits: &Vec<LayoutSplit>, depth: usize) -> (node:
    Result<LayoutNode, LayoutError>)
    requires
        splits_fit(splits@),
    ensures
        match node {
            Ok(n) => layout_tree(region, panes@, splits@, depth as nat) == Ok::<LayoutTree, LayoutError>(n@),
            Err(e) => layout_tree(region, panes@, splits@, depth as nat) == Err::<LayoutTree, LayoutError>(e),
        },
    decreases depth,
{
    let inside = panes_inside(region, panes);
    let ghost seq = panes_at(panes@, inside@);
    assert(seq.len() == inside@.len());
    if inside.len() == 0 {
        return Err(LayoutError::EmptyRegion { region });
    }
    if inside.len() == 1 {
        let pane = &panes[inside[0]];
        assert(seq[0] == panes@[inside@[0] as int]);
        return Ok(LayoutNode::Pane { source_pane_id: PaneId(pane.pane_id.clone()), rect: pane.rect });
    }
    let k = match find_split(splits, region) {
        Some(k) => k,
        None => return Err(LayoutError::MissingSplit { pane_count: inside.len() }),
    };
    let split = splits[k];
    proof {
        lemma_split_index_rect(splits@, region);
    }
    assert(split_boundary(splits@[k as int].rect, splits@[k as int]) <= u16_max());
    let parts = match partition_region(region, split, panes, &inside) {
        Ok(parts) => parts,
        Err(e) => return Err(e),
    };
    if depth == 0 {
        return Err(LayoutError::TooDeep);
    }
    let first = match build_layout_node(parts.0, panes, splits, depth - 1) {
        Ok(n) => n,
        Err(e) => return Err(e),
    };
    let second = match build_layout_node(parts.1, panes, splits, depth - 1) {
        Ok(n) => n,
        Err(e) => return Err(e),
    };
    Ok(
        LayoutNode::Split {
            direction: split.direction,
            ratio_bits: split.ratio_bits,
            first: Box::new(first),
            second: Box::new(second),
            rect: region,
        },
    )
}

/// Builds a pure replay plan from Herdr layout data without running Herdr
/// commands: the split tree of the whole area, nested at most as many splits
/// deep as there are panes.
pub fn derive_layout_recreation_plan(layout: &LayoutSnapshot, target: &PaneId) -> (plan: Result<
    LayoutRecreationPlan,
    LayoutError,
>)
    requires
        splits_fit(layout.splits@),
    ensures
        match plan {
            Ok(p) => {
                &&& layout_tree(layout.area, layout.panes@, layout.splits@, layout.panes@.len())
                    == Ok::<LayoutTree, LayoutError>(p.root@)
                &&& p.target_source_pane_id == *target
            },
            Err(e) => layout_tree(layout.area, layout.panes@, layout.splits@, layout.panes@.len())
                == Err::<LayoutTree, LayoutError>(e),
        },
{
    let root = match build_layout_node(layout.area, &layout.panes, &layout.splits, layout.panes.len()) {
        Ok(n) => n,
        Err(e) => return Err(e),
    };
    Ok(LayoutRecreationPlan { root, target_source_pane_id: PaneId(target.0.clone()) })
}

/// `x=.. y=.. w=.. h=..` for a rect.
pub open spec fn rect_text(r: Rect) -> Seq<char> {
    "x="@ + decimal(r.x as nat) + " y="@ + decimal(r.y as nat) + " w="@ + decimal(r.width as nat)
        + " h="@ + decimal(r.height as nat)
}

/// The message reported for a layout error.
pub open spec fn layout_error_text(e: LayoutError) -> Seq<char> {
    match e {
        LayoutError::EmptyRegion { region } => "layout region "@ + rect_text(region)
            + " contains no panes"@,
        LayoutError::MissingSplit { pane_count } => "no split describes layout region with "@
            + decimal(pane_count as nat) + " panes"@,
        LayoutError::CrossesSplit { rect, split_at } => "pane rect "@ + rect_text(rect)
            + " crosses split boundary "@ + decimal(split_at as nat),
        LayoutError::EmptyFirstChild => "split first child has no panes"@,
        LayoutError::EmptySecondChild => "split second child has no panes"@,
        LayoutError::TooDeep => "layout splits nest deeper than the layout has panes"@,
    }
}

/// `text` followed by the decimal form of `n`.
pub(crate) fn push_decimal(text: String, n: u64) -> (s: String)
    ensures
        s@ == text@ + decimal(n as nat),
{
    let digits = decimal_text(n);
    concat_str(text.as_str(), digits.as_str())
}

/// `text` followed by `x=.. y=.. w=.. h=..` for a rect.
pub(crate) fn push_rect(text: String, r: Rect) -> (s: String)
    ensures
        s@ == text@ + rect_text(r),
{
    let s = concat_str(text.as_str(), "x=");
    let s = push_decimal(s, r.x as u64);
    let s = concat_str(s.as_str(), " y=");
    let s = push_decimal(s, r.y as u64);
    let s = concat_str(s.as_str(), " w=");
    let s = push_decimal(s, r.width as u64);
    let s = concat_str(s.as_str(), " h=");
    let s = push_decimal(s, r.height as u64);
    assert(s@ =~= text@ + rect_text(r));
    s
}

impl LayoutError {
    /// The message reported for this error.
    pub fn message(&self) -> (m: String)
        ensures
            m@ == layout_error_text(*self),
    {
        match *self {
            LayoutError::EmptyRegion { region } => {
                let s = push_rect("layout region ".to_string(), region);
                let m = concat_str(s.as_str(), " contains no panes");
                assert(m@ =~= layout_error_text(*self));
                m
            },
            LayoutError::MissingSplit { pane_count } => {
                let s = push_decimal(
                    "no split describes layout region with ".to_string(),
                    pane_count as u64,
                );
                let m = concat_str(s.as_str(), " panes");
                assert(m@ =~= layout_error_text(*self));
                m
            },
            LayoutError::CrossesSplit { rect, split_at } => {
                let s = push_rect("pane rect ".to_string(), rect);
                let s = concat_str(s.as_str(), " crosses split boundary ");
                let m = push_decimal(s, split_at as u64);
                assert(m@ =~= layout_error_text(*self));
                m
            },
            LayoutError::EmptyFirstChild => "split first child has no panes".to_string(),
            LayoutError::EmptySecondChild => "split second child has no panes".to_string(),
            LayoutError::TooDeep => "layout splits nest deeper than the layout has panes".to_string(),
        }
    }
}

/// Whether every leaf of a tree is a pane of the snapshot, with its id and
/// rect, and every split node is a split of the snapshot, with its rect,
/// direction and ratio.
pub open spec fn tree_drawn_from(t: LayoutTree, panes: Seq<LayoutPane>, splits: Seq<LayoutSplit>) -> bool
    decreases t,
{
    match t {
        LayoutTree::Pane { id, rect } => exists|i: int|
            0 <= i < panes.len() && (#[trigger] panes[i]).pane_id@ == id && panes[i].rect == rect,
        LayoutTree::Split { direction, ratio_bits, first, second, rect } => {
            &&& exists|k: int|
                0 <= k < splits.len() && (#[trigger] splits[k]).rect == rect && splits[k].direction
                    == direction && splits[k].ratio_bits == ratio_bits
            &&& tree_drawn_from(*first, panes, splits)
            &&& tree_drawn_from(*second, panes, splits)
        },
    }
}

/// Whether a tree covers a region: a leaf's pane lies within it, and a
/// split node's rect is the region itself.
pub open spec fn tree_covers(t: LayoutTree, region: Rect) -> bool {
    match t {
        LayoutTree::Pane { rect, .. } => rect_within(region, rect),
        LayoutTree::Split { rect, .. } => rect == region,
    }
}

/// A derived split tree keeps the snapshot's pane ids at its leaves: each
/// leaf is a pane of the snapshot lying within its region, and each split
/// node replays one of the snapshot's splits over exactly that split's rect.
pub proof fn law_tree_drawn_from_snapshot(
    region: Rect,
    panes: Seq<LayoutPane>,
    splits: Seq<LayoutSplit>,
    depth: nat,
)
    ensures
        layout_tree(region, panes, splits, depth) matches Ok(t) ==> tree_drawn_from(t, panes, splits)
            && tree_covers(t, region),
    decreases depth,
{
    broadcast use Seq::lemma_filter_pred, Seq::lemma_filter_contains;

    let inside = panes_in(region, panes);
    if let Ok(t) = layout_tree(region, panes, splits, depth) {
        if inside.len() == 1 {
            let pred = |p: LayoutPane| rect_within(region, p.rect);
            assert(pred(panes.filter(pred)[0]));
            assert(panes.filter(pred).contains(inside[0]));
            panes.lemma_filter_contains_rev(pred, inside[0]);
            let i = choose|i: int| 0 <= i < panes.len() && panes[i] == inside[0];
            assert(panes[i].pane_id@ == inside[0].pane_id@);
        } else {
            lemma_split_index_rect(splits, region);
            let k = split_index_for(splits, region)->0;
            if let Ok(parts) = split_parts(region, splits[k], inside) {
                law_tree_drawn_from_snapshot(parts.0, panes, splits, (depth - 1) as nat);
                law_tree_drawn_from_snapshot(parts.1, panes, splits, (depth - 1) as nat);
            }
            assert(splits[k].rect == region);
        }
    }
}

/// The depth bound only ever turns a result into [`LayoutError::TooDeep`]:
/// a tree or any other error found within some depth is found, the same,
/// within every greater depth.
pub proof fn law_depth_only_bounds(
    region: Rect,
    panes: Seq<LayoutPane>,
    splits: Seq<LayoutSplit>,
    depth: nat,
    deeper: nat,
)
    requires
        depth <= deeper,
        layout_tree(region, panes, splits, depth) != Err::<LayoutTree, LayoutError>(LayoutError::TooDeep),
    ensures
        layout_tree(region, panes, splits, deeper) == layout_tree(region, panes, splits, depth),
    decreases depth,
{
    let inside = panes_in(region, panes);
    if inside.len() >= 2 {
        if let Some(k) = split_index_for(splits, region) {
            if let Ok(parts) = split_parts(region, splits[k], inside) {
                let d = (depth - 1) as nat;
                let e = (deeper - 1) as nat;
                law_depth_only_bounds(parts.0, panes, splits, d, e);
                if let Ok(_) = layout_tree(parts.0, panes, splits, d) {
                    law_depth_only_bounds(parts.1, panes, splits, d, e);
                }
            }
        }
    }
}

/// Whether `outer` holds `inner`, the far edges of `inner` taken as
/// saturating sums.
pub open spec fn holds_rect(outer: Rect, inner: Rect) -> bool {
    &&& outer.x <= inner.x
    &&& outer.y <= inner.y
    &&& sat_add(inner.x as int, inner.width as int) <= outer.x + outer.width
    &&& sat_add(inner.y as int, inner.height as int) <= outer.y + outer.height
}

/// Whether `b` is the smallest rect holding all of `rects`: it holds each
/// of them, and each of its four edges is the same edge of one of them.
pub open spec fn smallest_holding(b: Rect, rects: Seq<Rect>) -> bool {
    &&& forall|i: int| 0 <= i < rects.len() ==> holds_rect(b, #[trigger] rects[i])
    &&& exists|i: int| 0 <= i < rects.len() && #[trigger] rects[i].x == b.x
    &&& exists|i: int| 0 <= i < rects.len() && #[trigger] rects[i].y == b.y
    &&& exists|i: int|
        0 <= i < rects.len() && sat_add(#[trigger] rects[i].x as int, rects[i].width as int) == b.x + b.width
    &&& exists|i: int|
        0 <= i < rects.len() && sat_add(#[trigger] rects[i].y as int, rects[i].height as int) == b.y
            + b.height
}

proof fn lemma_min_of(s: Seq<int>)
    requires
        s.len() > 0,
    ensures
        forall|i: int| 0 <= i < s.len() ==> min_of(s) <= #[trigger] s[i],
        exists|i: int| 0 <= i < s.len() && #[trigger] s[i] == min_of(s),
    decreases s.len(),
{
    if s.len() > 1 {
        let t = s.drop_last();
        lemma_min_of(t);
        let j = choose|j: int| 0 <= j < t.len() && #[trigger] t[j] == min_of(t);
        if min_of(t) <= s.last() {
            assert(s[j] == min_of(s));
        } else {
            assert(s[s.len() - 1] == min_of(s));
        }
        assert forall|i: int| 0 <= i < s.len() implies min_of(s) <= #[trigger] s[i] by {
            if i < s.len() - 1 {
                assert(s[i] == t[i]);
            }
        }
    } else {
        assert(s[0] == min_of(s));
    }
}

proof fn lemma_max_of(s: Seq<int>)
    requires
        s.len() > 0,
    ensures
        forall|i: int| 0 <= i < s.len() ==> max_of(s) >= #[trigger] s[i],
        exists|i: int| 0 <= i < s.len() && #[trigger] s[i] == max_of(s),
    decreases s.len(),
{
    if s.len() > 1 {
        let t = s.drop_last();
        lemma_max_of(t);
        let j = choose|j: int| 0 <= j < t.len() && #[trigger] t[j] == max_of(t);
        if max_of(t) >= s.last() {
            assert(s[j] == max_of(s));
        } else {
            assert(s[s.len() - 1] == max_of(s));
        }
        assert forall|i: int| 0 <= i < s.len() implies max_of(s) >= #[trigger] s[i] by {
            if i < s.len() - 1 {
                assert(s[i] == t[i]);
            }
        }
    } else {
        assert(s[0] == max_of(s));
    }
}

/// The bounding box of some rects is the smallest rect holding them all;
/// no rects have none.
pub proof fn law_bounding_box_is_smallest(rects: Seq<Rect>)
    ensures
        rects.len() == 0 <==> bounding_box(rects) is None,
        bounding_box(rects) matches Some(b) ==> smallest_holding(b, rects),
{
    if rects.len() > 0 {
        let xs = rects.map_values(|r: Rect| r.x as int);
        let ys = rects.map_values(|r: Rect| r.y as int);
        let rs = rects.map_values(|r: Rect| sat_add(r.x as int, r.width as int));
        let bs = rects.map_values(|r: Rect| sat_add(r.y as int, r.height as int));
        lemma_min_of(xs);
        lemma_min_of(ys);
        lemma_max_of(rs);
        lemma_max_of(bs);
        let ix = choose|i: int| 0 <= i < xs.len() && #[trigger] xs[i] == min_of(xs);
        let iy = choose|i: int| 0 <= i < ys.len() && #[trigger] ys[i] == min_of(ys);
        let ir = choose|i: int| 0 <= i < rs.len() && #[trigger] rs[i] == max_of(rs);
        let ib = choose|i: int| 0 <= i < bs.len() && #[trigger] bs[i] == max_of(bs);
        assert(rs[ix] >= xs[ix]);
        assert(bs[iy] >= ys[iy]);
        assert(rs[ir] <= u16_max());
        assert(bs[ib] <= u16_max());
        let b = bounding_box(rects)->0;
        assert(b.x == min_of(xs));
        assert(b.y == min_of(ys));
        assert(b.x + b.width == max_of(rs));
        assert(b.y + b.height == max_of(bs));
        assert forall|i: int| 0 <= i < rects.len() implies holds_rect(b, #[trigger] rects[i]) by {
            assert(xs[i] == rects[i].x);
            assert(ys[i] == rects[i].y);
            assert(rs[i] == sat_add(rects[i].x as int, rects[i].width as int));
            assert(bs[i] == sat_add(rects[i].y as int, rects[i].height as int));
        }
        assert(rects[ix].x == b.x);
        assert(rects[iy].y == b.y);
        assert(sat_add(rects[ir].x as int, rects[ir].width as int) == b.x + b.width);
        assert(sat_add(rects[ib].y as int, rects[ib].height as int) == b.y + b.height);
    }
}

proof fn lemma_first_crossing_none(panes: Seq<LayoutPane>, direction: SplitDirection, at: int)
    ensures
        first_crossing(panes, direction, at) is None <==> forall|i: int|
            0 <= i < panes.len() ==> !crosses(#[trigger] panes[i].rect, direction, at),
    decreases panes.len(),
{
    if panes.len() > 0 {
        lemma_first_crossing_none(panes.drop_first(), direction, at);
        if first_crossing(panes, direction, at) is None {
            assert forall|i: int| 0 <= i < panes.len() implies !crosses(#[trigger] panes[i].rect, direction, at) by {
                if i > 0 {
                    assert(panes[i] == panes.drop_first()[i - 1]);
                }
            }
        } else if !crosses(panes[0].rect, direction, at) {
            let k = choose|k: int| 0 <= k < panes.len() - 1 && crosses(#[trigger] panes.drop_first()[k].rect, direction, at);
            assert(panes.drop_first()[k] == panes[k + 1]);
        }
    }
}

/// A filtered sequence has an item exactly when one of the items satisfies
/// the predicate; each item satisfying it is among those kept.
proof fn lemma_filter_items<A>(s: Seq<A>, pred: spec_fn(A) -> bool)
    ensures
        s.filter(pred).len() > 0 <==> exists|i: int| 0 <= i < s.len() && pred(#[trigger] s[i]),
        forall|i: int|
            0 <= i < s.len() && pred(#[trigger] s[i]) ==> exists|j: int|
                0 <= j < s.filter(pred).len() && s.filter(pred)[j] == s[i],
{
    broadcast use Seq::lemma_filter_pred, Seq::lemma_filter_contains;

    if s.filter(pred).len() > 0 {
        let x = s.filter(pred)[0];
        assert(s.filter(pred).contains(x));
        s.lemma_filter_contains_rev(pred, x);
        let i = choose|i: int| 0 <= i < s.len() && s[i] == x;
        assert(pred(s[i]));
    }
    assert forall|i: int| 0 <= i < s.len() && pred(#[trigger] s[i]) implies exists|j: int|
        0 <= j < s.filter(pred).len() && s.filter(pred)[j] == s[i] by {
        assert(s.filter(pred).contains(s[i]));
    }
}

/// A split divides the panes of its region in two. It succeeds exactly when
/// no pane crosses its boundary and each side holds a pane. Then each child
/// region is the smallest rect holding the panes on its side, and every pane
/// lies in the first child if it ends at or before the boundary, and in the
/// second otherwise.
pub proof fn law_split_partitions_panes(region: Rect, split: LayoutSplit, inside: Seq<LayoutPane>)
    ensures
        split_parts(region, split, inside) is Ok <==> (forall|i: int|
            0 <= i < inside.len() ==> !crosses(
                #[trigger] inside[i].rect,
                split.direction,
                split_boundary(region, split),
            )) && (exists|i: int|
            0 <= i < inside.len() && ends_before(
                #[trigger] inside[i].rect,
                split.direction,
                split_boundary(region, split),
            )) && (exists|i: int|
            0 <= i < inside.len() && starts_after(
                #[trigger] inside[i].rect,
                split.direction,
                split_boundary(region, split),
            ) && !ends_before(inside[i].rect, split.direction, split_boundary(region, split))),
        split_parts(region, split, inside) matches Ok(parts) ==> smallest_holding(
            parts.0,
            first_side_rects(inside, split.direction, split_boundary(region, split)),
        ) && smallest_holding(
            parts.1,
            second_side_rects(inside, split.direction, split_boundary(region, split)),
        ) && forall|i: int|
            0 <= i < inside.len() ==> if ends_before(
                #[trigger] inside[i].rect,
                split.direction,
                split_boundary(region, split),
            ) {
                holds_rect(parts.0, inside[i].rect)
            } else {
                holds_rect(parts.1, inside[i].rect)
            },
{
    let d = split.direction;
    let at = split_boundary(region, split);
    let p1 = |p: LayoutPane| ends_before(p.rect, d, at);
    let p2 = |p: LayoutPane| !ends_before(p.rect, d, at) && starts_after(p.rect, d, at);
    let f1 = first_side_rects(inside, d, at);
    let f2 = second_side_rects(inside, d, at);
    lemma_first_crossing_none(inside, d, at);
    lemma_filter_items(inside, p1);
    lemma_filter_items(inside, p2);
    law_bounding_box_is_smallest(f1);
    law_bounding_box_is_smallest(f2);
    assert(f1.len() == inside.filter(p1).len());
    assert(f2.len() == inside.filter(p2).len());
    if (exists|i: int| 0 <= i < inside.len() && p1(#[trigger] inside[i])) {
        let i = choose|i: int| 0 <= i < inside.len() && p1(#[trigger] inside[i]);
        assert(ends_before(inside[i].rect, d, at));
    }
    if (exists|i: int| 0 <= i < inside.len() && ends_before(#[trigger] inside[i].rect, d, at)) {
        let i = choose|i: int| 0 <= i < inside.len() && ends_before(#[trigger] inside[i].rect, d, at);
        assert(p1(inside[i]));
    }
    if (exists|i: int| 0 <= i < inside.len() && p2(#[trigger] inside[i])) {
        let i = choose|i: int| 0 <= i < inside.len() && p2(#[trigger] inside[i]);
        assert(starts_after(inside[i].rect, d, at));
    }
    if (exists|i: int|
        0 <= i < inside.len() && starts_after(#[trigger] inside[i].rect, d, at) && !ends_before(
            inside[i].rect,
            d,
            at,
        )) {
        let i = choose|i: int|
            0 <= i < inside.len() && starts_after(#[trigger] inside[i].rect, d, at) && !ends_before(
                inside[i].rect,
                d,
                at,
            );
        assert(p2(inside[i]));
    }
    if let Ok(parts) = split_parts(region, split, inside) {
        assert forall|i: int| 0 <= i < inside.len() implies if ends_before(
            #[trigger] inside[i].rect,
            d,
            at,
        ) {
            holds_rect(parts.0, inside[i].rect)
        } else {
            holds_rect(parts.1, inside[i].rect)
        } by {
            if p1(inside[i]) {
                let j = choose|j: int| 0 <= j < inside.filter(p1).len() && inside.filter(p1)[j] == inside[i];
                assert(f1[j] == inside[i].rect);
            } else {
                assert(!crosses(inside[i].rect, d, at));
                assert(p2(inside[i]));
                let j = choose|j: int| 0 <= j < inside.filter(p2).len() && inside.filter(p2)[j] == inside[i];
                assert(f2[j] == inside[i].rect);
            }
        }
    }
}

proof fn lemma_first_pane_with_id(panes: Seq<LayoutPane>, id: Seq<char>)
    ensures
        match first_pane_with_id(panes, id) {
            Some(i) => 0 <= i < panes.len() && panes[i].pane_id@ == id && forall|j: int|
                0 <= j < i ==> (#[trigger] panes[j]).pane_id@ != id,
            None => forall|j: int| 0 <= j < panes.len() ==> (#[trigger] panes[j]).pane_id@ != id,
        },
    decreases panes.len(),
{
    if panes.len() > 0 && panes[0].pane_id@ != id {
        let rest = panes.drop_first();
        lemma_first_pane_with_id(rest, id);
        assert forall|j: int| 1 <= j < panes.len() implies panes[j] == #[trigger] rest[j - 1] by {}
        match first_pane_with_id(rest, id) {
            Some(k) => {
                assert forall|j: int| 0 <= j < k + 1 implies (#[trigger] panes[j]).pane_id@ != id by {
                    if j > 0 {
                        assert(panes[j] == rest[j - 1]);
                    }
                }
            },
            None => {
                assert forall|j: int| 0 <= j < panes.len() implies (#[trigger] panes[j]).pane_id@ != id by {
                    if j > 0 {
                        assert(panes[j] == rest[j - 1]);
                    }
                }
            },
        }
    }
}

proof fn lemma_first_focused_pane(panes: Seq<LayoutPane>)
    ensures
        match first_focused_pane(panes) {
            Some(i) => 0 <= i < panes.len() && panes[i].focused && forall|j: int|
                0 <= j < i ==> !(#[trigger] panes[j]).focused,
            None => forall|j: int| 0 <= j < panes.len() ==> !(#[trigger] panes[j]).focused,
        },
    decreases panes.len(),
{
    if panes.len() > 0 && !panes[0].focused {
        let rest = panes.drop_first();
        lemma_first_focused_pane(rest);
        match first_focused_pane(rest) {
            Some(k) => {
                assert forall|j: int| 0 <= j < k + 1 implies !(#[trigger] panes[j]).focused by {
                    if j > 0 {
                        assert(panes[j] == rest[j - 1]);
                    }
                }
            },
            None => {
                assert forall|j: int| 0 <= j < panes.len() implies !(#[trigger] panes[j]).focused by {
                    if j > 0 {
                        assert(panes[j] == rest[j - 1]);
                    }
                }
            },
        }
    }
}

/// The source pane is the target's own pane whenever the layout has one:
/// the first pane with the target's id gives the target's focus flag and,
/// unless the tab is zoomed on it, its outer rect. Only when no pane has the
/// target's id does the first focused pane stand in for it, and with no
/// such pane either the outer rect is the whole area.
pub proof fn law_source_pane_is_the_target(layout: LayoutSnapshot, target: PaneId)
    ensures
        forall|i: int|
            0 <= i < layout.panes@.len() && (#[trigger] layout.panes@[i]).pane_id@ == target.0@ && (forall|j: int|
                0 <= j < i ==> layout.panes@[j].pane_id@ != target.0@) ==> {
                &&& source_geometry(layout, target).target_focused == layout.panes@[i].focused
                &&& !(layout.zoomed && layout.panes@[i].focused) ==> source_geometry(
                    layout,
                    target,
                ).source_outer_rect == layout.panes@[i].rect
                &&& layout.zoomed && layout.panes@[i].focused ==> source_geometry(
                    layout,
                    target,
                ).source_outer_rect == layout.area
            },
        (forall|j: int| 0 <= j < layout.panes@.len() ==> (#[trigger] layout.panes@[j]).pane_id@ != target.0@)
            ==> forall|i: int|
            0 <= i < layout.panes@.len() && (#[trigger] layout.panes@[i]).focused && (forall|j: int|
                0 <= j < i ==> !layout.panes@[j].focused) ==> source_geometry(layout, target).target_focused
                && (!layout.zoomed ==> source_geometry(layout, target).source_outer_rect
                == layout.panes@[i].rect) && (layout.zoomed ==> source_geometry(
                layout,
                target,
            ).source_outer_rect == layout.area),
        (forall|j: int|
            0 <= j < layout.panes@.len() ==> (#[trigger] layout.panes@[j]).pane_id@ != target.0@
                && !layout.panes@[j].focused) ==> source_geometry(layout, target).source_outer_rect
            == layout.area,
{
    let panes = layout.panes@;
    lemma_first_pane_with_id(panes, target.0@);
    lemma_first_focused_pane(panes);
    assert forall|i: int|
        0 <= i < panes.len() && (#[trigger] panes[i]).pane_id@ == target.0@ && (forall|j: int|
            0 <= j < i ==> panes[j].pane_id@ != target.0@) implies target_pane_index(layout, target.0@) == Some(
        i,
    ) by {
        match first_pane_with_id(panes, target.0@) {
            Some(k) => {
                if k < i {
                    assert(panes[k].pane_id@ != target.0@);
                }
                if i < k {
                    assert(panes[i].pane_id@ != target.0@);
                }
            },
            None => {
                assert(panes[i].pane_id@ != target.0@);
            },
        }
    }
    if forall|j: int| 0 <= j < panes.len() ==> (#[trigger] panes[j]).pane_id@ != target.0@ {
        assert(first_pane_with_id(panes, target.0@) is None) by {
            if let Some(k) = first_pane_with_id(panes, target.0@) {
                assert(panes[k].pane_id@ != target.0@);
            }
        }
        assert forall|i: int|
            0 <= i < panes.len() && (#[trigger] panes[i]).focused && (forall|j: int|
                0 <= j < i ==> !panes[j].focused) implies target_pane_index(layout, target.0@) == Some(i) by {
            match first_focused_pane(panes) {
                Some(k) => {
                    if k < i {
                        assert(panes[k].focused);
                    }
                    if i < k {
                        assert(!panes[i].focused);
                    }
                },
                None => {
                    assert(!panes[i].focused);
                },
            }
        }
    }
    if forall|j: int|
        0 <= j < panes.len() ==> (#[trigger] panes[j]).pane_id@ != target.0@ && !panes[j].focused {
        assert(first_pane_with_id(panes, target.0@) is None) by {
            if let Some(k) = first_pane_with_id(panes, target.0@) {
                assert(panes[k].pane_id@ != target.0@);
            }
        }
        assert(first_focused_pane(panes) is None) by {
            if let Some(k) = first_focused_pane(panes) {
                assert(!panes[k].focused);
            }
        }
    }
}

} // verus!
