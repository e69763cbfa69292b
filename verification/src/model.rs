//! Plain data shared by the matcher, the hint engine, the renderer and the
//! Herdr adapter, with the geometry arithmetic on cell rectangles.

use vstd::prelude::*;

verus! {

/// Largest value a `u16` cell coordinate can hold.
pub open spec fn u16_max() -> int {
    65535
}

/// `a + b`, clamped to the `u16` range (the meaning of `u16::saturating_add`).
pub open spec fn sat_add(a: int, b: int) -> int {
    if a + b > u16_max() {
        u16_max()
    } else {
        a + b
    }
}

/// `a - b`, clamped at zero (the meaning of unsigned `saturating_sub`).
pub open spec fn sat_sub(a: int, b: int) -> int {
    if a - b < 0 {
        0
    } else {
        a - b
    }
}

/// The smaller of two integers.
pub open spec fn min_int(a: int, b: int) -> int {
    if a <= b {
        a
    } else {
        b
    }
}

/// Identifier of a Herdr pane.
#[derive(Debug, Clone, PartialEq, Eq, Hash)]
pub struct PaneId(pub String);

impl PaneId {
    /// Wraps a pane identifier.
    pub fn new(value: &str) -> (id: Self)
        ensures
            id.0@ == value@,
    {
        PaneId(value.to_owned())
    }
}

/// Width and height of a pane in cells.
#[derive(Debug, Clone, Copy, PartialEq, Eq)]
pub struct PaneDimensions {
    pub width: u16,
    pub height: u16,
}

/// Cell-space rectangle from Herdr layout or pane-local rendering coordinates.
#[derive(Debug, Clone, Copy, PartialEq, Eq, Structural)]
pub struct Rect {
    pub x: u16,
    pub y: u16,
    pub width: u16,
    pub height: u16,
}

/// Saturating `u16` addition.
pub(crate) fn add_u16(a: u16, b: u16) -> (r: u16)
    ensures
        r == sat_add(a as int, b as int),
{
    a.saturating_add(b)
}

/// Saturating `u16` subtraction.
pub(crate) fn sub_u16(a: u16, b: u16) -> (r: u16)
    ensures
        r == sat_sub(a as int, b as int),
{
    a.saturating_sub(b)
}

impl Rect {
    /// The rectangle with the given origin and size.
    pub fn new(x: u16, y: u16, width: u16, height: u16) -> (r: Self)
        ensures
            r == (Rect { x, y, width, height }),
    {
        Rect { x, y, width, height }
    }

    /// Right edge `x + width`, clamped to the `u16` range.
    pub open spec fn right(self) -> int {
        sat_add(self.x as int, self.width as int)
    }

    /// Bottom edge `y + height`, clamped to the `u16` range.
    pub open spec fn bottom(self) -> int {
        sat_add(self.y as int, self.height as int)
    }

    /// Returns this rect after removing an equal border on all sides.
    pub fn inset(self, amount: u16) -> (r: Self)
        ensures
            r.x == sat_add(self.x as int, amount as int),
            r.y == sat_add(self.y as int, amount as int),
            r.width == sat_sub(self.width as int, sat_add(amount as int, amount as int)),
            r.height == sat_sub(self.height as int, sat_add(amount as int, amount as int)),
    {
        let doubled = add_u16(amount, amount);
        Rect {
            x: add_u16(self.x, amount),
            y: add_u16(self.y, amount),
            width: sub_u16(self.width, doubled),
            height: sub_u16(self.height, doubled),
        }
    }

    /// Returns this rect with columns reserved from the right edge.
    pub fn reserve_right_gutter(self, amount: u16) -> (r: Self)
        ensures
            r.x == self.x,
            r.y == self.y,
            r.height == self.height,
            r.width == sat_sub(self.width as int, amount as int),
    {
        let reserved = if amount < self.width {
            amount
        } else {
            self.width
        };
        Rect { x: self.x, y: self.y, width: self.width - reserved, height: self.height }
    }

    /// Converts this rect from an absolute coordinate space to one relative to `origin`.
    pub fn relative_to(self, origin: Rect) -> (r: Self)
        ensures
            r.x == sat_sub(self.x as int, origin.x as int),
            r.y == sat_sub(self.y as int, origin.y as int),
            r.width == self.width,
            r.height == self.height,
    {
        Rect {
            x: sub_u16(self.x, origin.x),
            y: sub_u16(self.y, origin.y),
            width: self.width,
            height: self.height,
        }
    }
}

/// Frozen pre-overlay source-pane geometry derived from Herdr-global layout coordinates.
#[derive(Debug, Clone, PartialEq, Eq)]
pub struct SourceGeometrySnapshot {
    pub target_pane_id: PaneId,
    pub terminal_area: Rect,
    pub source_outer_rect: Rect,
    pub source_content_rect: Rect,
    pub pane_count: usize,
    pub zoomed: bool,
    pub target_focused: bool,
}

/// `r` expressed relative to `origin` (the meaning of [`Rect::relative_to`]).
pub open spec fn relative_rect(r: Rect, origin: Rect) -> Rect {
    Rect {
        x: sat_sub(r.x as int, origin.x as int) as u16,
        y: sat_sub(r.y as int, origin.y as int) as u16,
        width: r.width,
        height: r.height,
    }
}

impl SourceGeometrySnapshot {
    /// Source content rect relative to Herdr's terminal area, excluding sidebar/tab-bar offsets.
    pub fn source_content_rect_in_terminal(&self) -> (r: Rect)
        ensures
            r == relative_rect(self.source_content_rect, self.terminal_area),
    {
        self.source_content_rect.relative_to(self.terminal_area)
    }

    /// Source outer rect relative to Herdr's terminal area, excluding sidebar/tab-bar offsets.
    pub fn source_outer_rect_in_terminal(&self) -> (r: Rect)
        ensures
            r == relative_rect(self.source_outer_rect, self.terminal_area),
    {
        self.source_outer_rect.relative_to(self.terminal_area)
    }
}

/// How pane text was captured for a picker snapshot.
#[derive(Debug, Clone, Copy, PartialEq, Eq)]
pub enum PaneTextCaptureMode {
    ExactVisibleUnwrapped,
    RecentUnwrappedBottomApproximation,
    VisibleWrapped,
}

/// Maps a logical byte range onto a row/column range in the exact visible viewport.
#[derive(Debug, Clone, PartialEq, Eq)]
pub struct LogicalLineVisualSegment {
    pub logical_line: usize,
    pub logical_start: usize,
    pub logical_end: usize,
    pub row: usize,
    pub col_start: usize,
    pub col_end: usize,
}

/// Exact visible pane rows plus the logical lines reconstructed from soft wraps.
#[derive(Debug, Clone, PartialEq, Eq)]
pub struct VisibleViewport {
    pub rows: Vec<String>,
    pub logical_lines: Vec<String>,
    pub segments: Vec<LogicalLineVisualSegment>,
}

/// Immutable source pane state needed to render an overlay picker in place.
#[derive(Debug, Clone, PartialEq, Eq)]
pub struct SourcePaneSnapshot {
    pub target_pane_id: PaneId,
    pub source_tab_id: String,
    pub workspace_id: String,
    /// Full tab area the overlay pane covers, in Herdr-global coordinates.
    pub tab_area: Rect,
    /// Target pane content rect in Herdr-global coordinates (full area when zoomed).
    pub target_content_rect: Rect,
    pub target_content_width: u16,
    pub target_content_height: u16,
    pub logical_lines: Vec<String>,
    pub visible_viewport: Option<VisibleViewport>,
    pub capture_mode: PaneTextCaptureMode,
}

/// Regex pattern configuration resolved before the picker pane starts.
#[derive(Debug, Clone, PartialEq, Eq)]
pub struct PatternSpec {
    pub name: String,
    pub regex: String,
    pub priority: u16,
}

/// Full picker launch payload passed from the action process to picker mode.
#[derive(Debug, Clone, PartialEq, Eq)]
pub struct PickerSnapshot {
    pub source: SourcePaneSnapshot,
    pub custom_patterns: Vec<PatternSpec>,
}

/// Direction of a Herdr binary pane split as exposed by layout snapshots.
#[derive(Debug, Clone, Copy, PartialEq, Eq, Structural)]
pub enum SplitDirection {
    Right,
    Down,
}

/// Unwrapped logical pane text lines and dimensions at the time of picker activation.
#[derive(Debug, Clone, PartialEq, Eq)]
pub struct PaneText {
    pub lines: Vec<String>,
    pub dimensions: PaneDimensions,
}

/// Mathematical value of a [`MatchSpan`].
pub ghost struct SpanModel {
    pub line: int,
    pub start: int,
    pub end: int,
    pub text: Seq<char>,
    pub pattern: Seq<char>,
    pub priority: int,
}

impl SpanModel {
    /// Byte length of the span, zero when `end` precedes `start`.
    pub open spec fn len_bytes(self) -> int {
        sat_sub(self.end, self.start)
    }

    /// Both spans lie on the same logical line and their byte ranges intersect.
    pub open spec fn overlaps(self, other: SpanModel) -> bool {
        self.line == other.line && self.start < other.end && other.start < self.end
    }
}

/// Copied/highlighted occurrence found on one unwrapped logical pane line.
#[derive(Debug, Clone, PartialEq, Eq)]
pub struct MatchSpan {
    /// Zero-based logical line index.
    pub line: usize,
    /// UTF-8 byte offset where the copied/highlighted substring starts.
    pub start: usize,
    /// UTF-8 byte offset immediately after the copied/highlighted substring.
    pub end: usize,
    /// Copied text; for regexes with named capture `match`, this is that capture.
    pub text: String,
    /// Pattern name that produced this occurrence.
    pub pattern: String,
    /// Match precedence where lower numbers are higher priority.
    pub priority: u16,
}

impl View for MatchSpan {
    type V = SpanModel;

    open spec fn view(&self) -> SpanModel {
        SpanModel {
            line: self.line as int,
            start: self.start as int,
            end: self.end as int,
            text: self.text@,
            pattern: self.pattern@,
            priority: self.priority as int,
        }
    }
}

impl MatchSpan {
    /// Returns the matched byte length used by matcher tie-breaking.
    pub fn len_bytes(&self) -> (n: usize)
        ensures
            n == self@.len_bytes(),
    {
        self.end.saturating_sub(self.start)
    }

    /// Returns whether copied/highlighted byte ranges overlap on the same logical line.
    pub fn overlaps(&self, other: &Self) -> (b: bool)
        ensures
            b == self@.overlaps(other@),
    {
        self.line == other.line && self.start < other.end && other.start < self.end
    }

    /// A field-by-field copy of this span.
    pub fn duplicate(&self) -> (r: Self)
        ensures
            r@ == self@,
    {
        MatchSpan {
            line: self.line,
            start: self.start,
            end: self.end,
            text: self.text.clone(),
            pattern: self.pattern.clone(),
            priority: self.priority,
        }
    }
}

/// A unique matched text and all its occurrences in the pane.
#[derive(Debug, Clone, PartialEq, Eq)]
pub struct HintAssignment {
    pub hint: String,
    pub text: String,
    pub occurrences: Vec<MatchSpan>,
}

/// Mathematical value of a [`HintAssignment`].
pub ghost struct AssignmentModel {
    pub hint: Seq<char>,
    pub text: Seq<char>,
    pub occurrences: Seq<SpanModel>,
}

impl View for HintAssignment {
    type V = AssignmentModel;

    open spec fn view(&self) -> AssignmentModel {
        AssignmentModel {
            hint: self.hint@,
            text: self.text@,
            occurrences: self.occurrences@.map_values(|s: MatchSpan| s@),
        }
    }
}

/// Visual role of a run of rendered picker text.
#[derive(Debug, Clone, Copy, PartialEq, Eq, Structural)]
pub enum RenderStyle {
    Unmatched,
    Match,
    Hint,
}

/// A contiguous span of text to render in the picker, with a single style.
#[derive(Debug, Clone, PartialEq, Eq)]
pub struct RenderSpan {
    pub text: String,
    pub style: RenderStyle,
}

impl View for RenderSpan {
    type V = (Seq<char>, RenderStyle);

    open spec fn view(&self) -> (Seq<char>, RenderStyle) {
        (self.text@, self.style)
    }
}

/// A single line of text to render in the picker,
/// with style spans for matched/highlighted regions.
#[derive(Debug, Clone, PartialEq, Eq)]
pub struct RenderLine {
    pub spans: Vec<RenderSpan>,
}

impl View for RenderLine {
    type V = Seq<(Seq<char>, RenderStyle)>;

    open spec fn view(&self) -> Seq<(Seq<char>, RenderStyle)> {
        self.spans@.map_values(|s: RenderSpan| s@)
    }
}

/// How a picker session ended.
#[derive(Debug, Clone, PartialEq, Eq)]
pub enum PickerOutcome {
    Copied { text: String },
    Cancelled,
    NoMatches,
}

} // verus!
