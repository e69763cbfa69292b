//! The immutable picker snapshot handed from the launching action to the
//! picker pane.

use crate::herdr::layout::{
    LayoutSnapshot, content_rect, derive_source_geometry, target_outer_rect,
};
use crate::model::{
    PaneId, PaneTextCaptureMode, PatternSpec, PickerSnapshot, SourcePaneSnapshot, VisibleViewport,
};
use crate::text::concat_str;
use vstd::prelude::*;

verus! {

/// Filesystem-backed picker snapshot handed to the overlay pane process.
#[derive(Debug, PartialEq, Eq)]
pub struct SnapshotFile {
    pub path: std::path::PathBuf,
}

/// Why no picker snapshot could be built from a layout.
#[derive(Debug, Clone, PartialEq, Eq)]
pub enum SnapshotError {
    /// The layout names no source tab.
    MissingTabId,
    /// The layout names no workspace.
    MissingWorkspaceId,
    /// No pane of the layout has the target's id.
    TargetMissing { target: PaneId },
}

/// The message reported for a snapshot error.
pub open spec fn snapshot_error_text(e: SnapshotError) -> Seq<char> {
    match e {
        SnapshotError::MissingTabId => "pane layout did not include source tab id"@,
        SnapshotError::MissingWorkspaceId => "pane layout did not include workspace id"@,
        SnapshotError::TargetMissing { target } => "target pane "@ + target.0@
            + " missing from source layout"@,
    }
}

impl SnapshotError {
    /// The message reported for this error.
    pub fn message(&self) -> (m: String)
        ensures
            m@ == snapshot_error_text(*self),
    {
        match self {
            SnapshotError::MissingTabId => "pane layout did not include source tab id".to_string(),
            SnapshotError::MissingWorkspaceId => "pane layout did not include workspace id".to_string(),
            SnapshotError::TargetMissing { target } => {
                let s = concat_str("target pane ", target.0.as_str());
                let m = concat_str(s.as_str(), " missing from source layout");
                assert(m@ =~= snapshot_error_text(*self));
                m
            },
        }
    }
}

/// Whether some pane of the layout has the given id.
pub open spec fn layout_has_pane(layout: LayoutSnapshot, id: Seq<char>) -> bool {
    exists|i: int| 0 <= i < layout.panes@.len() && (#[trigger] layout.panes@[i]).pane_id@ == id
}

/// Whether some pane of the layout has the target's id.
fn has_pane(layout: &LayoutSnapshot, target: &PaneId) -> (found: bool)
    ensures
        found == layout_has_pane(*layout, target.0@),
{
    let mut i: usize = 0;
    while i < layout.panes.len()
        invariant
            i <= layout.panes@.len(),
            forall|j: int| 0 <= j < i ==> (#[trigger] layout.panes@[j]).pane_id@ != target.0@,
        decreases layout.panes@.len() - i,
    {
        if layout.panes[i].pane_id == target.0 {
            return true;
        }
        i = i + 1;
    }
    false
}

/// Builds the immutable picker snapshot from source layout and captured
/// text: the source tab and workspace of the layout, the target's content
/// rect, the captured lines, captured exactly as visible and unwrapped.
pub fn build_source_snapshot(
    layout: &LayoutSnapshot,
    target: &PaneId,
    logical_lines: Vec<String>,
    visible_viewport: Option<VisibleViewport>,
    custom_patterns: Vec<PatternSpec>,
) -> (snapshot: Result<PickerSnapshot, SnapshotError>)
    ensures
        layout.tab_id is None ==> snapshot == Err::<PickerSnapshot, SnapshotError>(
            SnapshotError::MissingTabId,
        ),
        layout.tab_id is Some && layout.workspace_id is None ==> snapshot == Err::<
            PickerSnapshot,
            SnapshotError,
        >(SnapshotError::MissingWorkspaceId),
        layout.tab_id is Some && layout.workspace_id is Some && !layout_has_pane(*layout, target.0@)
            ==> (snapshot matches Err(SnapshotError::TargetMissing { target: t }) && t == *target),
        layout.tab_id is Some && layout.workspace_id is Some && layout_has_pane(*layout, target.0@)
            ==> (snapshot matches Ok(s) && {
            let content = content_rect(
                target_outer_rect(*layout, target.0@),
                layout.panes@.len() as int,
            );
            &&& s.source.target_pane_id == *target
            &&& s.source.source_tab_id == layout.tab_id->0
            &&& s.source.workspace_id == layout.workspace_id->0
            &&& s.source.tab_area == layout.area
            &&& s.source.target_content_rect == content
            &&& s.source.target_content_width == content.width
            &&& s.source.target_content_height == content.height
            &&& s.source.logical_lines == logical_lines
            &&& s.source.visible_viewport == visible_viewport
            &&& s.source.capture_mode == PaneTextCaptureMode::ExactVisibleUnwrapped
            &&& s.custom_patterns == custom_patterns
        }),
{
    let source_tab_id = match &layout.tab_id {
        Some(id) => id.clone(),
        None => return Err(SnapshotError::MissingTabId),
    };
    let workspace_id = match &layout.workspace_id {
        Some(id) => id.clone(),
        None => return Err(SnapshotError::MissingWorkspaceId),
    };
    if !has_pane(layout, target) {
        return Err(SnapshotError::TargetMissing { target: PaneId(target.0.clone()) });
    }
    let geometry = derive_source_geometry(layout, target);
    Ok(
        PickerSnapshot {
            source: SourcePaneSnapshot {
                target_pane_id: PaneId(target.0.clone()),
                source_tab_id,
                workspace_id,
                tab_area: layout.area,
                target_content_rect: geometry.source_content_rect,
                target_content_width: geometry.source_content_rect.width,
                target_content_height: geometry.source_content_rect.height,
                logical_lines,
                visible_viewport,
                capture_mode: PaneTextCaptureMode::ExactVisibleUnwrapped,
            },
            custom_patterns,
        },
    )
}

} // verus!
