//! The decisions of launching the picker tab from a source layout: the
//! replay plan, the target's geometry, whether any of it is visible, and
//! whether the picker pane is zoomed; and, once the picker closes, the
//! return to the source tab.

use crate::herdr::layout::{
    LayoutError, LayoutRecreationPlan, LayoutSnapshot, derive_layout_recreation_plan,
    derive_source_geometry, layout_target_is_focused, layout_tree, source_geometry, splits_fit,
    target_marked_focused,
};
use crate::herdr::commands::{
    CommandError, CommandRunner, failed_reply, ran_one, reply_succeeded, run_checked, texts,
};
use crate::model::{PaneId, SourceGeometrySnapshot};
use crate::text::{concat_str, text_equals};
use vstd::prelude::*;

verus! {

/// The replay plan and target geometry of a picker launch.
#[derive(Debug, PartialEq, Eq)]
pub struct PickerLaunch {
    pub plan: LayoutRecreationPlan,
    pub geometry: SourceGeometrySnapshot,
}

/// Why the picker tab cannot be launched from a layout.
#[derive(Debug, Clone, PartialEq, Eq)]
pub enum LaunchError {
    /// The layout describes no split tree.
    Layout(LayoutError),
    /// The target pane shows no row of content.
    ZeroHeight { target: PaneId },
}

impl LaunchError {
    /// The message reported for this error.
    pub fn message(&self) -> (m: String)
        ensures
            m@ == match *self {
                LaunchError::Layout(e) => crate::herdr::layout::layout_error_text(e),
                LaunchError::ZeroHeight { target } => "target pane "@ + target.0@
                    + " has zero visible content height"@,
            },
    {
        match self {
            LaunchError::Layout(e) => e.message(),
            LaunchError::ZeroHeight { target } => {
                let s = concat_str("target pane ", target.0.as_str());
                concat_str(s.as_str(), " has zero visible content height")
            },
        }
    }
}

/// The replay plan of a layout and the target's geometry, refused when the
/// layout has no split tree or the target shows no row of content.
pub fn prepare_picker_launch(layout: &LayoutSnapshot, target: &PaneId) -> (launch: Result<
    PickerLaunch,
    LaunchError,
>)
    requires
        splits_fit(layout.splits@),
    ensures
        match layout_tree(layout.area, layout.panes@, layout.splits@, layout.panes@.len()) {
            Err(e) => launch == Err::<PickerLaunch, LaunchError>(LaunchError::Layout(e)),
            Ok(tree) => if source_geometry(*layout, *target).source_content_rect.height == 0 {
                launch == Err::<PickerLaunch, LaunchError>(
                    LaunchError::ZeroHeight { target: *target },
                )
            } else {
                launch matches Ok(l) && l.plan.root@ == tree && l.plan.target_source_pane_id
                    == *target && l.geometry == source_geometry(*layout, *target)
            },
        },
{
    let plan = match derive_layout_recreation_plan(layout, target) {
        Ok(plan) => plan,
        Err(e) => return Err(LaunchError::Layout(e)),
    };
    let geometry = derive_source_geometry(layout, target);
    if geometry.source_content_rect.height == 0 {
        return Err(LaunchError::ZeroHeight { target: PaneId(target.0.clone()) });
    }
    Ok(PickerLaunch { plan, geometry })
}

/// Whether the picker pane is zoomed: the source tab is zoomed and the
/// target is marked focused in it.
pub fn picker_should_zoom(layout: &LayoutSnapshot, target: &PaneId) -> (zoom: bool)
    ensures
        zoom == (layout.zoomed && target_marked_focused(*layout, target.0@)),
{
    layout.zoomed && layout_target_is_focused(layout, target)
}

/// Why the picker tab may not be closed.
#[derive(Debug, Clone, PartialEq, Eq)]
pub enum CleanupError {
    /// No temporary tab id is known.
    MissingTemporaryTab,
    /// The temporary tab id names the source tab.
    SourceTab { tab_id: String },
}

impl CleanupError {
    /// The message reported for this error.
    pub fn message(&self) -> (m: String)
        ensures
            m@ == match *self {
                CleanupError::MissingTemporaryTab => "temporary picker tab id is missing"@,
                CleanupError::SourceTab { tab_id } => "refusing to close source tab "@ + tab_id@
                    + " as temporary picker tab"@,
            },
    {
        match self {
            CleanupError::MissingTemporaryTab => "temporary picker tab id is missing".to_string(),
            CleanupError::SourceTab { tab_id } => {
                let s = concat_str("refusing to close source tab ", tab_id.as_str());
                concat_str(s.as_str(), " as temporary picker tab")
            },
        }
    }
}

/// Checks that a temporary picker tab may be closed when returning to the
/// source tab: it has an id, and that id is not the source tab's.
pub fn check_cleanup(return_tab_id: &str, temporary_tab_id: &str) -> (checked: Result<(), CleanupError>)
    ensures
        temporary_tab_id@.len() == 0 ==> checked == Err::<(), CleanupError>(
            CleanupError::MissingTemporaryTab,
        ),
        temporary_tab_id@.len() > 0 && temporary_tab_id@ == return_tab_id@ ==> (checked matches Err(
            CleanupError::SourceTab { tab_id },
        ) && tab_id@ == temporary_tab_id@),
        temporary_tab_id@.len() > 0 && temporary_tab_id@ != return_tab_id@ ==> checked is Ok,
{
    if temporary_tab_id.is_empty() {
        return Err(CleanupError::MissingTemporaryTab);
    }
    if text_equals(temporary_tab_id, return_tab_id) {
        return Err(CleanupError::SourceTab { tab_id: temporary_tab_id.to_owned() });
    }
    Ok(())
}

/// Where the picker returns to once it closes.
#[derive(Debug, Clone, PartialEq, Eq)]
pub struct PickerReturnContext {
    pub return_tab_id: String,
    pub return_pane_id: String,
    pub zoom_picker: bool,
}

/// Why the return to the source tab failed.
#[derive(Debug)]
pub enum SessionError {
    /// The temporary tab may not be closed.
    Refused(CleanupError),
    /// A Herdr command failed.
    Command(CommandError),
}

/// Arguments of `tab focus` for a tab.
pub open spec fn tab_focus_argv(tab: Seq<char>) -> Seq<Seq<char>> {
    seq!["tab"@, "focus"@, tab]
}

/// Arguments of `tab close` for a tab.
pub open spec fn tab_close_argv(tab: Seq<char>) -> Seq<Seq<char>> {
    seq!["tab"@, "close"@, tab]
}

/// Arguments of `pane zoom` that zoom a pane in.
pub open spec fn pane_zoom_on_argv(pane: Seq<char>) -> Seq<Seq<char>> {
    seq!["pane"@, "zoom"@, "--pane"@, pane, "on"@]
}

/// Restores the source tab and closes only the explicit temporary tab.
///
/// The temporary tab must have an id other than the source tab's, else
/// nothing runs. Then the source tab is focused and the temporary tab is
/// closed, both always tried, in that order; the first failure is reported.
pub fn cleanup_session<R: CommandRunner>(
    herdr_bin: &str,
    runner: &mut R,
    session: &PickerReturnContext,
    temporary_tab_id: &str,
) -> (done: Result<(), SessionError>)
    ensures
        temporary_tab_id@.len() == 0 ==> (done matches Err(
            SessionError::Refused(CleanupError::MissingTemporaryTab),
        )) && *final(runner) == *old(runner),
        temporary_tab_id@.len() > 0 && temporary_tab_id@ == session.return_tab_id@ ==> (done matches Err(
            SessionError::Refused(CleanupError::SourceTab { tab_id }),
        ) && tab_id@ == temporary_tab_id@) && *final(runner) == *old(runner),
        temporary_tab_id@.len() > 0 && temporary_tab_id@ != session.return_tab_id@ ==> {
            let n = old(runner).replies().len() as int;
            let focus = final(runner).replies()[n];
            let close = final(runner).replies()[n + 1];
            &&& final(runner).calls() == old(runner).calls().push(
                (herdr_bin@, tab_focus_argv(session.return_tab_id@)),
            ).push((herdr_bin@, tab_close_argv(temporary_tab_id@)))
            &&& final(runner).replies().len() == n + 2
            &&& final(runner).replies().take(n) == old(runner).replies()
            &&& if !reply_succeeded(focus) {
                done matches Err(SessionError::Command(e)) && failed_reply(
                    e,
                    focus,
                    tab_focus_argv(session.return_tab_id@),
                )
            } else if !reply_succeeded(close) {
                done matches Err(SessionError::Command(e)) && failed_reply(e, close, tab_close_argv(temporary_tab_id@))
            } else {
                done is Ok
            }
        },
{
    if let Err(refused) = check_cleanup(session.return_tab_id.as_str(), temporary_tab_id) {
        return Err(SessionError::Refused(refused));
    }
    let ghost start = *runner;
    let mut focus: Vec<String> = Vec::new();
    focus.push("tab".to_owned());
    focus.push("focus".to_owned());
    focus.push(session.return_tab_id.clone());
    assert(texts(focus@) =~= tab_focus_argv(session.return_tab_id@));
    let focused = run_checked(herdr_bin, runner, focus);
    let ghost middle = *runner;
    let mut close: Vec<String> = Vec::new();
    close.push("tab".to_owned());
    close.push("close".to_owned());
    close.push(temporary_tab_id.to_owned());
    assert(texts(close@) =~= tab_close_argv(temporary_tab_id@));
    let closed = run_checked(herdr_bin, runner, close);
    proof {
        let n = start.replies().len() as int;
        assert(runner.replies().drop_last() == middle.replies());
        assert(middle.replies().drop_last() == start.replies());
        assert(runner.replies()[n] == middle.replies()[n]);
        assert(middle.replies()[n] == middle.replies().last());
        assert(runner.replies().take(n) =~= start.replies());
    }
    match focused {
        Err(e) => Err(SessionError::Command(e)),
        Ok(_) => match closed {
            Err(e) => Err(SessionError::Command(e)),
            Ok(_) => Ok(()),
        },
    }
}

/// Zooms the picker pane in when the session asks for it; otherwise runs
/// nothing.
pub fn zoom_picker<R: CommandRunner>(
    herdr_bin: &str,
    runner: &mut R,
    session: &PickerReturnContext,
    pane_id: &PaneId,
) -> (done: Result<(), CommandError>)
    ensures
        !session.zoom_picker ==> done is Ok && *final(runner) == *old(runner),
        session.zoom_picker ==> ran_one(*final(runner), *old(runner), herdr_bin@, pane_zoom_on_argv(pane_id.0@))
            && match done {
            Ok(_) => reply_succeeded(final(runner).replies().last()),
            Err(e) => failed_reply(e, final(runner).replies().last(), pane_zoom_on_argv(pane_id.0@)),
        },
{
    if session.zoom_picker {
        let mut args: Vec<String> = Vec::new();
        args.push("pane".to_owned());
        args.push("zoom".to_owned());
        args.push("--pane".to_owned());
        args.push(pane_id.0.clone());
        args.push("on".to_owned());
        assert(texts(args@) =~= pane_zoom_on_argv(pane_id.0@));
        match run_checked(herdr_bin, runner, args) {
            Ok(_) => Ok(()),
            Err(e) => Err(e),
        }
    } else {
        Ok(())
    }
}

} // verus!
