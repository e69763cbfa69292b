//! Adapter state and the choice of how a picker snapshot reaches the picker process.

use crate::herdr::context::{context_target, opt_text, HerdrContext};
use crate::herdr::layout::{push_decimal, push_rect, rect_text};
use crate::model::{PaneId, Rect, SourceGeometrySnapshot, relative_rect};
use crate::text::{concat_str, decimal};
use vstd::prelude::*;

verus! {

/// Picker snapshot transport selected by the Herdr launcher after considering payload constraints.
#[derive(Debug, Clone, Copy, PartialEq, Eq, Structural)]
pub enum SnapshotTransport {
    EnvJson,
    TempFile,
}

/// Largest snapshot passed through an environment variable.
pub const SAFE_ENV_JSON_BYTES: usize = 16384;

/// Constraints used to choose how a picker snapshot is passed to the temporary pane process.
#[derive(Debug, Clone, Copy, PartialEq, Eq)]
pub struct SnapshotTransportConstraints {
    pub payload_bytes: usize,
    pub command_involves_shell: bool,
    pub supports_direct_env: bool,
}

impl SnapshotTransportConstraints {
    /// Largest snapshot passed through an environment variable.
    pub const SAFE_ENV_JSON_BYTES: usize = 16384;

    /// Chooses the simplest safe transport, reserving temp files for large or shell-fragile payloads.
    pub fn choose_transport(self) -> (t: SnapshotTransport)
        ensures
            t == (if self.supports_direct_env && !self.command_involves_shell
                && self.payload_bytes <= SAFE_ENV_JSON_BYTES {
                SnapshotTransport::EnvJson
            } else {
                SnapshotTransport::TempFile
            }),
    {
        if self.supports_direct_env && !self.command_involves_shell && self.payload_bytes
            <= Self::SAFE_ENV_JSON_BYTES {
            SnapshotTransport::EnvJson
        } else {
            SnapshotTransport::TempFile
        }
    }
}

/// One source pane's Herdr-global geometry captured before creating a temporary layout tab.
#[derive(Debug, Clone, PartialEq, Eq)]
pub struct SourcePaneGeometry {
    pub pane_id: PaneId,
    pub outer_rect: Rect,
    pub content_rect: Rect,
    pub content_width: u16,
    pub content_height: u16,
}

/// Temporary layout-tab session ids required for explicit cleanup and focus restoration.
#[derive(Debug, Clone, PartialEq, Eq)]
pub struct TempTabSession {
    pub temp_tab_id: String,
    pub return_tab_id: String,
    pub return_pane_id: PaneId,
}

/// Narrow production adapter for Herdr: the plugin context it runs in.
#[derive(Debug, Clone)]
pub struct HerdrAdapter {
    pub context: HerdrContext,
}

impl HerdrAdapter {
    /// An adapter for the given Herdr binary, plugin id, plugin context JSON
    /// and explicit pane id.
    pub fn new(
        herdr_bin: &str,
        plugin_id: Option<String>,
        context_json: Option<String>,
        pane_id: Option<String>,
    ) -> (adapter: Self)
        ensures
            adapter.context.herdr_bin@ == herdr_bin@,
            adapter.context.plugin_id == plugin_id,
            adapter.context.context_json == context_json,
            adapter.context.pane_id == pane_id,
    {
        HerdrAdapter {
            context: HerdrContext { herdr_bin: herdr_bin.to_owned(), plugin_id, context_json, pane_id },
        }
    }

    /// The pane the action targets: the explicit pane id when set, else the
    /// first pane id that the plugin context JSON names.
    pub fn target_pane_from_context(&self) -> (pane: Option<PaneId>)
        ensures
            match pane {
                Some(p) => context_target(
                    opt_text(self.context.pane_id),
                    opt_text(self.context.context_json),
                ) == Some(p.0@),
                None => context_target(
                    opt_text(self.context.pane_id),
                    opt_text(self.context.context_json),
                ) is None,
            },
    {
        self.context.target_pane()
    }
}

/// Why the picker overlay could not be opened.
#[derive(Debug, Clone, Copy, PartialEq, Eq, Structural)]
pub enum OverlayError {
    /// The plugin runs without `HERDR_PLUGIN_ID`.
    MissingPluginId,
}

impl OverlayError {
    /// The message reported for this error.
    pub fn message(&self) -> (m: String)
        ensures
            m@ == "HERDR_PLUGIN_ID is required to open the plugin pane"@,
    {
        "HERDR_PLUGIN_ID is required to open the plugin pane".to_string()
    }
}

/// Herdr arguments that open the picker as an overlay plugin pane, handing
/// it the target pane and the source geometry JSON through its environment.
pub open spec fn overlay_launch_argv(plugin_id: Seq<char>, target: Seq<char>, geometry_json: Seq<char>) -> Seq<
    Seq<char>,
> {
    seq![
        "plugin"@,
        "pane"@,
        "open"@,
        "--plugin"@,
        plugin_id,
        "--entrypoint"@,
        "picker"@,
        "--placement"@,
        "overlay"@,
        "--env"@,
        "HERDR_PLUCK_TARGET_PANE_ID="@ + target,
        "--env"@,
        "HERDR_PLUCK_SOURCE_GEOMETRY_JSON="@ + geometry_json,
    ]
}

/// A boolean as `true` or `false`.
pub open spec fn bool_text(b: bool) -> Seq<char> {
    if b {
        "true"@
    } else {
        "false"@
    }
}

/// The lines the placeholder picker prints, the last one being the prompt
/// printed without a line break.
pub open spec fn placeholder_text(target: Seq<char>, geometry: Option<SourceGeometrySnapshot>) -> Seq<
    Seq<char>,
> {
    let head = seq!["Herdr Pluck picker scaffold"@, ""@, "Target pane: "@ + target];
    let body = match geometry {
        Some(g) => seq![
            "Frozen pre-overlay geometry captured:"@,
            "  terminal area: "@ + rect_text(g.terminal_area),
            "  source outer:  "@ + rect_text(g.source_outer_rect),
            "  source content: "@ + rect_text(g.source_content_rect),
            "  source content in terminal: "@ + rect_text(
                relative_rect(g.source_content_rect, g.terminal_area),
            ),
            "  panes="@ + decimal(g.pane_count as nat) + " zoomed="@ + bool_text(g.zoomed)
                + " target_focused="@ + bool_text(g.target_focused),
        ],
        None => seq!["Frozen pre-overlay geometry: unavailable"@],
    };
    head + body + seq![
        "Matching, rendering, input, and copy flow are implemented in follow-up ishes."@,
        ""@,
        "Press any key to close..."@,
    ]
}

/// `text` followed by `true` or `false`.
fn push_bool(text: String, b: bool) -> (s: String)
    ensures
        s@ == text@ + bool_text(b),
{
    if b {
        concat_str(text.as_str(), "true")
    } else {
        concat_str(text.as_str(), "false")
    }
}

/// The lines the placeholder picker prints for a target and its frozen
/// geometry; the last one is the prompt, printed without a line break.
pub fn picker_placeholder_lines(target: &PaneId, geometry: Option<&SourceGeometrySnapshot>) -> (lines:
    Vec<String>)
    ensures
        lines@.map_values(|l: String| l@) == placeholder_text(
            target.0@,
            match geometry {
                Some(g) => Some(*g),
                None => None,
            },
        ),
{
    let mut lines: Vec<String> = Vec::new();
    lines.push("Herdr Pluck picker scaffold".to_string());
    lines.push("".to_string());
    lines.push(concat_str("Target pane: ", target.0.as_str()));
    match geometry {
        Some(g) => {
            lines.push("Frozen pre-overlay geometry captured:".to_string());
            lines.push(push_rect("  terminal area: ".to_string(), g.terminal_area));
            lines.push(push_rect("  source outer:  ".to_string(), g.source_outer_rect));
            lines.push(push_rect("  source content: ".to_string(), g.source_content_rect));
            let local = g.source_content_rect_in_terminal();
            lines.push(push_rect("  source content in terminal: ".to_string(), local));
            let s = push_decimal("  panes=".to_string(), g.pane_count as u64);
            let s = concat_str(s.as_str(), " zoomed=");
            let s = push_bool(s, g.zoomed);
            let s = concat_str(s.as_str(), " target_focused=");
            let s = push_bool(s, g.target_focused);
            lines.push(s);
        },
        None => {
            lines.push("Frozen pre-overlay geometry: unavailable".to_string());
        },
    }
    lines.push("Matching, rendering, input, and copy flow are implemented in follow-up ishes.".to_string());
    lines.push("".to_string());
    lines.push("Press any key to close...".to_string());
    assert(lines@.map_values(|l: String| l@) =~= placeholder_text(
        target.0@,
        match geometry {
            Some(g) => Some(*g),
            None => None,
        },
    ));
    lines
}

impl HerdrAdapter {
    /// Herdr arguments that open the picker overlay pane for `target`, with
    /// the serialized source geometry; an error when the plugin id is unknown.
    pub fn picker_overlay_args(&self, target: &PaneId, geometry_json: &str) -> (args: Result<
        Vec<String>,
        OverlayError,
    >)
        ensures
            match self.context.plugin_id {
                None => args == Err::<Vec<String>, OverlayError>(OverlayError::MissingPluginId),
                Some(p) => args matches Ok(v) && v@.map_values(|a: String| a@) == overlay_launch_argv(
                    p@,
                    target.0@,
                    geometry_json@,
                ),
            },
    {
        let plugin_id = match &self.context.plugin_id {
            Some(p) => p,
            None => return Err(OverlayError::MissingPluginId),
        };
        let args: Vec<String> = vec![
            "plugin".to_string(),
            "pane".to_string(),
            "open".to_string(),
            "--plugin".to_string(),
            plugin_id.clone(),
            "--entrypoint".to_string(),
            "picker".to_string(),
            "--placement".to_string(),
            "overlay".to_string(),
            "--env".to_string(),
            concat_str("HERDR_PLUCK_TARGET_PANE_ID=", target.0.as_str()),
            "--env".to_string(),
            concat_str("HERDR_PLUCK_SOURCE_GEOMETRY_JSON=", geometry_json),
        ];
        assert(args@.map_values(|a: String| a@) =~= overlay_launch_argv(
            plugin_id@,
            target.0@,
            geometry_json@,
        ));
        Ok(args)
    }
}

} // verus!
