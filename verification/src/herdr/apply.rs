//! The temporary picker tab: the argv-backed layout tree submitted to
//! Herdr's `layout.apply`, and the checks on Herdr's reply that find the
//! pane created for the picker.

use crate::herdr::layout::{LayoutNode, LayoutTree};
use crate::model::{PaneId, SplitDirection};
use crate::text::{concat_str, text_equals};
use vstd::prelude::*;

verus! {

/// A minimal argv-backed Herdr layout node. A split's ratio is kept as the
/// bit pattern of its `f32` value.
#[derive(Debug, PartialEq, Eq)]
pub enum ApplyLayoutNode {
    Pane { command: Vec<String> },
    Split {
        direction: SplitDirection,
        ratio_bits: u32,
        first: Box<ApplyLayoutNode>,
        second: Box<ApplyLayoutNode>,
    },
}

/// An argv-backed layout tree with its commands taken as text.
pub ghost enum ApplyTree {
    Pane { command: Seq<Seq<char>> },
    Split { direction: SplitDirection, ratio_bits: u32, first: Box<ApplyTree>, second: Box<ApplyTree> },
}

/// The texts of a list of strings.
pub open spec fn texts_of(v: Seq<String>) -> Seq<Seq<char>> {
    v.map_values(|s: String| s@)
}

/// The tree an apply node stands for.
pub open spec fn apply_tree_of(node: ApplyLayoutNode) -> ApplyTree
    decreases node,
{
    match node {
        ApplyLayoutNode::Pane { command } => ApplyTree::Pane { command: texts_of(command@) },
        ApplyLayoutNode::Split { direction, ratio_bits, first, second } => ApplyTree::Split {
            direction,
            ratio_bits,
            first: Box::new(apply_tree_of(*first)),
            second: Box::new(apply_tree_of(*second)),
        },
    }
}

impl View for ApplyLayoutNode {
    type V = ApplyTree;

    open spec fn view(&self) -> ApplyTree {
        apply_tree_of(*self)
    }
}

/// The command of the pane that runs the picker.
pub open spec fn picker_argv(binary: Seq<char>, snapshot: Seq<char>, ready: Seq<char>) -> Seq<
    Seq<char>,
> {
    seq![binary, "pick"@, "--snapshot"@, snapshot, "--ready"@, ready]
}

/// The command of a pane that only keeps its place in the layout.
pub open spec fn idle_argv(binary: Seq<char>) -> Seq<Seq<char>> {
    seq![binary, "idle"@]
}

/// The apply tree replaying a layout tree: the target's leaf runs the
/// picker, every other leaf idles, and splits keep direction and ratio.
pub open spec fn converted(
    t: LayoutTree,
    target: Seq<char>,
    binary: Seq<char>,
    snapshot: Seq<char>,
    ready: Seq<char>,
) -> ApplyTree
    decreases t,
{
    match t {
        LayoutTree::Pane { id, .. } => if id == target {
            ApplyTree::Pane { command: picker_argv(binary, snapshot, ready) }
        } else {
            ApplyTree::Pane { command: idle_argv(binary) }
        },
        LayoutTree::Split { direction, ratio_bits, first, second, .. } => ApplyTree::Split {
            direction,
            ratio_bits,
            first: Box::new(converted(*first, target, binary, snapshot, ready)),
            second: Box::new(converted(*second, target, binary, snapshot, ready)),
        },
    }
}

/// Turns a layout tree into the apply tree of the picker tab: the target's
/// pane runs `binary pick --snapshot <snapshot> --ready <ready>`, every other
/// pane runs `binary idle`, and splits keep their direction and ratio.
pub fn convert_layout(
    node: &LayoutNode,
    target: &PaneId,
    binary: &str,
    snapshot: &str,
    ready: &str,
) -> (converted_node: ApplyLayoutNode)
    ensures
        converted_node@ == converted(node@, target.0@, binary@, snapshot@, ready@),
    decreases node,
{
    match node {
        LayoutNode::Pane { source_pane_id, .. } => {
            if source_pane_id.0 == target.0 {
                let command: Vec<String> = vec![
                    binary.to_string(),
                    "pick".to_string(),
                    "--snapshot".to_string(),
                    snapshot.to_string(),
                    "--ready".to_string(),
                    ready.to_string(),
                ];
                let n = ApplyLayoutNode::Pane { command };
                assert(texts_of(command@) =~= picker_argv(binary@, snapshot@, ready@));
                n
            } else {
                let command: Vec<String> = vec![binary.to_string(), "idle".to_string()];
                assert(texts_of(command@) =~= idle_argv(binary@));
                ApplyLayoutNode::Pane { command }
            }
        },
        LayoutNode::Split { direction, ratio_bits, first, second, .. } => {
            let first = convert_layout(first, target, binary, snapshot, ready);
            let second = convert_layout(second, target, binary, snapshot, ready);
            ApplyLayoutNode::Split {
                direction: *direction,
                ratio_bits: *ratio_bits,
                first: Box::new(first),
                second: Box::new(second),
            }
        },
    }
}

/// Parameters consumed by Herdr's `layout.apply` method.
#[derive(Debug, PartialEq, Eq)]
pub struct LayoutApplyParams {
    pub workspace_id: String,
    pub tab_label: String,
    pub focus: bool,
    pub root: ApplyLayoutNode,
}

/// One newline-delimited `layout.apply` request.
#[derive(Debug, PartialEq, Eq)]
pub struct LayoutApplyRequest {
    pub id: String,
    pub method: &'static str,
    pub params: LayoutApplyParams,
}

/// The request that opens the picker tab: `layout.apply` of `root` in the
/// source workspace, as a focused tab labelled `Herdr Pluck`.
pub fn picker_tab_request(id: String, workspace_id: String, root: ApplyLayoutNode) -> (request:
    LayoutApplyRequest)
    ensures
        request.id == id,
        request.method@ == "layout.apply"@,
        request.params.workspace_id == workspace_id,
        request.params.tab_label@ == "Herdr Pluck"@,
        request.params.focus,
        request.params.root == root,
{
    LayoutApplyRequest {
        id,
        method: "layout.apply",
        params: LayoutApplyParams {
            workspace_id,
            tab_label: "Herdr Pluck".to_string(),
            focus: true,
            root,
        },
    }
}

/// Identity of the tab created by an applied layout.
#[derive(Debug, Clone, PartialEq, Eq)]
pub struct AppliedLayout {
    pub tab_id: String,
    /// Pane created for the picker leaf in the submitted tree.
    pub picker_pane_id: String,
}

/// Layout tree in Herdr's `layout.apply` reply, with the ids of the panes
/// it created.
#[derive(Debug, PartialEq, Eq)]
pub enum ResponseNode {
    Pane { pane_id: String },
    Split { first: Box<ResponseNode>, second: Box<ResponseNode> },
}

/// A reply tree with pane ids taken as text.
pub ghost enum ResponseTree {
    Pane { pane_id: Seq<char> },
    Split { first: Box<ResponseTree>, second: Box<ResponseTree> },
}

/// The tree a reply node stands for.
pub open spec fn response_tree_of(node: ResponseNode) -> ResponseTree
    decreases node,
{
    match node {
        ResponseNode::Pane { pane_id } => ResponseTree::Pane { pane_id: pane_id@ },
        ResponseNode::Split { first, second } => ResponseTree::Split {
            first: Box::new(response_tree_of(*first)),
            second: Box::new(response_tree_of(*second)),
        },
    }
}

impl View for ResponseNode {
    type V = ResponseTree;

    open spec fn view(&self) -> ResponseTree {
        response_tree_of(*self)
    }
}

/// Successful body of a `layout.apply` reply.
#[derive(Debug, PartialEq, Eq)]
pub struct LayoutApplyResult {
    /// The reply's `type`.
    pub kind: String,
    pub tab_id: String,
    pub root: ResponseNode,
}

/// Error body of a `layout.apply` reply; `code` is the code's JSON text.
#[derive(Debug, Clone, PartialEq, Eq)]
pub struct LayoutApplyFailure {
    pub code: String,
    pub message: String,
}

/// A `layout.apply` reply.
#[derive(Debug, PartialEq, Eq)]
pub struct LayoutApplyResponse {
    pub id: String,
    pub result: Option<LayoutApplyResult>,
    pub error: Option<LayoutApplyFailure>,
}

/// Why a `layout.apply` reply was refused.
#[derive(Debug, Clone, PartialEq, Eq)]
pub enum ApplyResponseError {
    /// The reply answers another request.
    IdMismatch { expected: String, got: String },
    /// Herdr reported an error.
    Failed { code: String, message: String },
    /// The reply holds neither a result nor an error.
    NoResult,
    /// The result is of another type than `layout_apply`.
    UnexpectedKind { kind: String },
    /// The created tab has an empty id.
    EmptyTabId,
    /// The created tree has no pane where the picker leaf was submitted.
    PickerPaneMissing,
}

/// The id of the created pane standing where the submitted tree has a pane
/// whose command's second word is `pick`, searching first children first.
pub open spec fn picker_pane_in(response: ResponseTree, request: ApplyTree) -> Option<Seq<char>>
    decreases response,
{
    match response {
        ResponseTree::Pane { pane_id } => match request {
            ApplyTree::Pane { command } => if command.len() > 1 && command[1] == "pick"@ {
                Some(pane_id)
            } else {
                None
            },
            _ => None,
        },
        ResponseTree::Split { first, second } => match request {
            ApplyTree::Split { first: qf, second: qs, .. } => match picker_pane_in(*first, *qf) {
                Some(p) => Some(p),
                None => picker_pane_in(*second, *qs),
            },
            _ => None,
        },
    }
}

/// The created pane standing for the submitted picker leaf.
pub fn find_picker_pane(response: &ResponseNode, request: &ApplyLayoutNode) -> (found: Option<String>)
    ensures
        match found {
            Some(p) => picker_pane_in(response@, request@) == Some(p@),
            None => picker_pane_in(response@, request@) is None,
        },
    decreases response,
{
    match response {
        ResponseNode::Pane { pane_id } => match request {
            ApplyLayoutNode::Pane { command } => {
                if command.len() > 1 && text_equals(command[1].as_str(), "pick") {
                    Some(pane_id.clone())
                } else {
                    None
                }
            },
            _ => None,
        },
        ResponseNode::Split { first, second } => match request {
            ApplyLayoutNode::Split { first: qf, second: qs, .. } => {
                match find_picker_pane(first, qf) {
                    Some(p) => Some(p),
                    None => find_picker_pane(second, qs),
                }
            },
            _ => None,
        },
    }
}

/// Checks a `layout.apply` reply against its request: the ids agree, Herdr
/// reported no error, the result is a `layout_apply` result with a tab id,
/// and the created tree has the picker's pane.
pub fn validate_layout_response(response: LayoutApplyResponse, request: &LayoutApplyRequest) -> (applied:
    Result<AppliedLayout, ApplyResponseError>)
    ensures
        response.id@ != request.id@ ==> (applied matches Err(
            ApplyResponseError::IdMismatch { expected, got },
        ) && expected@ == request.id@ && got@ == response.id@),
        response.id@ == request.id@ && response.error is Some ==> (applied matches Err(
            ApplyResponseError::Failed { code, message },
        ) && code@ == response.error->0.code@ && message@ == response.error->0.message@),
        response.id@ == request.id@ && response.error is None && response.result is None ==> (applied
            matches Err(ApplyResponseError::NoResult)),
        response.id@ == request.id@ && response.error is None && response.result is Some ==> {
            let r = response.result->0;
            if r.kind@ != "layout_apply"@ {
                applied matches Err(ApplyResponseError::UnexpectedKind { kind }) && kind@ == r.kind@
            } else if r.tab_id@.len() == 0 {
                applied matches Err(ApplyResponseError::EmptyTabId)
            } else {
                match picker_pane_in(r.root@, request.params.root@) {
                    None => applied matches Err(ApplyResponseError::PickerPaneMissing),
                    Some(p) => applied matches Ok(a) && a.tab_id@ == r.tab_id@ && a.picker_pane_id@
                        == p,
                }
            }
        },
{
    if response.id != request.id {
        return Err(ApplyResponseError::IdMismatch { expected: request.id.clone(), got: response.id });
    }
    if let Some(error) = response.error {
        return Err(ApplyResponseError::Failed { code: error.code, message: error.message });
    }
    let result = match response.result {
        Some(result) => result,
        None => return Err(ApplyResponseError::NoResult),
    };
    if !text_equals(result.kind.as_str(), "layout_apply") {
        return Err(ApplyResponseError::UnexpectedKind { kind: result.kind });
    }
    if result.tab_id.as_str().is_empty() {
        return Err(ApplyResponseError::EmptyTabId);
    }
    match find_picker_pane(&result.root, &request.params.root) {
        Some(picker_pane_id) => Ok(AppliedLayout { tab_id: result.tab_id, picker_pane_id }),
        None => Err(ApplyResponseError::PickerPaneMissing),
    }
}

/// The message reported for a refused `layout.apply` reply.
pub open spec fn apply_error_text(e: ApplyResponseError) -> Seq<char> {
    match e {
        ApplyResponseError::IdMismatch { expected, got } => "layout.apply response id mismatch: expected "@
            + expected@ + ", got "@ + got@,
        ApplyResponseError::Failed { code, message } => "Herdr layout.apply error "@ + code@ + ": "@
            + message@,
        ApplyResponseError::NoResult => "layout.apply response contained neither result nor error"@,
        ApplyResponseError::UnexpectedKind { kind } => "unexpected layout.apply result type `"@ + kind@
            + "`"@,
        ApplyResponseError::EmptyTabId => "layout.apply returned an empty tab id"@,
        ApplyResponseError::PickerPaneMissing => "layout.apply response tree did not contain the picker pane"@,
    }
}

impl ApplyResponseError {
    /// The message reported for this error.
    pub fn message(&self) -> (m: String)
        ensures
            m@ == apply_error_text(*self),
    {
        match self {
            ApplyResponseError::IdMismatch { expected, got } => {
                let s = concat_str("layout.apply response id mismatch: expected ", expected.as_str());
                let s = concat_str(s.as_str(), ", got ");
                let m = concat_str(s.as_str(), got.as_str());
                assert(m@ =~= apply_error_text(*self));
                m
            },
            ApplyResponseError::Failed { code, message } => {
                let s = concat_str("Herdr layout.apply error ", code.as_str());
                let s = concat_str(s.as_str(), ": ");
                let m = concat_str(s.as_str(), message.as_str());
                assert(m@ =~= apply_error_text(*self));
                m
            },
            ApplyResponseError::NoResult => "layout.apply response contained neither result nor error".to_string(),
            ApplyResponseError::UnexpectedKind { kind } => {
                let s = concat_str("unexpected layout.apply result type `", kind.as_str());
                let m = concat_str(s.as_str(), "`");
                assert(m@ =~= apply_error_text(*self));
                m
            },
            ApplyResponseError::EmptyTabId => "layout.apply returned an empty tab id".to_string(),
            ApplyResponseError::PickerPaneMissing => "layout.apply response tree did not contain the picker pane".to_string(),
        }
    }
}

/// Whether a layout tree has a leaf for the given pane.
pub open spec fn has_leaf(t: LayoutTree, id: Seq<char>) -> bool
    decreases t,
{
    match t {
        LayoutTree::Pane { id: leaf, .. } => leaf == id,
        LayoutTree::Split { first, second, .. } => has_leaf(*first, id) || has_leaf(*second, id),
    }
}

/// Whether a reply tree has the shape of the submitted tree.
pub open spec fn mirrors(response: ResponseTree, request: ApplyTree) -> bool
    decreases response,
{
    match response {
        ResponseTree::Pane { .. } => request is Pane,
        ResponseTree::Split { first, second } => match request {
            ApplyTree::Split { first: qf, second: qs, .. } => mirrors(*first, *qf) && mirrors(*second, *qs),
            _ => false,
        },
    }
}

/// Herdr's reply to the picker tab's layout names a picker pane exactly when
/// the source layout holds the target pane, provided the reply has the shape
/// of the submitted tree.
pub proof fn law_picker_found_iff_target_in_layout(
    t: LayoutTree,
    target: Seq<char>,
    binary: Seq<char>,
    snapshot: Seq<char>,
    ready: Seq<char>,
    response: ResponseTree,
)
    requires
        mirrors(response, converted(t, target, binary, snapshot, ready)),
    ensures
        picker_pane_in(response, converted(t, target, binary, snapshot, ready)) is Some <==> has_leaf(
            t,
            target,
        ),
    decreases t,
{
    match t {
        LayoutTree::Pane { id, .. } => {
            reveal_strlit("pick");
            reveal_strlit("idle");
            assert("idle"@ != "pick"@ ) by {
                assert("idle"@[0] != "pick"@[0]);
            }
        },
        LayoutTree::Split { first, second, .. } => {
            match response {
                ResponseTree::Split { first: rf, second: rs } => {
                    law_picker_found_iff_target_in_layout(*first, target, binary, snapshot, ready, *rf);
                    law_picker_found_iff_target_in_layout(*second, target, binary, snapshot, ready, *rs);
                },
                _ => {},
            }
        },
    }
}

/// A `pane.focus` reply: its id when that is a string, the JSON text of its
/// error when the reply has one, and whether it has a result.
#[derive(Debug, Clone, PartialEq, Eq)]
pub struct FocusResponse {
    pub id: Option<String>,
    pub error: Option<String>,
    pub has_result: bool,
}

/// Why a `pane.focus` reply was refused.
#[derive(Debug, Clone, PartialEq, Eq)]
pub enum FocusError {
    /// The reply answers another request.
    IdMismatch,
    /// Herdr reported an error, given as JSON text.
    Failed { error: String },
    /// The reply holds neither a result nor an error.
    NoResult,
}

impl FocusError {
    /// The message reported for this error.
    pub fn message(&self) -> (m: String)
        ensures
            m@ == match *self {
                FocusError::IdMismatch => "pane.focus response id mismatch"@,
                FocusError::Failed { error } => "Herdr pane.focus error: "@ + error@,
                FocusError::NoResult => "pane.focus response contained neither result nor error"@,
            },
    {
        match self {
            FocusError::IdMismatch => "pane.focus response id mismatch".to_string(),
            FocusError::Failed { error } => concat_str("Herdr pane.focus error: ", error.as_str()),
            FocusError::NoResult => "pane.focus response contained neither result nor error".to_string(),
        }
    }
}

/// Checks a `pane.focus` reply against the id of its request: the ids agree,
/// Herdr reported no error, and the reply has a result.
pub fn validate_focus_response(response: FocusResponse, id: &str) -> (checked: Result<(), FocusError>)
    ensures
        !(response.id matches Some(got) && got@ == id@) ==> checked == Err::<(), FocusError>(
            FocusError::IdMismatch,
        ),
        (response.id matches Some(got) && got@ == id@) && response.error is Some ==> (checked matches Err(
            FocusError::Failed { error },
        ) && error@ == response.error->0@),
        (response.id matches Some(got) && got@ == id@) && response.error is None ==> (checked is Ok
            <==> response.has_result),
        (response.id matches Some(got) && got@ == id@) && response.error is None && !response.has_result
            ==> checked == Err::<(), FocusError>(FocusError::NoResult),
{
    let matches_id = match &response.id {
        Some(got) => text_equals(got.as_str(), id),
        None => false,
    };
    if !matches_id {
        return Err(FocusError::IdMismatch);
    }
    if let Some(error) = response.error {
        return Err(FocusError::Failed { error });
    }
    if !response.has_result {
        return Err(FocusError::NoResult);
    }
    Ok(())
}

} // verus!
