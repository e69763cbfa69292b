use herdr_pluck::herdr::apply::{validate_focus_response, FocusError, FocusResponse};
use herdr_pluck::herdr::apply::{
    convert_layout, find_picker_pane, picker_tab_request, validate_layout_response,
    AppliedLayout, ApplyLayoutNode, ApplyResponseError, LayoutApplyFailure, LayoutApplyParams,
    LayoutApplyRequest, LayoutApplyResponse, LayoutApplyResult, ResponseNode,
};
use herdr_pluck::herdr::layout::LayoutNode;
use herdr_pluck::model::{PaneId, Rect, SplitDirection};
use serde_json::Value;

fn response_node(value: &Value) -> ResponseNode {
    match value["type"].as_str().unwrap() {
        "pane" => ResponseNode::Pane {
            pane_id: value["pane_id"].as_str().unwrap().to_string(),
        },
        _ => ResponseNode::Split {
            first: Box::new(response_node(&value["first"])),
            second: Box::new(response_node(&value["second"])),
        },
    }
}

fn response(json: &str) -> LayoutApplyResponse {
    let value: Value = serde_json::from_str(json).unwrap();
    LayoutApplyResponse {
        id: value["id"].as_str().unwrap().to_string(),
        result: value.get("result").map(|result| LayoutApplyResult {
            kind: result["type"].as_str().unwrap().to_string(),
            tab_id: result["layout"]["tab_id"].as_str().unwrap().to_string(),
            root: response_node(&result["layout"]["root"]),
        }),
        error: value.get("error").map(|error| LayoutApplyFailure {
            code: error["code"].to_string(),
            message: error["message"].as_str().unwrap().to_string(),
        }),
    }
}

fn request() -> LayoutApplyRequest {
    LayoutApplyRequest {
        id: "x".into(),
        method: "layout.apply",
        params: LayoutApplyParams {
            workspace_id: "w".into(),
            tab_label: "Pluck".into(),
            focus: true,
            root: ApplyLayoutNode::Pane {
                command: vec!["pluck".into(), "pick".into()],
            },
        },
    }
}

#[test]
fn validates_responses_and_returns_picker_pane() {
    let applied = validate_layout_response(response(r#"{"id":"x","result":{"type":"layout_apply","layout":{"tab_id":"t2","root":{"type":"pane","pane_id":"p2"}}}}"#), &request()).unwrap();
    assert_eq!(
        applied,
        AppliedLayout {
            tab_id: "t2".into(),
            picker_pane_id: "p2".into()
        }
    );
    let error = validate_layout_response(
        response(r#"{"id":"x","error":{"code":"bad","message":"oops"}}"#),
        &request(),
    )
    .unwrap_err()
    .message();
    assert!(error.contains("bad") && error.contains("oops"));
    assert!(validate_layout_response(response(r#"{"id":"y","result":{"type":"layout_apply","layout":{"tab_id":"t2","root":{"type":"pane","pane_id":"p2"}}}}"#), &request()).is_err());
}

#[test]
fn refused_replies_report_each_reason() {
    let error = validate_layout_response(response(r#"{"id":"y"}"#), &request()).unwrap_err();
    assert_eq!(
        error,
        ApplyResponseError::IdMismatch {
            expected: "x".into(),
            got: "y".into()
        }
    );
    assert_eq!(
        error.message(),
        "layout.apply response id mismatch: expected x, got y"
    );

    let error = validate_layout_response(response(r#"{"id":"x"}"#), &request()).unwrap_err();
    assert_eq!(error, ApplyResponseError::NoResult);
    assert_eq!(
        error.message(),
        "layout.apply response contained neither result nor error"
    );

    let error = validate_layout_response(
        response(r#"{"id":"x","error":{"code":7,"message":"busy"}}"#),
        &request(),
    )
    .unwrap_err();
    assert_eq!(error.message(), "Herdr layout.apply error 7: busy");

    let error = validate_layout_response(response(r#"{"id":"x","result":{"type":"other","layout":{"tab_id":"t2","root":{"type":"pane","pane_id":"p2"}}}}"#), &request()).unwrap_err();
    assert_eq!(
        error,
        ApplyResponseError::UnexpectedKind {
            kind: "other".into()
        }
    );
    assert_eq!(
        error.message(),
        "unexpected layout.apply result type `other`"
    );

    let error = validate_layout_response(response(r#"{"id":"x","result":{"type":"layout_apply","layout":{"tab_id":"","root":{"type":"pane","pane_id":"p2"}}}}"#), &request()).unwrap_err();
    assert_eq!(error, ApplyResponseError::EmptyTabId);
    assert_eq!(error.message(), "layout.apply returned an empty tab id");

    let error = validate_layout_response(response(r#"{"id":"x","result":{"type":"layout_apply","layout":{"tab_id":"t2","root":{"type":"split","first":{"type":"pane","pane_id":"a"},"second":{"type":"pane","pane_id":"b"}}}}}"#), &request()).unwrap_err();
    assert_eq!(error, ApplyResponseError::PickerPaneMissing);
    assert_eq!(
        error.message(),
        "layout.apply response tree did not contain the picker pane"
    );
}

fn sample_tree() -> LayoutNode {
    LayoutNode::Split {
        direction: SplitDirection::Right,
        ratio_bits: 0.37f32.to_bits(),
        first: Box::new(LayoutNode::Pane {
            source_pane_id: PaneId::new("a"),
            rect: Rect::new(0, 0, 1, 1),
        }),
        second: Box::new(LayoutNode::Pane {
            source_pane_id: PaneId::new("b"),
            rect: Rect::new(0, 0, 1, 1),
        }),
        rect: Rect::new(0, 0, 2, 1),
    }
}

#[test]
fn conversion_preserves_argv_and_split() {
    let converted = convert_layout(&sample_tree(), &PaneId::new("b"), "/a b/π'", "/s p", "/r p");
    assert_eq!(
        converted,
        ApplyLayoutNode::Split {
            direction: SplitDirection::Right,
            ratio_bits: 0.37f32.to_bits(),
            first: Box::new(ApplyLayoutNode::Pane {
                command: vec!["/a b/π'".to_string(), "idle".to_string()],
            }),
            second: Box::new(ApplyLayoutNode::Pane {
                command: vec![
                    "/a b/π'".to_string(),
                    "pick".to_string(),
                    "--snapshot".to_string(),
                    "/s p".to_string(),
                    "--ready".to_string(),
                    "/r p".to_string(),
                ],
            }),
        }
    );
}

#[test]
fn picker_pane_is_found_in_a_mirrored_reply() {
    let converted = convert_layout(&sample_tree(), &PaneId::new("b"), "bin", "s", "r");
    let reply = ResponseNode::Split {
        first: Box::new(ResponseNode::Pane {
            pane_id: "new-a".into(),
        }),
        second: Box::new(ResponseNode::Pane {
            pane_id: "new-b".into(),
        }),
    };
    assert_eq!(
        find_picker_pane(&reply, &converted),
        Some("new-b".to_string())
    );

    let without_target = convert_layout(&sample_tree(), &PaneId::new("c"), "bin", "s", "r");
    assert_eq!(find_picker_pane(&reply, &without_target), None);
}

#[test]
fn picker_tab_request_targets_the_source_workspace() {
    let request = picker_tab_request(
        "pluck-1-0".to_string(),
        "w1".to_string(),
        ApplyLayoutNode::Pane {
            command: vec!["bin".into(), "idle".into()],
        },
    );
    assert_eq!(request.id, "pluck-1-0");
    assert_eq!(request.method, "layout.apply");
    assert_eq!(request.params.workspace_id, "w1");
    assert_eq!(request.params.tab_label, "Herdr Pluck");
    assert!(request.params.focus);
}

#[test]
fn focus_replies_are_checked_against_their_request() {
    let ok = FocusResponse {
        id: Some("pluck-focus-1".into()),
        error: None,
        has_result: true,
    };
    assert_eq!(validate_focus_response(ok, "pluck-focus-1"), Ok(()));

    let other = FocusResponse {
        id: Some("pluck-focus-2".into()),
        error: None,
        has_result: true,
    };
    let error = validate_focus_response(other, "pluck-focus-1").unwrap_err();
    assert_eq!(error, FocusError::IdMismatch);
    assert_eq!(error.message(), "pane.focus response id mismatch");

    let failed = FocusResponse {
        id: Some("pluck-focus-1".into()),
        error: Some("\"gone\"".into()),
        has_result: false,
    };
    let error = validate_focus_response(failed, "pluck-focus-1").unwrap_err();
    assert_eq!(error.message(), "Herdr pane.focus error: \"gone\"");

    let empty = FocusResponse {
        id: Some("pluck-focus-1".into()),
        error: None,
        has_result: false,
    };
    let error = validate_focus_response(empty, "pluck-focus-1").unwrap_err();
    assert_eq!(error, FocusError::NoResult);
    assert_eq!(
        error.message(),
        "pane.focus response contained neither result nor error"
    );
}
