use herdr_pluck::herdr::layout::{
    derive_layout_recreation_plan, derive_source_geometry, LayoutError, LayoutNode, LayoutPane,
    LayoutSnapshot, LayoutSplit,
};
use herdr_pluck::model::{PaneId, Rect, SplitDirection};
use serde_json::Value;

fn split(direction: SplitDirection, ratio: f32, rect: Rect) -> LayoutSplit {
    let extent = match direction {
        SplitDirection::Right => rect.width,
        SplitDirection::Down => rect.height,
    };
    LayoutSplit {
        direction,
        ratio_bits: ratio.to_bits(),
        offset: (extent as f32 * ratio).round() as u16,
        rect,
    }
}

fn pane(id: &str, rect: Rect, focused: bool) -> LayoutPane {
    LayoutPane {
        focused,
        pane_id: id.to_string(),
        rect,
    }
}

fn layout(panes: Vec<LayoutPane>, splits: Vec<LayoutSplit>) -> LayoutSnapshot {
    LayoutSnapshot {
        area: Rect::new(0, 0, 100, 40),
        focused_pane_id: Some("p1".to_string()),
        panes,
        splits,
        tab_id: Some("t1".to_string()),
        workspace_id: Some("w1".to_string()),
        zoomed: false,
    }
}

#[test]
fn derives_single_pane_unframed_content_from_full_area_with_gutter() {
    let layout = LayoutSnapshot {
        area: Rect::new(26, 1, 100, 40),
        focused_pane_id: Some("p1".to_string()),
        panes: vec![LayoutPane {
            focused: true,
            pane_id: "p1".to_string(),
            rect: Rect::new(26, 1, 100, 40),
        }],
        splits: Vec::new(),
        tab_id: Some("t1".to_string()),
        workspace_id: Some("w1".to_string()),
        zoomed: false,
    };

    let geometry = derive_source_geometry(&layout, &PaneId::new("p1"));

    assert_eq!(geometry.source_outer_rect, Rect::new(26, 1, 100, 40));
    assert_eq!(geometry.source_content_rect, Rect::new(26, 1, 99, 40));
    assert_eq!(
        geometry.source_content_rect_in_terminal(),
        Rect::new(0, 0, 99, 40)
    );
    assert_eq!(geometry.pane_count, 1);
}

#[test]
fn derives_unzoomed_split_content_from_pane_rect_with_border_and_gutter() {
    let layout = LayoutSnapshot {
        area: Rect::new(0, 0, 200, 60),
        focused_pane_id: Some("p2".to_string()),
        panes: vec![
            LayoutPane {
                focused: false,
                pane_id: "p1".to_string(),
                rect: Rect::new(0, 0, 100, 60),
            },
            LayoutPane {
                focused: true,
                pane_id: "p2".to_string(),
                rect: Rect::new(100, 0, 100, 60),
            },
        ],
        splits: Vec::new(),
        tab_id: Some("t1".to_string()),
        workspace_id: Some("w1".to_string()),
        zoomed: false,
    };

    let geometry = derive_source_geometry(&layout, &PaneId::new("p2"));

    assert_eq!(geometry.source_outer_rect, Rect::new(100, 0, 100, 60));
    assert_eq!(geometry.source_content_rect, Rect::new(101, 1, 97, 58));
    assert_eq!(
        geometry.source_content_rect_in_terminal(),
        Rect::new(101, 1, 97, 58)
    );
}

#[test]
fn derives_zoomed_multi_pane_content_from_full_area_with_border_and_gutter() {
    let layout = LayoutSnapshot {
        area: Rect::new(26, 1, 226, 63),
        focused_pane_id: Some("p2".to_string()),
        panes: vec![
            LayoutPane {
                focused: false,
                pane_id: "p1".to_string(),
                rect: Rect::new(26, 1, 113, 63),
            },
            LayoutPane {
                focused: true,
                pane_id: "p2".to_string(),
                rect: Rect::new(139, 1, 113, 63),
            },
        ],
        splits: Vec::new(),
        tab_id: Some("t1".to_string()),
        workspace_id: Some("w1".to_string()),
        zoomed: true,
    };

    let geometry = derive_source_geometry(&layout, &PaneId::new("p2"));

    assert_eq!(geometry.source_outer_rect, Rect::new(26, 1, 226, 63));
    assert_eq!(geometry.source_content_rect, Rect::new(27, 2, 223, 61));
    assert_eq!(
        geometry.source_content_rect_in_terminal(),
        Rect::new(1, 1, 223, 61)
    );
}

#[test]
fn single_pane_geometry_has_no_border_inset() {
    let layout = layout(vec![pane("p1", Rect::new(0, 0, 100, 40), true)], vec![]);

    let geometry = derive_source_geometry(&layout, &PaneId::new("p1"));

    assert_eq!(geometry.source_outer_rect, Rect::new(0, 0, 100, 40));
    assert_eq!(geometry.source_content_rect, Rect::new(0, 0, 99, 40));
}

#[test]
fn multi_pane_geometry_insets_borders_and_gutter() {
    let layout = layout(
        vec![
            pane("p1", Rect::new(0, 0, 40, 40), false),
            pane("p2", Rect::new(40, 0, 60, 40), true),
        ],
        vec![split(SplitDirection::Right, 0.4, Rect::new(0, 0, 100, 40))],
    );

    let geometry = derive_source_geometry(&layout, &PaneId::new("p2"));

    assert_eq!(geometry.source_outer_rect, Rect::new(40, 0, 60, 40));
    assert_eq!(geometry.source_content_rect, Rect::new(41, 1, 57, 38));
}

#[test]
fn zoomed_focused_target_uses_full_area() {
    let mut layout = layout(
        vec![
            pane("p1", Rect::new(0, 0, 40, 40), false),
            pane("p2", Rect::new(40, 0, 60, 40), true),
        ],
        vec![],
    );
    layout.zoomed = true;

    let geometry = derive_source_geometry(&layout, &PaneId::new("p2"));

    assert_eq!(geometry.source_outer_rect, Rect::new(0, 0, 100, 40));
}

#[test]
fn geometry_falls_back_to_focused_pane_for_unknown_target() {
    let layout = layout(
        vec![
            pane("p1", Rect::new(0, 0, 40, 40), false),
            pane("p2", Rect::new(40, 0, 60, 40), true),
        ],
        vec![],
    );

    let geometry = derive_source_geometry(&layout, &PaneId::new("missing"));

    assert_eq!(geometry.source_outer_rect, Rect::new(40, 0, 60, 40));
    assert!(geometry.target_focused);
    assert_eq!(geometry.target_pane_id, PaneId::new("missing"));
}

#[test]
fn derives_single_pane_layout_plan_without_splits() {
    let layout = LayoutSnapshot {
        area: Rect::new(0, 0, 80, 24),
        focused_pane_id: Some("p1".to_string()),
        panes: vec![LayoutPane {
            focused: true,
            pane_id: "p1".to_string(),
            rect: Rect::new(0, 0, 80, 24),
        }],
        splits: Vec::new(),
        tab_id: Some("t1".to_string()),
        workspace_id: Some("w1".to_string()),
        zoomed: false,
    };

    let plan = derive_layout_recreation_plan(&layout, &PaneId::new("p1")).unwrap();

    assert_eq!(
        plan.root,
        LayoutNode::Pane {
            source_pane_id: PaneId::new("p1"),
            rect: Rect::new(0, 0, 80, 24),
        }
    );
}

#[test]
fn derives_right_split_layout_plan_from_herdr_splits() {
    let layout = LayoutSnapshot {
        area: Rect::new(0, 0, 100, 40),
        focused_pane_id: Some("p2".to_string()),
        panes: vec![
            LayoutPane {
                focused: false,
                pane_id: "p1".to_string(),
                rect: Rect::new(0, 0, 40, 40),
            },
            LayoutPane {
                focused: true,
                pane_id: "p2".to_string(),
                rect: Rect::new(40, 0, 60, 40),
            },
        ],
        splits: vec![split(SplitDirection::Right, 0.4, Rect::new(0, 0, 100, 40))],
        tab_id: Some("t1".to_string()),
        workspace_id: Some("w1".to_string()),
        zoomed: false,
    };

    let plan = derive_layout_recreation_plan(&layout, &PaneId::new("p2")).unwrap();

    assert_eq!(plan.target_source_pane_id, PaneId::new("p2"));
    assert_eq!(
        plan.root,
        LayoutNode::Split {
            direction: SplitDirection::Right,
            ratio_bits: 0.4f32.to_bits(),
            first: Box::new(LayoutNode::Pane {
                source_pane_id: PaneId::new("p1"),
                rect: Rect::new(0, 0, 40, 40),
            }),
            second: Box::new(LayoutNode::Pane {
                source_pane_id: PaneId::new("p2"),
                rect: Rect::new(40, 0, 60, 40),
            }),
            rect: Rect::new(0, 0, 100, 40),
        }
    );
}

#[test]
fn split_lookup_requires_exact_region_match_for_nested_layouts() {
    let layout = LayoutSnapshot {
        area: Rect::new(0, 0, 100, 40),
        focused_pane_id: Some("p3".to_string()),
        panes: vec![
            LayoutPane {
                focused: false,
                pane_id: "p1".to_string(),
                rect: Rect::new(0, 0, 40, 40),
            },
            LayoutPane {
                focused: false,
                pane_id: "p2".to_string(),
                rect: Rect::new(40, 0, 60, 20),
            },
            LayoutPane {
                focused: true,
                pane_id: "p3".to_string(),
                rect: Rect::new(40, 20, 60, 20),
            },
        ],
        splits: vec![
            split(SplitDirection::Down, 0.5, Rect::new(40, 0, 60, 40)),
            split(SplitDirection::Right, 0.4, Rect::new(0, 0, 100, 40)),
        ],
        tab_id: Some("t1".to_string()),
        workspace_id: Some("w1".to_string()),
        zoomed: false,
    };

    let plan = derive_layout_recreation_plan(&layout, &PaneId::new("p3")).unwrap();

    assert!(matches!(
        plan.root,
        LayoutNode::Split {
            direction: SplitDirection::Right,
            ..
        }
    ));
}

#[test]
fn nested_layout_plan_replays_inner_split_over_its_region() {
    let layout = layout(
        vec![
            pane("p1", Rect::new(0, 0, 40, 40), false),
            pane("p2", Rect::new(40, 0, 60, 20), false),
            pane("p3", Rect::new(40, 20, 60, 20), true),
        ],
        vec![
            split(SplitDirection::Down, 0.5, Rect::new(40, 0, 60, 40)),
            split(SplitDirection::Right, 0.4, Rect::new(0, 0, 100, 40)),
        ],
    );

    let plan = derive_layout_recreation_plan(&layout, &PaneId::new("p3")).unwrap();

    assert_eq!(
        plan.root,
        LayoutNode::Split {
            direction: SplitDirection::Right,
            ratio_bits: 0.4f32.to_bits(),
            first: Box::new(LayoutNode::Pane {
                source_pane_id: PaneId::new("p1"),
                rect: Rect::new(0, 0, 40, 40),
            }),
            second: Box::new(LayoutNode::Split {
                direction: SplitDirection::Down,
                ratio_bits: 0.5f32.to_bits(),
                first: Box::new(LayoutNode::Pane {
                    source_pane_id: PaneId::new("p2"),
                    rect: Rect::new(40, 0, 60, 20),
                }),
                second: Box::new(LayoutNode::Pane {
                    source_pane_id: PaneId::new("p3"),
                    rect: Rect::new(40, 20, 60, 20),
                }),
                rect: Rect::new(40, 0, 60, 40),
            }),
            rect: Rect::new(0, 0, 100, 40),
        }
    );
}

#[test]
fn empty_layout_region_fails_clearly() {
    let layout = LayoutSnapshot {
        area: Rect::new(0, 0, 80, 24),
        focused_pane_id: None,
        panes: Vec::new(),
        splits: Vec::new(),
        tab_id: Some("t1".to_string()),
        workspace_id: Some("w1".to_string()),
        zoomed: false,
    };

    let error = derive_layout_recreation_plan(&layout, &PaneId::new("missing")).unwrap_err();

    assert!(error.message().contains("contains no panes"));
    assert_eq!(
        error.message(),
        "layout region x=0 y=0 w=80 h=24 contains no panes"
    );
}

#[test]
fn pane_crossing_split_boundary_fails_clearly() {
    let layout = LayoutSnapshot {
        area: Rect::new(0, 0, 100, 40),
        focused_pane_id: Some("p1".to_string()),
        panes: vec![
            LayoutPane {
                focused: true,
                pane_id: "p1".to_string(),
                rect: Rect::new(0, 0, 60, 40),
            },
            LayoutPane {
                focused: false,
                pane_id: "p2".to_string(),
                rect: Rect::new(60, 0, 40, 40),
            },
        ],
        splits: vec![split(SplitDirection::Right, 0.5, Rect::new(0, 0, 100, 40))],
        tab_id: Some("t1".to_string()),
        workspace_id: Some("w1".to_string()),
        zoomed: false,
    };

    let error = derive_layout_recreation_plan(&layout, &PaneId::new("p1")).unwrap_err();

    assert!(error.message().contains("crosses split boundary"));
    assert_eq!(
        error,
        LayoutError::CrossesSplit {
            rect: Rect::new(0, 0, 60, 40),
            split_at: 50,
        }
    );
    assert_eq!(
        error.message(),
        "pane rect x=0 y=0 w=60 h=40 crosses split boundary 50"
    );
}

#[test]
fn several_panes_without_a_matching_split_fail() {
    let layout = layout(
        vec![
            pane("p1", Rect::new(0, 0, 40, 40), false),
            pane("p2", Rect::new(40, 0, 60, 40), true),
        ],
        vec![split(SplitDirection::Right, 0.4, Rect::new(0, 0, 99, 40))],
    );

    let error = derive_layout_recreation_plan(&layout, &PaneId::new("p1")).unwrap_err();

    assert_eq!(error, LayoutError::MissingSplit { pane_count: 2 });
    assert_eq!(
        error.message(),
        "no split describes layout region with 2 panes"
    );
}

#[test]
fn split_with_every_pane_on_one_side_fails() {
    let layout = layout(
        vec![
            pane("p1", Rect::new(0, 0, 40, 40), false),
            pane("p2", Rect::new(40, 0, 60, 40), true),
        ],
        vec![split(SplitDirection::Right, 1.0, Rect::new(0, 0, 100, 40))],
    );

    let error = derive_layout_recreation_plan(&layout, &PaneId::new("p1")).unwrap_err();
    assert_eq!(error, LayoutError::EmptySecondChild);
    assert_eq!(error.message(), "split second child has no panes");

    let layout = LayoutSnapshot {
        splits: vec![split(SplitDirection::Right, 0.0, Rect::new(0, 0, 100, 40))],
        ..layout
    };
    let error = derive_layout_recreation_plan(&layout, &PaneId::new("p1")).unwrap_err();
    assert_eq!(error, LayoutError::EmptyFirstChild);
    assert_eq!(error.message(), "split first child has no panes");
}

#[test]
fn split_that_reproduces_its_region_is_reported_too_deep() {
    let layout = layout(
        vec![
            pane("z", Rect::new(50, 0, 0, 40), false),
            pane("b", Rect::new(50, 0, 50, 40), true),
        ],
        vec![
            split(SplitDirection::Right, 0.5, Rect::new(0, 0, 100, 40)),
            split(SplitDirection::Right, 0.0, Rect::new(50, 0, 50, 40)),
        ],
    );

    let error = derive_layout_recreation_plan(&layout, &PaneId::new("b")).unwrap_err();

    assert_eq!(error, LayoutError::TooDeep);
}

fn rect_of(value: &Value) -> Rect {
    Rect::new(
        value["x"].as_u64().unwrap() as u16,
        value["y"].as_u64().unwrap() as u16,
        value["width"].as_u64().unwrap() as u16,
        value["height"].as_u64().unwrap() as u16,
    )
}

fn layout_from_envelope(json: &[u8]) -> LayoutSnapshot {
    let envelope: Value = serde_json::from_slice(json).unwrap();
    let layout = &envelope["result"]["layout"];
    LayoutSnapshot {
        area: rect_of(&layout["area"]),
        focused_pane_id: layout["focused_pane_id"].as_str().map(str::to_string),
        panes: layout["panes"]
            .as_array()
            .unwrap()
            .iter()
            .map(|p| LayoutPane {
                focused: p["focused"].as_bool().unwrap_or(false),
                pane_id: p["pane_id"].as_str().unwrap().to_string(),
                rect: rect_of(&p["rect"]),
            })
            .collect(),
        splits: layout["splits"]
            .as_array()
            .unwrap()
            .iter()
            .map(|s| {
                let direction = if s["direction"] == "right" {
                    SplitDirection::Right
                } else {
                    SplitDirection::Down
                };
                split(direction, s["ratio"].as_f64().unwrap() as f32, rect_of(&s["rect"]))
            })
            .collect(),
        tab_id: layout["tab_id"].as_str().map(str::to_string),
        workspace_id: layout["workspace_id"].as_str().map(str::to_string),
        zoomed: layout["zoomed"].as_bool().unwrap_or(false),
    }
}

#[test]
fn parses_actual_herdr_layout_envelope_shape() {
    let json = br#"{"id":"cli:pane:layout","result":{"layout":{"area":{"height":63,"width":226,"x":26,"y":1},"focused_pane_id":"wE:p2","panes":[{"focused":false,"pane_id":"wE:p1","rect":{"height":63,"width":113,"x":26,"y":1}},{"focused":true,"pane_id":"wE:p2","rect":{"height":63,"width":113,"x":139,"y":1}}],"splits":[],"tab_id":"wE:t1","workspace_id":"wE","zoomed":true},"type":"pane_layout"}}"#;

    let geometry = derive_source_geometry(&layout_from_envelope(json), &PaneId::new("wE:p2"));
    assert_eq!(geometry.source_content_rect, Rect::new(27, 2, 223, 61));
}
