use herdr_pluck::herdr::launch::{
    check_cleanup, picker_should_zoom, prepare_picker_launch, CleanupError, LaunchError,
};
use herdr_pluck::picker::render::{readonly_picker_outcome, ReadonlyPickerView};
use herdr_pluck::herdr::layout::{LayoutError, LayoutNode, LayoutPane, LayoutSnapshot, LayoutSplit};
use herdr_pluck::herdr::snapshot::{build_source_snapshot, SnapshotError};
use herdr_pluck::herdr::transport::{picker_placeholder_lines, HerdrAdapter, OverlayError};
use herdr_pluck::model::{
    PaneId, PaneTextCaptureMode, PickerOutcome, PatternSpec, Rect, SourceGeometrySnapshot, SplitDirection,
};

fn two_pane_layout() -> LayoutSnapshot {
    LayoutSnapshot {
        area: Rect::new(0, 0, 100, 40),
        focused_pane_id: Some("p2".to_string()),
        panes: vec![
            LayoutPane {
                focused: false,
                pane_id: "p1".to_string(),
                rect: Rect::new(0, 0, 40, 40),
            },
            LayoutPane {
                focused: true,
                pane_id: "p2".to_string(),
                rect: Rect::new(40, 0, 60, 40),
            },
        ],
        splits: vec![LayoutSplit {
            direction: SplitDirection::Right,
            ratio_bits: 0.4f32.to_bits(),
            offset: 40,
            rect: Rect::new(0, 0, 100, 40),
        }],
        tab_id: Some("t1".to_string()),
        workspace_id: Some("w1".to_string()),
        zoomed: false,
    }
}

#[test]
fn source_snapshot_carries_target_content_rect_and_lines() {
    let patterns = vec![PatternSpec {
        name: "ticket".to_string(),
        regex: "T-[0-9]+".to_string(),
        priority: 5,
    }];
    let snapshot = build_source_snapshot(
        &two_pane_layout(),
        &PaneId::new("p2"),
        vec!["https://example.com".to_string()],
        None,
        patterns.clone(),
    )
    .unwrap();

    assert_eq!(snapshot.source.target_pane_id, PaneId::new("p2"));
    assert_eq!(snapshot.source.source_tab_id, "t1");
    assert_eq!(snapshot.source.workspace_id, "w1");
    assert_eq!(snapshot.source.tab_area, Rect::new(0, 0, 100, 40));
    assert_eq!(snapshot.source.target_content_rect, Rect::new(41, 1, 57, 38));
    assert_eq!(snapshot.source.target_content_width, 57);
    assert_eq!(snapshot.source.target_content_height, 38);
    assert_eq!(
        snapshot.source.logical_lines,
        vec!["https://example.com".to_string()]
    );
    assert_eq!(snapshot.source.visible_viewport, None);
    assert_eq!(
        snapshot.source.capture_mode,
        PaneTextCaptureMode::ExactVisibleUnwrapped
    );
    assert_eq!(snapshot.custom_patterns, patterns);
}

#[test]
fn source_snapshot_requires_tab_workspace_and_target() {
    let mut layout = two_pane_layout();
    let error = build_source_snapshot(&layout, &PaneId::new("p9"), vec![], None, vec![])
        .unwrap_err();
    assert_eq!(
        error,
        SnapshotError::TargetMissing {
            target: PaneId::new("p9")
        }
    );
    assert_eq!(error.message(), "target pane p9 missing from source layout");

    layout.workspace_id = None;
    let error = build_source_snapshot(&layout, &PaneId::new("p2"), vec![], None, vec![])
        .unwrap_err();
    assert_eq!(error, SnapshotError::MissingWorkspaceId);
    assert_eq!(error.message(), "pane layout did not include workspace id");

    layout.tab_id = None;
    let error = build_source_snapshot(&layout, &PaneId::new("p2"), vec![], None, vec![])
        .unwrap_err();
    assert_eq!(error, SnapshotError::MissingTabId);
    assert_eq!(error.message(), "pane layout did not include source tab id");
}

#[test]
fn launch_prepares_plan_and_geometry() {
    let launch = prepare_picker_launch(&two_pane_layout(), &PaneId::new("p2")).unwrap();
    assert!(matches!(launch.plan.root, LayoutNode::Split { .. }));
    assert_eq!(launch.plan.target_source_pane_id, PaneId::new("p2"));
    assert_eq!(launch.geometry.source_content_rect, Rect::new(41, 1, 57, 38));
}

#[test]
fn launch_refuses_target_without_visible_rows() {
    let layout = LayoutSnapshot {
        area: Rect::new(0, 0, 80, 2),
        focused_pane_id: Some("p1".to_string()),
        panes: vec![
            LayoutPane {
                focused: true,
                pane_id: "p1".to_string(),
                rect: Rect::new(0, 0, 40, 2),
            },
            LayoutPane {
                focused: false,
                pane_id: "p2".to_string(),
                rect: Rect::new(40, 0, 40, 2),
            },
        ],
        splits: vec![LayoutSplit {
            direction: SplitDirection::Right,
            ratio_bits: 0.5f32.to_bits(),
            offset: 40,
            rect: Rect::new(0, 0, 80, 2),
        }],
        tab_id: Some("t1".to_string()),
        workspace_id: Some("w1".to_string()),
        zoomed: false,
    };
    let error = prepare_picker_launch(&layout, &PaneId::new("p1")).unwrap_err();
    assert_eq!(
        error,
        LaunchError::ZeroHeight {
            target: PaneId::new("p1")
        }
    );
    assert_eq!(
        error.message(),
        "target pane p1 has zero visible content height"
    );

    let broken = LayoutSnapshot {
        splits: vec![],
        ..layout
    };
    let error = prepare_picker_launch(&broken, &PaneId::new("p1")).unwrap_err();
    assert_eq!(
        error,
        LaunchError::Layout(LayoutError::MissingSplit { pane_count: 2 })
    );
}

#[test]
fn picker_zooms_only_for_focused_target_in_zoomed_tab() {
    let mut layout = two_pane_layout();
    assert!(!picker_should_zoom(&layout, &PaneId::new("p2")));
    layout.zoomed = true;
    assert!(picker_should_zoom(&layout, &PaneId::new("p2")));
    assert!(!picker_should_zoom(&layout, &PaneId::new("p1")));
}

#[test]
fn placeholder_reports_frozen_geometry() {
    let geometry = SourceGeometrySnapshot {
        target_pane_id: PaneId::new("p1"),
        terminal_area: Rect::new(26, 1, 100, 40),
        source_outer_rect: Rect::new(26, 1, 100, 40),
        source_content_rect: Rect::new(26, 1, 99, 40),
        pane_count: 1,
        zoomed: false,
        target_focused: true,
    };
    let lines = picker_placeholder_lines(&PaneId::new("p1"), Some(&geometry));
    assert_eq!(
        lines,
        vec![
            "Herdr Pluck picker scaffold",
            "",
            "Target pane: p1",
            "Frozen pre-overlay geometry captured:",
            "  terminal area: x=26 y=1 w=100 h=40",
            "  source outer:  x=26 y=1 w=100 h=40",
            "  source content: x=26 y=1 w=99 h=40",
            "  source content in terminal: x=0 y=0 w=99 h=40",
            "  panes=1 zoomed=false target_focused=true",
            "Matching, rendering, input, and copy flow are implemented in follow-up ishes.",
            "",
            "Press any key to close...",
        ]
    );
    let lines = picker_placeholder_lines(&PaneId::new("p1"), None);
    assert_eq!(lines[3], "Frozen pre-overlay geometry: unavailable");
    assert_eq!(lines.len(), 7);
}

#[test]
fn overlay_args_pass_target_and_geometry_env() {
    let adapter = HerdrAdapter::new("herdr", Some("rmarganti.herdr-pluck".to_string()), None, None);
    let args = adapter
        .picker_overlay_args(&PaneId::new("p1"), "{\"pane_count\":1}")
        .unwrap();
    assert_eq!(
        args,
        vec![
            "plugin",
            "pane",
            "open",
            "--plugin",
            "rmarganti.herdr-pluck",
            "--entrypoint",
            "picker",
            "--placement",
            "overlay",
            "--env",
            "HERDR_PLUCK_TARGET_PANE_ID=p1",
            "--env",
            "HERDR_PLUCK_SOURCE_GEOMETRY_JSON={\"pane_count\":1}",
        ]
    );

    let without_plugin = HerdrAdapter::new("herdr", None, None, None);
    let error = without_plugin
        .picker_overlay_args(&PaneId::new("p1"), "{}")
        .unwrap_err();
    assert_eq!(error, OverlayError::MissingPluginId);
    assert_eq!(
        error.message(),
        "HERDR_PLUGIN_ID is required to open the plugin pane"
    );
}

#[test]
fn cleanup_refuses_missing_or_source_tab() {
    let error = check_cleanup("t1", "").unwrap_err();
    assert_eq!(error, CleanupError::MissingTemporaryTab);
    assert_eq!(error.message(), "temporary picker tab id is missing");

    let error = check_cleanup("t1", "t1").unwrap_err();
    assert_eq!(
        error,
        CleanupError::SourceTab {
            tab_id: "t1".to_string()
        }
    );
    assert_eq!(
        error.message(),
        "refusing to close source tab t1 as temporary picker tab"
    );

    assert_eq!(check_cleanup("t1", "t2"), Ok(()));
}

#[test]
fn readonly_picker_outcome_depends_on_hints() {
    let empty = ReadonlyPickerView {
        lines: vec![],
        match_count: 0,
        hint_count: 0,
    };
    assert_eq!(readonly_picker_outcome(&empty), PickerOutcome::NoMatches);
    let hinted = ReadonlyPickerView {
        lines: vec![],
        match_count: 2,
        hint_count: 1,
    };
    assert_eq!(readonly_picker_outcome(&hinted), PickerOutcome::Cancelled);
}
