use anyhow::Result;
use herdr_pluck::herdr::commands::{CommandError, CommandOutput, CommandRunner, HerdrCommands};
use herdr_pluck::herdr::launch::{cleanup_session, zoom_picker, CleanupError, PickerReturnContext, SessionError};
use herdr_pluck::herdr::context::HerdrContext;
use herdr_pluck::herdr::transport::{HerdrAdapter, SnapshotTransport, SnapshotTransportConstraints};
use herdr_pluck::model::PaneId;
use std::collections::VecDeque;
use std::path::PathBuf;

#[test]
fn herdr_extracts_focused_pane_from_context_json() {
    let adapter = HerdrAdapter::new(
        "herdr",
        Some("rmarganti.herdr-pluck".to_string()),
        Some(r#"{"focused_pane":{"id":"pane-123"}}"#.to_string()),
        None,
    );

    assert_eq!(
        adapter.target_pane_from_context(),
        Some(PaneId::new("pane-123"))
    );
}

#[test]
fn prefers_direct_herdr_pane_id_env_over_context_json() {
    let adapter = HerdrAdapter::new(
        "herdr",
        Some("rmarganti.herdr-pluck".to_string()),
        Some(r#"{"focused_pane":{"id":"pane-from-context"}}"#.to_string()),
        Some("pane-from-env".to_string()),
    );

    assert_eq!(
        adapter.target_pane_from_context(),
        Some(PaneId::new("pane-from-env"))
    );
}

#[test]
fn extracts_flat_pane_id_from_context_json() {
    let adapter = HerdrAdapter::new(
        "herdr",
        Some("rmarganti.herdr-pluck".to_string()),
        Some(r#"{"focused_pane_id":"pane-flat"}"#.to_string()),
        None,
    );

    assert_eq!(
        adapter.target_pane_from_context(),
        Some(PaneId::new("pane-flat"))
    );
}

#[test]
fn context_extracts_focused_pane_from_context_json() {
    let context = HerdrContext {
        herdr_bin: "herdr".to_string(),
        plugin_id: Some("rmarganti.herdr-pluck".to_string()),
        context_json: Some(r#"{"focused_pane":{"id":"pane-123"}}"#.to_string()),
        pane_id: None,
    };

    assert_eq!(context.target_pane(), Some(PaneId::new("pane-123")));
}

#[test]
fn prefers_direct_pane_id_over_context_json() {
    let context = HerdrContext {
        herdr_bin: "herdr".to_string(),
        plugin_id: None,
        context_json: Some(r#"{"focused_pane_id":"from-context"}"#.to_string()),
        pane_id: Some("from-env".to_string()),
    };

    assert_eq!(context.target_pane(), Some(PaneId::new("from-env")));
}

#[test]
fn context_lookup_skips_non_string_and_missing_paths() {
    let context = HerdrContext {
        herdr_bin: "herdr".to_string(),
        plugin_id: None,
        context_json: Some(r#"{"focused_pane":{"id":7},"pane":{"id":"second"}}"#.to_string()),
        pane_id: None,
    };
    assert_eq!(context.target_pane(), Some(PaneId::new("second")));

    let broken = HerdrContext {
        context_json: Some("not json".to_string()),
        ..context.clone()
    };
    assert_eq!(broken.target_pane(), None);

    let empty = HerdrContext {
        context_json: None,
        ..context
    };
    assert_eq!(empty.target_pane(), None);
}

#[test]
fn snapshot_transport_prefers_env_for_small_direct_payloads() {
    let constraints = SnapshotTransportConstraints {
        payload_bytes: 512,
        command_involves_shell: false,
        supports_direct_env: true,
    };

    assert_eq!(constraints.choose_transport(), SnapshotTransport::EnvJson);
}

#[test]
fn snapshot_transport_uses_temp_file_for_shell_or_large_payloads() {
    assert_eq!(
        SnapshotTransportConstraints {
            payload_bytes: 512,
            command_involves_shell: true,
            supports_direct_env: true,
        }
        .choose_transport(),
        SnapshotTransport::TempFile
    );
    assert_eq!(
        SnapshotTransportConstraints {
            payload_bytes: SnapshotTransportConstraints::SAFE_ENV_JSON_BYTES + 1,
            command_involves_shell: false,
            supports_direct_env: true,
        }
        .choose_transport(),
        SnapshotTransport::TempFile
    );
}

#[derive(Debug, Default)]
pub struct FakeRunner {
    pub calls: Vec<Vec<String>>,
    outputs: VecDeque<CommandOutput>,
}

impl FakeRunner {
    pub fn push_stdout(&mut self, stdout: impl Into<Vec<u8>>) {
        self.outputs.push_back(CommandOutput {
            stdout: stdout.into(),
            stderr: Vec::new(),
            success: true,
        });
    }

    pub fn push_failure(&mut self, stderr: impl Into<Vec<u8>>) {
        self.outputs.push_back(CommandOutput {
            stdout: Vec::new(),
            stderr: stderr.into(),
            success: false,
        });
    }
}

impl CommandRunner for FakeRunner {
    fn run(&mut self, _program: &str, args: &[String]) -> Result<CommandOutput> {
        self.calls.push(args.to_vec());
        self.outputs
            .pop_front()
            .ok_or_else(|| anyhow::Error::msg(format!("fake runner had no output for {}", args.join(" "))))
    }
}

#[test]
fn plugin_pane_open_overlay_passes_env_and_focus() {
    let mut runner = FakeRunner::default();
    runner.push_stdout(r#"{"result":{"type":"plugin_pane_opened"}}"#);
    let mut commands = HerdrCommands::new("herdr", &mut runner);

    commands
        .plugin_pane_open_overlay(
            "rmarganti.herdr-pluck",
            "picker",
            &[("HERDR_PLUCK_SNAPSHOT_PATH", "/tmp/s.json".to_string())],
            true,
        )
        .unwrap();

    assert_eq!(
        runner.calls[0],
        vec![
            "plugin",
            "pane",
            "open",
            "--plugin",
            "rmarganti.herdr-pluck",
            "--entrypoint",
            "picker",
            "--placement",
            "overlay",
            "--env",
            "HERDR_PLUCK_SNAPSHOT_PATH=/tmp/s.json",
            "--focus",
        ]
    );
}

#[test]
fn plugin_config_dir_returns_trimmed_path() {
    let mut runner = FakeRunner::default();
    runner.push_stdout("/tmp/plugin-config\n");
    let mut commands = HerdrCommands::new("herdr", &mut runner);

    let path = commands.plugin_config_dir("example.plugin").unwrap();

    assert_eq!(path, PathBuf::from("/tmp/plugin-config"));
    assert_eq!(
        runner.calls[0],
        vec!["plugin", "config-dir", "example.plugin"]
    );
}

#[test]
fn pane_read_passes_source_and_decimal_line_count() {
    let mut runner = FakeRunner::default();
    runner.push_stdout("one\ntwo\n");
    runner.push_stdout("row\n");
    let mut commands = HerdrCommands::new("herdr", &mut runner);

    let text = commands
        .pane_read_recent_unwrapped(&PaneId::new("p7"), 120)
        .unwrap();
    assert_eq!(text, "one\ntwo\n");
    let visible = commands.pane_read_visible(&PaneId::new("p7"), 0).unwrap();
    assert_eq!(visible, "row\n");

    assert_eq!(
        runner.calls[0],
        vec!["pane", "read", "p7", "--source", "recent-unwrapped", "--lines", "120"]
    );
    assert_eq!(
        runner.calls[1],
        vec!["pane", "read", "p7", "--source", "visible", "--lines", "0"]
    );
}

#[test]
fn failed_command_reports_arguments_and_stderr() {
    let mut runner = FakeRunner::default();
    runner.push_failure("no such pane");
    let mut commands = HerdrCommands::new("herdr", &mut runner);

    let error = commands.pane_layout(&PaneId::new("p9")).unwrap_err();

    assert_eq!(
        error.message(),
        "Herdr command `pane layout --pane p9` failed: no such pane"
    );
}

#[test]
fn config_dir_rejects_non_utf8_output() {
    let mut runner = FakeRunner::default();
    runner.push_stdout(vec![0xff, 0xfe]);
    let mut commands = HerdrCommands::new("herdr", &mut runner);

    let error = commands.plugin_config_dir("example.plugin").unwrap_err();
    assert!(error.message().contains("not UTF-8"));
}

#[test]
fn config_dir_output_is_trimmed_of_unicode_white_space() {
    let dir = herdr_pluck::herdr::commands::config_dir_from_stdout(
        " \t/tmp/plugin config\u{3000}\r\n".as_bytes().to_vec(),
    )
    .unwrap();
    assert_eq!(dir, PathBuf::from("/tmp/plugin config"));
}

#[test]
fn read_commands_decode_the_runners_stdout_and_pass_on_its_failure() {
    let mut runner = QueueRunner::default();
    runner.replies.push_back(Ok(CommandOutput {
        stdout: b"line one\n\xffline two".to_vec(),
        stderr: b"ignored".to_vec(),
        success: true,
    }));
    runner.replies.push_back(Ok(CommandOutput {
        stdout: b"partial".to_vec(),
        stderr: b"no such pane".to_vec(),
        success: false,
    }));
    runner.replies.push_back(Err(anyhow::Error::msg("spawn failed")));
    let mut commands = HerdrCommands::new("herdr", &mut runner);
    assert_eq!(
        commands.pane_read_visible(&PaneId::new("p1"), 2).unwrap(),
        "line one\n\u{fffd}line two"
    );
    let error = commands
        .pane_read_visible(&PaneId::new("p1"), 2)
        .unwrap_err()
        .message();
    assert!(error.contains("pane read p1 --source visible --lines 2"));
    assert!(error.contains("no such pane"));
    let error = commands.pane_layout(&PaneId::new("p1")).unwrap_err().message();
    assert_eq!(error, "spawn failed");
}

#[derive(Default)]
struct QueueRunner {
    replies: VecDeque<Result<CommandOutput>>,
}

impl CommandRunner for QueueRunner {
    fn run(&mut self, _program: &str, _args: &[String]) -> Result<CommandOutput> {
        self.replies.pop_front().unwrap()
    }
}

fn return_context(zoom_picker: bool) -> PickerReturnContext {
    PickerReturnContext {
        return_tab_id: "tab-source".to_string(),
        return_pane_id: "pane-source".to_string(),
        zoom_picker,
    }
}

#[test]
fn cleanup_focuses_the_source_tab_then_closes_the_temporary_one() {
    let mut runner = FakeRunner::default();
    runner.push_stdout("");
    runner.push_stdout("");
    cleanup_session("herdr", &mut runner, &return_context(false), "tab-temp").unwrap();
    assert_eq!(
        runner.calls,
        vec![
            vec!["tab".to_string(), "focus".to_string(), "tab-source".to_string()],
            vec!["tab".to_string(), "close".to_string(), "tab-temp".to_string()],
        ]
    );
}

#[test]
fn cleanup_still_closes_after_a_failed_focus_and_reports_the_focus_failure() {
    let mut runner = FakeRunner::default();
    runner.push_failure("no such tab");
    runner.push_failure("close refused");
    let error = cleanup_session("herdr", &mut runner, &return_context(false), "tab-temp").unwrap_err();
    assert_eq!(runner.calls.len(), 2);
    match error {
        SessionError::Command(e) => {
            assert_eq!(e.message(), "Herdr command `tab focus tab-source` failed: no such tab")
        }
        other => panic!("unexpected error {other:?}"),
    }
}

#[test]
fn cleanup_refuses_to_close_the_source_tab_or_a_missing_tab() {
    let mut runner = FakeRunner::default();
    let error = cleanup_session("herdr", &mut runner, &return_context(false), "tab-source").unwrap_err();
    match error {
        SessionError::Refused(refused) => assert_eq!(
            refused.message(),
            "refusing to close source tab tab-source as temporary picker tab"
        ),
        other => panic!("unexpected error {other:?}"),
    }
    let error = cleanup_session("herdr", &mut runner, &return_context(false), "").unwrap_err();
    assert!(matches!(error, SessionError::Refused(CleanupError::MissingTemporaryTab)));
    assert!(runner.calls.is_empty());
}

#[test]
fn zoom_runs_only_when_the_session_asks_for_it() {
    let mut runner = FakeRunner::default();
    zoom_picker("herdr", &mut runner, &return_context(false), &PaneId::new("p3")).unwrap();
    assert!(runner.calls.is_empty());
    runner.push_stdout("");
    zoom_picker("herdr", &mut runner, &return_context(true), &PaneId::new("p3")).unwrap();
    assert_eq!(runner.calls, vec![vec!["pane", "zoom", "--pane", "p3", "on"]]);
}

#[test]
fn non_utf8_config_dir_error_keeps_the_undecoded_bytes() {
    let error = herdr_pluck::herdr::commands::config_dir_from_stdout(vec![b'/', 0xff]).unwrap_err();
    match error {
        CommandError::NotUtf8 { source } => assert_eq!(source.into_bytes(), vec![b'/', 0xff]),
        other => panic!("unexpected error {other:?}"),
    }
}
