use herdr_pluck::clipboard::{
    clipboard_command_line, fallback_tools, first_available, first_available_tool, no_tool_message,
    ClipboardTool,
};

#[test]
fn fallback_order_prefers_platform_specific_tools() {
    let names: Vec<_> = fallback_tools().into_iter().map(|tool| tool.name).collect();
    assert_eq!(names, vec!["pbcopy", "wl-copy", "xclip", "xsel"]);
}

#[test]
fn fallback_tools_carry_clipboard_arguments() {
    let tools = fallback_tools();
    assert!(tools[0].args.is_empty());
    assert!(tools[1].args.is_empty());
    assert_eq!(tools[2].args, &["-selection", "clipboard"]);
    assert_eq!(tools[3].args, &["--clipboard", "--input"]);
}

#[test]
fn first_available_picks_the_earliest_present_tool() {
    let tools = fallback_tools();
    assert_eq!(
        first_available(&tools, &[false, false, true, true]),
        Some(tools[2])
    );
    assert_eq!(first_available(&tools, &[false, false, false, false]), None);
}

#[test]
fn first_available_tool_is_a_fallback_tool() {
    let tools: Vec<ClipboardTool> = fallback_tools();
    if let Some(tool) = first_available_tool() {
        assert!(tools.contains(&tool));
    }
}

#[test]
fn clipboard_command_is_wrapped_with_setsid_on_unix() {
    let (program, args) = clipboard_command_line(&ClipboardTool {
        name: "wl-copy",
        args: &["--trim-newline"],
    });

    assert_eq!(program, "setsid");
    assert_eq!(args, vec!["wl-copy", "--trim-newline"]);
}

#[test]
fn missing_clipboard_tools_are_listed_in_fallback_order() {
    assert_eq!(
        no_tool_message(),
        "no supported clipboard tool found: tried pbcopy, wl-copy, xclip, xsel"
    );
}
