//! Clipboard tool selection: a fixed fallback chain of system clipboard
//! commands, the first one present on the system being used.

use crate::text::concat_str;
use vstd::prelude::*;

verus! {

/// A system command that copies its standard input to the clipboard.
#[derive(Debug, Clone, Copy, PartialEq, Eq)]
pub struct ClipboardTool {
    pub name: &'static str,
    pub args: &'static [&'static str],
}

/// Mathematical value of a [`ClipboardTool`]: its name and arguments.
pub open spec fn tool_model(t: ClipboardTool) -> (Seq<char>, Seq<Seq<char>>) {
    (t.name@, t.args@.map_values(|a: &str| a@))
}

/// The fallback chain: macOS, then Wayland, then the two X11 tools.
pub open spec fn fallback_tool_models() -> Seq<(Seq<char>, Seq<Seq<char>>)> {
    seq![
        ("pbcopy"@, Seq::empty()),
        ("wl-copy"@, Seq::empty()),
        ("xclip"@, seq!["-selection"@, "clipboard"@]),
        ("xsel"@, seq!["--clipboard"@, "--input"@]),
    ]
}

/// The clipboard tools to try, in order of preference.
pub fn fallback_tools() -> (tools: Vec<ClipboardTool>)
    ensures
        tools@.map_values(|t: ClipboardTool| tool_model(t)) == fallback_tool_models(),
{
    let none: &'static [&'static str] = &[];
    let xclip_args: &'static [&'static str] = &["-selection", "clipboard"];
    let xsel_args: &'static [&'static str] = &["--clipboard", "--input"];
    let mut tools: Vec<ClipboardTool> = Vec::new();
    tools.push(ClipboardTool { name: "pbcopy", args: none });
    tools.push(ClipboardTool { name: "wl-copy", args: none });
    tools.push(ClipboardTool { name: "xclip", args: xclip_args });
    tools.push(ClipboardTool { name: "xsel", args: xsel_args });
    assert(none@.map_values(|a: &str| a@) =~= Seq::<Seq<char>>::empty());
    assert(xclip_args@.map_values(|a: &str| a@) =~= seq!["-selection"@, "clipboard"@]);
    assert(xsel_args@.map_values(|a: &str| a@) =~= seq!["--clipboard"@, "--input"@]);
    assert(tools@.map_values(|t: ClipboardTool| tool_model(t)) =~= fallback_tool_models());
    tools
}

/// Runs `which::which(command)` and reports whether it found an executable.
/// The answer depends on `PATH` and on the file system, so nothing is
/// claimed of it.
#[verifier::external_body]
fn command_exists(command: &str) -> bool {
    which::which(command).is_ok()
}

/// The first of `tools` whose entry in `available` is true, if any.
pub fn first_available(tools: &[ClipboardTool], available: &[bool]) -> (tool: Option<ClipboardTool>)
    requires
        tools@.len() == available@.len(),
    ensures
        match tool {
            Some(t) => exists|i: int|
                0 <= i < tools@.len() && available@[i] && tools@[i] == t && forall|j: int|
                    0 <= j < i ==> !#[trigger] available@[j],
            None => forall|j: int| 0 <= j < available@.len() ==> !#[trigger] available@[j],
        },
{
    let mut i: usize = 0;
    while i < tools.len()
        invariant
            tools@.len() == available@.len(),
            i <= tools@.len(),
            forall|j: int| 0 <= j < i ==> !#[trigger] available@[j],
        decreases tools@.len() - i,
    {
        if available[i] {
            return Some(tools[i]);
        }
        i = i + 1;
    }
    None
}

/// Whether `tool` is the first of the fallback tools that `available`
/// marks, one mark per tool in order; none when no tool is marked.
pub open spec fn first_marked_fallback(available: Seq<bool>, tool: Option<ClipboardTool>) -> bool {
    let models = fallback_tool_models();
    &&& available.len() == models.len()
    &&& match tool {
        Some(t) => exists|i: int|
            0 <= i < models.len() && available[i] && models[i] == tool_model(t) && forall|j: int|
                0 <= j < i ==> !#[trigger] available[j],
        None => forall|j: int| 0 <= j < available.len() ==> !#[trigger] available[j],
    }
}

/// The first fallback tool installed on this system, if any: the tools are
/// looked up in order, and which are found depends on `PATH`.
pub fn first_available_tool() -> (tool: Option<ClipboardTool>)
    ensures
        exists|available: Seq<bool>| first_marked_fallback(available, tool),
{
    let tools = fallback_tools();
    let mut available: Vec<bool> = Vec::new();
    let mut i: usize = 0;
    while i < tools.len()
        invariant
            i <= tools@.len(),
            available@.len() == i,
        decreases tools@.len() - i,
    {
        available.push(command_exists(tools[i].name));
        i = i + 1;
    }
    let tool = first_available(tools.as_slice(), available.as_slice());
    proof {
        let models = tools@.map_values(|t: ClipboardTool| tool_model(t));
        if let Some(t) = tool {
            let k = choose|k: int| 0 <= k < tools@.len() && available@[k] && tools@[k] == t && forall|j: int|
                0 <= j < k ==> !#[trigger] available@[j];
            assert(models[k] == tool_model(t));
        }
        assert(first_marked_fallback(available@, tool));
    }
    tool
}

/// The command line that runs a clipboard tool in a session of its own, so
/// that it outlives the picker: `setsid`, then the tool and its arguments.
pub fn clipboard_command_line(tool: &ClipboardTool) -> (line: (String, Vec<String>))
    ensures
        line.0@ == "setsid"@,
        line.1@.map_values(|a: String| a@) == seq![tool_model(*tool).0] + tool_model(*tool).1,
{
    let mut args: Vec<String> = Vec::new();
    args.push(tool.name.to_string());
    let mut i: usize = 0;
    while i < tool.args.len()
        invariant
            i <= tool.args@.len(),
            args@.map_values(|a: String| a@) == seq![tool.name@] + tool.args@.take(i as int).map_values(
                |a: &str| a@,
            ),
        decreases tool.args@.len() - i,
    {
        let arg: &str = tool.args[i];
        let owned = arg.to_owned();
        assert(owned@ == tool.args@[i as int]@);
        let ghost before = args@;
        args.push(owned);
        assert(args@.map_values(|a: String| a@) =~= before.map_values(|a: String| a@).push(
            tool.args@[i as int]@,
        ));
        assert(tool.args@.take(i + 1) =~= tool.args@.take(i as int).push(tool.args@[i as int]));
        assert(args@.map_values(|a: String| a@) =~= seq![tool.name@] + tool.args@.take(i + 1).map_values(
            |a: &str| a@,
        ));
        i = i + 1;
    }
    assert(tool.args@.take(tool.args@.len() as int) =~= tool.args@);
    ("setsid".to_string(), args)
}

/// The names of the fallback tools joined by `, `.
pub open spec fn fallback_names_text() -> Seq<char> {
    "pbcopy, wl-copy, xclip, xsel"@
}

/// The message reported when no clipboard tool is installed.
pub fn no_tool_message() -> (m: String)
    ensures
        m@ == "no supported clipboard tool found: tried "@ + fallback_names_text(),
{
    let tools = fallback_tools();
    let mut names = String::new();
    let mut i: usize = 0;
    proof {
        reveal_strlit("pbcopy, wl-copy, xclip, xsel");
        reveal_strlit("pbcopy");
        reveal_strlit("wl-copy");
        reveal_strlit("xclip");
        reveal_strlit("xsel");
        reveal_strlit(", ");
    }
    let ghost names_of = tools@.map_values(|t: ClipboardTool| t.name@);
    let ghost models = tools@.map_values(|t: ClipboardTool| tool_model(t));
    assert(models.len() == tools@.len());
    assert(tools@.len() == 4);
    assert(names_of =~= seq!["pbcopy"@, "wl-copy"@, "xclip"@, "xsel"@]) by {
        assert forall|k: int| 0 <= k < 4 implies names_of[k] == fallback_tool_models()[k].0 by {
            assert(models[k] == tool_model(tools@[k]));
        }
    }
    while i < tools.len()
        invariant
            names_of == tools@.map_values(|t: ClipboardTool| t.name@),
            names_of == seq!["pbcopy"@, "wl-copy"@, "xclip"@, "xsel"@],
            i <= tools@.len(),
            tools@.len() == 4,
            names@ == joined_names(names_of.take(i as int)),
        decreases tools@.len() - i,
    {
        let ghost before = names@;
        if i > 0 {
            names = concat_str(names.as_str(), ", ");
        }
        names = concat_str(names.as_str(), tools[i].name);
        assert(names_of.take(i + 1).drop_last() =~= names_of.take(i as int));
        i = i + 1;
    }
    assert(names_of.take(4) =~= names_of);
    assert(joined_names(names_of) =~= fallback_names_text()) by {
        reveal_with_fuel(joined_names, 5);
        assert(names_of.drop_last().drop_last().drop_last() =~= seq!["pbcopy"@]);
        assert(names_of.drop_last().drop_last() =~= seq!["pbcopy"@, "wl-copy"@]);
        assert(names_of.drop_last() =~= seq!["pbcopy"@, "wl-copy"@, "xclip"@]);
        assert(joined_names(names_of) =~= "pbcopy"@ + ", "@ + "wl-copy"@ + ", "@ + "xclip"@ + ", "@
            + "xsel"@);
    }
    concat_str("no supported clipboard tool found: tried ", names.as_str())
}

/// Names joined by `, `.
pub open spec fn joined_names(names: Seq<Seq<char>>) -> Seq<char>
    decreases names.len(),
{
    if names.len() == 0 {
        Seq::empty()
    } else if names.len() == 1 {
        names[0]
    } else {
        joined_names(names.drop_last()) + ", "@ + names.last()
    }
}

} // verus!
