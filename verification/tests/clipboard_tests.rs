//! Running the tools is not this library's business, so these drive the decisions
//! with made-up machines: some with a clipboard tool, some without.

use ee2e_chat::clipboard::{self, CopyError, Platform, Progress, ToolReport};

const UNIX_TOOLS: &[&str] = &["wl-copy", "xclip", "xsel", "pbcopy"];

/// Windows ships `clip`, so there is only one and it is always installed.
const WINDOWS_TOOLS: &[&str] = &["clip"];

fn names(platform: Platform) -> Vec<&'static str> {
    clipboard::tools(platform).iter().map(|tool| tool.name).collect()
}

/// Copy on a machine where each tool reports what `machine` says.
fn copy_on(
    platform: Platform,
    machine: impl Fn(&str, &[&'static str]) -> ToolReport,
) -> Result<&'static str, CopyError> {
    let mut outcomes = Vec::new();
    loop {
        match clipboard::copy(platform, &outcomes) {
            Progress::Try(tool) => {
                let report = machine(tool.name, &tool.args);
                outcomes.push(clipboard::try_tool(tool.name, report));
            }
            Progress::Copied(name) => return Ok(name),
            Progress::GaveUp(e) => return Err(e),
        }
    }
}

fn exited(success: bool) -> ToolReport {
    ToolReport::Exited {
        success,
        status: "exit status: 1".to_string(),
    }
}

#[test]
fn test_copying_either_works_or_explains_itself() {
    for platform in [Platform::Unix, Platform::Windows] {
        for installed in names(platform) {
            let result = copy_on(platform, |name, _| {
                if name == installed {
                    exited(true)
                } else {
                    ToolReport::NotFound
                }
            });
            assert_eq!(result, Ok(installed));
        }
        assert_eq!(
            copy_on(platform, |_, _| ToolReport::NotFound),
            Err(CopyError::NoTool)
        );
    }
}

/// The message has to name something installable. Told only that it failed, a
/// user has nothing to act on.
#[test]
fn test_the_missing_tool_message_says_what_to_install() {
    let message = CopyError::NoTool.message(Platform::Unix);

    assert!(message.contains("wl-clipboard"), "got: {message}");
    assert!(message.contains("xclip"), "got: {message}");
    assert!(message.contains("Wayland"), "got: {message}");
}

/// Nothing is installable on Windows -- `clip` is part of the system -- so the
/// message has to point at the only thing that could actually be wrong.
#[test]
fn test_the_missing_tool_message_points_at_path() {
    let message = CopyError::NoTool.message(Platform::Windows);

    assert!(message.contains("clip"), "got: {message}");
    assert!(message.contains("PATH"), "got: {message}");
}

/// Copying is a convenience. Failing it must never be able to stop the program,
/// which is why it returns an error rather than panicking.
#[test]
fn test_copying_never_panics() {
    for report in 0..6 {
        let _ = copy_on(Platform::Unix, |_, _| match report {
            0 => ToolReport::NotFound,
            1 => ToolReport::NotStarted(String::new()),
            2 => ToolReport::NoInput,
            3 => ToolReport::NotWritten("x".repeat(100_000)),
            4 => exited(false),
            _ => ToolReport::NotAwaited("a line\nand another".to_string()),
        });
    }
}

/// macOS ships pbcopy, so a build that does not know about it would report "no
/// clipboard tool" on a machine that plainly has one.
#[test]
fn test_pbcopy_is_among_the_tools_tried() {
    assert!(UNIX_TOOLS.contains(&"pbcopy"), "macOS would have no clipboard");
    assert_eq!(names(Platform::Unix), UNIX_TOOLS.to_vec());
}

/// The same trap on Windows: `clip` is always there, so failing to try it would
/// report no clipboard on a machine that certainly has one.
#[test]
fn test_clip_is_among_the_tools_tried() {
    assert!(WINDOWS_TOOLS.contains(&"clip"), "Windows would have no clipboard");
    assert_eq!(names(Platform::Windows), WINDOWS_TOOLS.to_vec());
}

#[test]
fn the_first_tool_that_works_takes_the_text() {
    let result = copy_on(Platform::Unix, |name, _| match name {
        "wl-copy" => ToolReport::NotStarted("denied".to_string()),
        "xclip" => ToolReport::NotFound,
        _ => exited(true),
    });
    assert_eq!(result, Ok("xsel"));
}

#[test]
fn the_last_failure_is_the_one_reported() {
    let result = copy_on(Platform::Unix, |name, _| match name {
        "wl-copy" => ToolReport::NotWritten("broken pipe".to_string()),
        "xclip" => exited(false),
        _ => ToolReport::NotFound,
    });
    let e = result.unwrap_err();
    assert_eq!(e, CopyError::Failed("xclip exited with exit status: 1".to_string()));
    assert_eq!(
        e.message(Platform::Unix),
        "could not copy: xclip exited with exit status: 1"
    );
}

#[test]
fn each_report_has_its_meaning() {
    assert_eq!(clipboard::try_tool("t", ToolReport::NotFound), Err(CopyError::NoTool));
    assert_eq!(
        clipboard::try_tool("t", ToolReport::NoInput),
        Err(CopyError::Failed("could not write to it".to_string()))
    );
    assert_eq!(
        clipboard::try_tool("t", ToolReport::NotStarted("a".to_string())),
        Err(CopyError::Failed("a".to_string()))
    );
    assert_eq!(
        clipboard::try_tool("t", ToolReport::NotAwaited("b".to_string())),
        Err(CopyError::Failed("b".to_string()))
    );
    assert_eq!(clipboard::try_tool("t", exited(true)), Ok(()));
}

#[test]
fn tools_get_their_arguments() {
    let table = clipboard::tools(Platform::Unix);
    assert!(table[0].args.is_empty());
    assert_eq!(table[1].args, vec!["-selection", "clipboard"]);
    assert_eq!(table[2].args, vec!["--clipboard", "--input"]);
}
