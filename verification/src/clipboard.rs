//! Putting text on the system clipboard.
//!
//! Done by handing it to whichever clipboard tool is installed. On Wayland the
//! clipboard is owned by a live process, and a tool that stays behind to serve
//! it outlives this program, which is when someone wants to paste.
//!
//! Which tool to run next, what a tool's report means, and what to say when none
//! works is decided here; running the tools is not.

use vstd::prelude::*;
use vstd::string::*;

verus! {

/// The kind of system that the program runs on.
#[derive(Debug, Clone, Copy, PartialEq, Eq, Structural)]
pub enum Platform {
    Unix,
    Windows,
}

/// A program that reads text and puts it on the clipboard.
#[derive(Debug, PartialEq, Eq)]
pub struct Tool {
    pub name: &'static str,
    pub args: Vec<&'static str>,
}

/// What a `Tool` is.
#[verifier::ext_equal]
pub struct ToolView {
    pub name: Seq<char>,
    pub args: Seq<Seq<char>>,
}

impl View for Tool {
    type V = ToolView;

    open spec fn view(&self) -> ToolView {
        ToolView { name: self.name@, args: self.args@.map_values(|arg: &'static str| arg@) }
    }
}

/// Why the text could not be copied.
#[derive(Debug, PartialEq, Eq)]
pub enum CopyError {
    /// None of the known tools is installed.
    NoTool,
    Failed(String),
}

/// What a `CopyError` says.
pub enum CopyErrorView {
    NoTool,
    Failed(Seq<char>),
}

impl View for CopyError {
    type V = CopyErrorView;

    open spec fn view(&self) -> CopyErrorView {
        match self {
            CopyError::NoTool => CopyErrorView::NoTool,
            CopyError::Failed(why) => CopyErrorView::Failed(why@),
        }
    }
}

/// How running a tool went.
#[derive(Debug, PartialEq, Eq)]
pub enum ToolReport {
    /// There is no such program.
    NotFound,
    /// It could not be started.
    NotStarted(String),
    /// It took no input.
    NoInput,
    /// Handing it the text failed.
    NotWritten(String),
    /// It ended, well or with the status given.
    Exited { success: bool, status: String },
    /// There was no waiting for it.
    NotAwaited(String),
}

/// What to do next.
#[derive(Debug, PartialEq, Eq)]
pub enum Progress {
    /// Run this tool.
    Try(Tool),
    /// The tool of this name has taken the text.
    Copied(&'static str),
    /// Nothing has.
    GaveUp(CopyError),
}

/// What a `Progress` says.
pub enum ProgressView {
    Try(ToolView),
    Copied(Seq<char>),
    GaveUp(CopyErrorView),
}

impl View for Progress {
    type V = ProgressView;

    open spec fn view(&self) -> ProgressView {
        match self {
            Progress::Try(tool) => ProgressView::Try(tool@),
            Progress::Copied(name) => ProgressView::Copied(name@),
            Progress::GaveUp(e) => ProgressView::GaveUp(e@),
        }
    }
}

/// The tools to try, in order. Wayland's comes first, since a Wayland session
/// may have the X11 tools too, and they would write to the wrong clipboard.
/// macOS ships `pbcopy`, and Windows ships `clip`.
pub open spec fn tool_table(platform: Platform) -> Seq<ToolView> {
    match platform {
        Platform::Unix => seq![
            ToolView { name: "wl-copy"@, args: Seq::empty() },
            ToolView { name: "xclip"@, args: seq!["-selection"@, "clipboard"@] },
            ToolView { name: "xsel"@, args: seq!["--clipboard"@, "--input"@] },
            ToolView { name: "pbcopy"@, args: Seq::empty() },
        ],
        Platform::Windows => seq![ToolView { name: "clip"@, args: Seq::empty() }],
    }
}

/// What several tools are.
pub open spec fn tool_views(tools: Seq<Tool>) -> Seq<ToolView> {
    tools.map_values(|tool: Tool| tool@)
}

/// The tools to try, in order.
pub fn tools(platform: Platform) -> (table: Vec<Tool>)
    ensures
        tool_views(table@) == tool_table(platform),
{
    let mut table: Vec<Tool> = Vec::new();
    match platform {
        Platform::Unix => {
            table.push(Tool { name: "wl-copy", args: Vec::new() });
            let mut args: Vec<&'static str> = Vec::new();
            args.push("-selection");
            args.push("clipboard");
            table.push(Tool { name: "xclip", args });
            let mut args: Vec<&'static str> = Vec::new();
            args.push("--clipboard");
            args.push("--input");
            table.push(Tool { name: "xsel", args });
            table.push(Tool { name: "pbcopy", args: Vec::new() });
        },
        Platform::Windows => {
            table.push(Tool { name: "clip", args: Vec::new() });
        },
    }
    assert(tool_views(table@) =~~= tool_table(platform));
    table
}

/// How trying a tool went: whether it took the text.
pub open spec fn outcome_of(tool: Seq<char>, report: ToolReport) -> Result<(), CopyErrorView> {
    match report {
        ToolReport::NotFound => Err(CopyErrorView::NoTool),
        ToolReport::NotStarted(why) => Err(CopyErrorView::Failed(why@)),
        ToolReport::NoInput => Err(CopyErrorView::Failed("could not write to it"@)),
        ToolReport::NotWritten(why) => Err(CopyErrorView::Failed(why@)),
        ToolReport::Exited { success, status } => if success {
            Ok(())
        } else {
            Err(CopyErrorView::Failed(tool + " exited with "@ + status@))
        },
        ToolReport::NotAwaited(why) => Err(CopyErrorView::Failed(why@)),
    }
}

/// What an outcome says.
pub open spec fn outcome_view(outcome: Result<(), CopyError>) -> Result<(), CopyErrorView> {
    match outcome {
        Ok(()) => Ok(()),
        Err(e) => Err(e@),
    }
}

/// What several outcomes say.
pub open spec fn outcome_views(outcomes: Seq<Result<(), CopyError>>) -> Seq<
    Result<(), CopyErrorView>,
> {
    outcomes.map_values(|o: Result<(), CopyError>| outcome_view(o))
}

/// Judge how trying a tool went.
pub fn try_tool(tool: &str, report: ToolReport) -> (outcome: Result<(), CopyError>)
    ensures
        outcome_view(outcome) == outcome_of(tool@, report),
{
    match report {
        ToolReport::NotFound => Err(CopyError::NoTool),
        ToolReport::NotStarted(why) => Err(CopyError::Failed(why)),
        ToolReport::NoInput => Err(CopyError::Failed("could not write to it".to_owned())),
        ToolReport::NotWritten(why) => Err(CopyError::Failed(why)),
        ToolReport::Exited { success, status } => {
            if success {
                Ok(())
            } else {
                let mut why = tool.to_owned();
                why.append(" exited with ");
                why.append(status.as_str());
                Err(CopyError::Failed(why))
            }
        },
        ToolReport::NotAwaited(why) => Err(CopyError::Failed(why)),
    }
}

/// The error of the last tool that failed, tools that are not installed aside.
pub open spec fn last_failure(outcomes: Seq<Result<(), CopyErrorView>>) -> CopyErrorView
    decreases outcomes.len(),
{
    if outcomes.len() == 0 {
        CopyErrorView::NoTool
    } else {
        match outcomes.last() {
            Err(CopyErrorView::Failed(why)) => CopyErrorView::Failed(why),
            _ => last_failure(outcomes.drop_last()),
        }
    }
}

/// What to do after so many tools, each with its outcome: stop at the first one
/// that took the text, go on to the next one while there is one, and else report
/// the last failure.
pub open spec fn progress(
    table: Seq<ToolView>,
    outcomes: Seq<Result<(), CopyErrorView>>,
) -> ProgressView
    decreases outcomes.len(),
{
    if outcomes.len() > 0 && progress(table, outcomes.drop_last()) is Copied {
        progress(table, outcomes.drop_last())
    } else if 0 < outcomes.len() <= table.len() && outcomes.last() is Ok {
        ProgressView::Copied(table[outcomes.len() - 1].name)
    } else if outcomes.len() < table.len() {
        ProgressView::Try(table[outcomes.len() as int])
    } else {
        ProgressView::GaveUp(last_failure(outcomes.take(table.len() as int)))
    }
}

/// Decide what to do, given the outcomes of the tools that were tried so far.
///
/// Start with none, run what it says to try, add the outcome, and ask again.
pub fn copy(platform: Platform, outcomes: &[Result<(), CopyError>]) -> (next: Progress)
    ensures
        next@ == progress(tool_table(platform), outcome_views(outcomes@)),
{
    let ghost said = outcome_views(outcomes@);
    let ghost all = tool_table(platform);
    let mut table = tools(platform);
    let mut last_error: CopyError = CopyError::NoTool;
    let mut i: usize = 0;
    proof {
        assert(said.take(0) =~= Seq::<Result<(), CopyErrorView>>::empty());
    }
    while i < table.len() && i < outcomes.len()
        invariant
            said == outcome_views(outcomes@),
            all == tool_table(platform),
            all == tool_views(table@),
            i <= table@.len(),
            i <= outcomes@.len(),
            last_error@ == last_failure(said.take(i as int)),
            !(progress(all, said.take(i as int)) is Copied),
        decreases table@.len() - i,
    {
        assert(said.take(i + 1).drop_last() =~= said.take(i as int));
        assert(said[i as int] == outcome_view(outcomes@[i as int]));
        assert(all[i as int] == table@[i as int]@);
        match &outcomes[i] {
            Ok(()) => {
                proof {
                    lemma_copied_stays(all, said, i + 1);
                }
                return Progress::Copied(table[i].name);
            },
            Err(CopyError::NoTool) => {},
            Err(CopyError::Failed(why)) => {
                last_error = CopyError::Failed(why.clone());
            },
        }
        i = i + 1;
    }
    if i < table.len() {
        assert(said.take(i as int) =~= said);
        let ghost chosen = all[i as int];
        let tool = table.remove(i);
        assert(tool@ == chosen);
        Progress::Try(tool)
    } else {
        proof {
            lemma_beyond_the_table(all, said);
        }
        Progress::GaveUp(last_error)
    }
}

proof fn lemma_copied_stays(
    table: Seq<ToolView>,
    outcomes: Seq<Result<(), CopyErrorView>>,
    i: int,
)
    requires
        0 <= i <= outcomes.len(),
        progress(table, outcomes.take(i)) is Copied,
    ensures
        progress(table, outcomes) == progress(table, outcomes.take(i)),
    decreases outcomes.len(),
{
    if i == outcomes.len() {
        assert(outcomes.take(i) =~= outcomes);
    } else {
        let front = outcomes.drop_last();
        assert(front.take(i) =~= outcomes.take(i));
        lemma_copied_stays(table, front, i);
    }
}

proof fn lemma_beyond_the_table(table: Seq<ToolView>, outcomes: Seq<Result<(), CopyErrorView>>)
    requires
        table.len() <= outcomes.len(),
        !(progress(table, outcomes.take(table.len() as int)) is Copied),
    ensures
        progress(table, outcomes) == ProgressView::GaveUp(
            last_failure(outcomes.take(table.len() as int)),
        ),
    decreases outcomes.len(),
{
    let n = table.len() as int;
    if outcomes.len() == n {
        assert(outcomes.take(n) =~= outcomes);
        if n > 0 {
            assert(!(progress(table, outcomes.drop_last()) is Copied));
        }
    } else {
        let front = outcomes.drop_last();
        assert(front.take(n) =~= outcomes.take(n));
        lemma_beyond_the_table(table, front);
    }
}

/// The text is reported as copied exactly when some tool took it, and the tool
/// named is the first that did.
pub proof fn law_the_first_tool_that_works_wins(
    table: Seq<ToolView>,
    outcomes: Seq<Result<(), CopyErrorView>>,
    i: int,
)
    requires
        0 <= i < outcomes.len(),
        i < table.len(),
        outcomes[i] is Ok,
        forall|j: int| 0 <= j < i ==> (#[trigger] outcomes[j]) is Err,
    ensures
        progress(table, outcomes) == ProgressView::Copied(table[i].name),
{
    lemma_nothing_copied_yet(table, outcomes.take(i));
    assert(outcomes.take(i + 1).drop_last() =~= outcomes.take(i));
    lemma_copied_stays(table, outcomes, i + 1);
}

proof fn lemma_nothing_copied_yet(table: Seq<ToolView>, outcomes: Seq<Result<(), CopyErrorView>>)
    requires
        forall|j: int| 0 <= j < outcomes.len() ==> (#[trigger] outcomes[j]) is Err,
    ensures
        !(progress(table, outcomes) is Copied),
    decreases outcomes.len(),
{
    if outcomes.len() > 0 {
        let front = outcomes.drop_last();
        assert forall|j: int| 0 <= j < front.len() implies (#[trigger] front[j]) is Err by {
            assert(front[j] == outcomes[j]);
        }
        lemma_nothing_copied_yet(table, front);
        assert(outcomes[outcomes.len() - 1] is Err);
    }
}

/// Once every tool has been tried and none took the text, "no tool" is the
/// verdict exactly when none of them is installed.
pub proof fn law_no_tool_means_none_installed(
    table: Seq<ToolView>,
    outcomes: Seq<Result<(), CopyErrorView>>,
)
    requires
        outcomes.len() == table.len(),
        forall|j: int| 0 <= j < outcomes.len() ==> (#[trigger] outcomes[j]) is Err,
    ensures
        progress(table, outcomes) == ProgressView::GaveUp(CopyErrorView::NoTool) <==> forall|
            j: int,
        |
            0 <= j < outcomes.len() ==> (#[trigger] outcomes[j]) == Err::<(), CopyErrorView>(
                CopyErrorView::NoTool,
            ),
{
    lemma_nothing_copied_yet(table, outcomes);
    assert(outcomes.take(table.len() as int) =~= outcomes);
    lemma_beyond_the_table(table, outcomes);
    lemma_last_failure(outcomes);
}

proof fn lemma_last_failure(outcomes: Seq<Result<(), CopyErrorView>>)
    requires
        forall|j: int| 0 <= j < outcomes.len() ==> (#[trigger] outcomes[j]) is Err,
    ensures
        last_failure(outcomes) is NoTool <==> forall|j: int|
            0 <= j < outcomes.len() ==> (#[trigger] outcomes[j]) == Err::<(), CopyErrorView>(
                CopyErrorView::NoTool,
            ),
    decreases outcomes.len(),
{
    if outcomes.len() > 0 {
        let front = outcomes.drop_last();
        assert forall|j: int| 0 <= j < front.len() implies (#[trigger] front[j]) is Err by {
            assert(front[j] == outcomes[j]);
        }
        lemma_last_failure(front);
        assert(outcomes[outcomes.len() - 1] is Err);
        if last_failure(outcomes) is NoTool {
            assert forall|j: int| 0 <= j < outcomes.len() implies (#[trigger] outcomes[j]) == Err::<
                (),
                CopyErrorView,
            >(CopyErrorView::NoTool) by {
                if j < front.len() {
                    assert(front[j] == outcomes[j]);
                }
            }
        } else if forall|j: int|
            0 <= j < outcomes.len() ==> (#[trigger] outcomes[j]) == Err::<(), CopyErrorView>(
                CopyErrorView::NoTool,
            ) {
            assert forall|j: int| 0 <= j < front.len() implies (#[trigger] front[j]) == Err::<
                (),
                CopyErrorView,
            >(CopyErrorView::NoTool) by {
                assert(front[j] == outcomes[j]);
            }
        }
    }
}

/// Once every tool has been tried there is nothing left to try.
pub proof fn law_copying_comes_to_an_end(
    table: Seq<ToolView>,
    outcomes: Seq<Result<(), CopyErrorView>>,
)
    requires
        table.len() <= outcomes.len(),
    ensures
        !(progress(table, outcomes) is Try),
    decreases outcomes.len(),
{
    if outcomes.len() > table.len() {
        law_copying_comes_to_an_end(table, outcomes.drop_last());
    }
}

impl CopyError {
    /// What the error says on a platform. Where there is something to install,
    /// it is named.
    pub open spec fn text(&self, platform: Platform) -> Seq<char> {
        match self {
            CopyError::NoTool => match platform {
                Platform::Unix =>
                    "no clipboard tool found -- install wl-clipboard (Wayland) or xclip (X11)"@,
                Platform::Windows =>
                    "no clipboard tool found -- clip ships with Windows, so check that it is on PATH"@,
            },
            CopyError::Failed(why) => "could not copy: "@ + why@,
        }
    }

    /// The error in words.
    pub fn message(&self, platform: Platform) -> (words: String)
        ensures
            words@ == self.text(platform),
    {
        match self {
            CopyError::NoTool => match platform {
                Platform::Unix => {
                    "no clipboard tool found -- install wl-clipboard (Wayland) or xclip (X11)".to_owned()
                },
                Platform::Windows => {
                    "no clipboard tool found -- clip ships with Windows, so check that it is on PATH".to_owned()
                },
            },
            CopyError::Failed(why) => {
                let mut words = "could not copy: ".to_owned();
                words.append(why.as_str());
                words
            },
        }
    }
}

/// The tools of each platform.
pub proof fn law_which_tools_there_are()
    ensures
        tool_table(Platform::Unix).len() == 4,
        tool_table(Platform::Unix)[0].name == "wl-copy"@,
        tool_table(Platform::Unix)[0].args.len() == 0,
        tool_table(Platform::Unix)[1].name == "xclip"@,
        tool_table(Platform::Unix)[1].args == seq!["-selection"@, "clipboard"@],
        tool_table(Platform::Unix)[2].name == "xsel"@,
        tool_table(Platform::Unix)[2].args == seq!["--clipboard"@, "--input"@],
        tool_table(Platform::Unix)[3].name == "pbcopy"@,
        tool_table(Platform::Unix)[3].args.len() == 0,
        tool_table(Platform::Windows).len() == 1,
        tool_table(Platform::Windows)[0].name == "clip"@,
        tool_table(Platform::Windows)[0].args.len() == 0,
{
}

/// A tool took the text exactly when it ended well, and is counted as not installed
/// exactly when there is no such program.
pub proof fn law_when_a_tool_took_the_text(tool: Seq<char>, report: ToolReport)
    ensures
        outcome_of(tool, report) is Ok <==> (report matches ToolReport::Exited { success, .. }
            && success),
        outcome_of(tool, report) == Err::<(), CopyErrorView>(CopyErrorView::NoTool)
            <==> report is NotFound,
{
}

/// Why a tool did not take the text.
pub proof fn law_why_a_tool_did_not_take_the_text(tool: Seq<char>, why: String)
    ensures
        outcome_of(tool, ToolReport::NotStarted(why)) == Err::<(), CopyErrorView>(
            CopyErrorView::Failed(why@),
        ),
        outcome_of(tool, ToolReport::NotWritten(why)) == Err::<(), CopyErrorView>(
            CopyErrorView::Failed(why@),
        ),
        outcome_of(tool, ToolReport::NotAwaited(why)) == Err::<(), CopyErrorView>(
            CopyErrorView::Failed(why@),
        ),
        outcome_of(tool, ToolReport::NoInput) == Err::<(), CopyErrorView>(
            CopyErrorView::Failed("could not write to it"@),
        ),
        outcome_of(tool, ToolReport::Exited { success: false, status: why }) == Err::<
            (),
            CopyErrorView,
        >(CopyErrorView::Failed(tool + " exited with "@ + why@)),
{
}

/// While no tool has taken the text, the next one is tried, in the order of the table.
pub proof fn law_the_tools_are_tried_in_order(
    table: Seq<ToolView>,
    outcomes: Seq<Result<(), CopyErrorView>>,
)
    requires
        outcomes.len() < table.len(),
        forall|j: int| 0 <= j < outcomes.len() ==> (#[trigger] outcomes[j]) is Err,
    ensures
        progress(table, outcomes) == ProgressView::Try(table[outcomes.len() as int]),
{
    lemma_nothing_copied_yet(table, outcomes);
    if outcomes.len() > 0 {
        assert(outcomes[outcomes.len() - 1] is Err);
        let front = outcomes.drop_last();
        assert forall|j: int| 0 <= j < front.len() implies (#[trigger] front[j]) is Err by {
            assert(front[j] == outcomes[j]);
        }
        lemma_nothing_copied_yet(table, front);
    }
}

/// Once every tool has been tried and none took the text, the failure that is reported is
/// that of the last tool that is installed.
pub proof fn law_the_last_failure_is_reported(
    table: Seq<ToolView>,
    outcomes: Seq<Result<(), CopyErrorView>>,
    i: int,
    why: Seq<char>,
)
    requires
        outcomes.len() == table.len(),
        forall|j: int| 0 <= j < outcomes.len() ==> (#[trigger] outcomes[j]) is Err,
        0 <= i < outcomes.len(),
        outcomes[i] == Err::<(), CopyErrorView>(CopyErrorView::Failed(why)),
        forall|j: int|
            i < j < outcomes.len() ==> (#[trigger] outcomes[j]) == Err::<(), CopyErrorView>(
                CopyErrorView::NoTool,
            ),
    ensures
        progress(table, outcomes) == ProgressView::GaveUp(CopyErrorView::Failed(why)),
{
    lemma_nothing_copied_yet(table, outcomes);
    assert(outcomes.take(table.len() as int) =~= outcomes);
    lemma_beyond_the_table(table, outcomes);
    lemma_last_failure_is(outcomes, i, why);
}

proof fn lemma_last_failure_is(
    outcomes: Seq<Result<(), CopyErrorView>>,
    i: int,
    why: Seq<char>,
)
    requires
        0 <= i < outcomes.len(),
        outcomes[i] == Err::<(), CopyErrorView>(CopyErrorView::Failed(why)),
        forall|j: int|
            i < j < outcomes.len() ==> (#[trigger] outcomes[j]) == Err::<(), CopyErrorView>(
                CopyErrorView::NoTool,
            ),
    ensures
        last_failure(outcomes) == CopyErrorView::Failed(why),
    decreases outcomes.len(),
{
    if i < outcomes.len() - 1 {
        let front = outcomes.drop_last();
        assert(outcomes[outcomes.len() - 1] == Err::<(), CopyErrorView>(CopyErrorView::NoTool));
        assert forall|j: int| i < j < front.len() implies (#[trigger] front[j]) == Err::<
            (),
            CopyErrorView,
        >(CopyErrorView::NoTool) by {
            assert(front[j] == outcomes[j]);
        }
        lemma_last_failure_is(front, i, why);
    }
}

/// What each error says.
pub proof fn law_what_each_error_says(why: String, platform: Platform)
    ensures
        CopyError::NoTool.text(Platform::Unix)
            == "no clipboard tool found -- install wl-clipboard (Wayland) or xclip (X11)"@,
        CopyError::NoTool.text(Platform::Windows)
            == "no clipboard tool found -- clip ships with Windows, so check that it is on PATH"@,
        CopyError::Failed(why).text(platform) == "could not copy: "@ + why@,
{
}

} // verus!
