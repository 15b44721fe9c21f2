//! What the person at the keyboard sees and does.
//!
//! Everything shown is a line of coloured pieces of text, and everything typed
//! or pressed comes to a decision. Drawing the lines and reading the keys is
//! done elsewhere.

use crate::node::{Event, EventView};
use crate::peers;
use crate::peers::{Peer, PeerView};
use crate::text;
use vstd::prelude::*;
use vstd::string::*;

verus! {

/// Lines moved by a press of PageUp or PageDown.
pub const PAGE: usize = 10;

/// The widest that the interface grows. Beyond this it centres itself instead.
pub const MAX_WIDTH: usize = 100;

/// What the keys do, at the foot of the screen.
pub const HELP: &'static str = "ESC:quit | Enter:send | PgUp/PgDn:scroll | Commands: /help, /clear, /peers, /quit";

/// A colour. True colour, so that the palette is the intended one rather than
/// whichever sixteen the terminal happens to define.
#[derive(Debug, Clone, Copy, PartialEq, Eq, Structural)]
pub struct Rgb {
    pub red: u8,
    pub green: u8,
    pub blue: u8,
}

/// The colours that are used.
#[derive(Debug, Clone, Copy, PartialEq, Eq, Structural)]
pub enum Tone {
    Green,
    DimGreen,
    Cyan,
    Amber,
    Red,
    /// Behind everything, in the margins.
    Backdrop,
    /// Inside the panels: a shade lighter, so that the interface reads as a panel
    /// on a surface rather than a hole cut in one.
    Panel,
}

/// What a tone looks like.
pub open spec fn colour_of(tone: Tone) -> Rgb {
    match tone {
        Tone::Green => Rgb { red: 0x2e, green: 0xe6, blue: 0x4d },
        Tone::DimGreen => Rgb { red: 0x1c, green: 0x8c, blue: 0x33 },
        Tone::Cyan => Rgb { red: 0x2e, green: 0xe6, blue: 0xd6 },
        Tone::Amber => Rgb { red: 0xff, green: 0xb0, blue: 0x00 },
        Tone::Red => Rgb { red: 0xff, green: 0x4d, blue: 0x4d },
        Tone::Backdrop => Rgb { red: 0x0a, green: 0x0e, blue: 0x16 },
        Tone::Panel => Rgb { red: 0x14, green: 0x1b, blue: 0x2a },
    }
}

/// What a tone looks like.
pub fn colour(tone: Tone) -> (rgb: Rgb)
    ensures
        rgb == colour_of(tone),
{
    match tone {
        Tone::Green => Rgb { red: 0x2e, green: 0xe6, blue: 0x4d },
        Tone::DimGreen => Rgb { red: 0x1c, green: 0x8c, blue: 0x33 },
        Tone::Cyan => Rgb { red: 0x2e, green: 0xe6, blue: 0xd6 },
        Tone::Amber => Rgb { red: 0xff, green: 0xb0, blue: 0x00 },
        Tone::Red => Rgb { red: 0xff, green: 0x4d, blue: 0x4d },
        Tone::Backdrop => Rgb { red: 0x0a, green: 0x0e, blue: 0x16 },
        Tone::Panel => Rgb { red: 0x14, green: 0x1b, blue: 0x2a },
    }
}

/// The parts of the interface that have a colour of their own.
#[derive(Debug, Clone, Copy, PartialEq, Eq, Structural)]
pub enum Role {
    Background,
    View,
    Primary,
    Secondary,
    Tertiary,
    TitlePrimary,
    TitleSecondary,
    Highlight,
    HighlightInactive,
    HighlightText,
}

/// The tone of each part of the interface.
pub open spec fn tone_of(role: Role) -> Tone {
    match role {
        Role::Background => Tone::Backdrop,
        Role::View => Tone::Panel,
        Role::Primary => Tone::Green,
        Role::Secondary => Tone::DimGreen,
        Role::Tertiary => Tone::Cyan,
        Role::TitlePrimary => Tone::Cyan,
        Role::TitleSecondary => Tone::Cyan,
        Role::Highlight => Tone::Amber,
        Role::HighlightInactive => Tone::Amber,
        Role::HighlightText => Tone::Backdrop,
    }
}

/// The colour of each part of the interface.
pub fn theme(role: Role) -> (rgb: Rgb)
    ensures
        rgb == colour_of(tone_of(role)),
{
    let tone = match role {
        Role::Background => Tone::Backdrop,
        Role::View => Tone::Panel,
        Role::Primary => Tone::Green,
        Role::Secondary => Tone::DimGreen,
        Role::Tertiary => Tone::Cyan,
        Role::TitlePrimary => Tone::Cyan,
        Role::TitleSecondary => Tone::Cyan,
        Role::Highlight => Tone::Amber,
        Role::HighlightInactive => Tone::Amber,
        Role::HighlightText => Tone::Backdrop,
    };
    colour(tone)
}

/// A piece of text in one colour.
#[derive(Debug, PartialEq, Eq)]
pub struct Span {
    pub text: String,
    pub tone: Tone,
}

/// What a `Span` says.
pub struct SpanView {
    pub text: Seq<char>,
    pub tone: Tone,
}

impl View for Span {
    type V = SpanView;

    open spec fn view(&self) -> SpanView {
        SpanView { text: self.text@, tone: self.tone }
    }
}

/// A line of the message log.
#[derive(Debug, PartialEq, Eq)]
pub struct Line {
    pub spans: Vec<Span>,
}

impl View for Line {
    type V = Seq<SpanView>;

    open spec fn view(&self) -> Seq<SpanView> {
        self.spans@.map_values(|span: Span| span@)
    }
}

/// What several lines say.
pub open spec fn line_views(lines: Seq<Line>) -> Seq<Seq<SpanView>> {
    lines.map_values(|line: Line| line@)
}

impl Line {
    fn empty() -> (line: Line)
        ensures
            line@ == Seq::<SpanView>::empty(),
    {
        let line = Line { spans: Vec::new() };
        assert(line@ =~= Seq::<SpanView>::empty());
        line
    }

    fn add_span(&mut self, words: &str, tone: Tone)
        ensures
            final(self)@ == old(self)@.push(SpanView { text: words@, tone }),
    {
        let ghost before = self@;
        self.spans.push(Span { text: words.to_owned(), tone });
        assert(self@ =~= before.push(SpanView { text: words@, tone }));
    }

    /// The line's characters, without the colours.
    pub fn plain(&self) -> (words: String)
        ensures
            words@ == plain_text(self@),
    {
        let mut words = String::new();
        assert(self@.take(0) =~= Seq::<SpanView>::empty());
        for i in 0..self.spans.len()
            invariant
                words@ == plain_text(self@.take(i as int)),
        {
            assert(self@.take(i + 1).drop_last() =~= self@.take(i as int));
            assert(self@[i as int] == self.spans@[i as int]@);
            words.append(self.spans[i].text.as_str());
        }
        assert(self@.take(self@.len() as int) =~= self@);
        words
    }
}

/// The characters of a line, without the colours.
pub open spec fn plain_text(line: Seq<SpanView>) -> Seq<char>
    decreases line.len(),
{
    if line.len() == 0 {
        Seq::empty()
    } else {
        plain_text(line.drop_last()) + line.last().text
    }
}

fn add_line(lines: &mut Vec<Line>, line: Line)
    ensures
        line_views(final(lines)@) == line_views(old(lines)@).push(line@),
{
    let ghost before = lines@;
    let ghost added = line@;
    lines.push(line);
    assert(line_views(lines@) =~= line_views(before).push(added));
}

fn no_lines() -> (lines: Vec<Line>)
    ensures
        line_views(lines@) == Seq::<Seq<SpanView>>::empty(),
{
    let lines: Vec<Line> = Vec::new();
    assert(line_views(lines@) =~= Seq::<Seq<SpanView>>::empty());
    lines
}

/// A line from the program itself.
pub open spec fn system_line(words: Seq<char>) -> Seq<SpanView> {
    seq![SpanView { text: "["@ + words + "]"@, tone: Tone::Cyan }]
}

/// A line that must not be missed.
pub open spec fn alarm_line(words: Seq<char>) -> Seq<SpanView> {
    seq![SpanView { text: "!! "@ + words, tone: Tone::Red }]
}

fn system(words: &str) -> (line: Line)
    ensures
        line@ == system_line(words@),
{
    let mut bracketed = "[".to_owned();
    bracketed.append(words);
    bracketed.append("]");
    let mut line = Line::empty();
    line.add_span(bracketed.as_str(), Tone::Cyan);
    assert(line@ =~= system_line(words@));
    line
}

fn alarm(words: &str) -> (line: Line)
    ensures
        line@ == alarm_line(words@),
{
    let mut marked = "!! ".to_owned();
    marked.append(words);
    let mut line = Line::empty();
    line.add_span(marked.as_str(), Tone::Red);
    assert(line@ =~= alarm_line(words@));
    line
}

/// A time of day.
#[derive(Debug, Clone, Copy, PartialEq, Eq, Structural)]
pub struct Clock {
    pub hour: u8,
    pub minute: u8,
    pub second: u8,
}

impl Clock {
    /// Whether there is such a time. A second may be a leap second.
    pub open spec fn valid(self) -> bool {
        self.hour < 24 && self.minute < 60 && self.second <= 60
    }
}

/// A number below a hundred as two digits.
pub open spec fn two_digits(n: u8) -> Seq<char> {
    seq![text::digit_char((n / 10) as nat), text::digit_char((n % 10) as nat)]
}

fn push_two_digits(words: &mut String, n: u8)
    requires
        n < 100,
    ensures
        final(words)@ == old(words)@ + two_digits(n),
{
    let ghost before = words@;
    words.push(text::digit(n / 10));
    words.push(text::digit(n % 10));
    assert(words@ =~= before + two_digits(n));
}

/// The header: who you are and the time, without seconds. The clock is the only
/// thing that changes with nothing happening, and each change repaints the
/// whole screen.
pub open spec fn header(name: Seq<char>, clock: Clock) -> Seq<char> {
    "⌐ TIO CHAT ¬  User: "@ + name + "  ⌐ "@ + two_digits(clock.hour) + seq![':'] + two_digits(
        clock.minute,
    ) + " ¬"@
}

/// The header.
pub fn header_text(name: &str, clock: Clock) -> (words: String)
    requires
        clock.valid(),
    ensures
        words@ == header(name@, clock),
{
    let mut words = "⌐ TIO CHAT ¬  User: ".to_owned();
    words.append(name);
    words.append("  ⌐ ");
    push_two_digits(&mut words, clock.hour);
    words.push(':');
    push_two_digits(&mut words, clock.minute);
    words.append(" ¬");
    assert(words@ =~= header(name@, clock));
    words
}

/// A chat message over two lines: the time, then who said what. The time is that
/// of arrival, which keeps the log in order even when a peer's clock is wrong.
pub open spec fn message_lines(from: Seq<char>, content: Seq<char>, clock: Clock) -> Seq<
    Seq<SpanView>,
> {
    seq![
        seq![
            SpanView { text: "┌["@, tone: Tone::DimGreen },
            SpanView {
                text: two_digits(clock.hour) + seq![':'] + two_digits(clock.minute) + seq![':']
                    + two_digits(clock.second),
                tone: Tone::DimGreen,
            },
            SpanView { text: "]"@, tone: Tone::DimGreen },
        ],
        seq![
            SpanView { text: "└─ "@, tone: Tone::DimGreen },
            SpanView { text: from, tone: Tone::Green },
            SpanView { text: " ▶ "@, tone: Tone::Cyan },
            SpanView { text: content, tone: Tone::Green },
        ],
    ]
}

fn message(from: &str, content: &str, clock: Clock) -> (lines: Vec<Line>)
    requires
        clock.valid(),
    ensures
        line_views(lines@) == message_lines(from@, content@, clock),
{
    let mut time = String::new();
    push_two_digits(&mut time, clock.hour);
    time.push(':');
    push_two_digits(&mut time, clock.minute);
    time.push(':');
    push_two_digits(&mut time, clock.second);
    let mut stamp = Line::empty();
    stamp.add_span("┌[", Tone::DimGreen);
    stamp.add_span(time.as_str(), Tone::DimGreen);
    stamp.add_span("]", Tone::DimGreen);
    let mut said = Line::empty();
    said.add_span("└─ ", Tone::DimGreen);
    said.add_span(from, Tone::Green);
    said.add_span(" ▶ ", Tone::Cyan);
    said.add_span(content, Tone::Green);
    proof {
        let expected = message_lines(from@, content@, clock);
        assert(time@ =~= expected[0][1].text);
        assert(stamp@ =~= expected[0]);
        assert(said@ =~= expected[1]);
    }
    let mut lines = no_lines();
    add_line(&mut lines, stamp);
    add_line(&mut lines, said);
    assert(line_views(lines@) =~= message_lines(from@, content@, clock));
    lines
}

/// What is shown for an event.
pub open spec fn shown(event: EventView, clock: Clock) -> Seq<Seq<SpanView>> {
    match event {
        EventView::Listening(addr) => seq![system_line("listening on "@ + addr)],
        EventView::PeerJoined { name, fingerprint } => seq![
            system_line(name + " joined the chat · "@ + fingerprint),
        ],
        EventView::PeerLeft { name, fingerprint } => seq![
            system_line(name + " left the chat · "@ + fingerprint),
        ],
        EventView::NameConflict { name, existing, incoming, impersonating_you } =>
            if impersonating_you {
            seq![
                alarm_line("someone just joined using YOUR name, "@ + name),
                alarm_line("  you:  "@ + existing),
                alarm_line("  them: "@ + incoming),
                alarm_line("  anything they say will look like it came from you"@),
            ]
        } else {
            seq![
                alarm_line("two peers are both calling themselves "@ + name),
                alarm_line("  already here: "@ + existing),
                alarm_line("  just joined:  "@ + incoming),
                alarm_line("  compare fingerprints before trusting either"@),
            ]
        },
        EventView::Message { from, content, .. } => message_lines(from, content, clock),
        EventView::Notice(words) => seq![system_line(words)],
        EventView::Warning(words) => seq![alarm_line(words)],
    }
}

fn put_together(a: &str, b: &str) -> (whole: String)
    ensures
        whole@ == a@ + b@,
{
    let mut whole = a.to_owned();
    whole.append(b);
    whole
}

/// Render one event as lines of the message log.
pub fn apply(event: &Event, clock: Clock) -> (lines: Vec<Line>)
    requires
        clock.valid(),
    ensures
        line_views(lines@) == shown(event@, clock),
{
    let mut lines = no_lines();
    match event {
        Event::Listening(addr) => {
            add_line(&mut lines, system(put_together("listening on ", addr.as_str()).as_str()));
        },
        Event::PeerJoined { name, fingerprint } => {
            let words = put_together(name.as_str(), " joined the chat · ");
            let words = put_together(words.as_str(), fingerprint.as_str());
            add_line(&mut lines, system(words.as_str()));
        },
        Event::PeerLeft { name, fingerprint } => {
            let words = put_together(name.as_str(), " left the chat · ");
            let words = put_together(words.as_str(), fingerprint.as_str());
            add_line(&mut lines, system(words.as_str()));
        },
        Event::NameConflict { name, existing, incoming, impersonating_you } => {
            if *impersonating_you {
                let words = put_together("someone just joined using YOUR name, ", name.as_str());
                add_line(&mut lines, alarm(words.as_str()));
                let words = put_together("  you:  ", existing.as_str());
                add_line(&mut lines, alarm(words.as_str()));
                let words = put_together("  them: ", incoming.as_str());
                add_line(&mut lines, alarm(words.as_str()));
                add_line(
                    &mut lines,
                    alarm("  anything they say will look like it came from you"),
                );
            } else {
                let words = put_together("two peers are both calling themselves ", name.as_str());
                add_line(&mut lines, alarm(words.as_str()));
                let words = put_together("  already here: ", existing.as_str());
                add_line(&mut lines, alarm(words.as_str()));
                let words = put_together("  just joined:  ", incoming.as_str());
                add_line(&mut lines, alarm(words.as_str()));
                add_line(&mut lines, alarm("  compare fingerprints before trusting either"));
            }
        },
        Event::Message { from, content, .. } => {
            return message(from.as_str(), content.as_str(), clock);
        },
        Event::Notice(words) => {
            add_line(&mut lines, system(words.as_str()));
        },
        Event::Warning(words) => {
            add_line(&mut lines, alarm(words.as_str()));
        },
    }
    assert(line_views(lines@) =~= shown(event@, clock));
    lines
}

/// What is shown when the chat opens. Your own fingerprint is there, or you could
/// not read it out to anyone.
pub open spec fn opening_lines(name: Seq<char>, fingerprint: Seq<char>) -> Seq<Seq<SpanView>> {
    seq![
        system_line("you are "@ + name + " · "@ + fingerprint),
        system_line("type /help for commands"@),
    ]
}

/// What is shown when the chat opens.
pub fn build(name: &str, fingerprint: &str) -> (lines: Vec<Line>)
    ensures
        line_views(lines@) == opening_lines(name@, fingerprint@),
{
    let words = put_together("you are ", name);
    let words = put_together(words.as_str(), " · ");
    let words = put_together(words.as_str(), fingerprint);
    let mut lines = no_lines();
    add_line(&mut lines, system(words.as_str()));
    add_line(&mut lines, system("type /help for commands"));
    assert(line_views(lines@) =~= opening_lines(name@, fingerprint@));
    lines
}

// ---------------------------------------------------------------------------
// Typing
// ---------------------------------------------------------------------------
/// What a line that was typed comes to.
#[derive(Debug, PartialEq, Eq)]
pub enum Submission {
    Nothing,
    Command(String),
    Say(String),
}

/// What a `Submission` says.
pub enum SubmissionView {
    Nothing,
    Command(Seq<char>),
    Say(Seq<char>),
}

impl View for Submission {
    type V = SubmissionView;

    open spec fn view(&self) -> SubmissionView {
        match self {
            Submission::Nothing => SubmissionView::Nothing,
            Submission::Command(command) => SubmissionView::Command(command@),
            Submission::Say(words) => SubmissionView::Say(words@),
        }
    }
}

/// What a line that was typed comes to: nothing when it is blank, a command when
/// it starts with a slash, and else something to say.
pub open spec fn submitted(typed: Seq<char>) -> SubmissionView {
    let words = text::trim(typed);
    if words.len() == 0 {
        SubmissionView::Nothing
    } else if words[0] == '/' {
        SubmissionView::Command(text::trim(words.drop_first()))
    } else {
        SubmissionView::Say(words)
    }
}

/// Decide what a line that was typed comes to.
pub fn submit(typed: &str) -> (submission: Submission)
    ensures
        submission@ == submitted(typed@),
{
    let words = text::trimmed(typed);
    let count: usize = words.as_str().unicode_len();
    if count == 0 {
        return Submission::Nothing;
    }
    if words.as_str().get_char(0) == '/' {
        let command = words.as_str().substring_char(1, count);
        assert(command@ =~= words@.drop_first());
        Submission::Command(text::trimmed(command))
    } else {
        Submission::Say(words)
    }
}

/// What a command does.
#[derive(Debug, PartialEq, Eq)]
pub enum CommandOutcome {
    Quit,
    Clear,
    Show(Vec<Line>),
}

/// What a `CommandOutcome` says.
pub enum OutcomeView {
    Quit,
    Clear,
    Show(Seq<Seq<SpanView>>),
}

impl View for CommandOutcome {
    type V = OutcomeView;

    open spec fn view(&self) -> OutcomeView {
        match self {
            CommandOutcome::Quit => OutcomeView::Quit,
            CommandOutcome::Clear => OutcomeView::Clear,
            CommandOutcome::Show(lines) => OutcomeView::Show(line_views(lines@)),
        }
    }
}

/// The line about ourselves in the list of who is here.
pub open spec fn you_line(name: Seq<char>, fingerprint: Seq<char>) -> Seq<SpanView> {
    seq![
        SpanView { text: "   "@, tone: Tone::Green },
        SpanView { text: name, tone: Tone::Green },
        SpanView { text: " (you) · "@, tone: Tone::DimGreen },
        SpanView { text: fingerprint, tone: Tone::Cyan },
    ]
}

/// The line about a peer in the list of who is here.
pub open spec fn peer_line(peer: PeerView) -> Seq<SpanView> {
    seq![
        SpanView { text: "   "@, tone: Tone::Green },
        SpanView { text: peer.name, tone: Tone::Green },
        SpanView { text: " · "@, tone: Tone::DimGreen },
        SpanView { text: peer.fingerprint, tone: Tone::Cyan },
    ]
}

/// Who is here. Ours is listed too: verifying a fingerprint takes both sides.
pub open spec fn peers_lines(
    name: Seq<char>,
    fingerprint: Seq<char>,
    peers: Seq<PeerView>,
) -> Seq<Seq<SpanView>> {
    if peers.len() == 0 {
        seq![you_line(name, fingerprint), system_line("nobody else is connected"@)]
    } else {
        seq![you_line(name, fingerprint)] + peers.map_values(|peer: PeerView| peer_line(peer))
            + seq![system_line("read these aloud to check nobody is intercepting"@)]
    }
}

/// What the commands are.
pub open spec fn help_lines() -> Seq<Seq<SpanView>> {
    seq![
        system_line("/peers  who is here, with key fingerprints"@),
        system_line("/clear  empty this window"@),
        system_line("/quit   leave"@),
        system_line("PgUp/PgDn scrolls; reaching the bottom resumes following"@),
    ]
}

/// What a command does.
pub open spec fn commanded(
    command: Seq<char>,
    name: Seq<char>,
    fingerprint: Seq<char>,
    peers: Seq<PeerView>,
) -> OutcomeView {
    if command == "quit"@ || command == "q"@ || command == "exit"@ {
        OutcomeView::Quit
    } else if command == "clear"@ {
        OutcomeView::Clear
    } else if command == "peers"@ {
        OutcomeView::Show(peers_lines(name, fingerprint, peers))
    } else if command == "help"@ || command == ""@ {
        OutcomeView::Show(help_lines())
    } else {
        OutcomeView::Show(seq![alarm_line("unknown command: /"@ + command)])
    }
}

fn list_peers(name: &str, fingerprint: &str, peers: &[Peer]) -> (lines: Vec<Line>)
    ensures
        line_views(lines@) == peers_lines(name@, fingerprint@, peers::peer_views(peers@)),
{
    let ghost all = peers::peer_views(peers@);
    let mut you = Line::empty();
    you.add_span("   ", Tone::Green);
    you.add_span(name, Tone::Green);
    you.add_span(" (you) · ", Tone::DimGreen);
    you.add_span(fingerprint, Tone::Cyan);
    assert(you@ =~= you_line(name@, fingerprint@));
    let mut lines = no_lines();
    add_line(&mut lines, you);
    if peers.len() == 0 {
        add_line(&mut lines, system("nobody else is connected"));
        assert(line_views(lines@) =~= peers_lines(name@, fingerprint@, all));
        return lines;
    }
    let ghost first = seq![you_line(name@, fingerprint@)];
    assert(line_views(lines@) =~= first + all.take(0).map_values(
        |peer: PeerView| peer_line(peer),
    ));
    for i in 0..peers.len()
        invariant
            all == peers::peer_views(peers@),
            line_views(lines@) == first + all.take(i as int).map_values(
                |peer: PeerView| peer_line(peer),
            ),
    {
        let peer = &peers[i];
        let mut line = Line::empty();
        line.add_span("   ", Tone::Green);
        line.add_span(peer.name.as_str(), Tone::Green);
        line.add_span(" · ", Tone::DimGreen);
        line.add_span(peer.fingerprint.as_str(), Tone::Cyan);
        assert(line@ =~= peer_line(peer@));
        assert(all[i as int] == peer@);
        add_line(&mut lines, line);
        assert(all.take(i + 1).map_values(|peer: PeerView| peer_line(peer)) =~= all.take(
            i as int,
        ).map_values(|peer: PeerView| peer_line(peer)).push(peer_line(peer@)));
        assert(line_views(lines@) =~= first + all.take(i + 1).map_values(
            |peer: PeerView| peer_line(peer),
        ));
    }
    assert(all.take(all.len() as int) =~= all);
    add_line(&mut lines, system("read these aloud to check nobody is intercepting"));
    assert(line_views(lines@) =~= peers_lines(name@, fingerprint@, all));
    lines
}

fn help() -> (lines: Vec<Line>)
    ensures
        line_views(lines@) == help_lines(),
{
    let mut lines = no_lines();
    add_line(&mut lines, system("/peers  who is here, with key fingerprints"));
    add_line(&mut lines, system("/clear  empty this window"));
    add_line(&mut lines, system("/quit   leave"));
    add_line(&mut lines, system("PgUp/PgDn scrolls; reaching the bottom resumes following"));
    assert(line_views(lines@) =~= help_lines());
    lines
}

/// Decide what a command does, given who we are and who is here.
pub fn run_command(command: &str, name: &str, fingerprint: &str, peers: &[Peer]) -> (outcome:
    CommandOutcome)
    ensures
        outcome@ == commanded(command@, name@, fingerprint@, peers::peer_views(peers@)),
{
    if text::same_text(command, "quit") || text::same_text(command, "q") || text::same_text(
        command,
        "exit",
    ) {
        CommandOutcome::Quit
    } else if text::same_text(command, "clear") {
        CommandOutcome::Clear
    } else if text::same_text(command, "peers") {
        CommandOutcome::Show(list_peers(name, fingerprint, peers))
    } else if text::same_text(command, "help") || text::same_text(command, "") {
        CommandOutcome::Show(help())
    } else {
        let mut lines = no_lines();
        add_line(&mut lines, alarm(put_together("unknown command: /", command).as_str()));
        assert(line_views(lines@) =~= seq![alarm_line("unknown command: /"@ + command@)]);
        CommandOutcome::Show(lines)
    }
}

// ---------------------------------------------------------------------------
// Scrolling
// ---------------------------------------------------------------------------
/// Whether the log keeps showing the newest line as lines arrive.
#[derive(Debug, Clone, Copy, PartialEq, Eq, Structural)]
pub enum Following {
    /// It shows the newest line.
    Newest,
    /// It stays where it is.
    Held,
}

/// Where a press of a paging key moves the log, and whether it keeps following.
///
/// Paging up has to stop the log from following, or the next message would yank
/// the reader straight back. `top` is the line at the top of the window.
pub fn scroll(following: Following, top: usize, up: bool) -> (moved: (usize, Following))
    requires
        !up ==> top + PAGE <= usize::MAX,
    ensures
        up ==> moved.0 == (if top < PAGE {
            0
        } else {
            top - PAGE
        }) && moved.1 == Following::Held,
        !up ==> moved.0 == top + PAGE && moved.1 == following,
{
    if up {
        let target: usize = if top < PAGE {
            0
        } else {
            top - PAGE
        };
        (target, Following::Held)
    } else {
        (top + PAGE, following)
    }
}

/// Whether the log follows once it has moved. Reaching the bottom resumes
/// following.
pub fn settled(following: Following, at_bottom: bool) -> (now: Following)
    ensures
        at_bottom ==> now == Following::Newest,
        !at_bottom ==> now == following,
{
    if at_bottom {
        Following::Newest
    } else {
        following
    }
}

/// The keys that work wherever the cursor is.
#[derive(Debug, Clone, Copy, PartialEq, Eq, Structural)]
pub enum Key {
    Escape,
    CtrlC,
    PageUp,
    PageDown,
    CtrlE,
}

/// What comes of a key.
#[derive(Debug, Clone, Copy, PartialEq, Eq)]
pub enum Pressed {
    Quit,
    /// The log moves, so that it begins with that line, and follows or not from
    /// then on. Without a line it goes to where following takes it.
    Move { top: Option<usize>, following: Following },
}

/// What comes of a key, where the log begins with the line `top`.
pub open spec fn pressed(key: Key, following: Following, top: usize) -> Pressed {
    match key {
        Key::Escape => Pressed::Quit,
        Key::CtrlC => Pressed::Quit,
        Key::PageUp => Pressed::Move {
            top: Some(
                if top < PAGE {
                    0
                } else {
                    (top - PAGE) as usize
                },
            ),
            following: Following::Held,
        },
        Key::PageDown => Pressed::Move { top: Some((top + PAGE) as usize), following },
        Key::CtrlE => Pressed::Move { top: None, following: Following::Newest },
    }
}

/// A key is pressed.
///
/// Paging down cannot be relied on to reach the newest line while lines are
/// still arriving, so one key jumps there and follows from then on.
pub fn press(key: Key, following: Following, top: usize) -> (done: Pressed)
    requires
        key == Key::PageDown ==> top + PAGE <= usize::MAX,
    ensures
        done == pressed(key, following, top),
{
    match key {
        Key::Escape => Pressed::Quit,
        Key::CtrlC => Pressed::Quit,
        Key::PageUp => {
            let (target, held) = scroll(following, top, true);
            Pressed::Move { top: Some(target), following: held }
        },
        Key::PageDown => {
            let (target, held) = scroll(following, top, false);
            Pressed::Move { top: Some(target), following: held }
        },
        Key::CtrlE => Pressed::Move { top: None, following: Following::Newest },
    }
}

/// Whether the log follows after a line was typed. Someone who says something is
/// no longer reading history.
pub fn after_submission(following: Following, submission: &Submission) -> (now: Following)
    ensures
        submission is Say ==> now == Following::Newest,
        !(submission is Say) ==> now == following,
{
    match submission {
        Submission::Say(_) => Following::Newest,
        _ => following,
    }
}

// ---------------------------------------------------------------------------
// Before the chat is open
// ---------------------------------------------------------------------------
/// Events that arrive before there is a log to show them in are kept for it:
/// they are the ones most worth reading.
pub struct Screen {
    open: bool,
    waiting: Vec<Event>,
}

/// What a `Screen` holds.
pub struct ScreenView {
    pub open: bool,
    pub waiting: Seq<EventView>,
}

/// What several events say.
pub open spec fn event_views(events: Seq<Event>) -> Seq<EventView> {
    events.map_values(|event: Event| event@)
}

impl View for Screen {
    type V = ScreenView;

    closed spec fn view(&self) -> ScreenView {
        ScreenView { open: self.open, waiting: event_views(self.waiting@) }
    }
}

/// The screen after an event: one that arrives before the chat is open waits.
pub open spec fn arrived(screen: ScreenView, event: EventView) -> ScreenView {
    if screen.open {
        screen
    } else {
        ScreenView { open: false, waiting: screen.waiting.push(event) }
    }
}

impl Screen {
    /// A screen whose chat is not open yet.
    pub fn prepare() -> (screen: Self)
        ensures
            screen@ == (ScreenView { open: false, waiting: Seq::empty() }),
    {
        let screen = Screen { open: false, waiting: Vec::new() };
        assert(screen@.waiting =~= Seq::<EventView>::empty());
        screen
    }

    /// An event arrives: it is handed back to be shown when the chat is open, and
    /// kept when it is not.
    pub fn arrive(&mut self, event: Event) -> (now: Option<Event>)
        ensures
            final(self)@ == arrived(old(self)@, event@),
            old(self)@.open ==> (now matches Some(e) && e@ == event@),
            !old(self)@.open ==> now is None,
    {
        if self.open {
            return Some(event);
        }
        let ghost before = self@.waiting;
        let ghost arrived = event@;
        self.waiting.push(event);
        assert(self@.waiting =~= before.push(arrived));
        None
    }

    /// The chat opens: everything that was kept is handed back, in the order in
    /// which it arrived, and from now on nothing is.
    pub fn opened(&mut self) -> (events: Vec<Event>)
        ensures
            event_views(events@) == old(self)@.waiting,
            final(self)@ == (ScreenView { open: true, waiting: Seq::empty() }),
    {
        let mut events: Vec<Event> = Vec::new();
        std::mem::swap(&mut events, &mut self.waiting);
        self.open = true;
        assert(self@.waiting =~= Seq::<EventView>::empty());
        events
    }
}

/// The screen after several events, one after the other.
pub open spec fn arrived_all(screen: ScreenView, events: Seq<EventView>) -> ScreenView
    decreases events.len(),
{
    if events.len() == 0 {
        screen
    } else {
        arrived(arrived_all(screen, events.drop_last()), events.last())
    }
}

/// Everything that arrives before the chat opens waits for it, in order and with
/// nothing lost, so that opening it replays exactly that.
pub proof fn law_early_events_are_replayed_in_order(events: Seq<EventView>)
    ensures
        arrived_all(ScreenView { open: false, waiting: Seq::empty() }, events) == (ScreenView {
            open: false,
            waiting: events,
        }),
    decreases events.len(),
{
    if events.len() == 0 {
        assert(events =~= Seq::<EventView>::empty());
    } else {
        law_early_events_are_replayed_in_order(events.drop_last());
        assert(events.drop_last().push(events.last()) =~= events);
    }
}

/// Typing makes no difference by the white space around it.
pub proof fn law_padding_is_not_said(before: Seq<char>, typed: Seq<char>, after: Seq<char>)
    requires
        text::blank(before),
        text::blank(after),
    ensures
        submitted(before + typed + after) == submitted(typed),
        submitted(before) == SubmissionView::Nothing,
{
    text::law_trim_ignores_padding(before, typed, after);
    text::law_trim_empties_blank_text(before);
}

/// What is typed is said as it was typed, character for character, without the white
/// space around it, unless it starts with a slash.
pub proof fn law_what_is_typed_is_said(before: Seq<char>, words: Seq<char>, after: Seq<char>)
    requires
        forall|i: int| 0 <= i < before.len() ==> text::white_space(#[trigger] before[i]),
        forall|i: int| 0 <= i < after.len() ==> text::white_space(#[trigger] after[i]),
        words.len() > 0,
        !text::white_space(words[0]),
        !text::white_space(words[words.len() - 1]),
        words[0] != '/',
    ensures
        submitted(before + words + after) == SubmissionView::Say(words),
        submitted(words) == SubmissionView::Say(words),
{
    text::law_trimming_leaves_what_is_between(before, words, after);
    let none = Seq::<char>::empty();
    text::law_trimming_leaves_what_is_between(none, words, none);
    assert(none + words + none =~= words);
}

/// Typing comes to nothing exactly when it is all white space.
pub proof fn law_only_blank_typing_comes_to_nothing(typed: Seq<char>)
    ensures
        submitted(typed) == SubmissionView::Nothing <==> (forall|i: int|
            0 <= i < typed.len() ==> text::white_space(#[trigger] typed[i])),
{
    text::law_trim_empties_blank_text(typed);
}

/// What is typed behind a slash is a command, character for character, without the
/// white space around it.
pub proof fn law_what_follows_a_slash_is_a_command(
    before: Seq<char>,
    between: Seq<char>,
    command: Seq<char>,
    after: Seq<char>,
)
    requires
        forall|i: int| 0 <= i < before.len() ==> text::white_space(#[trigger] before[i]),
        forall|i: int| 0 <= i < between.len() ==> text::white_space(#[trigger] between[i]),
        forall|i: int| 0 <= i < after.len() ==> text::white_space(#[trigger] after[i]),
        command.len() > 0 ==> !text::white_space(command[0]) && !text::white_space(
            command[command.len() - 1],
        ),
    ensures
        submitted(before + (seq!['/'] + between + command) + after) == SubmissionView::Command(
            command,
        ),
{
    let slash = seq!['/'];
    let none = Seq::<char>::empty();
    let typed = before + (slash + between + command) + after;
    if command.len() > 0 {
        let words = slash + between + command;
        text::law_trimming_leaves_what_is_between(before, words, after);
        text::law_trimming_leaves_what_is_between(between, command, none);
        assert(words.drop_first() =~= between + command + none);
    } else {
        let rest = between + after;
        text::law_trimming_leaves_what_is_between(before, slash, rest);
        assert(typed =~= before + slash + rest);
        assert(slash.drop_first() =~= none);
        text::law_trimming_leaves_what_is_between(none, none, none);
        assert(none + none + none =~= none);
        assert(command =~= none);
    }
}

/// The characters of a line are those of its pieces, one behind the other.
pub proof fn law_a_line_reads_as_its_pieces(line: Seq<SpanView>, span: SpanView)
    ensures
        plain_text(Seq::empty()) == Seq::<char>::empty(),
        plain_text(line.push(span)) == plain_text(line) + span.text,
{
    assert(line.push(span).drop_last() =~= line);
}

proof fn lemma_one_piece(line: Seq<SpanView>)
    requires
        line.len() == 1,
    ensures
        plain_text(line) == line[0].text,
{
    reveal_with_fuel(plain_text, 2);
    assert(plain_text(line) =~= line[0].text);
}

proof fn lemma_three_pieces(line: Seq<SpanView>)
    requires
        line.len() == 3,
    ensures
        plain_text(line) == line[0].text + line[1].text + line[2].text,
{
    let two = line.drop_last();
    let one = two.drop_last();
    lemma_one_piece(one);
    assert(plain_text(two) == plain_text(one) + line[1].text);
}

proof fn lemma_four_pieces(line: Seq<SpanView>)
    requires
        line.len() == 4,
    ensures
        plain_text(line) == line[0].text + line[1].text + line[2].text + line[3].text,
{
    lemma_three_pieces(line.drop_last());
}

/// A number below a hundred is written as its tens and its ones.
pub proof fn law_two_digits_are_tens_and_ones(n: u8)
    requires
        n < 100,
    ensures
        two_digits(n).len() == 2,
        two_digits(n)[0] as int == '0' as int + n as int / 10,
        two_digits(n)[1] as int == '0' as int + n as int % 10,
{
}

/// A message is shown over two lines: when it arrived, and then who said what, in
/// just the words that were said.
pub proof fn law_what_a_message_looks_like(
    from: Seq<char>,
    fingerprint: Seq<char>,
    content: Seq<char>,
    clock: Clock,
)
    ensures
        ({
            let lines = shown(EventView::Message { from, fingerprint, content }, clock);
            &&& lines.len() == 2
            &&& plain_text(lines[0]) == "┌["@ + (two_digits(clock.hour) + seq![':'] + two_digits(
                clock.minute,
            ) + seq![':'] + two_digits(clock.second)) + "]"@
            &&& plain_text(lines[1]) == "└─ "@ + from + " ▶ "@ + content
            &&& forall|i: int|
                0 <= i < lines[0].len() ==> (#[trigger] lines[0][i]).tone == Tone::DimGreen
            &&& lines[1].len() == 4
            &&& lines[1][1] == (SpanView { text: from, tone: Tone::Green })
            &&& lines[1][2].tone == Tone::Cyan
            &&& lines[1][3] == (SpanView { text: content, tone: Tone::Green })
        }),
{
    let lines = shown(EventView::Message { from, fingerprint, content }, clock);
    lemma_three_pieces(lines[0]);
    lemma_four_pieces(lines[1]);
}

/// Comings and goings, notices and the like are shown in brackets on a line of their
/// own, with the names, fingerprints and words that they are about.
pub proof fn law_what_news_looks_like(words: Seq<char>, fingerprint: Seq<char>, clock: Clock)
    ensures
        ({
            let name = words;
            let listening = shown(EventView::Listening(words), clock);
            let joined = shown(EventView::PeerJoined { name, fingerprint }, clock);
            let left = shown(EventView::PeerLeft { name, fingerprint }, clock);
            let notice = shown(EventView::Notice(words), clock);
            let warning = shown(EventView::Warning(words), clock);
            &&& listening.len() == 1
            &&& joined.len() == 1
            &&& left.len() == 1
            &&& notice.len() == 1
            &&& warning.len() == 1
            &&& plain_text(listening[0]) == "["@ + ("listening on "@ + words) + "]"@
            &&& plain_text(joined[0]) == "["@ + (name + " joined the chat · "@ + fingerprint)
                + "]"@
            &&& plain_text(left[0]) == "["@ + (name + " left the chat · "@ + fingerprint) + "]"@
            &&& plain_text(notice[0]) == "["@ + words + "]"@
            &&& plain_text(warning[0]) == "!! "@ + words
            &&& listening[0][0].tone == Tone::Cyan
            &&& joined[0][0].tone == Tone::Cyan
            &&& left[0][0].tone == Tone::Cyan
            &&& notice[0][0].tone == Tone::Cyan
            &&& warning[0][0].tone == Tone::Red
        }),
{
    let name = words;
    lemma_one_piece(shown(EventView::Listening(words), clock)[0]);
    lemma_one_piece(shown(EventView::PeerJoined { name, fingerprint }, clock)[0]);
    lemma_one_piece(shown(EventView::PeerLeft { name, fingerprint }, clock)[0]);
    lemma_one_piece(shown(EventView::Notice(words), clock)[0]);
    lemma_one_piece(shown(EventView::Warning(words), clock)[0]);
}

/// A clash of names is shown in red, with the name, with the fingerprint of whoever
/// had it first and with that of the newcomer, and it says whether the name is ours.
pub proof fn law_what_a_name_clash_looks_like(
    name: Seq<char>,
    existing: Seq<char>,
    incoming: Seq<char>,
    clock: Clock,
    i: int,
)
    requires
        0 <= i < 4,
    ensures
        ({
            let ours = shown(
                EventView::NameConflict { name, existing, incoming, impersonating_you: true },
                clock,
            );
            let theirs = shown(
                EventView::NameConflict { name, existing, incoming, impersonating_you: false },
                clock,
            );
            &&& ours.len() == 4
            &&& theirs.len() == 4
            &&& plain_text(ours[0]) == "!! "@ + ("someone just joined using YOUR name, "@ + name)
            &&& plain_text(ours[1]) == "!! "@ + ("  you:  "@ + existing)
            &&& plain_text(ours[2]) == "!! "@ + ("  them: "@ + incoming)
            &&& plain_text(ours[3]) == "!! "@
                + "  anything they say will look like it came from you"@
            &&& plain_text(theirs[0]) == "!! "@ + ("two peers are both calling themselves "@
                + name)
            &&& plain_text(theirs[1]) == "!! "@ + ("  already here: "@ + existing)
            &&& plain_text(theirs[2]) == "!! "@ + ("  just joined:  "@ + incoming)
            &&& plain_text(theirs[3]) == "!! "@ + "  compare fingerprints before trusting either"@
            &&& ours[i].len() == 1 && ours[i][0].tone == Tone::Red
            &&& theirs[i].len() == 1 && theirs[i][0].tone == Tone::Red
        }),
{
    let ours = shown(
        EventView::NameConflict { name, existing, incoming, impersonating_you: true },
        clock,
    );
    let theirs = shown(
        EventView::NameConflict { name, existing, incoming, impersonating_you: false },
        clock,
    );
    lemma_one_piece(ours[0]);
    lemma_one_piece(ours[1]);
    lemma_one_piece(ours[2]);
    lemma_one_piece(ours[3]);
    lemma_one_piece(theirs[0]);
    lemma_one_piece(theirs[1]);
    lemma_one_piece(theirs[2]);
    lemma_one_piece(theirs[3]);
}

/// The header tells who we are and the time to the minute: the seconds make no
/// difference to it.
pub proof fn law_the_header_is_steady_for_a_minute(name: Seq<char>, clock: Clock, second: u8)
    ensures
        header(name, clock) == header(name, Clock { second, ..clock }),
        header(name, clock) == "⌐ TIO CHAT ¬  User: "@ + name + "  ⌐ "@ + (two_digits(clock.hour)
            + seq![':'] + two_digits(clock.minute)) + " ¬"@,
{
    assert(header(name, clock) =~= "⌐ TIO CHAT ¬  User: "@ + name + "  ⌐ "@ + (two_digits(
        clock.hour,
    ) + seq![':'] + two_digits(clock.minute)) + " ¬"@);
}

/// The chat opens with our own name and fingerprint, and a pointer to the commands.
pub proof fn law_the_chat_opens_with_who_we_are(name: Seq<char>, fingerprint: Seq<char>)
    ensures
        opening_lines(name, fingerprint).len() == 2,
        plain_text(opening_lines(name, fingerprint)[0]) == "["@ + ("you are "@ + name + " · "@
            + fingerprint) + "]"@,
        plain_text(opening_lines(name, fingerprint)[1]) == "["@ + "type /help for commands"@
            + "]"@,
{
    lemma_one_piece(opening_lines(name, fingerprint)[0]);
    lemma_one_piece(opening_lines(name, fingerprint)[1]);
}

/// The list of who is here has a line for us, one for every peer, in order, with the
/// peer's name and fingerprint, and one more.
pub proof fn law_everyone_here_is_listed(
    name: Seq<char>,
    fingerprint: Seq<char>,
    peers: Seq<PeerView>,
    i: int,
)
    ensures
        ({
            let lines = peers_lines(name, fingerprint, peers);
            &&& lines.len() == peers.len() + 2
            &&& plain_text(lines[0]) == "   "@ + name + " (you) · "@ + fingerprint
            &&& 0 <= i < peers.len() ==> plain_text(lines[i + 1]) == "   "@ + peers[i].name
                + " · "@ + peers[i].fingerprint
            &&& 0 <= i < peers.len() ==> lines[i + 1][1].tone == Tone::Green && lines[i
                + 1][3].tone == Tone::Cyan
            &&& peers.len() == 0 ==> plain_text(lines[1]) == "["@ + "nobody else is connected"@
                + "]"@
            &&& peers.len() > 0 ==> plain_text(lines[1 + peers.len() as int]) == "["@
                + "read these aloud to check nobody is intercepting"@ + "]"@
        }),
{
    let lines = peers_lines(name, fingerprint, peers);
    lemma_four_pieces(lines[0]);
    lemma_one_piece(lines[1 + peers.len() as int]);
    if 0 <= i < peers.len() {
        assert(lines[i + 1] == peer_line(peers[i]));
        lemma_four_pieces(lines[i + 1]);
    }
}

/// Which command does what: each of them by its own words and by no others, and
/// whatever else is typed is shown as unknown.
pub proof fn law_which_command_does_what(
    command: Seq<char>,
    name: Seq<char>,
    fingerprint: Seq<char>,
    peers: Seq<PeerView>,
)
    ensures
        ({
            let outcome = commanded(command, name, fingerprint, peers);
            &&& outcome is Quit <==> command == "quit"@ || command == "q"@ || command == "exit"@
            &&& outcome is Clear <==> command == "clear"@
            &&& command == "peers"@ ==> outcome == OutcomeView::Show(
                peers_lines(name, fingerprint, peers),
            )
            &&& command == "help"@ || command.len() == 0 ==> outcome == OutcomeView::Show(
                help_lines(),
            )
            &&& outcome is Show && command != "peers"@ && command != "help"@ && command.len() != 0
                ==> outcome->Show_0.len() == 1 && plain_text(outcome->Show_0[0])
                == "!! "@ + ("unknown command: /"@ + command)
        }),
{
    reveal_strlit("quit");
    reveal_strlit("q");
    reveal_strlit("exit");
    reveal_strlit("clear");
    reveal_strlit("peers");
    reveal_strlit("help");
    reveal_strlit("");
    assert("quit"@.len() == 4 && "q"@.len() == 1 && "exit"@.len() == 4);
    assert("clear"@.len() == 5 && "peers"@.len() == 5 && "help"@.len() == 4 && ""@.len() == 0);
    assert("clear"@[0] == 'c' && "peers"@[0] == 'p');
    assert("quit"@[0] == 'q' && "exit"@[0] == 'e' && "help"@[0] == 'h');
    if command.len() == 0 {
        assert(command =~= ""@);
    }
    lemma_one_piece(alarm_line("unknown command: /"@ + command));
}

/// The help names every command that there is to type.
pub proof fn law_what_the_help_says()
    ensures
        help_lines().len() == 4,
        plain_text(help_lines()[0]) == "["@ + "/peers  who is here, with key fingerprints"@
            + "]"@,
        plain_text(help_lines()[1]) == "["@ + "/clear  empty this window"@ + "]"@,
        plain_text(help_lines()[2]) == "["@ + "/quit   leave"@ + "]"@,
        plain_text(help_lines()[3]) == "["@
            + "PgUp/PgDn scrolls; reaching the bottom resumes following"@ + "]"@,
{
    lemma_one_piece(help_lines()[0]);
    lemma_one_piece(help_lines()[1]);
    lemma_one_piece(help_lines()[2]);
    lemma_one_piece(help_lines()[3]);
}

/// What each key does: two of them quit, and no other; paging goes ten lines up, but
/// not past the first, and holds the log there, or ten lines down; and one key goes
/// to the newest line and follows from then on.
pub proof fn law_what_each_key_does(key: Key, following: Following, top: usize)
    ensures
        pressed(key, following, top) is Quit <==> key is Escape || key is CtrlC,
        top >= 10 ==> pressed(Key::PageUp, following, top) == (Pressed::Move {
            top: Some((top - 10) as usize),
            following: Following::Held,
        }),
        top < 10 ==> pressed(Key::PageUp, following, top) == (Pressed::Move {
            top: Some(0),
            following: Following::Held,
        }),
        top + 10 <= usize::MAX ==> pressed(Key::PageDown, following, top) == (Pressed::Move {
            top: Some((top + 10) as usize),
            following,
        }),
        pressed(Key::CtrlE, following, top) == (Pressed::Move {
            top: None,
            following: Following::Newest,
        }),
{
}

/// Paging up after paging down comes back to the same line.
pub proof fn law_paging_up_undoes_paging_down(following: Following, top: usize)
    requires
        top + 10 <= usize::MAX,
    ensures
        pressed(Key::PageDown, following, top) matches Pressed::Move {
            top: Some(below),
            following: still,
        } && still == following && pressed(Key::PageUp, still, below) == (Pressed::Move {
            top: Some(top),
            following: Following::Held,
        }),
{
}

/// Once the chat is open nothing is kept, and while it is not, each event is kept
/// behind those that came before it.
pub proof fn law_what_an_event_does_to_the_screen(screen: ScreenView, event: EventView)
    ensures
        screen.open ==> arrived(screen, event) == screen,
        !screen.open ==> !arrived(screen, event).open && arrived(screen, event).waiting
            == screen.waiting + seq![event],
{
    assert(screen.waiting.push(event) =~= screen.waiting + seq![event]);
}

/// The palette.
pub proof fn law_what_the_tones_look_like()
    ensures
        colour_of(Tone::Green) == (Rgb { red: 0x2e, green: 0xe6, blue: 0x4d }),
        colour_of(Tone::DimGreen) == (Rgb { red: 0x1c, green: 0x8c, blue: 0x33 }),
        colour_of(Tone::Cyan) == (Rgb { red: 0x2e, green: 0xe6, blue: 0xd6 }),
        colour_of(Tone::Amber) == (Rgb { red: 0xff, green: 0xb0, blue: 0x00 }),
        colour_of(Tone::Red) == (Rgb { red: 0xff, green: 0x4d, blue: 0x4d }),
        colour_of(Tone::Backdrop) == (Rgb { red: 0x0a, green: 0x0e, blue: 0x16 }),
        colour_of(Tone::Panel) == (Rgb { red: 0x14, green: 0x1b, blue: 0x2a }),
{
}

/// Which parts of the interface share a tone.
pub proof fn law_which_parts_share_a_tone(role: Role)
    ensures
        tone_of(role) == Tone::Backdrop <==> role is Background || role is HighlightText,
        tone_of(role) == Tone::Panel <==> role is View,
        tone_of(role) == Tone::Green <==> role is Primary,
        tone_of(role) == Tone::DimGreen <==> role is Secondary,
        tone_of(role) == Tone::Cyan <==> role is Tertiary || role is TitlePrimary
            || role is TitleSecondary,
        tone_of(role) == Tone::Amber <==> role is Highlight || role is HighlightInactive,
        tone_of(role) != Tone::Red,
{
}

/// Several lines, the pieces of a line, and several events are seen one for one and in
/// their order.
pub proof fn law_lines_are_seen_one_for_one(
    lines: Seq<Line>,
    line: Line,
    events: Seq<Event>,
    i: int,
)
    ensures
        line_views(lines).len() == lines.len(),
        0 <= i < lines.len() ==> line_views(lines)[i] == lines[i]@,
        line@.len() == line.spans@.len(),
        0 <= i < line.spans@.len() ==> line@[i].text == line.spans@[i].text@ && line@[i].tone
            == line.spans@[i].tone,
        event_views(events).len() == events.len(),
        0 <= i < events.len() ==> event_views(events)[i] == events[i]@,
{
}

} // verus!
