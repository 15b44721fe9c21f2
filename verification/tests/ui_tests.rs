//! Everything the interface shows is a line of coloured text, so it can be looked
//! at without a terminal.

use ee2e_chat::crypto;
use ee2e_chat::node::{Event, Node};
use ee2e_chat::peers::Peer;
use ee2e_chat::ui::{
    self, Clock, CommandOutcome, Following, Key, Line, Pressed, Rgb, Role, Screen, Submission,
    Tone,
};

const NOON: Clock = Clock {
    hour: 12,
    minute: 4,
    second: 59,
};

/// Whether `text` holds a timestamp of `parts` colon-separated pairs -- two for
/// `HH:MM`, three for `HH:MM:SS`.
fn shows_time(text: &str, parts: usize) -> bool {
    let chars: Vec<char> = text.chars().collect();
    let width = parts * 3 - 1;

    chars.windows(width).any(|window| {
        window.iter().enumerate().all(|(i, c)| {
            // Every third character is a separator; the rest are digits.
            if i % 3 == 2 {
                *c == ':'
            } else {
                c.is_ascii_digit()
            }
        })
    })
}

fn transcript(lines: &[Line]) -> String {
    lines.iter().map(|line| line.plain() + "\n").collect()
}

fn shown(event: Event) -> String {
    transcript(&ui::apply(&event, NOON))
}

fn node(name: &str) -> Node {
    Node::new(
        name.to_string(),
        crypto::generate_keypair(),
        "127.0.0.1:9000".to_string(),
        None,
    )
}

fn message(content: &str) -> Event {
    Event::Message {
        from: "bob".to_string(),
        fingerprint: "AAAA-BBBB-CCCC-DDDD".to_string(),
        content: content.to_string(),
    }
}

/// The header clock is the only thing that changes with nothing happening, and
/// the whole screen is redrawn whenever it does.
#[test]
fn test_the_header_clock_does_not_show_seconds() {
    let text = ui::header_text("alice", NOON);

    assert!(
        shows_time(&text, 2),
        "the header should carry an HH:MM clock: {text}"
    );
    assert!(
        !shows_time(&text, 3),
        "an HH:MM:SS clock repaints the whole screen every second: {text}"
    );
    assert_eq!(text, "⌐ TIO CHAT ¬  User: alice  ⌐ 12:04 ¬");
}

#[test]
fn test_the_header_names_you() {
    let header = ui::header_text("alice", NOON);
    assert!(header.contains("alice"), "got {header}");
}

/// Your own fingerprint has to be visible, or you cannot read it out to anyone.
#[test]
fn test_shows_your_own_fingerprint_on_startup() {
    let node = node("alice");
    let fingerprint = node.fingerprint();

    let text = transcript(&ui::build(node.name(), &fingerprint));
    assert!(text.contains("alice"), "got: {text}");
    assert!(text.contains(&fingerprint), "got: {text}");
    assert_eq!(
        text,
        format!("[you are alice · {fingerprint}]\n[type /help for commands]\n")
    );
}

#[test]
fn test_renders_a_chat_message() {
    let text = shown(message("hi alice"));
    assert!(text.contains("bob"), "got: {text}");
    assert!(text.contains("hi alice"), "got: {text}");
    assert!(text.contains('▶'), "expected the message marker, got: {text}");
    assert_eq!(text, "┌[12:04:59]\n└─ bob ▶ hi alice\n");
}

#[test]
fn test_renders_joins_and_departures_with_fingerprints() {
    let text = shown(Event::PeerJoined {
        name: "bob".to_string(),
        fingerprint: "AAAA-BBBB-CCCC-DDDD".to_string(),
    }) + &shown(Event::PeerLeft {
        name: "bob".to_string(),
        fingerprint: "AAAA-BBBB-CCCC-DDDD".to_string(),
    });

    assert!(text.contains("bob joined the chat"), "got: {text}");
    assert!(text.contains("bob left the chat"), "got: {text}");
    assert_eq!(
        text.matches("AAAA-BBBB-CCCC-DDDD").count(),
        2,
        "both lines should carry the fingerprint, got: {text}"
    );
}

/// The whole point of a name conflict is that the fingerprints are the only way
/// to tell the two apart, so both must appear.
#[test]
fn test_a_name_conflict_shows_both_fingerprints() {
    let text = shown(Event::NameConflict {
        name: "bob".to_string(),
        existing: "1111-1111-1111-1111".to_string(),
        incoming: "2222-2222-2222-2222".to_string(),
        impersonating_you: false,
    });

    assert!(text.contains("1111-1111-1111-1111"), "got: {text}");
    assert!(text.contains("2222-2222-2222-2222"), "got: {text}");
    assert!(text.contains("compare fingerprints"), "got: {text}");
}

#[test]
fn test_warnings_are_shown_rather_than_swallowed() {
    let text = shown(Event::Warning("could not decrypt a message from bob".to_string()));
    assert!(text.contains("could not decrypt"), "got: {text}");
}

#[test]
fn test_messages_accumulate_in_order() {
    let text: String = (1..=3).map(|n| shown(message(&format!("message {n}")))).collect();

    let first = text.find("message 1").expect("first");
    let second = text.find("message 2").expect("second");
    let third = text.find("message 3").expect("third");
    assert!(first < second && second < third, "out of order: {text}");
}

fn rgb(red: u8, green: u8, blue: u8) -> Rgb {
    Rgb { red, green, blue }
}

#[test]
fn test_the_theme_uses_the_retro_palette() {
    assert_eq!(ui::theme(Role::Primary), rgb(0x2E, 0xE6, 0x4D));
    assert_eq!(ui::theme(Role::TitlePrimary), rgb(0x2E, 0xE6, 0xD6));
    assert_eq!(ui::theme(Role::Background), rgb(0x0A, 0x0E, 0x16));
    assert_ne!(
        ui::theme(Role::View),
        ui::theme(Role::Background),
        "panels should sit a shade above the backdrop"
    );
    assert_eq!(ui::theme(Role::View), rgb(0x14, 0x1B, 0x2A));
    assert_eq!(ui::theme(Role::Secondary), rgb(0x1C, 0x8C, 0x33));
    assert_eq!(ui::theme(Role::Tertiary), ui::theme(Role::TitleSecondary));
    assert_eq!(ui::theme(Role::Highlight), rgb(0xFF, 0xB0, 0x00));
    assert_eq!(ui::theme(Role::HighlightInactive), rgb(0xFF, 0xB0, 0x00));
    assert_eq!(ui::theme(Role::HighlightText), rgb(0x0A, 0x0E, 0x16));
    assert_eq!(ui::colour(Tone::Red), rgb(0xFF, 0x4D, 0x4D));
}

/// Someone taking your name must be worded unmistakably, not as a generic
/// clash between two other people.
#[test]
fn test_impersonation_of_you_is_called_out_explicitly() {
    let text = shown(Event::NameConflict {
        name: "alice".to_string(),
        existing: "1111-1111-1111-1111".to_string(),
        incoming: "2222-2222-2222-2222".to_string(),
        impersonating_you: true,
    });

    assert!(text.contains("YOUR name"), "got: {text}");
    assert!(text.contains("1111-1111-1111-1111"), "got: {text}");
    assert!(text.contains("2222-2222-2222-2222"), "got: {text}");
}

/// The whole point of the log: you should not have to touch anything to see what
/// was just said.
#[test]
fn test_the_log_follows_new_messages() {
    let said = ui::submit("hello");
    let command = ui::submit("/peers");
    for at_bottom in [true, false] {
        assert_eq!(ui::settled(Following::Newest, at_bottom), Following::Newest);
    }
    for typed in [&said, &command, &ui::submit("")] {
        assert_eq!(ui::after_submission(Following::Newest, typed), Following::Newest);
    }
    assert_eq!(
        ui::press(Key::PageDown, Following::Newest, 30),
        Pressed::Move { top: Some(40), following: Following::Newest }
    );
}

/// Paging up is how you read back through history, so new arrivals must not
/// yank you away from what you are reading.
#[test]
fn test_paging_up_stops_the_log_following() {
    let (target, following) = ui::scroll(Following::Newest, 40, true);
    assert_eq!((target, following), (30, Following::Held));
    assert_eq!(ui::settled(following, false), Following::Held);
    // Near the top there is less to move.
    assert_eq!(ui::scroll(Following::Held, 4, true).0, 0);
}

/// Regression: paging up used to strand the log for good, because paging down to
/// the bottom is a race that cannot be won while messages are still arriving.
#[test]
fn test_returning_to_the_newest_message_resumes_following() {
    let mut at = (70, Following::Newest);
    for _ in 0..5 {
        match ui::press(Key::PageUp, at.1, at.0) {
            Pressed::Move { top: Some(top), following } => {
                at = (top, ui::settled(following, false));
            }
            other => panic!("expected a move, got {other:?}"),
        }
    }
    assert_eq!(at, (20, Following::Held), "the test should have scrolled away");

    let Pressed::Move { top, following } = ui::press(Key::CtrlE, at.1, at.0) else {
        panic!("expected a move");
    };
    assert_eq!(top, None, "Ctrl+E should jump back to the newest message");
    assert_eq!(following, Following::Newest);

    // And it has to keep following from then on, not just jump the once.
    assert_eq!(ui::settled(following, true), Following::Newest);
    assert_eq!(ui::settled(following, false), Following::Newest);
}

#[test]
fn reaching_the_bottom_resumes_following() {
    let (target, following) = ui::scroll(Following::Held, 30, false);
    assert_eq!((target, following), (40, Following::Held));
    assert_eq!(ui::settled(following, true), Following::Newest);
    assert_eq!(ui::settled(following, false), Following::Held);
}

#[test]
fn keys_do_what_the_help_says() {
    for key in [Key::Escape, Key::CtrlC] {
        assert_eq!(ui::press(key, Following::Held, 3), Pressed::Quit);
    }
    assert_eq!(
        ui::press(Key::PageDown, Following::Newest, 3),
        Pressed::Move { top: Some(13), following: Following::Newest }
    );
    assert_eq!(
        ui::press(Key::PageUp, Following::Newest, usize::MAX),
        Pressed::Move { top: Some(usize::MAX - 10), following: Following::Held }
    );
}

/// Someone who joins in is no longer reading history, and would otherwise send
/// a message into a log they cannot see.
#[test]
fn test_sending_a_message_resumes_following() {
    let sent = ui::submit("hello");
    assert_eq!(ui::after_submission(Following::Held, &sent), Following::Newest);
    let command = ui::submit("/peers");
    assert_eq!(ui::after_submission(Following::Held, &command), Following::Held);
}

fn show(outcome: CommandOutcome) -> String {
    match outcome {
        CommandOutcome::Show(lines) => transcript(&lines),
        other => panic!("expected lines, got {other:?}"),
    }
}

#[test]
fn test_peers_command_lists_your_own_fingerprint() {
    let node = node("alice");
    let fingerprint = node.fingerprint();

    let Submission::Command(command) = ui::submit("/peers") else {
        panic!("expected a command");
    };
    let text = show(ui::run_command(&command, node.name(), &fingerprint, node.peers()));
    assert!(!text.is_empty(), "the command should have produced output");
    assert!(text.contains(&fingerprint), "own fingerprint missing: {text}");
    assert!(text.contains("(you)"), "got: {text}");
}

#[test]
fn everyone_here_is_listed() {
    let bob = Peer::new("bob".to_string(), vec![2; 32], "a:1".to_string());
    let carol = Peer::new("carol".to_string(), vec![3; 32], "b:1".to_string());
    let text = show(ui::run_command("peers", "alice", "FP", &[bob.clone(), carol.clone()]));
    assert_eq!(
        text,
        format!(
            "   alice (you) · FP\n   bob · {}\n   carol · {}\n\
             [read these aloud to check nobody is intercepting]\n",
            bob.fingerprint, carol.fingerprint
        )
    );
    assert_eq!(
        show(ui::run_command("peers", "alice", "FP", &[])),
        "   alice (you) · FP\n[nobody else is connected]\n"
    );
}

#[test]
fn commands_do_what_they_say() {
    for word in ["quit", "q", "exit"] {
        assert_eq!(ui::run_command(word, "a", "b", &[]), CommandOutcome::Quit);
    }
    assert_eq!(ui::run_command("clear", "a", "b", &[]), CommandOutcome::Clear);
    let help = show(ui::run_command("help", "a", "b", &[]));
    assert_eq!(help, show(ui::run_command("", "a", "b", &[])));
    assert_eq!(
        help,
        "[/peers  who is here, with key fingerprints]\n[/clear  empty this window]\n\
         [/quit   leave]\n[PgUp/PgDn scrolls; reaching the bottom resumes following]\n"
    );
    assert_eq!(
        show(ui::run_command("Quit", "a", "b", &[])),
        "!! unknown command: /Quit\n"
    );
}

#[test]
fn typing_comes_to_a_decision() {
    assert_eq!(ui::submit(" \t"), Submission::Nothing);
    assert_eq!(ui::submit(" hello there "), Submission::Say("hello there".to_string()));
    assert_eq!(ui::submit(" /  peers "), Submission::Command("peers".to_string()));
    assert_eq!(ui::submit("/"), Submission::Command(String::new()));
    assert_eq!(ui::submit("a/b"), Submission::Say("a/b".to_string()));
}

#[test]
fn notices_and_alarms_look_different() {
    let notice = ui::apply(&Event::Notice("n".to_string()), NOON);
    assert_eq!(notice[0].spans[0].text, "[n]");
    assert_eq!(notice[0].spans[0].tone, Tone::Cyan);
    let warning = ui::apply(&Event::Warning("w".to_string()), NOON);
    assert_eq!(warning[0].spans[0].text, "!! w");
    assert_eq!(warning[0].spans[0].tone, Tone::Red);
    assert_eq!(shown(Event::Listening("a:1".to_string())), "[listening on a:1]\n");
}

// ---------------------------------------------------------------------------
// Before the chat is open
// ---------------------------------------------------------------------------

/// Startup events are emitted before the user has finished with the setup
/// screen, so there is nowhere to put them yet.
#[test]
fn test_events_arriving_before_the_chat_exists_are_replayed() {
    let mut screen = Screen::prepare();
    assert_eq!(screen.arrive(Event::Notice("identity loaded".to_string())), None);
    assert_eq!(screen.arrive(Event::Warning("could not reach peer".to_string())), None);

    let text: String = screen.opened().into_iter().map(shown).collect();
    assert!(text.contains("identity loaded"), "got: {text}");
    assert!(text.contains("could not reach peer"), "got: {text}");
}

#[test]
fn test_replayed_events_keep_their_order() {
    let mut screen = Screen::prepare();
    for n in 1..=3 {
        screen.arrive(Event::Notice(format!("step {n}")));
    }
    let text: String = screen.opened().into_iter().map(shown).collect();
    let positions: Vec<_> = (1..=3)
        .map(|n| text.find(&format!("step {n}")).expect("present"))
        .collect();
    assert!(positions.windows(2).all(|w| w[0] < w[1]), "out of order: {text}");
}

/// Once the chat exists, events go straight through rather than accumulating.
#[test]
fn test_events_after_the_chat_exists_are_not_buffered() {
    let mut screen = Screen::prepare();
    screen.opened();
    let live = screen.arrive(Event::Notice("live".to_string())).expect("shown at once");
    assert!(shown(live).contains("live"));
    assert!(screen.opened().is_empty());
}
