//! Checks of the word buffer, the phrase matcher and the event dispatcher.

use prontafon::events::{Action, EventProcessor, VoiceCommand};
use prontafon::keys::{Key, Modifier};
use prontafon::matcher::{Lexicon, MatchResult, TextSegment, match_with_context, normalize_word};
use prontafon::session::ConnectionEvent;
use prontafon::words::{ProcessedItem, WordBuffer};

fn lexicon() -> Lexicon {
    let mut lex = Lexicon::new();
    lex.add_single("copy", "copy");
    lex.add_single("paste", "paste");
    lex.add_pair("copy", "that", "copy");
    lex.add_pair("new", "line", "enter");
    lex
}

#[test]
fn normalization_rules() {
    assert_eq!(normalize_word("Hello!"), "hello");
    assert_eq!(normalize_word("COPY,"), "copy");
    assert_eq!(normalize_word("that?"), "that");
}

#[test]
fn two_word_lookahead_hit() {
    // "new" then "line" inside the look-ahead window: exactly one command,
    // no text typed.
    let lex = lexicon();
    let mut buf = WordBuffer::new();
    let items1 = buf.process_word("new".to_string(), "s1", 0, &lex);
    assert!(items1.is_empty());
    let items2 = buf.process_word("line".to_string(), "s1", 50, &lex);
    assert_eq!(items2.len(), 1);
    match &items2[0] {
        ProcessedItem::Command(code) => assert_eq!(code, "enter"),
        other => panic!("unexpected item {:?}", other),
    }
    let flushed = buf.flush_pending(1_000, &lex);
    assert!(flushed.is_empty());
}

#[test]
fn two_word_lookahead_miss_times_out() {
    // "new" alone: the look-ahead window passes and it is typed as text.
    let lex = lexicon();
    let mut buf = WordBuffer::new();
    let items1 = buf.process_word("new".to_string(), "s1", 0, &lex);
    assert!(items1.is_empty());
    let not_yet = buf.flush_pending(50, &lex);
    assert!(not_yet.is_empty());
    let items2 = buf.flush_pending(100, &lex);
    assert_eq!(items2.len(), 1);
    match &items2[0] {
        ProcessedItem::Text(t) => assert_eq!(t, "new "),
        other => panic!("unexpected item {:?}", other),
    }
}

#[test]
fn held_single_word_command_still_matches() {
    // "copy" could start "copy that" but is also a command alone: a plain
    // word after it resolves it as the one-word command.
    let lex = lexicon();
    let mut buf = WordBuffer::new();
    assert!(buf.process_word("copy".to_string(), "s1", 0, &lex).is_empty());
    let items = buf.process_word("banana".to_string(), "s1", 10, &lex);
    assert_eq!(items.len(), 2);
    match &items[0] {
        ProcessedItem::Command(code) => assert_eq!(code, "copy"),
        other => panic!("unexpected item {:?}", other),
    }
    match &items[1] {
        ProcessedItem::Text(t) => assert_eq!(t, "banana "),
        other => panic!("unexpected item {:?}", other),
    }
}

#[test]
fn plain_words_become_text() {
    let lex = lexicon();
    let mut buf = WordBuffer::new();
    let items = buf.process_word("hello".to_string(), "s1", 0, &lex);
    assert_eq!(items.len(), 1);
    match &items[0] {
        ProcessedItem::Text(t) => assert_eq!(t, "hello "),
        other => panic!("unexpected item {:?}", other),
    }
}

#[test]
fn session_change_flushes_held_word_as_text() {
    let lex = lexicon();
    let mut buf = WordBuffer::new();
    assert!(buf.process_word("new".to_string(), "s1", 0, &lex).is_empty());
    let items = buf.process_word("hello".to_string(), "s2", 10, &lex);
    assert_eq!(items.len(), 2);
    match &items[0] {
        ProcessedItem::Text(t) => assert_eq!(t, "new "),
        other => panic!("unexpected item {:?}", other),
    }
    match &items[1] {
        ProcessedItem::Text(t) => assert_eq!(t, "hello "),
        other => panic!("unexpected item {:?}", other),
    }
}

#[test]
fn mid_text_command_segments() {
    // Incoming text "please copy that now" with phrase "copy that": type
    // "please ", execute copy, type " now".
    let lex = lexicon();
    match match_with_context(&lex, "please copy that now") {
        MatchResult::MidTextCommand(segs) => {
            assert_eq!(segs.len(), 3);
            match &segs[0] {
                TextSegment::Text(t) => assert_eq!(t, "please "),
                other => panic!("unexpected segment {:?}", other),
            }
            match &segs[1] {
                TextSegment::Command(c) => assert_eq!(c, "copy"),
                other => panic!("unexpected segment {:?}", other),
            }
            match &segs[2] {
                TextSegment::Text(t) => assert_eq!(t, " now"),
                other => panic!("unexpected segment {:?}", other),
            }
        },
        other => panic!("unexpected result {:?}", other),
    }
}

#[test]
fn exact_command_whole_text() {
    let lex = lexicon();
    match match_with_context(&lex, "Copy that.") {
        MatchResult::ExactCommand(code) => assert_eq!(code, "copy"),
        other => panic!("unexpected result {:?}", other),
    }
    match match_with_context(&lex, "nothing to see") {
        MatchResult::NoMatch => {},
        other => panic!("unexpected result {:?}", other),
    }
}

#[test]
fn dispatcher_mid_text_actions() {
    let mut ep = EventProcessor::with_voice_commands(lexicon());
    let acts = ep.process_event(
        ConnectionEvent::TextReceived("please copy that now".to_string()),
        0,
    );
    assert_eq!(acts.len(), 3);
    assert!(matches!(&acts[0], Action::TypeText(t) if t == "please "));
    assert!(matches!(&acts[1], Action::ExecuteCommand(c) if c == "copy"));
    assert!(matches!(&acts[2], Action::TypeText(t) if t == " now"));
}

#[test]
fn dispatcher_types_plain_text() {
    let mut ep = EventProcessor::new();
    let acts = ep.process_event(ConnectionEvent::TextReceived("just words".to_string()), 0);
    assert_eq!(acts.len(), 1);
    assert!(matches!(&acts[0], Action::TypeText(t) if t == "just words"));
}

#[test]
fn dispatcher_recording_captures_phrase() {
    let mut ep = EventProcessor::with_voice_commands(lexicon());
    ep.set_recording_command(Some("copy".to_string()));
    let acts = ep.process_event(ConnectionEvent::TextReceived("copy that".to_string()), 0);
    assert_eq!(acts.len(), 1);
    assert!(matches!(
        &acts[0],
        Action::SavePhrase { command, phrase } if command == "copy" && phrase == "copy that"
    ));
    // recording is cleared: the next text is handled normally
    let acts2 = ep.process_event(ConnectionEvent::TextReceived("plain".to_string()), 0);
    assert_eq!(acts2.len(), 1);
    assert!(matches!(&acts2[0], Action::TypeText(t) if t == "plain"));
}

#[test]
fn dispatcher_word_stream_and_flush() {
    let mut ep = EventProcessor::with_voice_commands(lexicon());
    let w1 = ConnectionEvent::WordReceived {
        word: "new".to_string(),
        seq: Some(0),
        session: "s1".to_string(),
    };
    assert!(ep.process_event(w1, 0).is_empty());
    let acts = ep.process_periodic_flush(150);
    assert_eq!(acts.len(), 1);
    assert!(matches!(&acts[0], Action::TypeText(t) if t == "new "));
}

#[test]
fn dispatcher_connected_resets_buffer() {
    let mut ep = EventProcessor::with_voice_commands(lexicon());
    let w = ConnectionEvent::WordReceived {
        word: "new".to_string(),
        seq: None,
        session: "s1".to_string(),
    };
    assert!(ep.process_event(w, 0).is_empty());
    let acts = ep.process_event(
        ConnectionEvent::Connected { device_name: "Phone".to_string() },
        10,
    );
    assert!(acts.is_empty());
    // the held word is gone: the flush finds nothing
    assert!(ep.process_periodic_flush(1_000).is_empty());
}

#[test]
fn recording_word_phrase_is_trimmed() {
    // A word emission carries its trailing space; the recorded phrase does
    // not.
    let mut ep = EventProcessor::with_voice_commands(lexicon());
    ep.set_recording_command(Some("copy".to_string()));
    let w = ConnectionEvent::WordReceived {
        word: "hello".to_string(),
        seq: None,
        session: "s1".to_string(),
    };
    let acts = ep.process_event(w, 0);
    assert_eq!(acts.len(), 1);
    assert!(matches!(
        &acts[0],
        Action::SavePhrase { command, phrase } if command == "copy" && phrase == "hello"
    ));
}

#[test]
fn periodic_flush_executes_held_command() {
    // "copy" is held (it could start "copy that") but is itself a one-word
    // command: the timed-out flush executes it.
    let mut ep = EventProcessor::with_voice_commands(lexicon());
    let w = ConnectionEvent::WordReceived {
        word: "copy".to_string(),
        seq: None,
        session: "s1".to_string(),
    };
    assert!(ep.process_event(w, 0).is_empty());
    let acts = ep.process_periodic_flush(120);
    assert_eq!(acts.len(), 1);
    assert!(matches!(&acts[0], Action::ExecuteCommand(c) if c == "copy"));
}

#[test]
fn voice_command_parse_and_combos() {
    assert_eq!(VoiceCommand::parse("copy"), Some(VoiceCommand::Copy));
    assert_eq!(VoiceCommand::parse("enter"), Some(VoiceCommand::Enter));
    assert_eq!(VoiceCommand::parse("warp"), None);
    assert_eq!(VoiceCommand::Copy.combo(), (Some(Modifier::Ctrl), Key::C));
    assert_eq!(VoiceCommand::Enter.combo(), (None, Key::Enter));
    assert_eq!(Modifier::Ctrl.to_ydotool(), "LEFTCTRL");
    assert_eq!(Key::Enter.to_ydotool(), "ENTER");
}
