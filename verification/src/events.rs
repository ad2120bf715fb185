//! The event dispatcher: turns connection events into the actions the
//! injector performs (text to type, key combinations to press) and drives
//! the look-ahead word buffer; a recording command captures the next text as
//! its phrase instead of typing it.

use vstd::prelude::*;
use crate::keys::{Key, Modifier};
use crate::matcher::{Lexicon, MatchResult, TextSegment, match_with_context, sp_join, sp_scan,
    sp_words, trim_spaces, trim_spaces_str};
use crate::session::ConnectionEvent;
use crate::words::{LOOKAHEAD_MS, ProcessedItem, WordBuffer, item_matches, pending_word,
    resolve_alone};

verus! {

/// The commands the injector knows how to press.
#[derive(Debug, Clone, Copy, PartialEq, Eq, Structural)]
pub enum VoiceCommand {
    SelectAll,
    Copy,
    Paste,
    Cut,
    Enter,
}

impl VoiceCommand {
    /// The command a code names, if any.
    pub open spec fn spec_parse(code: Seq<char>) -> Option<VoiceCommand> {
        if code == "select_all"@ {
            Some(VoiceCommand::SelectAll)
        } else if code == "copy"@ {
            Some(VoiceCommand::Copy)
        } else if code == "paste"@ {
            Some(VoiceCommand::Paste)
        } else if code == "cut"@ {
            Some(VoiceCommand::Cut)
        } else if code == "enter"@ {
            Some(VoiceCommand::Enter)
        } else {
            None
        }
    }

    /// Parses a command code.
    pub fn parse(code: &str) -> (r: Option<VoiceCommand>)
        ensures
            r == VoiceCommand::spec_parse(code@),
    {
        let v = crate::json::string_to_chars(code);
        if crate::json::vec_char_eq(&v, &crate::json::string_to_chars("select_all")) {
            Some(VoiceCommand::SelectAll)
        } else if crate::json::vec_char_eq(&v, &crate::json::string_to_chars("copy")) {
            Some(VoiceCommand::Copy)
        } else if crate::json::vec_char_eq(&v, &crate::json::string_to_chars("paste")) {
            Some(VoiceCommand::Paste)
        } else if crate::json::vec_char_eq(&v, &crate::json::string_to_chars("cut")) {
            Some(VoiceCommand::Cut)
        } else if crate::json::vec_char_eq(&v, &crate::json::string_to_chars("enter")) {
            Some(VoiceCommand::Enter)
        } else {
            None
        }
    }

    /// The key combination this command presses: the modifier, if one, and
    /// the key.
    pub open spec fn spec_combo(self) -> (Option<Modifier>, Key) {
        match self {
            VoiceCommand::SelectAll => (Some(Modifier::Ctrl), Key::A),
            VoiceCommand::Copy => (Some(Modifier::Ctrl), Key::C),
            VoiceCommand::Paste => (Some(Modifier::Ctrl), Key::V),
            VoiceCommand::Cut => (Some(Modifier::Ctrl), Key::X),
            VoiceCommand::Enter => (None, Key::Enter),
        }
    }

    /// The key combination this command presses.
    pub fn combo(self) -> (r: (Option<Modifier>, Key))
        ensures
            r == self.spec_combo(),
    {
        match self {
            VoiceCommand::SelectAll => (Some(Modifier::Ctrl), Key::A),
            VoiceCommand::Copy => (Some(Modifier::Ctrl), Key::C),
            VoiceCommand::Paste => (Some(Modifier::Ctrl), Key::V),
            VoiceCommand::Cut => (Some(Modifier::Ctrl), Key::X),
            VoiceCommand::Enter => (None, Key::Enter),
        }
    }
}

/// What the application performs on behalf of the dispatcher.
#[derive(Debug, Clone)]
pub enum Action {
    /// Inject this text into the active window.
    TypeText(String),
    /// Execute the command this code names.
    ExecuteCommand(String),
    /// Save this phrase for the command being recorded.
    SavePhrase { command: String, phrase: String },
}

/// The action one text segment turns into: prose is typed, the command
/// code executed.
pub open spec fn seg_action(a: Action, s: TextSegment) -> bool {
    match s {
        TextSegment::Text(t) => a matches Action::TypeText(x) && x@ == t@,
        TextSegment::Command(c) => a matches Action::ExecuteCommand(x) && x@ == c@,
    }
}

/// The lexicon an unconfigured processor effectively matches with: nothing.
pub open spec fn empty_lex() -> crate::matcher::LexModel {
    crate::matcher::LexModel {
        singles: Seq::<(Seq<char>, Seq<char>)>::empty(),
        pairs: Seq::<(Seq<char>, Seq<char>, Seq<char>)>::empty(),
    }
}

/// What the look-ahead buffer emits for one incoming word: the session
/// flush, if the session id changed, followed by the step's own emissions.
pub open spec fn spec_emissions(
    lexicon: Option<crate::matcher::LexModel>,
    buf: crate::words::WBModel,
    word: Seq<char>,
    session: Seq<char>,
) -> Seq<crate::words::SpecItem> {
    let lex = match lexicon {
        Some(l) => l,
        None => empty_lex(),
    };
    let same = buf.session == Some(session);
    let pend0: Option<Seq<char>> = if same {
        pending_word(buf)
    } else {
        None
    };
    let flushed: Seq<crate::words::SpecItem> = if !same && pending_word(buf) is Some {
        seq![crate::words::SpecItem::T(crate::words::word_text(pending_word(buf)->Some_0))]
    } else {
        seq![]
    };
    flushed + crate::words::wb_step(lex, pend0, word).1
}

/// The held word after one incoming word.
pub open spec fn spec_pending_after(
    lexicon: Option<crate::matcher::LexModel>,
    buf: crate::words::WBModel,
    word: Seq<char>,
    session: Seq<char>,
) -> Option<Seq<char>> {
    let lex = match lexicon {
        Some(l) => l,
        None => empty_lex(),
    };
    let same = buf.session == Some(session);
    let pend0: Option<Seq<char>> = if same {
        pending_word(buf)
    } else {
        None
    };
    crate::words::wb_step(lex, pend0, word).0
}

/// The action one executable buffer emission turns into, outside recording:
/// text is typed, a command code is executed.
pub open spec fn act_from_item(a: Action, it: ProcessedItem) -> bool {
    match it {
        ProcessedItem::Text(t) => a matches Action::TypeText(s) && s@ == t@,
        ProcessedItem::Command(c) => a matches Action::ExecuteCommand(x) && x@ == c@,
    }
}

/// The action one mathematical emission turns into, outside recording.
pub open spec fn action_for_item(a: Action, it: crate::words::SpecItem) -> bool {
    match it {
        crate::words::SpecItem::T(t) => a matches Action::TypeText(s) && s@ == t,
        crate::words::SpecItem::C(code, _) => a matches Action::ExecuteCommand(c) && c@ == code,
    }
}

/// Pointwise correspondence of actions and mathematical emissions.
pub open spec fn actions_for_items(acts: Seq<Action>, its: Seq<crate::words::SpecItem>) -> bool {
    &&& acts.len() == its.len()
    &&& forall|i: int| 0 <= i < acts.len() ==> action_for_item(#[trigger] acts[i], its[i])
}

/// Processes connection events into injector actions.
pub struct EventProcessor {
    lexicon: Option<Lexicon>,
    word_buffer: WordBuffer,
    recording_command: Option<String>,
}

impl EventProcessor {
    /// The lexicon, if voice commands are enabled.
    pub closed spec fn spec_lexicon(&self) -> Option<crate::matcher::LexModel> {
        match self.lexicon {
            Some(ref l) => Some(l@),
            None => None,
        }
    }

    /// The word buffer's state.
    pub closed spec fn spec_buffer(&self) -> crate::words::WBModel {
        self.word_buffer@
    }

    /// The command being recorded, if any.
    pub closed spec fn spec_recording(&self) -> Option<Seq<char>> {
        match self.recording_command {
            Some(ref c) => Some(c@),
            None => None,
        }
    }

    /// A processor without voice commands: all text is typed verbatim.
    pub fn new() -> (r: EventProcessor)
        ensures
            r.spec_lexicon() is None,
            r.spec_buffer().pending is None,
            r.spec_recording() is None,
    {
        EventProcessor { lexicon: None, word_buffer: WordBuffer::new(), recording_command: None }
    }

    /// A processor that recognizes the lexicon's command phrases.
    pub fn with_voice_commands(lexicon: Lexicon) -> (r: EventProcessor)
        ensures
            r.spec_lexicon() == Some(lexicon@),
            r.spec_buffer().pending is None,
            r.spec_recording() is None,
    {
        EventProcessor {
            lexicon: Some(lexicon),
            word_buffer: WordBuffer::new(),
            recording_command: None,
        }
    }

    /// Starts or stops recording: the next text becomes the phrase for
    /// `command`.
    pub fn set_recording_command(&mut self, command: Option<String>)
        ensures
            final(self).spec_recording() == (match command {
                Some(ref c) => Some(c@),
                None => None::<Seq<char>>,
            }),
            final(self).spec_lexicon() == old(self).spec_lexicon(),
            final(self).spec_buffer() == old(self).spec_buffer(),
    {
        self.recording_command = command;
    }

    /// One buffer emission into actions: while recording, the first text
    /// becomes the recorded phrase; otherwise text is typed and command
    /// codes are executed.
    fn process_item(&mut self, item: ProcessedItem) -> (acts: Vec<Action>)
        ensures
            final(self).spec_lexicon() == old(self).spec_lexicon(),
            final(self).spec_buffer() == old(self).spec_buffer(),
            match item {
                ProcessedItem::Text(ref t) => match old(self).spec_recording() {
                    Some(cmd) => final(self).spec_recording() is None && acts@.len() == 1 && (
                    acts@[0] matches Action::SavePhrase { command, phrase } && command@ == cmd
                        && phrase@ == trim_spaces(t@)),
                    None => final(self).spec_recording() is None && acts@.len() == 1 && (acts@[0]
                        matches Action::TypeText(s) && s@ == t@),
                },
                ProcessedItem::Command(ref c) => final(self).spec_recording() == old(self).spec_recording() && acts@.len() == 1 && (acts@[0]
                    matches Action::ExecuteCommand(cc) && cc@ == c@),
            },
    {
        let mut acts: Vec<Action> = Vec::new();
        match item {
            ProcessedItem::Text(t) => {
                match self.recording_command.take() {
                    Some(cmd) => {
                        let phrase = trim_spaces_str(t.as_str());
                        acts.push(Action::SavePhrase { command: cmd, phrase });
                    },
                    None => {
                        acts.push(Action::TypeText(t));
                    },
                }
            },
            ProcessedItem::Command(c) => {
                acts.push(Action::ExecuteCommand(c));
            },
        }
        acts
    }

    /// Items into actions, in order: outside recording, one action per
    /// emission, text typed and command codes executed.
    fn process_items(&mut self, items: Vec<ProcessedItem>) -> (acts: Vec<Action>)
        ensures
            final(self).spec_lexicon() == old(self).spec_lexicon(),
            final(self).spec_buffer() == old(self).spec_buffer(),
            old(self).spec_recording() is None ==> final(self).spec_recording() is None
                && acts@.len() == items@.len() && (forall|i: int|
                0 <= i < items@.len() ==> act_from_item(#[trigger] acts@[i], items@[i])),
            items@.len() == 0 ==> *final(self) == *old(self) && acts@.len() == 0,
    {
        let mut acts: Vec<Action> = Vec::new();
        if items.len() == 0 {
            return acts;
        }
        let mut i: usize = 0;
        while i < items.len()
            invariant
                i <= items@.len(),
                self.spec_lexicon() == old(self).spec_lexicon(),
                self.spec_buffer() == old(self).spec_buffer(),
                old(self).spec_recording() is None ==> self.spec_recording() is None && acts@.len()
                    == i && (forall|k: int|
                    0 <= k < i ==> act_from_item(#[trigger] acts@[k], items@[k])),
            decreases items@.len() - i,
        {
            let item = match items[i] {
                ProcessedItem::Text(ref t) => ProcessedItem::Text(t.clone()),
                ProcessedItem::Command(ref c) => ProcessedItem::Command(c.clone()),
            };
            let mut one = self.process_item(item);
            acts.append(&mut one);
            i = i + 1;
        }
        acts
    }

    /// Handles one connection event.
    ///
    /// Text while recording is captured as the recorded phrase. Otherwise a
    /// text that is exactly a command phrase executes it; one holding a
    /// phrase inside prose types the prose around the executed command; any
    /// other text is typed verbatim. Words go through the look-ahead buffer
    /// and, outside recording, every emission becomes its action, in order.
    /// A completed connection resets the buffer; nothing is typed for the
    /// pairing and disconnect events themselves.
    pub fn process_event(&mut self, event: ConnectionEvent, now_ms: u64) -> (acts: Vec<Action>)
        ensures
            final(self).spec_lexicon() == old(self).spec_lexicon(),
            match event {
                ConnectionEvent::TextReceived(ref t) => final(self).spec_buffer() == old(self).spec_buffer() && (match old(self).spec_recording() {
                    Some(cmd) => final(self).spec_recording() is None && acts@.len() == 1 && (
                    acts@[0] matches Action::SavePhrase { command, phrase } && command@ == cmd
                        && phrase@ == t@),
                    None => final(self).spec_recording() is None && (match old(self).spec_lexicon() {
                        None => acts@.len() == 1 && (acts@[0] matches Action::TypeText(s) && s@
                            == t@),
                        Some(lex) => match sp_scan(sp_words(t@), lex) {
                            None => acts@.len() == 1 && (acts@[0] matches Action::TypeText(s) && s@
                                == t@),
                            Some((i, a, c)) => if i == 0 && a == sp_words(t@).len() {
                                acts@.len() == 1 && (acts@[0] matches Action::ExecuteCommand(cc)
                                    && cc@ == c)
                            } else {
                                let words = sp_words(t@);
                                let px: int = if i > 0 {
                                    1
                                } else {
                                    0
                                };
                                let sx: int = if i + a < words.len() {
                                    1
                                } else {
                                    0
                                };
                                &&& acts@.len() == px + 1 + sx
                                &&& (i > 0 ==> (acts@[0] matches Action::TypeText(s) && s@
                                    == sp_join(words.take(i)) + seq![' ']))
                                &&& (acts@[px] matches Action::ExecuteCommand(cc) && cc@ == c)
                                &&& (i + a < words.len() ==> (acts@[px + 1]
                                    matches Action::TypeText(s) && s@ == seq![' '] + sp_join(
                                    words.skip(i + a),
                                )))
                            },
                        },
                    }),
                }),
                ConnectionEvent::WordReceived { ref word, seq: _, ref session } => ({
                    &&& pending_word(final(self).spec_buffer()) == spec_pending_after(
                        old(self).spec_lexicon(),
                        old(self).spec_buffer(),
                        word@,
                        session@,
                    )
                    &&& final(self).spec_buffer().session == Some(session@)
                    &&& (final(self).spec_buffer().pending matches Some((w, t)) ==> t == now_ms)
                    &&& (old(self).spec_recording() is None ==> final(self).spec_recording()
                        is None)
                    &&& (old(self).spec_recording() is None ==> actions_for_items(
                        acts@,
                        spec_emissions(
                            old(self).spec_lexicon(),
                            old(self).spec_buffer(),
                            word@,
                            session@,
                        ),
                    ))
                }),
                ConnectionEvent::CommandReceived(ref c) => acts@.len() == 1 && (acts@[0]
                    matches Action::ExecuteCommand(cc) && cc@ == c@) && final(self).spec_buffer()
                    == old(self).spec_buffer() && final(self).spec_recording() == old(self).spec_recording(),
                ConnectionEvent::Connected { .. } => final(self).spec_buffer().pending is None
                    && acts@.len() == 0 && final(self).spec_recording() == old(
                    self,
                ).spec_recording(),
                ConnectionEvent::Disconnected => acts@.len() == 0 && *final(self) == *old(self),
                ConnectionEvent::PairRequested { .. } => acts@.len() == 0 && *final(self) == *old(
                    self,
                ),
            },
    {
        let mut acts: Vec<Action> = Vec::new();
        match event {
            ConnectionEvent::TextReceived(text) => {
                match self.recording_command.take() {
                    Some(cmd) => {
                        acts.push(Action::SavePhrase { command: cmd, phrase: text });
                        return acts;
                    },
                    None => {},
                }
                match &self.lexicon {
                    Some(lex) => {
                        match match_with_context(lex, text.as_str()) {
                            MatchResult::ExactCommand(code) => {
                                acts.push(Action::ExecuteCommand(code));
                            },
                            MatchResult::MidTextCommand(segs) => {
                                let mut i: usize = 0;
                                let ghost scan = sp_scan(sp_words(text@), lex@);
                                while i < segs.len()
                                    invariant
                                        i <= segs@.len(),
                                        acts@.len() == i,
                                        forall|k: int|
                                            0 <= k < i ==> seg_action(
                                                #[trigger] acts@[k],
                                                segs@[k],
                                            ),
                                    decreases segs@.len() - i,
                                {
                                    match &segs[i] {
                                        TextSegment::Text(t) => {
                                            acts.push(Action::TypeText(t.clone()));
                                        },
                                        TextSegment::Command(c) => {
                                            acts.push(Action::ExecuteCommand(c.clone()));
                                        },
                                    }
                                    i = i + 1;
                                }
                                proof {
                                    let px: int = if scan->Some_0.0 > 0 {
                                        1
                                    } else {
                                        0
                                    };
                                    assert(seg_action(acts@[px], segs@[px]));
                                    if scan->Some_0.0 > 0 {
                                        assert(seg_action(acts@[0], segs@[0]));
                                    }
                                    if scan->Some_0.0 + scan->Some_0.1 < sp_words(text@).len() {
                                        assert(seg_action(acts@[px + 1], segs@[px + 1]));
                                    }
                                }
                            },
                            MatchResult::NoMatch => {
                                acts.push(Action::TypeText(text));
                            },
                        }
                    },
                    None => {
                        acts.push(Action::TypeText(text));
                    },
                }
            },
            ConnectionEvent::WordReceived { word, seq: _, session } => {
                let ghost spec_items = spec_emissions(
                    old(self).spec_lexicon(),
                    old(self).spec_buffer(),
                    word@,
                    session@,
                );
                let items = match &self.lexicon {
                    Some(lex) => self.word_buffer.process_word(
                        word,
                        session.as_str(),
                        now_ms,
                        lex,
                    ),
                    None => {
                        let fresh = Lexicon::new();
                        proof {
                            assert(fresh@ =~= empty_lex());
                        }
                        self.word_buffer.process_word(word, session.as_str(), now_ms, &fresh)
                    },
                };
                let ghost emitted = items@;
                let mut a = self.process_items(items);
                let ghost av = a@;
                acts.append(&mut a);
                proof {
                    assert(acts@ =~= av);
                    if old(self).spec_recording() is None {
                        assert forall|i: int|
                            0 <= i < acts@.len() implies action_for_item(
                            #[trigger] acts@[i],
                            spec_items[i],
                        ) by {
                            assert(act_from_item(acts@[i], emitted[i]));
                            assert(item_matches(emitted[i], spec_items[i]));
                        }
                    }
                }
            },
            ConnectionEvent::CommandReceived(cmd) => {
                acts.push(Action::ExecuteCommand(cmd));
            },
            ConnectionEvent::Connected { device_name: _ } => {
                match &self.lexicon {
                    Some(lex) => {
                        let _ = self.word_buffer.reset(lex);
                    },
                    None => {
                        let fresh = Lexicon::new();
                        let _ = self.word_buffer.reset(&fresh);
                    },
                }
            },
            ConnectionEvent::Disconnected => {},
            ConnectionEvent::PairRequested { .. } => {},
        }
        acts
    }

    /// Resolves a held word whose look-ahead window has passed.
    pub fn flush_pending_words(&mut self, now_ms: u64) -> (items: Vec<ProcessedItem>)
        ensures
            final(self).spec_lexicon() == old(self).spec_lexicon(),
            final(self).spec_recording() == old(self).spec_recording(),
            ({
                let lex = match old(self).spec_lexicon() {
                    Some(l) => l,
                    None => empty_lex(),
                };
                let due = match old(self).spec_buffer().pending {
                    Some((w, t)) => now_ms >= t + LOOKAHEAD_MS,
                    None => false,
                };
                if due {
                    &&& final(self).spec_buffer().pending is None
                    &&& final(self).spec_buffer().session == old(self).spec_buffer().session
                    &&& items@.len() == 1
                    &&& item_matches(
                        items@[0],
                        resolve_alone(lex, pending_word(old(self).spec_buffer())->Some_0),
                    )
                } else {
                    final(self).spec_buffer() == old(self).spec_buffer() && items@.len() == 0
                }
            }),
    {
        match &self.lexicon {
            Some(lex) => self.word_buffer.flush_pending(now_ms, lex),
            None => {
                let fresh = Lexicon::new();
                proof {
                    assert(fresh@ =~= empty_lex());
                }
                self.word_buffer.flush_pending(now_ms, &fresh)
            },
        }
    }

    /// The periodic tick: resolves a held word whose look-ahead window has
    /// passed and performs its emission — a one-word command is executed,
    /// anything else is typed; a tick with nothing due does nothing.
    pub fn process_periodic_flush(&mut self, now_ms: u64) -> (acts: Vec<Action>)
        ensures
            final(self).spec_lexicon() == old(self).spec_lexicon(),
            ({
                let lex = match old(self).spec_lexicon() {
                    Some(l) => l,
                    None => empty_lex(),
                };
                let due = match old(self).spec_buffer().pending {
                    Some((w, t)) => now_ms >= t + LOOKAHEAD_MS,
                    None => false,
                };
                if due {
                    &&& final(self).spec_buffer().pending is None
                    &&& (old(self).spec_recording() is None ==> final(self).spec_recording()
                        is None && acts@.len() == 1 && action_for_item(
                        acts@[0],
                        resolve_alone(lex, pending_word(old(self).spec_buffer())->Some_0),
                    ))
                } else {
                    &&& final(self).spec_buffer() == old(self).spec_buffer()
                    &&& final(self).spec_recording() == old(self).spec_recording()
                    &&& acts@.len() == 0
                }
            }),
    {
        let items = self.flush_pending_words(now_ms);
        let ghost emitted = items@;
        let acts = self.process_items(items);
        proof {
            if old(self).spec_recording() is None && emitted.len() == 1 {
                assert(act_from_item(acts@[0], emitted[0]));
            }
        }
        acts
    }
}

} // verus!
