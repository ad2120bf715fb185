//! The look-ahead word buffer: turns the per-word speech stream into typed
//! text and executed commands, recognizing one- and two-word command phrases
//! with a bounded hold on possible two-word prefixes.

use vstd::prelude::*;
use crate::matcher::{LexModel, Lexicon, normalize, sp_could_start, sp_match_pair, sp_match_single};

verus! {

/// How long a possible two-word prefix is held before it is resolved alone,
/// in milliseconds.
pub const LOOKAHEAD_MS: u64 = 100;

/// What the buffer emits: text to type (with its trailing space) or the code
/// of a command to execute.
#[derive(Debug, Clone)]
pub enum ProcessedItem {
    Text(String),
    Command(String),
}

/// An emission together with the words it stands for: `T` carries the text
/// itself, `C` a command code and the words consumed to match it.
#[verifier::ext_equal]
pub ghost enum SpecItem {
    T(Seq<char>),
    C(Seq<char>, Seq<Seq<char>>),
}

/// The mathematical state of the buffer: the held word, if any, and the
/// current session.
#[verifier::ext_equal]
pub ghost struct WBModel {
    pub pending: Option<(Seq<char>, int)>,
    pub session: Option<Seq<char>>,
}

/// A word with its trailing space, as the buffer types it.
pub open spec fn word_text(w: Seq<char>) -> Seq<char> {
    w + seq![' ']
}

/// Resolving a word with no partner: a one-word command if it matches, else
/// text.
pub open spec fn resolve_alone(lex: LexModel, w: Seq<char>) -> SpecItem {
    match sp_match_single(lex.singles, normalize(w)) {
        Some(code) => SpecItem::C(code, seq![w]),
        None => SpecItem::T(word_text(w)),
    }
}

/// The second step of the algorithm: what happens to a word when nothing is
/// held. Returns the new held word and the emissions.
pub open spec fn wb_step2(lex: LexModel, w: Seq<char>) -> (Option<Seq<char>>, Seq<SpecItem>) {
    if sp_could_start(lex.pairs, normalize(w)) {
        (Some(w), seq![])
    } else {
        (None, seq![resolve_alone(lex, w)])
    }
}

/// One word through the buffer: two-word matches with the held word win,
/// then one-word matches of the held word, then the held word is text; the
/// new word is then held or resolved by `wb_step2`.
pub open spec fn wb_step(lex: LexModel, pending: Option<Seq<char>>, w: Seq<char>) -> (
    Option<Seq<char>>,
    Seq<SpecItem>,
) {
    match pending {
        Some(p) => {
            if sp_match_pair(lex.pairs, normalize(p), normalize(w)) is Some {
                let code = sp_match_pair(lex.pairs, normalize(p), normalize(w))->Some_0;
                (None, seq![SpecItem::C(code, seq![p, w])])
            } else {
                let head = match sp_match_single(lex.singles, normalize(p)) {
                    Some(code) => SpecItem::C(code, seq![p]),
                    None => SpecItem::T(word_text(p)),
                };
                let (np, rest) = wb_step2(lex, w);
                (np, seq![head] + rest)
            }
        },
        None => wb_step2(lex, w),
    }
}

/// The text an emission stands for: its own body for text, the consumed
/// words (each with its trailing space) for a command.
pub open spec fn item_text(it: SpecItem) -> Seq<char> {
    match it {
        SpecItem::T(s) => s,
        SpecItem::C(_, ws) => words_text(ws),
    }
}

/// Words as typed: each with a trailing space.
pub open spec fn words_text(ws: Seq<Seq<char>>) -> Seq<char>
    decreases ws.len(),
{
    if ws.len() == 0 {
        seq![]
    } else {
        word_text(ws[0]) + words_text(ws.drop_first())
    }
}

/// The text of a sequence of emissions.
pub open spec fn items_text(items: Seq<SpecItem>) -> Seq<char>
    decreases items.len(),
{
    if items.len() == 0 {
        seq![]
    } else {
        item_text(items[0]) + items_text(items.drop_first())
    }
}

/// What the held word would type.
pub open spec fn pending_text(p: Option<Seq<char>>) -> Seq<char> {
    match p {
        Some(w) => word_text(w),
        None => seq![],
    }
}

/// Running the buffer over a word sequence: the final held word and all
/// emissions, in order.
pub open spec fn wb_run(lex: LexModel, pending: Option<Seq<char>>, ws: Seq<Seq<char>>) -> (
    Option<Seq<char>>,
    Seq<SpecItem>,
)
    decreases ws.len(),
{
    if ws.len() == 0 {
        (pending, seq![])
    } else {
        let (p1, out1) = wb_step(lex, pending, ws[0]);
        let (p2, out2) = wb_run(lex, p1, ws.drop_first());
        (p2, out1 + out2)
    }
}

proof fn lemma_items_text_append(a: Seq<SpecItem>, b: Seq<SpecItem>)
    ensures
        items_text(a + b) == items_text(a) + items_text(b),
    decreases a.len(),
{
    if a.len() == 0 {
        assert(a + b =~= b);
        assert(items_text(a) + items_text(b) =~= items_text(b));
    } else {
        assert((a + b)[0] == a[0]);
        assert((a + b).drop_first() =~= a.drop_first() + b);
        lemma_items_text_append(a.drop_first(), b);
        assert(items_text(a + b) =~= items_text(a) + items_text(b));
    }
}

/// One step accounts for exactly the incoming word: what the emissions type
/// plus what stays held equals what was held plus the word.
proof fn lemma_step_accounted(lex: LexModel, pending: Option<Seq<char>>, w: Seq<char>)
    ensures
        ({
            let (p1, out) = wb_step(lex, pending, w);
            items_text(out) + pending_text(p1) == pending_text(pending) + word_text(w)
        }),
{
    let (p1, out) = wb_step(lex, pending, w);
    match pending {
        Some(p) => {
            if sp_match_pair(lex.pairs, normalize(p), normalize(w)) is Some {
                let code = sp_match_pair(lex.pairs, normalize(p), normalize(w))->Some_0;
                assert(words_text(seq![p, w]) =~= word_text(p) + word_text(w)) by {
                    assert(words_text(Seq::<Seq<char>>::empty()) =~= Seq::<char>::empty());
                    assert(seq![p, w].drop_first() =~= seq![w]);
                    assert(seq![w].drop_first() =~= Seq::<Seq<char>>::empty());
                    assert(seq![w][0] == w);
                    assert(words_text(seq![w]) =~= word_text(w) + words_text(
                        Seq::<Seq<char>>::empty(),
                    ));
                    assert(seq![p, w][0] == p);
                    assert(words_text(seq![p, w]) =~= word_text(p) + words_text(seq![w]));
                }
                assert(items_text(out) =~= word_text(p) + word_text(w)) by {
                    assert(items_text(Seq::<SpecItem>::empty()) =~= Seq::<char>::empty());
                    assert(out =~= seq![SpecItem::C(code, seq![p, w])]);
                    assert(out.drop_first() =~= Seq::<SpecItem>::empty());
                    assert(out[0] == SpecItem::C(code, seq![p, w]));
                    assert(items_text(out) =~= item_text(out[0]));
                }
                assert(items_text(out) + pending_text(p1) =~= pending_text(pending) + word_text(w));
            } else {
                let head = match sp_match_single(lex.singles, normalize(p)) {
                    Some(code) => SpecItem::C(code, seq![p]),
                    None => SpecItem::T(word_text(p)),
                };
                assert(item_text(head) =~= word_text(p)) by {
                    assert(words_text(Seq::<Seq<char>>::empty()) =~= Seq::<char>::empty());
                    assert(seq![p].drop_first() =~= Seq::<Seq<char>>::empty());
                    assert(seq![p][0] == p);
                    assert(words_text(seq![p]) =~= word_text(p) + words_text(
                        Seq::<Seq<char>>::empty(),
                    ));
                }
                let (np, rest) = wb_step2(lex, w);
                lemma_step2_accounted(lex, w);
                assert(out =~= seq![head] + rest);
                lemma_items_text_append(seq![head], rest);
                assert(items_text(seq![head]) =~= item_text(head)) by {
                    assert(items_text(Seq::<SpecItem>::empty()) =~= Seq::<char>::empty());
                    assert(seq![head].drop_first() =~= Seq::<SpecItem>::empty());
                    assert(seq![head][0] == head);
                }
                assert(items_text(out) + pending_text(p1) =~= pending_text(pending) + word_text(w));
            }
        },
        None => {
            lemma_step2_accounted(lex, w);
            assert(items_text(out) + pending_text(p1) =~= pending_text(pending) + word_text(w));
        },
    }
}

proof fn lemma_step2_accounted(lex: LexModel, w: Seq<char>)
    ensures
        ({
            let (p1, out) = wb_step2(lex, w);
            items_text(out) + pending_text(p1) == word_text(w)
        }),
{
    let (p1, out) = wb_step2(lex, w);
    if sp_could_start(lex.pairs, normalize(w)) {
        assert(items_text(out) =~= Seq::<char>::empty());
        assert(items_text(out) + pending_text(p1) =~= word_text(w));
    } else {
        let it = resolve_alone(lex, w);
        assert(item_text(it) =~= word_text(w)) by {
            match sp_match_single(lex.singles, normalize(w)) {
                Some(_) => {
                    assert(words_text(Seq::<Seq<char>>::empty()) =~= Seq::<char>::empty());
                    assert(seq![w].drop_first() =~= Seq::<Seq<char>>::empty());
                    assert(seq![w][0] == w);
                    assert(words_text(seq![w]) =~= word_text(w) + words_text(
                        Seq::<Seq<char>>::empty(),
                    ));
                },
                None => {},
            }
        }
        assert(out =~= seq![it]);
        assert(out.drop_first() =~= Seq::<SpecItem>::empty());
        assert(items_text(Seq::<SpecItem>::empty()) =~= Seq::<char>::empty());
        assert(items_text(out) =~= item_text(it));
        assert(items_text(out) + pending_text(p1) =~= word_text(w));
    }
}

/// A run of the buffer accounts for exactly its input: the emissions,
/// concatenated (text bodies as typed, a command as the words it consumed),
/// followed by whatever is still held, spell out the incoming word stream
/// verbatim, word for word, each with its trailing space.
pub proof fn lemma_word_stream_accounted(lex: LexModel, pending: Option<Seq<char>>, ws: Seq<
    Seq<char>,
>)
    ensures
        ({
            let (pf, out) = wb_run(lex, pending, ws);
            items_text(out) + pending_text(pf) == pending_text(pending) + words_text(ws)
        }),
    decreases ws.len(),
{
    let (pf, out) = wb_run(lex, pending, ws);
    if ws.len() == 0 {
        assert(items_text(out) =~= Seq::<char>::empty());
        assert(words_text(ws) =~= Seq::<char>::empty());
        assert(items_text(out) + pending_text(pf) =~= pending_text(pending) + words_text(ws));
    } else {
        let (p1, out1) = wb_step(lex, pending, ws[0]);
        let (p2, out2) = wb_run(lex, p1, ws.drop_first());
        lemma_step_accounted(lex, pending, ws[0]);
        lemma_word_stream_accounted(lex, p1, ws.drop_first());
        lemma_items_text_append(out1, out2);
        assert(out == out1 + out2);
        assert(pf == p2);
        assert(words_text(ws) =~= word_text(ws[0]) + words_text(ws.drop_first()));
        assert(items_text(out) + pending_text(pf) =~= pending_text(pending) + words_text(ws));
    }
}

/// Whether one executable emission matches a mathematical one: text for
/// text, code for code.
pub open spec fn item_matches(e: ProcessedItem, s: SpecItem) -> bool {
    match s {
        SpecItem::T(t) => e matches ProcessedItem::Text(x) && x@ == t,
        SpecItem::C(code, _) => e matches ProcessedItem::Command(c) && c@ == code,
    }
}

/// Whether the executable emissions match the mathematical ones, pointwise.
pub open spec fn items_match(exec_items: Seq<ProcessedItem>, spec_items: Seq<SpecItem>) -> bool {
    &&& exec_items.len() == spec_items.len()
    &&& forall|i: int|
        0 <= i < exec_items.len() ==> item_matches(#[trigger] exec_items[i], spec_items[i])
}

proof fn lemma_items_match_push(
    es: Seq<ProcessedItem>,
    ss: Seq<SpecItem>,
    e: ProcessedItem,
    s2: SpecItem,
)
    requires
        items_match(es, ss),
        item_matches(e, s2),
    ensures
        items_match(es.push(e), ss.push(s2)),
{
    assert forall|i: int| 0 <= i < es.push(e).len() implies item_matches(
        #[trigger] es.push(e)[i],
        ss.push(s2)[i],
    ) by {
        if i < es.len() {
            assert(es.push(e)[i] == es[i]);
            assert(ss.push(s2)[i] == ss[i]);
        } else {
            assert(es.push(e)[i] == e);
            assert(ss.push(s2)[i] == s2);
        }
    }
}

proof fn lemma_items_match_concat(
    es: Seq<ProcessedItem>,
    ss1: Seq<SpecItem>,
    ss2: Seq<SpecItem>,
    k: int,
)
    requires
        0 <= k <= es.len(),
        items_match(es.take(k), ss1),
        items_match(es.skip(k), ss2),
    ensures
        items_match(es, ss1 + ss2),
{
    assert(es.len() == (ss1 + ss2).len());
    assert forall|i: int| 0 <= i < es.len() implies item_matches(
        #[trigger] es[i],
        (ss1 + ss2)[i],
    ) by {
        if i < k {
            assert(es.take(k)[i] == es[i]);
            assert((ss1 + ss2)[i] == ss1[i]);
            assert(item_matches(es.take(k)[i], ss1[i]));
        } else {
            assert(es.skip(k)[i - k] == es[i]);
            assert((ss1 + ss2)[i] == ss2[i - k]);
            assert(item_matches(es.skip(k)[i - k], ss2[i - k]));
        }
    }
}

/// The look-ahead buffer: holds at most one word (a possible two-word
/// prefix) and the current session id.
pub struct WordBuffer {
    pending: Option<(String, u64)>,
    session: Option<String>,
}

impl View for WordBuffer {
    type V = WBModel;

    closed spec fn view(&self) -> WBModel {
        WBModel {
            pending: match self.pending {
                Some((ref w, t)) => Some((w@, t as int)),
                None => None,
            },
            session: match self.session {
                Some(ref s) => Some(s@),
                None => None,
            },
        }
    }
}

/// The held word without its timestamp.
pub open spec fn pending_word(m: WBModel) -> Option<Seq<char>> {
    match m.pending {
        Some((w, _)) => Some(w),
        None => None,
    }
}

impl WordBuffer {
    /// A buffer holding nothing, in no session.
    pub fn new() -> (r: WordBuffer)
        ensures
            r@.pending is None,
            r@.session is None,
    {
        WordBuffer { pending: None, session: None }
    }

    /// Feeds one word arriving at `now_ms` in `session`. A new session id
    /// first flushes the held word as text; then the word either completes a
    /// two-word command with the held word, resolves the held word and is
    /// itself held or resolved, exactly as `wb_step` says.
    pub fn process_word(
        &mut self,
        word: String,
        session: &str,
        now_ms: u64,
        lex: &Lexicon,
    ) -> (items: Vec<ProcessedItem>)
        ensures
            ({
                let same = old(self)@.session == Some(session@);
                let pend0: Option<Seq<char>> = if same {
                    pending_word(old(self)@)
                } else {
                    None
                };
                let flushed: Seq<SpecItem> = if !same && pending_word(old(self)@) is Some {
                    seq![SpecItem::T(word_text(pending_word(old(self)@)->Some_0))]
                } else {
                    seq![]
                };
                let (p1, out) = wb_step(lex@, pend0, word@);
                &&& pending_word(final(self)@) == p1
                &&& (final(self)@.pending matches Some((w, t)) ==> t == now_ms)
                &&& final(self)@.session == Some(session@)
                &&& items_match(items@, flushed + out)
            }),
    {
        let ghost m0 = old(self)@;
        let mut items: Vec<ProcessedItem> = Vec::new();
        let same = match &self.session {
            Some(s) => {
                let sc = crate::json::string_to_chars(s.as_str());
                let wc = crate::json::string_to_chars(session);
                crate::json::vec_char_eq(&sc, &wc)
            },
            None => false,
        };
        proof {
            assert(same == (m0.session == Some(session@)));
        }
        let ghost flushed: Seq<SpecItem> = if !same && pending_word(m0) is Some {
            seq![SpecItem::T(word_text(pending_word(m0)->Some_0))]
        } else {
            seq![]
        };
        if !same {
            match self.pending.take() {
                Some((p, _)) => {
                    let mut t = p;
                    t.append(" ");
                    proof {
                        reveal_strlit(" ");
                        assert(" "@ =~= seq![' ']);
                    }
                    items.push(ProcessedItem::Text(t));
                    proof {
                        assert(items@.len() == 1 == flushed.len());
                        assert(item_matches(items@[0], flushed[0]));
                        assert(items_match(items@, flushed));
                    }
                },
                None => {
                    proof {
                        assert(items_match(items@, flushed));
                    }
                },
            }
            self.session = Some(session.to_owned());
        } else {
            proof {
                assert(items_match(items@, flushed));
            }
        }
        let ghost flushed_len = items@.len() as int;
        let held = self.pending.take();
        let ghost pend0: Option<Seq<char>> = if same {
            pending_word(m0)
        } else {
            None
        };
        proof {
            assert(match held {
                Some((ref w, _)) => pend0 == Some(w@),
                None => pend0 is None,
            });
        }
        match held {
            Some((p, _)) => {
                let ghost pw = p@;
                match lex.match_two_words(p.as_str(), word.as_str()) {
                    Some(code) => {
                        let ghost pre = items@;
                        items.push(ProcessedItem::Command(code));
                        proof {
                            let (p1, out) = wb_step(lex@, pend0, word@);
                            assert(out.len() == 1);
                            assert(items@.take(flushed_len) =~= pre);
                            assert(items@.skip(flushed_len) =~= seq![items@[flushed_len]]);
                            assert(item_matches(items@[flushed_len], out[0]));
                            assert(items_match(items@.skip(flushed_len), out));
                            lemma_items_match_concat(items@, flushed, out, flushed_len);
                        }
                    },
                    None => {
                        let ghost head: SpecItem = match sp_match_single(
                            lex@.singles,
                            normalize(pw),
                        ) {
                            Some(c) => SpecItem::C(c, seq![pw]),
                            None => SpecItem::T(word_text(pw)),
                        };
                        let ghost pre = items@;
                        match lex.match_single_word(p.as_str()) {
                            Some(code) => {
                                items.push(ProcessedItem::Command(code));
                            },
                            None => {
                                let mut t = p;
                                t.append(" ");
                                proof {
                                    reveal_strlit(" ");
                                    assert(" "@ =~= seq![' ']);
                                }
                                items.push(ProcessedItem::Text(t));
                            },
                        }
                        proof {
                            assert(items@.take(flushed_len) =~= pre);
                            assert(item_matches(items@[flushed_len], head));
                            assert(items@.skip(flushed_len) =~= seq![items@[flushed_len]]);
                            assert(items_match(items@.skip(flushed_len), seq![head]));
                            lemma_items_match_concat(items@, flushed, seq![head], flushed_len);
                        }
                        let ghost mid_len = items@.len() as int;
                        let ghost before = items@;
                        self.step2(word, now_ms, lex, &mut items);
                        proof {
                            let (np, rest) = wb_step2(lex@, word@);
                            assert(items@.take(mid_len) =~= before);
                            assert(items_match(items@.take(mid_len), flushed + seq![head]));
                            assert(items_match(items@.skip(mid_len), rest));
                            lemma_items_match_concat(
                                items@,
                                flushed + seq![head],
                                rest,
                                mid_len,
                            );
                            let (p1, out) = wb_step(lex@, pend0, word@);
                            assert(out =~= seq![head] + rest);
                            assert((flushed + seq![head]) + rest =~= flushed + out);
                        }
                    },
                }
            },
            None => {
                let ghost before = items@;
                self.step2(word, now_ms, lex, &mut items);
                proof {
                    let (np, rest) = wb_step2(lex@, word@);
                    assert(items@.take(flushed_len) =~= before);
                    assert(items_match(items@.take(flushed_len), flushed));
                    assert(items_match(items@.skip(flushed_len), rest));
                    lemma_items_match_concat(items@, flushed, rest, flushed_len);
                }
            },
        }
        items
    }

    /// Holds or resolves a word that has no partner waiting.
    fn step2(&mut self, word: String, now_ms: u64, lex: &Lexicon, items: &mut Vec<ProcessedItem>)
        requires
            old(self)@.pending is None,
        ensures
            ({
                let (p1, out) = wb_step2(lex@, word@);
                &&& pending_word(final(self)@) == p1
                &&& (final(self)@.pending matches Some((w, t)) ==> t == now_ms)
                &&& final(self)@.session == old(self)@.session
                &&& final(items)@.len() == old(items)@.len() + out.len()
                &&& forall|i: int|
                    0 <= i < old(items)@.len() ==> final(items)@[i] == #[trigger] old(items)@[i]
                &&& items_match(final(items)@.skip(old(items)@.len() as int), out)
            }),
    {
        if lex.could_start_two_word_command(word.as_str()) {
            self.pending = Some((word, now_ms));
            proof {
                assert(items@.skip(old(items)@.len() as int) =~= Seq::<ProcessedItem>::empty());
            }
        } else {
            match lex.match_single_word(word.as_str()) {
                Some(code) => {
                    items.push(ProcessedItem::Command(code));
                },
                None => {
                    let mut t = word;
                    t.append(" ");
                    proof {
                        reveal_strlit(" ");
                            assert(" "@ =~= seq![' ']);
                    }
                    items.push(ProcessedItem::Text(t));
                },
            }
            proof {
                assert(items@.skip(old(items)@.len() as int) =~= seq![
                    items@[items@.len() - 1],
                ]);
            }
        }
    }

    /// Resolves the held word if it has waited at least the look-ahead
    /// window: a one-word command if it matches, else text.
    pub fn flush_pending(&mut self, now_ms: u64, lex: &Lexicon) -> (items: Vec<ProcessedItem>)
        ensures
            final(self)@.session == old(self)@.session,
            ({
                let due = match old(self)@.pending {
                    Some((w, t)) => now_ms >= t + LOOKAHEAD_MS,
                    None => false,
                };
                if due {
                    &&& final(self)@.pending is None
                    &&& items_match(
                        items@,
                        seq![resolve_alone(lex@, pending_word(old(self)@)->Some_0)],
                    )
                } else {
                    &&& *final(self) == *old(self)
                    &&& items@.len() == 0
                }
            }),
    {
        let due = match &self.pending {
            Some((_, t)) => now_ms >= *t && now_ms - *t >= LOOKAHEAD_MS,
            None => false,
        };
        let mut items: Vec<ProcessedItem> = Vec::new();
        if !due {
            return items;
        }
        match self.pending.take() {
            Some((p, _)) => {
                match lex.match_single_word(p.as_str()) {
                    Some(code) => {
                        items.push(ProcessedItem::Command(code));
                    },
                    None => {
                        let mut t = p;
                        t.append(" ");
                        proof {
                            reveal_strlit(" ");
                            assert(" "@ =~= seq![' ']);
                        }
                        items.push(ProcessedItem::Text(t));
                    },
                }
            },
            None => {},
        }
        items
    }

    /// Forces an immediate flush of the held word and clears the session.
    pub fn reset(&mut self, lex: &Lexicon) -> (items: Vec<ProcessedItem>)
        ensures
            final(self)@.pending is None,
            final(self)@.session is None,
            match pending_word(old(self)@) {
                Some(w) => items_match(items@, seq![resolve_alone(lex@, w)]),
                None => items@.len() == 0,
            },
    {
        let mut items: Vec<ProcessedItem> = Vec::new();
        match self.pending.take() {
            Some((p, _)) => {
                match lex.match_single_word(p.as_str()) {
                    Some(code) => {
                        items.push(ProcessedItem::Command(code));
                    },
                    None => {
                        let mut t = p;
                        t.append(" ");
                        proof {
                            reveal_strlit(" ");
                            assert(" "@ =~= seq![' ']);
                        }
                        items.push(ProcessedItem::Text(t));
                    },
                }
            },
            None => {},
        }
        self.session = None;
        items
    }
}

} // verus!
