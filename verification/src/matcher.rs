//! The command lexicon and phrase matching: ASCII-case-insensitive,
//! terminal punctuation stripped, whitespace collapsed. Holds the one- and
//! two-word predicates the look-ahead buffer consults, and the mid-text scan
//! that finds a command phrase inside a whole utterance.

use vstd::prelude::*;
use crate::json::{chars_to_string, string_to_chars, vec_char_eq};

verus! {

/// Lower-cases an ASCII letter; anything else passes through.
pub open spec fn lower_char(c: char) -> char {
    if 65 <= (c as u32) && (c as u32) <= 90 {
        (((c as u32) + 32) as u8) as char
    } else {
        c
    }
}

/// ASCII-lower-cases a string.
pub open spec fn lower(s: Seq<char>) -> Seq<char> {
    Seq::new(s.len(), |i: int| lower_char(s[i]))
}

/// Terminal punctuation that matching ignores.
pub open spec fn is_term_punct(c: char) -> bool {
    c == '.' || c == ',' || c == '!' || c == '?' || c == ';' || c == ':'
}

/// Strips trailing terminal punctuation.
pub open spec fn strip_punct(s: Seq<char>) -> Seq<char>
    decreases s.len(),
{
    if s.len() > 0 && is_term_punct(s.last()) {
        strip_punct(s.drop_last())
    } else {
        s
    }
}

/// The form a word is matched in.
pub open spec fn normalize(s: Seq<char>) -> Seq<char> {
    strip_punct(lower(s))
}

fn lower_char_x(c: char) -> (r: char)
    ensures
        r == lower_char(c),
{
    let u = c as u32;
    if 65 <= u && u <= 90 {
        ((u + 32) as u8) as char
    } else {
        c
    }
}

fn is_term_punct_x(c: char) -> (r: bool)
    ensures
        r == is_term_punct(c),
{
    c == '.' || c == ',' || c == '!' || c == '?' || c == ';' || c == ':'
}

/// The matched form of a word: ASCII lower case, trailing punctuation gone.
pub fn normalize_chars(v: &Vec<char>) -> (r: Vec<char>)
    ensures
        r@ == normalize(v@),
{
    let mut low: Vec<char> = Vec::new();
    let mut i: usize = 0;
    while i < v.len()
        invariant
            i <= v@.len(),
            low@.len() == i,
            forall|j: int| 0 <= j < i ==> low@[j] == lower_char(v@[j]),
        decreases v@.len() - i,
    {
        low.push(lower_char_x(v[i]));
        i = i + 1;
    }
    proof {
        assert(low@ =~= lower(v@));
    }
    let mut end: usize = low.len();
    proof {
        assert(low@.take(low@.len() as int) =~= low@);
    }
    while end > 0 && is_term_punct_x(low[end - 1])
        invariant
            end <= low@.len(),
            strip_punct(low@) == strip_punct(low@.take(end as int)),
        decreases end,
    {
        proof {
            assert(low@.take(end as int).last() == low@[end - 1]);
            assert(low@.take(end as int).drop_last() =~= low@.take((end - 1) as int));
        }
        end = end - 1;
    }
    let mut out: Vec<char> = Vec::new();
    let mut i: usize = 0;
    while i < end
        invariant
            i <= end <= low@.len(),
            out@ == low@.take(end as int).take(i as int),
        decreases end - i,
    {
        out.push(low[i]);
        proof {
            assert(low@.take(end as int).take((i + 1) as int) =~= low@.take(end as int).take(
                i as int,
            ).push(low@[i as int]));
        }
        i = i + 1;
    }
    proof {
        assert(low@.take(end as int).take(end as int) =~= low@.take(end as int));
        assert(low@.take(end as int).len() > 0 ==> !is_term_punct(low@.take(end as int).last()));
        assert(strip_punct(low@.take(end as int)) =~= low@.take(end as int));
    }
    out
}

/// The matched form of a word, on strings.
pub fn normalize_word(s: &str) -> (r: String)
    ensures
        r@ == normalize(s@),
{
    let v = string_to_chars(s);
    let n = normalize_chars(&v);
    chars_to_string(&n)
}

/// The mathematical content of the lexicon: normalized phrase words mapped
/// to command codes.
#[verifier::ext_equal]
pub ghost struct LexModel {
    pub singles: Seq<(Seq<char>, Seq<char>)>,
    pub pairs: Seq<(Seq<char>, Seq<char>, Seq<char>)>,
}

/// The command lexicon: one- and two-word phrases, each naming a command
/// code. Keys are stored normalized.
pub struct Lexicon {
    singles: Vec<(Vec<char>, Vec<char>)>,
    pairs: Vec<(Vec<char>, Vec<char>, Vec<char>)>,
}

impl View for Lexicon {
    type V = LexModel;

    closed spec fn view(&self) -> LexModel {
        LexModel {
            singles: Seq::new(self.singles@.len(), |i: int| (self.singles@[i].0@, self.singles@[i].1@)),
            pairs: Seq::new(
                self.pairs@.len(),
                |i: int| (self.pairs@[i].0@, self.pairs@[i].1@, self.pairs@[i].2@),
            ),
        }
    }
}

/// The code of the first single-word phrase equal to `w` (already
/// normalized), if any.
pub open spec fn sp_match_single(singles: Seq<(Seq<char>, Seq<char>)>, w: Seq<char>) -> Option<
    Seq<char>,
>
    decreases singles.len(),
{
    if singles.len() == 0 {
        None
    } else if singles[0].0 == w {
        Some(singles[0].1)
    } else {
        sp_match_single(singles.drop_first(), w)
    }
}

/// The code of the first two-word phrase equal to `(w1, w2)` (already
/// normalized), if any.
pub open spec fn sp_match_pair(
    pairs: Seq<(Seq<char>, Seq<char>, Seq<char>)>,
    w1: Seq<char>,
    w2: Seq<char>,
) -> Option<Seq<char>>
    decreases pairs.len(),
{
    if pairs.len() == 0 {
        None
    } else if pairs[0].0 == w1 && pairs[0].1 == w2 {
        Some(pairs[0].2)
    } else {
        sp_match_pair(pairs.drop_first(), w1, w2)
    }
}

/// Whether some two-word phrase starts with `w` (already normalized).
pub open spec fn sp_could_start(pairs: Seq<(Seq<char>, Seq<char>, Seq<char>)>, w: Seq<char>) -> bool
    decreases pairs.len(),
{
    if pairs.len() == 0 {
        false
    } else if pairs[0].0 == w {
        true
    } else {
        sp_could_start(pairs.drop_first(), w)
    }
}

impl Lexicon {
    /// An empty lexicon: nothing matches.
    pub fn new() -> (r: Lexicon)
        ensures
            r@.singles.len() == 0,
            r@.pairs.len() == 0,
    {
        let r = Lexicon { singles: Vec::new(), pairs: Vec::new() };
        proof {
            assert(r@.singles =~= Seq::<(Seq<char>, Seq<char>)>::empty());
            assert(r@.pairs =~= Seq::<(Seq<char>, Seq<char>, Seq<char>)>::empty());
        }
        r
    }

    /// Adds a one-word phrase for `code`; the word is stored normalized.
    pub fn add_single(&mut self, word: &str, code: &str)
        ensures
            final(self)@.singles == old(self)@.singles.push((normalize(word@), code@)),
            final(self)@.pairs == old(self)@.pairs,
    {
        let w = string_to_chars(normalize_word(word).as_str());
        let c = string_to_chars(code);
        self.singles.push((w, c));
        proof {
            assert(self@.singles =~= old(self)@.singles.push((normalize(word@), code@)));
            assert(self@.pairs =~= old(self)@.pairs);
        }
    }

    /// Adds a two-word phrase for `code`; the words are stored normalized.
    pub fn add_pair(&mut self, first: &str, second: &str, code: &str)
        ensures
            final(self)@.pairs == old(self)@.pairs.push(
                (normalize(first@), normalize(second@), code@),
            ),
            final(self)@.singles == old(self)@.singles,
    {
        let w1 = string_to_chars(normalize_word(first).as_str());
        let w2 = string_to_chars(normalize_word(second).as_str());
        let c = string_to_chars(code);
        self.pairs.push((w1, w2, c));
        proof {
            assert(self@.pairs =~= old(self)@.pairs.push(
                (normalize(first@), normalize(second@), code@),
            ));
            assert(self@.singles =~= old(self)@.singles);
        }
    }

    /// The command a single word names, if any.
    pub fn match_single_word(&self, w: &str) -> (r: Option<String>)
        ensures
            match r {
                Some(code) => sp_match_single(self@.singles, normalize(w@)) == Some(code@),
                None => sp_match_single(self@.singles, normalize(w@)) is None,
            },
    {
        let key = string_to_chars(normalize_word(w).as_str());
        let mut i: usize = 0;
        proof {
            assert(self@.singles.skip(0) =~= self@.singles);
        }
        loop
            invariant
                i <= self.singles@.len(),
                sp_match_single(self@.singles, key@) == sp_match_single(
                    self@.singles.skip(i as int),
                    key@,
                ),
                key@ == normalize(w@),
            decreases self.singles@.len() - i,
        {
            if i >= self.singles.len() {
                proof {
                    assert(self@.singles.skip(i as int).len() == 0);
                }
                return None;
            }
            proof {
                assert(self@.singles.skip(i as int)[0] == (
                    self.singles@[i as int].0@,
                    self.singles@[i as int].1@,
                ));
                assert(self@.singles.skip(i as int).drop_first() =~= self@.singles.skip(
                    (i + 1) as int,
                ));
            }
            if vec_char_eq(&self.singles[i].0, &key) {
                return Some(chars_to_string(&self.singles[i].1));
            }
            i = i + 1;
        }
    }

    /// The command a pair of words names, if any.
    pub fn match_two_words(&self, w1: &str, w2: &str) -> (r: Option<String>)
        ensures
            match r {
                Some(code) => sp_match_pair(self@.pairs, normalize(w1@), normalize(w2@)) == Some(
                    code@,
                ),
                None => sp_match_pair(self@.pairs, normalize(w1@), normalize(w2@)) is None,
            },
    {
        let k1 = string_to_chars(normalize_word(w1).as_str());
        let k2 = string_to_chars(normalize_word(w2).as_str());
        let mut i: usize = 0;
        proof {
            assert(self@.pairs.skip(0) =~= self@.pairs);
        }
        loop
            invariant
                i <= self.pairs@.len(),
                sp_match_pair(self@.pairs, k1@, k2@) == sp_match_pair(
                    self@.pairs.skip(i as int),
                    k1@,
                    k2@,
                ),
                k1@ == normalize(w1@),
                k2@ == normalize(w2@),
            decreases self.pairs@.len() - i,
        {
            if i >= self.pairs.len() {
                proof {
                    assert(self@.pairs.skip(i as int).len() == 0);
                }
                return None;
            }
            proof {
                assert(self@.pairs.skip(i as int)[0] == (
                    self.pairs@[i as int].0@,
                    self.pairs@[i as int].1@,
                    self.pairs@[i as int].2@,
                ));
                assert(self@.pairs.skip(i as int).drop_first() =~= self@.pairs.skip((i + 1) as int));
            }
            if vec_char_eq(&self.pairs[i].0, &k1) && vec_char_eq(&self.pairs[i].1, &k2) {
                return Some(chars_to_string(&self.pairs[i].2));
            }
            i = i + 1;
        }
    }

    /// Whether a two-word phrase could start with this word.
    pub fn could_start_two_word_command(&self, w: &str) -> (r: bool)
        ensures
            r == sp_could_start(self@.pairs, normalize(w@)),
    {
        let key = string_to_chars(normalize_word(w).as_str());
        let mut i: usize = 0;
        proof {
            assert(self@.pairs.skip(0) =~= self@.pairs);
        }
        loop
            invariant
                i <= self.pairs@.len(),
                sp_could_start(self@.pairs, key@) == sp_could_start(
                    self@.pairs.skip(i as int),
                    key@,
                ),
                key@ == normalize(w@),
            decreases self.pairs@.len() - i,
        {
            if i >= self.pairs.len() {
                proof {
                    assert(self@.pairs.skip(i as int).len() == 0);
                }
                return false;
            }
            proof {
                assert(self@.pairs.skip(i as int)[0] == (
                    self.pairs@[i as int].0@,
                    self.pairs@[i as int].1@,
                    self.pairs@[i as int].2@,
                ));
                assert(self@.pairs.skip(i as int).drop_first() =~= self@.pairs.skip((i + 1) as int));
            }
            if vec_char_eq(&self.pairs[i].0, &key) {
                return true;
            }
            i = i + 1;
        }
    }
}

/// Length of the word starting at the head of `s` (zero at a space or end).
pub open spec fn sp_word_len(s: Seq<char>) -> int
    decreases s.len(),
{
    if s.len() == 0 || s[0] == ' ' {
        0
    } else {
        1 + sp_word_len(s.drop_first())
    }
}

proof fn lemma_sp_word_len(s: Seq<char>)
    ensures
        0 <= sp_word_len(s) <= s.len(),
    decreases s.len(),
{
    if s.len() > 0 && s[0] != ' ' {
        lemma_sp_word_len(s.drop_first());
    }
}

/// The words of a text, split on spaces, empty runs dropped.
pub open spec fn sp_words(s: Seq<char>) -> Seq<Seq<char>>
    decreases s.len(),
    via sp_words_dec
{
    if s.len() == 0 {
        seq![]
    } else if s[0] == ' ' {
        sp_words(s.drop_first())
    } else {
        seq![s.take(sp_word_len(s))] + sp_words(s.skip(sp_word_len(s)))
    }
}

#[via_fn]
proof fn sp_words_dec(s: Seq<char>) {
    lemma_sp_word_len(s);
    if s.len() > 0 && s[0] != ' ' {
        lemma_sp_word_len(s.drop_first());
    }
}

/// The words joined back with single spaces.
pub open spec fn sp_join(words: Seq<Seq<char>>) -> Seq<char>
    decreases words.len(),
{
    if words.len() == 0 {
        seq![]
    } else if words.len() == 1 {
        words[0]
    } else {
        words[0] + seq![' '] + sp_join(words.drop_first())
    }
}

proof fn lemma_join_snoc(words: Seq<Seq<char>>, w: Seq<char>)
    ensures
        sp_join(words.push(w)) == if words.len() == 0 {
            w
        } else {
            sp_join(words) + seq![' '] + w
        },
    decreases words.len(),
{
    if words.len() == 0 {
        assert(words.push(w)[0] == w);
        assert(sp_join(words.push(w)) == w);
    } else {
        assert(words.push(w)[0] == words[0]);
        assert(words.push(w).drop_first() =~= words.drop_first().push(w));
        lemma_join_snoc(words.drop_first(), w);
        if words.len() == 1 {
            assert(sp_join(words.push(w)) =~= sp_join(words) + seq![' '] + w);
        } else {
            assert(sp_join(words.push(w)) =~= sp_join(words) + seq![' '] + w);
        }
    }
}

/// Where the first command phrase sits in the word list: its index, how many
/// words it spans (two-word matches take precedence at each position), and
/// its code.
pub open spec fn sp_scan(words: Seq<Seq<char>>, lex: LexModel) -> Option<(int, int, Seq<char>)>
    decreases words.len(),
{
    if words.len() == 0 {
        None
    } else if words.len() >= 2 && sp_match_pair(
        lex.pairs,
        normalize(words[0]),
        normalize(words[1]),
    ) is Some {
        Some((0, 2, sp_match_pair(lex.pairs, normalize(words[0]), normalize(words[1]))->Some_0))
    } else if sp_match_single(lex.singles, normalize(words[0])) is Some {
        Some((0, 1, sp_match_single(lex.singles, normalize(words[0]))->Some_0))
    } else {
        match sp_scan(words.drop_first(), lex) {
            Some((i, a, c)) => Some((i + 1, a, c)),
            None => None,
        }
    }
}

/// One piece of a text that holds a command phrase inside prose.
#[derive(Debug, Clone)]
pub enum TextSegment {
    /// Prose to type as it stands.
    Text(String),
    /// The code of the matched command phrase.
    Command(String),
}

/// What a whole received text amounts to.
#[derive(Debug, Clone)]
pub enum MatchResult {
    /// The whole text is one command phrase: execute it, type nothing.
    ExactCommand(String),
    /// A command phrase sits inside prose: process the segments in order.
    MidTextCommand(Vec<TextSegment>),
    /// No command phrase: type the text verbatim.
    NoMatch,
}

/// Splits a text into its words.
pub fn split_words(text: &str) -> (r: Vec<String>)
    ensures
        r@.len() == sp_words(text@).len(),
        forall|i: int| 0 <= i < r@.len() ==> r@[i]@ == sp_words(text@)[i],
{
    let v = string_to_chars(text);
    let n = v.len();
    let mut out: Vec<String> = Vec::new();
    let mut i: usize = 0;
    proof {
        assert(v@.skip(0) =~= v@);
        assert(Seq::<Seq<char>>::empty() + sp_words(v@) =~= sp_words(v@));
    }
    loop
        invariant
            i <= n == v@.len(),
            v@ == text@,
            sp_words(text@) == Seq::new(out@.len(), |k: int| out@[k]@) + sp_words(v@.skip(i as int)),
        decreases v@.len() - i,
    {
        if i >= n {
            proof {
                assert(v@.skip(i as int).len() == 0);
                assert(sp_words(v@.skip(i as int)) =~= Seq::<Seq<char>>::empty());
                assert(sp_words(text@) =~= Seq::new(out@.len(), |k: int| out@[k]@));
            }
            return out;
        }
        proof {
            assert(v@.skip(i as int)[0] == v@[i as int]);
        }
        if v[i] == ' ' {
            proof {
                assert(v@.skip(i as int).drop_first() =~= v@.skip((i + 1) as int));
            }
            i = i + 1;
        } else {
            let start = i;
            let mut w: Vec<char> = Vec::new();
            proof {
                lemma_sp_word_len(v@.skip(start as int));
            }
            while i < n && v[i] != ' '
                invariant
                    start <= i <= n == v@.len(),
                    w@ == v@.skip(start as int).take((i - start) as int),
                    sp_word_len(v@.skip(start as int)) == (i - start) + sp_word_len(
                        v@.skip(i as int),
                    ),
                decreases v@.len() - i,
                {
                    proof {
                        assert(v@.skip(i as int)[0] == v@[i as int]);
                        assert(v@.skip(i as int).drop_first() =~= v@.skip((i + 1) as int));
                        assert(v@.skip(start as int).take(((i + 1) - start) as int) =~= v@.skip(
                            start as int,
                        ).take((i - start) as int).push(v@[i as int]));
                    }
                    w.push(v[i]);
                    i = i + 1;
                }
            proof {
                if i < n {
                    assert(v@.skip(i as int)[0] == v@[i as int]);
                }
                assert(sp_word_len(v@.skip(i as int)) == 0);
                assert(sp_word_len(v@.skip(start as int)) == i - start);
                assert(v@.skip(start as int).skip((i - start) as int) =~= v@.skip(i as int));
                assert(sp_words(v@.skip(start as int)) =~= seq![w@] + sp_words(v@.skip(i as int)));
            }
            let ghost old_out = out@;
            out.push(chars_to_string(&w));
            proof {
                assert(Seq::new(out@.len(), |k: int| out@[k]@) =~= Seq::new(
                    old_out.len(),
                    |k: int| old_out[k]@,
                ).push(w@));
                assert(Seq::new(old_out.len(), |k: int| old_out[k]@).push(w@) + sp_words(
                    v@.skip(i as int),
                ) =~= Seq::new(old_out.len(), |k: int| old_out[k]@) + (seq![w@] + sp_words(
                    v@.skip(i as int),
                )));
            }
        }
    }
}

/// Joins words with single spaces.
fn join_words(words: &Vec<String>, from: usize, to: usize) -> (r: String)
    requires
        from <= to <= words@.len(),
    ensures
        r@ == sp_join(Seq::new((to - from) as nat, |k: int| words@[from + k]@)),
{
    let mut acc = String::new();
    let mut i: usize = from;
    proof {
        reveal_strlit(" ");
        assert(Seq::new(0, |k: int| words@[from + k]@) =~= Seq::<Seq<char>>::empty());
    }
    while i < to
        invariant
            from <= i <= to <= words@.len(),
            acc@ == sp_join(Seq::new((i - from) as nat, |k: int| words@[from + k]@)),
        decreases to - i,
    {
        if i > from {
            acc.append(" ");
        }
        acc.append(words[i].as_str());
        proof {
            reveal_strlit(" ");
            let prev = Seq::new((i - from) as nat, |k: int| words@[from + k]@);
            let cur = Seq::new((i + 1 - from) as nat, |k: int| words@[from + k]@);
            assert(cur =~= prev.push(words@[i as int]@));
            lemma_join_snoc(prev, words@[i as int]@);
        }
        i = i + 1;
    }
    acc
}

/// Looks for a command phrase in a whole received text: the whole text, a
/// phrase inside prose, or nothing. Two-word phrases win over one-word
/// phrases at each position; the earliest match wins; matching is
/// case-insensitive with terminal punctuation ignored and whitespace
/// collapsed.
pub fn match_with_context(lex: &Lexicon, text: &str) -> (r: MatchResult)
    ensures
        ({
            let words = sp_words(text@);
            match r {
                MatchResult::NoMatch => sp_scan(words, lex@) is None,
                MatchResult::ExactCommand(code) => (sp_scan(words, lex@) matches Some((i, a, c))
                    && i == 0 && a == words.len() && c == code@),
                MatchResult::MidTextCommand(segs) => (sp_scan(words, lex@) matches Some((i, a, c))
                    && {
                    let px: int = if i > 0 {
                        1
                    } else {
                        0
                    };
                    let sx: int = if i + a < words.len() {
                        1
                    } else {
                        0
                    };
                    &&& !(i == 0 && a == words.len())
                    &&& segs@.len() == px + 1 + sx
                    &&& (i > 0 ==> (segs@[0] matches TextSegment::Text(t) && t@ == sp_join(
                        words.take(i),
                    ) + seq![' ']))
                    &&& (segs@[px] matches TextSegment::Command(cc) && cc@ == c)
                    &&& (i + a < words.len() ==> (segs@[px + 1] matches TextSegment::Text(t) && t@
                        == seq![' '] + sp_join(words.skip(i + a))))
                }),
            }
        }),
{
    let words = split_words(text);
    let n = words.len();
    let mut i: usize = 0;
    proof {
        assert(sp_words(text@).skip(0) =~= sp_words(text@));
    }
    loop
        invariant
            i <= n == words@.len(),
            words@.len() == sp_words(text@).len(),
            forall|k: int| 0 <= k < words@.len() ==> words@[k]@ == sp_words(text@)[k],
            match sp_scan(sp_words(text@).skip(i as int), lex@) {
                Some((j, a, c)) => sp_scan(sp_words(text@), lex@) == Some(
                    (i + j, a, c),
                ),
                None => sp_scan(sp_words(text@), lex@) is None,
            },
        decreases n - i,
    {
        let ghost ws = sp_words(text@);
        if i >= n {
            proof {
                assert(ws.skip(i as int).len() == 0);
            }
            return MatchResult::NoMatch;
        }
        proof {
            assert(ws.skip(i as int)[0] == ws[i as int]);
            assert(ws.skip(i as int).drop_first() =~= ws.skip((i + 1) as int));
            if i + 1 < n {
                assert(ws.skip(i as int)[1] == ws[(i + 1) as int]);
            }
        }
        let hit: Option<(String, usize)> = if i + 1 < n {
            match lex.match_two_words(words[i].as_str(), words[i + 1].as_str()) {
                Some(code) => Some((code, 2)),
                None => match lex.match_single_word(words[i].as_str()) {
                    Some(code) => Some((code, 1)),
                    None => None,
                },
            }
        } else {
            match lex.match_single_word(words[i].as_str()) {
                Some(code) => Some((code, 1)),
                None => None,
            }
        };
        match hit {
            Some((code, arity)) => {
                if i == 0 && i + arity == n {
                    return MatchResult::ExactCommand(code);
                }
                let mut segs: Vec<TextSegment> = Vec::new();
                if i > 0 {
                    let mut prefix = join_words(&words, 0, i);
                    prefix.append(" ");
                    proof {
                        reveal_strlit(" ");
                        assert(Seq::new(i as nat, |k: int| words@[0 + k]@) =~= ws.take(i as int));
                    }
                    segs.push(TextSegment::Text(prefix));
                }
                segs.push(TextSegment::Command(code));
                if i + arity < n {
                    let suffix_words = join_words(&words, i + arity, n);
                    let mut suffix = String::new();
                    suffix.append(" ");
                    suffix.append(suffix_words.as_str());
                    proof {
                        reveal_strlit(" ");
                        assert(Seq::new((n - (i + arity)) as nat, |k: int| words@[i + arity + k]@)
                            =~= ws.skip((i + arity) as int));
                    }
                    segs.push(TextSegment::Text(suffix));
                }
                return MatchResult::MidTextCommand(segs);
            },
            None => {},
        }
        i = i + 1;
    }
}

/// Drops trailing spaces.
pub open spec fn strip_trailing_spaces(s: Seq<char>) -> Seq<char>
    decreases s.len(),
{
    if s.len() > 0 && s.last() == ' ' {
        strip_trailing_spaces(s.drop_last())
    } else {
        s
    }
}

/// Drops leading spaces.
pub open spec fn strip_leading_spaces(s: Seq<char>) -> Seq<char>
    decreases s.len(),
{
    if s.len() > 0 && s[0] == ' ' {
        strip_leading_spaces(s.drop_first())
    } else {
        s
    }
}

/// A string with its leading and trailing spaces dropped.
pub open spec fn trim_spaces(s: Seq<char>) -> Seq<char> {
    strip_leading_spaces(strip_trailing_spaces(s))
}

/// Trims leading and trailing spaces off a string.
pub fn trim_spaces_str(s: &str) -> (r: String)
    ensures
        r@ == trim_spaces(s@),
{
    let v = string_to_chars(s);
    let mut end: usize = v.len();
    proof {
        assert(v@.take(v@.len() as int) =~= v@);
    }
    while end > 0 && v[end - 1] == ' '
        invariant
            end <= v@.len(),
            strip_trailing_spaces(v@) == strip_trailing_spaces(v@.take(end as int)),
        decreases end,
    {
        proof {
            assert(v@.take(end as int).last() == v@[end - 1]);
            assert(v@.take(end as int).drop_last() =~= v@.take((end - 1) as int));
        }
        end = end - 1;
    }
    proof {
        assert(v@.take(end as int).len() > 0 ==> v@.take(end as int).last() == v@[end - 1]);
        assert(strip_trailing_spaces(v@.take(end as int)) =~= v@.take(end as int));
    }
    let ghost st = v@.take(end as int);
    let mut start: usize = 0;
    proof {
        assert(st.skip(0) =~= st);
    }
    while start < end && v[start] == ' '
        invariant
            start <= end <= v@.len(),
            st == v@.take(end as int),
            strip_leading_spaces(st) == strip_leading_spaces(st.skip(start as int)),
        decreases end - start,
    {
        proof {
            assert(st.skip(start as int)[0] == v@[start as int]);
            assert(st.skip(start as int).drop_first() =~= st.skip((start + 1) as int));
        }
        start = start + 1;
    }
    proof {
        assert(st.skip(start as int).len() > 0 ==> st.skip(start as int)[0] == v@[start as int]);
        assert(strip_leading_spaces(st.skip(start as int)) =~= st.skip(start as int));
    }
    let mut out: Vec<char> = Vec::new();
    let mut i: usize = start;
    while i < end
        invariant
            start <= i <= end <= v@.len(),
            st == v@.take(end as int),
            out@ == st.skip(start as int).take((i - start) as int),
        decreases end - i,
    {
        out.push(v[i]);
        proof {
            assert(st.skip(start as int).take(((i + 1) - start) as int) =~= st.skip(
                start as int,
            ).take((i - start) as int).push(v@[i as int]));
        }
        i = i + 1;
    }
    proof {
        assert(st.skip(start as int).take((end - start) as int) =~= st.skip(start as int));
    }
    chars_to_string(&out)
}

} // verus!
