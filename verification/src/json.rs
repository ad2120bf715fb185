//! The JSON subset the wire envelope is written in: one flat object whose
//! values are strings or unsigned 64-bit numbers.
//!
//! The encoder emits the compact form, snake_case keys, strings escaped with
//! `\"`, `\\` and `\u00XX` for control characters. The parser reads that
//! shape back with keys in any order and insignificant whitespace between
//! tokens; the common two-character escapes and `\u00XX` are accepted.
//! Anything else is malformed and rejected.

use vstd::prelude::*;
use vstd::string::*;

verus! {

/// Largest value a JSON number may hold here: an unsigned 64-bit integer.
pub const MAX_JSON_UINT: u64 = 18446744073709551615;

/// A decimal digit.
pub open spec fn is_digit(c: char) -> bool {
    48 <= (c as u32) <= 57
}

/// Value of a decimal digit.
pub open spec fn digit_val(c: char) -> int {
    (c as u32) - 48
}

/// The character of a decimal digit.
pub open spec fn digit_char(d: int) -> char
    recommends
        0 <= d < 10,
{
    ((48 + d) as u8) as char
}

/// The character of a hex digit, lower case.
pub open spec fn hex_char(d: int) -> char
    recommends
        0 <= d < 16,
{
    if d < 10 {
        ((48 + d) as u8) as char
    } else {
        ((87 + d) as u8) as char
    }
}

/// Value of a hex digit, either case; -1 when `c` is no hex digit.
pub open spec fn hex_val(c: char) -> int {
    if 48 <= (c as u32) <= 57 {
        (c as u32) - 48
    } else if 97 <= (c as u32) <= 102 {
        (c as u32) - 87
    } else if 65 <= (c as u32) <= 70 {
        (c as u32) - 55
    } else {
        -1
    }
}

/// A parsed JSON value: a string or an unsigned number.
#[verifier::ext_equal]
pub ghost enum JVal {
    S(Seq<char>),
    N(int),
}

/// A value the encoder can write: numbers must fit 64 bits.
pub open spec fn jval_wf(v: JVal) -> bool {
    match v {
        JVal::S(_) => true,
        JVal::N(n) => 0 <= n <= MAX_JSON_UINT,
    }
}

/// How one character is written inside a JSON string.
pub open spec fn esc_char(c: char) -> Seq<char> {
    if c == '"' {
        seq!['\\', '"']
    } else if c == '\\' {
        seq!['\\', '\\']
    } else if (c as u32) < 32 {
        seq!['\\', 'u', '0', '0', hex_char(((c as u32) / 16) as int), hex_char(((c as u32) % 16) as int)]
    } else {
        seq![c]
    }
}

/// A string body, escaped.
pub open spec fn esc(s: Seq<char>) -> Seq<char>
    decreases s.len(),
{
    if s.len() == 0 {
        seq![]
    } else {
        esc_char(s[0]) + esc(s.drop_first())
    }
}

/// The character a two-character escape stands for.
pub open spec fn unesc_char(c: char) -> Option<char> {
    if c == '"' {
        Some('"')
    } else if c == '\\' {
        Some('\\')
    } else if c == '/' {
        Some('/')
    } else if c == 'n' {
        Some('\n')
    } else if c == 't' {
        Some('\t')
    } else if c == 'r' {
        Some('\r')
    } else if c == 'b' {
        Some('\u{8}')
    } else if c == 'f' {
        Some('\u{c}')
    } else {
        None
    }
}

/// Insignificant whitespace between tokens.
pub open spec fn is_ws(c: char) -> bool {
    c == ' ' || c == '\t' || c == '\n' || c == '\r'
}

/// Drops leading insignificant whitespace.
pub open spec fn skip_ws(s: Seq<char>) -> Seq<char>
    decreases s.len(),
{
    if s.len() > 0 && is_ws(s[0]) {
        skip_ws(s.drop_first())
    } else {
        s
    }
}

/// Nothing but insignificant whitespace.
pub open spec fn all_ws(s: Seq<char>) -> bool {
    skip_ws(s).len() == 0
}

proof fn lemma_skip_ws_le(s: Seq<char>)
    ensures
        skip_ws(s).len() <= s.len(),
    decreases s.len(),
{
    if s.len() > 0 && is_ws(s[0]) {
        lemma_skip_ws_le(s.drop_first());
    }
}

/// Reads a string body up to its closing quote; `acc` holds what is read so
/// far. Returns the string and the remainder after the quote.
pub open spec fn sp_str_body(s: Seq<char>, acc: Seq<char>) -> Option<(Seq<char>, Seq<char>)>
    decreases s.len(),
{
    if s.len() == 0 {
        None
    } else if s[0] == '"' {
        Some((acc, s.drop_first()))
    } else if s[0] == '\\' {
        if s.len() < 2 {
            None
        } else if s[1] == 'u' {
            if s.len() >= 6 && s[2] == '0' && s[3] == '0' && hex_val(s[4]) >= 0 && hex_val(s[5])
                >= 0 {
                sp_str_body(
                    s.skip(6),
                    acc.push((((hex_val(s[4]) * 16 + hex_val(s[5])) as u8) as char)),
                )
            } else {
                None
            }
        } else {
            match unesc_char(s[1]) {
                Some(c) => sp_str_body(s.skip(2), acc.push(c)),
                None => None,
            }
        }
    } else if (s[0] as u32) < 32 {
        None
    } else {
        sp_str_body(s.drop_first(), acc.push(s[0]))
    }
}

/// Reads a quoted string.
pub open spec fn sp_string(s: Seq<char>) -> Option<(Seq<char>, Seq<char>)> {
    if s.len() > 0 && s[0] == '"' {
        sp_str_body(s.drop_first(), seq![])
    } else {
        None
    }
}

/// Reads digits while they last; fails when the value leaves 64 bits.
pub open spec fn sp_uint_body(s: Seq<char>, acc: int) -> Option<(int, Seq<char>)>
    decreases s.len(),
{
    if s.len() == 0 || !is_digit(s[0]) {
        Some((acc, s))
    } else if acc * 10 + digit_val(s[0]) > MAX_JSON_UINT {
        None
    } else {
        sp_uint_body(s.drop_first(), acc * 10 + digit_val(s[0]))
    }
}

/// Reads an unsigned number: one or more digits.
pub open spec fn sp_uint(s: Seq<char>) -> Option<(int, Seq<char>)> {
    if s.len() > 0 && is_digit(s[0]) {
        sp_uint_body(s, 0)
    } else {
        None
    }
}

/// Reads one value: a string or a number.
pub open spec fn sp_value(s: Seq<char>) -> Option<(JVal, Seq<char>)> {
    if s.len() == 0 {
        None
    } else if s[0] == '"' {
        match sp_string(s) {
            Some((v, r)) => Some((JVal::S(v), r)),
            None => None,
        }
    } else if is_digit(s[0]) {
        match sp_uint(s) {
            Some((n, r)) => Some((JVal::N(n), r)),
            None => None,
        }
    } else {
        None
    }
}

/// Reads one `"key":value` pair; insignificant whitespace may stand before
/// the key, around the colon and before the value.
pub open spec fn sp_member(s: Seq<char>) -> Option<((Seq<char>, JVal), Seq<char>)> {
    match sp_string(skip_ws(s)) {
        Some((k, s1)) => {
            let s1b = skip_ws(s1);
            if s1b.len() > 0 && s1b[0] == ':' {
                match sp_value(skip_ws(s1b.drop_first())) {
                    Some((v, s2)) => Some(((k, v), s2)),
                    None => None,
                }
            } else {
                None
            }
        },
        None => None,
    }
}

proof fn lemma_sp_str_body_consumes(s: Seq<char>, acc: Seq<char>)
    ensures
        sp_str_body(s, acc) matches Some((v, rem)) ==> rem.len() < s.len(),
    decreases s.len(),
{
    if s.len() == 0 {
    } else if s[0] == '"' {
    } else if s[0] == '\\' {
        if s.len() < 2 {
        } else if s[1] == 'u' {
            if s.len() >= 6 && s[2] == '0' && s[3] == '0' && hex_val(s[4]) >= 0 && hex_val(s[5])
                >= 0 {
                lemma_sp_str_body_consumes(
                    s.skip(6),
                    acc.push((((hex_val(s[4]) * 16 + hex_val(s[5])) as u8) as char)),
                );
            }
        } else {
            match unesc_char(s[1]) {
                Some(c) => lemma_sp_str_body_consumes(s.skip(2), acc.push(c)),
                None => {},
            }
        }
    } else if (s[0] as u32) < 32 {
    } else {
        lemma_sp_str_body_consumes(s.drop_first(), acc.push(s[0]));
    }
}

proof fn lemma_sp_uint_body_consumes(s: Seq<char>, acc: int)
    ensures
        sp_uint_body(s, acc) matches Some((v, rem)) ==> rem.len() <= s.len(),
    decreases s.len(),
{
    if s.len() == 0 || !is_digit(s[0]) {
    } else if acc * 10 + digit_val(s[0]) > MAX_JSON_UINT {
    } else {
        lemma_sp_uint_body_consumes(s.drop_first(), acc * 10 + digit_val(s[0]));
    }
}

proof fn lemma_sp_member_consumes(s: Seq<char>)
    ensures
        sp_member(s) matches Some((kv, rem)) ==> rem.len() < s.len(),
{
    let s0 = skip_ws(s);
    lemma_skip_ws_le(s);
    match sp_string(s0) {
        Some((k, s1)) => {
            lemma_sp_str_body_consumes(s0.drop_first(), seq![]);
            lemma_skip_ws_le(s1);
            let s1b = skip_ws(s1);
            if s1b.len() > 0 && s1b[0] == ':' {
                let s1d = skip_ws(s1b.drop_first());
                lemma_skip_ws_le(s1b.drop_first());
                match sp_value(s1d) {
                    Some((v, s2)) => {
                        if s1d.len() > 0 && s1d[0] == '"' {
                            lemma_sp_str_body_consumes(s1d.drop_first(), seq![]);
                        } else if s1d.len() > 0 && is_digit(s1d[0]) {
                            lemma_sp_uint_body_consumes(s1d, 0);
                        }
                    },
                    None => {},
                }
            }
        },
        None => {},
    }
}

/// Reads the members after the opening brace or a comma; `acc` holds the
/// pairs read so far. Returns the pairs and the remainder after the brace.
pub open spec fn sp_members(s: Seq<char>, acc: Seq<(Seq<char>, JVal)>) -> Option<
    (Seq<(Seq<char>, JVal)>, Seq<char>),
>
    decreases s.len(),
    via sp_members_dec
{
    match sp_member(s) {
        Some((kv, s1)) => {
            let s1b = skip_ws(s1);
            if s1b.len() > 0 && s1b[0] == ',' {
                sp_members(s1b.drop_first(), acc.push(kv))
            } else if s1b.len() > 0 && s1b[0] == '}' {
                Some((acc.push(kv), s1b.drop_first()))
            } else {
                None
            }
        },
        None => None,
    }
}

#[via_fn]
proof fn sp_members_dec(s: Seq<char>, acc: Seq<(Seq<char>, JVal)>) {
    lemma_sp_member_consumes(s);
    match sp_member(s) {
        Some((kv, s1)) => {
            lemma_skip_ws_le(s1);
        },
        None => {},
    }
}

/// Reads a whole object; beyond it, only insignificant whitespace may
/// remain.
pub open spec fn sp_object(s: Seq<char>) -> Option<Seq<(Seq<char>, JVal)>> {
    let s0 = skip_ws(s);
    if s0.len() > 0 && s0[0] == '{' {
        let s1 = skip_ws(s0.drop_first());
        if s1.len() > 0 && s1[0] == '}' {
            if all_ws(s1.drop_first()) {
                Some(seq![])
            } else {
                None
            }
        } else {
            match sp_members(s1, seq![]) {
                Some((fields, rem)) => if all_ws(rem) {
                    Some(fields)
                } else {
                    None
                },
                None => None,
            }
        }
    } else {
        None
    }
}

/// The first value bound to `key`, if any.
pub open spec fn sp_find(fields: Seq<(Seq<char>, JVal)>, key: Seq<char>) -> Option<JVal>
    decreases fields.len(),
{
    if fields.len() == 0 {
        None
    } else if fields[0].0 == key {
        Some(fields[0].1)
    } else {
        sp_find(fields.drop_first(), key)
    }
}

/// Decimal digits of `n`, most significant first.
pub open spec fn print_uint(n: int) -> Seq<char>
    recommends
        n >= 0,
    decreases n,
{
    if n < 10 {
        seq![digit_char(n)]
    } else {
        print_uint(n / 10) + seq![digit_char(n % 10)]
    }
}

/// A string, quoted and escaped.
pub open spec fn print_str(s: Seq<char>) -> Seq<char> {
    seq!['"'] + esc(s) + seq!['"']
}

/// One value as the encoder writes it.
pub open spec fn print_jval(v: JVal) -> Seq<char> {
    match v {
        JVal::S(s) => print_str(s),
        JVal::N(n) => print_uint(n),
    }
}

/// One `"key":value` pair as the encoder writes it.
pub open spec fn print_member(k: Seq<char>, v: JVal) -> Seq<char> {
    print_str(k) + seq![':'] + print_jval(v)
}

/// The members of an object, comma separated.
pub open spec fn print_members(fields: Seq<(Seq<char>, JVal)>) -> Seq<char>
    decreases fields.len(),
{
    if fields.len() == 0 {
        seq![]
    } else if fields.len() == 1 {
        print_member(fields[0].0, fields[0].1)
    } else {
        print_member(fields[0].0, fields[0].1) + seq![','] + print_members(fields.drop_first())
    }
}

/// A whole object as the encoder writes it.
pub open spec fn print_object(fields: Seq<(Seq<char>, JVal)>) -> Seq<char> {
    if fields.len() == 0 {
        seq!['{', '}']
    } else {
        seq!['{'] + print_members(fields) + seq!['}']
    }
}

/// A parsed JSON value, executable form.
pub enum JsonValue {
    S(Vec<char>),
    N(u64),
}

impl View for JsonValue {
    type V = JVal;

    open spec fn view(&self) -> JVal {
        match self {
            JsonValue::S(s) => JVal::S(s@),
            JsonValue::N(n) => JVal::N(*n as int),
        }
    }
}

/// The members of a parsed object, as the spec parser sees them.
pub open spec fn jfields_view(fs: Seq<(Vec<char>, JsonValue)>) -> Seq<(Seq<char>, JVal)> {
    Seq::new(fs.len(), |i: int| (fs[i].0@, fs[i].1@))
}

fn hex_val_x(c: char) -> (r: Option<u8>)
    ensures
        match r {
            Some(d) => hex_val(c) == d as int,
            None => hex_val(c) == -1,
        },
{
    let u = c as u32;
    if 48 <= u && u <= 57 {
        Some((u - 48) as u8)
    } else if 97 <= u && u <= 102 {
        Some((u - 87) as u8)
    } else if 65 <= u && u <= 70 {
        Some((u - 55) as u8)
    } else {
        None
    }
}

fn unesc_x(e: char) -> (r: Option<char>)
    ensures
        r == unesc_char(e),
{
    if e == '"' {
        Some('"')
    } else if e == '\\' {
        Some('\\')
    } else if e == '/' {
        Some('/')
    } else if e == 'n' {
        Some('\n')
    } else if e == 't' {
        Some('\t')
    } else if e == 'r' {
        Some('\r')
    } else if e == 'b' {
        Some('\u{8}')
    } else if e == 'f' {
        Some('\u{c}')
    } else {
        None
    }
}

fn parse_str_body(v: &Vec<char>, start: usize) -> (r: Option<(Vec<char>, usize)>)
    requires
        start <= v@.len(),
    ensures
        match r {
            Some(p) => p.1 <= v@.len() && sp_str_body(v@.skip(start as int), seq![]) == Some(
                (p.0@, v@.skip(p.1 as int)),
            ),
            None => sp_str_body(v@.skip(start as int), seq![]) is None,
        },
{
    let mut acc: Vec<char> = Vec::new();
    let mut i: usize = start;
    loop
        invariant
            start <= i <= v@.len(),
            sp_str_body(v@.skip(start as int), seq![]) == sp_str_body(v@.skip(i as int), acc@),
        decreases v@.len() - i,
    {
        if i >= v.len() {
            proof {
                assert(v@.skip(i as int).len() == 0);
            }
            return None;
        }
        let c = v[i];
        proof {
            assert(v@.skip(i as int)[0] == v@[i as int]);
        }
        if c == '"' {
            proof {
                assert(v@.skip(i as int).drop_first() =~= v@.skip((i + 1) as int));
            }
            return Some((acc, i + 1));
        } else if c == '\\' {
            if i + 1 >= v.len() {
                proof {
                    assert(v@.skip(i as int).len() < 2);
                }
                return None;
            }
            let e = v[i + 1];
            proof {
                assert(v@.skip(i as int)[1] == v@[(i + 1) as int]);
            }
            if e == 'u' {
                if v.len() - i < 6 {
                    proof {
                        assert(v@.skip(i as int).len() < 6);
                    }
                    return None;
                }
                proof {
                    assert(v@.skip(i as int)[2] == v@[(i + 2) as int]);
                    assert(v@.skip(i as int)[3] == v@[(i + 3) as int]);
                    assert(v@.skip(i as int)[4] == v@[(i + 4) as int]);
                    assert(v@.skip(i as int)[5] == v@[(i + 5) as int]);
                }
                if v[i + 2] != '0' || v[i + 3] != '0' {
                    return None;
                }
                let h1 = match hex_val_x(v[i + 4]) {
                    Some(d) => d,
                    None => {
                        return None;
                    },
                };
                let h2 = match hex_val_x(v[i + 5]) {
                    Some(d) => d,
                    None => {
                        return None;
                    },
                };
                let code: u8 = h1 * 16 + h2;
                acc.push(code as char);
                proof {
                    assert(v@.skip(i as int).skip(6) =~= v@.skip((i + 6) as int));
                }
                i = i + 6;
            } else {
                let u = match unesc_x(e) {
                    Some(c2) => c2,
                    None => {
                        return None;
                    },
                };
                acc.push(u);
                proof {
                    assert(v@.skip(i as int).skip(2) =~= v@.skip((i + 2) as int));
                }
                i = i + 2;
            }
        } else if (c as u32) < 32 {
            return None;
        } else {
            acc.push(c);
            proof {
                assert(v@.skip(i as int).drop_first() =~= v@.skip((i + 1) as int));
            }
            i = i + 1;
        }
    }
}

fn parse_string_at(v: &Vec<char>, start: usize) -> (r: Option<(Vec<char>, usize)>)
    requires
        start <= v@.len(),
    ensures
        match r {
            Some(p) => start < p.1 <= v@.len() && sp_string(v@.skip(start as int)) == Some(
                (p.0@, v@.skip(p.1 as int)),
            ),
            None => sp_string(v@.skip(start as int)) is None,
        },
{
    if start >= v.len() {
        return None;
    }
    proof {
        assert(v@.skip(start as int)[0] == v@[start as int]);
    }
    if v[start] != '"' {
        return None;
    }
    proof {
        assert(v@.skip(start as int).drop_first() =~= v@.skip((start + 1) as int));
    }
    let r = parse_str_body(v, start + 1);
    proof {
        lemma_sp_str_body_consumes(v@.skip((start + 1) as int), seq![]);
    }
    r
}

fn parse_uint_at(v: &Vec<char>, start: usize) -> (r: Option<(u64, usize)>)
    requires
        start <= v@.len(),
    ensures
        match r {
            Some(p) => start < p.1 <= v@.len() && sp_uint(v@.skip(start as int)) == Some(
                (p.0 as int, v@.skip(p.1 as int)),
            ),
            None => sp_uint(v@.skip(start as int)) is None,
        },
{
    if start >= v.len() {
        return None;
    }
    proof {
        assert(v@.skip(start as int)[0] == v@[start as int]);
    }
    let c0 = v[start];
    let u0 = c0 as u32;
    if !(48 <= u0 && u0 <= 57) {
        return None;
    }
    let mut acc: u64 = 0;
    let mut i: usize = start;
    loop
        invariant
            start <= i <= v@.len(),
            is_digit(v@[start as int]),
            start < v@.len(),
            sp_uint_body(v@.skip(start as int), 0) == sp_uint_body(v@.skip(i as int), acc as int),
        decreases v@.len() - i,
    {
        if i >= v.len() {
            return Some((acc, i));
        }
        let c = v[i];
        let u = c as u32;
        proof {
            assert(v@.skip(i as int)[0] == v@[i as int]);
        }
        if !(48 <= u && u <= 57) {
            return Some((acc, i));
        }
        let d = (u - 48) as u64;
        let m = match acc.checked_mul(10) {
            Some(m) => m,
            None => {
                return None;
            },
        };
        let next = match m.checked_add(d) {
            Some(s) => s,
            None => {
                return None;
            },
        };
        acc = next;
        proof {
            assert(v@.skip(i as int).drop_first() =~= v@.skip((i + 1) as int));
        }
        i = i + 1;
    }
}

fn parse_value_at(v: &Vec<char>, start: usize) -> (r: Option<(JsonValue, usize)>)
    requires
        start <= v@.len(),
    ensures
        match r {
            Some(p) => start < p.1 <= v@.len() && sp_value(v@.skip(start as int)) == Some(
                (p.0@, v@.skip(p.1 as int)),
            ),
            None => sp_value(v@.skip(start as int)) is None,
        },
{
    if start >= v.len() {
        return None;
    }
    proof {
        assert(v@.skip(start as int)[0] == v@[start as int]);
    }
    let c = v[start];
    if c == '"' {
        match parse_string_at(v, start) {
            Some((s, j)) => Some((JsonValue::S(s), j)),
            None => None,
        }
    } else if 48 <= (c as u32) && (c as u32) <= 57 {
        match parse_uint_at(v, start) {
            Some((n, j)) => Some((JsonValue::N(n), j)),
            None => None,
        }
    } else {
        None
    }
}

fn is_ws_x(c: char) -> (r: bool)
    ensures
        r == is_ws(c),
{
    c == ' ' || c == '\t' || c == '\n' || c == '\r'
}

fn skip_ws_at(v: &Vec<char>, start: usize) -> (r: usize)
    requires
        start <= v@.len(),
    ensures
        start <= r <= v@.len(),
        v@.skip(r as int) == skip_ws(v@.skip(start as int)),
{
    let mut i: usize = start;
    loop
        invariant
            start <= i <= v@.len(),
            skip_ws(v@.skip(start as int)) == skip_ws(v@.skip(i as int)),
        decreases v@.len() - i,
    {
        if i >= v.len() {
            proof {
                assert(v@.skip(i as int).len() == 0);
            }
            return i;
        }
        proof {
            assert(v@.skip(i as int)[0] == v@[i as int]);
            assert(v@.skip(i as int).drop_first() =~= v@.skip((i + 1) as int));
        }
        if !is_ws_x(v[i]) {
            return i;
        }
        i = i + 1;
    }
}

fn parse_member_at(v: &Vec<char>, start: usize) -> (r: Option<(Vec<char>, JsonValue, usize)>)
    requires
        start <= v@.len(),
    ensures
        match r {
            Some(p) => start < p.2 <= v@.len() && sp_member(v@.skip(start as int)) == Some(
                ((p.0@, p.1@), v@.skip(p.2 as int)),
            ),
            None => sp_member(v@.skip(start as int)) is None,
        },
{
    let s0 = skip_ws_at(v, start);
    let (k, j1) = match parse_string_at(v, s0) {
        Some(p) => p,
        None => {
            return None;
        },
    };
    let j1b = skip_ws_at(v, j1);
    if j1b >= v.len() {
        proof {
            assert(v@.skip(j1b as int).len() == 0);
        }
        return None;
    }
    proof {
        assert(v@.skip(j1b as int)[0] == v@[j1b as int]);
    }
    if v[j1b] != ':' {
        return None;
    }
    proof {
        assert(v@.skip(j1b as int).drop_first() =~= v@.skip((j1b + 1) as int));
    }
    let vstart = skip_ws_at(v, j1b + 1);
    match parse_value_at(v, vstart) {
        Some((val, j2)) => Some((k, val, j2)),
        None => None,
    }
}

fn parse_members_at(v: &Vec<char>, start: usize) -> (r: Option<
    (Vec<(Vec<char>, JsonValue)>, usize),
>)
    requires
        start <= v@.len(),
    ensures
        match r {
            Some(p) => p.1 <= v@.len() && sp_members(v@.skip(start as int), seq![]) == Some(
                (jfields_view(p.0@), v@.skip(p.1 as int)),
            ),
            None => sp_members(v@.skip(start as int), seq![]) is None,
        },
{
    let mut fields: Vec<(Vec<char>, JsonValue)> = Vec::new();
    let mut i: usize = start;
    proof {
        assert(jfields_view(fields@) =~= Seq::<(Seq<char>, JVal)>::empty());
    }
    loop
        invariant
            start <= i <= v@.len(),
            sp_members(v@.skip(start as int), seq![]) == sp_members(
                v@.skip(i as int),
                jfields_view(fields@),
            ),
        decreases v@.len() - i,
    {
        let (k, val, j) = match parse_member_at(v, i) {
            Some(p) => p,
            None => {
                return None;
            },
        };
        let jb = skip_ws_at(v, j);
        if jb >= v.len() {
            proof {
                assert(v@.skip(jb as int).len() == 0);
            }
            return None;
        }
        proof {
            assert(v@.skip(jb as int)[0] == v@[jb as int]);
        }
        let c = v[jb];
        if c == ',' {
            let ghost old_fields = fields@;
            fields.push((k, val));
            proof {
                assert(jfields_view(fields@) =~= jfields_view(old_fields).push(
                    (fields@[fields@.len() - 1].0@, fields@[fields@.len() - 1].1@),
                ));
                assert(v@.skip(jb as int).drop_first() =~= v@.skip((jb + 1) as int));
            }
            i = jb + 1;
        } else if c == '}' {
            let ghost old_fields = fields@;
            fields.push((k, val));
            proof {
                assert(jfields_view(fields@) =~= jfields_view(old_fields).push(
                    (fields@[fields@.len() - 1].0@, fields@[fields@.len() - 1].1@),
                ));
                assert(v@.skip(jb as int).drop_first() =~= v@.skip((jb + 1) as int));
            }
            return Some((fields, jb + 1));
        } else {
            return None;
        }
    }
}

/// Parses one whole JSON object; beyond it only insignificant whitespace
/// may remain.
pub fn parse_object(v: &Vec<char>) -> (r: Option<Vec<(Vec<char>, JsonValue)>>)
    ensures
        match r {
            Some(fs) => sp_object(v@) == Some(jfields_view(fs@)),
            None => sp_object(v@) is None,
        },
{
    let s0 = skip_ws_at(v, 0);
    proof {
        assert(v@.skip(0) =~= v@);
    }
    if s0 >= v.len() {
        proof {
            assert(v@.skip(s0 as int).len() == 0);
        }
        return None;
    }
    proof {
        assert(v@.skip(s0 as int)[0] == v@[s0 as int]);
        assert(v@.skip(s0 as int).drop_first() =~= v@.skip((s0 + 1) as int));
    }
    if v[s0] != '{' {
        return None;
    }
    let s1 = skip_ws_at(v, s0 + 1);
    if s1 < v.len() && v[s1] == '}' {
        proof {
            assert(v@.skip(s1 as int)[0] == v@[s1 as int]);
            assert(v@.skip(s1 as int).drop_first() =~= v@.skip((s1 + 1) as int));
        }
        let tail = skip_ws_at(v, s1 + 1);
        if tail == v.len() {
            let fields: Vec<(Vec<char>, JsonValue)> = Vec::new();
            proof {
                assert(v@.skip(tail as int).len() == 0);
                assert(jfields_view(fields@) =~= Seq::<(Seq<char>, JVal)>::empty());
            }
            return Some(fields);
        }
        proof {
            assert(v@.skip(tail as int).len() > 0);
        }
        return None;
    }
    proof {
        if s1 < v.len() {
            assert(v@.skip(s1 as int)[0] == v@[s1 as int]);
        } else {
            assert(v@.skip(s1 as int).len() == 0);
        }
    }
    match parse_members_at(v, s1) {
        Some((fs, j)) => {
            let tail = skip_ws_at(v, j);
            if tail == v.len() {
                proof {
                    assert(v@.skip(tail as int).len() == 0);
                }
                Some(fs)
            } else {
                proof {
                    assert(v@.skip(tail as int).len() > 0);
                }
                None
            }
        },
        None => None,
    }
}

fn hex_char_x(d: u8) -> (c: char)
    requires
        d < 16,
    ensures
        c == hex_char(d as int),
{
    if d < 10 {
        (48 + d) as char
    } else {
        (87 + d) as char
    }
}

proof fn lemma_esc_snoc(a: Seq<char>, c: char)
    ensures
        esc(a.push(c)) == esc(a) + esc_char(c),
    decreases a.len(),
{
    if a.len() == 0 {
        assert(a.push(c)[0] == c);
        assert(a.push(c).drop_first() =~= Seq::<char>::empty());
        assert(esc(a.push(c)) =~= esc_char(c) + esc(Seq::<char>::empty()));
        assert(esc(a.push(c)) =~= esc_char(c));
        assert(esc(a) + esc_char(c) =~= esc_char(c));
    } else {
        assert(a.push(c).drop_first() =~= a.drop_first().push(c));
        lemma_esc_snoc(a.drop_first(), c);
        assert(esc(a.push(c)) =~= esc(a) + esc_char(c));
    }
}

/// Appends the escaped form of `s`.
fn push_escaped(out: &mut Vec<char>, s: &Vec<char>)
    ensures
        final(out)@ == old(out)@ + esc(s@),
{
    let mut i: usize = 0;
    proof {
        assert(esc(s@.take(0)) =~= Seq::<char>::empty());
        assert(out@ =~= out@ + esc(s@.take(0)));
    }
    while i < s.len()
        invariant
            i <= s@.len(),
            out@ == old(out)@ + esc(s@.take(i as int)),
        decreases s@.len() - i,
    {
        let c = s[i];
        if c == '"' {
            out.push('\\');
            out.push('"');
        } else if c == '\\' {
            out.push('\\');
            out.push('\\');
        } else {
            let u = c as u32;
            if u < 32 {
                out.push('\\');
                out.push('u');
                out.push('0');
                out.push('0');
                out.push(hex_char_x((u / 16) as u8));
                out.push(hex_char_x((u % 16) as u8));
            } else {
                out.push(c);
            }
        }
        proof {
            lemma_esc_snoc(s@.take(i as int), s@[i as int]);
            assert(s@.take((i + 1) as int) =~= s@.take(i as int).push(s@[i as int]));
            assert(out@ =~= old(out)@ + esc(s@.take((i + 1) as int)));
        }
        i = i + 1;
    }
    proof {
        assert(s@.take(s@.len() as int) =~= s@);
    }
}

/// Appends a string value, quoted and escaped.
fn push_json_string(out: &mut Vec<char>, s: &Vec<char>)
    ensures
        final(out)@ == old(out)@ + print_str(s@),
{
    out.push('"');
    push_escaped(out, s);
    out.push('"');
    proof {
        assert(out@ =~= old(out)@ + print_str(s@));
    }
}

/// Appends the decimal digits of `n`.
fn push_uint(out: &mut Vec<char>, n: u64)
    ensures
        final(out)@ == old(out)@ + print_uint(n as int),
    decreases n,
{
    if n < 10 {
        out.push((48 + (n as u8)) as char);
        proof {
            assert(out@ =~= old(out)@ + print_uint(n as int));
        }
    } else {
        push_uint(out, n / 10);
        out.push((48 + ((n % 10) as u8)) as char);
        proof {
            assert(out@ =~= old(out)@ + print_uint(n as int));
        }
    }
}

/// Writes one whole object in the compact form.
pub fn write_object(fields: &Vec<(Vec<char>, JsonValue)>) -> (out: Vec<char>)
    ensures
        out@ == print_object(jfields_view(fields@)),
{
    let mut out: Vec<char> = Vec::new();
    out.push('{');
    let n = fields.len();
    let mut i: usize = 0;
    if n == 0 {
        out.push('}');
        proof {
            assert(out@ =~= print_object(jfields_view(fields@)));
        }
        return out;
    }
    proof {
        assert(jfields_view(fields@).skip(0) =~= jfields_view(fields@));
        assert(out@ =~= seq!['{']);
    }
    while i < n
        invariant
            i < n == fields@.len(),
            out@ + print_members(jfields_view(fields@).skip(i as int)) + seq!['}'] == seq!['{']
                + print_members(jfields_view(fields@)) + seq!['}'],
        decreases n - i,
    {
        let ghost pre = out@;
        push_json_string(&mut out, &fields[i].0);
        out.push(':');
        match &fields[i].1 {
            JsonValue::S(sv) => push_json_string(&mut out, sv),
            JsonValue::N(nv) => push_uint(&mut out, *nv),
        }
        proof {
            assert(out@ =~= pre + print_member(
                jfields_view(fields@).skip(i as int)[0].0,
                jfields_view(fields@).skip(i as int)[0].1,
            ));
        }
        if i + 1 == n {
            proof {
                assert(jfields_view(fields@).skip(i as int).len() == 1);
                assert(out@ + print_members(jfields_view(fields@).skip((i + 1) as int))
                    =~= out@);
                assert(out@ + seq!['}'] =~= seq!['{'] + print_members(jfields_view(fields@))
                    + seq!['}']);
            }
            out.push('}');
            proof {
                assert(out@ =~= seq!['{'] + print_members(jfields_view(fields@)) + seq!['}']);
                assert(out@ =~= print_object(jfields_view(fields@)));
            }
            return out;
        }
        out.push(',');
        proof {
            assert(jfields_view(fields@).skip(i as int).drop_first() =~= jfields_view(
                fields@,
            ).skip((i + 1) as int));
            assert(jfields_view(fields@).skip(i as int).len() > 1);
            assert(out@ + print_members(jfields_view(fields@).skip((i + 1) as int)) + seq!['}']
                =~= pre + print_members(jfields_view(fields@).skip(i as int)) + seq!['}']);
        }
        i = i + 1;
    }
    proof {
        assert(false);
    }
    out
}

/// Compares two character vectors.
pub fn vec_char_eq(a: &Vec<char>, b: &Vec<char>) -> (r: bool)
    ensures
        r == (a@ == b@),
{
    if a.len() != b.len() {
        proof {
            assert(a@ != b@);
        }
        return false;
    }
    let mut i: usize = 0;
    while i < a.len()
        invariant
            i <= a@.len() == b@.len(),
            forall|j: int| 0 <= j < i ==> a@[j] == b@[j],
        decreases a@.len() - i,
    {
        if a[i] != b[i] {
            return false;
        }
        i = i + 1;
    }
    proof {
        assert(a@ =~= b@);
    }
    true
}

/// Index of the first member named `key`, if any.
pub fn find_field(fields: &Vec<(Vec<char>, JsonValue)>, key: &Vec<char>) -> (r: Option<usize>)
    ensures
        match r {
            Some(i) => i < fields@.len() && sp_find(jfields_view(fields@), key@) == Some(
                fields@[i as int].1@,
            ),
            None => sp_find(jfields_view(fields@), key@) is None,
        },
{
    let mut i: usize = 0;
    proof {
        assert(jfields_view(fields@).skip(0) =~= jfields_view(fields@));
    }
    while i < fields.len()
        invariant
            i <= fields@.len(),
            sp_find(jfields_view(fields@), key@) == sp_find(
                jfields_view(fields@).skip(i as int),
                key@,
            ),
        decreases fields@.len() - i,
    {
        if vec_char_eq(&fields[i].0, key) {
            proof {
                assert(jfields_view(fields@).skip(i as int)[0] == (
                    fields@[i as int].0@,
                    fields@[i as int].1@,
                ));
            }
            return Some(i);
        }
        proof {
            assert(jfields_view(fields@).skip(i as int)[0] == (
                fields@[i as int].0@,
                fields@[i as int].1@,
            ));
            assert(jfields_view(fields@).skip(i as int).drop_first() =~= jfields_view(
                fields@,
            ).skip((i + 1) as int));
        }
        i = i + 1;
    }
    proof {
        assert(jfields_view(fields@).skip(i as int).len() == 0);
    }
    None
}

/// Relies on `Iterator::collect` for `String`: the collected string holds
/// exactly the characters of `v`, in order.
#[verifier::external_body]
pub fn chars_to_string(v: &Vec<char>) -> (s: String)
    ensures
        s@ == v@,
{
    v.iter().collect()
}

/// The characters of `s`, as a vector.
pub fn string_to_chars(s: &str) -> (v: Vec<char>)
    ensures
        v@ == s@,
{
    let n = s.unicode_len();
    let mut v: Vec<char> = Vec::new();
    let mut i: usize = 0;
    while i < n
        invariant
            i <= n == s@.len(),
            v@ == s@.take(i as int),
        decreases n - i,
    {
        v.push(s.get_char(i));
        proof {
            assert(s@.take((i + 1) as int) =~= s@.take(i as int).push(s@[i as int]));
        }
        i = i + 1;
    }
    proof {
        assert(s@.take(s@.len() as int) =~= s@);
    }
    v
}

/// Every character is a decimal digit.
pub open spec fn all_digits(ds: Seq<char>) -> bool {
    forall|i: int| 0 <= i < ds.len() ==> is_digit(#[trigger] ds[i])
}

/// Ten to the `k`.
pub open spec fn pow10(k: nat) -> int
    decreases k,
{
    if k == 0 {
        1
    } else {
        10 * pow10((k - 1) as nat)
    }
}

proof fn lemma_pow10_pos(k: nat)
    ensures
        pow10(k) >= 1,
    decreases k,
{
    if k > 0 {
        lemma_pow10_pos((k - 1) as nat);
    }
}

/// The number a digit string denotes.
pub open spec fn ds_val(ds: Seq<char>) -> int
    decreases ds.len(),
{
    if ds.len() == 0 {
        0
    } else {
        ds_val(ds.drop_last()) * 10 + digit_val(ds.last())
    }
}

proof fn lemma_ds_val_nonneg(ds: Seq<char>)
    requires
        all_digits(ds),
    ensures
        ds_val(ds) >= 0,
    decreases ds.len(),
{
    if ds.len() > 0 {
        assert(all_digits(ds.drop_last()));
        lemma_ds_val_nonneg(ds.drop_last());
        assert(is_digit(ds.last()));
    }
}

proof fn lemma_ds_val_prepend(ds: Seq<char>)
    requires
        ds.len() >= 1,
    ensures
        ds_val(ds) == digit_val(ds[0]) * pow10((ds.len() - 1) as nat) + ds_val(ds.drop_first()),
    decreases ds.len(),
{
    if ds.len() == 1 {
        assert(ds.drop_last() =~= Seq::<char>::empty());
        assert(ds.drop_first() =~= Seq::<char>::empty());
        assert(ds.last() == ds[0]);
        assert(digit_val(ds[0]) * 1 == digit_val(ds[0]));
    } else {
        let dl = ds.drop_last();
        let d0 = digit_val(ds[0]);
        assert(dl[0] == ds[0]);
        lemma_ds_val_prepend(dl);
        let p = pow10((dl.len() - 1) as nat);
        assert(ds_val(dl) == d0 * p + ds_val(dl.drop_first()));
        assert(ds_val(ds) == (d0 * p + ds_val(dl.drop_first())) * 10 + digit_val(ds.last()));
        assert((d0 * p + ds_val(dl.drop_first())) * 10 == d0 * p * 10 + ds_val(dl.drop_first())
            * 10) by (nonlinear_arith);
        assert(d0 * p * 10 == d0 * (p * 10)) by (nonlinear_arith);
        assert(p * 10 == pow10((ds.len() - 1) as nat));
        let df = ds.drop_first();
        assert(df.len() >= 1);
        assert(df.drop_last() =~= dl.drop_first());
        assert(df.last() == ds.last());
        assert(ds_val(df) == ds_val(dl.drop_first()) * 10 + digit_val(ds.last()));
    }
}

proof fn lemma_ds_parse(ds: Seq<char>, acc: int, rest: Seq<char>)
    requires
        all_digits(ds),
        0 <= acc,
        acc * pow10(ds.len() as nat) + ds_val(ds) <= MAX_JSON_UINT,
        rest.len() == 0 || !is_digit(rest[0]),
    ensures
        sp_uint_body(ds + rest, acc) == Some((acc * pow10(ds.len() as nat) + ds_val(ds), rest)),
    decreases ds.len(),
{
    lemma_pow10_pos(ds.len() as nat);
    lemma_ds_val_nonneg(ds);
    if ds.len() == 0 {
        assert(ds + rest =~= rest);
        assert(acc * 1 == acc);
    } else {
        let s = ds + rest;
        assert(s[0] == ds[0]);
        assert(is_digit(s[0]));
        let d = digit_val(ds[0]);
        let ds2 = ds.drop_first();
        assert(all_digits(ds2));
        lemma_ds_val_prepend(ds);
        lemma_ds_val_nonneg(ds2);
        let p1 = pow10((ds.len() - 1) as nat);
        lemma_pow10_pos((ds.len() - 1) as nat);
        assert(acc * pow10(ds.len() as nat) == (acc * 10) * p1) by (nonlinear_arith)
            requires
                pow10(ds.len() as nat) == 10 * p1,
        ;
        assert((acc * 10) * p1 + d * p1 == (acc * 10 + d) * p1) by (nonlinear_arith);
        let t = acc * pow10(ds.len() as nat) + ds_val(ds);
        assert(t == (acc * 10 + d) * p1 + ds_val(ds2));
        assert((acc * 10 + d) * 1 <= (acc * 10 + d) * p1) by (nonlinear_arith)
            requires
                0 <= acc * 10 + d,
                1 <= p1,
        ;
        assert(acc * 10 + d <= t);
        assert(s.drop_first() =~= ds2 + rest);
        lemma_ds_parse(ds2, acc * 10 + d, rest);
    }
}

proof fn lemma_print_uint(n: int)
    requires
        0 <= n,
    ensures
        print_uint(n).len() >= 1,
        all_digits(print_uint(n)),
        ds_val(print_uint(n)) == n,
    decreases n,
{
    if n < 10 {
        let ds = print_uint(n);
        let c = digit_char(n);
        assert(ds =~= seq![c]);
        assert(ds.len() == 1);
        assert((c as u32) == 48 + n);
        assert(is_digit(c));
        assert(ds.drop_last() =~= Seq::<char>::empty());
        assert(ds.last() == c);
        assert(ds_val(Seq::<char>::empty()) == 0);
        assert(ds_val(ds) == ds_val(ds.drop_last()) * 10 + digit_val(ds.last()));
        assert(digit_val(c) == n);
    } else {
        lemma_print_uint(n / 10);
        let ds = print_uint(n);
        let c = digit_char(n % 10);
        assert((c as u32) == 48 + n % 10);
        assert(ds =~= print_uint(n / 10) + seq![c]);
        assert(ds.len() == print_uint(n / 10).len() + 1 >= 2);
        assert(ds.drop_last() =~= print_uint(n / 10));
        assert(ds.last() == c);
        assert(ds_val(ds) == ds_val(ds.drop_last()) * 10 + digit_val(ds.last()));
        assert(ds_val(ds) == (n / 10) * 10 + (n % 10));
        assert(forall|i: int| 0 <= i < ds.len() ==> is_digit(#[trigger] ds[i])) by {
            assert(forall|i: int| 0 <= i < ds.len() - 1 ==> ds[i] == print_uint(n / 10)[i]);
        }
    }
}

proof fn lemma_uint_rt(n: int, rest: Seq<char>)
    requires
        0 <= n <= MAX_JSON_UINT,
        rest.len() == 0 || !is_digit(rest[0]),
    ensures
        sp_uint(print_uint(n) + rest) == Some((n, rest)),
{
    lemma_print_uint(n);
    let ds = print_uint(n);
    assert((ds + rest)[0] == ds[0]);
    assert(is_digit(ds[0]));
    assert(0 * pow10(ds.len() as nat) == 0) by (nonlinear_arith);
    lemma_ds_parse(ds, 0, rest);
}

proof fn lemma_hex_char_val(d: int)
    requires
        0 <= d < 16,
    ensures
        hex_val(hex_char(d)) == d,
{
    if d < 10 {
        assert((hex_char(d) as u32) == 48 + d);
    } else {
        assert((hex_char(d) as u32) == 87 + d);
    }
}

proof fn lemma_esc_char_step(c: char, t: Seq<char>, acc: Seq<char>)
    ensures
        sp_str_body(esc_char(c) + t, acc) == sp_str_body(t, acc.push(c)),
{
    let s = esc_char(c) + t;
    if c == '"' {
        assert(s[0] == '\u{5c}');
        assert(s[1] == '"');
        assert(s.len() >= 2);
        assert(s.skip(2) =~= t);
    } else if c == '\u{5c}' {
        assert(s[0] == '\u{5c}');
        assert(s[1] == '\u{5c}');
        assert(s.len() >= 2);
        assert(s.skip(2) =~= t);
    } else if (c as u32) < 32 {
        let hi = ((c as u32) / 16) as int;
        let lo = ((c as u32) % 16) as int;
        assert(s[0] == '\u{5c}');
        assert(s[1] == 'u');
        assert(s[2] == '0');
        assert(s[3] == '0');
        assert(s[4] == hex_char(hi));
        assert(s[5] == hex_char(lo));
        assert(s.len() >= 6);
        lemma_hex_char_val(hi);
        lemma_hex_char_val(lo);
        assert(hex_val(s[4]) * 16 + hex_val(s[5]) == c as u32);
        assert((((hex_val(s[4]) * 16 + hex_val(s[5])) as u8) as char) == c);
        assert(s.skip(6) =~= t);
    } else {
        assert(s[0] == c);
        assert(s.drop_first() =~= t);
    }
}

proof fn lemma_esc_rt(body: Seq<char>, acc: Seq<char>, rest: Seq<char>)
    ensures
        sp_str_body(esc(body) + seq!['"'] + rest, acc) == Some((acc + body, rest)),
    decreases body.len(),
{
    if body.len() == 0 {
        let s = esc(body) + seq!['"'] + rest;
        assert(s =~= seq!['"'] + rest);
        assert(s[0] == '"');
        assert(s.drop_first() =~= rest);
        assert(acc + body =~= acc);
    } else {
        let tail = esc(body.drop_first()) + seq!['"'] + rest;
        assert(esc(body) + seq!['"'] + rest =~= esc_char(body[0]) + tail);
        lemma_esc_char_step(body[0], tail, acc);
        lemma_esc_rt(body.drop_first(), acc.push(body[0]), rest);
        assert(acc.push(body[0]) + body.drop_first() =~= acc + body);
    }
}

proof fn lemma_string_rt(body: Seq<char>, rest: Seq<char>)
    ensures
        sp_string(print_str(body) + rest) == Some((body, rest)),
{
    let s = print_str(body) + rest;
    assert(s[0] == '"');
    assert(s.len() > 0);
    assert(s.drop_first() =~= esc(body) + seq!['"'] + rest);
    lemma_esc_rt(body, seq![], rest);
    assert(Seq::<char>::empty() + body =~= body);
}

proof fn lemma_value_rt(v: JVal, tail: Seq<char>)
    requires
        jval_wf(v),
        tail.len() == 0 || !is_digit(tail[0]),
    ensures
        sp_value(print_jval(v) + tail) == Some((v, tail)),
{
    match v {
        JVal::S(body) => {
            let s = print_jval(v) + tail;
            assert(s[0] == '"');
            assert(s =~= print_str(body) + tail);
            lemma_string_rt(body, tail);
        },
        JVal::N(n) => {
            let s = print_jval(v) + tail;
            lemma_print_uint(n);
            assert(s[0] == print_uint(n)[0]);
            assert(is_digit(s[0]));
            assert(('"' as u32) == 34);
            assert(s[0] != '"');
            assert(s =~= print_uint(n) + tail);
            lemma_uint_rt(n, tail);
        },
    }
}

proof fn lemma_member_rt(kv: (Seq<char>, JVal), tail: Seq<char>)
    requires
        jval_wf(kv.1),
        tail.len() >= 1,
        !is_digit(tail[0]),
    ensures
        sp_member(print_member(kv.0, kv.1) + tail) == Some((kv, tail)),
{
    let s = print_member(kv.0, kv.1) + tail;
    let s1 = seq![':'] + print_jval(kv.1) + tail;
    assert(s =~= print_str(kv.0) + s1);
    lemma_string_rt(kv.0, s1);
    assert(s1[0] == ':');
    assert(s1.drop_first() =~= print_jval(kv.1) + tail);
    lemma_value_rt(kv.1, tail);
    assert((kv.0, kv.1) == kv);
}

/// Every value in the member list fits what the encoder can write.
pub open spec fn fields_wf(fields: Seq<(Seq<char>, JVal)>) -> bool {
    forall|i: int| 0 <= i < fields.len() ==> jval_wf(#[trigger] fields[i].1)
}

proof fn lemma_members_rt(fields: Seq<(Seq<char>, JVal)>, acc: Seq<(Seq<char>, JVal)>, rest: Seq<char>)
    requires
        fields.len() >= 1,
        fields_wf(fields),
    ensures
        sp_members(print_members(fields) + seq!['}'] + rest, acc) == Some((acc + fields, rest)),
    decreases fields.len(),
{
    let kv = fields[0];
    assert(jval_wf(kv.1));
    if fields.len() == 1 {
        let tail = seq!['}'] + rest;
        assert(print_members(fields) + seq!['}'] + rest =~= print_member(kv.0, kv.1) + tail);
        assert(('}' as u32) == 125);
        assert(!is_digit(tail[0]));
        lemma_member_rt(kv, tail);
        assert(tail[0] == '}');
        assert(tail[0] != ',');
        assert(tail.drop_first() =~= rest);
        assert(acc.push(kv) =~= acc + fields);
    } else {
        let df = fields.drop_first();
        let tail = seq![','] + print_members(df) + seq!['}'] + rest;
        assert(print_members(fields) + seq!['}'] + rest =~= print_member(kv.0, kv.1) + tail);
        assert((',' as u32) == 44);
        assert(!is_digit(tail[0]));
        lemma_member_rt(kv, tail);
        assert(tail[0] == ',');
        assert(tail.drop_first() =~= print_members(df) + seq!['}'] + rest);
        assert(fields_wf(df));
        lemma_members_rt(df, acc.push(kv), rest);
        assert(acc.push(kv) + df =~= acc + fields);
    }
}

proof fn lemma_print_members_len(fields: Seq<(Seq<char>, JVal)>)
    requires
        fields.len() >= 1,
    ensures
        print_members(fields).len() >= 1,
{
    assert(print_str(fields[0].0).len() >= 2);
}

/// Parsing what the encoder wrote gives the members back, exactly and in
/// order: the object codec round-trips.
pub proof fn lemma_object_rt(fields: Seq<(Seq<char>, JVal)>)
    requires
        fields_wf(fields),
    ensures
        sp_object(print_object(fields)) == Some(fields),
{
    let s = print_object(fields);
    if fields.len() == 0 {
        assert(s.len() == 2);
        assert(s[0] == '{');
        assert(s[1] == '}');
        assert(Seq::<(Seq<char>, JVal)>::empty() =~= fields);
    } else {
        lemma_print_members_len(fields);
        assert(s[0] == '{');
        assert(s.len() == 2 + print_members(fields).len());
        assert(s.len() >= 3);
        assert(s.drop_first() =~= print_members(fields) + seq!['}'] + Seq::<char>::empty());
        lemma_members_rt(fields, seq![], Seq::<char>::empty());
        assert(Seq::<(Seq<char>, JVal)>::empty() + fields =~= fields);
    }
}

/// The decimal digits of `n`, as a string.
pub fn u64_string(n: u64) -> (r: String)
    ensures
        r@ == print_uint(n as int),
{
    let mut v: Vec<char> = Vec::new();
    push_uint(&mut v, n);
    chars_to_string(&v)
}

/// Two lower-case hex digits per byte.
pub open spec fn hex_seq(b: Seq<u8>) -> Seq<char>
    decreases b.len(),
{
    if b.len() == 0 {
        seq![]
    } else {
        seq![hex_char((b[0] / 16) as int), hex_char((b[0] % 16) as int)] + hex_seq(b.drop_first())
    }
}

proof fn lemma_hex_snoc(a: Seq<u8>, x: u8)
    ensures
        hex_seq(a.push(x)) == hex_seq(a) + seq![
            hex_char((x / 16) as int),
            hex_char((x % 16) as int),
        ],
    decreases a.len(),
{
    if a.len() == 0 {
        assert(a.push(x)[0] == x);
        assert(a.push(x).drop_first() =~= Seq::<u8>::empty());
        assert(hex_seq(Seq::<u8>::empty()) =~= Seq::<char>::empty());
        assert(hex_seq(a.push(x)) =~= hex_seq(a) + seq![
            hex_char((x / 16) as int),
            hex_char((x % 16) as int),
        ]);
    } else {
        assert(a.push(x)[0] == a[0]);
        assert(a.push(x).drop_first() =~= a.drop_first().push(x));
        lemma_hex_snoc(a.drop_first(), x);
        assert(hex_seq(a.push(x)) =~= hex_seq(a) + seq![
            hex_char((x / 16) as int),
            hex_char((x % 16) as int),
        ]);
    }
}

/// The bytes written as lower-case hex.
pub fn bytes_to_hex(b: &Vec<u8>) -> (r: String)
    ensures
        r@ == hex_seq(b@),
{
    let mut out: Vec<char> = Vec::new();
    let mut i: usize = 0;
    proof {
        assert(hex_seq(b@.take(0)) =~= Seq::<char>::empty());
    }
    while i < b.len()
        invariant
            i <= b@.len(),
            out@ == hex_seq(b@.take(i as int)),
        decreases b@.len() - i,
    {
        let x = b[i];
        out.push(hex_char_x(x / 16));
        out.push(hex_char_x(x % 16));
        proof {
            lemma_hex_snoc(b@.take(i as int), b@[i as int]);
            assert(b@.take((i + 1) as int) =~= b@.take(i as int).push(b@[i as int]));
            assert(out@ =~= hex_seq(b@.take((i + 1) as int)));
        }
        i = i + 1;
    }
    proof {
        assert(b@.take(b@.len() as int) =~= b@);
    }
    chars_to_string(&out)
}

} // verus!
