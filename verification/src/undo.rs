//! The undo ledger: an ordered record of what the environment looked like
//! before shadowing, serialized as a canonical JSON object so that it can
//! round-trip through the opaque state string the calling shell stores.
//!
//! The document is an object whose members map a variable name to either a
//! string (the pre-shadow value) or `null` (the variable was unset). The
//! writer emits no whitespace, escapes `"` and `\` with a backslash and
//! control characters as `\u00XX`, and the reader accepts exactly that
//! canonical form; anything else is malformed.

use vstd::prelude::*;

use crate::chars::{concat_map, lemma_concat_map_push};
use crate::hash::{hex_char_of, hex_val_of, is_hex_char, hex_digit_char, hex_digit_val};
use crate::strutil::push_char;

verus! {

/// One recorded variable: its name, and the value it had before shadowing
/// first clobbered it (`None`: it was unset).
pub struct Entry {
    pub name: String,
    pub original: Option<String>,
}

/// The view of an optional string value.
pub open spec fn opt_view(o: Option<String>) -> Option<Seq<char>> {
    match o {
        Some(s) => Some(s@),
        None => None,
    }
}

impl View for Entry {
    type V = (Seq<char>, Option<Seq<char>>);

    open spec fn view(&self) -> Self::V {
        (self.name@, opt_view(self.original))
    }
}

/// The mathematical ledger: recorded variables in order.
pub type LedgerView = Seq<(Seq<char>, Option<Seq<char>>)>;

/// The undo ledger.
pub struct Data {
    pub entries: Vec<Entry>,
}

/// The view of a sequence of entries.
pub open spec fn entries_view(s: Seq<Entry>) -> LedgerView {
    Seq::new(s.len(), |i: int| s[i]@)
}

impl View for Data {
    type V = LedgerView;

    open spec fn view(&self) -> LedgerView {
        entries_view(self.entries@)
    }
}

/// A ledger is a mapping: each variable name is recorded at most once.
pub open spec fn unique_names(s: LedgerView) -> bool {
    forall|i: int, j: int| 0 <= i < j < s.len() ==> s[i].0 != s[j].0
}

impl Data {
    /// Well-formed: the ledger is a mapping from names to original values.
    pub open spec fn wf(&self) -> bool {
        unique_names(self@)
    }

    /// An empty ledger.
    pub fn empty() -> (d: Data)
        ensures
            d@ =~= Seq::<(Seq<char>, Option<Seq<char>>)>::empty(),
            d.wf(),
    {
        Data { entries: Vec::new() }
    }
}

// ---------------------------------------------------------------------------
// Serialization.
// ---------------------------------------------------------------------------
/// The escaped form of one character inside a JSON string literal.
pub open spec fn esc_char(c: char) -> Seq<char> {
    if c == '"' {
        seq!['\\', '"']
    } else if c == '\\' {
        seq!['\\', '\\']
    } else if (c as u32) < 0x20 {
        seq![
            '\\',
            'u',
            '0',
            '0',
            hex_char_of((c as u32 / 16) as int),
            hex_char_of((c as u32 % 16) as int),
        ]
    } else {
        seq![c]
    }
}

/// The escaped body of a JSON string literal.
pub open spec fn esc_str(s: Seq<char>) -> Seq<char> {
    concat_map(s, |c: char| esc_char(c))
}

/// A JSON string literal.
pub open spec fn spec_json_string(s: Seq<char>) -> Seq<char> {
    seq!['"'] + esc_str(s) + seq!['"']
}

/// A member value: a string literal or `null`.
pub open spec fn spec_json_value(v: Option<Seq<char>>) -> Seq<char> {
    match v {
        Some(s) => spec_json_string(s),
        None => seq!['n', 'u', 'l', 'l'],
    }
}

/// One object member.
pub open spec fn spec_json_entry(e: (Seq<char>, Option<Seq<char>>)) -> Seq<char> {
    spec_json_string(e.0) + seq![':'] + spec_json_value(e.1)
}

/// The members after the first, each preceded by a comma.
pub open spec fn spec_json_tail(s: LedgerView) -> Seq<char> {
    concat_map(s, |e: (Seq<char>, Option<Seq<char>>)| seq![','] + spec_json_entry(e))
}

/// The serialized ledger object.
pub open spec fn spec_ledger_json(s: LedgerView) -> Seq<char> {
    if s.len() == 0 {
        seq!['{', '}']
    } else {
        seq!['{'] + spec_json_entry(s[0]) + spec_json_tail(s.drop_first()) + seq!['}']
    }
}

/// Appends the escaped form of one character.
fn push_esc_char(out: &mut String, c: char)
    ensures
        final(out)@ == old(out)@ + esc_char(c),
{
    if c == '"' {
        push_char(out, '\\');
        push_char(out, '"');
    } else if c == '\\' {
        push_char(out, '\\');
        push_char(out, '\\');
    } else if (c as u32) < 0x20 {
        let code = c as u32;
        push_char(out, '\\');
        push_char(out, 'u');
        push_char(out, '0');
        push_char(out, '0');
        push_char(out, hex_digit_char((code / 16) as u64));
        push_char(out, hex_digit_char((code % 16) as u64));
    } else {
        push_char(out, c);
    }
    proof {
        assert(final(out)@ =~= old(out)@ + esc_char(c));
    }
}

/// Appends a JSON string literal for `s`.
fn push_json_string(out: &mut String, s: &str)
    ensures
        final(out)@ == old(out)@ + spec_json_string(s@),
{
    push_char(out, '"');
    let len = s.unicode_len();
    let mut i: usize = 0;
    while i < len
        invariant
            i <= len,
            len == s@.len(),
            out@ == old(out)@ + seq!['"'] + esc_str(s@.subrange(0, i as int)),
        decreases len - i,
    {
        let c = s.get_char(i);
        push_esc_char(out, c);
        proof {
            assert(s@.subrange(0, i as int).push(s@[i as int]) =~= s@.subrange(0, i as int + 1));
            lemma_concat_map_push(s@.subrange(0, i as int), |c: char| esc_char(c), s@[i as int]);
        }
        i = i + 1;
    }
    push_char(out, '"');
    proof {
        assert(s@.subrange(0, len as int) =~= s@);
        assert(final(out)@ =~= old(out)@ + spec_json_string(s@));
    }
}

/// Appends one object member.
fn push_json_entry(out: &mut String, e: &Entry)
    ensures
        final(out)@ == old(out)@ + spec_json_entry(e@),
{
    push_json_string(out, self_name(e));
    push_char(out, ':');
    match &e.original {
        Some(v) => {
            push_json_string(out, v.as_str());
        },
        None => {
            push_char(out, 'n');
            push_char(out, 'u');
            push_char(out, 'l');
            push_char(out, 'l');
        },
    }
    proof {
        assert(final(out)@ =~= old(out)@ + spec_json_entry(e@));
    }
}

/// The name of an entry, as a string slice.
fn self_name(e: &Entry) -> (r: &str)
    ensures
        r@ == e@.0,
{
    e.name.as_str()
}

impl Data {
    /// Serializes the ledger as its canonical JSON object.
    pub fn to_json(&self) -> (r: String)
        ensures
            r@ == spec_ledger_json(self@),
    {
        let mut out = String::new();
        push_char(&mut out, '{');
        let n = self.entries.len();
        let mut i: usize = 0;
        while i < n
            invariant
                i <= n,
                n == self.entries@.len(),
                i == 0 ==> out@ == seq!['{'],
                i > 0 ==> out@ == seq!['{'] + spec_json_entry(self@[0]) + spec_json_tail(
                    self@.subrange(1, i as int),
                ),
            decreases n - i,
        {
            if i > 0 {
                push_char(&mut out, ',');
            }
            push_json_entry(&mut out, &self.entries[i]);
            proof {
                if i > 0 {
                    assert(self@.subrange(1, i as int).push(self@[i as int]) =~= self@.subrange(
                        1,
                        i as int + 1,
                    ));
                    lemma_concat_map_push(
                        self@.subrange(1, i as int),
                        |e: (Seq<char>, Option<Seq<char>>)| seq![','] + spec_json_entry(e),
                        self@[i as int],
                    );
                    assert(out@ =~= seq!['{'] + spec_json_entry(self@[0]) + spec_json_tail(
                        self@.subrange(1, i as int + 1),
                    ));
                } else {
                    assert(self@.subrange(1, 1) =~= Seq::<(Seq<char>, Option<Seq<char>>)>::empty());
                    assert(out@ =~= seq!['{'] + spec_json_entry(self@[0]) + spec_json_tail(
                        self@.subrange(1, 1),
                    ));
                }
            }
            i = i + 1;
        }
        push_char(&mut out, '}');
        proof {
            if n > 0 {
                assert(self@.subrange(1, n as int) =~= self@.drop_first());
                assert(out@ =~= spec_ledger_json(self@));
            } else {
                assert(out@ =~= spec_ledger_json(self@));
            }
        }
        out
    }
}

// ---------------------------------------------------------------------------
// Parsing.
// ---------------------------------------------------------------------------
/// The control character with the given code.
pub open spec fn ctrl_char_of(n: int) -> char {
    if n == 0 {
        '\x00'
    } else if n == 1 {
        '\x01'
    } else if n == 2 {
        '\x02'
    } else if n == 3 {
        '\x03'
    } else if n == 4 {
        '\x04'
    } else if n == 5 {
        '\x05'
    } else if n == 6 {
        '\x06'
    } else if n == 7 {
        '\x07'
    } else if n == 8 {
        '\x08'
    } else if n == 9 {
        '\x09'
    } else if n == 10 {
        '\x0a'
    } else if n == 11 {
        '\x0b'
    } else if n == 12 {
        '\x0c'
    } else if n == 13 {
        '\x0d'
    } else if n == 14 {
        '\x0e'
    } else if n == 15 {
        '\x0f'
    } else if n == 16 {
        '\x10'
    } else if n == 17 {
        '\x11'
    } else if n == 18 {
        '\x12'
    } else if n == 19 {
        '\x13'
    } else if n == 20 {
        '\x14'
    } else if n == 21 {
        '\x15'
    } else if n == 22 {
        '\x16'
    } else if n == 23 {
        '\x17'
    } else if n == 24 {
        '\x18'
    } else if n == 25 {
        '\x19'
    } else if n == 26 {
        '\x1a'
    } else if n == 27 {
        '\x1b'
    } else if n == 28 {
        '\x1c'
    } else if n == 29 {
        '\x1d'
    } else if n == 30 {
        '\x1e'
    } else {
        '\x1f'
    }
}

/// Reads a string literal body: `t` starts right after the opening quote.
/// Yields the decoded value and what follows the closing quote.
pub open spec fn spec_parse_jstring(t: Seq<char>) -> Option<(Seq<char>, Seq<char>)>
    decreases t.len(),
{
    if t.len() == 0 {
        None
    } else if t[0] == '"' {
        Some((Seq::empty(), t.drop_first()))
    } else if t[0] == '\\' {
        if t.len() >= 2 && (t[1] == '"' || t[1] == '\\') {
            match spec_parse_jstring(t.skip(2)) {
                Some((v, r)) => Some((seq![t[1]] + v, r)),
                None => None,
            }
        } else if t.len() >= 6 && t[1] == 'u' && t[2] == '0' && t[3] == '0' && is_hex_char(t[4])
            && is_hex_char(t[5]) && hex_val_of(t[4]) * 16 + hex_val_of(t[5]) < 0x20 {
            match spec_parse_jstring(t.skip(6)) {
                Some((v, r)) => Some(
                    (seq![ctrl_char_of(hex_val_of(t[4]) * 16 + hex_val_of(t[5]))] + v, r),
                ),
                None => None,
            }
        } else {
            None
        }
    } else if (t[0] as u32) < 0x20 {
        None
    } else {
        match spec_parse_jstring(t.drop_first()) {
            Some((v, r)) => Some((seq![t[0]] + v, r)),
            None => None,
        }
    }
}

/// Reads a member value: a string literal or `null`.
pub open spec fn spec_parse_jvalue(t: Seq<char>) -> Option<(Option<Seq<char>>, Seq<char>)> {
    if t.len() >= 1 && t[0] == '"' {
        match spec_parse_jstring(t.drop_first()) {
            Some((v, r)) => Some((Some(v), r)),
            None => None,
        }
    } else if t.len() >= 4 && t[0] == 'n' && t[1] == 'u' && t[2] == 'l' && t[3] == 'l' {
        Some((None, t.skip(4)))
    } else {
        None
    }
}

/// Reads one object member: a quoted name, a colon, and a value.
pub open spec fn spec_parse_jentry(t: Seq<char>) -> Option<
    ((Seq<char>, Option<Seq<char>>), Seq<char>),
> {
    if t.len() >= 1 && t[0] == '"' {
        match spec_parse_jstring(t.drop_first()) {
            Some((name, r)) => if r.len() >= 1 && r[0] == ':' {
                match spec_parse_jvalue(r.drop_first()) {
                    Some((v, r2)) => Some(((name, v), r2)),
                    None => None,
                }
            } else {
                None
            },
            None => None,
        }
    } else {
        None
    }
}

pub proof fn lemma_jstring_shrinks(t: Seq<char>)
    requires
        spec_parse_jstring(t) is Some,
    ensures
        spec_parse_jstring(t)->Some_0.1.len() < t.len(),
    decreases t.len(),
{
    if t[0] == '"' {
    } else if t[0] == '\\' {
        if t.len() >= 2 && (t[1] == '"' || t[1] == '\\') {
            lemma_jstring_shrinks(t.skip(2));
        } else {
            lemma_jstring_shrinks(t.skip(6));
        }
    } else {
        lemma_jstring_shrinks(t.drop_first());
    }
}

pub proof fn lemma_jentry_shrinks(t: Seq<char>)
    requires
        spec_parse_jentry(t) is Some,
    ensures
        spec_parse_jentry(t)->Some_0.1.len() < t.len(),
{
    lemma_jstring_shrinks(t.drop_first());
    let r = spec_parse_jstring(t.drop_first())->Some_0.1;
    if r.len() >= 1 && r[0] == ':' {
        let u = r.drop_first();
        if u.len() >= 1 && u[0] == '"' {
            lemma_jstring_shrinks(u.drop_first());
        }
    }
}

/// Reads the members after the first: either a closing brace, or a comma
/// followed by a member and the rest.
pub open spec fn spec_parse_obj_tail(t: Seq<char>) -> Option<(LedgerView, Seq<char>)>
    decreases t.len(),
        via spec_parse_obj_tail_decreases
{
    if t.len() == 0 {
        None
    } else if t[0] == '}' {
        Some((Seq::empty(), t.drop_first()))
    } else if t[0] == ',' {
        match spec_parse_jentry(t.drop_first()) {
            Some((e, r)) => match spec_parse_obj_tail(r) {
                Some((es, r2)) => Some((seq![e] + es, r2)),
                None => None,
            },
            None => None,
        }
    } else {
        None
    }
}

#[via_fn]
proof fn spec_parse_obj_tail_decreases(t: Seq<char>) {
    if t.len() > 0 && t[0] != '}' && t[0] == ',' {
        if spec_parse_jentry(t.drop_first()) is Some {
            lemma_jentry_shrinks(t.drop_first());
        }
    }
}

/// Reads a whole object.
pub open spec fn spec_parse_obj(t: Seq<char>) -> Option<(LedgerView, Seq<char>)> {
    if t.len() >= 1 && t[0] == '{' {
        if t.len() >= 2 && t[1] == '}' {
            Some((Seq::empty(), t.skip(2)))
        } else {
            match spec_parse_jentry(t.drop_first()) {
                Some((e, r)) => match spec_parse_obj_tail(r) {
                    Some((es, r2)) => Some((seq![e] + es, r2)),
                    None => None,
                },
                None => None,
            }
        }
    } else {
        None
    }
}

/// Reads a ledger document: a whole object, nothing after it, and no name
/// recorded twice.
pub open spec fn spec_parse_ledger(t: Seq<char>) -> Option<LedgerView> {
    match spec_parse_obj(t) {
        Some((es, r)) => if r.len() == 0 && unique_names(es) {
            Some(es)
        } else {
            None
        },
        None => None,
    }
}

/// Prefixes the value of a partial string-literal parse.
pub open spec fn spec_prepend(prefix: Seq<char>, r: Option<(Seq<char>, Seq<char>)>) -> Option<
    (Seq<char>, Seq<char>),
> {
    match r {
        Some((v, rest)) => Some((prefix + v, rest)),
        None => None,
    }
}

/// Prefixes the members of a partial object parse.
pub open spec fn spec_prepend_entries(prefix: LedgerView, r: Option<(LedgerView, Seq<char>)>)
    -> Option<(LedgerView, Seq<char>)> {
    match r {
        Some((es, rest)) => Some((prefix + es, rest)),
        None => None,
    }
}

/// The control character with the given code.
fn ctrl_char(n: u64) -> (c: char)
    requires
        n < 32,
    ensures
        c == ctrl_char_of(n as int),
{
    if n == 0 {
        '\x00'
    } else if n == 1 {
        '\x01'
    } else if n == 2 {
        '\x02'
    } else if n == 3 {
        '\x03'
    } else if n == 4 {
        '\x04'
    } else if n == 5 {
        '\x05'
    } else if n == 6 {
        '\x06'
    } else if n == 7 {
        '\x07'
    } else if n == 8 {
        '\x08'
    } else if n == 9 {
        '\x09'
    } else if n == 10 {
        '\x0a'
    } else if n == 11 {
        '\x0b'
    } else if n == 12 {
        '\x0c'
    } else if n == 13 {
        '\x0d'
    } else if n == 14 {
        '\x0e'
    } else if n == 15 {
        '\x0f'
    } else if n == 16 {
        '\x10'
    } else if n == 17 {
        '\x11'
    } else if n == 18 {
        '\x12'
    } else if n == 19 {
        '\x13'
    } else if n == 20 {
        '\x14'
    } else if n == 21 {
        '\x15'
    } else if n == 22 {
        '\x16'
    } else if n == 23 {
        '\x17'
    } else if n == 24 {
        '\x18'
    } else if n == 25 {
        '\x19'
    } else if n == 26 {
        '\x1a'
    } else if n == 27 {
        '\x1b'
    } else if n == 28 {
        '\x1c'
    } else if n == 29 {
        '\x1d'
    } else if n == 30 {
        '\x1e'
    } else {
        '\x1f'
    }
}

/// Reads a string literal body starting at `i`, which must sit right after
/// the opening quote. Returns the decoded value and the index right after
/// the closing quote.
fn parse_jstring(s: &str, i: usize) -> (r: Option<(String, usize)>)
    requires
        i <= s@.len(),
    ensures
        match r {
            Some(p) => i <= p.1 <= s@.len() && spec_parse_jstring(s@.skip(i as int)) == Some(
                (p.0@, s@.skip(p.1 as int)),
            ),
            None => spec_parse_jstring(s@.skip(i as int)) is None,
        },
{
    let len = s.unicode_len();
    let mut out = String::new();
    let mut j = i;
    loop
        invariant
            i <= j <= len,
            len == s@.len(),
            spec_parse_jstring(s@.skip(i as int)) == spec_prepend(
                out@,
                spec_parse_jstring(s@.skip(j as int)),
            ),
        decreases len - j,
    {
        if j == len {
            return None;
        }
        let c = s.get_char(j);
        if c == '"' {
            proof {
                assert(s@.skip(j as int).drop_first() =~= s@.skip(j as int + 1));
                assert(out@ + Seq::<char>::empty() =~= out@);
            }
            return Some((out, j + 1));
        }
        if c == '\\' {
            if j + 1 == len {
                return None;
            }
            let c2 = s.get_char(j + 1);
            if c2 == '"' || c2 == '\\' {
                proof {
                    assert(s@.skip(j as int).skip(2) =~= s@.skip(j as int + 2));
                    if spec_parse_jstring(s@.skip(j as int + 2)) is Some {
                        let p = spec_parse_jstring(s@.skip(j as int + 2))->Some_0;
                        assert(out@ + (seq![c2] + p.0) =~= out@.push(c2) + p.0);
                    }
                }
                push_char(&mut out, c2);
                j = j + 2;
            } else if c2 == 'u' {
                if len - j < 6 {
                    return None;
                }
                let c3 = s.get_char(j + 2);
                let c4 = s.get_char(j + 3);
                if c3 != '0' || c4 != '0' {
                    return None;
                }
                let d1 = match hex_digit_val(s.get_char(j + 4)) {
                    Some(d) => d,
                    None => {
                        return None;
                    },
                };
                let d2 = match hex_digit_val(s.get_char(j + 5)) {
                    Some(d) => d,
                    None => {
                        return None;
                    },
                };
                let code = d1 * 16 + d2;
                if code >= 0x20 {
                    return None;
                }
                let ch = ctrl_char(code);
                proof {
                    assert(s@.skip(j as int).skip(6) =~= s@.skip(j as int + 6));
                    if spec_parse_jstring(s@.skip(j as int + 6)) is Some {
                        let p = spec_parse_jstring(s@.skip(j as int + 6))->Some_0;
                        assert(out@ + (seq![ch] + p.0) =~= out@.push(ch) + p.0);
                    }
                }
                push_char(&mut out, ch);
                j = j + 6;
            } else {
                return None;
            }
        } else if (c as u32) < 0x20 {
            return None;
        } else {
            proof {
                assert(s@.skip(j as int).drop_first() =~= s@.skip(j as int + 1));
                if spec_parse_jstring(s@.skip(j as int + 1)) is Some {
                    let p = spec_parse_jstring(s@.skip(j as int + 1))->Some_0;
                    assert(out@ + (seq![c] + p.0) =~= out@.push(c) + p.0);
                }
            }
            push_char(&mut out, c);
            j = j + 1;
        }
    }
}

/// Reads a member value starting at `i`.
fn parse_jvalue(s: &str, i: usize) -> (r: Option<(Option<String>, usize)>)
    requires
        i <= s@.len(),
    ensures
        match r {
            Some(p) => i <= p.1 <= s@.len() && spec_parse_jvalue(s@.skip(i as int)) == Some(
                (opt_view(p.0), s@.skip(p.1 as int)),
            ),
            None => spec_parse_jvalue(s@.skip(i as int)) is None,
        },
{
    let len = s.unicode_len();
    if i == len {
        return None;
    }
    let c = s.get_char(i);
    if c == '"' {
        proof {
            assert(s@.skip(i as int).drop_first() =~= s@.skip(i as int + 1));
        }
        match parse_jstring(s, i + 1) {
            Some((v, j)) => Some((Some(v), j)),
            None => None,
        }
    } else if c == 'n' {
        if len - i < 4 {
            return None;
        }
        if s.get_char(i + 1) == 'u' && s.get_char(i + 2) == 'l' && s.get_char(i + 3) == 'l' {
            proof {
                assert(s@.skip(i as int).skip(4) =~= s@.skip(i as int + 4));
            }
            Some((None, i + 4))
        } else {
            None
        }
    } else {
        None
    }
}

/// Reads one object member starting at `i`.
fn parse_jentry(s: &str, i: usize) -> (r: Option<(Entry, usize)>)
    requires
        i <= s@.len(),
    ensures
        match r {
            Some(p) => i <= p.1 <= s@.len() && spec_parse_jentry(s@.skip(i as int)) == Some(
                (p.0@, s@.skip(p.1 as int)),
            ),
            None => spec_parse_jentry(s@.skip(i as int)) is None,
        },
{
    let len = s.unicode_len();
    if i == len {
        return None;
    }
    if s.get_char(i) != '"' {
        return None;
    }
    proof {
        assert(s@.skip(i as int).drop_first() =~= s@.skip(i as int + 1));
    }
    let (name, j1) = match parse_jstring(s, i + 1) {
        Some(p) => p,
        None => {
            return None;
        },
    };
    if j1 == len {
        return None;
    }
    if s.get_char(j1) != ':' {
        return None;
    }
    proof {
        assert(s@.skip(j1 as int).drop_first() =~= s@.skip(j1 as int + 1));
    }
    match parse_jvalue(s, j1 + 1) {
        Some((v, j2)) => Some((Entry { name, original: v }, j2)),
        None => None,
    }
}

/// True when no variable name occurs twice.
fn names_unique(entries: &Vec<Entry>) -> (r: bool)
    ensures
        r == unique_names(entries_view(entries@)),
{
    let n = entries.len();
    if n <= 1 {
        return true;
    }
    let mut i: usize = 1;
    while i < n
        invariant
            1 <= i <= n,
            n == entries@.len(),
            forall|a: int, b: int|
                0 <= a < b < i ==> entries_view(entries@)[a].0 != entries_view(entries@)[b].0,
        decreases n - i,
    {
        let mut k: usize = 0;
        while k < i
            invariant
                0 <= k <= i < n,
            n == entries@.len(),
            forall|b: int| 0 <= b < k ==> entries_view(entries@)[b].0 != entries_view(
                entries@,
            )[i as int].0,
            decreases i - k,
        {
            if entries[k].name == entries[i].name {
                proof {
                    assert(entries_view(entries@)[k as int].0 == entries_view(
                        entries@,
                    )[i as int].0);
                    assert(!unique_names(entries_view(entries@)));
                }
                return false;
            }
            k = k + 1;
        }
        i = i + 1;
    }
    true
}

impl Data {
    /// Reads a ledger from its canonical JSON document; `None` when the
    /// document is malformed, has trailing content, or records a name twice.
    pub fn from_json(s: &str) -> (r: Option<Data>)
        ensures
            match r {
                Some(d) => spec_parse_ledger(s@) == Some(d@) && d.wf(),
                None => spec_parse_ledger(s@) is None,
            },
    {
        let len = s.unicode_len();
        if len == 0 {
            return None;
        }
        if s.get_char(0) != '{' {
            return None;
        }
        if len >= 2 && s.get_char(1) == '}' {
            if len == 2 {
                let d = Data::empty();
                proof {
                    assert(s@.skip(2) =~= Seq::<char>::empty());
                }
                return Some(d);
            } else {
                return None;
            }
        }
        proof {
            assert(s@.drop_first() =~= s@.skip(1));
        }
        let (e, first_j) = match parse_jentry(s, 1) {
            Some(p) => p,
            None => {
                return None;
            },
        };
        let mut entries: Vec<Entry> = Vec::new();
        entries.push(e);
        let mut j = first_j;
        proof {
            assert(entries_view(entries@) =~= seq![e@]);
        }
        loop
            invariant
                1 <= j <= len,
                len == s@.len(),
                spec_parse_obj(s@) == spec_prepend_entries(
                    entries_view(entries@),
                    spec_parse_obj_tail(s@.skip(j as int)),
                ),
            decreases len - j,
        {
            if j == len {
                return None;
            }
            let c = s.get_char(j);
            if c == '}' {
                proof {
                    assert(s@.skip(j as int).drop_first() =~= s@.skip(j as int + 1));
                    assert(entries_view(entries@) + Seq::<(Seq<char>, Option<Seq<char>>)>::empty()
                        =~= entries_view(entries@));
                }
                if j + 1 == len {
                    if names_unique(&entries) {
                        return Some(Data { entries });
                    } else {
                        return None;
                    }
                } else {
                    return None;
                }
            } else if c == ',' {
                proof {
                    assert(s@.skip(j as int).drop_first() =~= s@.skip(j as int + 1));
                }
                match parse_jentry(s, j + 1) {
                    None => {
                        return None;
                    },
                    Some((e2, j2)) => {
                        proof {
                            assert(entries_view(entries@.push(e2)) =~= entries_view(entries@).push(
                                e2@,
                            ));
                            if spec_parse_obj_tail(s@.skip(j2 as int)) is Some {
                                let p = spec_parse_obj_tail(s@.skip(j2 as int))->Some_0;
                                assert(entries_view(entries@) + (seq![e2@] + p.0) =~= entries_view(
                                    entries@,
                                ).push(e2@) + p.0);
                            }
                        }
                        entries.push(e2);
                        j = j2;
                    },
                }
            } else {
                return None;
            }
        }
    }
}

// ---------------------------------------------------------------------------
// The writer and the reader are inverse.
// ---------------------------------------------------------------------------
proof fn lemma_ctrl_char_of_code(c: char)
    requires
        (c as u32) < 0x20,
    ensures
        ctrl_char_of(c as u32 as int) == c,
{
}

/// Reading a string literal body built by the writer yields the original
/// value and leaves exactly what followed the closing quote.
pub proof fn lemma_jstring_round_trip(v: Seq<char>, rest: Seq<char>)
    ensures
        spec_parse_jstring(esc_str(v) + seq!['"'] + rest) == Some((v, rest)),
    decreases v.len(),
{
    let t = esc_str(v) + seq!['"'] + rest;
    if v.len() == 0 {
        assert(esc_str(v) == Seq::<char>::empty());
        assert(t[0] == '"');
        assert(t.drop_first() =~= rest);
        assert(v =~= Seq::<char>::empty());
    } else {
        let c = v[0];
        let v1 = v.drop_first();
        assert(esc_str(v) == esc_char(c) + esc_str(v1));
        lemma_jstring_round_trip(v1, rest);
        let t1 = esc_str(v1) + seq!['"'] + rest;
        assert(seq![c] + v1 =~= v);
        if c == '"' {
            assert(t[0] == '\\' && t[1] == '"');
            assert(t.len() >= 2);
            assert(t.skip(2) =~= t1);
            assert(seq![t[1]] + v1 =~= v);
        } else if c == '\\' {
            assert(t[0] == '\\' && t[1] == '\\');
            assert(t.len() >= 2);
            assert(t.skip(2) =~= t1);
            assert(seq![t[1]] + v1 =~= v);
        } else if (c as u32) < 0x20 {
            let code = c as u32 as int;
            assert(t[0] == '\\' && t[1] == 'u' && t[2] == '0' && t[3] == '0');
            assert(t[4] == hex_char_of((c as u32 / 16) as int));
            assert(t[5] == hex_char_of((c as u32 % 16) as int));
            assert(is_hex_char(t[4]) && is_hex_char(t[5]));
            assert(hex_val_of(t[4]) == code / 16);
            assert(hex_val_of(t[5]) == code % 16);
            vstd::arithmetic::div_mod::lemma_fundamental_div_mod(code, 16);
            assert(hex_val_of(t[4]) * 16 + hex_val_of(t[5]) == code);
            assert(t.len() >= 6);
            assert(t.skip(6) =~= t1);
            lemma_ctrl_char_of_code(c);
            assert(seq![ctrl_char_of(code)] + v1 =~= v);
        } else {
            assert(t[0] == c);
            assert(t[0] != '"' && t[0] != '\\' && !((t[0] as u32) < 0x20));
            assert(t.drop_first() =~= t1);
            assert(seq![t[0]] + v1 =~= v);
        }
    }
}

pub proof fn lemma_jvalue_round_trip(ov: Option<Seq<char>>, rest: Seq<char>)
    ensures
        spec_parse_jvalue(spec_json_value(ov) + rest) == Some((ov, rest)),
{
    let t = spec_json_value(ov) + rest;
    match ov {
        Some(s) => {
            assert(t[0] == '"');
            assert(t.drop_first() =~= esc_str(s) + seq!['"'] + rest);
            lemma_jstring_round_trip(s, rest);
        },
        None => {
            assert(t[0] == 'n' && t[1] == 'u' && t[2] == 'l' && t[3] == 'l');
            assert(t.len() >= 4);
            assert(t.skip(4) =~= rest);
        },
    }
}

pub proof fn lemma_jentry_round_trip(e: (Seq<char>, Option<Seq<char>>), rest: Seq<char>)
    ensures
        spec_parse_jentry(spec_json_entry(e) + rest) == Some((e, rest)),
{
    let t = spec_json_entry(e) + rest;
    let after = seq![':'] + spec_json_value(e.1) + rest;
    assert(t[0] == '"');
    assert(t.drop_first() =~= esc_str(e.0) + seq!['"'] + after);
    lemma_jstring_round_trip(e.0, after);
    assert(after[0] == ':');
    assert(after.drop_first() =~= spec_json_value(e.1) + rest);
    lemma_jvalue_round_trip(e.1, rest);
}

pub proof fn lemma_obj_tail_round_trip(es: LedgerView, rest: Seq<char>)
    ensures
        spec_parse_obj_tail(spec_json_tail(es) + seq!['}'] + rest) == Some((es, rest)),
    decreases es.len(),
{
    let t = spec_json_tail(es) + seq!['}'] + rest;
    if es.len() == 0 {
        assert(spec_json_tail(es) == Seq::<char>::empty());
        assert(t[0] == '}');
        assert(t.drop_first() =~= rest);
        assert(es =~= Seq::<(Seq<char>, Option<Seq<char>>)>::empty());
    } else {
        let e = es[0];
        let es1 = es.drop_first();
        assert(spec_json_tail(es) == (seq![','] + spec_json_entry(e)) + spec_json_tail(es1));
        assert(t[0] == ',');
        let after = spec_json_tail(es1) + seq!['}'] + rest;
        assert(t.drop_first() =~= spec_json_entry(e) + after);
        lemma_jentry_round_trip(e, after);
        lemma_obj_tail_round_trip(es1, rest);
        assert(seq![e] + es1 =~= es);
    }
}

pub proof fn lemma_obj_round_trip(es: LedgerView)
    ensures
        spec_parse_obj(spec_ledger_json(es)) == Some((es, Seq::<char>::empty())),
{
    let t = spec_ledger_json(es);
    if es.len() == 0 {
        assert(t[0] == '{' && t[1] == '}');
        assert(t.skip(2) =~= Seq::<char>::empty());
        assert(es =~= Seq::<(Seq<char>, Option<Seq<char>>)>::empty());
    } else {
        let e = es[0];
        let es1 = es.drop_first();
        let after = spec_json_tail(es1) + seq!['}'] + Seq::<char>::empty();
        assert(t[0] == '{');
        assert(t[1] == '"');
        assert(t.drop_first() =~= spec_json_entry(e) + after);
        lemma_jentry_round_trip(e, after);
        lemma_obj_tail_round_trip(es1, Seq::<char>::empty());
        assert(seq![e] + es1 =~= es);
    }
}

/// The canonical document of a well-formed ledger parses back to exactly
/// that ledger.
pub proof fn lemma_ledger_round_trip(es: LedgerView)
    requires
        unique_names(es),
    ensures
        spec_parse_ledger(spec_ledger_json(es)) == Some(es),
{
    lemma_obj_round_trip(es);
}

} // verus!
