//! Shell quoting for the POSIX and fish output modes.
//!
//! A value made only of safe word characters is emitted as-is; anything
//! else is wrapped in single quotes, with each embedded single quote spelled
//! `'\''` (close the quotes, escape one quote, reopen). A small model of how
//! a POSIX shell reads a word shows that evaluation gives back exactly the
//! original bytes.

use vstd::prelude::*;

use crate::chars::{concat_map, lemma_concat_map_push};
use crate::strutil::push_char;

verus! {

/// Characters a POSIX shell passes through unchanged in a bare word.
pub open spec fn is_safe_char(c: char) -> bool {
    (('a' as u32) <= (c as u32) && (c as u32) <= ('z' as u32)) || (('A' as u32) <= (c as u32) && (c
        as u32) <= ('Z' as u32)) || (('0' as u32) <= (c as u32) && (c as u32) <= ('9' as u32)) || c
        == '-' || c == '_' || c == '=' || c == '/' || c == ',' || c == '.' || c == '+'
}

pub open spec fn all_safe(s: Seq<char>) -> bool {
    forall|i: int| 0 <= i < s.len() ==> is_safe_char(s[i])
}

/// The spelling of one character inside a single-quoted word.
pub open spec fn quote_char(c: char) -> Seq<char> {
    if c == '\'' {
        seq!['\'', '\\', '\'', '\'']
    } else {
        seq![c]
    }
}

/// The body of the single-quoted spelling of a value.
pub open spec fn quote_inner(s: Seq<char>) -> Seq<char> {
    concat_map(s, |c: char| quote_char(c))
}

/// The shell-quoted spelling of a value: the value itself when it is
/// non-empty and made only of safe characters, otherwise a single-quoted
/// word.
pub open spec fn spec_shell_escape(s: Seq<char>) -> Seq<char> {
    if s.len() > 0 && all_safe(s) {
        s
    } else {
        seq!['\''] + quote_inner(s) + seq!['\'']
    }
}

/// Whether `c` is a safe word character.
fn safe_char(c: char) -> (r: bool)
    ensures
        r == is_safe_char(c),
{
    (('a' as u32) <= (c as u32) && (c as u32) <= ('z' as u32)) || (('A' as u32) <= (c as u32) && (c
        as u32) <= ('Z' as u32)) || (('0' as u32) <= (c as u32) && (c as u32) <= ('9' as u32)) || c
        == '-' || c == '_' || c == '=' || c == '/' || c == ',' || c == '.' || c == '+'
}

/// Whether every character of `s` is a safe word character.
fn all_chars_safe(s: &str) -> (r: bool)
    ensures
        r == all_safe(s@),
{
    let len = s.unicode_len();
    let mut i: usize = 0;
    while i < len
        invariant
            i <= len,
            len == s@.len(),
            forall|j: int| 0 <= j < i ==> is_safe_char(s@[j]),
        decreases len - i,
    {
        if !safe_char(s.get_char(i)) {
            return false;
        }
        i = i + 1;
    }
    true
}

/// Quotes a value so that the shell reproduces it byte for byte.
pub fn shell_escape(s: &str) -> (r: String)
    ensures
        r@ == spec_shell_escape(s@),
{
    let len = s.unicode_len();
    if len > 0 && all_chars_safe(s) {
        return s.to_owned();
    }
    let mut out = String::new();
    push_char(&mut out, '\'');
    let mut i: usize = 0;
    while i < len
        invariant
            i <= len,
            len == s@.len(),
            out@ == seq!['\''] + quote_inner(s@.subrange(0, i as int)),
        decreases len - i,
    {
        let c = s.get_char(i);
        if c == '\'' {
            push_char(&mut out, '\'');
            push_char(&mut out, '\\');
            push_char(&mut out, '\'');
            push_char(&mut out, '\'');
        } else {
            push_char(&mut out, c);
        }
        proof {
            assert(s@.subrange(0, i as int).push(s@[i as int]) =~= s@.subrange(0, i as int + 1));
            lemma_concat_map_push(s@.subrange(0, i as int), |c: char| quote_char(c), s@[i as int]);
            assert(out@ =~= seq!['\''] + quote_inner(s@.subrange(0, i as int + 1)));
        }
        i = i + 1;
    }
    push_char(&mut out, '\'');
    proof {
        assert(s@.subrange(0, len as int) =~= s@);
        assert(out@ =~= seq!['\''] + quote_inner(s@) + seq!['\'']);
    }
    out
}

// ---------------------------------------------------------------------------
// A model of how a POSIX shell reads one word.
// ---------------------------------------------------------------------------
/// The value the shell gives one word, reading left to right: outside
/// quotes, a single quote enters literal mode, a backslash escapes the next
/// character, and a safe character stands for itself — any other unquoted
/// character would be expanded or would split the word, so the word is not a
/// single plain word and the model says `None`. Inside single quotes every
/// character but the closing quote is literal.
pub open spec fn spec_shell_eval_at(s: Seq<char>, in_quote: bool) -> Option<Seq<char>>
    decreases s.len(),
{
    if s.len() == 0 {
        if in_quote {
            None
        } else {
            Some(Seq::empty())
        }
    } else if in_quote {
        if s[0] == '\'' {
            spec_shell_eval_at(s.drop_first(), false)
        } else {
            match spec_shell_eval_at(s.drop_first(), true) {
                Some(v) => Some(seq![s[0]] + v),
                None => None,
            }
        }
    } else if s[0] == '\'' {
        spec_shell_eval_at(s.drop_first(), true)
    } else if s[0] == '\\' {
        if s.len() >= 2 {
            match spec_shell_eval_at(s.skip(2), false) {
                Some(v) => Some(seq![s[1]] + v),
                None => None,
            }
        } else {
            None
        }
    } else if is_safe_char(s[0]) {
        match spec_shell_eval_at(s.drop_first(), false) {
            Some(v) => Some(seq![s[0]] + v),
            None => None,
        }
    } else {
        None
    }
}

/// The value a POSIX shell would produce for one word.
pub open spec fn spec_shell_eval(s: Seq<char>) -> Option<Seq<char>> {
    spec_shell_eval_at(s, false)
}

proof fn lemma_eval_safe(s: Seq<char>, rest: Seq<char>)
    requires
        all_safe(s),
    ensures
        spec_shell_eval_at(s + rest, false) == match spec_shell_eval_at(rest, false) {
            Some(t) => Some(s + t),
            None => None::<Seq<char>>,
        },
    decreases s.len(),
{
    if s.len() == 0 {
        assert(s + rest =~= rest);
        if spec_shell_eval_at(rest, false) is Some {
            assert(s + spec_shell_eval_at(rest, false)->Some_0 =~= spec_shell_eval_at(
                rest,
                false,
            )->Some_0);
        }
    } else {
        let c = s[0];
        let s1 = s.drop_first();
        assert(is_safe_char(c));
        assert(c != '\'' && c != '\\');
        assert((s + rest)[0] == c);
        assert((s + rest).drop_first() =~= s1 + rest);
        lemma_eval_safe(s1, rest);
        if spec_shell_eval_at(rest, false) is Some {
            let t = spec_shell_eval_at(rest, false)->Some_0;
            assert(seq![c] + (s1 + t) =~= s + t);
        }
    }
}

proof fn lemma_eval_quoted(v: Seq<char>, rest: Seq<char>)
    ensures
        spec_shell_eval_at(quote_inner(v) + seq!['\''] + rest, true) == match spec_shell_eval_at(
            rest,
            false,
        ) {
            Some(t) => Some(v + t),
            None => None::<Seq<char>>,
        },
    decreases v.len(),
{
    let t = quote_inner(v) + seq!['\''] + rest;
    if v.len() == 0 {
        assert(quote_inner(v) == Seq::<char>::empty());
        assert(t[0] == '\'');
        assert(t.drop_first() =~= rest);
        if spec_shell_eval_at(rest, false) is Some {
            assert(v + spec_shell_eval_at(rest, false)->Some_0 =~= spec_shell_eval_at(
                rest,
                false,
            )->Some_0);
        }
    } else {
        let c = v[0];
        let v1 = v.drop_first();
        assert(quote_inner(v) == quote_char(c) + quote_inner(v1));
        lemma_eval_quoted(v1, rest);
        assert(seq![c] + v1 =~= v);
        if c == '\'' {
            assert(t[0] == '\'');
            let u = t.drop_first();
            assert(u =~= seq!['\\', '\'', '\''] + quote_inner(v1) + seq!['\''] + rest);
            assert(u[0] == '\\' && u[1] == '\'');
            assert(u.len() >= 2);
            let w = u.skip(2);
            assert(w =~= seq!['\''] + (quote_inner(v1) + seq!['\''] + rest));
            assert(w[0] == '\'');
            assert(w.drop_first() =~= quote_inner(v1) + seq!['\''] + rest);
            assert(spec_shell_eval_at(t, true) == spec_shell_eval_at(u, false));
            assert(spec_shell_eval_at(u, false) == match spec_shell_eval_at(w, false) {
                Some(x) => Some(seq!['\''] + x),
                None => None::<Seq<char>>,
            });
            assert(spec_shell_eval_at(w, false) == spec_shell_eval_at(w.drop_first(), true));
            if spec_shell_eval_at(rest, false) is Some {
                let t2 = spec_shell_eval_at(rest, false)->Some_0;
                assert(seq!['\''] + (v1 + t2) =~= v + t2);
            }
        } else {
            assert(t[0] == c);
            assert(t.drop_first() =~= quote_inner(v1) + seq!['\''] + rest);
            if spec_shell_eval_at(rest, false) is Some {
                let t2 = spec_shell_eval_at(rest, false)->Some_0;
                assert(seq![c] + (v1 + t2) =~= v + t2);
            }
        }
    }
}

/// Quoting safety: reading the quoted spelling of any value back through
/// the shell's word rules reproduces the value exactly.
pub proof fn lemma_shell_escape_round_trip(v: Seq<char>)
    ensures
        spec_shell_eval(spec_shell_escape(v)) == Some(v),
{
    if v.len() > 0 && all_safe(v) {
        lemma_eval_safe(v, Seq::<char>::empty());
        assert(v + Seq::<char>::empty() =~= v);
    } else {
        let t = seq!['\''] + quote_inner(v) + seq!['\''];
        assert(t[0] == '\'');
        assert(t.drop_first() =~= quote_inner(v) + seq!['\''] + Seq::<char>::empty());
        lemma_eval_quoted(v, Seq::<char>::empty());
        assert(v + Seq::<char>::empty() =~= v);
    }
}

} // verus!
