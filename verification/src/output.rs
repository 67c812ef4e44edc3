//! The three wire formats for handing the variable delta back to the
//! calling shell.
//!
//! POSIX and fish modes emit lines the shell evaluates directly; porcelain
//! mode is a binary-safe framing for a shell's own script layer: each record
//! is an opcode byte, 0x1F-separated fields, and a 0x1E terminator. The
//! trailing record separator is emitted for compatibility, but consumers
//! must not depend on it.

use vstd::prelude::*;

use crate::chars::{concat_map, lemma_concat_map_push};
use crate::escape::{shell_escape, spec_shell_escape};
use crate::strutil::push_char;
use crate::undo::LedgerView;
use crate::shadowenv::exports_view;

verus! {

/// One POSIX line: `export NAME=value` (quoted) or `unset NAME`.
pub open spec fn spec_posix_line(e: (Seq<char>, Option<Seq<char>>)) -> Seq<char> {
    match e.1 {
        Some(v) => ("export ")@ + e.0 + seq!['='] + spec_shell_escape(v) + seq!['\n'],
        None => ("unset ")@ + e.0 + seq!['\n'],
    }
}

/// POSIX output: the state assignment line, then one line per variable.
pub open spec fn spec_posix_output(state: Seq<char>, exports: LedgerView) -> Seq<char> {
    ("__shadowenv_data=")@ + spec_shell_escape(state) + seq!['\n'] + concat_map(
        exports,
        |e: (Seq<char>, Option<Seq<char>>)| spec_posix_line(e),
    )
}

/// A quoted value re-spelled as a fish list: every colon outside the quotes
/// becomes a quoted-word break (`' '`).
pub open spec fn spec_colon_list(s: Seq<char>) -> Seq<char> {
    concat_map(
        s,
        |c: char|
            if c == ':' {
                seq!['\'', ' ', '\'']
            } else {
                seq![c]
            },
    )
}

/// One fish line; the search-path variable gets list treatment.
pub open spec fn spec_fish_line(e: (Seq<char>, Option<Seq<char>>)) -> Seq<char> {
    match e.1 {
        Some(v) => if e.0 == ("PATH")@ {
            ("set -gx ")@ + e.0 + seq![' '] + spec_colon_list(spec_shell_escape(v)) + seq!['\n']
        } else {
            ("set -gx ")@ + e.0 + seq![' '] + spec_shell_escape(v) + seq!['\n']
        },
        None => ("set -e ")@ + e.0 + seq!['\n'],
    }
}

/// fish output: the state assignment line, then one line per variable.
pub open spec fn spec_fish_output(state: Seq<char>, exports: LedgerView) -> Seq<char> {
    ("set -g __shadowenv_data ")@ + spec_shell_escape(state) + seq!['\n'] + concat_map(
        exports,
        |e: (Seq<char>, Option<Seq<char>>)| spec_fish_line(e),
    )
}

/// One porcelain record: opcode 2 (set, exported) carries name and value;
/// opcode 3 (unset) carries the name and an empty value field.
pub open spec fn spec_porcelain_record(e: (Seq<char>, Option<Seq<char>>)) -> Seq<char> {
    match e.1 {
        Some(v) => seq!['\x02', '\x1f'] + e.0 + seq!['\x1f'] + v + seq!['\x1e'],
        None => seq!['\x03', '\x1f'] + e.0 + seq!['\x1f', '\x1e'],
    }
}

/// Porcelain output: the opcode-1 pseudo-record carrying the state string
/// under the reserved name, then one record per variable.
pub open spec fn spec_porcelain_output(state: Seq<char>, exports: LedgerView) -> Seq<char> {
    seq!['\x01', '\x1f'] + ("__shadowenv_data")@ + seq!['\x1f'] + state + seq!['\x1e'] + concat_map(
        exports,
        |e: (Seq<char>, Option<Seq<char>>)| spec_porcelain_record(e),
    )
}

/// Renders the POSIX lines.
pub fn encode_posix(state: &str, exports: &Vec<(String, Option<String>)>) -> (r: String)
    ensures
        r@ == spec_posix_output(state@, exports_view(exports@)),
{
    let mut out = String::new();
    out.append("__shadowenv_data=");
    let esc = shell_escape(state);
    out.append(esc.as_str());
    push_char(&mut out, '\n');
    let ghost head = out@;
    let n = exports.len();
    let mut i: usize = 0;
    while i < n
        invariant
            i <= n,
            n == exports@.len(),
            out@ == head + concat_map(
                exports_view(exports@).subrange(0, i as int),
                |e: (Seq<char>, Option<Seq<char>>)| spec_posix_line(e),
            ),
        decreases n - i,
    {
        let e = &exports[i];
        match &e.1 {
            Some(v) => {
                out.append("export ");
                out.append(e.0.as_str());
                push_char(&mut out, '=');
                let ev = shell_escape(v.as_str());
                out.append(ev.as_str());
                push_char(&mut out, '\n');
            },
            None => {
                out.append("unset ");
                out.append(e.0.as_str());
                push_char(&mut out, '\n');
            },
        }
        proof {
            let ghost view = exports_view(exports@);
            assert(view.subrange(0, i as int).push(view[i as int]) =~= view.subrange(
                0,
                i as int + 1,
            ));
            lemma_concat_map_push(
                view.subrange(0, i as int),
                |e: (Seq<char>, Option<Seq<char>>)| spec_posix_line(e),
                view[i as int],
            );
            assert(out@ =~= head + concat_map(
                view.subrange(0, i as int + 1),
                |e: (Seq<char>, Option<Seq<char>>)| spec_posix_line(e),
            ));
        }
        i = i + 1;
    }
    proof {
        assert(exports_view(exports@).subrange(0, n as int) =~= exports_view(exports@));
    }
    out
}

/// Appends a quoted value with every colon turned into a fish list break.
fn append_colon_list(out: &mut String, s: &str)
    ensures
        final(out)@ == old(out)@ + spec_colon_list(s@),
{
    let len = s.unicode_len();
    let mut i: usize = 0;
    while i < len
        invariant
            i <= len,
            len == s@.len(),
            out@ == old(out)@ + spec_colon_list(s@.subrange(0, i as int)),
        decreases len - i,
    {
        let c = s.get_char(i);
        if c == ':' {
            push_char(out, '\'');
            push_char(out, ' ');
            push_char(out, '\'');
        } else {
            push_char(out, c);
        }
        proof {
            assert(s@.subrange(0, i as int).push(s@[i as int]) =~= s@.subrange(0, i as int + 1));
            lemma_concat_map_push(
                s@.subrange(0, i as int),
                |c: char|
                    if c == ':' {
                        seq!['\'', ' ', '\'']
                    } else {
                        seq![c]
                    },
                s@[i as int],
            );
            assert(out@ =~= old(out)@ + spec_colon_list(s@.subrange(0, i as int + 1)));
        }
        i = i + 1;
    }
    proof {
        assert(s@.subrange(0, len as int) =~= s@);
    }
}

/// Renders the fish lines.
pub fn encode_fish(state: &str, exports: &Vec<(String, Option<String>)>) -> (r: String)
    ensures
        r@ == spec_fish_output(state@, exports_view(exports@)),
{
    let mut out = String::new();
    out.append("set -g __shadowenv_data ");
    let esc = shell_escape(state);
    out.append(esc.as_str());
    push_char(&mut out, '\n');
    let ghost head = out@;
    let n = exports.len();
    let mut i: usize = 0;
    while i < n
        invariant
            i <= n,
            n == exports@.len(),
            out@ == head + concat_map(
                exports_view(exports@).subrange(0, i as int),
                |e: (Seq<char>, Option<Seq<char>>)| spec_fish_line(e),
            ),
        decreases n - i,
    {
        let e = &exports[i];
        match &e.1 {
            Some(v) => {
                out.append("set -gx ");
                out.append(e.0.as_str());
                push_char(&mut out, ' ');
                let ev = shell_escape(v.as_str());
                if str_is_path(e.0.as_str()) {
                    append_colon_list(&mut out, ev.as_str());
                } else {
                    out.append(ev.as_str());
                }
                push_char(&mut out, '\n');
            },
            None => {
                out.append("set -e ");
                out.append(e.0.as_str());
                push_char(&mut out, '\n');
            },
        }
        proof {
            let ghost view = exports_view(exports@);
            assert(view.subrange(0, i as int).push(view[i as int]) =~= view.subrange(
                0,
                i as int + 1,
            ));
            lemma_concat_map_push(
                view.subrange(0, i as int),
                |e: (Seq<char>, Option<Seq<char>>)| spec_fish_line(e),
                view[i as int],
            );
            assert(out@ =~= head + concat_map(
                view.subrange(0, i as int + 1),
                |e: (Seq<char>, Option<Seq<char>>)| spec_fish_line(e),
            ));
        }
        i = i + 1;
    }
    proof {
        assert(exports_view(exports@).subrange(0, n as int) =~= exports_view(exports@));
    }
    out
}

/// Whether a variable name is the search-path variable.
fn str_is_path(s: &str) -> (r: bool)
    ensures
        r == (s@ == ("PATH")@),
{
    let len = s.unicode_len();
    proof {
        reveal_strlit("PATH");
    }
    if len != 4 {
        return false;
    }
    let r = s.get_char(0) == 'P' && s.get_char(1) == 'A' && s.get_char(2) == 'T' && s.get_char(3)
        == 'H';
    proof {
        if r {
            assert(s@ =~= ("PATH")@);
        }
    }
    r
}

/// Renders the porcelain records.
pub fn encode_porcelain(state: &str, exports: &Vec<(String, Option<String>)>) -> (r: String)
    ensures
        r@ == spec_porcelain_output(state@, exports_view(exports@)),
{
    let mut out = String::new();
    push_char(&mut out, '\x01');
    push_char(&mut out, '\x1f');
    out.append("__shadowenv_data");
    push_char(&mut out, '\x1f');
    out.append(state);
    push_char(&mut out, '\x1e');
    proof {
        assert(out@ =~= seq!['\x01', '\x1f'] + ("__shadowenv_data")@ + seq!['\x1f'] + state@ + seq![
            '\x1e',
        ]);
    }
    let ghost head = out@;
    let n = exports.len();
    let mut i: usize = 0;
    while i < n
        invariant
            i <= n,
            n == exports@.len(),
            out@ == head + concat_map(
                exports_view(exports@).subrange(0, i as int),
                |e: (Seq<char>, Option<Seq<char>>)| spec_porcelain_record(e),
            ),
        decreases n - i,
    {
        let e = &exports[i];
        match &e.1 {
            Some(v) => {
                push_char(&mut out, '\x02');
                push_char(&mut out, '\x1f');
                out.append(e.0.as_str());
                push_char(&mut out, '\x1f');
                out.append(v.as_str());
                push_char(&mut out, '\x1e');
            },
            None => {
                push_char(&mut out, '\x03');
                push_char(&mut out, '\x1f');
                out.append(e.0.as_str());
                push_char(&mut out, '\x1f');
                push_char(&mut out, '\x1e');
            },
        }
        proof {
            let ghost view = exports_view(exports@);
            assert(view.subrange(0, i as int).push(view[i as int]) =~= view.subrange(
                0,
                i as int + 1,
            ));
            lemma_concat_map_push(
                view.subrange(0, i as int),
                |e: (Seq<char>, Option<Seq<char>>)| spec_porcelain_record(e),
                view[i as int],
            );
            assert(out@ =~= head + concat_map(
                view.subrange(0, i as int + 1),
                |e: (Seq<char>, Option<Seq<char>>)| spec_porcelain_record(e),
            ));
        }
        i = i + 1;
    }
    proof {
        assert(exports_view(exports@).subrange(0, n as int) =~= exports_view(exports@));
    }
    out
}

} // verus!
