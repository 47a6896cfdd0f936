//! Copying log text to the terminal's clipboard with the OSC 52 escape
//! sequence: what is copied, its base64 form, and the status report.
use vstd::prelude::*;

use crate::log_viewer::{selected_text, LogSelection};
use crate::names::view_names;
use crate::strings::{decimal, push_char, usize_to_string};
use vstd::string::StringSliceAdditionalSpecFns;

verus! {

/// The standard base64 alphabet.
pub open spec fn alphabet() -> Seq<char> {
    "ABCDEFGHIJKLMNOPQRSTUVWXYZabcdefghijklmnopqrstuvwxyz0123456789+/"@
}

/// The character for a 6-bit value.
pub open spec fn sextet(v: int) -> char {
    alphabet()[v]
}

/// Standard base64 with `=` padding: each group of three bytes becomes four
/// characters; a last group of one or two bytes is padded.
pub open spec fn base64(bytes: Seq<u8>) -> Seq<char>
    decreases bytes.len(),
{
    if bytes.len() == 0 {
        Seq::empty()
    } else if bytes.len() == 1 {
        let b0 = bytes[0] as int;
        seq![sextet(b0 / 4), sextet((b0 % 4) * 16), '=', '=']
    } else if bytes.len() == 2 {
        let b0 = bytes[0] as int;
        let b1 = bytes[1] as int;
        seq![sextet(b0 / 4), sextet((b0 % 4) * 16 + b1 / 16), sextet((b1 % 16) * 4), '=']
    } else {
        let b0 = bytes[0] as int;
        let b1 = bytes[1] as int;
        let b2 = bytes[2] as int;
        seq![
            sextet(b0 / 4),
            sextet((b0 % 4) * 16 + b1 / 16),
            sextet((b1 % 16) * 4 + b2 / 64),
            sextet(b2 % 64),
        ] + base64(bytes.skip(3))
    }
}

fn sextet_char(v: u8) -> (c: char)
    requires
        v < 64,
    ensures
        c == sextet(v as int),
{
    let a = "ABCDEFGHIJKLMNOPQRSTUVWXYZabcdefghijklmnopqrstuvwxyz0123456789+/";
    proof {
        reveal_strlit("ABCDEFGHIJKLMNOPQRSTUVWXYZabcdefghijklmnopqrstuvwxyz0123456789+/");
    }
    a.get_char(v as usize)
}

/// The base64 encoding of `bytes` (see `base64`).
pub fn base64_encode(bytes: &[u8]) -> (r: String)
    ensures
        r@ == base64(bytes@),
{
    let n = bytes.len();
    let mut out = String::new();
    let mut i: usize = 0;
    assert(bytes@.skip(0) =~= bytes@);
    while n - i >= 3
        invariant
            i <= n,
            n == bytes@.len(),
            out@ + base64(bytes@.skip(i as int)) == base64(bytes@),
        decreases n - i,
    {
        let b0 = bytes[i];
        let b1 = bytes[i + 1];
        let b2 = bytes[i + 2];
        let ghost rest = bytes@.skip(i as int);
        assert(rest.skip(3) =~= bytes@.skip(i + 3));
        assert(rest[0] == b0 && rest[1] == b1 && rest[2] == b2);
        let ghost before = out@;
        push_char(&mut out, sextet_char(b0 / 4));
        push_char(&mut out, sextet_char((b0 % 4) * 16 + b1 / 16));
        push_char(&mut out, sextet_char((b1 % 16) * 4 + b2 / 64));
        push_char(&mut out, sextet_char(b2 % 64));
        assert(out@ =~= before + seq![
            sextet(b0 as int / 4),
            sextet((b0 as int % 4) * 16 + b1 as int / 16),
            sextet((b1 as int % 16) * 4 + b2 as int / 64),
            sextet(b2 as int % 64),
        ]);
        i = i + 3;
    }
    let ghost rest = bytes@.skip(i as int);
    if n - i == 1 {
        let b0 = bytes[i];
        assert(rest[0] == b0);
        push_char(&mut out, sextet_char(b0 / 4));
        push_char(&mut out, sextet_char((b0 % 4) * 16));
        push_char(&mut out, '=');
        push_char(&mut out, '=');
    } else if n - i == 2 {
        let b0 = bytes[i];
        let b1 = bytes[i + 1];
        assert(rest[0] == b0 && rest[1] == b1);
        push_char(&mut out, sextet_char(b0 / 4));
        push_char(&mut out, sextet_char((b0 % 4) * 16 + b1 / 16));
        push_char(&mut out, sextet_char((b1 % 16) * 4));
        push_char(&mut out, '=');
    } else {
        assert(rest.len() == 0);
    }
    assert(out@ =~= base64(bytes@));
    out
}

/// Lines joined by newlines.
pub open spec fn joined(lines: Seq<Seq<char>>) -> Seq<char>
    decreases lines.len(),
{
    if lines.len() == 0 {
        Seq::empty()
    } else if lines.len() == 1 {
        lines[0]
    } else {
        joined(lines.drop_last()) + seq!['\n'] + lines.last()
    }
}

/// What Ctrl+C copies from the log viewer: the selection while one is
/// active, otherwise the whole log.
pub open spec fn copied_text(sel: LogSelection, lines: Seq<Seq<char>>) -> Seq<char> {
    if sel.spec_active() {
        selected_text(sel, lines)
    } else {
        joined(lines)
    }
}

/// The text Ctrl+C copies (see `copied_text`).
pub fn copy_text(selection: &LogSelection, lines: &[String]) -> (r: String)
    ensures
        r@ == copied_text(*selection, view_names(lines@)),
{
    if selection.is_active() {
        return selection.extract(lines);
    }
    let ghost ls = view_names(lines@);
    let mut out = String::new();
    let mut i: usize = 0;
    while i < lines.len()
        invariant
            i <= lines@.len(),
            ls == view_names(lines@),
            out@ == joined(ls.take(i as int)),
        decreases lines.len() - i,
    {
        if i > 0 {
            push_char(&mut out, '\n');
        }
        out.append(lines[i].as_str());
        assert(ls.take(i + 1).drop_last() =~= ls.take(i as int));
        if i == 0 {
            assert(out@ =~= joined(ls.take(1)));
        }
        i = i + 1;
    }
    assert(ls.take(lines.len() as int) =~= ls);
    out
}

/// The escape sequence that puts `text` on the clipboard:
/// `ESC ] 52 ; c ; <base64 of its UTF-8 bytes> BEL`.
pub open spec fn osc52(text: Seq<char>) -> Seq<char> {
    seq!['\x1b'] + "]52;c;"@ + base64(vstd::utf8::encode_utf8(text)) + seq!['\x07']
}

/// The OSC 52 sequence for `text` (see `osc52`).
pub fn osc52_sequence(text: &str) -> (r: String)
    ensures
        r@ == osc52(text@),
{
    let mut out = String::new();
    push_char(&mut out, '\x1b');
    out.append("]52;c;");
    let encoded = base64_encode(text.as_bytes());
    out.append(encoded.as_str());
    push_char(&mut out, '\x07');
    out
}

/// The status report after copying `n` bytes.
pub fn copied_message(n: usize) -> (r: String)
    ensures
        r@ == "Copied selection to clipboard ("@ + decimal(n as nat) + " bytes)"@,
{
    let mut r = "Copied selection to clipboard (".to_owned();
    let d = usize_to_string(n);
    r.append(d.as_str());
    r.append(" bytes)");
    r
}

} // verus!
