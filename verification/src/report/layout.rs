//! Building blocks of the human reports: columns, optional lines, latencies
//! and terminal-safe text.

use crate::model::ProbeError;
use crate::net::{hex_char, hex_digit};
use crate::style::{green, red, yellow, Style};
use crate::text::{chars_of, dec, dec_text, glue};
use vstd::prelude::*;
use vstd::utf8::encode_utf8;

verus! {

/// A run of spaces.
pub open spec fn spaces(n: nat) -> Seq<char>
    decreases n,
{
    if n == 0 {
        Seq::empty()
    } else {
        spaces((n - 1) as nat).push(' ')
    }
}

/// The spaces that fill a text up to a width.
pub open spec fn filling(len: nat, width: nat) -> Seq<char> {
    if len < width {
        spaces((width - len) as nat)
    } else {
        Seq::empty()
    }
}

/// A text at the left of a column.
pub open spec fn left(s: Seq<char>, width: nat) -> Seq<char> {
    s + filling(s.len(), width)
}

/// A text at the right of a column.
pub open spec fn right(s: Seq<char>, width: nat) -> Seq<char> {
    filling(s.len(), width) + s
}

/// Append a run of spaces.
fn push_spaces(out: &mut String, n: usize)
    ensures
        final(out)@ == old(out)@ + spaces(n as nat),
{
    let ghost before = out@;
    assert(before + spaces(0) =~= before);
    for i in 0..n
        invariant
            out@ == before + spaces(i as nat),
    {
        out.push(' ');
        assert(out@ =~= before + spaces(i as nat + 1));
    }
}

/// A text at the left of a column.
pub fn pad_left_aligned(s: &str, width: usize) -> (out: String)
    ensures
        out@ == left(s@, width as nat),
{
    let n = s.unicode_len();
    let mut out = s.to_owned();
    if n < width {
        push_spaces(&mut out, width - n);
    } else {
        assert(s@ + Seq::<char>::empty() =~= s@);
    }
    out
}

/// A text at the right of a column.
pub fn pad_right_aligned(s: &str, width: usize) -> (out: String)
    ensures
        out@ == right(s@, width as nat),
{
    let n = s.unicode_len();
    let mut out = String::new();
    if n < width {
        push_spaces(&mut out, width - n);
        assert(out@ =~= spaces((width - n) as nat));
    }
    out.append(s);
    assert(out@ =~= right(s@, width as nat));
    out
}

/// The number of bytes of a text.
pub open spec fn byte_len(s: Seq<char>) -> nat {
    encode_utf8(s).len()
}

/// The larger of two numbers.
pub open spec fn larger(a: nat, b: nat) -> nat {
    if a < b {
        b
    } else {
        a
    }
}

/// A labelled line.
pub open spec fn line(prefix: Seq<char>, text: Seq<char>) -> Seq<char> {
    prefix + text + "\n"@
}

/// A labelled line where there is a text.
pub open spec fn opt_line(prefix: Seq<char>, text: Option<String>) -> Seq<char> {
    match text {
        Some(t) => line(prefix, t@),
        None => Seq::empty(),
    }
}

/// Append a labelled line.
pub fn push_line(out: &mut String, prefix: &str, text: &str)
    ensures
        final(out)@ == old(out)@ + line(prefix@, text@),
{
    let ghost before = out@;
    out.append(prefix);
    out.append(text);
    out.append("\n");
    assert(out@ =~= before + line(prefix@, text@));
}

/// Append a labelled line where there is a text.
pub fn push_opt_line(out: &mut String, prefix: &str, text: &Option<String>)
    ensures
        final(out)@ == old(out)@ + opt_line(prefix@, *text),
{
    let ghost before = out@;
    match text {
        Some(t) => push_line(out, prefix, t.as_str()),
        None => assert(before + Seq::<char>::empty() =~= before),
    }
}

/// A latency as shown: `N ms` when measured, `-` when not.
pub open spec fn ms_text(ms: Option<u64>) -> Seq<char> {
    match ms {
        Some(n) => dec(n as nat) + " ms"@,
        None => "-"@,
    }
}

/// Render an optional millisecond latency: `N ms` when measured, or a bare `-`
/// when unmeasured (a literal `0 ms` would fabricate a measured value).
pub fn ms_or_dash(ms: Option<u64>) -> (out: String)
    ensures
        out@ == ms_text(ms),
{
    match ms {
        Some(n) => {
            let mut out = dec_text(n);
            out.append(" ms");
            out
        },
        None => "-".to_owned(),
    }
}

/// A number as shown, or `-`.
pub open spec fn num_text(v: Option<u64>) -> Seq<char> {
    match v {
        Some(n) => dec(n as nat),
        None => "-"@,
    }
}

/// A number as text, or `-`.
pub fn fmt(v: Option<u64>) -> (out: String)
    ensures
        out@ == num_text(v),
{
    match v {
        Some(n) => dec_text(n),
        None => "-".to_owned(),
    }
}

/// A failure as shown: `{kind} ({message})`.
pub open spec fn failure_text(e: ProbeError) -> Seq<char> {
    e.kind.text() + " ("@ + e.message@ + ")"@
}

/// A failure as text.
pub fn render_failure(e: &ProbeError) -> (out: String)
    ensures
        out@ == failure_text(*e),
{
    let mut out = glue(e.kind.to_text(), " (");
    out.append(e.message.as_str());
    out.append(")");
    out
}

/// A text colored by the class of an HTTP status: 2xx green, 3xx yellow,
/// 4xx/5xx red, everything else plain.
pub open spec fn by_class(color: bool, status: u16, text: Seq<char>) -> Seq<char> {
    if 200 <= status <= 299 {
        green(color, text)
    } else if 300 <= status <= 399 {
        yellow(color, text)
    } else if 400 <= status <= 599 {
        red(color, text)
    } else {
        text
    }
}

/// Color a text by the class of an HTTP status.
pub fn paint_class(style: Style, status: u16, text: &str) -> (out: String)
    ensures
        out@ == by_class(style.on(), status, text@),
{
    if 200 <= status && status <= 299 {
        style.pass(text)
    } else if 300 <= status && status <= 399 {
        style.warn(text)
    } else if 400 <= status && status <= 599 {
        style.fail(text)
    } else {
        text.to_owned()
    }
}

/// Render an HTTP status code, colored by class.
pub fn render_status(style: Style, status: u16) -> (out: String)
    ensures
        out@ == by_class(style.on(), status, dec(status as nat)),
{
    paint_class(style, status, dec_text(status as u64).as_str())
}

/// A number in red unless it is zero.
pub open spec fn count_text(color: bool, n: nat) -> Seq<char> {
    if n > 0 {
        red(color, dec(n))
    } else {
        dec(n)
    }
}

/// Render a number, in red unless it is zero.
pub fn render_count(style: Style, n: usize) -> (out: String)
    ensures
        out@ == count_text(style.on(), n as nat),
{
    let text = dec_text(n as u64);
    if n > 0 {
        style.fail(text.as_str())
    } else {
        text
    }
}

// --- terminal-safe text ------------------------------------------------------------------

/// A character as a snippet shows it.
pub open spec fn safe_char(c: char) -> Seq<char> {
    if c == '\x1b' {
        "\\x1b"@
    } else if c == '\n' {
        "\\n"@
    } else if c == '\t' {
        "\\t"@
    } else if c == '\r' {
        "\\r"@
    } else if c as u32 <= 0x1f || c as u32 == 0x7f {
        "\\x"@.push(hex_char((c as u32) as nat / 16)).push(hex_char((c as u32) as nat % 16))
    } else {
        seq![c]
    }
}

/// A text as a snippet shows it.
pub open spec fn safe_text(s: Seq<char>) -> Seq<char>
    decreases s.len(),
{
    if s.len() == 0 {
        Seq::empty()
    } else {
        safe_text(s.drop_last()) + safe_char(s.last())
    }
}

/// Terminal-safe rendering of a server-controlled body snippet. C0 control
/// characters and DEL — above all the ANSI ESC that a hostile body could
/// otherwise use to spoof the report's own styling, plus newlines that would
/// split the row — are emitted as visible escapes.
pub fn sanitize_snippet(s: &str) -> (out: String)
    ensures
        out@ == safe_text(s@),
{
    let chars = chars_of(s);
    let mut out = String::new();
    assert(out@ =~= Seq::empty());
    for i in 0..chars.len()
        invariant
            chars@ == s@,
            out@ == safe_text(s@.take(i as int)),
    {
        let ghost before = out@;
        assert(s@.take(i as int + 1).drop_last() =~= s@.take(i as int));
        let c = chars[i];
        if c == '\x1b' {
            out.append("\\x1b");
        } else if c == '\n' {
            out.append("\\n");
        } else if c == '\t' {
            out.append("\\t");
        } else if c == '\r' {
            out.append("\\r");
        } else if c as u32 <= 0x1f || c as u32 == 0x7f {
            out.append("\\x");
            out.push(hex_digit((c as u32 / 16) as u64));
            out.push(hex_digit((c as u32 % 16) as u64));
        } else {
            out.push(c);
        }
        assert(out@ =~= before + safe_char(c));
    }
    assert(s@.take(s@.len() as int) =~= s@);
    out
}

/// Whether a character can move the cursor, break the row or start an escape
/// sequence: a C0 control character or DEL.
pub open spec fn is_terminal_control(c: char) -> bool {
    c as u32 <= 0x1f || c as u32 == 0x7f
}

/// No snippet holds a C0 control character, whatever the server sent.
pub proof fn lemma_snippet_is_terminal_safe(s: Seq<char>)
    ensures
        forall|i: int| 0 <= i < safe_text(s).len() ==> !is_terminal_control(#[trigger] safe_text(s)[i]),
    decreases s.len(),
{
    if s.len() > 0 {
        lemma_snippet_is_terminal_safe(s.drop_last());
        let front = safe_text(s.drop_last());
        let tail = safe_char(s.last());
        reveal_strlit("\\x1b");
        reveal_strlit("\\n");
        reveal_strlit("\\t");
        reveal_strlit("\\r");
        reveal_strlit("\\x");
        assert(forall|i: int| 0 <= i < tail.len() ==> !is_terminal_control(#[trigger] tail[i]));
        assert forall|i: int| 0 <= i < safe_text(s).len() implies !is_terminal_control(#[trigger] safe_text(s)[i]) by {
            if i < front.len() {
                assert(!is_terminal_control(front[i]));
            } else {
                assert(safe_text(s)[i] == tail[i - front.len()]);
            }
        }
    }
}

/// A snippet without control characters is shown as it is.
pub proof fn lemma_snippet_keeps_printable(s: Seq<char>)
    requires
        forall|i: int| 0 <= i < s.len() ==> !is_terminal_control(#[trigger] s[i]),
    ensures
        safe_text(s) == s,
    decreases s.len(),
{
    if s.len() > 0 {
        assert(!is_terminal_control(s[s.len() - 1]));
        lemma_snippet_keeps_printable(s.drop_last());
        assert(safe_text(s) =~= s);
    }
}

} // verus!
