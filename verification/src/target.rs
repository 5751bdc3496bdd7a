//! Target parsing: split CLI inputs like `github.com`, `github.com:443`,
//! `1.2.3.4:443` or `[2001:db8::1]:443` into a hostname and a port.

use crate::dns::endpoint::{parse_port_chars, port_of};
use crate::error::DiagError;
use crate::text::{
    all_digits, chars_of, dec, find_char, first_at, has_prefix, is_digit, is_white, last_at, lemma_dec_reads_back,
    lemma_first_at, lemma_first_at_bounds, lemma_last_at, lemma_last_at_bounds, lemma_numeral_parses, lemma_trim,
    rfind_char, slice_of, starts_with, string_of, trim, trim_back, trim_front, trimmed,
};
use vstd::prelude::*;

verus! {

/// A resolved target: a hostname (or literal IP) plus a port.
#[derive(Debug, Clone, PartialEq, Eq)]
pub struct Target {
    /// Hostname, or an IP literal in textual form (bracketed for IPv6).
    pub host: String,
    /// Port to probe.
    pub port: u16,
}

/// What an input stands for: a host and a port, or the reason why it is not a
/// target.
pub open spec fn target_of(input: Seq<char>, default_port: u16) -> Result<(Seq<char>, u16), Seq<char>> {
    let http = "http://"@;
    let https = "https://"@;
    let at = last_at(input, '@');
    if has_prefix(input, http) {
        Err(url_reason(input.skip(http.len() as int)))
    } else if has_prefix(input, https) {
        Err(url_reason(input.skip(https.len() as int)))
    } else if input.len() > 0 && input[0] == '[' {
        bracket_target(input.skip(1), default_port)
    } else if at > 0 {
        Err(
            "looks like a user@host string (this tool takes 'host[:port]', drop the '"@ + input.take(at)
                + "@' prefix)"@,
        )
    } else if one_colon(input) {
        let i = last_at(input, ':');
        let host = input.take(i);
        let port = input.skip(i + 1);
        if host.len() > 0 && all_digits(port) {
            match port_of(port) {
                Some(p) => Ok((host, p)),
                None => Err("port out of range"@),
            }
        } else {
            Err("expected '<host>:<port>'"@)
        }
    } else if trim(input).len() == 0 {
        Err("empty target"@)
    } else {
        Ok((input, default_port))
    }
}

/// Whether there is exactly one colon.
pub open spec fn one_colon(s: Seq<char>) -> bool {
    last_at(s, ':') >= 0 && first_at(s, ':') == last_at(s, ':')
}

/// The reason against a pasted URL.
pub open spec fn url_reason(rest: Seq<char>) -> Seq<char> {
    "looks like a URL (did you mean '"@ + rest + "'? this tool takes 'host[:port]', not a scheme)"@
}

/// What the text behind a `[` stands for: `addr]` or `addr]:port`. Brackets
/// around nothing name no address, whatever follows them.
pub open spec fn bracket_target(rest: Seq<char>, default_port: u16) -> Result<(Seq<char>, u16), Seq<char>> {
    let i = first_at(rest, ']');
    let host = "["@ + rest.take(i) + "]"@;
    let tail = rest.skip(i + 1);
    if i >= rest.len() {
        Err("unterminated '[' "@)
    } else if i == 0 {
        Err("empty address in brackets"@)
    } else if tail.len() == 0 {
        Ok((host, default_port))
    } else {
        let digits = if tail[0] == ':' {
            tail.skip(1)
        } else {
            Seq::empty()
        };
        match port_of(digits) {
            Some(port) => Ok((host, port)),
            None => Err("port out of range"@),
        }
    }
}

/// The error for an input that is not a target.
fn invalid(input: &str, reason: &str) -> (r: DiagError)
    ensures
        r matches DiagError::InvalidTarget { input: i, reason: why } && i@ == input@ && why@ == reason@,
{
    DiagError::InvalidTarget { input: input.to_owned(), reason: reason.to_owned() }
}

/// Parse a port, or the error that names the input.
pub fn parse_port(s: &str, input: &str) -> (r: Result<u16, DiagError>)
    ensures
        r matches Ok(port) ==> port_of(s@) == Some(port),
        r matches Err(e) ==> port_of(s@) is None && (e matches DiagError::InvalidTarget { input: i, reason } && i@
            == input@ && reason@ == "port out of range"@),
{
    let chars = chars_of(s);
    match parse_port_chars(chars.as_slice()) {
        Some(port) => Ok(port),
        None => Err(invalid(input, "port out of range")),
    }
}

/// The reason against a pasted URL.
fn url_hint(rest: &str) -> (out: String)
    ensures
        out@ == url_reason(rest@),
{
    let mut out = "looks like a URL (did you mean '".to_owned();
    out.append(rest);
    out.append("'? this tool takes 'host[:port]', not a scheme)");
    out
}

impl Target {
    /// Parse `input` into a host + port, using `default_port` when no explicit
    /// port is present. The error is [`DiagError::InvalidTarget`] with the
    /// reason.
    pub fn parse(input: &str, default_port: u16) -> (r: Result<Self, DiagError>)
        ensures
            r matches Ok(t) ==> target_of(input@, default_port) == Ok::<(Seq<char>, u16), Seq<char>>((t.host@, t.port)),
            r matches Err(e) ==> (e matches DiagError::InvalidTarget { input: i, reason } && i@ == input@ && target_of(
                input@,
                default_port,
            ) == Err::<(Seq<char>, u16), Seq<char>>(reason@)),
    {
        let chars = chars_of(input);
        let s = chars.as_slice();
        if starts_with(s, "http://") {
            let n = "http://".unicode_len();
            let rest = slice_of(s, n, s.len());
            assert(rest@ =~= input@.skip("http://"@.len() as int));
            let reason = url_hint(string_of(rest.as_slice()).as_str());
            return Err(invalid(input, reason.as_str()));
        }
        if starts_with(s, "https://") {
            let n = "https://".unicode_len();
            let rest = slice_of(s, n, s.len());
            assert(rest@ =~= input@.skip("https://"@.len() as int));
            let reason = url_hint(string_of(rest.as_slice()).as_str());
            return Err(invalid(input, reason.as_str()));
        }
        if s.len() > 0 && s[0] == '[' {
            let rest = slice_of(s, 1, s.len());
            assert(rest@ =~= input@.skip(1));
            return Target::parse_bracketed(rest.as_slice(), default_port, input);
        }
        proof {
            lemma_last_at_bounds(input@, '@');
            lemma_last_at_bounds(input@, ':');
            lemma_first_at_bounds(input@, ':');
        }
        match rfind_char(s, '@') {
            Some(at) => if at > 0 {
                let user = slice_of(s, 0, at);
                assert(user@ =~= input@.take(at as int));
                let mut reason =
                    "looks like a user@host string (this tool takes 'host[:port]', drop the '".to_owned();
                reason.append(string_of(user.as_slice()).as_str());
                reason.append("@' prefix)");
                return Err(invalid(input, reason.as_str()));
            },
            None => {},
        }
        match (find_char(s, ':'), rfind_char(s, ':')) {
            (Some(first), Some(last)) => if first == last {
                let host = slice_of(s, 0, last);
                let port = slice_of(s, last + 1, s.len());
                assert(host@ =~= input@.take(last as int));
                assert(port@ =~= input@.skip(last as int + 1));
                if host.len() > 0 && only_digits(port.as_slice()) {
                    return match parse_port_chars(port.as_slice()) {
                        Some(p) => Ok(Target { host: string_of(host.as_slice()), port: p }),
                        None => Err(invalid(input, "port out of range")),
                    };
                }
                return Err(invalid(input, "expected '<host>:<port>'"));
            },
            _ => {},
        }
        if trimmed(s).len() == 0 {
            return Err(invalid(input, "empty target"));
        }
        Ok(Target { host: input.to_owned(), port: default_port })
    }

    /// Parse the text behind a `[`.
    fn parse_bracketed(rest: &[char], default_port: u16, input: &str) -> (r: Result<Self, DiagError>)
        ensures
            r matches Ok(t) ==> bracket_target(rest@, default_port) == Ok::<(Seq<char>, u16), Seq<char>>(
                (t.host@, t.port),
            ),
            r matches Err(e) ==> (e matches DiagError::InvalidTarget { input: i, reason } && i@ == input@
                && bracket_target(rest@, default_port) == Err::<(Seq<char>, u16), Seq<char>>(reason@)),
    {
        match find_char(rest, ']') {
            None => Err(invalid(input, "unterminated '[' ")),
            Some(i) => {
                let addr = slice_of(rest, 0, i);
                let tail = slice_of(rest, i + 1, rest.len());
                assert(addr@ =~= rest@.take(i as int));
                assert(tail@ =~= rest@.skip(i as int + 1));
                if i == 0 {
                    return Err(invalid(input, "empty address in brackets"));
                }
                let mut host = "[".to_owned();
                host.append(string_of(addr.as_slice()).as_str());
                host.append("]");
                if tail.len() == 0 {
                    return Ok(Target { host, port: default_port });
                }
                let digits = if tail[0] == ':' {
                    slice_of(tail.as_slice(), 1, tail.len())
                } else {
                    Vec::new()
                };
                assert(digits@ =~= (if tail@[0] == ':' {
                    tail@.skip(1)
                } else {
                    Seq::empty()
                }));
                match parse_port_chars(digits.as_slice()) {
                    Some(port) => Ok(Target { host, port }),
                    None => Err(invalid(input, "port out of range")),
                }
            },
        }
    }
}

/// Whether every character is a decimal digit.
fn only_digits(s: &[char]) -> (r: bool)
    ensures
        r == all_digits(s@),
{
    for i in 0..s.len()
        invariant
            forall|j: int| 0 <= j < i ==> is_digit(#[trigger] s@[j]),
    {
        if !('0' <= s[i] && s[i] <= '9') {
            assert(!is_digit(s@[i as int]));
            return false;
        }
    }
    true
}

/// Whether a text is a plain hostname: not empty, and without white space, a
/// colon, an at sign, a slash or a bracket.
pub open spec fn plain_name(host: Seq<char>) -> bool {
    &&& host.len() > 0
    &&& forall|i: int|
        0 <= i < host.len() ==> #[trigger] host[i] != ':' && host[i] != '@' && host[i] != '/' && host[i] != '['
            && !is_white(host[i])
}

/// A target is read as written: a hostname alone has the default port, and one
/// with a port behind a colon has that port.
pub proof fn lemma_target_reads_back(host: Seq<char>, port: u16, default_port: u16)
    requires
        plain_name(host),
    ensures
        target_of(host, default_port) == Ok::<(Seq<char>, u16), Seq<char>>((host, default_port)),
        target_of(host + seq![':'] + dec(port as nat), default_port) == Ok::<(Seq<char>, u16), Seq<char>>((host, port)),
{
    let digits = dec(port as nat);
    let s = host + seq![':'] + digits;
    lemma_dec_reads_back(port as nat);
    lemma_numeral_parses(port as nat, 0xFFFF);
    reveal_strlit("http://");
    reveal_strlit("https://");
    lemma_first_at(host, ':', host.len() as int);
    lemma_last_at(host, ':', -1);
    lemma_last_at(host, '@', -1);
    assert(!has_prefix(host, "http://"@)) by {
        if has_prefix(host, "http://"@) {
            assert(host.take(7)[4] == ':');
            assert(host[4] == ':');
        }
    }
    assert(!has_prefix(host, "https://"@)) by {
        if has_prefix(host, "https://"@) {
            assert(host.take(8)[5] == ':');
            assert(host[5] == ':');
        }
    }
    assert(trim_front(host) == host);
    assert(trim_back(host) == host);
    assert forall|j: int| host.len() < j < s.len() implies s[j] != ':' && s[j] != '@' && s[j] != '/' by {
        assert(s[j] == digits[j - host.len() - 1]);
    }
    lemma_first_at(s, ':', host.len() as int);
    lemma_last_at(s, ':', host.len() as int);
    assert forall|j: int| 0 <= j < s.len() implies s[j] != '@' by {
        if j < host.len() {
            assert(s[j] == host[j]);
        }
    }
    lemma_last_at(s, '@', -1);
    assert(s.take(host.len() as int) =~= host);
    assert(s.skip(host.len() as int + 1) =~= digits);
    assert(s[0] == host[0]);
    assert(!has_prefix(s, "http://"@)) by {
        if has_prefix(s, "http://"@) {
            assert(s.take(7)[5] == '/');
            assert(s[5] == '/');
            if 5 < host.len() {
                assert(host[5] == '/');
            }
        }
    }
    assert(!has_prefix(s, "https://"@)) by {
        if has_prefix(s, "https://"@) {
            assert(s.take(8)[6] == '/');
            assert(s[6] == '/');
            if 6 < host.len() {
                assert(host[6] == '/');
            }
        }
    }
}

/// An address in brackets is read with its brackets, with the port behind them or
/// else the default one.
pub proof fn lemma_bracketed_target_reads_back(addr: Seq<char>, port: u16, default_port: u16)
    requires
        addr.len() > 0,
        !addr.contains(']'),
    ensures
        target_of(seq!['['] + addr + seq![']'], default_port) == Ok::<(Seq<char>, u16), Seq<char>>(
            (seq!['['] + addr + seq![']'], default_port),
        ),
        target_of(seq!['['] + addr + seq![']', ':'] + dec(port as nat), default_port) == Ok::<
            (Seq<char>, u16),
            Seq<char>,
        >((seq!['['] + addr + seq![']'], port)),
{
    let digits = dec(port as nat);
    lemma_numeral_parses(port as nat, 0xFFFF);
    reveal_strlit("http://");
    reveal_strlit("https://");
    reveal_strlit("[");
    reveal_strlit("]");
    assert("["@ =~= seq!['[']);
    assert("]"@ =~= seq![']']);
    assert forall|j: int| 0 <= j < addr.len() implies addr[j] != ']' by {
        if addr[j] == ']' {
            assert(addr.contains(']'));
        }
    }
    let a = seq!['['] + addr + seq![']'];
    let b = seq!['['] + addr + seq![']', ':'] + digits;
    assert(!has_prefix(a, "http://"@) && !has_prefix(a, "https://"@)) by {
        assert(a[0] == '[');
        if has_prefix(a, "http://"@) {
            assert(a.take(7)[0] == 'h');
        }
        if has_prefix(a, "https://"@) {
            assert(a.take(8)[0] == 'h');
        }
    }
    assert(!has_prefix(b, "http://"@) && !has_prefix(b, "https://"@)) by {
        assert(b[0] == '[');
        if has_prefix(b, "http://"@) {
            assert(b.take(7)[0] == 'h');
        }
        if has_prefix(b, "https://"@) {
            assert(b.take(8)[0] == 'h');
        }
    }
    let ra = a.skip(1);
    let rb = b.skip(1);
    assert(ra =~= addr + seq![']']);
    assert(rb =~= addr + seq![']', ':'] + digits);
    lemma_first_at(ra, ']', addr.len() as int);
    lemma_first_at(rb, ']', addr.len() as int);
    assert(ra.take(addr.len() as int) =~= addr);
    assert(rb.take(addr.len() as int) =~= addr);
    assert(ra.skip(addr.len() as int + 1).len() == 0);
    let tail = rb.skip(addr.len() as int + 1);
    assert(tail =~= seq![':'] + digits);
    assert(tail.skip(1) =~= digits);
}

/// What is no target: a URL, a blank, and a host with a user in front of it.
pub proof fn lemma_refused_targets(input: Seq<char>, default_port: u16)
    ensures
        has_prefix(input, "http://"@) || has_prefix(input, "https://"@) ==> target_of(input, default_port) is Err,
        (forall|i: int| 0 <= i < input.len() ==> is_white(#[trigger] input[i])) ==> target_of(input, default_port) is Err,
        input.len() > 0 && input[0] != '[' && (exists|i: int| 0 < i < input.len() && #[trigger] input[i] == '@')
            ==> target_of(input, default_port) is Err,
{
    reveal_strlit("http://");
    reveal_strlit("https://");
    if forall|i: int| 0 <= i < input.len() ==> is_white(#[trigger] input[i]) {
        lemma_last_at(input, '@', -1);
        lemma_last_at(input, ':', -1);
        lemma_trim(input);
        if trim(input).len() > 0 {
            let (a, b) = choose|a: int, b: int|
                0 <= a <= b <= input.len() && #[trigger] input.subrange(a, b) == trim(input) && (forall|i: int|
                    0 <= i < a ==> is_white(#[trigger] input[i])) && (forall|i: int|
                    b <= i < input.len() ==> is_white(#[trigger] input[i]));
            assert(trim(input)[0] == input[a]);
        }
    }
    if exists|i: int| 0 < i < input.len() && #[trigger] input[i] == '@' {
        lemma_last_at_bounds(input, '@');
    }
}

} // verus!
