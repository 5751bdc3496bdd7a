//! Coloring adds escape sequences and nothing else: what a terminal shows of a
//! colored report is the plain report.

use super::cert::{cert_text, days_left, lifetime_text, sans_text, unzoned, validity_text};
use super::diagnosis::{
    anomalies, badge, diagnosis_report, diagnosis_rows, diagnosis_text, headed, items, severity_part, severity_parts,
    trailer,
};
use super::dns::{
    answer_text, canonical_types, dns_report, dns_row, name_label, record_texts, resolver_rows, resolvers_of, sections,
    ttl_text, type_rows,
};
use super::http::{
    body_part, header_lines, http_body, http_head, http_report, http_row, http_rows, protocol_text, snippet_part,
    status_text, tls_part, ttfb_part,
};
use super::layout::{
    by_class, count_text, failure_text, left, lemma_snippet_is_terminal_safe, line, ms_text, opt_line, right, safe_text,
    spaces,
};
use super::repeat::{
    distributions, dns_repeat_report, failure_lines, failure_tokens, lookup_latency, probe_latency, probe_report,
    probe_row, probe_rows, probe_ttfb, repeat_row, repeat_rows, status_token, status_tokens, success_text, ttl_line,
    with_unit,
};
use super::route::{
    address_texts, bound, hop_notes, hop_row, hop_rows, hop_width, host_cell, notes_text, route_repeat_report,
    route_report, stats_row, stats_rows, stats_width,
};
use super::transport::{
    cert_lines, destination_width, sni_line, tcp_report, tcp_row, tcp_rows, tcp_status, tls_body, tls_report, tls_row,
    tls_rows,
};
use crate::diagnostics::input::kind_count;
use crate::model::diagnosis::DiagnosisModel;
use crate::model::dns::{is_control, lemma_record_text_is_printable, record_text, resolver_text, ResolverModel};
use crate::model::double::padded;
use crate::model::{
    CertificateSummary, Confidence, DiagnosticCategory, DnsObservation, DnsRecordType, DnsRepeatResult, FailureCount,
    FailureKind, HttpObservation, LatencySummary, ProbeError, ProbeResult, Rate, Severity, TcpObservation,
    TlsObservation,
};
use crate::net::{groups_text, hex, ipv4_text, ipv6_text, IpAddr, Ipv4Addr, Ipv6Addr, SocketAddr};
use crate::route::{RouteHop, RouteHopStats, RouteRepeat};
use crate::style::{cyan, green, painted, red, yellow};
use crate::text::{dec, first_seen, join, texts};
use vstd::prelude::*;

verus! {

/// What a terminal makes of a text: whether it ends within an escape sequence,
/// and the characters it shows. A sequence runs from ESC to the next `m`.
pub open spec fn scan(s: Seq<char>) -> (bool, Seq<char>)
    decreases s.len(),
{
    if s.len() == 0 {
        (false, Seq::empty())
    } else {
        let (within, out) = scan(s.drop_last());
        let c = s.last();
        if within {
            (c != 'm', out)
        } else if c == '\x1b' {
            (true, out)
        } else {
            (false, out.push(c))
        }
    }
}

/// Whether a terminal shows exactly `plain` of a text.
#[verifier::opaque]
pub open spec fn shows(s: Seq<char>, plain: Seq<char>) -> bool {
    scan(s) == (false, plain)
}

/// Whether a text holds no escape character.
#[verifier::opaque]
pub open spec fn clean(s: Seq<char>) -> bool {
    forall|i: int| 0 <= i < s.len() ==> #[trigger] s[i] != '\x1b'
}

// --- building blocks ---------------------------------------------------------------------

/// A text without escapes is shown as it is.
broadcast proof fn lemma_clean_shows(s: Seq<char>)
    requires
        clean(s),
    ensures
        #[trigger] shows(s, s),
    decreases s.len(),
{
    reveal(shows);
    reveal(clean);
    if s.len() > 0 {
        assert(s[s.len() - 1] != '\x1b');
        lemma_clean_shows(s.drop_last());
        assert(s.drop_last().push(s.last()) =~= s);
    } else {
        assert(s =~= Seq::empty());
    }
}

/// Scanning two texts in a row.
proof fn lemma_scan_add(a: Seq<char>, b: Seq<char>)
    requires
        !scan(a).0,
    ensures
        scan(a + b) == (scan(b).0, scan(a).1 + scan(b).1),
    decreases b.len(),
{
    if b.len() == 0 {
        assert(a + b =~= a);
        assert(scan(a).1 + scan(b).1 =~= scan(a).1);
    } else {
        lemma_scan_add(a, b.drop_last());
        assert((a + b).drop_last() =~= a + b.drop_last());
        assert((a + b).last() == b.last());
        let (within, out) = scan(b.drop_last());
        if !within && b.last() != '\x1b' {
            assert((scan(a).1 + out).push(b.last()) =~= scan(a).1 + out.push(b.last()));
        }
    }
}

/// Texts in a row are shown in a row.
broadcast proof fn lemma_shows_add(a: Seq<char>, pa: Seq<char>, b: Seq<char>, pb: Seq<char>)
    requires
        shows(a, pa),
        shows(b, pb),
    ensures
        #[trigger] shows(a + b, pa + pb),
{
    reveal(shows);
    lemma_scan_add(a, b);
}

/// Texts without escapes in a row have none.
broadcast proof fn lemma_clean_add(a: Seq<char>, b: Seq<char>)
    requires
        clean(a),
        clean(b),
    ensures
        #[trigger] clean(a + b),
{
    reveal(clean);
    assert forall|i: int| 0 <= i < (a + b).len() implies #[trigger] (a + b)[i] != '\x1b' by {
        if i >= a.len() {
            assert(b[i - a.len()] != '\x1b');
        }
    }
}

/// The empty text has no escapes.
broadcast proof fn lemma_clean_empty()
    ensures
        #[trigger] clean(Seq::<char>::empty()),
{
    reveal(clean);
}

/// A painted text is shown as the text.
proof fn lemma_painted(color: bool, code: Seq<char>, s: Seq<char>)
    requires
        clean(s),
        code == "31"@ || code == "32"@ || code == "33"@ || code == "36"@,
    ensures
        shows(painted(color, code, s), s),
{
    lemma_clean_shows(s);
    if color {
        reveal(shows);
        reveal_strlit("\x1b[");
        reveal_strlit("m");
        reveal_strlit("\x1b[0m");
        reveal_strlit("31");
        reveal_strlit("32");
        reveal_strlit("33");
        reveal_strlit("36");
        let open = "\x1b["@ + code + "m"@;
        assert(open =~= seq!['\x1b', '[', code[0], code[1], 'm']);
        reveal_with_fuel(scan, 6);
        assert(open.drop_last() =~= seq!['\x1b', '[', code[0], code[1]]);
        assert(open.drop_last().drop_last() =~= seq!['\x1b', '[', code[0]]);
        assert(open.drop_last().drop_last().drop_last() =~= seq!['\x1b', '[']);
        assert(open.drop_last().drop_last().drop_last().drop_last() =~= seq!['\x1b']);
        assert(open.drop_last().drop_last().drop_last().drop_last().drop_last() =~= Seq::empty());
        assert(scan(open) == (false, Seq::<char>::empty()));
        let close = "\x1b[0m"@;
        assert(close =~= seq!['\x1b', '[', '0', 'm']);
        assert(close.drop_last() =~= seq!['\x1b', '[', '0']);
        assert(close.drop_last().drop_last() =~= seq!['\x1b', '[']);
        assert(close.drop_last().drop_last().drop_last() =~= seq!['\x1b']);
        assert(close.drop_last().drop_last().drop_last().drop_last() =~= Seq::empty());
        assert(scan(close) == (false, Seq::<char>::empty()));
        lemma_scan_add(open, s);
        lemma_scan_add(open + s, close);
        assert(Seq::<char>::empty() + s + Seq::<char>::empty() =~= s);
    }
}

/// Green text is shown as the text.
broadcast proof fn lemma_green(color: bool, s: Seq<char>)
    requires
        clean(s),
    ensures
        #[trigger] shows(green(color, s), green(false, s)),
{
    lemma_painted(color, "32"@, s);
}

/// Red text is shown as the text.
broadcast proof fn lemma_red(color: bool, s: Seq<char>)
    requires
        clean(s),
    ensures
        #[trigger] shows(red(color, s), red(false, s)),
{
    lemma_painted(color, "31"@, s);
}

/// Yellow text is shown as the text.
broadcast proof fn lemma_yellow(color: bool, s: Seq<char>)
    requires
        clean(s),
    ensures
        #[trigger] shows(yellow(color, s), yellow(false, s)),
{
    lemma_painted(color, "33"@, s);
}

/// Cyan text is shown as the text.
broadcast proof fn lemma_cyan(color: bool, s: Seq<char>)
    requires
        clean(s),
    ensures
        #[trigger] shows(cyan(color, s), cyan(false, s)),
{
    lemma_painted(color, "36"@, s);
}

/// A numeral has no escapes.
broadcast proof fn lemma_dec_clean(n: nat)
    ensures
        #[trigger] clean(dec(n)),
    decreases n,
{
    reveal(clean);
    if n >= 10 {
        lemma_dec_clean(n / 10);
    }
}

/// A hexadecimal numeral has no escapes.
broadcast proof fn lemma_hex_clean(n: nat)
    ensures
        #[trigger] clean(hex(n)),
    decreases n,
{
    reveal(clean);
    if n >= 16 {
        lemma_hex_clean(n / 16);
    }
}

/// Padded digits have no escapes.
broadcast proof fn lemma_padded_clean(n: nat, k: nat)
    ensures
        #[trigger] clean(padded(n, k)),
    decreases k,
{
    reveal(clean);
    if k > 0 {
        lemma_padded_clean(n / 10, (k - 1) as nat);
    }
}

/// Spaces have no escapes.
broadcast proof fn lemma_spaces_clean(n: nat)
    ensures
        #[trigger] clean(spaces(n)),
    decreases n,
{
    reveal(clean);
    if n > 0 {
        lemma_spaces_clean((n - 1) as nat);
    }
}

/// Joining texts without escapes gives none.
proof fn lemma_join_clean(parts: Seq<Seq<char>>, sep: Seq<char>)
    requires
        clean(sep),
        forall|i: int| 0 <= i < parts.len() ==> clean(#[trigger] parts[i]),
    ensures
        clean(join(parts, sep)),
    decreases parts.len(),
{
    broadcast use {lemma_clean_add, lemma_clean_empty};

    if parts.len() > 1 {
        assert forall|i: int| 0 <= i < parts.drop_last().len() implies clean(#[trigger] parts.drop_last()[i]) by {
            assert(parts.drop_last()[i] == parts[i]);
        }
        lemma_join_clean(parts.drop_last(), sep);
    }
}

/// Joined texts are shown joined.
proof fn lemma_join_shows(parts: Seq<Seq<char>>, plain: Seq<Seq<char>>, sep: Seq<char>)
    requires
        clean(sep),
        parts.len() == plain.len(),
        forall|i: int| 0 <= i < parts.len() ==> shows(#[trigger] parts[i], plain[i]),
    ensures
        shows(join(parts, sep), join(plain, sep)),
    decreases parts.len(),
{
    broadcast use {lemma_clean_shows, lemma_shows_add, lemma_clean_empty};

    if parts.len() > 1 {
        assert forall|i: int| 0 <= i < parts.drop_last().len() implies shows(
            #[trigger] parts.drop_last()[i],
            plain.drop_last()[i],
        ) by {
            assert(parts.drop_last()[i] == parts[i]);
        }
        lemma_join_shows(parts.drop_last(), plain.drop_last(), sep);
        assert(shows(parts[parts.len() - 1], plain[parts.len() - 1]));
    }
}

/// Literals of addresses and numbers have no escapes.
proof fn lemma_sign_literals()
    ensures
        clean("."@),
        clean(":"@),
        clean("::"@),
        clean("::ffff:"@),
        clean("["@),
        clean("]:"@),
        clean("%"@),
        clean("\n"@),
        clean("-"@),
        clean(" ms"@),
        clean(" ("@),
        clean(")"@),
        clean(", "@),
        clean(": "@),
        clean(" "@),
        clean("  "@),
        clean("    "@),
        clean("*"@),
        clean("x"@),
        clean("/"@),
        clean("%)"@),
        clean("_"@),
{
    reveal(clean);
    reveal_strlit(".");
    reveal_strlit(":");
    reveal_strlit("::");
    reveal_strlit("::ffff:");
    reveal_strlit("[");
    reveal_strlit("]:");
    reveal_strlit("%");
    reveal_strlit("\n");
    reveal_strlit("-");
    reveal_strlit(" ms");
    reveal_strlit(" (");
    reveal_strlit(")");
    reveal_strlit(", ");
    reveal_strlit(": ");
    reveal_strlit(" ");
    reveal_strlit("  ");
    reveal_strlit("    ");
    reveal_strlit("*");
    reveal_strlit("x");
    reveal_strlit("/");
    reveal_strlit("%)");
    reveal_strlit("_");
}

/// Groups of an address have no escapes.
proof fn lemma_groups_clean(g: Seq<u16>)
    ensures
        clean(groups_text(g)),
    decreases g.len(),
{
    broadcast use {lemma_clean_add, lemma_clean_empty, lemma_hex_clean};

    lemma_sign_literals();
    if g.len() > 1 {
        lemma_groups_clean(g.drop_last());
    }
}

/// An IPv4 address has no escapes.
broadcast proof fn lemma_ipv4_clean(ip: Ipv4Addr)
    ensures
        #[trigger] clean(ipv4_text(ip)),
{
    broadcast use {lemma_clean_add, lemma_dec_clean};

    lemma_sign_literals();
}

/// An IPv6 address has no escapes.
broadcast proof fn lemma_ipv6_clean(ip: Ipv6Addr)
    ensures
        #[trigger] clean(ipv6_text(ip)),
{
    broadcast use {lemma_clean_add, lemma_ipv4_clean};

    lemma_sign_literals();
    let g = ip.groups();
    let start = crate::net::longest_run(g, 8);
    let len = crate::net::run_len(g, start);
    lemma_groups_clean(g);
    lemma_groups_clean(g.take(start));
    lemma_groups_clean(g.skip(start + len));
}

/// An address has no escapes.
broadcast proof fn lemma_ip_clean(ip: IpAddr)
    ensures
        #[trigger] clean(ip.text()),
{
    broadcast use {lemma_ipv4_clean, lemma_ipv6_clean};

}

/// A socket address has no escapes.
broadcast proof fn lemma_socket_clean(a: SocketAddr)
    ensures
        #[trigger] clean(a.text()),
{
    broadcast use {lemma_clean_add, lemma_dec_clean, lemma_ipv4_clean, lemma_ipv6_clean};

    lemma_sign_literals();
}

/// A failure mode's name has no escapes.
broadcast proof fn lemma_kind_clean(k: FailureKind)
    ensures
        #[trigger] clean(k.text()),
{
    reveal(clean);
    reveal_strlit("timeout");
    reveal_strlit("connection refused");
    reveal_strlit("connection reset");
    reveal_strlit("network unreachable");
    reveal_strlit("host unreachable");
    reveal_strlit("dns");
    reveal_strlit("tls handshake");
    reveal_strlit("certificate");
    reveal_strlit("protocol");
    reveal_strlit("http");
    reveal_strlit("quic");
    reveal_strlit("other");
    reveal_strlit("unknown");
}

/// A latency has no escapes.
broadcast proof fn lemma_ms_clean(ms: Option<u64>)
    ensures
        #[trigger] clean(ms_text(ms)),
{
    broadcast use {lemma_clean_add, lemma_dec_clean};

    lemma_sign_literals();
}

/// A filled column without escapes has none.
broadcast proof fn lemma_left_clean(s: Seq<char>, width: nat)
    requires
        clean(s),
    ensures
        #[trigger] clean(left(s, width)),
{
    broadcast use {lemma_clean_add, lemma_spaces_clean, lemma_clean_empty};

}

/// A number at the right of a column has no escapes.
broadcast proof fn lemma_right_clean(s: Seq<char>, width: nat)
    requires
        clean(s),
    ensures
        #[trigger] clean(right(s, width)),
{
    broadcast use {lemma_clean_add, lemma_spaces_clean, lemma_clean_empty};

}

/// A line is shown as a line.
broadcast proof fn lemma_line_shows(prefix: Seq<char>, a: Seq<char>, b: Seq<char>)
    requires
        clean(prefix),
        shows(a, b),
    ensures
        #[trigger] shows(line(prefix, a), line(prefix, b)),
{
    broadcast use {lemma_clean_shows, lemma_shows_add};

    lemma_sign_literals();
}

/// Whether an optional text has no escapes.
pub open spec fn clean_opt(s: Option<String>) -> bool {
    s matches Some(t) ==> clean(t@)
}

/// Whether a failure's message has no escapes.
pub open spec fn clean_failure(e: Option<ProbeError>) -> bool {
    e matches Some(f) ==> clean(f.message@)
}

/// An optional line is shown as it is.
broadcast proof fn lemma_opt_line_shows(prefix: Seq<char>, s: Option<String>)
    requires
        clean(prefix),
        clean_opt(s),
    ensures
        #[trigger] shows(opt_line(prefix, s), opt_line(prefix, s)),
{
    broadcast use {lemma_clean_shows, lemma_line_shows, lemma_clean_empty};

}

/// A failure without escapes in its message has none.
broadcast proof fn lemma_failure_clean(e: ProbeError)
    requires
        clean(e.message@),
    ensures
        #[trigger] clean(failure_text(e)),
{
    broadcast use {lemma_clean_add, lemma_kind_clean};

    lemma_sign_literals();
}

// --- TCP ---------------------------------------------------------------------------------

/// Rows of connection attempts are shown as the plain rows.
proof fn lemma_tcp_rows(color: bool, s: Seq<TcpObservation>, width: nat)
    ensures
        shows(tcp_rows(color, s, width), tcp_rows(false, s, width)),
    decreases s.len(),
{
    broadcast use {
        lemma_clean_shows,
        lemma_shows_add,
        lemma_clean_add,
        lemma_clean_empty,
        lemma_socket_clean,
        lemma_left_clean,
        lemma_kind_clean,
        lemma_ms_clean,
        lemma_green,
        lemma_red,
    };

    if s.len() > 0 {
        lemma_tcp_rows(color, s.drop_last(), width);
        lemma_sign_literals();
        assert(clean("PASS      "@) && clean("failed"@)) by {
            reveal(clean);
            reveal_strlit("PASS      ");
            reveal_strlit("failed");
        }
        let o = s.last();
        assert(shows(tcp_status(color, o), tcp_status(false, o)));
        assert(shows(tcp_row(color, o, width), tcp_row(false, o, width)));
    }
}

/// A colored TCP report shows as the plain one.
pub proof fn lemma_tcp_color_is_invisible(color: bool, s: Seq<TcpObservation>)
    ensures
        shows(tcp_report(color, s), tcp_report(false, s)),
{
    broadcast use {lemma_clean_shows, lemma_shows_add};

    lemma_tcp_rows(color, s, destination_width(s));
    assert(clean("TCP connect\n"@)) by {
        reveal(clean);
        reveal_strlit("TCP connect\n");
    }
}

// --- TLS ---------------------------------------------------------------------------------

/// Whether the texts of a certificate have no escapes.
pub open spec fn clean_cert(c: CertificateSummary) -> bool {
    &&& clean(c.subject@)
    &&& clean(c.issuer@)
    &&& clean_opt(c.not_before_utc)
    &&& clean_opt(c.not_after_utc)
    &&& forall|i: int| 0 <= i < c.sans@.len() ==> clean((#[trigger] c.sans@[i])@)
}

/// Whether the texts of a handshake have no escapes.
pub open spec fn clean_tls(o: TlsObservation) -> bool {
    &&& clean(o.sni@)
    &&& clean_opt(o.version)
    &&& clean_opt(o.cipher)
    &&& clean_opt(o.alpn)
    &&& clean_failure(o.failure)
    &&& (o.certificate matches Some(c) ==> clean_cert(c))
}

/// A timestamp without escapes has none without its zone.
proof fn lemma_unzoned_clean(s: Seq<char>)
    requires
        clean(s),
    ensures
        clean(unzoned(s)),
    decreases s.len(),
{
    if s.len() > 0 && s.last() == 'Z' {
        assert(clean(s.drop_last())) by {
            reveal(clean);
            assert forall|i: int| 0 <= i < s.drop_last().len() implies #[trigger] s.drop_last()[i] != '\x1b' by {
                assert(s[i] != '\x1b');
            }
        }
        lemma_unzoned_clean(s.drop_last());
    }
}

/// A certificate is shown as the plain one.
proof fn lemma_cert_shows(color: bool, c: CertificateSummary, today: Option<i64>)
    requires
        clean_cert(c),
    ensures
        shows(cert_text(color, c, today), cert_text(false, c, today)),
{
    broadcast use {
        lemma_clean_shows,
        lemma_shows_add,
        lemma_clean_add,
        lemma_clean_empty,
        lemma_dec_clean,
        lemma_red,
        lemma_yellow,
    };

    lemma_sign_literals();
    assert(clean(" issued by "@) && clean(" (valid "@) && clean(".."@) && clean("; sans: "@) && clean(" (expired)"@)
        && clean(" (expires today)"@) && clean(" (expires in "@) && clean(" day"@) && clean(""@) && clean("s"@)) by {
        reveal(clean);
        reveal_strlit(" issued by ");
        reveal_strlit(" (valid ");
        reveal_strlit("..");
        reveal_strlit("; sans: ");
        reveal_strlit(" (expired)");
        reveal_strlit(" (expires today)");
        reveal_strlit(" (expires in ");
        reveal_strlit(" day");
        reveal_strlit("");
        reveal_strlit("s");
    }
    match (c.not_after_utc, c.not_before_utc) {
        (Some(a), Some(b)) => {
            lemma_unzoned_clean(a@);
            lemma_unzoned_clean(b@);
        },
        _ => {},
    }
    assert(clean(validity_text(c)));
    let days = days_left(c, today);
    assert(shows(lifetime_text(color, days), lifetime_text(false, days)));
    let names = texts(c.sans@);
    assert forall|i: int| 0 <= i < names.len() implies clean(#[trigger] names[i]) by {
        assert(names[i] == c.sans@[i]@);
    }
    lemma_join_clean(names, ", "@);
    assert(clean(sans_text(c.sans@)));
}

/// The lines on a certificate are shown as the plain ones.
proof fn lemma_cert_lines(color: bool, sni: Seq<char>, certificate: Option<CertificateSummary>, today: Option<i64>)
    requires
        clean(sni),
        certificate matches Some(c) ==> clean_cert(c),
    ensures
        shows(cert_lines(color, sni, certificate, today), cert_lines(false, sni, certificate, today)),
{
    broadcast use {
        lemma_clean_shows,
        lemma_shows_add,
        lemma_clean_add,
        lemma_clean_empty,
        lemma_line_shows,
        lemma_red,
        lemma_green,
    };

    lemma_sign_literals();
    assert(clean("    cert : "@) && clean("    covers "@) && clean("yes"@) && clean("no"@)) by {
        reveal(clean);
        reveal_strlit("    cert : ");
        reveal_strlit("    covers ");
        reveal_strlit("yes");
        reveal_strlit("no");
    }
    match certificate {
        Some(c) => {
            lemma_cert_shows(color, c, today);
            assert(clean("    covers "@ + sni + ": "@));
        },
        None => {},
    }
}

/// A handshake is shown as the plain one.
proof fn lemma_tls_row(color: bool, o: TlsObservation, today: Option<i64>)
    requires
        clean_tls(o),
    ensures
        shows(tls_row(color, o, today), tls_row(false, o, today)),
{
    broadcast use {
        lemma_clean_shows,
        lemma_shows_add,
        lemma_clean_empty,
        lemma_socket_clean,
        lemma_line_shows,
        lemma_opt_line_shows,
        lemma_failure_clean,
        lemma_ms_clean,
        lemma_red,
    };

    lemma_sign_literals();
    assert(clean("    SNI: "@) && clean("    TLS: "@) && clean("    cipher: "@) && clean("    ALPN: "@) && clean(
        "    latency: "@,
    ) && clean("unknown"@) && clean("failed"@)) by {
        reveal(clean);
        reveal_strlit("    SNI: ");
        reveal_strlit("    TLS: ");
        reveal_strlit("    cipher: ");
        reveal_strlit("    ALPN: ");
        reveal_strlit("    latency: ");
        reveal_strlit("unknown");
        reveal_strlit("failed");
    }
    lemma_cert_lines(color, o.sni@, o.certificate, today);
    assert(shows(sni_line(o), sni_line(o)));
    assert(shows(tls_body(color, o, today), tls_body(false, o, today)));
}

/// Handshakes are shown as the plain ones.
proof fn lemma_tls_rows(color: bool, s: Seq<TlsObservation>, today: Option<i64>)
    requires
        forall|i: int| 0 <= i < s.len() ==> clean_tls(#[trigger] s[i]),
    ensures
        shows(tls_rows(color, s, today), tls_rows(false, s, today)),
    decreases s.len(),
{
    broadcast use {lemma_clean_shows, lemma_shows_add, lemma_clean_empty};

    if s.len() > 0 {
        assert forall|i: int| 0 <= i < s.drop_last().len() implies clean_tls(#[trigger] s.drop_last()[i]) by {
            assert(s.drop_last()[i] == s[i]);
        }
        lemma_tls_rows(color, s.drop_last(), today);
        assert(clean_tls(s[s.len() - 1]));
        lemma_tls_row(color, s.last(), today);
    }
}

/// A colored TLS report shows as the plain one, unless an observed text itself
/// holds an escape character.
pub proof fn lemma_tls_color_is_invisible(color: bool, s: Seq<TlsObservation>, today: Option<i64>)
    requires
        forall|i: int| 0 <= i < s.len() ==> clean_tls(#[trigger] s[i]),
    ensures
        shows(tls_report(color, s, today), tls_report(false, s, today)),
{
    broadcast use {lemma_clean_shows, lemma_shows_add};

    lemma_tls_rows(color, s, today);
    assert(clean("TLS handshake\n"@)) by {
        reveal(clean);
        reveal_strlit("TLS handshake\n");
    }
}

// --- HTTP --------------------------------------------------------------------------------

/// Whether the texts of a request have no escapes. The body is free: it is
/// shown escaped.
pub open spec fn clean_http(o: HttpObservation) -> bool {
    &&& clean(o.host@)
    &&& clean(o.path@)
    &&& clean_opt(o.protocol)
    &&& clean_opt(o.location)
    &&& clean_failure(o.failure)
    &&& (o.tls matches Some(t) ==> clean_tls(t))
    &&& forall|i: int|
        0 <= i < o.headers@.len() ==> clean((#[trigger] o.headers@[i]).0@) && clean(o.headers@[i].1@)
}

/// Headers without escapes are shown as they are.
proof fn lemma_headers_clean(headers: Seq<(String, String)>)
    requires
        forall|i: int| 0 <= i < headers.len() ==> clean((#[trigger] headers[i]).0@) && clean(headers[i].1@),
    ensures
        clean(header_lines(headers)),
    decreases headers.len(),
{
    broadcast use {lemma_clean_add, lemma_clean_empty};

    if headers.len() > 0 {
        assert forall|i: int| 0 <= i < headers.drop_last().len() implies clean(
            (#[trigger] headers.drop_last()[i]).0@,
        ) && clean(headers.drop_last()[i].1@) by {
            assert(headers.drop_last()[i] == headers[i]);
        }
        lemma_headers_clean(headers.drop_last());
        lemma_sign_literals();
        assert(clean(headers[headers.len() - 1].0@));
    }
}

/// A text colored by class is shown as the text.
broadcast proof fn lemma_class_shows(color: bool, status: u16, s: Seq<char>)
    requires
        clean(s),
    ensures
        #[trigger] shows(by_class(color, status, s), by_class(false, status, s)),
{
    broadcast use {lemma_clean_shows, lemma_red, lemma_yellow, lemma_green};

}

/// A snippet has no escapes, whatever the body holds.
proof fn lemma_snippet_clean(s: Seq<char>)
    ensures
        clean(safe_text(s)),
{
    reveal(clean);
    lemma_snippet_is_terminal_safe(s);
    assert forall|i: int| 0 <= i < safe_text(s).len() implies #[trigger] safe_text(s)[i] != '\x1b' by {
        assert(!super::layout::is_terminal_control(safe_text(s)[i]));
    }
}

/// The body of a request is shown as the plain one.
proof fn lemma_http_body(color: bool, o: HttpObservation, today: Option<i64>)
    requires
        clean_http(o),
    ensures
        shows(http_body(color, o, today), http_body(false, o, today)),
{
    broadcast use {
        lemma_clean_shows,
        lemma_shows_add,
        lemma_clean_add,
        lemma_clean_empty,
        lemma_line_shows,
        lemma_opt_line_shows,
        lemma_failure_clean,
        lemma_ms_clean,
        lemma_dec_clean,
        lemma_class_shows,
        lemma_red,
        lemma_yellow,
    };

    lemma_sign_literals();
    assert(clean("HTTP/1.1"@) && clean("no status"@) && clean("    redirect: "@) && clean("    TLS: "@) && clean(
        "    ALPN: "@,
    ) && clean("body (capped)"@) && clean(" bytes\n"@) && clean("    body: "@) && clean(
        "body: incomplete (timed out)"@,
    ) && clean("    body content: "@) && clean("    latency: "@) && clean("    ttfb:    "@)) by {
        reveal(clean);
        reveal_strlit("HTTP/1.1");
        reveal_strlit("no status");
        reveal_strlit("    redirect: ");
        reveal_strlit("    TLS: ");
        reveal_strlit("    ALPN: ");
        reveal_strlit("body (capped)");
        reveal_strlit(" bytes\n");
        reveal_strlit("    body: ");
        reveal_strlit("body: incomplete (timed out)");
        reveal_strlit("    body content: ");
        reveal_strlit("    latency: ");
        reveal_strlit("    ttfb:    ");
    }
    lemma_headers_clean(o.headers@);
    assert(clean(protocol_text(o)));
    match o.tls {
        Some(t) => lemma_cert_lines(color, t.sni@, t.certificate, today),
        None => {},
    }
    assert(shows(tls_part(color, o, today), tls_part(false, o, today)));
    match o.body_snippet {
        Some(t) => lemma_snippet_clean(t@),
        None => {},
    }
    assert(shows(snippet_part(o), snippet_part(o)));
    assert(shows(body_part(color, o), body_part(false, o)));
    assert(shows(ttfb_part(o), ttfb_part(o)));
    assert(shows(status_text(color, o), status_text(false, o)));
    match o.failure {
        Some(e) => {
            assert(clean(protocol_text(o) + " "@ + failure_text(e)));
        },
        None => {
            assert(clean("    "@ + protocol_text(o) + " "@));
        },
    }
}

/// A request is shown as the plain one.
proof fn lemma_http_row(color: bool, o: HttpObservation, today: Option<i64>)
    requires
        clean_http(o),
    ensures
        shows(http_row(color, o, today), http_row(false, o, today)),
{
    broadcast use {
        lemma_clean_shows,
        lemma_shows_add,
        lemma_clean_empty,
        lemma_line_shows,
        lemma_socket_clean,
    };

    reveal(http_row);
    lemma_sign_literals();
    assert(clean("    host: "@) && clean("    path: "@)) by {
        reveal(clean);
        reveal_strlit("    host: ");
        reveal_strlit("    path: ");
    }
    assert(shows(http_head(o), http_head(o)));
    lemma_http_body(color, o, today);
}

/// Requests are shown as the plain ones.
proof fn lemma_http_rows(color: bool, s: Seq<HttpObservation>, today: Option<i64>)
    requires
        forall|i: int| 0 <= i < s.len() ==> clean_http(#[trigger] s[i]),
    ensures
        shows(http_rows(color, s, today), http_rows(false, s, today)),
    decreases s.len(),
{
    broadcast use {lemma_clean_shows, lemma_shows_add, lemma_clean_empty};

    if s.len() > 0 {
        assert forall|i: int| 0 <= i < s.drop_last().len() implies clean_http(#[trigger] s.drop_last()[i]) by {
            assert(s.drop_last()[i] == s[i]);
        }
        lemma_http_rows(color, s.drop_last(), today);
        assert(clean_http(s[s.len() - 1]));
        lemma_http_row(color, s.last(), today);
    }
}

/// A colored HTTP report shows as the plain one, unless an observed text other
/// than the body holds an escape character.
pub proof fn lemma_http_color_is_invisible(color: bool, plain: bool, s: Seq<HttpObservation>, today: Option<i64>)
    requires
        forall|i: int| 0 <= i < s.len() ==> clean_http(#[trigger] s[i]),
    ensures
        shows(http_report(color, plain, s, today), http_report(false, plain, s, today)),
{
    broadcast use {lemma_clean_shows, lemma_shows_add};

    lemma_http_rows(color, s, today);
    assert(clean("HTTP\n"@) && clean("HTTPS\n"@)) by {
        reveal(clean);
        reveal_strlit("HTTP\n");
        reveal_strlit("HTTPS\n");
    }
}

// --- DNS ---------------------------------------------------------------------------------

/// Whether the texts of a resolver have no escapes.
pub open spec fn clean_resolver(r: ResolverModel) -> bool {
    clean(resolver_text(r))
}

/// Whether the texts of an observation around its records have no escapes.
pub open spec fn clean_dns(o: DnsObservation) -> bool {
    &&& clean(o.hostname@)
    &&& clean_resolver(o.resolver.deep_view())
    &&& clean_failure(o.error)
}

/// The name of a record type has no escapes.
broadcast proof fn lemma_type_clean(t: DnsRecordType)
    ensures
        #[trigger] clean(t.text()),
{
    reveal(clean);
    reveal_strlit("A");
    reveal_strlit("AAAA");
    reveal_strlit("CNAME");
    reveal_strlit("MX");
    reveal_strlit("TXT");
    reveal_strlit("NS");
    reveal_strlit("SOA");
    reveal_strlit("CAA");
    reveal_strlit("SRV");
    reveal_strlit("PTR");
}

/// An observation is shown as the plain one.
proof fn lemma_dns_row(color: bool, host: Seq<char>, o: DnsObservation)
    requires
        clean_dns(o),
    ensures
        shows(dns_row(color, host, o), dns_row(false, host, o)),
{
    broadcast use {
        lemma_clean_shows,
        lemma_shows_add,
        lemma_clean_add,
        lemma_clean_empty,
        lemma_line_shows,
        lemma_failure_clean,
        lemma_dec_clean,
        lemma_left_clean,
        lemma_type_clean,
        lemma_red,
    };

    lemma_sign_literals();
    assert(clean("no records ("@) && clean(" ms)"@) && clean(", ttl "@) && clean("s"@) && clean("no records"@)
        && clean(" :: "@)) by {
        reveal(clean);
        reveal_strlit("no records (");
        reveal_strlit(" ms)");
        reveal_strlit(", ttl ");
        reveal_strlit("s");
        reveal_strlit("no records");
        reveal_strlit(" :: ");
    }
    let records = record_texts(o.records@);
    assert forall|i: int| 0 <= i < records.len() implies clean(#[trigger] records[i]) by {
        let text = record_text(o.records@[i].deep_view());
        assert(records[i] == text);
        lemma_record_text_is_printable(o.records@[i].deep_view());
        reveal(clean);
        assert forall|k: int| 0 <= k < text.len() implies #[trigger] text[k] != '\x1b' by {
            assert(!is_control(text[k]));
        }
    }
    lemma_join_clean(records, ", "@);
    assert(clean(ttl_text(o.ttl)));
    assert(shows(answer_text(color, o), answer_text(false, o)));
    assert(clean(name_label(host, o)));
    assert(clean("    "@ + left(o.record_type.text(), 4) + ": "@ + name_label(host, o)));
}

/// Observations of one type are shown as the plain ones.
proof fn lemma_type_rows(color: bool, host: Seq<char>, s: Seq<DnsObservation>, r: ResolverModel, t: DnsRecordType)
    requires
        forall|i: int| 0 <= i < s.len() ==> clean_dns(#[trigger] s[i]),
    ensures
        shows(type_rows(color, host, s, r, t), type_rows(false, host, s, r, t)),
    decreases s.len(),
{
    broadcast use {lemma_clean_shows, lemma_shows_add, lemma_clean_empty};

    if s.len() > 0 {
        assert forall|i: int| 0 <= i < s.drop_last().len() implies clean_dns(#[trigger] s.drop_last()[i]) by {
            assert(s.drop_last()[i] == s[i]);
        }
        lemma_type_rows(color, host, s.drop_last(), r, t);
        assert(clean_dns(s[s.len() - 1]));
        lemma_dns_row(color, host, s.last());
    }
}

/// Observations of one resolver are shown as the plain ones.
proof fn lemma_resolver_rows(
    color: bool,
    host: Seq<char>,
    s: Seq<DnsObservation>,
    r: ResolverModel,
    types: Seq<DnsRecordType>,
)
    requires
        forall|i: int| 0 <= i < s.len() ==> clean_dns(#[trigger] s[i]),
    ensures
        shows(resolver_rows(color, host, s, r, types), resolver_rows(false, host, s, r, types)),
    decreases types.len(),
{
    broadcast use {lemma_clean_shows, lemma_shows_add, lemma_clean_empty};

    if types.len() > 0 {
        lemma_resolver_rows(color, host, s, r, types.drop_last());
        lemma_type_rows(color, host, s, r, types.last());
    }
}

/// Sections are shown as the plain ones.
proof fn lemma_sections(color: bool, host: Seq<char>, s: Seq<DnsObservation>, resolvers: Seq<ResolverModel>)
    requires
        forall|i: int| 0 <= i < s.len() ==> clean_dns(#[trigger] s[i]),
        forall|i: int| 0 <= i < resolvers.len() ==> clean_resolver(#[trigger] resolvers[i]),
    ensures
        shows(sections(color, host, s, resolvers), sections(false, host, s, resolvers)),
    decreases resolvers.len(),
{
    broadcast use {lemma_clean_shows, lemma_shows_add, lemma_clean_empty, lemma_line_shows};

    if resolvers.len() > 0 {
        assert forall|i: int| 0 <= i < resolvers.drop_last().len() implies clean_resolver(
            #[trigger] resolvers.drop_last()[i],
        ) by {
            assert(resolvers.drop_last()[i] == resolvers[i]);
        }
        lemma_sections(color, host, s, resolvers.drop_last());
        lemma_resolver_rows(color, host, s, resolvers.last(), canonical_types());
        lemma_sign_literals();
        assert(clean_resolver(resolvers[resolvers.len() - 1]));
    }
}

/// What is first seen was seen.
proof fn lemma_first_seen_from<A>(s: Seq<A>, i: int)
    requires
        0 <= i < first_seen(s).len(),
    ensures
        s.contains(first_seen(s)[i]),
    decreases s.len(),
{
    if s.len() > 0 {
        let front = first_seen(s.drop_last());
        if i < front.len() {
            lemma_first_seen_from(s.drop_last(), i);
            let k = choose|k: int| 0 <= k < s.drop_last().len() && s.drop_last()[k] == front[i];
            assert(s[k] == front[i]);
        } else {
            assert(s[s.len() - 1] == first_seen(s)[i]);
        }
    }
}

/// A colored DNS report shows as the plain one, whatever the records hold,
/// unless a queried name, an endpoint or a failure message itself holds an
/// escape character.
pub proof fn lemma_dns_color_is_invisible(color: bool, host: Seq<char>, s: Seq<DnsObservation>)
    requires
        clean(host),
        forall|i: int| 0 <= i < s.len() ==> clean_dns(#[trigger] s[i]),
    ensures
        shows(dns_report(color, host, s), dns_report(false, host, s)),
{
    broadcast use {lemma_clean_shows, lemma_shows_add, lemma_line_shows};

    let all = resolvers_of(s);
    let seen = first_seen(all);
    assert forall|i: int| 0 <= i < seen.len() implies clean_resolver(#[trigger] seen[i]) by {
        lemma_first_seen_from(all, i);
        let k = choose|k: int| 0 <= k < all.len() && all[k] == seen[i];
        assert(clean_dns(s[k]));
    }
    lemma_sections(color, host, s, seen);
    assert(clean("DNS "@)) by {
        reveal(clean);
        reveal_strlit("DNS ");
    }
}

// --- repeated lookups and probes ---------------------------------------------------------

/// A failure count has no escapes.
broadcast proof fn lemma_kind_count_clean(k: FailureKind, n: nat)
    ensures
        #[trigger] clean(kind_count(k, n)),
{
    broadcast use {lemma_clean_add, lemma_kind_clean, lemma_dec_clean};

    lemma_sign_literals();
}

/// A rate has no escapes.
broadcast proof fn lemma_percent_clean(r: Rate)
    ensures
        #[trigger] clean(r.percent()),
{
    broadcast use {lemma_clean_add, lemma_dec_clean, lemma_padded_clean};

    lemma_sign_literals();
}

/// A latency with its unit has no escapes.
broadcast proof fn lemma_unit_clean(v: Option<u64>)
    ensures
        #[trigger] clean(with_unit(v)),
{
    broadcast use {lemma_clean_add, lemma_dec_clean};

    lemma_sign_literals();
}

/// Failure lines are shown as the plain ones.
proof fn lemma_failure_lines(color: bool, counts: Seq<FailureCount>)
    ensures
        shows(failure_lines(color, counts), failure_lines(false, counts)),
    decreases counts.len(),
{
    broadcast use {
        lemma_clean_shows,
        lemma_shows_add,
        lemma_clean_empty,
        lemma_line_shows,
        lemma_kind_count_clean,
        lemma_red,
    };

    if counts.len() > 0 {
        lemma_failure_lines(color, counts.drop_last());
        assert(clean("      - "@)) by {
            reveal(clean);
            reveal_strlit("      - ");
        }
    }
}

/// The labels of repeated results have no escapes.
proof fn lemma_repeat_literals()
    ensures
        clean("    attempts: "@),
        clean("    success:  "@),
        clean("    failure:  "@),
        clean("    latency:\n"@),
        clean("    ttfb:\n"@),
        clean("      min:  "@),
        clean("      p50:  "@),
        clean("      p90:  "@),
        clean("      p95:  "@),
        clean("      p99:  "@),
        clean("      max:  "@),
        clean("      jitter: "@),
        clean("    ttl: "@),
        clean(" s"@),
        clean("    failures: "@),
        clean("    status:   "@),
{
    reveal(clean);
    reveal_strlit("    attempts: ");
    reveal_strlit("    success:  ");
    reveal_strlit("    failure:  ");
    reveal_strlit("    latency:\n");
    reveal_strlit("    ttfb:\n");
    reveal_strlit("      min:  ");
    reveal_strlit("      p50:  ");
    reveal_strlit("      p90:  ");
    reveal_strlit("      p95:  ");
    reveal_strlit("      p99:  ");
    reveal_strlit("      max:  ");
    reveal_strlit("      jitter: ");
    reveal_strlit("    ttl: ");
    reveal_strlit(" s");
    reveal_strlit("    failures: ");
    reveal_strlit("    status:   ");
}

/// Latency blocks have no escapes.
proof fn lemma_latency_blocks(l: LatencySummary)
    ensures
        clean(lookup_latency(l)),
        clean(probe_latency(l)),
        clean(probe_ttfb(l)),
{
    broadcast use {lemma_clean_add, lemma_clean_empty, lemma_ms_clean, lemma_unit_clean};

    lemma_sign_literals();
    lemma_repeat_literals();
}

/// A repeated lookup is shown as the plain one.
proof fn lemma_repeat_row(color: bool, r: DnsRepeatResult)
    requires
        clean_resolver(r.resolver.deep_view()),
    ensures
        shows(repeat_row(color, r), repeat_row(false, r)),
{
    broadcast use {
        lemma_clean_shows,
        lemma_shows_add,
        lemma_clean_add,
        lemma_clean_empty,
        lemma_line_shows,
        lemma_dec_clean,
        lemma_percent_clean,
        lemma_type_clean,
        lemma_red,
    };

    reveal(repeat_row);
    lemma_sign_literals();
    lemma_repeat_literals();
    lemma_latency_blocks(r.latency);
    lemma_failure_lines(color, r.failure_counts@);
    assert(clean(resolver_text(r.resolver.deep_view()) + " "@ + r.record_type.text()));
    assert(clean(success_text(r.successes, r.success_rate)));
    assert(shows(count_text(color, r.failures as nat), count_text(false, r.failures as nat)));
    assert(clean(ttl_line(r.ttl)));
}

/// Repeated lookups are shown as the plain ones.
proof fn lemma_repeat_rows(color: bool, s: Seq<DnsRepeatResult>)
    requires
        forall|i: int| 0 <= i < s.len() ==> clean_resolver((#[trigger] s[i]).resolver.deep_view()),
    ensures
        shows(repeat_rows(color, s), repeat_rows(false, s)),
    decreases s.len(),
{
    broadcast use {lemma_clean_shows, lemma_shows_add, lemma_clean_empty};

    if s.len() > 0 {
        assert forall|i: int| 0 <= i < s.drop_last().len() implies clean_resolver(
            (#[trigger] s.drop_last()[i]).resolver.deep_view(),
        ) by {
            assert(s.drop_last()[i] == s[i]);
        }
        lemma_repeat_rows(color, s.drop_last());
        assert(clean_resolver(s[s.len() - 1].resolver.deep_view()));
        lemma_repeat_row(color, s.last());
    }
}

/// A colored report on repeated lookups shows as the plain one, unless the
/// name or a resolver holds an escape character.
pub proof fn lemma_dns_repeat_color_is_invisible(color: bool, host: Seq<char>, s: Seq<DnsRepeatResult>)
    requires
        clean(host),
        forall|i: int| 0 <= i < s.len() ==> clean_resolver((#[trigger] s[i]).resolver.deep_view()),
    ensures
        shows(dns_repeat_report(color, host, s), dns_repeat_report(false, host, s)),
{
    broadcast use {lemma_clean_shows, lemma_shows_add, lemma_line_shows};

    lemma_repeat_rows(color, s);
    assert(clean("Repeated DNS "@)) by {
        reveal(clean);
        reveal_strlit("Repeated DNS ");
    }
}

/// A repeated probe is shown as the plain one.
proof fn lemma_probe_row(color: bool, r: ProbeResult)
    ensures
        shows(probe_row(color, r), probe_row(false, r)),
{
    broadcast use {
        lemma_clean_shows,
        lemma_shows_add,
        lemma_clean_add,
        lemma_clean_empty,
        lemma_line_shows,
        lemma_dec_clean,
        lemma_percent_clean,
        lemma_socket_clean,
        lemma_kind_count_clean,
        lemma_class_shows,
        lemma_red,
    };

    reveal(probe_row);
    lemma_sign_literals();
    lemma_repeat_literals();
    lemma_latency_blocks(r.latency);
    lemma_latency_blocks(r.ttfb);
    assert(clean(success_text(r.successes, r.success_rate)));
    assert(shows(count_text(color, r.failures as nat), count_text(false, r.failures as nat)));
    let f = failure_tokens(color, r.failure_counts@);
    let pf = failure_tokens(false, r.failure_counts@);
    assert forall|i: int| 0 <= i < f.len() implies shows(#[trigger] f[i], pf[i]) by {
        let c = r.failure_counts@[i];
        assert(f[i] == red(color, kind_count(c.kind, c.count as nat)));
        assert(pf[i] == red(false, kind_count(c.kind, c.count as nat)));
    }
    lemma_join_shows(f, pf, ", "@);
    let t = status_tokens(color, r.status_counts@);
    let pt = status_tokens(false, r.status_counts@);
    assert forall|i: int| 0 <= i < t.len() implies shows(#[trigger] t[i], pt[i]) by {
        let c = r.status_counts@[i];
        assert(t[i] == status_token(color, c));
        assert(pt[i] == status_token(false, c));
    }
    lemma_join_shows(t, pt, ", "@);
    assert(shows(distributions(color, r), distributions(false, r)));
}

/// Repeated probes are shown as the plain ones.
proof fn lemma_probe_rows(color: bool, s: Seq<ProbeResult>)
    ensures
        shows(probe_rows(color, s), probe_rows(false, s)),
    decreases s.len(),
{
    broadcast use {lemma_clean_shows, lemma_shows_add, lemma_clean_empty};

    if s.len() > 0 {
        lemma_probe_rows(color, s.drop_last());
        lemma_probe_row(color, s.last());
    }
}

/// A colored report on repeated probes shows as the plain one.
pub proof fn lemma_probe_color_is_invisible(color: bool, s: Seq<ProbeResult>)
    ensures
        shows(probe_report(color, s), probe_report(false, s)),
{
    broadcast use {lemma_clean_shows, lemma_shows_add};

    lemma_probe_rows(color, s);
    assert(clean("Repeated probes\n"@)) by {
        reveal(clean);
        reveal_strlit("Repeated probes\n");
    }
}

// --- routes ------------------------------------------------------------------------------

/// A host cell without escapes in its name has none.
proof fn lemma_host_cell_clean(hostname: Option<String>, addresses: Seq<char>)
    requires
        clean_opt(hostname),
        clean(addresses),
    ensures
        clean(host_cell(hostname, addresses)),
{
    broadcast use lemma_clean_add;

    lemma_sign_literals();
}

/// Hops are shown as the plain ones.
proof fn lemma_hop_rows(color: bool, hops: Seq<RouteHop>, width: nat)
    requires
        forall|i: int| 0 <= i < hops.len() ==> clean_opt((#[trigger] hops[i]).hostname),
    ensures
        shows(hop_rows(color, hops, width), hop_rows(false, hops, width)),
    decreases hops.len(),
{
    broadcast use {
        lemma_clean_shows,
        lemma_shows_add,
        lemma_clean_empty,
        lemma_dec_clean,
        lemma_left_clean,
        lemma_right_clean,
        lemma_ip_clean,
        lemma_ms_clean,
        lemma_red,
    };

    if hops.len() > 0 {
        assert forall|i: int| 0 <= i < hops.drop_last().len() implies clean_opt(
            (#[trigger] hops.drop_last()[i]).hostname,
        ) by {
            assert(hops.drop_last()[i] == hops[i]);
        }
        lemma_hop_rows(color, hops.drop_last(), width);
        lemma_sign_literals();
        let h = hops.last();
        assert(clean_opt(hops[hops.len() - 1].hostname));
        match h.addr {
            Some(a) => lemma_host_cell_clean(h.hostname, a.text()),
            None => {},
        }
        assert(shows(hop_row(color, h, width), hop_row(false, h, width)));
    }
}

/// A colored traceroute shows as the plain one, unless a hostname holds an
/// escape character.
pub proof fn lemma_route_color_is_invisible(color: bool, hops: Seq<RouteHop>)
    requires
        forall|i: int| 0 <= i < hops.len() ==> clean_opt((#[trigger] hops[i]).hostname),
    ensures
        shows(route_report(color, hops), route_report(false, hops)),
{
    broadcast use {lemma_clean_shows, lemma_shows_add};

    lemma_hop_rows(color, hops, hop_width(hops));
    assert(clean("Traceroute\n"@)) by {
        reveal(clean);
        reveal_strlit("Traceroute\n");
    }
}

/// The notes on a hop are shown as the plain ones.
proof fn lemma_hop_notes(color: bool, h: RouteHopStats)
    ensures
        shows(notes_text(hop_notes(color, h)), notes_text(hop_notes(false, h))),
{
    broadcast use {
        lemma_clean_shows,
        lemma_shows_add,
        lemma_clean_add,
        lemma_clean_empty,
        lemma_dec_clean,
        lemma_yellow,
    };

    lemma_sign_literals();
    assert(clean("min "@) && clean("p50 "@) && clean("max "@) && clean("path changed"@)) by {
        reveal(clean);
        reveal_strlit("min ");
        reveal_strlit("p50 ");
        reveal_strlit("max ");
        reveal_strlit("path changed");
    }
    let n = hop_notes(color, h);
    let p = hop_notes(false, h);
    let front = bound("min "@, h.rtt.min) + bound("p50 "@, h.rtt.p50) + bound("max "@, h.rtt.max);
    assert forall|i: int| 0 <= i < front.len() implies clean(#[trigger] front[i]) by {
        let a = bound("min "@, h.rtt.min);
        let b = bound("p50 "@, h.rtt.p50);
        if i < a.len() {
            assert(front[i] == a[i]);
        } else if i < a.len() + b.len() {
            assert(front[i] == b[i - a.len()]);
        } else {
            assert(front[i] == bound("max "@, h.rtt.max)[i - a.len() - b.len()]);
        }
    }
    assert forall|i: int| 0 <= i < n.len() implies shows(#[trigger] n[i], p[i]) by {
        if i < front.len() {
            assert(n[i] == front[i] && p[i] == front[i]);
        } else {
            assert(n[i] == yellow(color, "path changed"@) && p[i] == yellow(false, "path changed"@));
        }
    }
    lemma_join_shows(n, p, "  "@);
}

/// A repeated hop is shown as the plain one.
proof fn lemma_stats_row(color: bool, h: RouteHopStats, runs: nat, width: nat)
    requires
        clean_opt(h.hostname),
    ensures
        shows(stats_row(color, h, runs, width), stats_row(false, h, runs, width)),
{
    broadcast use {
        lemma_clean_shows,
        lemma_shows_add,
        lemma_clean_add,
        lemma_dec_clean,
        lemma_left_clean,
        lemma_right_clean,
        lemma_ip_clean,
        lemma_red,
    };

    lemma_sign_literals();
    assert(clean("  0/"@) && clean(" (lost)"@) && clean(" answered"@)) by {
        reveal(clean);
        reveal_strlit("  0/");
        reveal_strlit(" (lost)");
        reveal_strlit(" answered");
    }
    let names = address_texts(h.addrs@);
    assert forall|i: int| 0 <= i < names.len() implies clean(#[trigger] names[i]) by {
        assert(names[i] == h.addrs@[i].text());
    }
    lemma_join_clean(names, ", "@);
    lemma_host_cell_clean(h.hostname, join(names, ", "@));
    lemma_hop_notes(color, h);
}

/// Repeated hops are shown as the plain ones.
proof fn lemma_stats_rows(color: bool, hops: Seq<RouteHopStats>, runs: nat, width: nat)
    requires
        forall|i: int| 0 <= i < hops.len() ==> clean_opt((#[trigger] hops[i]).hostname),
    ensures
        shows(stats_rows(color, hops, runs, width), stats_rows(false, hops, runs, width)),
    decreases hops.len(),
{
    broadcast use {lemma_clean_shows, lemma_shows_add, lemma_clean_empty};

    if hops.len() > 0 {
        assert forall|i: int| 0 <= i < hops.drop_last().len() implies clean_opt(
            (#[trigger] hops.drop_last()[i]).hostname,
        ) by {
            assert(hops.drop_last()[i] == hops[i]);
        }
        lemma_stats_rows(color, hops.drop_last(), runs, width);
        assert(clean_opt(hops[hops.len() - 1].hostname));
        lemma_stats_row(color, hops.last(), runs, width);
    }
}

/// A colored repeated traceroute shows as the plain one, unless a hostname
/// holds an escape character.
pub proof fn lemma_route_repeat_color_is_invisible(color: bool, r: RouteRepeat)
    requires
        forall|i: int| 0 <= i < r.hops@.len() ==> clean_opt((#[trigger] r.hops@[i]).hostname),
    ensures
        shows(route_repeat_report(color, r), route_repeat_report(false, r)),
{
    broadcast use {lemma_clean_shows, lemma_shows_add, lemma_clean_add, lemma_dec_clean};

    lemma_stats_rows(color, r.hops@, r.runs as nat, stats_width(r.hops@));
    assert(clean("Traceroute ("@) && clean(" runs)\n"@)) by {
        reveal(clean);
        reveal_strlit("Traceroute (");
        reveal_strlit(" runs)\n");
    }
}

// --- diagnoses ---------------------------------------------------------------------------

/// Whether the texts of a diagnosis have no escapes.
pub open spec fn clean_diagnosis(d: DiagnosisModel) -> bool {
    &&& clean(d.summary)
    &&& forall|i: int| 0 <= i < d.evidence.len() ==> clean(#[trigger] d.evidence[i])
    &&& forall|i: int| 0 <= i < d.possible_causes.len() ==> clean(#[trigger] d.possible_causes[i])
}

/// Items without escapes have none as lines.
proof fn lemma_items_clean(s: Seq<Seq<char>>)
    requires
        forall|i: int| 0 <= i < s.len() ==> clean(#[trigger] s[i]),
    ensures
        clean(items(s)),
    decreases s.len(),
{
    broadcast use {lemma_clean_add, lemma_clean_empty};

    if s.len() > 0 {
        assert forall|i: int| 0 <= i < s.drop_last().len() implies clean(#[trigger] s.drop_last()[i]) by {
            assert(s.drop_last()[i] == s[i]);
        }
        lemma_items_clean(s.drop_last());
        lemma_sign_literals();
        assert(clean("      - "@)) by {
            reveal(clean);
            reveal_strlit("      - ");
        }
        assert(clean(s[s.len() - 1]));
    }
}

/// Names of severities, confidences and categories have no escapes.
proof fn lemma_names_clean(severity: Severity, confidence: Confidence, category: DiagnosticCategory)
    ensures
        clean(severity.text()),
        clean(confidence.text()),
        clean(category.text()),
{
    reveal(clean);
    reveal_strlit("INFO");
    reveal_strlit("LOW");
    reveal_strlit("MEDIUM");
    reveal_strlit("HIGH");
    reveal_strlit("Unknown");
    reveal_strlit("Low");
    reveal_strlit("Medium");
    reveal_strlit("High");
    reveal_strlit("Healthy");
    reveal_strlit("Dns");
    reveal_strlit("AddressFamily");
    reveal_strlit("PartialConnectivity");
    reveal_strlit("TotalConnectivityLoss");
    reveal_strlit("Intermittent");
    reveal_strlit("Tcp");
    reveal_strlit("Tls");
    reveal_strlit("Certificate");
    reveal_strlit("Http");
    reveal_strlit("Quic");
    reveal_strlit("PossibleNetworkFiltering");
}

/// A diagnosis is shown as the plain one.
proof fn lemma_diagnosis(color: bool, d: DiagnosisModel)
    requires
        clean_diagnosis(d),
    ensures
        shows(diagnosis_text(color, d), diagnosis_text(false, d)),
{
    broadcast use {
        lemma_clean_shows,
        lemma_shows_add,
        lemma_clean_add,
        lemma_clean_empty,
        lemma_line_shows,
        lemma_red,
        lemma_yellow,
        lemma_cyan,
    };

    reveal(diagnosis_text);
    lemma_sign_literals();
    lemma_names_clean(d.severity, d.confidence, d.category);
    lemma_items_clean(d.evidence);
    lemma_items_clean(d.possible_causes);
    assert(clean("] "@) && clean(" confidence)\n"@) && clean("    Evidence:\n"@) && clean(
        "    Possible causes:\n"@,
    )) by {
        reveal(clean);
        reveal_strlit("] ");
        reveal_strlit(" confidence)\n");
        reveal_strlit("    Evidence:\n");
        reveal_strlit("    Possible causes:\n");
    }
    assert(shows(badge(color, d.severity), badge(false, d.severity)));
    assert(clean(headed("    Evidence:\n"@, d.evidence)));
    assert(clean(headed("    Possible causes:\n"@, d.possible_causes)));
}

/// Diagnoses are shown as the plain ones.
proof fn lemma_diagnosis_rows(color: bool, s: Seq<DiagnosisModel>)
    requires
        forall|i: int| 0 <= i < s.len() ==> clean_diagnosis(#[trigger] s[i]),
    ensures
        shows(diagnosis_rows(color, s), diagnosis_rows(false, s)),
    decreases s.len(),
{
    broadcast use {lemma_clean_shows, lemma_shows_add, lemma_clean_empty};

    if s.len() > 0 {
        assert forall|i: int| 0 <= i < s.drop_last().len() implies clean_diagnosis(#[trigger] s.drop_last()[i]) by {
            assert(s.drop_last()[i] == s[i]);
        }
        lemma_diagnosis_rows(color, s.drop_last());
        assert(clean_diagnosis(s[s.len() - 1]));
        lemma_diagnosis(color, s.last());
    }
}

/// The number of anomalies of a severity has no escapes.
proof fn lemma_severity_part(s: Seq<DiagnosisModel>, severity: Severity)
    ensures
        forall|i: int| 0 <= i < severity_part(s, severity).len() ==> clean(#[trigger] severity_part(s, severity)[i]),
{
    broadcast use {lemma_clean_add, lemma_dec_clean};

    lemma_sign_literals();
    lemma_names_clean(severity, Confidence::Low, DiagnosticCategory::Unknown);
}

/// The closing line is shown as the plain one.
proof fn lemma_trailer(color: bool, s: Seq<DiagnosisModel>)
    ensures
        shows(trailer(color, s), trailer(false, s)),
{
    broadcast use {
        lemma_clean_shows,
        lemma_clean_add,
        lemma_clean_empty,
        lemma_line_shows,
        lemma_dec_clean,
        lemma_red,
        lemma_yellow,
    };

    lemma_sign_literals();
    lemma_severity_part(s, Severity::High);
    lemma_severity_part(s, Severity::Medium);
    lemma_severity_part(s, Severity::Low);
    lemma_severity_part(s, Severity::Info);
    let a = severity_part(s, Severity::High);
    let b = severity_part(s, Severity::Medium);
    let c = severity_part(s, Severity::Low);
    let d = severity_part(s, Severity::Info);
    let parts = severity_parts(s);
    assert forall|i: int| 0 <= i < parts.len() implies clean(#[trigger] parts[i]) by {
        if i < a.len() {
            assert(parts[i] == a[i]);
        } else if i < a.len() + b.len() {
            assert(parts[i] == b[i - a.len()]);
        } else if i < a.len() + b.len() + c.len() {
            assert(parts[i] == c[i - a.len() - b.len()]);
        } else {
            assert(parts[i] == d[i - a.len() - b.len() - c.len()]);
        }
    }
    lemma_join_clean(parts, ", "@);
    assert(clean("Anomalies: "@)) by {
        reveal(clean);
        reveal_strlit("Anomalies: ");
    }
    assert(clean("Anomalies: "@ + dec(anomalies(s, None)) + " ("@ + join(parts, ", "@) + ")"@));
}

/// A colored report on diagnoses shows as the plain one, unless a diagnosis
/// quotes an escape character.
pub proof fn lemma_diagnosis_color_is_invisible(color: bool, s: Seq<DiagnosisModel>)
    requires
        forall|i: int| 0 <= i < s.len() ==> clean_diagnosis(#[trigger] s[i]),
    ensures
        shows(diagnosis_report(color, s), diagnosis_report(false, s)),
{
    broadcast use {lemma_clean_shows, lemma_shows_add};

    lemma_diagnosis_rows(color, s);
    lemma_trailer(color, s);
    assert(clean("Diagnosis\n"@)) by {
        reveal(clean);
        reveal_strlit("Diagnosis\n");
    }
}

} // verus!
