//! Certificates: whether one covers a hostname, and how one is shown.

use super::date::{days_until, days_until_at, valid_day};
use crate::http_common::{
    bare_chars, bare_host, lemma_bare_host_ignores_brackets, lemma_bare_host_ignores_case,
};
use crate::model::CertificateSummary;
use crate::net::{
    lemma_address_ignores_case, lemma_address_reads_back, parse_ip, parse_ip_chars, IpAddr, SocketAddr,
};
use crate::style::{red, yellow, Style};
use crate::text::{
    chars_of, dec, find_char, first_at, has_prefix, join, join_texts, lemma_first_at, lemma_first_at_bounds, lower,
    lowered, push_dec, same_chars, slice_of, starts_with, string_of, texts,
};
use vstd::prelude::*;

verus! {

/// Number of days before expiry the certificate report flags as expiring.
/// Shared with the diagnostic engine.
pub const RENDER_CERT_EXPIRY_WINDOW_DAYS: i64 = 30;

/// Whether a name differs from a destination's address: it is another address,
/// or not an address and not empty.
pub open spec fn name_differs(presented: Seq<char>, destination: SocketAddr) -> bool {
    match parse_ip(bare_host(presented)) {
        Some(ip) => ip != destination.ip,
        None => bare_host(presented).len() > 0,
    }
}

/// Whether the presented host/SNI differs from the destination's literal
/// address host: the probe connected to an address but presented a different
/// name. An IP-literal presentation equal to the destination is the ordinary
/// case.
pub fn presented_name_differs(presented: &str, destination: SocketAddr) -> (r: bool)
    ensures
        r == name_differs(presented@, destination),
{
    let bare = bare_chars(presented);
    match parse_ip_chars(bare.as_slice()) {
        Some(ip) => ip != destination.ip,
        None => bare.len() > 0,
    }
}

/// Whether a lower-case DNS name is matched by a lower-case subject
/// alternative name: equal, or the name is one label in front of what follows
/// the `*.` of a wildcard.
pub open spec fn san_matches(name: Seq<char>, san: Seq<char>) -> bool {
    if has_prefix(san, "*."@) {
        let i = first_at(name, '.');
        i < name.len() && name.skip(i + 1) == san.skip("*."@.len() as int)
    } else {
        san == name
    }
}

/// Whether one subject alternative name covers a presented name.
pub open spec fn san_covers(sni: Seq<char>, san: Seq<char>) -> bool {
    match parse_ip(bare_host(sni)) {
        Some(ip) => parse_ip(san) == Some(ip),
        None => san_matches(lower(bare_host(sni)), lower(san)),
    }
}

/// Whether any subject alternative name covers a presented name.
pub open spec fn covers(sni: Seq<char>, sans: Seq<String>) -> bool {
    exists|i: int| 0 <= i < sans.len() && san_covers(sni, (#[trigger] sans[i])@)
}

/// A wildcard covers exactly the names that are one label, without a dot, in
/// front of its suffix.
pub proof fn lemma_wildcard_covers_one_label(name: Seq<char>, suffix: Seq<char>)
    ensures
        san_matches(name, "*."@ + suffix) <==> exists|label: Seq<char>|
            !label.contains('.') && name == #[trigger] (label + "."@) + suffix,
{
    reveal_strlit("*.");
    reveal_strlit(".");
    let san = "*."@ + suffix;
    assert(san.take(2) =~= "*."@);
    assert(san.skip(2) =~= suffix);
    lemma_first_at_bounds(name, '.');
    let i = first_at(name, '.');
    if san_matches(name, san) {
        let label = name.take(i);
        assert(!label.contains('.'));
        assert(name =~= label + "."@ + suffix);
        assert(!label.contains('.') && name == (label + "."@) + suffix);
    }
    if exists|label: Seq<char>| !label.contains('.') && name == #[trigger] (label + "."@) + suffix {
        let label = choose|label: Seq<char>| !label.contains('.') && name == #[trigger] (label + "."@) + suffix;
        assert forall|j: int| 0 <= j < label.len() implies name[j] != '.' by {
            assert(label.contains(label[j]));
        }
        lemma_first_at(name, '.', label.len() as int);
        assert(name.skip(label.len() as int + 1) =~= suffix);
    }
}

/// Whether a lower-case DNS name is matched by a lower-case subject
/// alternative name.
fn matches_san(name: &[char], san: &[char]) -> (r: bool)
    ensures
        r == san_matches(name@, san@),
{
    if starts_with(san, "*.") {
        let n = "*.".unicode_len();
        let suffix = slice_of(san, n, san.len());
        assert(suffix@ =~= san@.skip("*."@.len() as int));
        match find_char(name, '.') {
            Some(i) => {
                let rest = slice_of(name, i + 1, name.len());
                assert(rest@ =~= name@.skip(i as int + 1));
                same_chars(rest.as_slice(), suffix.as_slice())
            },
            None => false,
        }
    } else {
        same_chars(san, name)
    }
}

/// Whether any subject alternative name covers the presented hostname/`SNI`.
///
/// An `IP`-literal `SNI` (brackets ignored) must match an `IPAddress` SAN
/// exactly, and a DNS `SNI` matches a `DNSName` SAN case-insensitively, where
/// a leading `*.` wildcard matches only a single left-most label.
pub fn cert_covers_hostname(sni: &str, sans: &[String]) -> (r: bool)
    ensures
        r == covers(sni@, sans@),
{
    let bare = bare_chars(sni);
    let ip = parse_ip_chars(bare.as_slice());
    let name = lowered(bare.as_slice());
    for i in 0..sans.len()
        invariant
            bare@ == bare_host(sni@),
            ip == parse_ip(bare@),
            name@ == lower(bare@),
            forall|j: int| 0 <= j < i ==> !san_covers(sni@, (#[trigger] sans@[j])@),
    {
        let san = chars_of(sans[i].as_str());
        let covered = match ip {
            Some(ip) => match parse_ip_chars(san.as_slice()) {
                Some(other) => other == ip,
                None => false,
            },
            None => matches_san(name.as_slice(), lowered(san.as_slice()).as_slice()),
        };
        if covered {
            assert(san_covers(sni@, sans@[i as int]@));
            return true;
        }
    }
    false
}

/// A list of names covers a host exactly when one of its parts does.
pub proof fn lemma_coverage_is_by_either_part(sni: Seq<char>, a: Seq<String>, b: Seq<String>)
    ensures
        covers(sni, a + b) <==> covers(sni, a) || covers(sni, b),
{
    if covers(sni, a + b) {
        let i = choose|i: int| 0 <= i < (a + b).len() && san_covers(sni, (#[trigger] (a + b)[i])@);
        if i < a.len() {
            assert(san_covers(sni, a[i]@));
        } else {
            assert(san_covers(sni, b[i - a.len()]@));
        }
    }
    if covers(sni, a) {
        let i = choose|i: int| 0 <= i < a.len() && san_covers(sni, (#[trigger] a[i])@);
        assert(san_covers(sni, (a + b)[i]@));
    }
    if covers(sni, b) {
        let i = choose|i: int| 0 <= i < b.len() && san_covers(sni, (#[trigger] b[i])@);
        assert(san_covers(sni, (a + b)[a.len() + i]@));
    }
}

/// No names cover no host.
pub proof fn lemma_no_names_cover_nothing(sni: Seq<char>)
    ensures
        !covers(sni, Seq::empty()),
{
}

/// Coverage does not depend on the letter case of the host.
pub proof fn lemma_coverage_ignores_case(a: Seq<char>, b: Seq<char>, sans: Seq<String>)
    requires
        lower(a) == lower(b),
    ensures
        covers(a, sans) == covers(b, sans),
{
    lemma_bare_host_ignores_case(a);
    lemma_bare_host_ignores_case(b);
    lemma_address_ignores_case(bare_host(a));
    lemma_address_ignores_case(bare_host(b));
    assert forall|i: int| 0 <= i < sans.len() implies san_covers(a, (#[trigger] sans[i])@) == san_covers(
        b,
        sans[i]@,
    ) by {}
}

/// Coverage does not depend on brackets around the host.
pub proof fn lemma_coverage_ignores_brackets(sni: Seq<char>, sans: Seq<String>)
    ensures
        covers("["@ + sni + "]"@, sans) == covers(sni, sans),
{
    reveal_strlit("[");
    reveal_strlit("]");
    lemma_bare_host_ignores_brackets(sni);
    assert("["@ + sni + "]"@ =~= seq!['['] + sni + seq![']']);
}

/// A timestamp without the zone letters at its end.
pub open spec fn unzoned(s: Seq<char>) -> Seq<char>
    decreases s.len(),
{
    if s.len() > 0 && s.last() == 'Z' {
        unzoned(s.drop_last())
    } else {
        s
    }
}

/// A timestamp without the zone letters at its end.
fn without_zone(s: &str) -> (out: String)
    ensures
        out@ == unzoned(s@),
{
    let chars = chars_of(s);
    let mut end: usize = chars.len();
    assert(s@.take(end as int) =~= s@);
    while end > 0 && chars[end - 1] == 'Z'
        invariant
            chars@ == s@,
            end <= chars@.len(),
            unzoned(s@.take(end as int)) == unzoned(s@),
        decreases end,
    {
        assert(s@.take(end as int).drop_last() =~= s@.take(end - 1));
        end = end - 1;
    }
    let front = slice_of(chars.as_slice(), 0, end);
    assert(front@ =~= s@.take(end as int));
    string_of(front.as_slice())
}

/// The validity window as shown; nothing unless both ends are known.
pub open spec fn validity_text(cert: CertificateSummary) -> Seq<char> {
    match (cert.not_after_utc, cert.not_before_utc) {
        (Some(a), Some(b)) => " (valid "@ + unzoned(b@) + ".."@ + unzoned(a@) + ")"@,
        _ => Seq::empty(),
    }
}

/// The remaining lifetime as shown: only when it is actionable.
pub open spec fn lifetime_text(color: bool, days: Option<int>) -> Seq<char> {
    match days {
        Some(n) => if n < 0 {
            red(color, " (expired)"@)
        } else if n == 0 {
            yellow(color, " (expires today)"@)
        } else if n <= RENDER_CERT_EXPIRY_WINDOW_DAYS {
            yellow(
                color,
                " (expires in "@ + dec(n as nat) + " day"@ + (if n == 1 {
                    ""@
                } else {
                    "s"@
                }) + ")"@,
            )
        } else {
            Seq::empty()
        },
        None => Seq::empty(),
    }
}

/// The days until a certificate expires.
pub open spec fn days_left(cert: CertificateSummary, today: Option<i64>) -> Option<int> {
    match cert.not_after_utc {
        Some(a) => days_until(a@, today),
        None => None,
    }
}

/// The subject alternative names as shown.
pub open spec fn sans_text(sans: Seq<String>) -> Seq<char> {
    if sans.len() == 0 {
        Seq::empty()
    } else {
        "; sans: "@ + join(texts(sans), ", "@)
    }
}

/// A certificate as shown on a given day.
pub open spec fn cert_text(color: bool, cert: CertificateSummary, today: Option<i64>) -> Seq<char> {
    cert.subject@ + " issued by "@ + cert.issuer@ + validity_text(cert) + lifetime_text(color, days_left(cert, today))
        + sans_text(cert.sans@)
}

/// The remaining lifetime as shown.
fn render_lifetime(style: Style, days: Option<i64>) -> (out: String)
    ensures
        out@ == lifetime_text(
            style.on(),
            match days {
                Some(n) => Some(n as int),
                None => None,
            },
        ),
{
    match days {
        Some(n) => if n < 0 {
            style.fail(" (expired)")
        } else if n == 0 {
            style.warn(" (expires today)")
        } else if n <= RENDER_CERT_EXPIRY_WINDOW_DAYS {
            let mut text = " (expires in ".to_owned();
            push_dec(&mut text, n as u64);
            text.append(" day");
            text.append(
                if n == 1 {
                    ""
                } else {
                    "s"
                },
            );
            text.append(")");
            style.warn(text.as_str())
        } else {
            String::new()
        },
        None => String::new(),
    }
}

/// Render a certificate summary compactly for the terminal, annotated with the
/// remaining lifetime on the day `today` when it is actionable: `expired`,
/// `expires today`, or `expires in N day(s)` within
/// [`RENDER_CERT_EXPIRY_WINDOW_DAYS`]. The annotation is painted red when
/// expired, yellow when expiring.
pub fn render_cert(style: Style, cert: &CertificateSummary, today: Option<i64>) -> (out: String)
    requires
        valid_day(today),
    ensures
        out@ == cert_text(style.on(), *cert, today),
{
    let mut out = cert.subject.clone();
    out.append(" issued by ");
    out.append(cert.issuer.as_str());
    let valid = match (&cert.not_after_utc, &cert.not_before_utc) {
        (Some(a), Some(b)) => {
            let mut valid = " (valid ".to_owned();
            valid.append(without_zone(b.as_str()).as_str());
            valid.append("..");
            valid.append(without_zone(a.as_str()).as_str());
            valid.append(")");
            valid
        },
        _ => String::new(),
    };
    out.append(valid.as_str());
    let days = match &cert.not_after_utc {
        Some(a) => days_until_at(a.as_str(), today),
        None => None,
    };
    out.append(render_lifetime(style, days).as_str());
    let sans = if cert.sans.len() == 0 {
        String::new()
    } else {
        let mut sans = "; sans: ".to_owned();
        sans.append(join_texts(cert.sans.as_slice(), ", ").as_str());
        sans
    };
    out.append(sans.as_str());
    out
}

// --- laws ------------------------------------------------------------------------------

/// A certificate covers a presented name exactly when one of its names does: an
/// address by the same address, and any other name by the same name in any case
/// or by a wildcard that stands for exactly its first label.
pub proof fn lemma_what_covers(sni: Seq<char>, sans: Seq<String>)
    ensures
        covers(sni, sans) <==> exists|i: int|
            0 <= i < sans.len() && (match parse_ip(bare_host(sni)) {
                Some(ip) => parse_ip((#[trigger] sans[i])@) == Some(ip),
                None => {
                    let name = lower(bare_host(sni));
                    let san = lower(sans[i]@);
                    if san.len() >= 2 && san[0] == '*' && san[1] == '.' {
                        exists|label: Seq<char>|
                            !label.contains('.') && name == #[trigger] (label + seq!['.']) + san.skip(2)
                    } else {
                        san == name
                    }
                },
            }),
{
    reveal_strlit("*.");
    reveal_strlit(".");
    assert("."@ =~= seq!['.']);
    assert("*."@ =~= seq!['*', '.']);
    let name = lower(bare_host(sni));
    assert forall|i: int| 0 <= i < sans.len() && parse_ip(bare_host(sni)) is None implies san_covers(
        sni,
        (#[trigger] sans[i])@,
    ) == ({
        let san = lower(sans[i]@);
        if san.len() >= 2 && san[0] == '*' && san[1] == '.' {
            exists|label: Seq<char>| !label.contains('.') && name == #[trigger] (label + seq!['.']) + san.skip(2)
        } else {
            san == name
        }
    }) by {
        let san = lower(sans[i]@);
        if san.len() >= 2 && san[0] == '*' && san[1] == '.' {
            let suffix = san.skip(2);
            assert(san =~= "*."@ + suffix);
            lemma_wildcard_covers_one_label(name, suffix);
        } else if has_prefix(san, "*."@) {
            assert(san.take(2)[0] == '*' && san.take(2)[1] == '.');
        }
    }
    if covers(sni, sans) {
        let i = choose|i: int| 0 <= i < sans.len() && san_covers(sni, (#[trigger] sans[i])@);
        assert(san_covers(sni, sans[i]@));
    }
}

/// A presented name differs from a destination unless it is the destination's own
/// address, bare or in brackets; no name at all does not.
pub proof fn lemma_presented_name(presented: Seq<char>, ip: IpAddr, destination: SocketAddr)
    ensures
        bare_host(presented) == ip.text() ==> (name_differs(presented, destination) <==> ip != destination.ip),
        parse_ip(bare_host(presented)) is None && bare_host(presented).len() > 0 ==> name_differs(
            presented,
            destination,
        ),
        parse_ip(bare_host(presented)) is None && bare_host(presented).len() == 0 ==> !name_differs(
            presented,
            destination,
        ),
{
    lemma_address_reads_back(ip);
}

} // verus!
