//! Human rendering of repeated probes and lookups.

use super::layout::{
    by_class, count_text, fmt, line, ms_or_dash, ms_text, num_text, paint_class, push_line, render_count,
};
use crate::diagnostics::input::{kind_count, kind_count_text};
use crate::diagnostics::layer::valid_probes;
use crate::model::dns::resolver_text;
use crate::model::{DnsRepeatResult, FailureCount, LatencySummary, ProbeResult, Rate, StatusCount};
use crate::style::{red, Style};
use crate::text::{dec, dec_text, glue, glue3, join, join_texts, push_dec, push_text, texts};
use vstd::prelude::*;

verus! {

/// A number of successes with its rate: `{n} ({rate}%)`.
pub open spec fn success_text(successes: usize, rate: Rate) -> Seq<char> {
    dec(successes as nat) + " ("@ + rate.percent() + "%)"@
}

/// A number of successes with its rate.
fn render_success(successes: usize, rate: &Rate) -> (out: String)
    requires
        rate.wf(),
    ensures
        out@ == success_text(successes, *rate),
{
    let mut out = dec_text(successes as u64);
    out.append(" (");
    out.append(rate.percent_text().as_str());
    out.append("%)");
    out
}

/// A latency with its unit, `-` standing for none.
pub open spec fn with_unit(v: Option<u64>) -> Seq<char> {
    num_text(v) + " ms"@
}

/// A latency with its unit.
fn render_unit(v: Option<u64>) -> (out: String)
    ensures
        out@ == with_unit(v),
{
    glue(fmt(v).as_str(), " ms")
}

// --- lookups -----------------------------------------------------------------------------

/// The failure counts of a lookup as shown, one line each.
pub open spec fn failure_lines(color: bool, counts: Seq<FailureCount>) -> Seq<char>
    decreases counts.len(),
{
    if counts.len() == 0 {
        Seq::empty()
    } else {
        failure_lines(color, counts.drop_last()) + line(
            "      - "@,
            red(color, kind_count(counts.last().kind, counts.last().count as nat)),
        )
    }
}

/// The latencies of a lookup as shown.
pub open spec fn lookup_latency(l: LatencySummary) -> Seq<char> {
    if l.count > 0 {
        "    latency:\n"@ + line("      min:  "@, ms_text(l.min)) + line("      p50:  "@, ms_text(l.p50)) + line(
            "      p95:  "@,
            ms_text(l.p95),
        ) + line("      p99:  "@, ms_text(l.p99)) + line("      max:  "@, ms_text(l.max)) + line(
            "      jitter: "@,
            ms_text(l.jitter),
        )
    } else {
        Seq::empty()
    }
}

/// The least time-to-live as shown.
pub open spec fn ttl_line(ttl: Option<u32>) -> Seq<char> {
    match ttl {
        Some(t) => line("    ttl: "@, dec(t as nat) + " s"@),
        None => Seq::empty(),
    }
}

/// A repeated lookup as shown.
#[verifier::opaque]
pub open spec fn repeat_row(color: bool, r: DnsRepeatResult) -> Seq<char> {
    line("  "@, resolver_text(r.resolver.deep_view()) + " "@ + r.record_type.text()) + line(
        "    attempts: "@,
        dec(r.attempts as nat),
    ) + line("    success:  "@, success_text(r.successes, r.success_rate)) + line(
        "    failure:  "@,
        count_text(color, r.failures as nat),
    ) + failure_lines(color, r.failure_counts@) + ttl_line(r.ttl) + lookup_latency(r.latency)
}

/// Repeated lookups as shown.
pub open spec fn repeat_rows(color: bool, s: Seq<DnsRepeatResult>) -> Seq<char>
    decreases s.len(),
{
    if s.len() == 0 {
        Seq::empty()
    } else {
        repeat_rows(color, s.drop_last()) + repeat_row(color, s.last())
    }
}

/// The report on repeated lookups.
pub open spec fn dns_repeat_report(color: bool, host: Seq<char>, s: Seq<DnsRepeatResult>) -> Seq<char> {
    line("Repeated DNS "@, host) + repeat_rows(color, s)
}

/// Append the failure counts of a lookup.
fn push_failure_lines(out: &mut String, style: Style, counts: &[FailureCount])
    ensures
        final(out)@ == old(out)@ + failure_lines(style.on(), counts@),
{
    let ghost before = out@;
    assert(before + Seq::<char>::empty() =~= before);
    for i in 0..counts.len()
        invariant
            out@ == before + failure_lines(style.on(), counts@.take(i as int)),
    {
        let ghost front = failure_lines(style.on(), counts@.take(i as int));
        assert(counts@.take(i as int + 1).drop_last() =~= counts@.take(i as int));
        let text = style.fail(kind_count_text(counts[i].kind, counts[i].count).as_str());
        push_line(out, "      - ", text.as_str());
        assert(out@ =~= before + (front + line("      - "@, text@)));
    }
    assert(counts@.take(counts@.len() as int) =~= counts@);
}

/// The latencies of a lookup.
fn render_lookup_latency(l: &LatencySummary) -> (out: String)
    ensures
        out@ == lookup_latency(*l),
{
    if l.count > 0 {
        let mut out = "    latency:\n".to_owned();
        push_line(&mut out, "      min:  ", ms_or_dash(l.min).as_str());
        push_line(&mut out, "      p50:  ", ms_or_dash(l.p50).as_str());
        push_line(&mut out, "      p95:  ", ms_or_dash(l.p95).as_str());
        push_line(&mut out, "      p99:  ", ms_or_dash(l.p99).as_str());
        push_line(&mut out, "      max:  ", ms_or_dash(l.max).as_str());
        push_line(&mut out, "      jitter: ", ms_or_dash(l.jitter).as_str());
        out
    } else {
        String::new()
    }
}

/// A repeated lookup as shown.
fn render_repeat_row(style: Style, r: &DnsRepeatResult) -> (out: String)
    requires
        r.success_rate.wf(),
    ensures
        out@ == repeat_row(style.on(), *r),
{
    let mut out = String::new();
    let label = r.resolver.label();
    let title = glue3(label.as_str(), " ", r.record_type.to_text());
    push_line(&mut out, "  ", title.as_str());
    assert(out@ =~= line("  "@, title@));
    push_line(&mut out, "    attempts: ", dec_text(r.attempts as u64).as_str());
    push_line(&mut out, "    success:  ", render_success(r.successes, &r.success_rate).as_str());
    push_line(&mut out, "    failure:  ", render_count(style, r.failures).as_str());
    push_failure_lines(&mut out, style, r.failure_counts.as_slice());
    let ghost before = out@;
    match r.ttl {
        Some(t) => {
            let mut text = dec_text(t as u64);
            text.append(" s");
            push_line(&mut out, "    ttl: ", text.as_str());
        },
        None => {},
    }
    assert(out@ =~= before + ttl_line(r.ttl));
    out.append(render_lookup_latency(&r.latency).as_str());
    proof {
        reveal(repeat_row);
    }
    out
}

/// Whether the rates of lookups have a value.
pub open spec fn valid_lookups(s: Seq<DnsRepeatResult>) -> bool {
    forall|i: int| 0 <= i < s.len() ==> (#[trigger] s[i]).success_rate.wf()
}

/// Render repeated DNS resolution results as human text.
pub fn render_dns_repeat(style: &Style, host: &str, results: &[DnsRepeatResult]) -> (out: String)
    requires
        valid_lookups(results@),
    ensures
        out@ == dns_repeat_report(style.on(), host@, results@),
{
    let mut out = String::new();
    push_line(&mut out, "Repeated DNS ", host);
    let ghost head = line("Repeated DNS "@, host@);
    assert(out@ =~= head);
    assert(head + Seq::<char>::empty() =~= head);
    for i in 0..results.len()
        invariant
            valid_lookups(results@),
            out@ == head + repeat_rows(style.on(), results@.take(i as int)),
    {
        let ghost rows = repeat_rows(style.on(), results@.take(i as int));
        assert(results@.take(i as int + 1).drop_last() =~= results@.take(i as int));
        let row = render_repeat_row(*style, &results[i]);
        out.append(row.as_str());
        assert(out@ =~= head + (rows + row@));
    }
    assert(results@.take(results@.len() as int) =~= results@);
    out
}

// --- probes ------------------------------------------------------------------------------

/// The latencies of a probe as shown.
pub open spec fn probe_latency(l: LatencySummary) -> Seq<char> {
    if l.count > 0 {
        "    latency:\n"@ + line("      min:  "@, with_unit(l.min)) + line("      p50:  "@, with_unit(l.p50)) + line(
            "      p90:  "@,
            with_unit(l.p90),
        ) + line("      p95:  "@, with_unit(l.p95)) + line("      p99:  "@, with_unit(l.p99)) + line(
            "      max:  "@,
            with_unit(l.max),
        ) + line("      jitter: "@, with_unit(l.jitter))
    } else {
        Seq::empty()
    }
}

/// The times to the first byte of a probe as shown.
pub open spec fn probe_ttfb(l: LatencySummary) -> Seq<char> {
    if l.count > 0 {
        "    ttfb:\n"@ + line("      min:  "@, with_unit(l.min)) + line("      p50:  "@, with_unit(l.p50)) + line(
            "      p95:  "@,
            with_unit(l.p95),
        ) + line("      max:  "@, with_unit(l.max))
    } else {
        Seq::empty()
    }
}

/// The failure counts of a probe as shown.
pub open spec fn failure_tokens(color: bool, counts: Seq<FailureCount>) -> Seq<Seq<char>> {
    counts.map_values(|f: FailureCount| red(color, kind_count(f.kind, f.count as nat)))
}

/// A status count as shown: `{status}x{count}`, colored by class as a whole.
pub open spec fn status_token(color: bool, s: StatusCount) -> Seq<char> {
    by_class(color, s.status, dec(s.status as nat) + "x"@ + dec(s.count as nat))
}

/// The status counts of a probe as shown.
pub open spec fn status_tokens(color: bool, counts: Seq<StatusCount>) -> Seq<Seq<char>> {
    counts.map_values(|s: StatusCount| status_token(color, s))
}

/// The distributions of a probe as shown, where there are any.
pub open spec fn distributions(color: bool, r: ProbeResult) -> Seq<char> {
    (if r.failure_counts@.len() > 0 {
        line("    failures: "@, join(failure_tokens(color, r.failure_counts@), ", "@))
    } else {
        Seq::empty()
    }) + (if r.status_counts@.len() > 0 {
        line("    status:   "@, join(status_tokens(color, r.status_counts@), ", "@))
    } else {
        Seq::empty()
    })
}

/// A repeated probe as shown.
#[verifier::opaque]
pub open spec fn probe_row(color: bool, r: ProbeResult) -> Seq<char> {
    line("  "@, r.destination.text()) + line("    attempts: "@, dec(r.attempts as nat)) + line(
        "    success:  "@,
        success_text(r.successes, r.success_rate),
    ) + line("    failure:  "@, count_text(color, r.failures as nat)) + probe_latency(r.latency) + probe_ttfb(r.ttfb)
        + distributions(color, r)
}

/// Repeated probes as shown.
pub open spec fn probe_rows(color: bool, s: Seq<ProbeResult>) -> Seq<char>
    decreases s.len(),
{
    if s.len() == 0 {
        Seq::empty()
    } else {
        probe_rows(color, s.drop_last()) + probe_row(color, s.last())
    }
}

/// The report on repeated probes.
pub open spec fn probe_report(color: bool, s: Seq<ProbeResult>) -> Seq<char> {
    "Repeated probes\n"@ + probe_rows(color, s)
}

/// The latencies of a probe.
fn render_probe_latency(l: &LatencySummary) -> (out: String)
    ensures
        out@ == probe_latency(*l),
{
    if l.count > 0 {
        let mut out = "    latency:\n".to_owned();
        push_line(&mut out, "      min:  ", render_unit(l.min).as_str());
        push_line(&mut out, "      p50:  ", render_unit(l.p50).as_str());
        push_line(&mut out, "      p90:  ", render_unit(l.p90).as_str());
        push_line(&mut out, "      p95:  ", render_unit(l.p95).as_str());
        push_line(&mut out, "      p99:  ", render_unit(l.p99).as_str());
        push_line(&mut out, "      max:  ", render_unit(l.max).as_str());
        push_line(&mut out, "      jitter: ", render_unit(l.jitter).as_str());
        out
    } else {
        String::new()
    }
}

/// The times to the first byte of a probe.
fn render_probe_ttfb(l: &LatencySummary) -> (out: String)
    ensures
        out@ == probe_ttfb(*l),
{
    if l.count > 0 {
        let mut out = "    ttfb:\n".to_owned();
        push_line(&mut out, "      min:  ", render_unit(l.min).as_str());
        push_line(&mut out, "      p50:  ", render_unit(l.p50).as_str());
        push_line(&mut out, "      p95:  ", render_unit(l.p95).as_str());
        push_line(&mut out, "      max:  ", render_unit(l.max).as_str());
        out
    } else {
        String::new()
    }
}

/// The failure counts of a probe.
fn render_failure_tokens(style: Style, counts: &[FailureCount]) -> (out: Vec<String>)
    ensures
        texts(out@) == failure_tokens(style.on(), counts@),
{
    let mut out: Vec<String> = Vec::new();
    assert(texts(out@) =~= failure_tokens(style.on(), counts@.take(0)));
    for i in 0..counts.len()
        invariant
            texts(out@) == failure_tokens(style.on(), counts@.take(i as int)),
    {
        let token = style.fail(kind_count_text(counts[i].kind, counts[i].count).as_str());
        push_text(&mut out, token);
        assert(failure_tokens(style.on(), counts@.take(i as int + 1)) =~= failure_tokens(
            style.on(),
            counts@.take(i as int),
        ).push(red(style.on(), kind_count(counts@[i as int].kind, counts@[i as int].count as nat))));
    }
    assert(counts@.take(counts@.len() as int) =~= counts@);
    out
}

/// The status counts of a probe.
fn render_status_tokens(style: Style, counts: &[StatusCount]) -> (out: Vec<String>)
    ensures
        texts(out@) == status_tokens(style.on(), counts@),
{
    let mut out: Vec<String> = Vec::new();
    assert(texts(out@) =~= status_tokens(style.on(), counts@.take(0)));
    for i in 0..counts.len()
        invariant
            texts(out@) == status_tokens(style.on(), counts@.take(i as int)),
    {
        let mut token = dec_text(counts[i].status as u64);
        token.append("x");
        push_dec(&mut token, counts[i].count as u64);
        push_text(&mut out, paint_class(style, counts[i].status, token.as_str()));
        assert(status_tokens(style.on(), counts@.take(i as int + 1)) =~= status_tokens(
            style.on(),
            counts@.take(i as int),
        ).push(status_token(style.on(), counts@[i as int])));
    }
    assert(counts@.take(counts@.len() as int) =~= counts@);
    out
}

/// Append the distributions of a probe.
fn push_distributions(out: &mut String, style: Style, r: &ProbeResult)
    ensures
        final(out)@ == old(out)@ + distributions(style.on(), *r),
{
    let ghost before = out@;
    if r.failure_counts.len() > 0 {
        let tokens = render_failure_tokens(style, r.failure_counts.as_slice());
        push_line(out, "    failures: ", join_texts(tokens.as_slice(), ", ").as_str());
    }
    if r.status_counts.len() > 0 {
        let tokens = render_status_tokens(style, r.status_counts.as_slice());
        push_line(out, "    status:   ", join_texts(tokens.as_slice(), ", ").as_str());
    }
    assert(out@ =~= before + distributions(style.on(), *r));
}

/// A repeated probe as shown.
fn render_probe_row(style: Style, r: &ProbeResult) -> (out: String)
    requires
        r.success_rate.wf(),
    ensures
        out@ == probe_row(style.on(), *r),
{
    let mut out = String::new();
    let destination = r.destination.to_text();
    push_line(&mut out, "  ", destination.as_str());
    assert(out@ =~= line("  "@, destination@));
    push_line(&mut out, "    attempts: ", dec_text(r.attempts as u64).as_str());
    push_line(&mut out, "    success:  ", render_success(r.successes, &r.success_rate).as_str());
    push_line(&mut out, "    failure:  ", render_count(style, r.failures).as_str());
    out.append(render_probe_latency(&r.latency).as_str());
    out.append(render_probe_ttfb(&r.ttfb).as_str());
    push_distributions(&mut out, style, r);
    proof {
        reveal(probe_row);
    }
    out
}

/// Render repeated probe results as human text.
pub fn render_probe(style: &Style, results: &[ProbeResult]) -> (out: String)
    requires
        valid_probes(results@),
    ensures
        out@ == probe_report(style.on(), results@),
{
    let mut out = "Repeated probes\n".to_owned();
    let ghost head = out@;
    assert(head + Seq::<char>::empty() =~= head);
    for i in 0..results.len()
        invariant
            valid_probes(results@),
            out@ == head + probe_rows(style.on(), results@.take(i as int)),
    {
        let ghost rows = probe_rows(style.on(), results@.take(i as int));
        assert(results@.take(i as int + 1).drop_last() =~= results@.take(i as int));
        let row = render_probe_row(*style, &results[i]);
        out.append(row.as_str());
        assert(out@ =~= head + (rows + row@));
    }
    assert(results@.take(results@.len() as int) =~= results@);
    out
}

} // verus!
