//! Human rendering of DNS observations.

use super::layout::{failure_text, left, line, pad_left_aligned, push_line, render_failure};
use crate::model::dns::{record_text, resolver_text, same_resolver, ResolverModel};
use crate::model::{DnsObservation, DnsRecord, DnsRecordType, FailureKind, ResolverKind};
use crate::style::{red, Style};
use crate::text::{
    dec, dec_text, first_seen, glue, has_prefix, has_text, join, join_texts, push_dec, push_text, same_text, texts,
};
use vstd::prelude::*;

verus! {

/// The order in which record types are rendered.
pub open spec fn canonical_types() -> Seq<DnsRecordType> {
    seq![
        DnsRecordType::A,
        DnsRecordType::Aaaa,
        DnsRecordType::Cname,
        DnsRecordType::Mx,
        DnsRecordType::Txt,
        DnsRecordType::Ns,
        DnsRecordType::Soa,
        DnsRecordType::Caa,
        DnsRecordType::Srv,
        DnsRecordType::Ptr,
    ]
}

/// The order in which record types are rendered.
pub fn all_record_types() -> (out: Vec<DnsRecordType>)
    ensures
        out@ == canonical_types(),
{
    let out = vec![
        DnsRecordType::A,
        DnsRecordType::Aaaa,
        DnsRecordType::Cname,
        DnsRecordType::Mx,
        DnsRecordType::Txt,
        DnsRecordType::Ns,
        DnsRecordType::Soa,
        DnsRecordType::Caa,
        DnsRecordType::Srv,
        DnsRecordType::Ptr,
    ];
    assert(out@ =~= canonical_types());
    out
}

/// The records of an observation as shown.
pub open spec fn record_texts(records: Seq<DnsRecord>) -> Seq<Seq<char>> {
    records.map_values(|r: DnsRecord| record_text(r.deep_view()))
}

/// The time-to-live of an answer as shown.
pub open spec fn ttl_text(ttl: Option<u32>) -> Seq<char> {
    match ttl {
        Some(t) => ", ttl "@ + dec(t as nat) + "s"@,
        None => Seq::empty(),
    }
}

/// The answer of an observation as shown. The `Dns` kind would only repeat the
/// context of its row, so it is left out.
pub open spec fn answer_text(color: bool, o: DnsObservation) -> Seq<char> {
    match (o.error, o.latency_ms) {
        (Some(err), _) => red(
            color,
            if err.kind == FailureKind::Dns {
                err.message@
            } else {
                failure_text(err)
            },
        ),
        (None, Some(ms)) => if o.records@.len() == 0 {
            "no records ("@ + dec(ms as nat) + " ms)"@
        } else {
            join(record_texts(o.records@), ", "@) + ttl_text(o.ttl) + " ("@ + dec(ms as nat) + " ms)"@
        },
        (None, None) => "no records"@,
    }
}

/// The queried name as shown, where it is not that of the section.
pub open spec fn name_label(host: Seq<char>, o: DnsObservation) -> Seq<char> {
    if o.hostname@ != host && o.hostname@.len() > 0 {
        o.hostname@ + " :: "@
    } else {
        Seq::empty()
    }
}

/// An observation as shown.
pub open spec fn dns_row(color: bool, host: Seq<char>, o: DnsObservation) -> Seq<char> {
    line("    "@ + left(o.record_type.text(), 4) + ": "@ + name_label(host, o), answer_text(color, o))
}

/// The observations of one record type by one resolver as shown.
pub open spec fn type_rows(
    color: bool,
    host: Seq<char>,
    s: Seq<DnsObservation>,
    r: ResolverModel,
    t: DnsRecordType,
) -> Seq<char>
    decreases s.len(),
{
    if s.len() == 0 {
        Seq::empty()
    } else {
        let front = type_rows(color, host, s.drop_last(), r, t);
        if s.last().resolver.deep_view() == r && s.last().record_type == t {
            front + dns_row(color, host, s.last())
        } else {
            front
        }
    }
}

/// The observations of some record types by one resolver as shown.
pub open spec fn resolver_rows(
    color: bool,
    host: Seq<char>,
    s: Seq<DnsObservation>,
    r: ResolverModel,
    types: Seq<DnsRecordType>,
) -> Seq<char>
    decreases types.len(),
{
    if types.len() == 0 {
        Seq::empty()
    } else {
        resolver_rows(color, host, s, r, types.drop_last()) + type_rows(color, host, s, r, types.last())
    }
}

/// The observations of some resolvers as shown.
pub open spec fn sections(
    color: bool,
    host: Seq<char>,
    s: Seq<DnsObservation>,
    resolvers: Seq<ResolverModel>,
) -> Seq<char>
    decreases resolvers.len(),
{
    if resolvers.len() == 0 {
        Seq::empty()
    } else {
        sections(color, host, s, resolvers.drop_last()) + (line("  "@, resolver_text(resolvers.last()))
            + resolver_rows(color, host, s, resolvers.last(), canonical_types()))
    }
}

/// The resolvers of observations.
pub open spec fn resolvers_of(s: Seq<DnsObservation>) -> Seq<ResolverModel> {
    s.map_values(|o: DnsObservation| o.resolver.deep_view())
}

/// The DNS report: by resolver in the order in which they first occur, then by
/// record type.
pub open spec fn dns_report(color: bool, host: Seq<char>, s: Seq<DnsObservation>) -> Seq<char> {
    line("DNS "@, host) + sections(color, host, s, first_seen(resolvers_of(s)))
}

/// The records of an observation, in one line.
pub fn render_records(records: &[DnsRecord], sep: &str) -> (out: String)
    ensures
        out@ == join(record_texts(records@), sep@),
{
    let mut parts: Vec<String> = Vec::new();
    assert(texts(parts@) =~= record_texts(records@.take(0)));
    for i in 0..records.len()
        invariant
            texts(parts@) == record_texts(records@.take(i as int)),
    {
        push_text(&mut parts, records[i].to_text());
        assert(record_texts(records@.take(i as int + 1)) =~= record_texts(records@.take(i as int)).push(
            record_text(records@[i as int].deep_view()),
        ));
    }
    assert(records@.take(records@.len() as int) =~= records@);
    join_texts(parts.as_slice(), sep)
}

/// The answer of an observation. A failed lookup is red.
fn render_dns_one(style: Style, o: &DnsObservation) -> (out: String)
    ensures
        out@ == answer_text(style.on(), *o),
{
    match (&o.error, o.latency_ms) {
        (Some(err), _) => {
            let detail = if err.kind == FailureKind::Dns {
                err.message.clone()
            } else {
                render_failure(err)
            };
            style.fail(detail.as_str())
        },
        (None, Some(ms)) => {
            if o.records.len() == 0 {
                let mut out = glue("no records (", dec_text(ms).as_str());
                out.append(" ms)");
                out
            } else {
                let mut out = render_records(o.records.as_slice(), ", ");
                let ttl = match o.ttl {
                    Some(t) => {
                        let mut ttl = ", ttl ".to_owned();
                        push_dec(&mut ttl, t as u64);
                        ttl.append("s");
                        ttl
                    },
                    None => String::new(),
                };
                assert(ttl@ =~= ttl_text(o.ttl));
                out.append(ttl.as_str());
                out.append(" (");
                push_dec(&mut out, ms);
                out.append(" ms)");
                out
            }
        },
        (None, None) => "no records".to_owned(),
    }
}

/// An observation as shown.
fn render_dns_row(style: Style, host: &str, o: &DnsObservation) -> (out: String)
    ensures
        out@ == dns_row(style.on(), host@, *o),
{
    let label = if !same_text(o.hostname.as_str(), host) && o.hostname.as_str().unicode_len() > 0 {
        glue(o.hostname.as_str(), " :: ")
    } else {
        String::new()
    };
    assert(label@ =~= name_label(host@, *o));
    let mut out = glue("    ", pad_left_aligned(o.record_type.to_text(), 4).as_str());
    out.append(": ");
    out.append(label.as_str());
    out.append(render_dns_one(style, o).as_str());
    out.append("\n");
    out
}

/// Append the observations of one record type by one resolver.
fn push_type_rows(
    out: &mut String,
    style: Style,
    host: &str,
    s: &[DnsObservation],
    r: &ResolverKind,
    t: DnsRecordType,
)
    ensures
        final(out)@ == old(out)@ + type_rows(style.on(), host@, s@, r.deep_view(), t),
{
    let ghost before = out@;
    assert(before + Seq::<char>::empty() =~= before);
    for i in 0..s.len()
        invariant
            out@ == before + type_rows(style.on(), host@, s@.take(i as int), r.deep_view(), t),
    {
        let ghost front = type_rows(style.on(), host@, s@.take(i as int), r.deep_view(), t);
        assert(s@.take(i as int + 1).drop_last() =~= s@.take(i as int));
        if same_resolver(&s[i].resolver, r) && s[i].record_type == t {
            let row = render_dns_row(style, host, &s[i]);
            out.append(row.as_str());
            assert(out@ =~= before + (front + row@));
        }
    }
    assert(s@.take(s@.len() as int) =~= s@);
}

/// Append the observations of one resolver.
fn push_section(out: &mut String, style: Style, host: &str, s: &[DnsObservation], r: &ResolverKind)
    ensures
        final(out)@ == old(out)@ + (line("  "@, resolver_text(r.deep_view())) + resolver_rows(
            style.on(),
            host@,
            s@,
            r.deep_view(),
            canonical_types(),
        )),
{
    let ghost before = out@;
    let mut section = String::new();
    let label = r.label();
    push_line(&mut section, "  ", label.as_str());
    let ghost head = line("  "@, label@);
    assert(section@ =~= head);
    assert(head + Seq::<char>::empty() =~= head);
    let types = all_record_types();
    for i in 0..types.len()
        invariant
            section@ == head + resolver_rows(style.on(), host@, s@, r.deep_view(), types@.take(i as int)),
    {
        let ghost front = resolver_rows(style.on(), host@, s@, r.deep_view(), types@.take(i as int));
        assert(types@.take(i as int + 1).drop_last() =~= types@.take(i as int));
        push_type_rows(&mut section, style, host, s, r, types[i]);
        assert(section@ =~= head + (front + type_rows(style.on(), host@, s@, r.deep_view(), types@[i as int])));
    }
    assert(types@.take(types@.len() as int) =~= types@);
    out.append(section.as_str());
}

/// The resolvers of observations, each once, in the order in which they first
/// occur.
pub fn distinct_resolvers(s: &[DnsObservation]) -> (out: Vec<ResolverKind>)
    ensures
        out.deep_view() == first_seen(resolvers_of(s@)),
{
    let mut out: Vec<ResolverKind> = Vec::new();
    assert(resolvers_of(s@.take(0)) =~= Seq::empty());
    assert(out.deep_view() =~= Seq::empty());
    for i in 0..s.len()
        invariant
            out.deep_view() == first_seen(resolvers_of(s@.take(i as int))),
    {
        let ghost all = resolvers_of(s@.take(i as int + 1));
        assert(all.drop_last() =~= resolvers_of(s@.take(i as int)));
        assert(all.last() == s@[i as int].resolver.deep_view());
        let mut known = false;
        for j in 0..out.len()
            invariant
                known == exists|k: int|
                    0 <= k < j && (#[trigger] out@[k]).deep_view() == s@[i as int].resolver.deep_view(),
                i < s@.len(),
        {
            if same_resolver(&out[j], &s[i].resolver) {
                assert(out@[j as int].deep_view() == s@[i as int].resolver.deep_view());
                known = true;
            }
        }
        let ghost seen = out.deep_view();
        if known {
            proof {
                let k = choose|k: int|
                    0 <= k < out@.len() && (#[trigger] out@[k]).deep_view() == s@[i as int].resolver.deep_view();
                assert(seen[k] == all.last());
                assert(seen.contains(all.last()));
            }
        } else {
            assert(!seen.contains(all.last())) by {
                if seen.contains(all.last()) {
                    let k = choose|k: int| 0 <= k < seen.len() && seen[k] == all.last();
                    assert(out@[k].deep_view() == s@[i as int].resolver.deep_view());
                }
            }
            out.push(s[i].resolver.clone());
            assert(out.deep_view() =~= seen.push(all.last()));
        }
    }
    assert(s@.take(s@.len() as int) =~= s@);
    out
}

/// Render DNS observations for `host` as human text: grouped by resolver, then
/// listed by record type. Every observation is rendered, not just the first of
/// its resolver and type.
pub fn render_dns(style: &Style, host: &str, observations: &[DnsObservation]) -> (out: String)
    ensures
        out@ == dns_report(style.on(), host@, observations@),
{
    let mut out = String::new();
    push_line(&mut out, "DNS ", host);
    let ghost head = line("DNS "@, host@);
    assert(out@ =~= head);
    assert(head + Seq::<char>::empty() =~= head);
    let resolvers = distinct_resolvers(observations);
    let ghost models = resolvers.deep_view();
    for i in 0..resolvers.len()
        invariant
            models == resolvers.deep_view(),
            out@ == head + sections(style.on(), host@, observations@, models.take(i as int)),
    {
        let ghost front = sections(style.on(), host@, observations@, models.take(i as int));
        assert(models.take(i as int + 1).drop_last() =~= models.take(i as int));
        assert(models[i as int] == resolvers@[i as int].deep_view());
        push_section(&mut out, *style, host, observations, &resolvers[i]);
        assert(out@ =~= head + (front + (line("  "@, resolver_text(models[i as int])) + resolver_rows(
            style.on(),
            host@,
            observations@,
            models[i as int],
            canonical_types(),
        ))));
    }
    assert(models.take(models.len() as int) =~= models);
    out
}

// --- laws --------------------------------------------------------------------------------

/// A text that occurs in a part occurs in the whole.
pub proof fn lemma_has_text_in(before: Seq<char>, middle: Seq<char>, after: Seq<char>, p: Seq<char>)
    requires
        has_text(middle, p),
    ensures
        has_text(before + middle + after, p),
{
    let i = choose|i: int| 0 <= i <= middle.len() && has_prefix(#[trigger] middle.skip(i), p);
    let whole = before + middle + after;
    let k = before.len() + i;
    assert(whole.skip(k).take(p.len() as int) =~= middle.skip(i).take(p.len() as int));
    assert(has_prefix(whole.skip(k), p));
}

/// The row of an observation occurs among the rows of its type and resolver.
proof fn lemma_row_in_type(color: bool, host: Seq<char>, s: Seq<DnsObservation>, i: int)
    requires
        0 <= i < s.len(),
    ensures
        has_text(
            type_rows(color, host, s, s[i].resolver.deep_view(), s[i].record_type),
            dns_row(color, host, s[i]),
        ),
    decreases s.len(),
{
    let r = s[i].resolver.deep_view();
    let t = s[i].record_type;
    let row = dns_row(color, host, s[i]);
    let front = type_rows(color, host, s.drop_last(), r, t);
    if i == s.len() - 1 {
        assert(row.skip(0) =~= row);
        assert(row.take(row.len() as int) =~= row);
        assert(has_prefix(row.skip(0), row));
        lemma_has_text_in(front, row, Seq::empty(), row);
        assert(front + row + Seq::<char>::empty() =~= front + row);
    } else {
        lemma_row_in_type(color, host, s.drop_last(), i);
        let last = s.last();
        if last.resolver.deep_view() == r && last.record_type == t {
            lemma_has_text_in(Seq::empty(), front, dns_row(color, host, last), row);
            assert(Seq::<char>::empty() + front + dns_row(color, host, last) =~= front + dns_row(color, host, last));
        }
    }
}

/// What occurs among the rows of a type occurs among those of its resolver.
proof fn lemma_type_in_resolver(
    color: bool,
    host: Seq<char>,
    s: Seq<DnsObservation>,
    r: ResolverModel,
    types: Seq<DnsRecordType>,
    j: int,
    p: Seq<char>,
)
    requires
        0 <= j < types.len(),
        has_text(type_rows(color, host, s, r, types[j]), p),
    ensures
        has_text(resolver_rows(color, host, s, r, types), p),
    decreases types.len(),
{
    let front = resolver_rows(color, host, s, r, types.drop_last());
    let rows = type_rows(color, host, s, r, types.last());
    if j == types.len() - 1 {
        lemma_has_text_in(front, rows, Seq::empty(), p);
        assert(front + rows + Seq::<char>::empty() =~= front + rows);
    } else {
        lemma_type_in_resolver(color, host, s, r, types.drop_last(), j, p);
        lemma_has_text_in(Seq::empty(), front, rows, p);
        assert(Seq::<char>::empty() + front + rows =~= front + rows);
    }
}

/// What occurs among the rows of a resolver occurs in the sections.
proof fn lemma_resolver_in_sections(
    color: bool,
    host: Seq<char>,
    s: Seq<DnsObservation>,
    resolvers: Seq<ResolverModel>,
    j: int,
    p: Seq<char>,
)
    requires
        0 <= j < resolvers.len(),
        has_text(resolver_rows(color, host, s, resolvers[j], canonical_types()), p),
    ensures
        has_text(sections(color, host, s, resolvers), p),
    decreases resolvers.len(),
{
    let front = sections(color, host, s, resolvers.drop_last());
    let head = line("  "@, resolver_text(resolvers.last()));
    let rows = resolver_rows(color, host, s, resolvers.last(), canonical_types());
    if j == resolvers.len() - 1 {
        lemma_has_text_in(front + head, rows, Seq::empty(), p);
        assert(front + head + rows + Seq::<char>::empty() =~= front + (head + rows));
    } else {
        lemma_resolver_in_sections(color, host, s, resolvers.drop_last(), j, p);
        lemma_has_text_in(Seq::empty(), front, head + rows, p);
        assert(Seq::<char>::empty() + front + (head + rows) =~= front + (head + rows));
    }
}

/// Every element occurs among the first-seen ones.
pub proof fn lemma_first_seen_keeps<A>(s: Seq<A>, i: int)
    requires
        0 <= i < s.len(),
    ensures
        first_seen(s).contains(s[i]),
    decreases s.len(),
{
    let front = first_seen(s.drop_last());
    if i == s.len() - 1 {
        if !front.contains(s.last()) {
            assert(front.push(s.last())[front.len() as int] == s.last());
        }
    } else {
        lemma_first_seen_keeps(s.drop_last(), i);
        let k = choose|k: int| 0 <= k < front.len() && front[k] == s[i];
        if !front.contains(s.last()) {
            assert(front.push(s.last())[k] == s[i]);
        }
    }
}

/// Every observation is rendered, not just the first of its resolver and
/// record type.
pub proof fn lemma_every_observation_is_rendered(color: bool, host: Seq<char>, s: Seq<DnsObservation>, i: int)
    requires
        0 <= i < s.len(),
    ensures
        has_text(dns_report(color, host, s), dns_row(color, host, s[i])),
{
    let r = s[i].resolver.deep_view();
    let t = s[i].record_type;
    let row = dns_row(color, host, s[i]);
    lemma_row_in_type(color, host, s, i);
    let types = canonical_types();
    let j: int = match t {
        DnsRecordType::A => 0,
        DnsRecordType::Aaaa => 1,
        DnsRecordType::Cname => 2,
        DnsRecordType::Mx => 3,
        DnsRecordType::Txt => 4,
        DnsRecordType::Ns => 5,
        DnsRecordType::Soa => 6,
        DnsRecordType::Caa => 7,
        DnsRecordType::Srv => 8,
        DnsRecordType::Ptr => 9,
    };
    assert(types[j] == t);
    lemma_type_in_resolver(color, host, s, r, types, j, row);
    let all = resolvers_of(s);
    lemma_first_seen_keeps(all, i);
    let seen = first_seen(all);
    let k = choose|k: int| 0 <= k < seen.len() && seen[k] == all[i];
    lemma_resolver_in_sections(color, host, s, seen, k, row);
    let head = line("DNS "@, host);
    let body = sections(color, host, s, seen);
    lemma_has_text_in(head, body, Seq::empty(), row);
    assert(head + body + Seq::<char>::empty() =~= head + body);
}

} // verus!
