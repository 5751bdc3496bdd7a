//! Human rendering of traceroutes.

use super::layout::{byte_len, larger, left, ms_or_dash, ms_text, pad_left_aligned, pad_right_aligned, right};
use crate::net::IpAddr;
use crate::route::{RouteHop, RouteHopStats, RouteRepeat};
use crate::style::{red, yellow, Style};
use crate::text::{dec, dec_text, glue, glue3, join, join_texts, push_dec, push_text, texts};
use vstd::prelude::*;

verus! {

/// The least width of the host column.
pub const HOST_WIDTH: usize = 40;

/// A host cell: `name (addresses)` when a nonempty name is known, the bare
/// addresses otherwise.
pub open spec fn host_cell(hostname: Option<String>, addresses: Seq<char>) -> Seq<char> {
    match hostname {
        Some(n) => if n@.len() > 0 {
            n@ + " ("@ + addresses + ")"@
        } else {
            addresses
        },
        None => addresses,
    }
}

/// A host cell.
fn render_host_cell(hostname: &Option<String>, addresses: String) -> (out: String)
    ensures
        out@ == host_cell(*hostname, addresses@),
{
    match hostname {
        Some(n) => {
            if n.as_str().unicode_len() > 0 {
                let mut out = glue3(n.as_str(), " (", addresses.as_str());
                out.append(")");
                out
            } else {
                addresses
            }
        },
        None => addresses,
    }
}

// --- one trace ---------------------------------------------------------------------------

/// Whether a hop answered.
pub open spec fn replied(h: RouteHop) -> bool {
    !h.lost && h.addr is Some
}

/// The host cell of a hop that answered.
pub open spec fn hop_cell(h: RouteHop) -> Seq<char> {
    host_cell(
        h.hostname,
        match h.addr {
            Some(a) => a.text(),
            None => Seq::empty(),
        },
    )
}

/// The width of the host column: that of the longest cell.
pub open spec fn hop_width(hops: Seq<RouteHop>) -> nat
    decreases hops.len(),
{
    if hops.len() == 0 {
        HOST_WIDTH as nat
    } else if replied(hops.last()) {
        larger(hop_width(hops.drop_last()), byte_len(hop_cell(hops.last())))
    } else {
        hop_width(hops.drop_last())
    }
}

/// A hop as shown.
pub open spec fn hop_row(color: bool, h: RouteHop, width: nat) -> Seq<char> {
    if replied(h) {
        "  "@ + right(dec(h.ttl as nat), 2) + "  "@ + left(hop_cell(h), width) + " "@ + ms_text(h.rtt_ms) + "\n"@
    } else {
        "  "@ + right(dec(h.ttl as nat), 2) + "  "@ + red(color, "*"@) + "\n"@
    }
}

/// Hops as shown.
pub open spec fn hop_rows(color: bool, hops: Seq<RouteHop>, width: nat) -> Seq<char>
    decreases hops.len(),
{
    if hops.len() == 0 {
        Seq::empty()
    } else {
        hop_rows(color, hops.drop_last(), width) + hop_row(color, hops.last(), width)
    }
}

/// The report on one trace.
pub open spec fn route_report(color: bool, hops: Seq<RouteHop>) -> Seq<char> {
    "Traceroute\n"@ + hop_rows(color, hops, hop_width(hops))
}

/// The host cell of a hop.
pub fn route_host_cell(h: &RouteHop) -> (out: String)
    ensures
        out@ == hop_cell(*h),
{
    let address = match &h.addr {
        Some(a) => a.to_text(),
        None => String::new(),
    };
    assert(h.addr is None ==> address@ =~= Seq::empty());
    render_host_cell(&h.hostname, address)
}

/// The width of the host column.
fn widest_hop(hops: &[RouteHop]) -> (w: usize)
    ensures
        w == hop_width(hops@),
{
    let mut w: usize = HOST_WIDTH;
    for i in 0..hops.len()
        invariant
            w == hop_width(hops@.take(i as int)),
    {
        assert(hops@.take(i as int + 1).drop_last() =~= hops@.take(i as int));
        if !hops[i].lost && hops[i].addr.is_some() {
            let n = route_host_cell(&hops[i]).as_str().as_bytes().len();
            if w < n {
                w = n;
            }
        }
    }
    assert(hops@.take(hops@.len() as int) =~= hops@);
    w
}

/// A hop as shown.
fn render_hop(style: Style, h: &RouteHop, width: usize) -> (out: String)
    ensures
        out@ == hop_row(style.on(), *h, width as nat),
{
    let mut out = glue("  ", pad_right_aligned(dec_text(h.ttl as u64).as_str(), 2).as_str());
    out.append("  ");
    if h.lost || h.addr.is_none() {
        out.append(style.fail("*").as_str());
        out.append("\n");
        return out;
    }
    out.append(pad_left_aligned(route_host_cell(h).as_str(), width).as_str());
    out.append(" ");
    out.append(ms_or_dash(h.rtt_ms).as_str());
    out.append("\n");
    out
}

/// Render traceroute hops as human text. The host column is shared across
/// rows: 40 wide, or as wide as the longest host needs.
pub fn render_route(style: &Style, hops: &[RouteHop]) -> (out: String)
    ensures
        out@ == route_report(style.on(), hops@),
{
    let width = widest_hop(hops);
    let mut out = "Traceroute\n".to_owned();
    let ghost head = out@;
    assert(head + Seq::<char>::empty() =~= head);
    for i in 0..hops.len()
        invariant
            out@ == head + hop_rows(style.on(), hops@.take(i as int), width as nat),
    {
        let ghost rows = hop_rows(style.on(), hops@.take(i as int), width as nat);
        assert(hops@.take(i as int + 1).drop_last() =~= hops@.take(i as int));
        let row = render_hop(*style, &hops[i], width);
        out.append(row.as_str());
        assert(out@ =~= head + (rows + row@));
    }
    assert(hops@.take(hops@.len() as int) =~= hops@);
    out
}

// --- repeated traces ---------------------------------------------------------------------

/// The texts of addresses.
pub open spec fn address_texts(addrs: Seq<IpAddr>) -> Seq<Seq<char>> {
    addrs.map_values(|a: IpAddr| a.text())
}

/// The host cell of a repeated hop, with all its addresses.
pub open spec fn stats_cell(h: RouteHopStats) -> Seq<char> {
    host_cell(h.hostname, join(address_texts(h.addrs@), ", "@))
}

/// The width of the host column.
pub open spec fn stats_width(hops: Seq<RouteHopStats>) -> nat
    decreases hops.len(),
{
    if hops.len() == 0 {
        HOST_WIDTH as nat
    } else if hops.last().answered > 0 {
        larger(stats_width(hops.drop_last()), byte_len(stats_cell(hops.last())))
    } else {
        stats_width(hops.drop_last())
    }
}

/// A latency bound as shown, where it is known.
pub open spec fn bound(label: Seq<char>, ms: Option<u64>) -> Seq<Seq<char>> {
    match ms {
        Some(n) => seq![label + dec(n as nat) + " ms"@],
        None => Seq::empty(),
    }
}

/// What follows the answer count of a hop.
pub open spec fn hop_notes(color: bool, h: RouteHopStats) -> Seq<Seq<char>> {
    bound("min "@, h.rtt.min) + bound("p50 "@, h.rtt.p50) + bound("max "@, h.rtt.max) + if h.path_changed {
        seq![yellow(color, "path changed"@)]
    } else {
        Seq::empty()
    }
}

/// Notes behind a gap, where there are any.
pub open spec fn notes_text(notes: Seq<Seq<char>>) -> Seq<char> {
    if notes.len() > 0 {
        "  "@ + join(notes, "  "@)
    } else {
        Seq::empty()
    }
}

/// A repeated hop as shown.
pub open spec fn stats_row(color: bool, h: RouteHopStats, runs: nat, width: nat) -> Seq<char> {
    if h.answered == 0 {
        "  "@ + right(dec(h.ttl as nat), 2) + "  "@ + red(color, "*"@) + "  0/"@ + red(color, dec(runs) + " (lost)"@)
            + "\n"@
    } else {
        "  "@ + right(dec(h.ttl as nat), 2) + "  "@ + left(stats_cell(h), width) + " "@ + dec(h.answered as nat) + "/"@
            + dec(runs) + " answered"@ + notes_text(hop_notes(color, h)) + "\n"@
    }
}

/// Repeated hops as shown.
pub open spec fn stats_rows(color: bool, hops: Seq<RouteHopStats>, runs: nat, width: nat) -> Seq<char>
    decreases hops.len(),
{
    if hops.len() == 0 {
        Seq::empty()
    } else {
        stats_rows(color, hops.drop_last(), runs, width) + stats_row(color, hops.last(), runs, width)
    }
}

/// The report on repeated traces.
pub open spec fn route_repeat_report(color: bool, r: RouteRepeat) -> Seq<char> {
    "Traceroute ("@ + dec(r.runs as nat) + " runs)\n"@ + stats_rows(
        color,
        r.hops@,
        r.runs as nat,
        stats_width(r.hops@),
    )
}

/// Addresses in one line.
pub fn render_addresses(addrs: &[IpAddr], sep: &str) -> (out: String)
    ensures
        out@ == join(address_texts(addrs@), sep@),
{
    let mut parts: Vec<String> = Vec::new();
    assert(texts(parts@) =~= address_texts(addrs@.take(0)));
    for i in 0..addrs.len()
        invariant
            texts(parts@) == address_texts(addrs@.take(i as int)),
    {
        push_text(&mut parts, addrs[i].to_text());
        assert(address_texts(addrs@.take(i as int + 1)) =~= address_texts(addrs@.take(i as int)).push(
            addrs@[i as int].text(),
        ));
    }
    assert(addrs@.take(addrs@.len() as int) =~= addrs@);
    join_texts(parts.as_slice(), sep)
}

/// The host cell of a repeated hop.
pub fn route_repeat_host_cell(h: &RouteHopStats) -> (out: String)
    ensures
        out@ == stats_cell(*h),
{
    render_host_cell(&h.hostname, render_addresses(h.addrs.as_slice(), ", "))
}

/// The width of the host column.
fn widest_stats(hops: &[RouteHopStats]) -> (w: usize)
    ensures
        w == stats_width(hops@),
{
    let mut w: usize = HOST_WIDTH;
    for i in 0..hops.len()
        invariant
            w == stats_width(hops@.take(i as int)),
    {
        assert(hops@.take(i as int + 1).drop_last() =~= hops@.take(i as int));
        if hops[i].answered > 0 {
            let n = route_repeat_host_cell(&hops[i]).as_str().as_bytes().len();
            if w < n {
                w = n;
            }
        }
    }
    assert(hops@.take(hops@.len() as int) =~= hops@);
    w
}

/// Append a latency bound.
fn push_bound(notes: &mut Vec<String>, label: &str, ms: Option<u64>)
    ensures
        texts(final(notes)@) == texts(old(notes)@) + bound(label@, ms),
{
    let ghost before = texts(notes@);
    match ms {
        Some(n) => {
            let mut text = label.to_owned();
            push_dec(&mut text, n);
            text.append(" ms");
            push_text(notes, text);
        },
        None => {},
    }
    assert(texts(notes@) =~= before + bound(label@, ms));
}

/// What follows the answer count of a hop.
fn render_notes(style: Style, h: &RouteHopStats) -> (out: String)
    ensures
        out@ == notes_text(hop_notes(style.on(), *h)),
{
    let mut notes: Vec<String> = Vec::new();
    assert(texts(notes@) =~= Seq::empty());
    push_bound(&mut notes, "min ", h.rtt.min);
    assert(texts(notes@) =~= bound("min "@, h.rtt.min));
    push_bound(&mut notes, "p50 ", h.rtt.p50);
    push_bound(&mut notes, "max ", h.rtt.max);
    if h.path_changed {
        push_text(&mut notes, style.warn("path changed"));
    }
    assert(texts(notes@) =~= hop_notes(style.on(), *h));
    assert(texts(notes@).len() == notes@.len());
    if notes.len() > 0 {
        glue("  ", join_texts(notes.as_slice(), "  ").as_str())
    } else {
        String::new()
    }
}

/// A repeated hop as shown.
fn render_stats(style: Style, h: &RouteHopStats, runs: usize, width: usize) -> (out: String)
    ensures
        out@ == stats_row(style.on(), *h, runs as nat, width as nat),
{
    let mut out = glue("  ", pad_right_aligned(dec_text(h.ttl as u64).as_str(), 2).as_str());
    out.append("  ");
    if h.answered == 0 {
        out.append(style.fail("*").as_str());
        out.append("  0/");
        let mut lost = dec_text(runs as u64);
        lost.append(" (lost)");
        out.append(style.fail(lost.as_str()).as_str());
        out.append("\n");
        return out;
    }
    out.append(pad_left_aligned(route_repeat_host_cell(h).as_str(), width).as_str());
    out.append(" ");
    push_dec(&mut out, h.answered as u64);
    out.append("/");
    push_dec(&mut out, runs as u64);
    out.append(" answered");
    out.append(render_notes(style, h).as_str());
    out.append("\n");
    out
}

/// Render a repeated-traceroute aggregation as human text.
///
/// Each hop shows how many runs it answered in, a min/p50/max latency bound,
/// and a `path changed` marker when its router changed between runs.
pub fn render_route_repeat(style: &Style, repeat: &RouteRepeat) -> (out: String)
    ensures
        out@ == route_repeat_report(style.on(), *repeat),
{
    let hops = repeat.hops.as_slice();
    let width = widest_stats(hops);
    let mut out = "Traceroute (".to_owned();
    push_dec(&mut out, repeat.runs as u64);
    out.append(" runs)\n");
    let ghost head = out@;
    assert(head + Seq::<char>::empty() =~= head);
    for i in 0..hops.len()
        invariant
            out@ == head + stats_rows(style.on(), hops@.take(i as int), repeat.runs as nat, width as nat),
    {
        let ghost rows = stats_rows(style.on(), hops@.take(i as int), repeat.runs as nat, width as nat);
        assert(hops@.take(i as int + 1).drop_last() =~= hops@.take(i as int));
        let row = render_stats(*style, &hops[i], repeat.runs, width);
        out.append(row.as_str());
        assert(out@ =~= head + (rows + row@));
    }
    assert(hops@.take(hops@.len() as int) =~= hops@);
    out
}

} // verus!
