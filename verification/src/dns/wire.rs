//! The DNS wire format (RFC 1035): building queries and decoding responses,
//! with name compression.

use crate::model::dns::DnsRecordModel;
use crate::model::{DnsRecord, DnsRecordType};
use crate::net::{Ipv4Addr, Ipv6Addr};
use crate::text::{
    chars_of, debug_text, dec, group_occurrence, has_text, join, join_texts, lemma_join_split, lossy, lossy_text,
    push_dec, push_signed, quoted, rows, signed, slice_of, split, split_chars, string_of, texts,
};
use vstd::prelude::*;
use vstd::utf8::{encode_utf8, encode_utf8_decode_utf8, encode_utf8_valid_utf8};

verus! {

/// The type code of a record type on the wire.
pub open spec fn wire_code(t: DnsRecordType) -> u16 {
    match t {
        DnsRecordType::A => 1,
        DnsRecordType::Aaaa => 28,
        DnsRecordType::Cname => 5,
        DnsRecordType::Mx => 15,
        DnsRecordType::Txt => 16,
        DnsRecordType::Ns => 2,
        DnsRecordType::Soa => 6,
        DnsRecordType::Caa => 257,
        DnsRecordType::Srv => 33,
        DnsRecordType::Ptr => 12,
    }
}

/// The type code of a record type on the wire.
pub fn type_code(t: DnsRecordType) -> (code: u16)
    ensures
        code == wire_code(t),
{
    match t {
        DnsRecordType::A => 1,
        DnsRecordType::Aaaa => 28,
        DnsRecordType::Cname => 5,
        DnsRecordType::Mx => 15,
        DnsRecordType::Txt => 16,
        DnsRecordType::Ns => 2,
        DnsRecordType::Soa => 6,
        DnsRecordType::Caa => 257,
        DnsRecordType::Srv => 33,
        DnsRecordType::Ptr => 12,
    }
}

/// The big-endian 16-bit number at `i`.
pub open spec fn be16(m: Seq<u8>, i: int) -> int {
    m[i] * 256 + m[i + 1]
}

/// The big-endian 32-bit number at `i`.
pub open spec fn be32(m: Seq<u8>, i: int) -> int {
    be16(m, i) * 65536 + be16(m, i + 2)
}

/// Read the big-endian 16-bit number at `i`.
pub fn read16(m: &[u8], i: usize) -> (r: u16)
    requires
        i + 1 < m.len(),
    ensures
        r == be16(m@, i as int),
{
    m[i] as u16 * 256 + m[i + 1] as u16
}

/// Read the big-endian 32-bit number at `i`.
fn read32(m: &[u8], i: usize) -> (r: u32)
    requires
        i + 3 < m.len(),
    ensures
        r == be32(m@, i as int),
{
    read16(m, i) as u32 * 65536 + read16(m, i + 2) as u32
}

// --- names ------------------------------------------------------------------------

/// A decoded name: its labels, and the position just past the name (past the
/// pointer, not past what it points to).
#[verifier::ext_equal]
pub struct NameWalk {
    pub labels: Seq<Seq<char>>,
    pub end: int,
}

/// Whether a length byte starts a compression pointer.
pub open spec fn is_pointer(b: u8) -> bool {
    b >= 0xC0
}

/// The position a compression pointer at `pos` refers to.
pub open spec fn pointer_target(m: Seq<u8>, pos: int) -> int {
    (m[pos] - 0xC0) * 256 + m[pos + 1]
}

/// The name at `pos`: labels up to the root label, or up to a pointer that
/// continues elsewhere. `hops` pointers were followed to get here; at most
/// eight may be.
pub open spec fn walk(m: Seq<u8>, pos: int, hops: int) -> Result<NameWalk, Seq<char>>
    decreases 9 - hops, m.len() - pos,
{
    if hops > 8 {
        Err("too many compression-pointer hops"@)
    } else if pos < 0 || pos >= m.len() {
        Err("name overruns message at "@ + dec(pos as nat))
    } else if m[pos] == 0 {
        Ok(NameWalk { labels: Seq::empty(), end: pos + 1 })
    } else if is_pointer(m[pos]) {
        if pos + 1 >= m.len() {
            Err("truncated pointer"@)
        } else if pointer_target(m, pos) >= m.len() {
            Err("compression pointer out of range"@)
        } else {
            match walk(m, pointer_target(m, pos), hops + 1) {
                Ok(rest) => Ok(NameWalk { labels: rest.labels, end: pos + 2 }),
                Err(e) => Err(e),
            }
        }
    } else if m[pos] > 63 {
        Err("bad label length"@)
    } else if pos + 1 + m[pos] > m.len() {
        Err("name overruns message"@)
    } else {
        match walk(m, pos + 1 + m[pos], hops) {
            Ok(rest) => Ok(
                NameWalk {
                    labels: seq![lossy_text(m.subrange(pos + 1, pos + 1 + m[pos]))] + rest.labels,
                    end: rest.end,
                },
            ),
            Err(e) => Err(e),
        }
    }
}

/// The dotted form of a name; the root is a single dot.
pub open spec fn dotted(labels: Seq<Seq<char>>) -> Seq<char> {
    if labels.len() == 0 {
        "."@
    } else {
        join(labels, "."@)
    }
}

/// The result of a walk with `labels` already behind it and, once a pointer
/// was followed, the end already known.
pub open spec fn resumed(
    labels: Seq<Seq<char>>,
    end: Option<int>,
    rest: Result<NameWalk, Seq<char>>,
) -> Result<NameWalk, Seq<char>> {
    match rest {
        Ok(w) => Ok(
            NameWalk {
                labels: labels + w.labels,
                end: match end {
                    Some(e) => e,
                    None => w.end,
                },
            },
        ),
        Err(e) => Err(e),
    }
}

/// The position just past the name at `pos`, if the name is well formed.
pub open spec fn skip_walk(m: Seq<u8>, pos: int) -> Result<int, Seq<char>>
    decreases m.len() - pos,
{
    if pos < 0 || pos >= m.len() {
        Err("name overruns message at "@ + dec(pos as nat))
    } else if m[pos] == 0 {
        Ok(pos + 1)
    } else if is_pointer(m[pos]) {
        if pos + 1 >= m.len() {
            Err("truncated pointer"@)
        } else if pointer_target(m, pos) >= m.len() {
            Err("compression pointer out of range"@)
        } else {
            match valid_walk(m, pointer_target(m, pos), 0) {
                Ok(_) => Ok(pos + 2),
                Err(e) => Err(e),
            }
        }
    } else if m[pos] > 63 {
        Err("bad label length"@)
    } else if pos + 1 + m[pos] > m.len() {
        Err("name overruns message"@)
    } else {
        skip_walk(m, pos + 1 + m[pos])
    }
}

/// Whether the label chain at `pos` is well formed, at pointer depth `depth`.
pub open spec fn valid_walk(m: Seq<u8>, pos: int, depth: int) -> Result<(), Seq<char>>
    decreases 9 - depth, m.len() - pos,
{
    if depth > 8 {
        Err("too many compression-pointer hops"@)
    } else if pos < 0 || pos >= m.len() {
        Err("name overruns message at "@ + dec(pos as nat))
    } else if m[pos] == 0 {
        Ok(())
    } else if is_pointer(m[pos]) {
        if pos + 1 >= m.len() {
            Err("truncated pointer"@)
        } else if pointer_target(m, pos) >= m.len() {
            Err("compression pointer out of range"@)
        } else {
            valid_walk(m, pointer_target(m, pos), depth + 1)
        }
    } else if m[pos] > 63 {
        Err("bad label length"@)
    } else if pos + 1 + m[pos] > m.len() {
        Err("name overruns message"@)
    } else {
        valid_walk(m, pos + 1 + m[pos], depth)
    }
}

/// A chain that decodes after `hops` pointers is well formed at one depth less.
proof fn lemma_walk_is_valid(m: Seq<u8>, pos: int, hops: int)
    requires
        walk(m, pos, hops) is Ok,
        hops >= 1,
    ensures
        valid_walk(m, pos, hops - 1) is Ok,
    decreases 9 - hops, m.len() - pos,
{
    if m[pos] == 0 {
    } else if is_pointer(m[pos]) {
        lemma_walk_is_valid(m, pointer_target(m, pos), hops + 1);
    } else {
        lemma_walk_is_valid(m, pos + 1 + m[pos], hops);
    }
}

/// Reading and skipping agree: a name that can be read can be skipped, and
/// both end at the same position.
pub proof fn lemma_skip_agrees_with_read(m: Seq<u8>, pos: int)
    requires
        walk(m, pos, 0) is Ok,
    ensures
        skip_walk(m, pos) == Ok::<int, Seq<char>>(walk(m, pos, 0)->Ok_0.end),
    decreases m.len() - pos,
{
    if m[pos] == 0 {
    } else if is_pointer(m[pos]) {
        lemma_walk_is_valid(m, pointer_target(m, pos), 1);
    } else {
        lemma_skip_agrees_with_read(m, pos + 1 + m[pos]);
    }
}

/// A name that decodes ends within the message.
pub proof fn lemma_walk_end(m: Seq<u8>, pos: int, hops: int)
    requires
        walk(m, pos, hops) is Ok,
        pos >= 0,
    ensures
        pos < walk(m, pos, hops)->Ok_0.end <= m.len(),
    decreases 9 - hops, m.len() - pos,
{
    if m[pos] == 0 || is_pointer(m[pos]) {
    } else {
        lemma_walk_end(m, pos + 1 + m[pos], hops);
    }
}

/// A skipped name ends within the message.
pub proof fn lemma_skip_end(m: Seq<u8>, pos: int)
    requires
        skip_walk(m, pos) is Ok,
        pos >= 0,
    ensures
        pos < skip_walk(m, pos)->Ok_0 <= m.len(),
    decreases m.len() - pos,
{
    if m[pos] == 0 || is_pointer(m[pos]) {
    } else {
        lemma_skip_end(m, pos + 1 + m[pos]);
    }
}

/// The message `name overruns message at {pos}`.
fn overrun(pos: usize) -> (out: String)
    ensures
        out@ == "name overruns message at "@ + dec(pos as nat),
{
    let mut out = "name overruns message at ".to_owned();
    push_dec(&mut out, pos as u64);
    out
}

/// Decode a domain name at `start`: plain labels with an optional trailing
/// compression pointer. Returns the dotted name and the position just past the
/// name.
pub fn read_name(bytes: &[u8], start: usize) -> (r: Result<(String, usize), String>)
    ensures
        r matches Ok((name, end)) ==> walk(bytes@, start as int, 0) matches Ok(w) && name@ == dotted(w.labels) && end
            == w.end,
        r matches Err(e) ==> walk(bytes@, start as int, 0) == Err::<NameWalk, Seq<char>>(e@),
{
    let mut labels: Vec<String> = Vec::new();
    let mut pos: usize = start;
    let mut end: Option<usize> = None;
    let mut hops: usize = 0;
    let ghost whole = walk(bytes@, start as int, 0);
    let ghost known: Option<int> = None;
    assert(resumed(texts(labels@), known, whole) =~= whole);
    loop
        invariant
            hops <= 9,
            whole == walk(bytes@, start as int, 0),
            whole == resumed(texts(labels@), known, walk(bytes@, pos as int, hops as int)),
            end is Some <==> known is Some,
            end matches Some(e) ==> known == Some(e as int),
        decreases 9 - hops, bytes.len() - pos,
    {
        if hops > 8 {
            return Err("too many compression-pointer hops".to_owned());
        }
        if pos >= bytes.len() {
            return Err(overrun(pos));
        }
        let b: u8 = bytes[pos];
        if b == 0 {
            let stop: usize = match end {
                Some(e) => e,
                None => pos + 1,
            };
            assert(texts(labels@) + Seq::empty() =~= texts(labels@));
            let name = if labels.len() == 0 {
                ".".to_owned()
            } else {
                join_texts(labels.as_slice(), ".")
            };
            return Ok((name, stop));
        }
        if b >= 0xC0 {
            if pos + 1 >= bytes.len() {
                return Err("truncated pointer".to_owned());
            }
            let target: usize = (b - 0xC0) as usize * 256 + bytes[pos + 1] as usize;
            if target >= bytes.len() {
                return Err("compression pointer out of range".to_owned());
            }
            if end.is_none() {
                end = Some(pos + 2);
                proof {
                    known = Some(pos + 2);
                }
            }
            pos = target;
            hops = hops + 1;
            continue;
        }
        let len: usize = b as usize;
        if len > 63 {
            return Err("bad label length".to_owned());
        }
        if len > bytes.len() - pos - 1 {
            return Err("name overruns message".to_owned());
        }
        let label_end: usize = pos + 1 + len;
        let label = lossy(vstd::slice::slice_subrange(bytes, pos + 1, label_end));
        let ghost before = texts(labels@);
        labels.push(label);
        proof {
            assert(texts(labels@) =~= before.push(label@));
            let rest = walk(bytes@, label_end as int, hops as int);
            if rest is Ok {
                assert(before + (seq![label@] + rest->Ok_0.labels) =~= before.push(label@) + rest->Ok_0.labels);
            }
        }
        pos = label_end;
    }
}

/// The byte position just past the name at `start`. Handles plain label
/// sequences and a trailing compression pointer, which is validated by a
/// bounded walk of its target.
pub fn skip_name(bytes: &[u8], start: usize) -> (r: Result<usize, String>)
    ensures
        r matches Ok(end) ==> skip_walk(bytes@, start as int) == Ok::<int, Seq<char>>(end as int),
        r matches Err(e) ==> skip_walk(bytes@, start as int) == Err::<int, Seq<char>>(e@),
{
    let mut pos: usize = start;
    loop
        invariant
            skip_walk(bytes@, start as int) == skip_walk(bytes@, pos as int),
        decreases bytes.len() - pos,
    {
        if pos >= bytes.len() {
            return Err(overrun(pos));
        }
        let b: u8 = bytes[pos];
        if b == 0 {
            return Ok(pos + 1);
        }
        if b >= 0xC0 {
            if pos + 1 >= bytes.len() {
                return Err("truncated pointer".to_owned());
            }
            let target: usize = (b - 0xC0) as usize * 256 + bytes[pos + 1] as usize;
            if target >= bytes.len() {
                return Err("compression pointer out of range".to_owned());
            }
            return match validate_name(bytes, target, 0) {
                Ok(()) => Ok(pos + 2),
                Err(e) => Err(e),
            };
        }
        let len: usize = b as usize;
        if len > 63 {
            return Err("bad label length".to_owned());
        }
        if len > bytes.len() - pos - 1 {
            return Err("name overruns message".to_owned());
        }
        pos = pos + 1 + len;
    }
}

/// Validate the label chain at `start`, capping compression hops to bound
/// pointer loops.
pub fn validate_name(bytes: &[u8], start: usize, depth: usize) -> (r: Result<(), String>)
    ensures
        r is Ok ==> valid_walk(bytes@, start as int, depth as int) is Ok,
        r matches Err(e) ==> valid_walk(bytes@, start as int, depth as int) == Err::<(), Seq<char>>(e@),
    decreases 9 - depth,
{
    if depth > 8 {
        return Err("too many compression-pointer hops".to_owned());
    }
    let mut pos: usize = start;
    loop
        invariant
            depth <= 8,
            valid_walk(bytes@, start as int, depth as int) == valid_walk(bytes@, pos as int, depth as int),
        decreases bytes.len() - pos,
    {
        if pos >= bytes.len() {
            return Err(overrun(pos));
        }
        let b: u8 = bytes[pos];
        if b == 0 {
            return Ok(());
        }
        if b >= 0xC0 {
            if pos + 1 >= bytes.len() {
                return Err("truncated pointer".to_owned());
            }
            let target: usize = (b - 0xC0) as usize * 256 + bytes[pos + 1] as usize;
            if target >= bytes.len() {
                return Err("compression pointer out of range".to_owned());
            }
            return validate_name(bytes, target, depth + 1);
        }
        let len: usize = b as usize;
        if len > 63 {
            return Err("bad label length".to_owned());
        }
        if len > bytes.len() - pos - 1 {
            return Err("name overruns message".to_owned());
        }
        pos = pos + 1 + len;
    }
}

// --- responses --------------------------------------------------------------------

/// The character-strings of a TXT record from `off` on, joined.
pub open spec fn txt_from(rdata: Seq<u8>, off: int) -> Result<Seq<char>, Seq<char>>
    decreases rdata.len() - off,
{
    if off < 0 || off >= rdata.len() {
        Ok(Seq::empty())
    } else if off + 1 + rdata[off] > rdata.len() {
        Err("truncated txt rdata"@)
    } else {
        match txt_from(rdata, off + 1 + rdata[off]) {
            Ok(rest) => Ok(lossy_text(rdata.subrange(off + 1, off + 1 + rdata[off])) + rest),
            Err(e) => Err(e),
        }
    }
}

/// Decode a TXT rdata blob: a sequence of length-prefixed character-strings
/// (RFC 1035 §3.3.14), joined.
pub fn read_txt(rdata: &[u8]) -> (r: Result<String, String>)
    ensures
        r matches Ok(text) ==> txt_from(rdata@, 0) == Ok::<Seq<char>, Seq<char>>(text@),
        r matches Err(e) ==> txt_from(rdata@, 0) == Err::<Seq<char>, Seq<char>>(e@),
{
    let mut out = String::new();
    let mut off: usize = 0;
    let ghost whole = txt_from(rdata@, 0);
    assert(whole is Ok ==> Seq::<char>::empty() + whole->Ok_0 =~= whole->Ok_0);
    while off < rdata.len()
        invariant
            off <= rdata.len(),
            whole is Ok <==> txt_from(rdata@, off as int) is Ok,
            whole is Ok ==> whole->Ok_0 == out@ + txt_from(rdata@, off as int)->Ok_0,
            whole is Err ==> whole == txt_from(rdata@, off as int),
            whole == txt_from(rdata@, 0),
        decreases rdata.len() - off,
    {
        let len: usize = rdata[off] as usize;
        if len > rdata.len() - off - 1 {
            return Err("truncated txt rdata".to_owned());
        }
        let piece = lossy(vstd::slice::slice_subrange(rdata, off + 1, off + 1 + len));
        let ghost before = out@;
        out.append(piece.as_str());
        proof {
            let rest = txt_from(rdata@, off + 1 + len);
            if rest is Ok {
                assert(before + (piece@ + rest->Ok_0) =~= (before + piece@) + rest->Ok_0);
            }
        }
        off = off + 1 + len;
    }
    assert(out@ + Seq::<char>::empty() =~= out@);
    Ok(out)
}

/// The fields of a start-of-authority record as text.
pub open spec fn soa_text(mname: Seq<char>, rname: Seq<char>, f: Seq<int>) -> Seq<char> {
    mname + " "@ + rname + " serial "@ + signed(f[0]) + " refresh "@ + signed(f[1]) + " retry "@ + signed(f[2])
        + " expire "@ + signed(f[3]) + " minimum "@ + signed(f[4])
}

/// The text of a start-of-authority record.
pub fn soa_line(mname: &str, rname: &str, serial: u32, refresh: i64, retry: i64, expire: i64, minimum: u32) -> (out:
    String)
    ensures
        out@ == soa_text(
            mname@,
            rname@,
            seq![serial as int, refresh as int, retry as int, expire as int, minimum as int],
        ),
{
    let mut out = mname.to_owned();
    out.append(" ");
    out.append(rname);
    out.append(" serial ");
    push_signed(&mut out, serial as i64);
    out.append(" refresh ");
    push_signed(&mut out, refresh);
    out.append(" retry ");
    push_signed(&mut out, retry);
    out.append(" expire ");
    push_signed(&mut out, expire);
    out.append(" minimum ");
    push_signed(&mut out, minimum as i64);
    out
}

/// The name at `pos` as a record value.
pub open spec fn name_at(m: Seq<u8>, pos: int) -> Result<Seq<char>, Seq<char>> {
    match walk(m, pos, 0) {
        Ok(w) => Ok(dotted(w.labels)),
        Err(e) => Err(e),
    }
}

/// The value of an answer of the wanted type whose data is `len` bytes at
/// `at`; `None` when the data does not have the type's shape.
pub open spec fn decode(m: Seq<u8>, want: DnsRecordType, at: int, len: int) -> Result<
    Option<DnsRecordModel>,
    Seq<char>,
> {
    match want {
        DnsRecordType::A => if len == 4 {
            Ok(Some(DnsRecordModel::A(Ipv4Addr { a: m[at], b: m[at + 1], c: m[at + 2], d: m[at + 3] })))
        } else {
            Ok(None)
        },
        DnsRecordType::Aaaa => if len == 16 {
            Ok(
                Some(
                    DnsRecordModel::Aaaa(
                        Ipv6Addr {
                            g0: be16(m, at) as u16,
                            g1: be16(m, at + 2) as u16,
                            g2: be16(m, at + 4) as u16,
                            g3: be16(m, at + 6) as u16,
                            g4: be16(m, at + 8) as u16,
                            g5: be16(m, at + 10) as u16,
                            g6: be16(m, at + 12) as u16,
                            g7: be16(m, at + 14) as u16,
                        },
                    ),
                ),
            )
        } else {
            Ok(None)
        },
        DnsRecordType::Cname => match name_at(m, at) {
            Ok(name) => Ok(Some(DnsRecordModel::Cname(name))),
            Err(e) => Err(e),
        },
        DnsRecordType::Ns => match name_at(m, at) {
            Ok(name) => Ok(Some(DnsRecordModel::Ns(name))),
            Err(e) => Err(e),
        },
        DnsRecordType::Ptr => match name_at(m, at) {
            Ok(name) => Ok(Some(DnsRecordModel::Ptr(name))),
            Err(e) => Err(e),
        },
        DnsRecordType::Mx => if len >= 3 {
            match name_at(m, at + 2) {
                Ok(exchange) => Ok(Some(DnsRecordModel::Mx { preference: be16(m, at) as u16, exchange })),
                Err(e) => Err(e),
            }
        } else {
            Ok(None)
        },
        DnsRecordType::Txt => match txt_from(m.subrange(at, at + len), 0) {
            Ok(text) => Ok(Some(DnsRecordModel::Txt(text))),
            Err(e) => Err(e),
        },
        DnsRecordType::Soa => match walk(m, at, 0) {
            Ok(mname) => match walk(m, mname.end, 0) {
                Ok(rname) => if rname.end + 20 > m.len() {
                    Err("truncated soa rdata"@)
                } else {
                    Ok(
                        Some(
                            DnsRecordModel::Soa(
                                soa_text(
                                    dotted(mname.labels),
                                    dotted(rname.labels),
                                    seq![
                                        be32(m, rname.end),
                                        be32(m, rname.end + 4),
                                        be32(m, rname.end + 8),
                                        be32(m, rname.end + 12),
                                        be32(m, rname.end + 16),
                                    ],
                                ),
                            ),
                        ),
                    )
                },
                Err(e) => Err(e),
            },
            Err(e) => Err(e),
        },
        DnsRecordType::Caa => if len >= 2 {
            if 2 + m[at + 1] > len {
                Err("truncated caa rdata"@)
            } else {
                Ok(
                    Some(
                        DnsRecordModel::Caa {
                            flags: m[at],
                            tag: lossy_text(m.subrange(at + 2, at + 2 + m[at + 1])),
                            value: lossy_text(m.subrange(at + 2 + m[at + 1], at + len)),
                        },
                    ),
                )
            }
        } else {
            Ok(None)
        },
        DnsRecordType::Srv => if len >= 6 {
            match name_at(m, at + 6) {
                Ok(target) => Ok(
                    Some(
                        DnsRecordModel::Srv {
                            priority: be16(m, at) as u16,
                            weight: be16(m, at + 2) as u16,
                            port: be16(m, at + 4) as u16,
                            target,
                        },
                    ),
                ),
                Err(e) => Err(e),
            }
        } else {
            Ok(None)
        },
    }
}

/// A response: the response code, the time-to-live of the first answer of the
/// wanted type, and the records of that type in the answer section.
#[derive(Debug, Clone, PartialEq, Eq)]
pub struct ParsedDnsResponse {
    /// `0` means `NOERROR`; 1-5 are `FORMERR`..`REFUSED`; anything else is an
    /// extension code.
    pub rcode: u8,
    /// TTL (seconds) of the first answer of the wanted type.
    pub ttl: Option<u32>,
    /// Records of the wanted record type found in the answers.
    pub records: Vec<DnsRecord>,
}

/// The answers of a message from some position on.
#[verifier::ext_equal]
pub struct Answers {
    pub ttl: Option<u32>,
    pub records: Seq<DnsRecordModel>,
}

/// The model of a [`ParsedDnsResponse`].
#[verifier::ext_equal]
pub struct ResponseModel {
    pub rcode: u8,
    pub ttl: Option<u32>,
    pub records: Seq<DnsRecordModel>,
}

impl DeepView for ParsedDnsResponse {
    type V = ResponseModel;

    open spec fn deep_view(&self) -> ResponseModel {
        ResponseModel { rcode: self.rcode, ttl: self.ttl, records: self.records.deep_view() }
    }
}

/// The position past `n` questions that start at `pos`.
pub open spec fn past_questions(m: Seq<u8>, pos: int, n: nat) -> Result<int, Seq<char>>
    decreases n,
{
    if n == 0 {
        Ok(pos)
    } else {
        match skip_walk(m, pos) {
            Ok(end) => past_questions(m, end + 4, (n - 1) as nat),
            Err(e) => Err(e),
        }
    }
}

/// The first of two answers' findings: an earlier TTL wins, records line up.
pub open spec fn before(ttl: Option<u32>, record: Option<DnsRecordModel>, rest: Answers) -> Answers {
    Answers {
        ttl: if ttl is Some {
            ttl
        } else {
            rest.ttl
        },
        records: match record {
            Some(r) => seq![r] + rest.records,
            None => rest.records,
        },
    }
}

/// The `n` answers that start at `pos`, of which only those of the wanted type
/// count.
pub open spec fn answers(m: Seq<u8>, pos: int, n: nat, want: DnsRecordType) -> Result<Answers, Seq<char>>
    decreases n,
{
    if n == 0 {
        Ok(Answers { ttl: None, records: Seq::empty() })
    } else {
        match skip_walk(m, pos) {
            Err(e) => Err(e),
            Ok(head) => if head + 10 > m.len() {
                Err("truncated answer header"@)
            } else {
                let wanted = be16(m, head) == wire_code(want);
                let len = be16(m, head + 8);
                let next = head + 10 + len;
                if next > m.len() {
                    Err("truncated rdata"@)
                } else {
                    let value = if wanted {
                        decode(m, want, head + 10, len)
                    } else {
                        Ok(None)
                    };
                    match value {
                        Err(e) => Err(e),
                        Ok(record) => match answers(m, next, (n - 1) as nat, want) {
                            Err(e) => Err(e),
                            Ok(rest) => Ok(
                                before(
                                    if wanted {
                                        Some(be32(m, head + 4) as u32)
                                    } else {
                                        None
                                    },
                                    record,
                                    rest,
                                ),
                            ),
                        },
                    }
                }
            },
        }
    }
}

/// The meaning of a response message.
pub open spec fn response(m: Seq<u8>, want: DnsRecordType) -> Result<ResponseModel, Seq<char>> {
    if m.len() < 12 {
        Err("message shorter than the 12-byte header"@)
    } else {
        match past_questions(m, 12, be16(m, 4) as nat) {
            Err(e) => Err(e),
            Ok(pos) => match answers(m, pos, be16(m, 6) as nat, want) {
                Err(e) => Err(e),
                Ok(a) => Ok(ResponseModel { rcode: m[3] % 16, ttl: a.ttl, records: a.records }),
            },
        }
    }
}

/// Decode a name as a record value.
fn name_value(bytes: &[u8], at: usize) -> (r: Result<String, String>)
    ensures
        r matches Ok(name) ==> name_at(bytes@, at as int) == Ok::<Seq<char>, Seq<char>>(name@),
        r matches Err(e) ==> name_at(bytes@, at as int) == Err::<Seq<char>, Seq<char>>(e@),
{
    match read_name(bytes, at) {
        Ok((name, _)) => Ok(name),
        Err(e) => Err(e),
    }
}

/// Whether a decoding result matches its specification.
pub open spec fn decoded(r: Result<Option<DnsRecord>, String>, s: Result<Option<DnsRecordModel>, Seq<char>>) -> bool {
    match r {
        Ok(v) => s == Ok::<Option<DnsRecordModel>, Seq<char>>(v.deep_view()),
        Err(e) => s == Err::<Option<DnsRecordModel>, Seq<char>>(e@),
    }
}

/// Decode a start-of-authority record.
fn decode_soa(bytes: &[u8], at: usize) -> (r: Result<Option<DnsRecord>, String>)
    requires
        bytes@.len() <= isize::MAX,
    ensures
        decoded(r, decode(bytes@, DnsRecordType::Soa, at as int, 0)),
{
    let (mname, p1) = match read_name(bytes, at) {
        Ok(pair) => pair,
        Err(e) => return Err(e),
    };
    let (rname, p2) = match read_name(bytes, p1) {
        Ok(pair) => pair,
        Err(e) => return Err(e),
    };
    proof {
        lemma_walk_end(bytes@, p1 as int, 0);
    }
    if p2 + 20 > bytes.len() {
        return Err("truncated soa rdata".to_owned());
    }
    let line = soa_line(
        mname.as_str(),
        rname.as_str(),
        read32(bytes, p2),
        read32(bytes, p2 + 4) as i64,
        read32(bytes, p2 + 8) as i64,
        read32(bytes, p2 + 12) as i64,
        read32(bytes, p2 + 16),
    );
    Ok(Some(DnsRecord::Soa(line)))
}

/// Decode the data of an answer of the wanted type.
fn decode_answer(bytes: &[u8], want: DnsRecordType, at: usize, len: usize) -> (r: Result<Option<DnsRecord>, String>)
    requires
        at + len <= bytes.len(),
        bytes@.len() <= isize::MAX,
    ensures
        decoded(r, decode(bytes@, want, at as int, len as int)),
{
    match want {
        DnsRecordType::A => if len == 4 {
            Ok(Some(DnsRecord::A(Ipv4Addr { a: bytes[at], b: bytes[at + 1], c: bytes[at + 2], d: bytes[at + 3] })))
        } else {
            Ok(None)
        },
        DnsRecordType::Aaaa => if len == 16 {
            Ok(
                Some(
                    DnsRecord::Aaaa(
                        Ipv6Addr {
                            g0: read16(bytes, at),
                            g1: read16(bytes, at + 2),
                            g2: read16(bytes, at + 4),
                            g3: read16(bytes, at + 6),
                            g4: read16(bytes, at + 8),
                            g5: read16(bytes, at + 10),
                            g6: read16(bytes, at + 12),
                            g7: read16(bytes, at + 14),
                        },
                    ),
                ),
            )
        } else {
            Ok(None)
        },
        DnsRecordType::Cname => match name_value(bytes, at) {
            Ok(name) => Ok(Some(DnsRecord::Cname(name))),
            Err(e) => Err(e),
        },
        DnsRecordType::Ns => match name_value(bytes, at) {
            Ok(name) => Ok(Some(DnsRecord::Ns(name))),
            Err(e) => Err(e),
        },
        DnsRecordType::Ptr => match name_value(bytes, at) {
            Ok(name) => Ok(Some(DnsRecord::Ptr(name))),
            Err(e) => Err(e),
        },
        DnsRecordType::Mx => if len >= 3 {
            match name_value(bytes, at + 2) {
                Ok(exchange) => Ok(Some(DnsRecord::Mx { preference: read16(bytes, at), exchange })),
                Err(e) => Err(e),
            }
        } else {
            Ok(None)
        },
        DnsRecordType::Txt => match read_txt(vstd::slice::slice_subrange(bytes, at, at + len)) {
            Ok(text) => Ok(Some(DnsRecord::Txt(text))),
            Err(e) => Err(e),
        },
        DnsRecordType::Soa => decode_soa(bytes, at),
        DnsRecordType::Caa => if len >= 2 {
            let tag_len: usize = bytes[at + 1] as usize;
            if 2 + tag_len > len {
                return Err("truncated caa rdata".to_owned());
            }
            let tag = lossy(vstd::slice::slice_subrange(bytes, at + 2, at + 2 + tag_len));
            let value = lossy(vstd::slice::slice_subrange(bytes, at + 2 + tag_len, at + len));
            Ok(Some(DnsRecord::Caa { flags: bytes[at], tag, value }))
        } else {
            Ok(None)
        },
        DnsRecordType::Srv => if len >= 6 {
            match name_value(bytes, at + 6) {
                Ok(target) => Ok(
                    Some(
                        DnsRecord::Srv {
                            priority: read16(bytes, at),
                            weight: read16(bytes, at + 2),
                            port: read16(bytes, at + 4),
                            target,
                        },
                    ),
                ),
                Err(e) => Err(e),
            }
        } else {
            Ok(None)
        },
    }
}

/// Parse a DNS response message (RFC 1035 §4.1.3, with name compression
/// support), returning the response code and the wanted record type's records
/// from the answer section. A slice never holds more than `isize::MAX` bytes.
pub fn parse_dns_response(bytes: &[u8], want: DnsRecordType) -> (r: Result<ParsedDnsResponse, String>)
    requires
        bytes@.len() <= isize::MAX,
    ensures
        r matches Ok(parsed) ==> response(bytes@, want) == Ok::<ResponseModel, Seq<char>>(parsed.deep_view()),
        r matches Err(e) ==> response(bytes@, want) == Err::<ResponseModel, Seq<char>>(e@),
{
    if bytes.len() < 12 {
        return Err("message shorter than the 12-byte header".to_owned());
    }
    let rcode: u8 = bytes[3] % 16;
    let qdcount: usize = read16(bytes, 4) as usize;
    let ancount: usize = read16(bytes, 6) as usize;
    let mut pos: usize = 12;
    let mut left: usize = qdcount;
    while left > 0
        invariant
            bytes@.len() <= isize::MAX,
            pos <= bytes@.len() + 4,
            bytes@.len() >= 12,
            qdcount == be16(bytes@, 4),
            past_questions(bytes@, 12, qdcount as nat) == past_questions(bytes@, pos as int, left as nat),
        decreases left,
    {
        let end = match skip_name(bytes, pos) {
            Ok(end) => end,
            Err(e) => return Err(e),
        };
        proof {
            lemma_skip_end(bytes@, pos as int);
        }
        pos = end + 4;
        left = left - 1;
    }
    let ghost start = pos as int;
    let ghost whole = answers(bytes@, start, ancount as nat, want);
    let mut records: Vec<DnsRecord> = Vec::new();
    let mut ttl: Option<u32> = None;
    let mut left: usize = ancount;
    assert(whole is Ok ==> joined(None, Seq::empty(), whole->Ok_0) =~= whole->Ok_0);
    while left > 0
        invariant
            bytes@.len() <= isize::MAX,
            pos <= bytes@.len() + 4,
            bytes@.len() >= 12,
            past_questions(bytes@, 12, be16(bytes@, 4) as nat) == Ok::<int, Seq<char>>(start),
            ancount == be16(bytes@, 6),
            whole == answers(bytes@, start, ancount as nat, want),
            answers(bytes@, pos as int, left as nat, want) is Ok ==> whole == Ok::<Answers, Seq<char>>(
                joined(ttl, records.deep_view(), answers(bytes@, pos as int, left as nat, want)->Ok_0),
            ),
            answers(bytes@, pos as int, left as nat, want) is Err ==> whole == answers(
                bytes@,
                pos as int,
                left as nat,
                want,
            ),
        decreases left,
    {
        let head = match skip_name(bytes, pos) {
            Ok(end) => end,
            Err(e) => return Err(e),
        };
        proof {
            lemma_skip_end(bytes@, pos as int);
        }
        if head + 10 > bytes.len() {
            return Err("truncated answer header".to_owned());
        }
        let wanted = read16(bytes, head) == type_code(want);
        let len: usize = read16(bytes, head + 8) as usize;
        if head + 10 + len > bytes.len() {
            return Err("truncated rdata".to_owned());
        }
        let ghost ttl_before = ttl;
        let ghost records_before = records.deep_view();
        let found_ttl: Option<u32> = if wanted {
            Some(read32(bytes, head + 4))
        } else {
            None
        };
        let found = if wanted {
            match decode_answer(bytes, want, head + 10, len) {
                Ok(v) => v,
                Err(e) => return Err(e),
            }
        } else {
            None
        };
        if ttl.is_none() {
            ttl = found_ttl;
        }
        let ghost model = found.deep_view();
        match found {
            Some(record) => {
                records.push(record);
                assert(records.deep_view() =~= records_before.push(record.deep_view()));
            },
            None => {},
        }
        proof {
            let rest = answers(bytes@, head + 10 + len, (left - 1) as nat, want);
            if rest is Ok {
                assert(joined(ttl_before, records_before, before(found_ttl, model, rest->Ok_0)) =~= joined(
                    ttl,
                    records.deep_view(),
                    rest->Ok_0,
                ));
            }
        }
        pos = head + 10 + len;
        left = left - 1;
    }
    proof {
        let none = Answers { ttl: None, records: Seq::empty() };
        assert(joined(ttl, records.deep_view(), none) =~= Answers { ttl, records: records.deep_view() });
    }
    Ok(ParsedDnsResponse { rcode, ttl, records })
}

/// What was already found, followed by what the remaining answers hold.
spec fn joined(ttl: Option<u32>, records: Seq<DnsRecordModel>, rest: Answers) -> Answers {
    Answers {
        ttl: if ttl is Some {
            ttl
        } else {
            rest.ttl
        },
        records: records + rest.records,
    }
}

// --- queries ----------------------------------------------------------------------

/// A hostname without the root dot it may end in.
pub open spec fn without_root(host: Seq<char>) -> Seq<char> {
    if host.len() > 0 && host.last() == '.' {
        host.drop_last()
    } else {
        host
    }
}

/// The labels of a hostname.
pub open spec fn labels_of(host: Seq<char>) -> Seq<Seq<char>> {
    split(without_root(host), '.')
}

/// Whether a label can stand on the wire.
pub open spec fn label_fits(label: Seq<char>) -> bool {
    1 <= encode_utf8(label).len() <= 63
}

/// The wire form of labels: each behind its length.
pub open spec fn labels_wire(labels: Seq<Seq<char>>) -> Seq<u8>
    decreases labels.len(),
{
    if labels.len() == 0 {
        Seq::empty()
    } else {
        let bytes = encode_utf8(labels.last());
        labels_wire(labels.drop_last()) + seq![bytes.len() as u8] + bytes
    }
}

/// The header of a query: id 0, recursion desired, one question.
pub open spec fn query_header() -> Seq<u8> {
    seq![0u8, 0, 1, 0, 0, 1, 0, 0, 0, 0, 0, 0]
}

/// The query message for a hostname and record type.
pub open spec fn query(host: Seq<char>, t: DnsRecordType) -> Result<Seq<u8>, Seq<char>> {
    let labels = labels_of(host);
    if forall|i: int| 0 <= i < labels.len() ==> label_fits(#[trigger] labels[i]) {
        Ok(
            query_header() + labels_wire(labels) + seq![
                0u8,
                (wire_code(t) / 256) as u8,
                (wire_code(t) % 256) as u8,
                0,
                1,
            ],
        )
    } else {
        Err("hostname "@ + quoted(host) + " has an invalid DNS label"@)
    }
}

/// Append bytes.
fn push_bytes(out: &mut Vec<u8>, bytes: &[u8])
    ensures
        final(out)@ == old(out)@ + bytes@,
{
    let ghost start = out@;
    for i in 0..bytes.len()
        invariant
            out@ == start + bytes@.take(i as int),
    {
        out.push(bytes[i]);
        assert(out@ =~= start + bytes@.take(i as int + 1));
    }
    assert(bytes@.take(bytes@.len() as int) =~= bytes@);
}

/// Build a single-question DNS query message (RFC 1035 §4.1) with recursion
/// requested. One trailing root dot of the hostname is ignored.
pub fn build_query(host: &str, record_type: DnsRecordType) -> (r: Result<Vec<u8>, String>)
    ensures
        r matches Ok(message) ==> query(host@, record_type) == Ok::<Seq<u8>, Seq<char>>(message@),
        r matches Err(e) ==> query(host@, record_type) == Err::<Seq<u8>, Seq<char>>(e@),
{
    let chars = chars_of(host);
    let n = chars.len();
    let end: usize = if n > 0 && chars[n - 1] == '.' {
        n - 1
    } else {
        n
    };
    let name = slice_of(chars.as_slice(), 0, end);
    assert(name@ =~= without_root(host@));
    let labels = split_chars(name.as_slice(), '.');
    let ghost all = labels_of(host@);
    let mut out: Vec<u8> = vec![0, 0, 1, 0, 0, 1, 0, 0, 0, 0, 0, 0];
    assert(out@ =~= query_header());
    assert(out@ =~= query_header() + labels_wire(all.take(0)));
    for i in 0..labels.len()
        invariant
            all == rows(labels@),
            all == labels_of(host@),
            out@ == query_header() + labels_wire(all.take(i as int)),
            forall|j: int| 0 <= j < i ==> label_fits(#[trigger] all[j]),
    {
        let label = string_of(labels[i].as_slice());
        let bytes = label.as_str().as_bytes();
        assert(all[i as int] == label@);
        if bytes.len() == 0 || bytes.len() > 63 {
            assert(!label_fits(all[i as int]));
            let mut e = "hostname ".to_owned();
            e.append(debug_text(host).as_str());
            e.append(" has an invalid DNS label");
            return Err(e);
        }
        let ghost done = all.take(i as int);
        let ghost next = all.take(i as int + 1);
        assert(next.drop_last() =~= done);
        out.push(bytes.len() as u8);
        push_bytes(&mut out, bytes);
        assert(out@ =~= query_header() + labels_wire(next));
    }
    assert(all.take(labels@.len() as int) =~= all);
    let code = type_code(record_type);
    out.push(0);
    out.push((code / 256) as u8);
    out.push((code % 256) as u8);
    out.push(0);
    out.push(1);
    assert(out@ =~= query_header() + labels_wire(all) + seq![
        0u8,
        (wire_code(record_type) / 256) as u8,
        (wire_code(record_type) % 256) as u8,
        0,
        1,
    ]);
    Ok(out)
}

/// One root dot at the end of a hostname changes neither whether a query can
/// be built nor the query.
pub proof fn lemma_query_ignores_one_root_dot(host: Seq<char>, t: DnsRecordType)
    requires
        host.len() == 0 || host.last() != '.',
    ensures
        query(host.push('.'), t) is Ok <==> query(host, t) is Ok,
        query(host, t) is Ok ==> query(host.push('.'), t) == query(host, t),
{
    assert(without_root(host.push('.')) =~= host);
}

/// The wire form of labels, split off its first label.
proof fn lemma_labels_wire_front(labels: Seq<Seq<char>>)
    requires
        labels.len() > 0,
    ensures
        labels_wire(labels) == seq![encode_utf8(labels[0]).len() as u8] + encode_utf8(labels[0]) + labels_wire(
            labels.skip(1),
        ),
    decreases labels.len(),
{
    let first = seq![encode_utf8(labels[0]).len() as u8] + encode_utf8(labels[0]);
    if labels.len() == 1 {
        assert(labels.drop_last() =~= Seq::empty());
        assert(labels.skip(1) =~= Seq::empty());
        assert(labels_wire(labels) =~= first + labels_wire(labels.skip(1)));
    } else {
        lemma_labels_wire_front(labels.drop_last());
        assert(labels.drop_last().skip(1) =~= labels.skip(1).drop_last());
        assert(labels.skip(1).last() == labels.last());
        assert(labels_wire(labels) =~= first + labels_wire(labels.skip(1)));
    }
}

/// Labels behind their lengths, ended by a root label, are read back one by
/// one.
proof fn lemma_walk_reads_labels(m: Seq<u8>, pos: int, hops: int, labels: Seq<Seq<char>>)
    requires
        0 <= pos,
        0 <= hops <= 8,
        pos + labels_wire(labels).len() < m.len(),
        m.subrange(pos, pos + labels_wire(labels).len()) == labels_wire(labels),
        m[pos + labels_wire(labels).len()] == 0,
        forall|i: int| 0 <= i < labels.len() ==> label_fits(#[trigger] labels[i]),
    ensures
        walk(m, pos, hops) == Ok::<NameWalk, Seq<char>>(
            NameWalk {
                labels,
                end: (pos + labels_wire(labels).len() + 1) as int,
            },
        ),
    decreases labels.len(),
{
    let wire = labels_wire(labels);
    if labels.len() == 0 {
        assert(labels =~= Seq::empty());
    } else {
        lemma_labels_wire_front(labels);
        let bytes = encode_utf8(labels[0]);
        let rest = labels.skip(1);
        assert(label_fits(labels[0]));
        let n = bytes.len() as int;
        let sub = m.subrange(pos, pos + wire.len());
        assert(sub[0] == n as u8);
        assert(m[pos] == sub[0]);
        assert(m.subrange(pos + 1, pos + 1 + n) =~= bytes) by {
            assert forall|k: int| 0 <= k < n implies m[pos + 1 + k] == bytes[k] by {
                assert(sub[1 + k] == bytes[k]);
            }
        }
        let next = pos + 1 + n;
        assert(labels_wire(rest).len() == wire.len() - 1 - n);
        assert(m.subrange(next, next + labels_wire(rest).len()) =~= labels_wire(rest)) by {
            assert forall|k: int| 0 <= k < labels_wire(rest).len() implies m[next + k] == labels_wire(rest)[k] by {
                assert(sub[1 + n + k] == labels_wire(rest)[k]);
            }
        }
        assert forall|i: int| 0 <= i < rest.len() implies label_fits(#[trigger] rest[i]) by {
            assert(label_fits(labels[i + 1]));
        }
        lemma_walk_reads_labels(m, next, hops, rest);
        encode_utf8_valid_utf8(labels[0]);
        encode_utf8_decode_utf8(labels[0]);
        assert(seq![lossy_text(bytes)] + rest =~= labels);
    }
}

/// What a query asks for can be read back from it: the name behind the header
/// decodes to the hostname without its root dot, and the type and class codes
/// follow it to the end.
pub proof fn lemma_query_reads_back(host: Seq<char>, t: DnsRecordType)
    requires
        query(host, t) is Ok,
    ensures
        ({
            let q = query(host, t)->Ok_0;
            &&& walk(q, 12, 0) matches Ok(w)
            &&& w.labels == labels_of(host)
            &&& dotted(w.labels) == without_root(host)
            &&& w.end == q.len() - 4
            &&& be16(q, w.end) == wire_code(t)
            &&& be16(q, w.end + 2) == 1
        }),
{
    let q = query(host, t)->Ok_0;
    let labels = labels_of(host);
    let wire = labels_wire(labels);
    assert(q.subrange(12, 12int + wire.len()) =~= wire);
    lemma_walk_reads_labels(q, 12, 0, labels);
    reveal_strlit(".");
    assert("."@ =~= seq!['.']);
    lemma_join_split(without_root(host), '.');
}

/// A query is itself a well-formed message: it has response code 0, one
/// question and no answers.
pub proof fn lemma_query_is_well_formed(host: Seq<char>, t: DnsRecordType, want: DnsRecordType)
    requires
        query(host, t) is Ok,
    ensures
        response(query(host, t)->Ok_0, want) == Ok::<ResponseModel, Seq<char>>(
            ResponseModel { rcode: 0, ttl: None, records: Seq::empty() },
        ),
{
    let q = query(host, t)->Ok_0;
    lemma_query_reads_back(host, t);
    lemma_skip_agrees_with_read(q, 12);
    assert(be16(q, 4) == 1);
    assert(be16(q, 6) == 0);
    reveal_with_fuel(past_questions, 2);
}

// --- laws ---------------------------------------------------------------------------

/// The type codes on the wire are those assigned to the record types, and no
/// two types share one.
pub proof fn lemma_type_codes_are_the_assigned_ones(s: DnsRecordType, t: DnsRecordType)
    ensures
        wire_code(t) == 1 <==> t == DnsRecordType::A,
        wire_code(t) == 2 <==> t == DnsRecordType::Ns,
        wire_code(t) == 5 <==> t == DnsRecordType::Cname,
        wire_code(t) == 6 <==> t == DnsRecordType::Soa,
        wire_code(t) == 12 <==> t == DnsRecordType::Ptr,
        wire_code(t) == 15 <==> t == DnsRecordType::Mx,
        wire_code(t) == 16 <==> t == DnsRecordType::Txt,
        wire_code(t) == 28 <==> t == DnsRecordType::Aaaa,
        wire_code(t) == 33 <==> t == DnsRecordType::Srv,
        wire_code(t) == 257 <==> t == DnsRecordType::Caa,
        wire_code(s) == wire_code(t) ==> s == t,
{
}

/// Address data survives decoding: the octets of an IPv4 address are the four
/// bytes of the data in their order, and the groups of an IPv6 address are its
/// pairs of bytes in their order, each high byte first. Data of another length
/// is no address.
pub proof fn lemma_address_data_survives_decoding(m: Seq<u8>, at: int, len: int)
    ensures
        decode(m, DnsRecordType::A, at, len) matches Ok(v) && (v is Some <==> len == 4) && (v matches Some(r)
            ==> r matches DnsRecordModel::A(ip) && seq![ip.a, ip.b, ip.c, ip.d] == Seq::new(4, |i: int| m[at + i])),
        decode(m, DnsRecordType::Aaaa, at, len) matches Ok(v) && (v is Some <==> len == 16) && (v matches Some(r)
            ==> r matches DnsRecordModel::Aaaa(ip) && seq![
            ip.g0 as int,
            ip.g1 as int,
            ip.g2 as int,
            ip.g3 as int,
            ip.g4 as int,
            ip.g5 as int,
            ip.g6 as int,
            ip.g7 as int,
        ] == Seq::new(8, |i: int| m[at + 2 * i] * 256 + m[at + 2 * i + 1])),
{
    if len == 4 {
        let ip = decode(m, DnsRecordType::A, at, len)->Ok_0->0->A_0;
        assert(seq![ip.a, ip.b, ip.c, ip.d] =~= Seq::new(4, |i: int| m[at + i]));
    }
    if len == 16 {
        let ip = decode(m, DnsRecordType::Aaaa, at, len)->Ok_0->0->Aaaa_0;
        assert(seq![
            ip.g0 as int,
            ip.g1 as int,
            ip.g2 as int,
            ip.g3 as int,
            ip.g4 as int,
            ip.g5 as int,
            ip.g6 as int,
            ip.g7 as int,
        ] =~= Seq::new(8, |i: int| m[at + 2 * i] * 256 + m[at + 2 * i + 1]));
    }
}

/// The numbers in front of a mail exchange or a service are the first byte
/// pairs of the data, in the order preference, and priority, weight, port.
pub proof fn lemma_numbers_survive_decoding(m: Seq<u8>, at: int, len: int)
    ensures
        decode(m, DnsRecordType::Mx, at, len) matches Ok(Some(r)) ==> {
            &&& len >= 3
            &&& r matches DnsRecordModel::Mx { preference, exchange }
            &&& preference == m[at] * 256 + m[at + 1]
            &&& decode(m, DnsRecordType::Ns, at + 2, len - 2) == Ok::<Option<DnsRecordModel>, Seq<char>>(
                Some(DnsRecordModel::Ns(exchange)),
            )
        },
        decode(m, DnsRecordType::Srv, at, len) matches Ok(Some(r)) ==> {
            &&& len >= 6
            &&& r matches DnsRecordModel::Srv { priority, weight, port, target }
            &&& priority == m[at] * 256 + m[at + 1]
            &&& weight == m[at + 2] * 256 + m[at + 3]
            &&& port == m[at + 4] * 256 + m[at + 5]
            &&& decode(m, DnsRecordType::Ns, at + 6, len - 6) == Ok::<Option<DnsRecordModel>, Seq<char>>(
                Some(DnsRecordModel::Ns(target)),
            )
        },
{
}

/// A record whose data is one name written out, label by label and ended by the
/// root label, is that name with dots between its labels, for each of the types
/// that hold a name.
pub proof fn lemma_names_survive_decoding(m: Seq<u8>, at: int, len: int, host: Seq<char>)
    requires
        0 <= at,
        forall|i: int| 0 <= i < split(host, '.').len() ==> 1 <= encode_utf8(#[trigger] split(host, '.')[i]).len() <= 63,
        at + labels_wire(split(host, '.')).len() < m.len(),
        m.subrange(at, at + labels_wire(split(host, '.')).len()) == labels_wire(split(host, '.')),
        m[at + labels_wire(split(host, '.')).len()] == 0,
    ensures
        decode(m, DnsRecordType::Cname, at, len) == Ok::<Option<DnsRecordModel>, Seq<char>>(
            Some(DnsRecordModel::Cname(host)),
        ),
        decode(m, DnsRecordType::Ns, at, len) == Ok::<Option<DnsRecordModel>, Seq<char>>(
            Some(DnsRecordModel::Ns(host)),
        ),
        decode(m, DnsRecordType::Ptr, at, len) == Ok::<Option<DnsRecordModel>, Seq<char>>(
            Some(DnsRecordModel::Ptr(host)),
        ),
{
    let labels = split(host, '.');
    assert forall|i: int| 0 <= i < labels.len() implies label_fits(#[trigger] labels[i]) by {}
    lemma_walk_reads_labels(m, at, 0, labels);
    reveal_strlit(".");
    assert("."@ =~= seq!['.']);
    lemma_join_split(host, '.');
}

/// A compression pointer stands for the name it points to: a name can be read
/// at the pointer whenever it can be read at its target, both read the same
/// labels, and reading goes on behind the two bytes of the pointer.
pub proof fn lemma_pointer_stands_for_its_target(m: Seq<u8>, pos: int, target: int, hops: int)
    requires
        0 <= hops < 8,
        0 <= pos,
        pos + 1 < m.len(),
        0 <= target < m.len(),
        m[pos] == 192 + target / 256,
        m[pos + 1] == target % 256,
    ensures
        walk(m, pos, hops) is Ok <==> walk(m, target, hops + 1) is Ok,
        walk(m, pos, hops) matches Ok(w) ==> w.labels == walk(m, target, hops + 1)->Ok_0.labels && w.end == pos + 2,
{
}

/// A text record of one character-string of UTF-8 is that text; a second
/// character-string adds its text behind the first.
pub proof fn lemma_text_survives_decoding(first: Seq<char>, second: Seq<char>)
    requires
        encode_utf8(first).len() <= 255,
        encode_utf8(second).len() <= 255,
    ensures
        ({
            let a = seq![encode_utf8(first).len() as u8] + encode_utf8(first);
            let b = seq![encode_utf8(second).len() as u8] + encode_utf8(second);
            &&& txt_from(a, 0) == Ok::<Seq<char>, Seq<char>>(first)
            &&& txt_from(a + b, 0) == Ok::<Seq<char>, Seq<char>>(first + second)
        }),
{
    let x = encode_utf8(first);
    let y = encode_utf8(second);
    let a = seq![x.len() as u8] + x;
    let b = seq![y.len() as u8] + y;
    encode_utf8_valid_utf8(first);
    encode_utf8_decode_utf8(first);
    encode_utf8_valid_utf8(second);
    encode_utf8_decode_utf8(second);
    reveal_with_fuel(txt_from, 3);
    assert(a.subrange(1, 1 + x.len() as int) =~= x);
    assert(first + Seq::<char>::empty() =~= first);
    assert(second + Seq::<char>::empty() =~= second);
    let all = a + b;
    assert(all[0] == x.len());
    assert(all.subrange(1, 1 + x.len() as int) =~= x);
    let next = 1 + x.len() as int;
    assert(all[next] == y.len());
    assert(all.subrange(next + 1, next + 1 + y.len() as int) =~= y);
}

/// The parts of a certification-authority record are its data in order: one
/// byte of flags, the tag behind its length, and the value up to the end.
pub proof fn lemma_authorization_survives_decoding(m: Seq<u8>, at: int, flags: u8, tag: Seq<char>, value: Seq<char>)
    requires
        0 <= at,
        encode_utf8(tag).len() <= 255,
        at + 2 + encode_utf8(tag).len() + encode_utf8(value).len() <= m.len(),
        m.subrange(at, at + 2 + encode_utf8(tag).len() + encode_utf8(value).len()) == seq![
            flags,
            encode_utf8(tag).len() as u8,
        ] + encode_utf8(tag) + encode_utf8(value),
    ensures
        decode(m, DnsRecordType::Caa, at, 2int + encode_utf8(tag).len() + encode_utf8(value).len()) == Ok::<
            Option<DnsRecordModel>,
            Seq<char>,
        >(Some(DnsRecordModel::Caa { flags, tag, value })),
{
    let x = encode_utf8(tag);
    let y = encode_utf8(value);
    let len = 2 + x.len() + y.len();
    let data = m.subrange(at, at + len);
    encode_utf8_valid_utf8(tag);
    encode_utf8_decode_utf8(tag);
    encode_utf8_valid_utf8(value);
    encode_utf8_decode_utf8(value);
    assert(data[0] == m[at] && data[1] == m[at + 1]);
    assert(m.subrange(at + 2, at + 2 + x.len()) =~= x) by {
        assert forall|k: int| 0 <= k < x.len() implies m[at + 2 + k] == x[k] by {
            assert(data[2 + k] == x[k]);
        }
    }
    assert(m.subrange(at + 2 + x.len(), at + len) =~= y) by {
        assert forall|k: int| 0 <= k < y.len() implies m[at + 2 + x.len() + k] == y[k] by {
            assert(data[2 + x.len() + k] == y[k]);
        }
    }
}

/// Whether `k` answers follow from `pos` on, each for the name at the start of
/// the question, of the type with code `code` and with `len` bytes of data.
pub open spec fn answers_in_a_row(m: Seq<u8>, pos: int, k: nat, code: u8, len: u8) -> bool {
    &&& 12 <= pos
    &&& pos + k * (12 + len) <= m.len()
    &&& forall|i: int|
        #![trigger m[pos + i * (12 + len)]]
        0 <= i < k ==> {
            let a = pos + i * (12 + len);
            &&& m[a] == 0xC0 && m[a + 1] == 12
            &&& m[a + 2] == 0 && m[a + 3] == code
            &&& m[a + 10] == 0 && m[a + 11] == len
        }
}

/// Answers in a row, behind the first one.
proof fn lemma_answers_in_a_row_step(m: Seq<u8>, pos: int, k: nat, code: u8, len: u8)
    requires
        answers_in_a_row(m, pos, k, code, len),
        k > 0,
    ensures
        m[pos] == 0xC0 && m[pos + 1] == 12 && m[pos + 2] == 0 && m[pos + 3] == code && m[pos + 10] == 0 && m[pos + 11]
            == len,
        pos + 12 + len <= m.len(),
        answers_in_a_row(m, pos + 12 + len, (k - 1) as nat, code, len),
{
    let w = 12 + len as int;
    assert(0 * w == 0) by (nonlinear_arith);
    assert(m[pos + 0 * (12 + len)] == 0xC0);
    assert(k * w == w + (k - 1) * w) by (nonlinear_arith);
    assert((k - 1) * w >= 0) by (nonlinear_arith)
        requires
            k >= 1,
            w >= 0,
    ;
    assert forall|i: int| #![trigger m[pos + w + i * (12 + len)]] 0 <= i < k - 1 implies {
        let a = pos + w + i * (12 + len);
        &&& m[a] == 0xC0 && m[a + 1] == 12
        &&& m[a + 2] == 0 && m[a + 3] == code
        &&& m[a + 10] == 0 && m[a + 11] == len
    } by {
        assert((i + 1) * w == w + i * w) by (nonlinear_arith);
        assert(m[pos + (i + 1) * (12 + len)] == 0xC0);
    }
}

/// Address answers in a row are decoded one by one.
#[verifier::rlimit(60)]
proof fn lemma_address_answers(m: Seq<u8>, pos: int, k: nat, want: DnsRecordType, code: u8, len: u8)
    requires
        (want == DnsRecordType::A && code == 1 && len == 4) || (want == DnsRecordType::Aaaa && code == 28 && len == 16),
        answers_in_a_row(m, pos, k, code, len),
        valid_walk(m, 12, 0) is Ok,
    ensures
        answers(m, pos, k, want) matches Ok(a) && {
            &&& a.records.len() == k
            &&& forall|i: int|
                #![trigger a.records[i]]
                0 <= i < k ==> decode(m, want, pos + i * (12 + len) + 12, len as int) == Ok::<
                    Option<DnsRecordModel>,
                    Seq<char>,
                >(Some(a.records[i]))
            &&& (a.ttl is None <==> k == 0)
            &&& k > 0 ==> a.ttl->0 == m[pos + 6] * 16777216 + m[pos + 7] * 65536 + m[pos + 8] * 256 + m[pos + 9]
        },
    decreases k,
{
    if k > 0 {
        let w = 12 + len as int;
        lemma_answers_in_a_row_step(m, pos, k, code, len);
        lemma_address_answers(m, pos + 12 + len, (k - 1) as nat, want, code, len);
        let rest = answers(m, pos + 12 + len, (k - 1) as nat, want)->Ok_0;
        assert(skip_walk(m, pos) == Ok::<int, Seq<char>>(pos + 2));
        let a = answers(m, pos, k, want)->Ok_0;
        let first = decode(m, want, pos + 12, len as int)->Ok_0->0;
        assert(a.records =~= seq![first] + rest.records);
        assert forall|i: int| #![trigger a.records[i]] 0 <= i < k implies decode(
            m,
            want,
            pos + i * (12 + len) + 12,
            len as int,
        ) == Ok::<Option<DnsRecordModel>, Seq<char>>(Some(a.records[i])) by {
            if i == 0 {
                assert(0 * w == 0) by (nonlinear_arith);
            } else {
                assert(a.records[i] == rest.records[i - 1]);
                assert(i * w == w + (i - 1) * w) by (nonlinear_arith);
            }
        }
    }
}

/// A name that stands behind the header is well formed wherever it is pointed
/// to from.
proof fn lemma_question_name_is_valid(m: Seq<u8>, host: Seq<char>, t: DnsRecordType)
    requires
        query(host, t) is Ok,
        m.len() >= query(host, t)->Ok_0.len(),
        m.subrange(12, query(host, t)->Ok_0.len() as int) == query(host, t)->Ok_0.skip(12),
    ensures
        valid_walk(m, 12, 0) is Ok,
        skip_walk(m, 12) == Ok::<int, Seq<char>>(query(host, t)->Ok_0.len() - 4),
{
    let q = query(host, t)->Ok_0;
    let labels = labels_of(host);
    let wire = labels_wire(labels);
    let echoed = m.subrange(12, q.len() as int);
    assert forall|i: int| 12 <= i < q.len() implies m[i] == q[i] by {
        assert(echoed[i - 12] == q.skip(12)[i - 12]);
    }
    assert(m.subrange(12, 12int + wire.len()) =~= wire);
    lemma_walk_reads_labels(m, 12, 0, labels);
    lemma_walk_reads_labels(m, 12, 1, labels);
    lemma_walk_is_valid(m, 12, 1);
    lemma_skip_agrees_with_read(m, 12);
}

/// Address answers behind an echoed question are decoded one by one.
#[verifier::rlimit(60)]
proof fn lemma_reply(m: Seq<u8>, host: Seq<char>, want: DnsRecordType, k: nat, code: u8, len: u8)
    requires
        (want == DnsRecordType::A && code == 1 && len == 4) || (want == DnsRecordType::Aaaa && code == 28 && len == 16),
        query(host, want) is Ok,
        m.len() >= query(host, want)->Ok_0.len(),
        m.subrange(12, query(host, want)->Ok_0.len() as int) == query(host, want)->Ok_0.skip(12),
        m[4] * 256 + m[5] == 1,
        m[6] * 256 + m[7] == k,
        answers_in_a_row(m, query(host, want)->Ok_0.len() as int, k, code, len),
    ensures
        response(m, want) matches Ok(r) && {
            let n = query(host, want)->Ok_0.len() as int;
            &&& r.rcode < 16 && (m[3] - r.rcode) % 16 == 0
            &&& r.records.len() == k
            &&& (r.ttl is None <==> k == 0)
            &&& k > 0 ==> r.ttl->0 == m[n + 6] * 16777216 + m[n + 7] * 65536 + m[n + 8] * 256 + m[n + 9]
            &&& forall|i: int|
                #![trigger r.records[i]]
                0 <= i < k ==> decode(m, want, n + i * (12 + len) + 12, len as int) == Ok::<
                    Option<DnsRecordModel>,
                    Seq<char>,
                >(Some(r.records[i]))
        },
{
    let n = query(host, want)->Ok_0.len() as int;
    lemma_question_name_is_valid(m, host, want);
    assert(n >= 17);
    assert(past_questions(m, 12, 1) == Ok::<int, Seq<char>>(n)) by {
        reveal_with_fuel(past_questions, 2);
    }
    lemma_address_answers(m, n, k, want, code, len);
}

/// A reply is read as it was sent. Take the IPv4 query for a host, echoed behind
/// a reply's header, and behind it any number of answers that point back at the
/// question's name. The records are those answers in their order, each with the
/// address that its data spells out; the time-to-live is that of the first; the
/// response code is the low half of the header's fourth byte.
#[verifier::rlimit(60)]
pub proof fn lemma_ipv4_addresses_of_a_reply(m: Seq<u8>, host: Seq<char>, k: nat)
    requires
        query(host, DnsRecordType::A) is Ok,
        m.len() >= query(host, DnsRecordType::A)->Ok_0.len(),
        m.subrange(12, query(host, DnsRecordType::A)->Ok_0.len() as int) == query(
            host,
            DnsRecordType::A,
        )->Ok_0.skip(12),
        m[4] * 256 + m[5] == 1,
        m[6] * 256 + m[7] == k,
        answers_in_a_row(m, query(host, DnsRecordType::A)->Ok_0.len() as int, k, 1, 4),
    ensures
        response(m, DnsRecordType::A) matches Ok(r) && {
            let n = query(host, DnsRecordType::A)->Ok_0.len() as int;
            &&& r.rcode < 16 && (m[3] - r.rcode) % 16 == 0
            &&& r.records.len() == k
            &&& (r.ttl is None <==> k == 0)
            &&& k > 0 ==> r.ttl->0 == m[n + 6] * 16777216 + m[n + 7] * 65536 + m[n + 8] * 256 + m[n + 9]
            &&& forall|i: int|
                #![trigger r.records[i]]
                0 <= i < k ==> {
                    let a = n + i * 16 + 12;
                    r.records[i] == DnsRecordModel::A(Ipv4Addr { a: m[a], b: m[a + 1], c: m[a + 2], d: m[a + 3] })
                }
        },
{
    lemma_reply(m, host, DnsRecordType::A, k, 1, 4);
}

/// A reply is read as it was sent. Take the IPv6 query for a host, echoed behind
/// a reply's header, and behind it any number of answers that point back at the
/// question's name. The records are those answers in their order, each with the
/// address that its data spells out; the time-to-live is that of the first; the
/// response code is the low half of the header's fourth byte.
#[verifier::rlimit(60)]
pub proof fn lemma_ipv6_addresses_of_a_reply(m: Seq<u8>, host: Seq<char>, k: nat)
    requires
        query(host, DnsRecordType::Aaaa) is Ok,
        m.len() >= query(host, DnsRecordType::Aaaa)->Ok_0.len(),
        m.subrange(12, query(host, DnsRecordType::Aaaa)->Ok_0.len() as int) == query(
            host,
            DnsRecordType::Aaaa,
        )->Ok_0.skip(12),
        m[4] * 256 + m[5] == 1,
        m[6] * 256 + m[7] == k,
        answers_in_a_row(m, query(host, DnsRecordType::Aaaa)->Ok_0.len() as int, k, 28, 16),
    ensures
        response(m, DnsRecordType::Aaaa) matches Ok(r) && {
            let n = query(host, DnsRecordType::Aaaa)->Ok_0.len() as int;
            &&& r.rcode < 16 && (m[3] - r.rcode) % 16 == 0
            &&& r.records.len() == k
            &&& (r.ttl is None <==> k == 0)
            &&& k > 0 ==> r.ttl->0 == m[n + 6] * 16777216 + m[n + 7] * 65536 + m[n + 8] * 256 + m[n + 9]
            &&& forall|i: int|
                #![trigger r.records[i]]
                0 <= i < k ==> {
                    let a = n + i * 28 + 12;
                    r.records[i] matches DnsRecordModel::Aaaa(ip) && ip.g0 == m[a] * 256 + m[a + 1] && ip.g1 == m[a + 2] * 256
                        + m[a + 3] && ip.g2 == m[a + 4] * 256 + m[a + 5] && ip.g3 == m[a + 6] * 256 + m[a + 7] && ip.g4
                        == m[a + 8] * 256 + m[a + 9] && ip.g5 == m[a + 10] * 256 + m[a + 11] && ip.g6 == m[a + 12] * 256
                        + m[a + 13] && ip.g7 == m[a + 14] * 256 + m[a + 15]
                }
        },
{
    lemma_reply(m, host, DnsRecordType::Aaaa, k, 28, 16);
}

/// A message without answers has no records and no time-to-live, and an answer
/// of another type than the wanted one adds neither.
pub proof fn lemma_other_answers_do_not_count(m: Seq<u8>, host: Seq<char>, t: DnsRecordType, want: DnsRecordType)
    requires
        query(host, t) is Ok,
        m.len() >= query(host, t)->Ok_0.len() + 12,
        m.subrange(12, query(host, t)->Ok_0.len() as int) == query(host, t)->Ok_0.skip(12),
        m[4] * 256 + m[5] == 1,
        m[6] * 256 + m[7] == 1,
        ({
            let n = query(host, t)->Ok_0.len() as int;
            &&& m[n] == 0xC0 && m[n + 1] == 12
            &&& m[n + 2] * 256 + m[n + 3] != wire_code(want)
            &&& n + 12 + m[n + 10] * 256 + m[n + 11] <= m.len()
        }),
    ensures
        response(m, want) matches Ok(r) && r.records.len() == 0 && r.ttl is None,
{
    let n = query(host, t)->Ok_0.len() as int;
    lemma_question_name_is_valid(m, host, t);
    reveal_with_fuel(past_questions, 2);
    reveal_with_fuel(answers, 2);
    assert(skip_walk(m, n) == Ok::<int, Seq<char>>(n + 2));
}

/// A query is a standard query that asks for recursion: its second byte pair is
/// the recursion flag alone, it has one question and no other section, and the
/// question is of the internet class.
pub proof fn lemma_query_header_asks_for_recursion(host: Seq<char>, t: DnsRecordType)
    requires
        query(host, t) is Ok,
    ensures
        ({
            let q = query(host, t)->Ok_0;
            let n = q.len() as int;
            &&& n >= 17
            &&& q[0] == 0 && q[1] == 0
            &&& q[2] == 1 && q[3] == 0
            &&& q[4] == 0 && q[5] == 1
            &&& forall|i: int| 6 <= i < 12 ==> q[i] == 0
            &&& q[n - 5] == 0
            &&& q[n - 2] == 0 && q[n - 1] == 1
            &&& t == DnsRecordType::A ==> q[n - 4] == 0 && q[n - 3] == 1
            &&& t == DnsRecordType::Aaaa ==> q[n - 4] == 0 && q[n - 3] == 28
            &&& t == DnsRecordType::Caa ==> q[n - 4] == 1 && q[n - 3] == 1
        }),
{
}

/// The text of a start of authority has its five numbers, each behind its name and
/// in their order.
pub proof fn lemma_authority_text(mname: Seq<char>, rname: Seq<char>, f: Seq<int>)
    ensures
        has_text(soa_text(mname, rname, f), mname + " "@ + rname + " serial "@ + signed(f[0]) + " refresh "@),
        has_text(soa_text(mname, rname, f), " refresh "@ + signed(f[1]) + " retry "@),
        has_text(soa_text(mname, rname, f), " retry "@ + signed(f[2]) + " expire "@),
        has_text(soa_text(mname, rname, f), " expire "@ + signed(f[3]) + " minimum "@),
        has_text(soa_text(mname, rname, f), " minimum "@ + signed(f[4])),
{
    broadcast use group_occurrence;

    let all = soa_text(mname, rname, f);
    let a = mname + " "@ + rname + " serial "@ + signed(f[0]);
    let b = " refresh "@ + signed(f[1]);
    let c = " retry "@ + signed(f[2]);
    let d = " expire "@ + signed(f[3]);
    let e = " minimum "@ + signed(f[4]);
    assert(all =~= a + b + c + d + e);
    assert(all =~= (a + " refresh "@) + (signed(f[1]) + c + d + e));
    assert(all =~= a + (b + " retry "@) + (signed(f[2]) + d + e));
    assert(all =~= a + b + (c + " expire "@) + (signed(f[3]) + e));
    assert(all =~= a + b + c + (d + " minimum "@) + signed(f[4]));
}

/// The numbers of a start of authority are the five four-byte groups behind its
/// two names: serial, refresh, retry, expire and minimum.
pub proof fn lemma_authority_survives_decoding(m: Seq<u8>, at: int, len: int)
    ensures
        decode(m, DnsRecordType::Soa, at, len) matches Ok(Some(r)) ==> {
            &&& walk(m, at, 0) matches Ok(mname)
            &&& walk(m, mname.end, 0) matches Ok(rname)
            &&& rname.end + 20 <= m.len()
            &&& r == DnsRecordModel::Soa(
                soa_text(
                    dotted(mname.labels),
                    dotted(rname.labels),
                    Seq::new(
                        5,
                        |i: int|
                            ((m[rname.end + 4 * i] * 256 + m[rname.end + 4 * i + 1]) * 256 + m[rname.end + 4 * i + 2])
                                * 256 + m[rname.end + 4 * i + 3],
                    ),
                ),
            )
        },
{
    if let Ok(Some(r)) = decode(m, DnsRecordType::Soa, at, len) {
        let mname = walk(m, at, 0)->Ok_0;
        let e = walk(m, mname.end, 0)->Ok_0.end;
        let f = Seq::new(
            5,
            |i: int| ((m[e + 4 * i] * 256 + m[e + 4 * i + 1]) * 256 + m[e + 4 * i + 2]) * 256 + m[e + 4 * i + 3],
        );
        assert(f =~= seq![be32(m, e), be32(m, e + 4), be32(m, e + 8), be32(m, e + 12), be32(m, e + 16)]);
    }
}

} // verus!
