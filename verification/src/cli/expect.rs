//! The reliability expectations of a repeated probe: an accepted status set
//! and a least success rate.

use super::tables::{count_token, render_count_token};
use crate::model::decimal::{closest_written, parsed};
use crate::model::double::{lemma_nearest_of_hundredth, nearest};
use crate::model::{Double, ProbeResult, Rate, StatusCount};
use crate::text::{
    all_digits, chars_of, dec, dec_text, dec_value, digit_char, digit_value, find_char, first_at, glue, glue3, is_digit,
    join, join_texts, lemma_dec_reads_back, lemma_first_at, lemma_first_at_bounds, lower, lowered, push_text, same_chars,
    slice_of, texts, trim, trim_back, trim_front, trimmed,
};
use vstd::arithmetic::power2::{lemma2_to64, lemma_pow2_pos, pow2};
use vstd::prelude::*;

verus! {

// --- statuses ----------------------------------------------------------------------------

/// A set of accepted statuses: one status, or a class like `2xx`.
#[derive(Debug, Clone, Copy, PartialEq, Eq, Structural)]
pub enum StatusSpec {
    /// Exactly this status.
    Exact(u16),
    /// Every status whose hundreds are this number.
    Class(u16),
}

impl StatusSpec {
    /// Whether a status is accepted.
    pub open spec fn accepts(self, status: u16) -> bool {
        match self {
            StatusSpec::Exact(s) => status == s,
            StatusSpec::Class(c) => status / 100 == c,
        }
    }

    /// Whether a status is accepted.
    pub fn matches(&self, status: u16) -> (r: bool)
        ensures
            r == self.accepts(status),
    {
        match self {
            StatusSpec::Exact(s) => status == *s,
            StatusSpec::Class(c) => status / 100 == *c,
        }
    }

    /// The set as text: `200` or `2xx`.
    pub open spec fn text(self) -> Seq<char> {
        match self {
            StatusSpec::Exact(s) => dec(s as nat),
            StatusSpec::Class(c) => dec(c as nat) + "xx"@,
        }
    }

    /// The set as text.
    pub fn describes(&self) -> (out: String)
        ensures
            out@ == self.text(),
    {
        match self {
            StatusSpec::Exact(s) => dec_text(*s as u64),
            StatusSpec::Class(c) => glue(dec_text(*c as u64).as_str(), "xx"),
        }
    }
}

/// The value of a text of three digits.
pub open spec fn three_digits(s: Seq<char>) -> nat {
    digit_value(s[0]) * 100 + digit_value(s[1]) * 10 + digit_value(s[2])
}

/// The set a text stands for: three digits from 100 to 599, or a digit from 1
/// to 5 before `xx`.
pub open spec fn status_spec(spec: Seq<char>) -> Option<StatusSpec> {
    let s = trim(spec);
    if s.len() == 3 && '1' <= s[0] && s[0] <= '5' {
        if lower(s.skip(1)) == lower("xx"@) {
            Some(StatusSpec::Class(digit_value(s[0]) as u16))
        } else if is_digit(s[1]) && is_digit(s[2]) {
            Some(StatusSpec::Exact(three_digits(s) as u16))
        } else {
            None
        }
    } else {
        None
    }
}

/// Parse an `--expect-status` value.
pub fn parse_status_spec(spec: &str) -> (r: Result<StatusSpec, String>)
    ensures
        r matches Ok(s) ==> status_spec(spec@) == Some(s),
        r matches Err(e) ==> status_spec(spec@) is None && e@ == "invalid --expect-status '"@ + spec@
            + "': expected a status like 200 or a class like 2xx"@,
{
    let chars = chars_of(spec);
    let s = trimmed(chars.as_slice());
    if s.len() == 3 && '1' <= s[0] && s[0] <= '5' {
        let tail = slice_of(s.as_slice(), 1, 3);
        assert(tail@ =~= s@.skip(1));
        let class = lowered(chars_of("xx").as_slice());
        let first = (s[0] as u32 - '0' as u32) as u16;
        if same_chars(lowered(tail.as_slice()).as_slice(), class.as_slice()) {
            return Ok(StatusSpec::Class(first));
        }
        if '0' <= s[1] && s[1] <= '9' && '0' <= s[2] && s[2] <= '9' {
            let second = (s[1] as u32 - '0' as u32) as u16;
            let third = (s[2] as u32 - '0' as u32) as u16;
            return Ok(StatusSpec::Exact(first * 100 + second * 10 + third));
        }
    }
    Err(glue3("invalid --expect-status '", spec, "': expected a status like 200 or a class like 2xx"))
}

// --- rates -------------------------------------------------------------------------------

/// A number as written: nothing finite, or the digits of a decimal with the
/// position of its point.
pub enum Written {
    Special,
    Decimal { negative: bool, digits: Seq<char>, point: int },
}

/// The digits of a number without its sign.
pub open spec fn unsigned_part(s: Seq<char>) -> Seq<char> {
    if s.len() > 0 && (s[0] == '+' || s[0] == '-') {
        s.skip(1)
    } else {
        s
    }
}

/// Where the exponent of a number starts: at the first `e` or `E`.
pub open spec fn exponent_at(s: Seq<char>) -> int {
    first_at(lower(s), 'e')
}

/// The exponent of a number: nothing unless it is a signed run of digits.
pub open spec fn exponent_of(s: Seq<char>) -> Option<int> {
    let digits = unsigned_part(s);
    if digits.len() == 0 || !all_digits(digits) {
        None
    } else if s[0] == '-' {
        Some(-(dec_value(digits) as int))
    } else {
        Some(dec_value(digits) as int)
    }
}

/// The digits of a mantissa and the position of its point.
pub open spec fn mantissa_of(s: Seq<char>) -> Option<(Seq<char>, int)> {
    let i = first_at(s, '.');
    let whole = s.take(if i < s.len() {
        i
    } else {
        s.len() as int
    });
    let fraction = if i < s.len() {
        s.skip(i + 1)
    } else {
        Seq::empty()
    };
    let digits = whole + fraction;
    if digits.len() > 0 && all_digits(digits) {
        Some((digits, whole.len() as int))
    } else {
        None
    }
}

/// What a text is as a floating-point number.
pub open spec fn written(s: Seq<char>) -> Option<Written> {
    let rest = unsigned_part(s);
    let negative = s.len() > 0 && s[0] == '-';
    let e = exponent_at(rest);
    if lower(rest) == "inf"@ || lower(rest) == "infinity"@ || lower(rest) == "nan"@ {
        Some(Written::Special)
    } else if e >= rest.len() {
        match mantissa_of(rest) {
            Some((digits, point)) => Some(Written::Decimal { negative, digits, point }),
            None => None,
        }
    } else {
        match (mantissa_of(rest.take(e)), exponent_of(rest.skip(e + 1))) {
            (Some((digits, point)), Some(exp)) => Some(Written::Decimal { negative, digits, point: point + exp }),
            _ => None,
        }
    }
}

/// The threshold a text stands for, in double precision: a fraction in
/// `(0, 1]` or a percent in `(0, 100]`; else the complaint about it.
pub open spec fn threshold_of(spec: Seq<char>) -> Result<(nat, nat), Seq<char>> {
    let s = trim(spec);
    let percent = s.len() > 0 && s.last() == '%';
    let number = if percent {
        written(trim(s.drop_last()))
    } else {
        written(s)
    };
    match number {
        None => Err(
            "invalid --expect-rate '"@ + spec + "': expected a fraction like 0.97 or a percent like 97%"@,
        ),
        Some(w) => {
            let range = if percent {
                "invalid --expect-rate '"@ + spec + "': a percent must be in (0, 100]"@
            } else {
                "invalid --expect-rate '"@ + spec + "': a fraction must be in (0, 1], e.g. 0.97 for 97%"@
            };
            match w {
                Written::Special => Err(range),
                Written::Decimal { negative, digits, point } => {
                    let v = parsed(digits, point);
                    if negative || v.0 == 0 {
                        Err(range)
                    } else if percent {
                        if v.0 <= 100 * pow2(v.1) {
                            Ok(nearest(v.0, 100, v.1))
                        } else {
                            Err(range)
                        }
                    } else if v.0 <= pow2(v.1) {
                        Ok(v)
                    } else {
                        Err(range)
                    }
                },
            }
        },
    }
}

/// An exponent, or the side on which it is out of every reach.
enum Exponent {
    Exact(i128),
    Low,
    High,
}

/// Whether an exponent stands for a number; one out of reach is beyond any
/// length.
spec fn stands_for(e: Exponent, n: int) -> bool {
    match e {
        Exponent::Exact(x) => x == n && -0x4_0000_0000_0000_0000 < x < 0x4_0000_0000_0000_0000,
        Exponent::Low => n <= -0x2_0000_0000_0000_0000,
        Exponent::High => n >= 0x2_0000_0000_0000_0000,
    }
}

/// The value of digits, capped.
fn capped_value(s: &[char]) -> (v: u128)
    requires
        all_digits(s@),
    ensures
        v < 0x2_0000_0000_0000_0000 ==> v == dec_value(s@),
        v >= 0x2_0000_0000_0000_0000 ==> dec_value(s@) >= 0x2_0000_0000_0000_0000,
        v <= 0x2_0000_0000_0000_0000,
{
    let mut v: u128 = 0;
    assert(s@.take(0) =~= Seq::empty());
    for i in 0..s.len()
        invariant
            all_digits(s@),
            v < 0x2_0000_0000_0000_0000 ==> v == dec_value(s@.take(i as int)),
            v >= 0x2_0000_0000_0000_0000 ==> dec_value(s@.take(i as int)) >= 0x2_0000_0000_0000_0000,
            v <= 0x2_0000_0000_0000_0000,
    {
        assert(s@.take(i as int + 1).drop_last() =~= s@.take(i as int));
        assert(is_digit(s@[i as int]));
        if v < 0x2_0000_0000_0000_0000 {
            v = v * 10 + (s[i] as u32 - '0' as u32) as u128;
            if v > 0x2_0000_0000_0000_0000 {
                v = 0x2_0000_0000_0000_0000;
            }
        }
    }
    assert(s@.take(s@.len() as int) =~= s@);
    v
}

/// Whether every character is a digit.
fn digits_only(s: &[char]) -> (r: bool)
    ensures
        r == all_digits(s@),
{
    for i in 0..s.len()
        invariant
            forall|j: int| 0 <= j < i ==> is_digit(#[trigger] s@[j]),
    {
        if !('0' <= s[i] && s[i] <= '9') {
            assert(!is_digit(s@[i as int]));
            return false;
        }
    }
    true
}

/// A number without its sign.
fn strip_sign(s: &[char]) -> (out: Vec<char>)
    ensures
        out@ == unsigned_part(s@),
{
    if s.len() > 0 && (s[0] == '+' || s[0] == '-') {
        let out = slice_of(s, 1, s.len());
        assert(out@ =~= s@.skip(1));
        out
    } else {
        let out = slice_of(s, 0, s.len());
        assert(out@ =~= s@);
        out
    }
}

/// Parse the exponent of a number.
fn parse_exponent(s: &[char]) -> (r: Option<Exponent>)
    ensures
        r is Some == (exponent_of(s@) is Some),
        r matches Some(e) ==> stands_for(e, exponent_of(s@)->0),
{
    let digits = strip_sign(s);
    if digits.len() == 0 || !digits_only(digits.as_slice()) {
        return None;
    }
    let v = capped_value(digits.as_slice());
    if s[0] == '-' {
        if v >= 0x2_0000_0000_0000_0000 {
            Some(Exponent::Low)
        } else {
            Some(Exponent::Exact(-(v as i128)))
        }
    } else if v >= 0x2_0000_0000_0000_0000 {
        Some(Exponent::High)
    } else {
        Some(Exponent::Exact(v as i128))
    }
}

/// Parse a mantissa into its digits and the position of its point.
fn parse_mantissa(s: &[char]) -> (r: Option<(Vec<char>, usize)>)
    ensures
        r is Some == (mantissa_of(s@) is Some),
        r matches Some(m) ==> mantissa_of(s@) == Some((m.0@, m.1 as int)) && m.1 <= m.0@.len(),
{
    proof {
        lemma_first_at_bounds(s@, '.');
    }
    let mut digits: Vec<char>;
    let point: usize;
    match find_char(s, '.') {
        Some(i) => {
            digits = slice_of(s, 0, i);
            assert(digits@ =~= s@.take(i as int));
            point = i;
            let mut fraction = slice_of(s, i + 1, s.len());
            assert(fraction@ =~= s@.skip(i as int + 1));
            digits.append(&mut fraction);
        },
        None => {
            digits = slice_of(s, 0, s.len());
            assert(digits@ =~= s@.take(s@.len() as int));
            assert(digits@ =~= s@.take(s@.len() as int) + Seq::<char>::empty());
            point = s.len();
        },
    }
    if digits.len() > 0 && digits_only(digits.as_slice()) {
        Some((digits, point))
    } else {
        None
    }
}

/// A number as read.
enum Number {
    Special,
    Decimal { negative: bool, digits: Vec<char>, point: usize, exp: Exponent },
}

/// Whether a number as read is the number as written.
spec fn reads(n: Number, w: Written) -> bool {
    match n {
        Number::Special => w is Special,
        Number::Decimal { negative, digits, point, exp } => w matches Written::Decimal {
            negative: neg,
            digits: d,
            point: p,
        } && neg == negative && d == digits@ && all_digits(d) && stands_for(exp, p - point),
    }
}

/// Read a floating-point number.
fn read_number(s: &[char]) -> (r: Option<Number>)
    ensures
        r is Some == (written(s@) is Some),
        r matches Some(n) ==> reads(n, written(s@)->0),
{
    let negative = s.len() > 0 && s[0] == '-';
    let rest = strip_sign(s);
    let low = lowered(rest.as_slice());
    let inf = chars_of("inf");
    let infinity = chars_of("infinity");
    let nan = chars_of("nan");
    if same_chars(low.as_slice(), inf.as_slice()) || same_chars(low.as_slice(), infinity.as_slice()) || same_chars(
        low.as_slice(),
        nan.as_slice(),
    ) {
        return Some(Number::Special);
    }
    proof {
        lemma_first_at_bounds(low@, 'e');
    }
    match find_char(low.as_slice(), 'e') {
        None => match parse_mantissa(rest.as_slice()) {
            Some((digits, point)) => Some(Number::Decimal { negative, digits, point, exp: Exponent::Exact(0) }),
            None => None,
        },
        Some(e) => {
            let front = slice_of(rest.as_slice(), 0, e);
            let back = slice_of(rest.as_slice(), e + 1, rest.len());
            assert(front@ =~= rest@.take(e as int));
            assert(back@ =~= rest@.skip(e as int + 1));
            match (parse_mantissa(front.as_slice()), parse_exponent(back.as_slice())) {
                (Some((digits, point)), Some(exp)) => Some(Number::Decimal { negative, digits, point, exp }),
                _ => None,
            }
        },
    }
}

/// The double of a number as read, where it is in reach.
fn value_of(d: &[char], point: usize, exp: &Exponent, Ghost(p): Ghost<int>) -> (r: Option<Double>)
    requires
        all_digits(d@),
        stands_for(*exp, p - point),
    ensures
        r is None ==> parsed(d@, p).0 == 0 || parsed(d@, p).0 > 100 * pow2(parsed(d@, p).1),
        r matches Some(x) ==> x.is(parsed(d@, p)) && x.wf() && x.mantissa <= 0x20_0000_0000_0000,
{
    let at: i128 = match exp {
        Exponent::Exact(x) => point as i128 + *x,
        Exponent::Low => -0x2_0000_0000_0000_0000,
        Exponent::High => 0x2_0000_0000_0000_0000,
    };
    closest_written(d, at, Ghost(p))
}

/// Parse an `--expect-rate` threshold: a success-rate fraction in `(0, 1]`
/// (`0.97`, `.97`, `1`) or a percent (`97%`, `100%`). A zero threshold would
/// make every run pass vacuously, so it is rejected along with malformed text.
pub fn parse_expect_rate(spec: &str) -> (r: Result<Double, String>)
    ensures
        r matches Ok(min) ==> (threshold_of(spec@) matches Ok(v) && min.is(v)) && min.wf(),
        r matches Err(e) ==> threshold_of(spec@) == Err::<(nat, nat), Seq<char>>(e@),
{
    let chars = chars_of(spec);
    let s = trimmed(chars.as_slice());
    let percent = s.len() > 0 && s[s.len() - 1] == '%';
    let number = if percent {
        let front = slice_of(s.as_slice(), 0, s.len() - 1);
        assert(front@ =~= s@.drop_last());
        let inner = trimmed(front.as_slice());
        read_number(inner.as_slice())
    } else {
        read_number(s.as_slice())
    };
    let ghost w = if percent {
        written(trim(s@.drop_last()))
    } else {
        written(s@)
    };
    match number {
        None => Err(
            glue3("invalid --expect-rate '", spec, "': expected a fraction like 0.97 or a percent like 97%"),
        ),
        Some(n) => {
            let range = if percent {
                glue3("invalid --expect-rate '", spec, "': a percent must be in (0, 100]")
            } else {
                glue3("invalid --expect-rate '", spec, "': a fraction must be in (0, 1], e.g. 0.97 for 97%")
            };
            match n {
                Number::Special => Err(range),
                Number::Decimal { negative, digits, point, exp } => {
                    let ghost p = w->0->point;
                    if negative {
                        return Err(range);
                    }
                    let limit = Double {
                        mantissa: if percent {
                            100
                        } else {
                            1
                        },
                        places: 0,
                    };
                    proof {
                        lemma2_to64();
                        lemma_pow2_pos(parsed(digits@, p).1);
                    }
                    match value_of(digits.as_slice(), point, &exp, Ghost(p)) {
                        Some(v) => {
                            if v.mantissa == 0 || limit.is_below(&v) {
                                Err(range)
                            } else if percent {
                                Ok(Double::closest(v.mantissa, 100, v.places))
                            } else {
                                Ok(v)
                            }
                        },
                        None => Err(range),
                    }
                },
            }
        },
    }
}

// --- expectations ------------------------------------------------------------------------

/// The user-asserted reliability expectations of a repeated probe, evaluated
/// per address against the aggregate.
#[derive(Debug, Clone, Copy)]
pub struct ProbeExpectation {
    /// Every observed HTTP status must be in this set.
    pub status: Option<StatusSpec>,
    /// The success rate must be at least this threshold.
    pub rate: Option<Double>,
}

/// The status counts outside a set.
pub open spec fn outside(spec: StatusSpec, counts: Seq<StatusCount>) -> Seq<Seq<char>>
    decreases counts.len(),
{
    if counts.len() == 0 {
        Seq::empty()
    } else {
        let front = outside(spec, counts.drop_last());
        if spec.accepts(counts.last().status) {
            front
        } else {
            front.push(count_token(counts.last()))
        }
    }
}

/// Why the observed statuses violate a set. A repeat whose attempts produced
/// no response at all carries nothing to assert on, which is a violation.
pub open spec fn status_reasons(spec: Option<StatusSpec>, counts: Seq<StatusCount>) -> Seq<Seq<char>> {
    match spec {
        None => Seq::empty(),
        Some(set) => if counts.len() == 0 {
            seq!["no response to assert on (every attempt failed)"@]
        } else if outside(set, counts).len() > 0 {
            seq!["statuses {"@ + join(outside(set, counts), ", "@) + "} outside expected "@ + set.text()]
        } else {
            Seq::empty()
        },
    }
}

/// Why a success rate violates a threshold.
pub open spec fn rate_reasons(threshold: Option<Double>, rate: Rate) -> Seq<Seq<char>> {
    match threshold {
        None => Seq::empty(),
        Some(min) => if rate.double().below(min) {
            seq!["success rate "@ + rate.percent() + "% (expected ≥ "@ + min.percent() + "%)"@]
        } else {
            Seq::empty()
        },
    }
}

/// Why an aggregate violates expectations.
pub open spec fn reasons(e: ProbeExpectation, r: ProbeResult) -> Seq<Seq<char>> {
    status_reasons(e.status, r.status_counts@) + rate_reasons(e.rate, r.success_rate)
}

impl ProbeExpectation {
    /// Whether the threshold is a double.
    pub open spec fn wf(self) -> bool {
        self.rate matches Some(min) ==> min.wf()
    }

    /// The status counts outside a set.
    fn list_outside(spec: &StatusSpec, counts: &[StatusCount]) -> (out: Vec<String>)
        ensures
            texts(out@) == outside(*spec, counts@),
            out@.len() == outside(*spec, counts@).len(),
    {
        let mut out: Vec<String> = Vec::new();
        assert(texts(out@) =~= Seq::empty());
        for i in 0..counts.len()
            invariant
                texts(out@) == outside(*spec, counts@.take(i as int)),
        {
            assert(counts@.take(i as int + 1).drop_last() =~= counts@.take(i as int));
            if !spec.matches(counts[i].status) {
                push_text(&mut out, render_count_token(&counts[i]));
            }
        }
        assert(counts@.take(counts@.len() as int) =~= counts@);
        assert(texts(out@).len() == out@.len());
        out
    }

    /// The reason this per-address aggregate violates the asserted
    /// expectations, or `None` when it satisfies them all.
    pub fn violation(&self, r: &ProbeResult) -> (out: Option<String>)
        requires
            self.wf(),
            r.success_rate.wf(),
        ensures
            out is None == (reasons(*self, *r).len() == 0),
            out matches Some(text) ==> text@ == r.destination.text() + ": "@ + join(reasons(*self, *r), ", "@),
    {
        let mut found: Vec<String> = Vec::new();
        assert(texts(found@) =~= Seq::empty());
        match &self.status {
            Some(spec) => {
                if r.status_counts.len() == 0 {
                    push_text(&mut found, "no response to assert on (every attempt failed)".to_owned());
                } else {
                    let bad = Self::list_outside(spec, r.status_counts.as_slice());
                    if bad.len() > 0 {
                        let mut text = glue3(
                            "statuses {",
                            join_texts(bad.as_slice(), ", ").as_str(),
                            "} outside expected ",
                        );
                        text.append(spec.describes().as_str());
                        push_text(&mut found, text);
                    }
                }
            },
            None => {},
        }
        assert(texts(found@) =~= status_reasons(self.status, r.status_counts@));
        match &self.rate {
            Some(min) => {
                if r.success_rate.value().is_below(min) {
                    let mut text = glue3("success rate ", r.success_rate.percent_text().as_str(), "% (expected ≥ ");
                    text.append(min.percent_text().as_str());
                    text.append("%)");
                    push_text(&mut found, text);
                }
            },
            None => {},
        }
        assert(texts(found@) =~= reasons(*self, *r));
        assert(texts(found@).len() == found@.len());
        if found.len() == 0 {
            None
        } else {
            Some(glue3(r.destination.to_text().as_str(), ": ", join_texts(found.as_slice(), ", ").as_str()))
        }
    }
}

/// The complaint about expectation values on a protocol, where there is one. A
/// status can only be asserted of the HTTP protocols.
pub open spec fn expectation_error(status: Option<&str>, rate: Option<&str>, is_http: bool) -> Option<Seq<char>> {
    if status is Some && !is_http {
        Some(
            "--expect-status only applies to --protocol http|http2|http3 (a tcp/tls repeat has no HTTP status to assert on)"@,
        )
    } else if status matches Some(s) && status_spec(s@) is None {
        Some(
            "invalid --expect-status '"@ + status->0@ + "': expected a status like 200 or a class like 2xx"@,
        )
    } else {
        match rate {
            Some(t) => match threshold_of(t@) {
                Err(e) => Some(e),
                Ok(_) => None,
            },
            None => None,
        }
    }
}

/// Parse the `--expect-status` and `--expect-rate` values; nothing when neither
/// is given.
pub fn parse_probe_expectation(status: Option<&str>, rate: Option<&str>, is_http: bool) -> (r: Result<
    Option<ProbeExpectation>,
    String,
>)
    ensures
        r is Ok == (expectation_error(status, rate, is_http) is None),
        r matches Err(e) ==> expectation_error(status, rate, is_http) == Some(e@),
        r matches Ok(found) ==> (found is None) == (status is None && rate is None),
        r matches Ok(Some(x)) ==> {
            &&& x.wf()
            &&& x.status == (match status {
                Some(s) => status_spec(s@),
                None => None,
            })
            &&& (x.rate is Some) == (rate is Some)
            &&& (rate matches Some(t) ==> threshold_of(t@) is Ok && x.rate->0.is(threshold_of(t@)->Ok_0))
        },
{
    let status_set: Option<StatusSpec> = match status {
        Some(s) => {
            if !is_http {
                return Err(
                    "--expect-status only applies to --protocol http|http2|http3 (a tcp/tls repeat has no HTTP status to assert on)".to_owned(),
                );
            }
            match parse_status_spec(s) {
                Ok(set) => Some(set),
                Err(e) => {
                    return Err(e);
                },
            }
        },
        None => None,
    };
    let threshold: Option<Double> = match rate {
        Some(t) => match parse_expect_rate(t) {
            Ok(min) => Some(min),
            Err(e) => {
                return Err(e);
            },
        },
        None => None,
    };
    if status_set.is_none() && threshold.is_none() {
        Ok(None)
    } else {
        Ok(Some(ProbeExpectation { status: status_set, rate: threshold }))
    }
}

// --- laws --------------------------------------------------------------------------------

/// One status is accepted by itself alone; a class accepts the hundred statuses
/// that start with its digit.
pub proof fn lemma_accepted_statuses(s: u16, c: u16, status: u16)
    ensures
        StatusSpec::Exact(s).accepts(status) <==> status == s,
        StatusSpec::Class(c).accepts(status) <==> 100 * c <= status < 100 * c + 100,
{
}

/// A status from 100 to 599 is read back from its numeral and a class from its
/// digit before two letters of either case; no other number is a status.
pub proof fn lemma_status_reads_back(n: nat, c: nat)
    requires
        n < 1000,
        c < 10,
    ensures
        n >= 100 ==> status_spec(dec(n)) == (if n < 600 {
            Some(StatusSpec::Exact(n as u16))
        } else {
            None
        }),
        n < 100 ==> status_spec(dec(n)) is None,
        status_spec(dec(c) + "xx"@) == (if 1 <= c <= 5 {
            Some(StatusSpec::Class(c as u16))
        } else {
            None
        }),
{
    reveal_with_fuel(dec, 4);
    reveal_with_fuel(trim_front, 2);
    reveal_with_fuel(trim_back, 2);
    reveal_strlit("xx");
    let s = dec(n);
    lemma_dec_reads_back(n);
    assert(trim(s) == s);
    if n >= 100 {
        assert(s.len() == 3);
        assert(s[0] == digit_char(n / 100));
        assert(s[1] == digit_char((n / 10) % 10));
        assert(s[2] == digit_char(n % 10));
        assert(lower(s.skip(1))[0] == s[1]);
        assert(lower("xx"@)[0] == 'x');
        assert(lower(s.skip(1)) != lower("xx"@));
        assert(digit_value(s[0]) == n / 100 && digit_value(s[1]) == (n / 10) % 10 && digit_value(s[2]) == n % 10);
        assert(three_digits(s) == n);
    } else {
        assert(s.len() < 3);
    }
    let k = dec(c) + "xx"@;
    assert(k.len() == 3 && k[0] == digit_char(c) && k[1] == 'x' && k[2] == 'x');
    assert(trim(k) == k);
    assert(k.skip(1) =~= "xx"@);
}

/// The statuses outside a set are listed exactly when one is not accepted.
proof fn lemma_outside(spec: StatusSpec, counts: Seq<StatusCount>)
    ensures
        outside(spec, counts).len() > 0 <==> exists|i: int|
            0 <= i < counts.len() && !spec.accepts((#[trigger] counts[i]).status),
    decreases counts.len(),
{
    if counts.len() > 0 {
        let front = counts.drop_last();
        let last = counts.len() - 1;
        lemma_outside(spec, front);
        if !spec.accepts(counts[last].status) {
            assert(!spec.accepts(counts[last].status));
        }
        if exists|i: int| 0 <= i < front.len() && !spec.accepts((#[trigger] front[i]).status) {
            let i = choose|i: int| 0 <= i < front.len() && !spec.accepts((#[trigger] front[i]).status);
            assert(!spec.accepts(counts[i].status));
        }
        if exists|i: int| 0 <= i < counts.len() && !spec.accepts((#[trigger] counts[i]).status) {
            let i = choose|i: int| 0 <= i < counts.len() && !spec.accepts((#[trigger] counts[i]).status);
            if i < last {
                assert(!spec.accepts(front[i].status));
            }
        }
    }
}

/// An aggregate meets expectations exactly when, where statuses are expected, a
/// response was seen and every status seen is accepted, and, where a rate is
/// expected, the success rate is not below it.
pub proof fn lemma_expectations_met(e: ProbeExpectation, r: ProbeResult)
    ensures
        reasons(e, r).len() == 0 <==> {
            &&& e.status matches Some(set) ==> r.status_counts@.len() > 0 && forall|i: int|
                0 <= i < r.status_counts@.len() ==> set.accepts((#[trigger] r.status_counts@[i]).status)
            &&& e.rate matches Some(min) ==> r.success_rate.double().mantissa * pow2(min.places as nat) >= min.mantissa
                * pow2(r.success_rate.double().places as nat)
        },
{
    match e.status {
        Some(set) => lemma_outside(set, r.status_counts@),
        None => {},
    }
}

/// A threshold that is accepted is at most one.
pub proof fn lemma_threshold_is_at_most_one(spec: Seq<char>)
    ensures
        threshold_of(spec) matches Ok(v) ==> v.0 <= pow2(v.1),
{
    let s = trim(spec);
    let percent = s.len() > 0 && s.last() == '%';
    let number = if percent {
        written(trim(s.drop_last()))
    } else {
        written(s)
    };
    if threshold_of(spec) is Ok && percent {
        let v = parsed(number->0->digits, number->0->point);
        lemma_nearest_of_hundredth(v.0, v.1);
    }
}

/// Expectations are accepted exactly when a status expectation comes with an HTTP
/// protocol and can be read, and a rate expectation can be read.
pub proof fn lemma_accepted_expectations(status: Option<&str>, rate: Option<&str>, is_http: bool)
    ensures
        expectation_error(status, rate, is_http) is None <==> {
            &&& status matches Some(s) ==> is_http && status_spec(s@) is Some
            &&& rate matches Some(t) ==> threshold_of(t@) is Ok
        },
{
}

/// A text that starts with a digit names no special value.
proof fn lemma_digits_are_no_name(s: Seq<char>)
    requires
        s.len() > 0,
        is_digit(s[0]),
    ensures
        lower(s) != "inf"@,
        lower(s) != "infinity"@,
        lower(s) != "nan"@,
        unsigned_part(s) == s,
{
    reveal_strlit("inf");
    reveal_strlit("infinity");
    reveal_strlit("nan");
    assert(lower(s)[0] == s[0]);
    assert("inf"@[0] == 'i' && "infinity"@[0] == 'i' && "nan"@[0] == 'n');
}

/// How a rate is written: digits, perhaps with a point among them, perhaps with an
/// exponent that moves the point to the right, or with a minus to the left.
pub proof fn lemma_written_numbers(a: Seq<char>, b: Seq<char>, k: nat)
    requires
        a.len() > 0,
        all_digits(a),
        all_digits(b),
    ensures
        written(a) == Some(Written::Decimal { negative: false, digits: a, point: a.len() as int }),
        written(a + seq!['.'] + b) == Some(
            Written::Decimal { negative: false, digits: a + b, point: a.len() as int },
        ),
        written(a + seq!['e'] + dec(k)) == Some(
            Written::Decimal { negative: false, digits: a, point: (a.len() + k) as int },
        ),
        written(a + seq!['e', '-'] + dec(k)) == Some(
            Written::Decimal { negative: false, digits: a, point: a.len() - k },
        ),
{
    assert(is_digit(a[0]));
    lemma_mantissa(a);
    lemma_digits_are_no_name(a);
    assert forall|j: int| 0 <= j < a.len() implies lower(a)[j] != 'e' by {
        assert(is_digit(a[j]));
    }
    lemma_first_at(lower(a), 'e', a.len() as int);
    let p = a + seq!['.'] + b;
    assert(p[0] == a[0]);
    lemma_digits_are_no_name(p);
    assert forall|j: int| 0 <= j < p.len() implies lower(p)[j] != 'e' by {
        if j < a.len() {
            assert(is_digit(a[j]));
        } else if j > a.len() {
            assert(is_digit(b[j - a.len() - 1]));
        }
    }
    lemma_first_at(lower(p), 'e', p.len() as int);
    assert forall|j: int| 0 <= j < a.len() implies p[j] != '.' by {
        assert(is_digit(a[j]));
    }
    lemma_first_at(p, '.', a.len() as int);
    assert(p.take(a.len() as int) =~= a);
    assert(p.skip(a.len() as int + 1) =~= b);
    lemma_dec_reads_back(k);
    lemma_exponent(a, dec(k));
    assert(is_digit(dec(k)[0]));
    let m = seq!['-'] + dec(k);
    lemma_exponent(a, m);
    assert(a + seq!['e', '-'] + dec(k) =~= a + seq!['e'] + m);
    assert(m.skip(1) =~= dec(k));
}

/// Digits alone are a mantissa with the point behind them.
proof fn lemma_mantissa(a: Seq<char>)
    requires
        a.len() > 0,
        all_digits(a),
    ensures
        mantissa_of(a) == Some((a, a.len() as int)),
{
    assert forall|j: int| 0 <= j < a.len() implies a[j] != '.' by {
        assert(is_digit(a[j]));
    }
    lemma_first_at(a, '.', a.len() as int);
    assert(a.take(a.len() as int) + Seq::<char>::empty() =~= a);
}

/// The parts of a number with an exponent.
proof fn lemma_exponent(a: Seq<char>, e: Seq<char>)
    requires
        a.len() > 0,
        all_digits(a),
    ensures
        written(a + seq!['e'] + e) == (match exponent_of(e) {
            Some(exp) => Some(Written::Decimal { negative: false, digits: a, point: a.len() + exp }),
            None => None,
        }),
{
    let s = a + seq!['e'] + e;
    assert(is_digit(a[0]));
    assert(s[0] == a[0]);
    lemma_digits_are_no_name(s);
    lemma_mantissa(a);
    assert forall|j: int| 0 <= j < a.len() implies lower(s)[j] != 'e' by {
        assert(is_digit(a[j]));
        assert(s[j] == a[j]);
    }
    assert(s[a.len() as int] == 'e');
    lemma_first_at(lower(s), 'e', a.len() as int);
    assert(s.take(a.len() as int) =~= a);
    assert(s.skip(a.len() as int + 1) =~= e);
}

/// A rate in digits is accepted above zero and up to one, and a percentage above
/// zero and up to a hundred.
pub proof fn lemma_accepted_rates(a: Seq<char>)
    requires
        a.len() > 0,
        all_digits(a),
    ensures
        ({
            let v = parsed(a, a.len() as int);
            &&& threshold_of(a) == Ok::<(nat, nat), Seq<char>>(v) <==> 0 < v.0 <= pow2(v.1)
            &&& threshold_of(a) is Ok <==> 0 < v.0 <= pow2(v.1)
            &&& threshold_of(a + seq!['%']) is Ok <==> 0 < v.0 <= 100 * pow2(v.1)
            &&& threshold_of(a + seq!['%']) matches Ok(t) ==> t == nearest(v.0, 100, v.1)
        }),
{
    assert(is_digit(a[0]));
    assert(is_digit(a.last()));
    lemma_written_numbers(a, Seq::empty(), 0);
    let p = a + seq!['%'];
    assert(p[0] == a[0]);
    assert(p.drop_last() =~= a);
    assert(trim(a) == a);
    assert(trim(p) == p);
}

} // verus!
