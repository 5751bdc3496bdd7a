//! Text building blocks shared by every parser and renderer of the crate.
//!
//! A string is modelled by the sequence of its characters. The functions here
//! are the few operations the rest of the library composes: decimal numerals,
//! joining and splitting, trimming, and ASCII case folding.

use vstd::prelude::*;
use vstd::utf8::{decode_utf8, valid_utf8};

verus! {

/// `String::push` appends one character at the end of the string.
pub assume_specification[ String::push ](s: &mut String, c: char)
    ensures
        final(s)@ == old(s)@.push(c),
;

/// What [`debug_text`] makes of a text.
pub uninterp spec fn quoted(s: Seq<char>) -> Seq<char>;

/// The `Debug` form of a string as `format!("{:?}")` prints it: the text in
/// double quotes, escaped. The result is a function of the text alone; which
/// characters are escaped and how is left unsaid.
#[verifier::external_body]
pub(crate) fn debug_text(s: &str) -> (out: String)
    ensures
        out@ == quoted(s@),
{
    format!("{s:?}")
}

/// What [`lossy`] makes of bytes that are not well-formed UTF-8.
pub uninterp spec fn repaired_text(bytes: Seq<u8>) -> Seq<char>;

/// What [`lossy`] makes of bytes.
pub open spec fn lossy_text(bytes: Seq<u8>) -> Seq<char> {
    if valid_utf8(bytes) {
        decode_utf8(bytes)
    } else {
        repaired_text(bytes)
    }
}

/// `String::from_utf8_lossy`: the text of the bytes, with every ill-formed
/// part replaced. The result is a function of the bytes alone, and well-formed
/// UTF-8 is decoded as it stands; what replaces an ill-formed part is left
/// unsaid.
#[verifier::external_body]
pub(crate) fn lossy(bytes: &[u8]) -> (out: String)
    ensures
        valid_utf8(bytes@) ==> out@ == decode_utf8(bytes@),
        !valid_utf8(bytes@) ==> out@ == repaired_text(bytes@),
{
    String::from_utf8_lossy(bytes).into_owned()
}

/// `std::str::from_utf8`: the text of well-formed UTF-8, nothing for any other
/// bytes.
#[verifier::external_body]
pub(crate) fn utf8_text(bytes: &[u8]) -> (r: Option<String>)
    ensures
        r is Some <==> valid_utf8(bytes@),
        r matches Some(text) ==> text@ == decode_utf8(bytes@),
{
    match std::str::from_utf8(bytes) {
        Ok(text) => Some(text.to_owned()),
        Err(_) => None,
    }
}

/// What [`millis_text`] prints for a number of milliseconds.
pub uninterp spec fn millis(ms: u64) -> Seq<char>;

/// The `Debug` form of `Duration::from_millis(ms)` as `format!("{:?}")` prints
/// it. The result is a function of the number alone; its notation is left
/// unsaid.
#[verifier::external_body]
pub(crate) fn millis_text(ms: u64) -> (out: String)
    ensures
        out@ == millis(ms),
{
    format!("{:?}", std::time::Duration::from_millis(ms))
}

/// The texts of a sequence of strings.
pub open spec fn texts(v: Seq<String>) -> Seq<Seq<char>> {
    v.map_values(|s: String| s@)
}

/// The characters of `s`, in order.
pub fn chars_of(s: &str) -> (out: Vec<char>)
    ensures
        out@ == s@,
{
    let mut out: Vec<char> = Vec::new();
    for c in it: s.chars()
        invariant
            it.seq() == s@,
            out@ == s@.take(it.index() as int),
    {
        out.push(c);
        assert(s@.take(it.index() as int + 1) =~= s@.take(it.index() as int).push(c));
    }
    assert(s@.take(s@.len() as int) =~= s@);
    out
}

/// The string made of `chars`.
pub fn string_of(chars: &[char]) -> (out: String)
    ensures
        out@ == chars@,
{
    let mut out = String::new();
    for i in 0..chars.len()
        invariant
            out@ == chars@.take(i as int),
    {
        out.push(chars[i]);
        assert(chars@.take(i as int + 1) =~= chars@.take(i as int).push(chars@[i as int]));
    }
    assert(chars@.take(chars@.len() as int) =~= chars@);
    out
}

/// Whether two character slices hold the same text.
pub fn same_chars(a: &[char], b: &[char]) -> (same: bool)
    ensures
        same == (a@ == b@),
{
    if a.len() != b.len() {
        return false;
    }
    for i in 0..a.len()
        invariant
            a@.len() == b@.len(),
            a@.take(i as int) == b@.take(i as int),
    {
        if a[i] != b[i] {
            assert(a@[i as int] != b@[i as int]);
            return false;
        }
        assert(a@.take(i as int + 1) =~= a@.take(i as int).push(a@[i as int]));
        assert(b@.take(i as int + 1) =~= b@.take(i as int).push(b@[i as int]));
    }
    assert(a@.take(a@.len() as int) =~= a@);
    assert(b@.take(b@.len() as int) =~= b@);
    true
}

/// Whether two strings hold the same text.
pub fn same_text(a: &str, b: &str) -> (same: bool)
    ensures
        same == (a@ == b@),
{
    let left = chars_of(a);
    let right = chars_of(b);
    same_chars(left.as_slice(), right.as_slice())
}

// --- decimal numerals ---------------------------------------------------------

/// The character of one decimal digit.
pub open spec fn digit_char(d: nat) -> char {
    (('0' as int) + d) as char
}

/// The decimal numeral of `n`: no sign, no leading zero except for `0` itself.
pub open spec fn dec(n: nat) -> Seq<char>
    decreases n,
{
    if n < 10 {
        seq![digit_char(n)]
    } else {
        dec(n / 10).push(digit_char(n % 10))
    }
}

/// The character of one decimal digit.
pub fn digit(d: u64) -> (c: char)
    requires
        d < 10,
    ensures
        c == digit_char(d as nat),
{
    (48u8 + d as u8) as char
}

/// Append the decimal numeral of `n`.
pub fn push_dec(out: &mut String, n: u64)
    ensures
        final(out)@ == old(out)@ + dec(n as nat),
    decreases n,
{
    if n >= 10 {
        push_dec(out, n / 10);
    }
    out.push(digit(n % 10));
    assert(out@ =~= old(out)@ + dec(n as nat));
}

/// The decimal numeral of `n`.
pub fn dec_text(n: u64) -> (out: String)
    ensures
        out@ == dec(n as nat),
{
    let mut out = String::new();
    push_dec(&mut out, n);
    assert(out@ =~= dec(n as nat));
    out
}

/// The decimal numeral of an integer, with a minus sign where it is negative.
pub open spec fn signed(n: int) -> Seq<char> {
    if n < 0 {
        "-"@ + dec((-n) as nat)
    } else {
        dec(n as nat)
    }
}

/// Append the decimal numeral of an integer.
pub fn push_signed(out: &mut String, n: i64)
    ensures
        final(out)@ == old(out)@ + signed(n as int),
{
    if n < 0 {
        out.append("-");
        push_dec(out, (-(n + 1)) as u64 + 1);
        assert(out@ =~= old(out)@ + signed(n as int));
    } else {
        push_dec(out, n as u64);
    }
}

/// The numeral of an optional value, or nothing.
pub open spec fn opt_dec(v: Option<u64>) -> Seq<char> {
    match v {
        Some(x) => dec(x as nat),
        None => Seq::empty(),
    }
}

/// Whether `c` is one of `0`..`9`.
pub open spec fn is_digit(c: char) -> bool {
    '0' <= c && c <= '9'
}

/// The value of a decimal digit.
pub open spec fn digit_value(c: char) -> nat {
    (c as int - '0' as int) as nat
}

/// The value of a sequence of decimal digits, most significant first.
pub open spec fn dec_value(s: Seq<char>) -> nat
    decreases s.len(),
{
    if s.len() == 0 {
        0
    } else {
        dec_value(s.drop_last()) * 10 + digit_value(s.last())
    }
}

/// Whether every character is a decimal digit.
pub open spec fn all_digits(s: Seq<char>) -> bool {
    forall|i: int| 0 <= i < s.len() ==> is_digit(#[trigger] s[i])
}

/// An unsigned decimal number as integer parsing accepts it: an optional `+`
/// and at least one digit, leading zeros allowed.
pub open spec fn unsigned_digits(s: Seq<char>) -> Option<Seq<char>> {
    let digits = if s.len() > 0 && s[0] == '+' {
        s.skip(1)
    } else {
        s
    };
    if digits.len() > 0 && all_digits(digits) {
        Some(digits)
    } else {
        None
    }
}

/// The number a text denotes, when it is an unsigned number of at most `max`.
pub open spec fn parse_number(s: Seq<char>, max: nat) -> Option<nat> {
    match unsigned_digits(s) {
        Some(digits) => if dec_value(digits) <= max {
            Some(dec_value(digits))
        } else {
            None
        },
        None => None,
    }
}

/// The value of a longer digit sequence is no smaller.
pub proof fn lemma_dec_value_monotonic(s: Seq<char>, k: int)
    requires
        0 <= k <= s.len(),
    ensures
        dec_value(s.take(k)) <= dec_value(s),
    decreases s.len(),
{
    if k == s.len() {
        assert(s.take(k) =~= s);
    } else {
        let t = s.drop_last();
        lemma_dec_value_monotonic(t, k);
        assert(t.take(k) =~= s.take(k));
    }
}

/// Parse an unsigned decimal number of at most `max`.
pub fn parse_unsigned(s: &[char], max: u64) -> (r: Option<u64>)
    requires
        max <= 0xFFFF_FFFF,
    ensures
        r is Some <==> parse_number(s@, max as nat) is Some,
        r matches Some(v) ==> parse_number(s@, max as nat) == Some(v as nat),
{
    let start: usize = if s.len() > 0 && s[0] == '+' {
        1
    } else {
        0
    };
    let ghost digits = s@.skip(start as int);
    assert(start == 0 ==> digits =~= s@);
    if start == s.len() {
        return None;
    }
    let mut value: u64 = 0;
    let mut i: usize = start;
    while i < s.len()
        invariant
            start <= i <= s.len(),
            start <= 1,
            max <= 0xFFFF_FFFF,
            digits == s@.skip(start as int),
            start == (if s@.len() > 0 && s@[0] == '+' {
                1int
            } else {
                0int
            }),
            start == 0 ==> digits == s@,
            digits.len() > 0,
            value == dec_value(digits.take(i - start)),
            value <= max,
            forall|j: int| 0 <= j < i - start ==> is_digit(#[trigger] digits[j]),
        decreases s.len() - i,
    {
        let c = s[i];
        assert(digits[i - start] == c);
        if !('0' <= c && c <= '9') {
            assert(!is_digit(digits[i - start]));
            return None;
        }
        let d: u64 = (c as u32 - '0' as u32) as u64;
        assert(digits.take(i - start + 1).drop_last() =~= digits.take(i - start));
        value = value * 10 + d;
        assert(value == dec_value(digits.take(i - start + 1)));
        if value > max {
            proof {
                lemma_dec_value_monotonic(digits, i - start + 1);
            }
            return None;
        }
        i = i + 1;
    }
    assert(digits.take(i - start) =~= digits);
    Some(value)
}

// --- searching and splitting ----------------------------------------------------

/// The position of the first `c` in `s`, or the length of `s`.
pub open spec fn first_at(s: Seq<char>, c: char) -> int
    decreases s.len(),
{
    if s.len() == 0 {
        0
    } else if s[0] == c {
        0
    } else {
        1 + first_at(s.skip(1), c)
    }
}

/// The position of the last `c` in `s`, or `-1`.
pub open spec fn last_at(s: Seq<char>, c: char) -> int
    decreases s.len(),
{
    if s.len() == 0 {
        -1
    } else if s.last() == c {
        s.len() - 1
    } else {
        last_at(s.drop_last(), c)
    }
}

/// The first position is characterised by what stands at and before it.
pub proof fn lemma_first_at(s: Seq<char>, c: char, i: int)
    requires
        0 <= i <= s.len(),
        forall|j: int| 0 <= j < i ==> s[j] != c,
        i < s.len() ==> s[i] == c,
    ensures
        first_at(s, c) == i,
    decreases s.len(),
{
    if s.len() > 0 && i > 0 {
        assert(s[0] != c);
        let t = s.skip(1);
        assert forall|j: int| 0 <= j < i - 1 implies t[j] != c by {
            assert(s[j + 1] != c);
        }
        lemma_first_at(t, c, i - 1);
    }
}

/// What stands at and before the first position.
pub proof fn lemma_first_at_bounds(s: Seq<char>, c: char)
    ensures
        0 <= first_at(s, c) <= s.len(),
        first_at(s, c) < s.len() ==> s[first_at(s, c)] == c,
        forall|j: int| 0 <= j < first_at(s, c) ==> s[j] != c,
    decreases s.len(),
{
    if s.len() > 0 && s[0] != c {
        let t = s.skip(1);
        lemma_first_at_bounds(t, c);
        assert forall|j: int| 0 <= j < first_at(s, c) implies s[j] != c by {
            if j > 0 {
                assert(t[j - 1] != c);
            }
        }
    }
}

/// The last position is characterised by what stands at and after it.
pub proof fn lemma_last_at(s: Seq<char>, c: char, i: int)
    requires
        -1 <= i < s.len(),
        forall|j: int| i < j < s.len() ==> s[j] != c,
        i >= 0 ==> s[i] == c,
    ensures
        last_at(s, c) == i,
    decreases s.len(),
{
    if s.len() > 0 && i < s.len() - 1 {
        assert(s.last() != c);
        lemma_last_at(s.drop_last(), c, i);
    }
}

/// What stands at and after the last position.
pub proof fn lemma_last_at_bounds(s: Seq<char>, c: char)
    ensures
        -1 <= last_at(s, c) < s.len(),
        last_at(s, c) >= 0 ==> s[last_at(s, c)] == c,
        forall|j: int| last_at(s, c) < j < s.len() ==> s[j] != c,
    decreases s.len(),
{
    if s.len() > 0 && s.last() != c {
        let t = s.drop_last();
        lemma_last_at_bounds(t, c);
        assert forall|j: int| last_at(s, c) < j < s.len() implies s[j] != c by {
            if j < s.len() - 1 {
                assert(t[j] != c);
            }
        }
    }
}

/// The position of the first `c`, if there is one.
pub fn find_char(s: &[char], c: char) -> (r: Option<usize>)
    ensures
        r matches Some(i) ==> i == first_at(s@, c) && i < s.len(),
        r is None ==> first_at(s@, c) == s@.len(),
{
    let mut i: usize = 0;
    while i < s.len()
        invariant
            i <= s.len(),
            forall|j: int| 0 <= j < i ==> s@[j] != c,
        decreases s.len() - i,
    {
        if s[i] == c {
            proof {
                lemma_first_at(s@, c, i as int);
            }
            return Some(i);
        }
        i = i + 1;
    }
    proof {
        lemma_first_at(s@, c, i as int);
    }
    None
}

/// The position of the last `c`, if there is one.
pub fn rfind_char(s: &[char], c: char) -> (r: Option<usize>)
    ensures
        r matches Some(i) ==> i == last_at(s@, c) && i < s.len(),
        r is None ==> last_at(s@, c) == -1,
{
    let mut i: usize = s.len();
    while i > 0
        invariant
            i <= s.len(),
            forall|j: int| i <= j < s.len() ==> s@[j] != c,
        decreases i,
    {
        if s[i - 1] == c {
            proof {
                lemma_last_at(s@, c, i - 1);
            }
            return Some(i - 1);
        }
        i = i - 1;
    }
    proof {
        lemma_last_at(s@, c, -1);
    }
    None
}

/// Whether `c` occurs in `s`.
pub fn contains_char(s: &[char], c: char) -> (r: bool)
    ensures
        r == s@.contains(c),
{
    proof {
        lemma_first_at_bounds(s@, c);
    }
    match find_char(s, c) {
        Some(i) => {
            assert(s@[i as int] == c);
            true
        },
        None => false,
    }
}

/// Whether `s` begins with `p`.
pub open spec fn has_prefix(s: Seq<char>, p: Seq<char>) -> bool {
    s.len() >= p.len() && s.take(p.len() as int) == p
}

/// Whether `s` begins with `p`.
pub fn starts_with(s: &[char], p: &str) -> (r: bool)
    ensures
        r == has_prefix(s@, p@),
        r ==> p@.len() <= s@.len(),
{
    let prefix = chars_of(p);
    if s.len() < prefix.len() {
        return false;
    }
    let front = slice_of(s, 0, prefix.len());
    assert(front@ =~= s@.take(p@.len() as int));
    same_chars(front.as_slice(), prefix.as_slice())
}

/// Whether `p` occurs in `s`.
pub open spec fn has_text(s: Seq<char>, p: Seq<char>) -> bool {
    exists|i: int| 0 <= i <= s.len() && has_prefix(#[trigger] s.skip(i), p)
}

/// Whether `p` occurs in `s`.
pub fn contains_text(s: &str, p: &str) -> (r: bool)
    ensures
        r == has_text(s@, p@),
{
    let chars = chars_of(s);
    let mut i: usize = 0;
    loop
        invariant
            chars@ == s@,
            i <= chars.len(),
            forall|j: int| 0 <= j < i ==> !has_prefix(#[trigger] s@.skip(j), p@),
        decreases chars.len() - i,
    {
        let rest = slice_of(chars.as_slice(), i, chars.len());
        assert(rest@ =~= s@.skip(i as int));
        if starts_with(rest.as_slice(), p) {
            return true;
        }
        if i == chars.len() {
            return false;
        }
        i = i + 1;
    }
}

/// The pieces of `s` between the occurrences of `c`; always at least one.
pub open spec fn split(s: Seq<char>, c: char) -> Seq<Seq<char>>
    decreases s.len(),
    via split_decreases
{
    let i = first_at(s, c);
    if i >= s.len() {
        seq![s]
    } else {
        seq![s.take(i)] + split(s.skip(i + 1), c)
    }
}

#[via_fn]
proof fn split_decreases(s: Seq<char>, c: char) {
    lemma_first_at_bounds(s, c);
}

/// The concatenation of `parts` with `sep` between neighbours.
pub open spec fn join(parts: Seq<Seq<char>>, sep: Seq<char>) -> Seq<char>
    decreases parts.len(),
{
    if parts.len() == 0 {
        Seq::empty()
    } else if parts.len() == 1 {
        parts[0]
    } else {
        join(parts.drop_last(), sep) + sep + parts.last()
    }
}

/// Joining in front of what is already joined.
proof fn lemma_join_front(first: Seq<char>, parts: Seq<Seq<char>>, sep: Seq<char>)
    requires
        parts.len() > 0,
    ensures
        join(seq![first] + parts, sep) == first + sep + join(parts, sep),
    decreases parts.len(),
{
    let all = seq![first] + parts;
    if parts.len() == 1 {
        assert(all.drop_last() =~= seq![first]);
        assert(join(seq![first], sep) == first);
        assert(join(parts, sep) == all.last());
    } else {
        lemma_join_front(first, parts.drop_last(), sep);
        assert(all.drop_last() =~= seq![first] + parts.drop_last());
        assert(first + sep + join(parts.drop_last(), sep) + sep + parts.last() =~= first + sep + (join(
            parts.drop_last(),
            sep,
        ) + sep + parts.last()));
    }
}

/// Splitting and joining at a character gives the text back.
pub proof fn lemma_join_split(s: Seq<char>, c: char)
    ensures
        split(s, c).len() > 0,
        join(split(s, c), seq![c]) == s,
    decreases s.len(),
{
    lemma_first_at_bounds(s, c);
    let i = first_at(s, c);
    if i < s.len() {
        let rest = s.skip(i + 1);
        lemma_join_split(rest, c);
        lemma_join_front(s.take(i), split(rest, c), seq![c]);
        assert(s.take(i) + seq![c] + rest =~= s);
    }
}

/// Join `parts` with `sep` between neighbours.
pub fn join_texts(parts: &[String], sep: &str) -> (out: String)
    ensures
        out@ == join(texts(parts@), sep@),
{
    let mut out = String::new();
    let ghost all = texts(parts@);
    for i in 0..parts.len()
        invariant
            all == texts(parts@),
            out@ == join(all.take(i as int), sep@),
    {
        if i > 0 {
            out.append(sep);
        }
        out.append(parts[i].as_str());
        proof {
            assert(all.take(i as int + 1).drop_last() =~= all.take(i as int));
            assert(all[i as int] == parts@[i as int]@);
            if i == 0 {
                assert(out@ =~= parts@[0]@);
            }
        }
    }
    assert(all.take(parts@.len() as int) =~= all);
    out
}

/// The texts of a sequence of character vectors.
pub open spec fn rows(v: Seq<Vec<char>>) -> Seq<Seq<char>> {
    v.map_values(|r: Vec<char>| r@)
}

/// Split `s` at every `c`.
pub fn split_chars(s: &[char], c: char) -> (out: Vec<Vec<char>>)
    ensures
        rows(out@) == split(s@, c),
        out@.len() >= 1,
{
    let mut out: Vec<Vec<char>> = Vec::new();
    let mut from: usize = 0;
    assert(rows(out@) + split(s@.skip(0), c) =~= split(s@, c)) by {
        assert(s@.skip(0) =~= s@);
    }
    loop
        invariant
            from <= s.len(),
            rows(out@) + split(s@.skip(from as int), c) == split(s@, c),
        decreases s.len() - from,
    {
        let ghost rest = s@.skip(from as int);
        let mut i: usize = from;
        while i < s.len() && s[i] != c
            invariant
                from <= i <= s.len(),
                forall|j: int| from <= j < i ==> s@[j] != c,
            decreases s.len() - i,
        {
            i = i + 1;
        }
        proof {
            lemma_first_at(rest, c, i - from);
        }
        let piece = slice_of(s, from, i);
        let ghost before = out@;
        out.push(piece);
        assert(rows(out@) =~= rows(before).push(piece@));
        assert(piece@ =~= rest.take(i - from));
        if i == s.len() {
            assert(rest.take(i - from) =~= rest);
            assert(rows(out@) =~= rows(before) + split(rest, c));
            return out;
        }
        proof {
            assert(rest.skip(i - from + 1) =~= s@.skip(i as int + 1));
            assert(rows(before) + split(rest, c) =~= rows(out@) + split(s@.skip(i as int + 1), c));
        }
        from = i + 1;
    }
}

// --- trimming and case ------------------------------------------------------------

/// Unicode white space.
pub open spec fn is_white(c: char) -> bool {
    let u = c as u32;
    ||| 0x09 <= u <= 0x0D
    ||| u == 0x20
    ||| u == 0x85
    ||| u == 0xA0
    ||| u == 0x1680
    ||| 0x2000 <= u <= 0x200A
    ||| u == 0x2028
    ||| u == 0x2029
    ||| u == 0x202F
    ||| u == 0x205F
    ||| u == 0x3000
}

/// Whether `c` is Unicode white space.
pub fn white(c: char) -> (r: bool)
    ensures
        r == is_white(c),
{
    let u: u32 = c as u32;
    (0x09 <= u && u <= 0x0D) || u == 0x20 || u == 0x85 || u == 0xA0 || u == 0x1680 || (0x2000 <= u && u <= 0x200A) || u
        == 0x2028 || u == 0x2029 || u == 0x202F || u == 0x205F || u == 0x3000
}

/// `s` without the white space at its front.
pub open spec fn trim_front(s: Seq<char>) -> Seq<char>
    decreases s.len(),
{
    if s.len() > 0 && is_white(s[0]) {
        trim_front(s.skip(1))
    } else {
        s
    }
}

/// `s` without the white space at its back.
pub open spec fn trim_back(s: Seq<char>) -> Seq<char>
    decreases s.len(),
{
    if s.len() > 0 && is_white(s.last()) {
        trim_back(s.drop_last())
    } else {
        s
    }
}

/// `s` without the white space at both ends.
pub open spec fn trim(s: Seq<char>) -> Seq<char> {
    trim_back(trim_front(s))
}

/// Remove the white space at both ends.
pub fn trimmed(s: &[char]) -> (out: Vec<char>)
    ensures
        out@ == trim(s@),
{
    let mut from: usize = 0;
    assert(s@.skip(0) =~= s@);
    while from < s.len() && white(s[from])
        invariant
            from <= s.len(),
            trim_front(s@.skip(from as int)) == trim_front(s@),
        decreases s.len() - from,
    {
        assert(s@.skip(from as int).skip(1) =~= s@.skip(from as int + 1));
        from = from + 1;
    }
    let ghost front = s@.skip(from as int);
    assert(front == trim_front(s@));
    let mut to: usize = s.len();
    assert(s@.subrange(from as int, to as int) =~= front);
    while to > from && white(s[to - 1])
        invariant
            from <= to <= s.len(),
            trim_back(s@.subrange(from as int, to as int)) == trim_back(front),
        decreases to,
    {
        assert(s@.subrange(from as int, to as int).drop_last() =~= s@.subrange(from as int, to - 1));
        to = to - 1;
    }
    slice_of(s, from, to)
}

/// The characters of `s` from `from` up to `to`.
pub fn slice_of(s: &[char], from: usize, to: usize) -> (out: Vec<char>)
    requires
        from <= to <= s@.len(),
    ensures
        out@ == s@.subrange(from as int, to as int),
{
    let mut out: Vec<char> = Vec::new();
    let mut i: usize = from;
    while i < to
        invariant
            from <= i <= to <= s@.len(),
            out@ == s@.subrange(from as int, i as int),
        decreases to - i,
    {
        out.push(s[i]);
        assert(s@.subrange(from as int, i as int + 1) =~= s@.subrange(from as int, i as int).push(s@[i as int]));
        i = i + 1;
    }
    out
}

/// The lower-case form of an ASCII letter; every other character unchanged.
pub open spec fn lower_char(c: char) -> char {
    if 'A' <= c && c <= 'Z' {
        (c as int + 32) as char
    } else {
        c
    }
}

/// `s` with its ASCII letters in lower case.
pub open spec fn lower(s: Seq<char>) -> Seq<char> {
    s.map_values(|c: char| lower_char(c))
}

/// Whether a character has no lower-case form but itself, and is none of
/// another.
pub open spec fn is_caseless(c: char) -> bool {
    !('A' <= c && c <= 'Z') && !('a' <= c && c <= 'z')
}

/// Folding keeps where a caseless character stands.
pub proof fn lemma_lower_first_at(s: Seq<char>, c: char)
    requires
        is_caseless(c),
    ensures
        first_at(lower(s), c) == first_at(s, c),
    decreases s.len(),
{
    if s.len() > 0 {
        lemma_lower_first_at(s.skip(1), c);
        assert(lower(s).skip(1) =~= lower(s.skip(1)));
    }
}

/// Folding and splitting at a caseless character can be swapped.
pub proof fn lemma_lower_split(s: Seq<char>, c: char)
    requires
        is_caseless(c),
    ensures
        split(lower(s), c) == split(s, c).map_values(|p: Seq<char>| lower(p)),
    decreases s.len(),
{
    lemma_first_at_bounds(s, c);
    lemma_lower_first_at(s, c);
    let i = first_at(s, c);
    let folded = split(s, c).map_values(|p: Seq<char>| lower(p));
    if i >= s.len() {
        assert(folded =~= seq![lower(s)]);
    } else {
        let rest = s.skip(i + 1);
        lemma_lower_split(rest, c);
        assert(lower(s).take(i) =~= lower(s.take(i)));
        assert(lower(s).skip(i + 1) =~= lower(rest));
        assert(folded =~= seq![lower(s.take(i))] + split(rest, c).map_values(|p: Seq<char>| lower(p)));
    }
}

/// Fold the ASCII letters of `s` to lower case.
pub fn lowered(s: &[char]) -> (out: Vec<char>)
    ensures
        out@ == lower(s@),
{
    let mut out: Vec<char> = Vec::new();
    for i in 0..s.len()
        invariant
            out@ == lower(s@.take(i as int)),
    {
        let c = s[i];
        let folded: char = if 'A' <= c && c <= 'Z' {
            (c as u8 + 32) as char
        } else {
            c
        };
        out.push(folded);
        assert(lower(s@.take(i as int + 1)) =~= lower(s@.take(i as int)).push(lower_char(c)));
    }
    assert(s@.take(s@.len() as int) =~= s@);
    out
}

/// Whether two texts are equal up to the case of ASCII letters.
pub fn same_ignoring_case(a: &str, b: &str) -> (same: bool)
    ensures
        same == (lower(a@) == lower(b@)),
{
    let left = lowered(chars_of(a).as_slice());
    let right = lowered(chars_of(b).as_slice());
    same_chars(left.as_slice(), right.as_slice())
}

/// Append a text to a list of texts.
pub fn push_text(out: &mut Vec<String>, s: String)
    ensures
        texts(final(out)@) == texts(old(out)@).push(s@),
{
    let ghost before = out@;
    out.push(s);
    assert(texts(out@) =~= texts(before).push(s@));
}

/// Two texts in a row.
pub fn glue(a: &str, b: &str) -> (out: String)
    ensures
        out@ == a@ + b@,
{
    let mut out = a.to_owned();
    out.append(b);
    out
}

/// Three texts in a row.
pub fn glue3(a: &str, b: &str, c: &str) -> (out: String)
    ensures
        out@ == a@ + b@ + c@,
{
    let mut out = a.to_owned();
    out.append(b);
    out.append(c);
    out
}

/// The distinct elements of a sequence, in the order in which they first
/// occur.
pub open spec fn first_seen<A>(s: Seq<A>) -> Seq<A>
    decreases s.len(),
{
    if s.len() == 0 {
        s
    } else {
        let front = first_seen(s.drop_last());
        if front.contains(s.last()) {
            front
        } else {
            front.push(s.last())
        }
    }
}

/// The first-seen elements are the elements themselves, each once, and there
/// are several exactly when two elements differ.
pub proof fn lemma_first_seen_is_each_once<A>(s: Seq<A>)
    ensures
        first_seen(s).no_duplicates(),
        forall|x: A| #[trigger] first_seen(s).contains(x) ==> s.contains(x),
        forall|x: A| #[trigger] s.contains(x) ==> first_seen(s).contains(x),
        first_seen(s).len() > 1 <==> exists|i: int, j: int|
            0 <= i < s.len() && 0 <= j < s.len() && #[trigger] s[i] != #[trigger] s[j],
        s.len() > 0 ==> first_seen(s).len() > 0 && first_seen(s)[0] == s[0],
    decreases s.len(),
{
    let f = first_seen(s);
    if s.len() > 0 {
        let t = s.drop_last();
        let front = first_seen(t);
        lemma_first_seen_is_each_once(t);
        assert forall|x: A| #[trigger] f.contains(x) <==> s.contains(x) by {
            if s.contains(x) && x != s.last() {
                let i = choose|i: int| 0 <= i < s.len() && s[i] == x;
                assert(t[i] == x);
                assert(t.contains(x));
                assert(front.contains(x));
                let k = choose|k: int| 0 <= k < front.len() && front[k] == x;
                assert(f[k] == x);
            }
            if x == s.last() {
                assert(s[s.len() - 1] == x);
                if !front.contains(x) {
                    assert(f[front.len() as int] == x);
                }
            }
            if f.contains(x) {
                let k = choose|k: int| 0 <= k < f.len() && f[k] == x;
                if k < front.len() {
                    assert(front[k] == x);
                    assert(front.contains(x));
                    let i = choose|i: int| 0 <= i < t.len() && t[i] == x;
                    assert(s[i] == x);
                }
            }
        }
        if t.len() > 0 {
            assert(t[0] == s[0]);
        }
    }
    if f.len() > 1 {
        assert(f.contains(f[0]) && f.contains(f[1]));
        assert(s.contains(f[0]) && s.contains(f[1]));
        let i = choose|i: int| 0 <= i < s.len() && s[i] == f[0];
        let j = choose|j: int| 0 <= j < s.len() && s[j] == f[1];
        assert(s[i] != s[j]);
    }
    if exists|i: int, j: int| 0 <= i < s.len() && 0 <= j < s.len() && #[trigger] s[i] != #[trigger] s[j] {
        let (i, j) = choose|i: int, j: int|
            0 <= i < s.len() && 0 <= j < s.len() && #[trigger] s[i] != #[trigger] s[j];
        assert(s.contains(s[i]) && s.contains(s[j]));
        assert(f.contains(s[i]) && f.contains(s[j]));
        let a = choose|a: int| 0 <= a < f.len() && f[a] == s[i];
        let b = choose|b: int| 0 <= b < f.len() && f[b] == s[j];
        assert(a != b);
    }
}

/// A decimal numeral is read back as the number it was written for. It has only
/// digits, its last one is the number's remainder by ten, and it starts with a
/// zero only where that is the number.
pub proof fn lemma_dec_reads_back(n: nat)
    ensures
        dec_value(dec(n)) == n,
        dec(n).len() > 0,
        forall|i: int| 0 <= i < dec(n).len() ==> '0' <= #[trigger] dec(n)[i] <= '9',
        dec(n).last() as int == 48 + n % 10,
        dec(n)[0] == '0' ==> n == 0,
        all_digits(dec(n)),
    decreases n,
{
    if n < 10 {
        assert(dec(n).drop_last() =~= Seq::empty());
        assert(dec_value(dec(n).drop_last()) == 0);
        assert(dec(n).last() == digit_char(n));
    } else {
        lemma_dec_reads_back(n / 10);
        assert(dec(n).last() == digit_char(n % 10));
        assert(dec(n).drop_last() =~= dec(n / 10));
        assert(dec(n)[0] == dec(n / 10)[0]);
        assert forall|i: int| 0 <= i < dec(n).len() implies '0' <= #[trigger] dec(n)[i] <= '9' by {
            if i < dec(n / 10).len() {
                assert(dec(n)[i] == dec(n / 10)[i]);
            }
        }
    }
    assert(all_digits(dec(n)));
}

/// The numeral of a number within a limit is parsed as that number, and the
/// numeral of a larger one is refused.
pub proof fn lemma_numeral_parses(n: nat, max: nat)
    ensures
        parse_number(dec(n), max) == (if n <= max {
            Some(n)
        } else {
            None
        }),
{
    lemma_dec_reads_back(n);
    assert(dec(n)[0] != '+');
}

/// Folding moves each of the 26 capital letters to its small letter and leaves
/// everything else as it is.
pub proof fn lemma_lower_folds_capitals(s: Seq<char>)
    ensures
        lower(s).len() == s.len(),
        forall|i: int|
            0 <= i < s.len() ==> (if 65 <= s[i] as int <= 90 {
                #[trigger] lower(s)[i] as int == s[i] as int + 32
            } else {
                lower(s)[i] == s[i]
            }),
{
}

/// Splitting undoes joining: pieces that do not hold the separator are read back.
pub proof fn lemma_split_join(parts: Seq<Seq<char>>, c: char)
    requires
        parts.len() > 0,
        forall|i: int| 0 <= i < parts.len() ==> !(#[trigger] parts[i]).contains(c),
    ensures
        split(join(parts, seq![c]), c) == parts,
    decreases parts.len(),
{
    let first = parts[0];
    assert forall|j: int| 0 <= j < first.len() implies first[j] != c by {
        if first[j] == c {
            assert(first.contains(c));
        }
    }
    if parts.len() == 1 {
        lemma_first_at(first, c, first.len() as int);
        assert(parts =~= seq![first]);
    } else {
        let rest = parts.skip(1);
        assert forall|i: int| 0 <= i < rest.len() implies !(#[trigger] rest[i]).contains(c) by {
            assert(!parts[i + 1].contains(c));
        }
        lemma_split_join(rest, c);
        lemma_join_front(first, rest, seq![c]);
        assert(parts =~= seq![first] + rest);
        let s = join(parts, seq![c]);
        assert(s == first + seq![c] + join(rest, seq![c]));
        lemma_first_at(s, c, first.len() as int);
        assert(s.take(first.len() as int) =~= first);
        assert(s.skip(first.len() as int + 1) =~= join(rest, seq![c]));
        assert(split(s, c) =~= parts);
    }
}

// --- occurrence --------------------------------------------------------------------------

/// A text occurs in itself.
pub broadcast proof fn lemma_in_itself(p: Seq<char>)
    ensures
        #[trigger] has_text(p, p),
{
    assert(p.skip(0) =~= p);
    assert(p.take(p.len() as int) =~= p);
    assert(has_prefix(p.skip(0), p));
}

/// A text that occurs in a part occurs in the whole.
pub broadcast proof fn lemma_in_part(a: Seq<char>, b: Seq<char>, p: Seq<char>)
    ensures
        has_text(a, p) || has_text(b, p) ==> #[trigger] has_text(a + b, p),
{
    if has_text(a, p) {
        let i = choose|i: int| 0 <= i <= a.len() && has_prefix(#[trigger] a.skip(i), p);
        assert((a + b).skip(i).take(p.len() as int) =~= a.skip(i).take(p.len() as int));
        assert(has_prefix((a + b).skip(i), p));
    }
    if has_text(b, p) {
        let i = choose|i: int| 0 <= i <= b.len() && has_prefix(#[trigger] b.skip(i), p);
        let k = a.len() + i;
        assert((a + b).skip(k).take(p.len() as int) =~= b.skip(i).take(p.len() as int));
        assert(has_prefix((a + b).skip(k), p));
    }
}

pub broadcast group group_occurrence {
    lemma_in_itself,
    lemma_in_part,
}

/// A text that stands in a list stands in the list joined.
pub proof fn lemma_in_joined(parts: Seq<Seq<char>>, sep: Seq<char>, i: int)
    requires
        0 <= i < parts.len(),
    ensures
        has_text(join(parts, sep), parts[i]),
    decreases parts.len(),
{
    broadcast use group_occurrence;

    if parts.len() > 1 && i < parts.len() - 1 {
        lemma_in_joined(parts.drop_last(), sep, i);
    }
}

/// Trimming removes white space at the ends and nothing else.
pub proof fn lemma_trim(s: Seq<char>)
    ensures
        trim(s).len() > 0 ==> !is_white(trim(s)[0]) && !is_white(trim(s).last()),
        exists|a: int, b: int|
            0 <= a <= b <= s.len() && #[trigger] s.subrange(a, b) == trim(s) && (forall|i: int|
                0 <= i < a ==> is_white(#[trigger] s[i])) && (forall|i: int|
                b <= i < s.len() ==> is_white(#[trigger] s[i])),
{
    lemma_trim_front(s);
    let f = trim_front(s);
    let a = s.len() - f.len();
    lemma_trim_back(f);
    let t = trim_back(f);
    let b = a + t.len();
    assert(s.subrange(a, b) =~= t);
    assert forall|i: int| b <= i < s.len() implies is_white(#[trigger] s[i]) by {
        assert(f[i - a] == s[i]);
    }
    if t.len() > 0 {
        assert(t[0] == f[0]);
    }
}

/// What is removed at the front is white space.
proof fn lemma_trim_front(s: Seq<char>)
    ensures
        trim_front(s).len() <= s.len(),
        trim_front(s) == s.skip(s.len() - trim_front(s).len()),
        forall|i: int| 0 <= i < s.len() - trim_front(s).len() ==> is_white(#[trigger] s[i]),
        trim_front(s).len() > 0 ==> !is_white(trim_front(s)[0]),
    decreases s.len(),
{
    if s.len() > 0 && is_white(s[0]) {
        lemma_trim_front(s.skip(1));
        assert forall|i: int| 0 <= i < s.len() - trim_front(s).len() implies is_white(#[trigger] s[i]) by {
            if i > 0 {
                assert(s.skip(1)[i - 1] == s[i]);
            }
        }
        assert(trim_front(s) =~= s.skip(s.len() - trim_front(s).len()));
    } else {
        assert(s.skip(0) =~= s);
    }
}

/// What is removed at the back is white space.
proof fn lemma_trim_back(s: Seq<char>)
    ensures
        trim_back(s).len() <= s.len(),
        trim_back(s) == s.take(trim_back(s).len() as int),
        forall|i: int| trim_back(s).len() <= i < s.len() ==> is_white(#[trigger] s[i]),
        trim_back(s).len() > 0 ==> !is_white(trim_back(s).last()),
    decreases s.len(),
{
    if s.len() > 0 && is_white(s.last()) {
        lemma_trim_back(s.drop_last());
        assert forall|i: int| trim_back(s).len() <= i < s.len() implies is_white(#[trigger] s[i]) by {
            if i < s.len() - 1 {
                assert(s.drop_last()[i] == s[i]);
            }
        }
        assert(trim_back(s) =~= s.take(trim_back(s).len() as int));
    } else {
        assert(s.take(s.len() as int) =~= s);
    }
}

} // verus!
