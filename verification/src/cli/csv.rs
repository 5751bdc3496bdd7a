//! CSV tables (RFC 4180 quoting).

use crate::text::{
    all_digits, chars_of, contains_char, dec, dec_text, dec_value, join, join_texts, lemma_dec_reads_back, opt_dec, texts,
};
use vstd::prelude::*;

verus! {

/// A text with its quotes doubled.
pub open spec fn doubled(s: Seq<char>) -> Seq<char>
    decreases s.len(),
{
    if s.len() == 0 {
        s
    } else if s.last() == '"' {
        doubled(s.drop_last()).push('"').push('"')
    } else {
        doubled(s.drop_last()).push(s.last())
    }
}

/// Whether a field needs quotes: it holds a comma, a quote or a newline.
pub open spec fn needs_quotes(s: Seq<char>) -> bool {
    s.contains(',') || s.contains('"') || s.contains('\n')
}

/// A field of a table.
pub open spec fn field(s: Seq<char>) -> Seq<char> {
    if needs_quotes(s) {
        seq!['"'] + doubled(s) + seq!['"']
    } else {
        s
    }
}

/// Escape a single CSV field: quote it when it contains a comma, quote, or
/// newline, doubling embedded quotes.
pub fn csv_field(value: &str) -> (out: String)
    ensures
        out@ == field(value@),
{
    let chars = chars_of(value);
    let c = chars.as_slice();
    if contains_char(c, ',') || contains_char(c, '"') || contains_char(c, '\n') {
        let mut out = String::new();
        out.push('"');
        let ghost head = out@;
        assert(head =~= seq!['"']);
        assert(head + Seq::<char>::empty() =~= head);
        assert(value@.take(0) =~= Seq::empty());
        for i in 0..c.len()
            invariant
                c@ == value@,
                out@ == head + doubled(value@.take(i as int)),
        {
            let ghost front = doubled(value@.take(i as int));
            assert(value@.take(i as int + 1).drop_last() =~= value@.take(i as int));
            let x = c[i];
            if x == '"' {
                out.push('"');
                out.push('"');
                assert(out@ =~= head + front.push('"').push('"'));
            } else {
                out.push(x);
                assert(out@ =~= head + front.push(x));
            }
        }
        assert(value@.take(value@.len() as int) =~= value@);
        out.push('"');
        assert(out@ =~= field(value@));
        out
    } else {
        value.to_owned()
    }
}

/// An optional number as a field, empty without one.
pub fn opt(v: Option<u64>) -> (out: String)
    ensures
        out@ == opt_dec(v),
{
    match v {
        Some(x) => dec_text(x),
        None => String::new(),
    }
}

/// An optional text as a field.
pub open spec fn opt_field(s: Option<String>) -> Seq<char> {
    match s {
        Some(t) => field(t@),
        None => Seq::empty(),
    }
}

/// An optional text as a field.
pub fn opt_csv_field(s: &Option<String>) -> (out: String)
    ensures
        out@ == opt_field(*s),
{
    match s {
        Some(t) => csv_field(t.as_str()),
        None => String::new(),
    }
}

/// A truth value as a field.
pub open spec fn flag(b: bool) -> Seq<char> {
    if b {
        "1"@
    } else {
        "0"@
    }
}

/// A truth value as a field.
pub fn csv_flag(b: bool) -> (out: String)
    ensures
        out@ == flag(b),
{
    (if b {
        "1"
    } else {
        "0"
    }).to_owned()
}

/// A row of a table.
pub open spec fn row(cells: Seq<Seq<char>>) -> Seq<char> {
    join(cells, ","@) + "\n"@
}

/// Rows of a table.
pub open spec fn rows(table: Seq<Seq<Seq<char>>>) -> Seq<char>
    decreases table.len(),
{
    if table.len() == 0 {
        Seq::empty()
    } else {
        rows(table.drop_last()) + row(table.last())
    }
}

/// The texts of rows of cells.
pub open spec fn table_texts(v: Seq<Vec<String>>) -> Seq<Seq<Seq<char>>> {
    v.map_values(|r: Vec<String>| texts(r@))
}

/// Append a row of cells.
pub fn push_cells(out: &mut Vec<Vec<String>>, cells: Vec<String>)
    ensures
        table_texts(final(out)@) == table_texts(old(out)@).push(texts(cells@)),
{
    let ghost before = out@;
    out.push(cells);
    assert(table_texts(out@) =~= table_texts(before).push(texts(cells@)));
}

/// Write a table under its heading.
pub fn write_table(heading: &str, table: &[Vec<String>]) -> (out: String)
    ensures
        out@ == heading@ + rows(table_texts(table@)),
{
    let ghost all = table_texts(table@);
    let mut out = heading.to_owned();
    assert(heading@ + Seq::<char>::empty() =~= heading@);
    for i in 0..table.len()
        invariant
            all == table_texts(table@),
            out@ == heading@ + rows(all.take(i as int)),
    {
        let ghost front = rows(all.take(i as int));
        assert(all.take(i as int + 1).drop_last() =~= all.take(i as int));
        assert(all[i as int] == texts(table@[i as int]@));
        let mut line = join_texts(table[i].as_slice(), ",");
        line.append("\n");
        out.append(line.as_str());
        assert(out@ =~= heading@ + (front + row(all[i as int])));
    }
    assert(all.take(all.len() as int) =~= all);
    out
}

// --- laws --------------------------------------------------------------------------------

/// What a reader makes of quoted text: `None` when a lone quote ends the
/// field, else the text with paired quotes made single.
pub open spec fn undoubled(s: Seq<char>) -> Option<Seq<char>>
    decreases s.len(),
{
    if s.len() == 0 {
        Some(s)
    } else if s[0] == '"' {
        if s.len() >= 2 && s[1] == '"' {
            match undoubled(s.skip(2)) {
                Some(rest) => Some(seq!['"'] + rest),
                None => None,
            }
        } else {
            None
        }
    } else {
        match undoubled(s.skip(1)) {
            Some(rest) => Some(seq![s[0]] + rest),
            None => None,
        }
    }
}

/// What a reader makes of a field: without a leading quote the text as it
/// stands, with one what stands between the outer quotes.
pub open spec fn read_field(f: Seq<char>) -> Option<Seq<char>> {
    if f.len() > 0 && f[0] == '"' {
        if f.len() >= 2 && f.last() == '"' {
            undoubled(f.subrange(1, f.len() - 1))
        } else {
            None
        }
    } else {
        Some(f)
    }
}

/// Doubling from the front.
proof fn lemma_doubled_front(s: Seq<char>)
    requires
        s.len() > 0,
    ensures
        doubled(s) == (if s[0] == '"' {
            seq!['"', '"']
        } else {
            seq![s[0]]
        }) + doubled(s.skip(1)),
    decreases s.len(),
{
    if s.len() == 1 {
        assert(s.drop_last() =~= Seq::empty());
        assert(s.skip(1) =~= Seq::empty());
        assert(doubled(s) =~= (if s[0] == '"' {
            seq!['"', '"']
        } else {
            seq![s[0]]
        }) + doubled(s.skip(1)));
    } else {
        let front = s.drop_last();
        lemma_doubled_front(front);
        assert(front.skip(1) =~= s.skip(1).drop_last());
        assert(s.skip(1).last() == s.last());
        assert(doubled(s) =~= (if s[0] == '"' {
            seq!['"', '"']
        } else {
            seq![s[0]]
        }) + doubled(s.skip(1)));
    }
}

/// Reading back doubled quotes.
proof fn lemma_undoubled(s: Seq<char>)
    ensures
        undoubled(doubled(s)) == Some(s),
    decreases s.len(),
{
    if s.len() > 0 {
        lemma_doubled_front(s);
        lemma_undoubled(s.skip(1));
        let d = doubled(s);
        if s[0] == '"' {
            assert(d[0] == '"' && d[1] == '"');
            assert(d.skip(2) =~= doubled(s.skip(1)));
        } else {
            assert(d[0] == s[0]);
            assert(d.skip(1) =~= doubled(s.skip(1)));
        }
        assert(seq![s[0]] + s.skip(1) =~= s);
    }
}

/// A field reads back as the text that was written.
pub proof fn lemma_field_reads_back(s: Seq<char>)
    ensures
        read_field(field(s)) == Some(s),
{
    if needs_quotes(s) {
        let f = field(s);
        lemma_undoubled(s);
        assert(f[0] == '"');
        assert(f.last() == '"');
        assert(f.subrange(1, f.len() - 1) =~= doubled(s));
    } else if s.len() > 0 {
        assert(s.contains(s[0]));
    }
}

/// A field without quotes holds nothing that could end it early.
pub proof fn lemma_bare_field_has_no_separator(s: Seq<char>)
    requires
        !needs_quotes(s),
    ensures
        field(s) == s,
        !field(s).contains(','),
        !field(s).contains('\n'),
        !field(s).contains('"'),
{
}

/// Whether a cell holds an optional number: empty without one, else its digits.
pub open spec fn holds_number(cell: Seq<char>, v: Option<u64>) -> bool {
    match v {
        None => cell.len() == 0,
        Some(n) => cell.len() > 0 && all_digits(cell) && dec_value(cell) == n,
    }
}

/// A number is read back from its cell.
pub proof fn lemma_number_cell(v: Option<u64>)
    ensures
        holds_number(opt_dec(v), v),
        v matches Some(n) ==> holds_number(dec(n as nat), v),
{
    match v {
        Some(n) => lemma_dec_reads_back(n as nat),
        None => {},
    }
}

/// A truth value is one digit, one or zero.
pub proof fn lemma_flag_cell(b: bool)
    ensures
        flag(b).len() == 1,
        flag(b)[0] == (if b {
            '1'
        } else {
            '0'
        }),
{
    reveal_strlit("1");
    reveal_strlit("0");
}

/// A table is its rows one behind the other, each with commas between its cells
/// and a line end behind it.
pub proof fn lemma_table_is_its_rows(table: Seq<Seq<Seq<char>>>)
    ensures
        rows(table) == table.map_values(|cells: Seq<Seq<char>>| join(cells, seq![',']) + seq!['\n']).flatten(),
    decreases table.len(),
{
    reveal_strlit(",");
    reveal_strlit("\n");
    assert(","@ =~= seq![',']);
    assert("\n"@ =~= seq!['\n']);
    let lines = table.map_values(|cells: Seq<Seq<char>>| join(cells, seq![',']) + seq!['\n']);
    if table.len() == 0 {
        assert(lines =~= Seq::empty());
    } else {
        lemma_table_is_its_rows(table.drop_last());
        let front = table.drop_last().map_values(|cells: Seq<Seq<char>>| join(cells, seq![',']) + seq!['\n']);
        assert(lines =~= front.push(row(table.last())));
        front.lemma_flatten_push(row(table.last()));
    }
}

/// A field is quoted exactly when it holds a comma, a quote or a newline; any other
/// is written as it is.
pub proof fn lemma_when_a_field_is_quoted(s: Seq<char>)
    ensures
        (forall|i: int| 0 <= i < s.len() ==> #[trigger] s[i] != ',' && s[i] != '"' && s[i] != '\n') ==> field(s) == s,
        (exists|i: int| 0 <= i < s.len() && (#[trigger] s[i] == ',' || s[i] == '"' || s[i] == '\n')) ==> field(s).len()
            >= 2 && field(s)[0] == '"' && field(s).last() == '"',
{
    if exists|i: int| 0 <= i < s.len() && (#[trigger] s[i] == ',' || s[i] == '"' || s[i] == '\n') {
        let i = choose|i: int| 0 <= i < s.len() && (#[trigger] s[i] == ',' || s[i] == '"' || s[i] == '\n');
        assert(s.contains(s[i]));
    }
}

} // verus!
