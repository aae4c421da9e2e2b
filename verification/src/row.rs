//! The row normaliser: quote and trade lines as rows of fifteen fields.

use vstd::prelude::*;
use vstd::string::StringExecFns;
use crate::error::{Error, Fault};
use crate::text::{chars_of, split, split_spec, texts};

verus! {

/// The number of fields of a row.
pub const ROW_WIDTH: usize = 15;

/// The number of fields that a trade line carries.
pub const TRADE_WIDTH: usize = 13;

/// The tag that a quote line starts with.
pub open spec fn quote_tag() -> Seq<char> {
    seq!['F', '@']
}

/// The tag that a trade line starts with.
pub open spec fn trade_tag() -> Seq<char> {
    seq!['F', 'T']
}

/// The field that stands for the number zero.
pub open spec fn zero_field() -> Seq<char> {
    seq!['0']
}

/// The field that stands for a missing value.
pub open spec fn blank_field() -> Seq<char> {
    Seq::<char>::empty()
}

/// The first two characters of a line, or all of it where it is shorter.
pub open spec fn tag_of(line: Seq<char>) -> Seq<char> {
    if line.len() >= 2 {
        line.take(2)
    } else {
        line
    }
}

/// `s` with the items at `i` and `j` exchanged.
pub open spec fn swapped(s: Seq<Seq<char>>, i: int, j: int) -> Seq<Seq<char>> {
    s.update(i, s[j]).update(j, s[i])
}

/// A trade's fields in the layout of a quote: the first thirteen fields, two
/// blank fields after them, fields 6 and 7 exchanged, then fields 7 and 8,
/// and zero in fields 10 and 11.
pub open spec fn trade_layout(f: Seq<Seq<char>>) -> Seq<Seq<char>> {
    let padded = f.take(TRADE_WIDTH as int).push(blank_field()).push(blank_field());
    swapped(swapped(padded, 6, 7), 7, 8).update(10, zero_field()).update(11, zero_field())
}

/// The row that a line of the given tag stands for.
pub open spec fn normalize_spec(tag: Seq<char>, line: Seq<char>) -> Result<Seq<Seq<char>>, Fault> {
    let fields = split_spec(line, ' ');
    if tag == quote_tag() {
        if fields.len() == ROW_WIDTH {
            Ok(fields)
        } else {
            Err(Fault::MalformedRecord)
        }
    } else if tag == trade_tag() {
        if fields.len() >= TRADE_WIDTH {
            Ok(trade_layout(fields))
        } else {
            Err(Fault::MalformedRecord)
        }
    } else {
        Err(Fault::UnsupportedRecordType)
    }
}

/// The row that a line stands for, by the tag that it starts with.
pub open spec fn row_of(line: Seq<char>) -> Result<Seq<Seq<char>>, Fault> {
    normalize_spec(tag_of(line), line)
}

/// A trade's row, field by field: fields 6, 7 and 8 hold what the line had
/// in fields 7, 8 and 6, fields 10 and 11 hold zero, fields 13 and 14 are
/// blank, and every other field is the line's own.
pub proof fn lemma_trade_layout(f: Seq<Seq<char>>)
    requires
        f.len() >= TRADE_WIDTH,
    ensures
        trade_layout(f) == seq![
            f[0],
            f[1],
            f[2],
            f[3],
            f[4],
            f[5],
            f[7],
            f[8],
            f[6],
            f[9],
            zero_field(),
            zero_field(),
            f[12],
            blank_field(),
            blank_field(),
        ],
{
}

/// A quote line of exactly fifteen space-separated fields is its own row.
pub proof fn lemma_quote_is_split(line: Seq<char>)
    requires
        split_spec(line, ' ').len() == ROW_WIDTH,
    ensures
        normalize_spec(quote_tag(), line) == Ok::<Seq<Seq<char>>, Fault>(split_spec(line, ' ')),
{
}

/// A trade line of thirteen or more fields gives a row of fifteen fields
/// with zero in fields 10 and 11; fields 6, 7 and 8 hold the line's fields
/// 7, 8 and 6.
pub proof fn lemma_trade_shape(line: Seq<char>)
    requires
        split_spec(line, ' ').len() >= TRADE_WIDTH,
    ensures
        normalize_spec(trade_tag(), line) is Ok,
        normalize_spec(trade_tag(), line)->Ok_0.len() == ROW_WIDTH,
        normalize_spec(trade_tag(), line)->Ok_0[10] == zero_field(),
        normalize_spec(trade_tag(), line)->Ok_0[11] == zero_field(),
        normalize_spec(trade_tag(), line)->Ok_0[6] == split_spec(line, ' ')[7],
        normalize_spec(trade_tag(), line)->Ok_0[7] == split_spec(line, ' ')[8],
        normalize_spec(trade_tag(), line)->Ok_0[8] == split_spec(line, ' ')[6],
{
}

/// A trade whose fields 6, 7 and 8 hold the same text keeps that text in
/// all three: the only trades on which the two exchanges change nothing.
pub proof fn lemma_trade_rotation_fixed(line: Seq<char>)
    requires
        split_spec(line, ' ').len() >= TRADE_WIDTH,
        split_spec(line, ' ')[6] == split_spec(line, ' ')[7],
        split_spec(line, ' ')[7] == split_spec(line, ' ')[8],
    ensures
        normalize_spec(trade_tag(), line) is Ok,
        normalize_spec(trade_tag(), line)->Ok_0[6] == split_spec(line, ' ')[8],
        normalize_spec(trade_tag(), line)->Ok_0[7] == split_spec(line, ' ')[6],
        normalize_spec(trade_tag(), line)->Ok_0[8] == split_spec(line, ' ')[7],
{
}

/// A row: fifteen fields of text.
#[derive(Debug, Clone, PartialEq, Eq)]
pub struct Row {
    pub fields: Vec<String>,
}

impl View for Row {
    type V = Seq<Seq<char>>;

    open spec fn view(&self) -> Seq<Seq<char>> {
        texts(self.fields@)
    }
}

impl Row {
    /// The row has its fifteen fields.
    pub open spec fn wf(&self) -> bool {
        self.fields.len() == ROW_WIDTH
    }
}

/// The first two characters of `line`, or all of it where it is shorter.
pub fn leading_tag(line: &str) -> (tag: String)
    ensures
        tag@ == tag_of(line@),
{
    let n = line.unicode_len();
    if n >= 2 {
        let t = line.substring_char(0, 2);
        String::from_str(t)
    } else {
        String::from_str(line)
    }
}

/// Reads a quote line: its fifteen space-separated fields, as they stand.
pub fn parse_quote(row: &str) -> (res: Result<Row, Error>)
    ensures
        match normalize_spec(quote_tag(), row@) {
            Ok(fields) => res matches Ok(r) && r@ == fields && r.wf(),
            Err(fault) => res matches Err(e) && e@ == fault,
        },
{
    let fields = split(row, ' ');
    if fields.len() == ROW_WIDTH {
        Ok(Row { fields })
    } else {
        Err(Error::MalformedRecord)
    }
}

/// Reads a trade line: its first thirteen space-separated fields, brought
/// into the layout of a quote.
pub fn parse_trade(row: &str) -> (res: Result<Row, Error>)
    ensures
        match normalize_spec(trade_tag(), row@) {
            Ok(fields) => res matches Ok(r) && r@ == fields && r.wf(),
            Err(fault) => res matches Err(e) && e@ == fault,
        },
{
    let f = split(row, ' ');
    if f.len() < TRADE_WIDTH {
        return Err(Error::MalformedRecord);
    }
    proof {
        reveal_strlit("0");
    }
    let mut fields: Vec<String> = Vec::new();
    fields.push(f[0].clone());
    fields.push(f[1].clone());
    fields.push(f[2].clone());
    fields.push(f[3].clone());
    fields.push(f[4].clone());
    fields.push(f[5].clone());
    fields.push(f[7].clone());
    fields.push(f[8].clone());
    fields.push(f[6].clone());
    fields.push(f[9].clone());
    fields.push(String::from_str("0"));
    fields.push(String::from_str("0"));
    fields.push(f[12].clone());
    fields.push(String::new());
    fields.push(String::new());
    proof {
        assert("0"@ =~= zero_field());
    }
    Ok(Row { fields })
}

/// Brings a line of the given tag into the shape of a row.
///
/// A quote line must have exactly fifteen space-separated fields and is
/// taken as it stands. A trade line must have at least thirteen; its first
/// thirteen are rearranged into the quote layout. Any other tag is refused.
pub fn normalize(tag: &str, line: &str) -> (res: Result<Row, Error>)
    ensures
        match normalize_spec(tag@, line@) {
            Ok(fields) => res matches Ok(r) && r@ == fields && r.wf(),
            Err(fault) => res matches Err(e) && e@ == fault,
        },
        normalize_spec(tag@, line@) matches Ok(fields) ==> fields.len() == ROW_WIDTH,
        normalize_spec(tag@, line@) matches Err(fault) ==> fault.is_row_fault(),
{
    let t = chars_of(tag);
    proof {
        if t@.len() == 2 {
            assert(t@ =~= seq![t@[0], t@[1]]);
        }
    }
    if t.len() == 2 && t[0] == 'F' && t[1] == '@' {
        parse_quote(line)
    } else if t.len() == 2 && t[0] == 'F' && t[1] == 'T' {
        parse_trade(line)
    } else {
        Err(Error::UnsupportedRecordType)
    }
}

/// Brings a line into the shape of a row, by the tag that it starts with.
pub fn normalize_line(line: &str) -> (res: Result<Row, Error>)
    ensures
        match row_of(line@) {
            Ok(fields) => res matches Ok(r) && r@ == fields && r.wf(),
            Err(fault) => res matches Err(e) && e@ == fault,
        },
        row_of(line@) matches Ok(fields) ==> fields.len() == ROW_WIDTH,
        row_of(line@) matches Err(fault) ==> fault.is_row_fault(),
{
    let tag = leading_tag(line);
    normalize(tag.as_str(), line)
}

} // verus!
