//! The row accumulator: fifteen column buffers kept in step, and the frame
//! that a filled batch becomes.

use vstd::prelude::*;
use crate::column::{parse_value, parses, ColumnBuffer, ColumnKind, Series, Value};
use crate::error::{Error, Fault};
use crate::row::{row_of, Row, ROW_WIDTH};

verus! {

/// The kind of the column of the given index.
pub open spec fn kind_of(column: int) -> ColumnKind {
    if column == 1 {
        ColumnKind::UInt64
    } else if column == 2 || column == 3 || column == 6 || column == 10 {
        ColumnKind::UInt32
    } else if column == 7 || column == 11 {
        ColumnKind::Float32
    } else {
        ColumnKind::Categorical
    }
}

/// The name of the column of the given index.
pub open spec fn name_of(column: int) -> Seq<char> {
    if column == 0 {
        "c1"@
    } else if column == 1 {
        "c2"@
    } else if column == 2 {
        "c3"@
    } else if column == 3 {
        "c4"@
    } else if column == 4 {
        "c5"@
    } else if column == 5 {
        "c6"@
    } else if column == 6 {
        "c7"@
    } else if column == 7 {
        "c8"@
    } else if column == 8 {
        "c9"@
    } else if column == 9 {
        "c10"@
    } else if column == 10 {
        "c11"@
    } else if column == 11 {
        "c12"@
    } else if column == 12 {
        "c13"@
    } else if column == 13 {
        "c14"@
    } else {
        "c15"@
    }
}

/// The kind of the column of the given index.
pub fn column_kind(column: usize) -> (k: ColumnKind)
    ensures
        k == kind_of(column as int),
{
    if column == 1 {
        ColumnKind::UInt64
    } else if column == 2 || column == 3 || column == 6 || column == 10 {
        ColumnKind::UInt32
    } else if column == 7 || column == 11 {
        ColumnKind::Float32
    } else {
        ColumnKind::Categorical
    }
}

/// The name of the column of the given index.
pub fn column_name(column: usize) -> (name: &'static str)
    ensures
        name@ == name_of(column as int),
{
    match column {
        0 => "c1",
        1 => "c2",
        2 => "c3",
        3 => "c4",
        4 => "c5",
        5 => "c6",
        6 => "c7",
        7 => "c8",
        8 => "c9",
        9 => "c10",
        10 => "c11",
        11 => "c12",
        12 => "c13",
        13 => "c14",
        _ => "c15",
    }
}

/// The least column below `upto` whose field denotes no value of the
/// column's kind.
pub open spec fn first_bad(fields: Seq<Seq<char>>, upto: int) -> Option<int>
    decreases upto,
{
    if upto <= 0 {
        None
    } else {
        match first_bad(fields, upto - 1) {
            Some(j) => Some(j),
            None => if parse_value(kind_of(upto - 1), fields[upto - 1]) is None {
                Some(upto - 1)
            } else {
                None
            },
        }
    }
}

/// The values that the fifteen fields of a row denote, column by column.
pub open spec fn record_of(fields: Seq<Seq<char>>) -> Seq<Value> {
    Seq::new(ROW_WIDTH as nat, |j: int| parse_value(kind_of(j), fields[j])->Some_0)
}

/// The record that a row of fifteen fields denotes; where a field is no
/// value of its column, the first such column and its field.
pub open spec fn read_record(fields: Seq<Seq<char>>) -> Result<Seq<Value>, Fault> {
    if fields.len() != ROW_WIDTH {
        Err(Fault::MalformedRecord)
    } else {
        match first_bad(fields, ROW_WIDTH as int) {
            Some(j) => Err(Fault::NumericParseError { column: j, raw_value: fields[j] }),
            None => Ok(record_of(fields)),
        }
    }
}

/// The record that a line denotes, or why the line is dropped.
pub open spec fn accept(line: Seq<char>) -> Result<Seq<Value>, Fault> {
    match row_of(line) {
        Ok(fields) => read_record(fields),
        Err(fault) => Err(fault),
    }
}

/// What `first_bad` finds is the least column that fails, and it is below
/// the bound; where it finds none, every column below the bound has a value.
pub proof fn lemma_first_bad(fields: Seq<Seq<char>>, upto: int)
    ensures
        match first_bad(fields, upto) {
            Some(j) => {
                &&& 0 <= j < upto
                &&& parse_value(kind_of(j), fields[j]) is None
                &&& forall|k: int| 0 <= k < j ==> parse_value(kind_of(k), #[trigger] fields[k]) is Some
            },
            None => forall|k: int|
                0 <= k < upto ==> parse_value(kind_of(k), #[trigger] fields[k]) is Some,
        },
    decreases upto,
{
    if upto > 0 {
        lemma_first_bad(fields, upto - 1);
    }
}

/// A line is dropped only for a fault of its own: one of the row faults.
/// The record of a line that is kept has fifteen values, each of the kind
/// of its column.
pub proof fn lemma_accept_faults(line: Seq<char>)
    ensures
        accept(line) matches Err(fault) ==> fault.is_row_fault(),
        accept(line) matches Ok(record) ==> record.len() == ROW_WIDTH && forall|j: int|
            0 <= j < ROW_WIDTH ==> (#[trigger] record[j]).kind() == kind_of(j),
{
    if let Ok(fields) = row_of(line) {
        lemma_first_bad(fields, ROW_WIDTH as int);
    }
}

/// The rows of a table that is given column by column.
pub open spec fn rows_of(columns: Seq<Seq<Value>>, height: nat) -> Seq<Seq<Value>> {
    Seq::new(height, |i: int| Seq::new(columns.len(), |j: int| columns[j][i]))
}

/// The row accumulator: one buffer per column, all of the same length.
pub struct Columns {
    pub cols: Vec<ColumnBuffer>,
    pub len: usize,
}

impl Columns {
    /// The values of the buffers, column by column.
    pub open spec fn columns(&self) -> Seq<Seq<Value>> {
        Seq::new(self.cols@.len(), |j: int| self.cols@[j].values())
    }

    /// The rows that were accumulated since the last batch, in order.
    pub open spec fn rows(&self) -> Seq<Seq<Value>> {
        rows_of(self.columns(), self.len as nat)
    }

    /// Whether the buffer of index `j` is the one that column `j` asks for.
    pub open spec fn fits(&self, j: int) -> bool {
        &&& self.cols@[j].wf()
        &&& self.cols@[j].kind() == kind_of(j)
        &&& self.cols@[j].kind() != ColumnKind::Categorical ==> self.cols@[j].column() == j
    }

    /// There are fifteen buffers, each of its column's kind, and all hold as
    /// many values as there are rows.
    pub open spec fn wf(&self) -> bool {
        &&& self.cols@.len() == ROW_WIDTH
        &&& forall|j: int| 0 <= j < ROW_WIDTH ==> #[trigger] self.fits(j)
        &&& forall|j: int|
            0 <= j < ROW_WIDTH ==> (#[trigger] self.cols@[j]).values().len() == self.len
    }

    /// An empty accumulator.
    pub fn with_capacity(capacity: usize) -> (r: Self)
        ensures
            r.wf(),
            r.rows() == Seq::<Seq<Value>>::empty(),
            r.len == 0,
    {
        let mut cols: Vec<ColumnBuffer> = Vec::new();
        let mut j: usize = 0;
        while j < ROW_WIDTH
            invariant
                j <= ROW_WIDTH,
                cols@.len() == j,
                forall|k: int|
                    0 <= k < j ==> {
                        &&& (#[trigger] cols@[k]).wf()
                        &&& cols@[k].kind() == kind_of(k)
                        &&& cols@[k].kind() != ColumnKind::Categorical ==> cols@[k].column() == k
                        &&& cols@[k].values().len() == 0
                    },
            decreases ROW_WIDTH - j,
        {
            cols.push(ColumnBuffer::with_capacity(column_kind(j), j, capacity));
            j = j + 1;
        }
        let r = Columns { cols, len: 0 };
        r
    }

    /// The number of rows in the accumulator.
    pub fn len(&self) -> (n: usize)
        requires
            self.wf(),
        ensures
            n == self.rows().len(),
    {
        self.len
    }

    /// Appends a row: each of the fifteen buffers gains the value that its
    /// field denotes. Where a field denotes none, no buffer changes, and the
    /// error names the first such column and its field.
    pub fn push(&mut self, row: &Row) -> (res: Result<(), Error>)
        requires
            old(self).wf(),
        ensures
            final(self).wf(),
            match read_record(row@) {
                Ok(record) => res is Ok && final(self).rows() == old(self).rows().push(record),
                Err(fault) => *final(self) == *old(self) && (res matches Err(e) && e@ == fault),
            },
    {
        if row.fields.len() != ROW_WIDTH {
            return Err(Error::MalformedRecord);
        }
        let ghost before = *self;
        let mut j: usize = 0;
        while j < ROW_WIDTH
            invariant
                j <= ROW_WIDTH,
                row.fields.len() == ROW_WIDTH,
                first_bad(row@, j as int) is None,
                *self == before,
                before.wf(),
            decreases ROW_WIDTH - j,
        {
            if !parses(column_kind(j), row.fields[j].as_str()) {
                proof {
                    lemma_first_bad(row@, ROW_WIDTH as int);
                    lemma_first_bad(row@, j as int);
                    assert(parse_value(kind_of(j as int), row@[j as int]) is None);
                }
                return Err(
                    Error::NumericParseError { column: j, raw_value: row.fields[j].clone() },
                );
            }
            j = j + 1;
        }
        proof {
            lemma_first_bad(row@, ROW_WIDTH as int);
        }
        let ghost record = record_of(row@);
        let mut j: usize = 0;
        while j < ROW_WIDTH
            invariant
                j <= ROW_WIDTH,
                row.fields.len() == ROW_WIDTH,
                before.wf(),
                record == record_of(row@),
                forall|k: int|
                    0 <= k < ROW_WIDTH ==> parse_value(kind_of(k), #[trigger] row@[k]) is Some,
                self.cols@.len() == ROW_WIDTH,
                self.len == before.len,
                forall|k: int| 0 <= k < ROW_WIDTH ==> #[trigger] self.fits(k),
                forall|k: int|
                    0 <= k < j ==> (#[trigger] self.cols@[k]).values() == before.cols@[k].values().push(
                        record[k],
                    ),
                forall|k: int| j <= k < ROW_WIDTH ==> (#[trigger] self.cols@[k]) == before.cols@[k],
            decreases ROW_WIDTH - j,
        {
            proof {
                assert(self.fits(j as int));
            }
            let ghost prior = *self;
            let _ = self.cols[j].push(row.fields[j].as_str());
            proof {
                assert forall|k: int| 0 <= k < ROW_WIDTH implies #[trigger] self.fits(k) by {
                    if k != j {
                        assert(prior.fits(k));
                    }
                }
            }
            j = j + 1;
        }
        proof {
            assert(self.fits(0));
        }
        let ghost filled = *self;
        let n = self.cols[0].len();
        self.len = n;
        proof {
            assert forall|k: int| 0 <= k < ROW_WIDTH implies #[trigger] self.fits(k) by {
                assert(filled.fits(k));
            }
            assert forall|k: int| 0 <= k < ROW_WIDTH implies (#[trigger] self.cols@[k]).values().len()
                == self.len by {}
            assert forall|i: int| 0 <= i < self.rows().len() implies self.rows()[i]
                == before.rows().push(record)[i] by {
                assert forall|k: int| 0 <= k < ROW_WIDTH implies self.rows()[i][k]
                    == before.rows().push(record)[i][k] by {}
            }
        }
        Ok(())
    }

    /// Ends the batch: the fifteen buffers become fifteen series, named
    /// `c1` to `c15`, in column order.
    pub fn into_cols(self) -> (out: Vec<Series>)
        requires
            self.wf(),
        ensures
            out@.len() == ROW_WIDTH,
            forall|j: int|
                0 <= j < ROW_WIDTH ==> {
                    &&& (#[trigger] out@[j]).wf()
                    &&& out@[j].name@ == name_of(j)
                    &&& out@[j].kind() == kind_of(j)
                    &&& out@[j].values() == self.cols@[j].values()
                },
    {
        let ghost before = self.cols@;
        let mut cols = self.cols;
        let mut out: Vec<Series> = Vec::new();
        let mut j: usize = 0;
        proof {
            assert forall|k: int| 0 <= k < ROW_WIDTH implies (#[trigger] before[k]).wf()
                && before[k].kind() == kind_of(k) by {
                assert(self.fits(k));
            }
        }
        while j < ROW_WIDTH
            invariant
                j <= ROW_WIDTH,
                before.len() == ROW_WIDTH,
                cols@ == before.subrange(j as int, ROW_WIDTH as int),
                forall|k: int|
                    0 <= k < ROW_WIDTH ==> (#[trigger] before[k]).wf() && before[k].kind()
                        == kind_of(k),
                out@.len() == j,
                forall|k: int|
                    0 <= k < j ==> {
                        &&& (#[trigger] out@[k]).wf()
                        &&& out@[k].name@ == name_of(k)
                        &&& out@[k].kind() == kind_of(k)
                        &&& out@[k].values() == before[k].values()
                    },
            decreases ROW_WIDTH - j,
        {
            let buffer = cols.remove(0);
            out.push(buffer.finish(column_name(j)));
            j = j + 1;
        }
        out
    }

    /// Ends the batch: the accumulator becomes a frame of fifteen series that
    /// holds the accumulated rows.
    pub fn into_frame(self) -> (frame: Frame)
        requires
            self.wf(),
        ensures
            frame.wf(),
            frame.standard(),
            frame.rows() == self.rows(),
    {
        let ghost rows = self.rows();
        let frame = Frame { columns: self.into_cols() };
        proof {
            assert forall|i: int| 0 <= i < rows.len() implies frame.rows()[i] == rows[i] by {}
            assert(frame.schema() =~= standard_schema());
        }
        frame
    }
}

/// One column of a schema: its name and its kind.
#[derive(Debug, Clone, PartialEq, Eq)]
pub struct Field {
    pub name: String,
    pub kind: ColumnKind,
}

/// A batch of rows, column by column.
#[derive(Debug, Clone, PartialEq, Eq)]
pub struct Frame {
    pub columns: Vec<Series>,
}

impl Frame {
    /// The number of rows: the length of the first series.
    pub open spec fn spec_height(&self) -> nat {
        if self.columns@.len() == 0 {
            0
        } else {
            self.columns@[0].values().len()
        }
    }

    /// Whether all series have the same length.
    pub open spec fn aligned(&self) -> bool {
        forall|j: int|
            0 <= j < self.columns@.len() ==> (#[trigger] self.columns@[j]).values().len()
                == self.spec_height()
    }

    /// All series have the same length and well-formed data.
    pub open spec fn wf(&self) -> bool {
        &&& self.aligned()
        &&& forall|j: int| 0 <= j < self.columns@.len() ==> (#[trigger] self.columns@[j]).wf()
    }

    /// The names and kinds of the columns, in order.
    pub open spec fn schema(&self) -> Seq<(Seq<char>, ColumnKind)> {
        Seq::new(self.columns@.len(), |j: int| (self.columns@[j].name@, self.columns@[j].kind()))
    }

    /// Whether the frame has the fifteen columns of the row schema.
    pub open spec fn standard(&self) -> bool {
        self.schema() == standard_schema()
    }

    /// The rows of the frame.
    pub open spec fn rows(&self) -> Seq<Seq<Value>> {
        rows_of(Seq::new(self.columns@.len(), |j: int| self.columns@[j].values()), self.spec_height())
    }

    /// Makes a frame of the given series. They must all have the same
    /// length.
    pub fn new(columns: Vec<Series>) -> (res: Result<Frame, Error>)
        ensures
            match res {
                Ok(frame) => frame.columns == columns && frame.aligned(),
                Err(e) => e@ == Fault::SchemaMismatch && !(Frame { columns }).aligned(),
            },
    {
        let n = columns.len();
        if n > 0 {
            let height = columns[0].len();
            let mut j: usize = 1;
            while j < n
                invariant
                    n == columns.len(),
                    1 <= j <= n,
                    height == columns@[0].values().len(),
                    forall|k: int| 0 <= k < j ==> (#[trigger] columns@[k]).values().len() == height,
                decreases n - j,
            {
                if columns[j].len() != height {
                    proof {
                        let frame = Frame { columns };
                        assert(frame.columns@[j as int].values().len() != frame.spec_height());
                    }
                    return Err(Error::SchemaMismatch);
                }
                j = j + 1;
            }
        }
        Ok(Frame { columns })
    }

    /// The number of rows.
    pub fn height(&self) -> (n: usize)
        ensures
            n == self.spec_height(),
    {
        if self.columns.len() == 0 {
            0
        } else {
            self.columns[0].len()
        }
    }

    /// The number of columns.
    pub fn width(&self) -> (n: usize)
        ensures
            n == self.columns@.len(),
    {
        self.columns.len()
    }

    /// The names and kinds of the columns, in order.
    pub fn fields(&self) -> (out: Vec<Field>)
        ensures
            schema_of(out@) == self.schema(),
    {
        let n = self.columns.len();
        let mut out: Vec<Field> = Vec::new();
        let mut j: usize = 0;
        while j < n
            invariant
                n == self.columns.len(),
                j <= n,
                out@.len() == j,
                forall|k: int|
                    0 <= k < j ==> (#[trigger] out@[k]).name@ == self.columns@[k].name@ && out@[k].kind
                        == self.columns@[k].kind(),
            decreases n - j,
        {
            out.push(
                Field { name: self.columns[j].name.clone(), kind: self.columns[j].data.column_kind() },
            );
            j = j + 1;
        }
        out
    }
}

/// The names and kinds of a sequence of fields.
pub open spec fn schema_of(fields: Seq<Field>) -> Seq<(Seq<char>, ColumnKind)> {
    Seq::new(fields.len(), |j: int| (fields[j].name@, fields[j].kind))
}

/// The schema of every batch of rows: fifteen columns, `c1` to `c15`, each
/// of its column's kind.
pub open spec fn standard_schema() -> Seq<(Seq<char>, ColumnKind)> {
    Seq::new(ROW_WIDTH as nat, |j: int| (name_of(j), kind_of(j)))
}

} // verus!
