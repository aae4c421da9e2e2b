//! Column buffers: one append-only typed buffer per column of a batch, and
//! the series that a finished buffer becomes.

use vstd::prelude::*;
use vstd::hash_map::StringHashMap;
use vstd::string::StringExecFns;
use crate::error::{Error, Fault};
use crate::numeric::{
    is_float_literal,
    parse_u32,
    parse_u32_spec,
    parse_u64,
    parse_u64_spec,
    Real,
};
use crate::text::texts;

verus! {

/// The type of a column's values.
#[derive(Debug, Clone, Copy, PartialEq, Eq, Structural)]
pub enum ColumnKind {
    /// Text from a small repeating vocabulary, stored once per batch.
    Categorical,
    /// Unsigned 64-bit integers.
    UInt64,
    /// Unsigned 32-bit integers.
    UInt32,
    /// 32-bit floating-point numbers, kept as the literals that denote them.
    Float32,
}

/// One value of a column.
pub enum Value {
    Text(Seq<char>),
    UInt64(u64),
    UInt32(u32),
    Float32(Seq<char>),
}

impl Value {
    /// The kind of column that holds such a value.
    pub open spec fn kind(self) -> ColumnKind {
        match self {
            Value::Text(_) => ColumnKind::Categorical,
            Value::UInt64(_) => ColumnKind::UInt64,
            Value::UInt32(_) => ColumnKind::UInt32,
            Value::Float32(_) => ColumnKind::Float32,
        }
    }
}

/// The value that a field denotes in a column of the given kind, if any.
pub open spec fn parse_value(kind: ColumnKind, s: Seq<char>) -> Option<Value> {
    match kind {
        ColumnKind::Categorical => Some(Value::Text(s)),
        ColumnKind::UInt64 => match parse_u64_spec(s) {
            Some(v) => Some(Value::UInt64(v)),
            None => None,
        },
        ColumnKind::UInt32 => match parse_u32_spec(s) {
            Some(v) => Some(Value::UInt32(v)),
            None => None,
        },
        ColumnKind::Float32 => if is_float_literal(s) {
            Some(Value::Float32(s))
        } else {
            None
        },
    }
}

/// Tests whether a field denotes a value of a column of the given kind.
pub fn parses(kind: ColumnKind, entry: &str) -> (r: bool)
    ensures
        r == (parse_value(kind, entry@) is Some),
{
    match kind {
        ColumnKind::Categorical => true,
        ColumnKind::UInt64 => parse_u64(entry).is_some(),
        ColumnKind::UInt32 => parse_u32(entry).is_some(),
        ColumnKind::Float32 => Real::parse(entry).is_some(),
    }
}

/// The values of `items` in first-seen order, each once.
pub open spec fn distinct(items: Seq<Seq<char>>) -> Seq<Seq<char>>
    decreases items.len(),
{
    if items.len() == 0 {
        items
    } else {
        let before = distinct(items.drop_last());
        if before.contains(items.last()) {
            before
        } else {
            before.push(items.last())
        }
    }
}

/// Whether no item of `items` occurs twice.
pub open spec fn no_duplicates(items: Seq<Seq<char>>) -> bool {
    forall|i: int, j: int| 0 <= i < j < items.len() ==> items[i] != items[j]
}

/// The values that a sequence of references into a dictionary stands for.
pub open spec fn decode(dictionary: Seq<Seq<char>>, codes: Seq<usize>) -> Seq<Seq<char>> {
    Seq::new(codes.len(), |i: int| dictionary[codes[i] as int])
}

/// The distinct values hold no value twice, and hold exactly the values of
/// the sequence.
pub proof fn lemma_distinct(items: Seq<Seq<char>>)
    ensures
        no_duplicates(distinct(items)),
        forall|x: Seq<char>| distinct(items).contains(x) <==> items.contains(x),
        distinct(items).len() <= items.len(),
    decreases items.len(),
{
    if items.len() > 0 {
        let head = items.drop_last();
        let before = distinct(head);
        lemma_distinct(head);
        assert forall|x: Seq<char>| distinct(items).contains(x) <==> items.contains(x) by {
            if items.contains(x) {
                let w = choose|w: int| 0 <= w < items.len() && items[w] == x;
                if w < head.len() {
                    assert(head[w] == x);
                    assert(head.contains(x));
                    let v = choose|v: int| 0 <= v < before.len() && before[v] == x;
                    assert(distinct(items)[v] == x);
                } else if !before.contains(x) {
                    assert(distinct(items)[before.len() as int] == x);
                }
            }
            if distinct(items).contains(x) {
                let v = choose|v: int| 0 <= v < distinct(items).len() && distinct(items)[v] == x;
                if v < before.len() {
                    assert(head.contains(x));
                    let w = choose|w: int| 0 <= w < head.len() && head[w] == x;
                    assert(items[w] == x);
                }
            }
        }
    }
}

/// The buffer of a categorical column: a dictionary of the distinct values
/// of the current batch, an index that finds a value in the dictionary, and
/// for each row a reference into the dictionary.
pub struct Categorical {
    pub cached: Vec<String>,
    pub index: StringHashMap<usize>,
    pub codes: Vec<usize>,
    pub len: usize,
}

impl View for Categorical {
    type V = Seq<Seq<char>>;

    /// The values that were pushed, in order.
    open spec fn view(&self) -> Seq<Seq<char>> {
        decode(texts(self.cached@), self.codes@)
    }
}

impl Categorical {
    /// Whether the index leads from `key` to the dictionary entry that holds
    /// it, where it holds `key`.
    pub open spec fn indexed(&self, key: Seq<char>) -> bool {
        self.index@.contains_key(key) ==> self.index@[key] < self.cached@.len()
            && self.cached@[self.index@[key] as int]@ == key
    }

    /// Whether the index finds the dictionary entry at `i`.
    pub open spec fn found(&self, i: int) -> bool {
        self.index@.contains_key(self.cached@[i]@) && self.index@[self.cached@[i]@] == i
    }

    /// Every reference points into the dictionary, the dictionary holds the
    /// distinct values of the buffer in first-seen order, each once, and the
    /// index finds exactly the entries of the dictionary.
    pub open spec fn wf(&self) -> bool {
        &&& self.len == self.codes.len()
        &&& forall|i: int| 0 <= i < self.codes.len() ==> (#[trigger] self.codes[i]) < self.cached.len()
        &&& texts(self.cached@) == distinct(self@)
        &&& no_duplicates(texts(self.cached@))
        &&& forall|key: Seq<char>| #[trigger] self.indexed(key)
        &&& forall|i: int| 0 <= i < self.cached@.len() ==> #[trigger] self.found(i)
    }

    /// An empty buffer. The capacity says how many rows a batch is expected
    /// to hold; the buffer grows as rows arrive.
    pub fn with_capacity(capacity: usize) -> (r: Self)
        ensures
            r.wf(),
            r@ == Seq::<Seq<char>>::empty(),
    {
        let r = Categorical {
            cached: Vec::new(),
            index: StringHashMap::new(),
            codes: Vec::new(),
            len: 0,
        };
        proof {
            assert(texts(r.cached@) =~= distinct(r@));
        }
        r
    }

    /// The number of values in the buffer.
    pub fn len(&self) -> (n: usize)
        requires
            self.wf(),
        ensures
            n == self@.len(),
    {
        self.len
    }

    /// Appends a value. It enters the dictionary if the batch has not seen it
    /// yet; the buffer then holds a reference to its dictionary entry.
    pub fn push(&mut self, entry: &str) -> (res: Result<(), Error>)
        requires
            old(self).wf(),
        ensures
            res is Ok,
            final(self).wf(),
            final(self)@ == old(self)@.push(entry@),
            texts(final(self).cached@) == if texts(old(self).cached@).contains(entry@) {
                texts(old(self).cached@)
            } else {
                texts(old(self).cached@).push(entry@)
            },
    {
        let ghost before = *self;
        let ghost dict = texts(self.cached@);
        let found: Option<usize> = match self.index.get(entry) {
            Some(i) => Some(*i),
            None => None,
        };
        proof {
            assert(before.indexed(entry@));
            if dict.contains(entry@) {
                let w = choose|w: int| 0 <= w < dict.len() && dict[w] == entry@;
                assert(before.found(w));
            }
        }
        let code = match found {
            Some(i) => {
                proof {
                    assert(dict[i as int] == entry@);
                }
                i
            },
            None => {
                let at = self.cached.len();
                self.cached.push(String::from_str(entry));
                self.index.insert(String::from_str(entry), at);
                proof {
                    assert(texts(self.cached@) =~= dict.push(entry@));
                    assert forall|i: int, j: int|
                        0 <= i < j < texts(self.cached@).len() implies texts(self.cached@)[i]
                        != texts(self.cached@)[j] by {}
                }
                at
            },
        };
        self.codes.push(code);
        self.len = self.codes.len();
        proof {
            assert(self@.drop_last() =~= before@);
            assert forall|key: Seq<char>| #[trigger] self.indexed(key) by {
                assert(before.indexed(key));
            }
            assert forall|i: int| 0 <= i < self.cached@.len() implies #[trigger] self.found(i) by {
                if i < before.cached@.len() {
                    assert(before.found(i));
                }
            }
        }
        Ok(())
    }

    /// Ends the batch: the buffer becomes a dictionary-encoded series of the
    /// given name.
    pub fn into_series(self, name: &str) -> (s: Series)
        requires
            self.wf(),
        ensures
            s.wf(),
            s.name@ == name@,
            s.kind() == ColumnKind::Categorical,
            s.values() == Seq::new(self@.len(), |i: int| Value::Text(self@[i])),
            s.data matches SeriesData::Categorical { dictionary, codes } && texts(dictionary@)
                == distinct(self@) && codes@ == self.codes@,
    {
        let s = Series {
            name: String::from_str(name),
            data: SeriesData::Categorical { dictionary: self.cached, codes: self.codes },
        };
        s
    }
}

/// A type of number that a numerical column can hold.
pub trait Numeric: Sized {
    /// The kind of column that holds such numbers.
    spec fn kind() -> ColumnKind;

    /// The number as a value of its column.
    spec fn value(&self) -> Value;

    /// What the type asks of each of its numbers.
    spec fn valid(&self) -> bool;

    /// Reads a number from a field.
    fn parse(entry: &str) -> (r: Option<Self>)
        ensures
            match r {
                Some(x) => parse_value(Self::kind(), entry@) == Some(x.value()) && x.valid(),
                None => parse_value(Self::kind(), entry@) is None,
            },
    ;

    /// The numbers of a finished buffer as the data of a series.
    fn into_data(items: Vec<Self>) -> (d: SeriesData)
        requires
            forall|i: int| 0 <= i < items.len() ==> (#[trigger] items[i]).valid(),
        ensures
            d.wf(),
            d.kind() == Self::kind(),
            d.values() == Seq::new(items.len() as nat, |i: int| items[i].value()),
    ;
}

impl Numeric for u64 {
    open spec fn kind() -> ColumnKind {
        ColumnKind::UInt64
    }

    open spec fn value(&self) -> Value {
        Value::UInt64(*self)
    }

    open spec fn valid(&self) -> bool {
        true
    }

    fn parse(entry: &str) -> (r: Option<Self>) {
        parse_u64(entry)
    }

    fn into_data(items: Vec<Self>) -> (d: SeriesData) {
        let d = SeriesData::UInt64(items);
        d
    }
}

impl Numeric for u32 {
    open spec fn kind() -> ColumnKind {
        ColumnKind::UInt32
    }

    open spec fn value(&self) -> Value {
        Value::UInt32(*self)
    }

    open spec fn valid(&self) -> bool {
        true
    }

    fn parse(entry: &str) -> (r: Option<Self>) {
        parse_u32(entry)
    }

    fn into_data(items: Vec<Self>) -> (d: SeriesData) {
        let d = SeriesData::UInt32(items);
        d
    }
}

impl Numeric for Real {
    open spec fn kind() -> ColumnKind {
        ColumnKind::Float32
    }

    open spec fn value(&self) -> Value {
        Value::Float32(self@)
    }

    open spec fn valid(&self) -> bool {
        self.wf()
    }

    fn parse(entry: &str) -> (r: Option<Self>) {
        Real::parse(entry)
    }

    fn into_data(items: Vec<Self>) -> (d: SeriesData) {
        let d = SeriesData::Float32(items);
        d
    }
}

/// The buffer of a numerical column: the numbers of the current batch.
pub struct Numerical<T> {
    pub inner: Vec<T>,
    pub column: usize,
}

impl<T> Numerical<T> {
    /// An empty buffer, for column 0. The capacity says how many rows a
    /// batch is expected to hold; the buffer grows as rows arrive.
    pub fn with_capacity(capacity: usize) -> (r: Self)
        ensures
            r.inner@ == Seq::<T>::empty(),
            r.column == 0,
    {
        Numerical { inner: Vec::new(), column: 0 }
    }

    /// The same buffer, for the column of the given index.
    pub fn in_column(self, column: usize) -> (r: Self)
        ensures
            r.inner == self.inner,
            r.column == column,
    {
        Numerical { inner: self.inner, column }
    }

    /// The number of values in the buffer.
    pub fn len(&self) -> (n: usize)
        ensures
            n == self.inner@.len(),
    {
        self.inner.len()
    }
}

impl<T: Numeric> Numerical<T> {
    /// The values that were pushed, in order.
    pub open spec fn values(&self) -> Seq<Value> {
        Seq::new(self.inner@.len(), |i: int| self.inner@[i].value())
    }

    /// Every number is one that its type accepts.
    pub open spec fn wf(&self) -> bool {
        forall|i: int| 0 <= i < self.inner@.len() ==> (#[trigger] self.inner@[i]).valid()
    }

    /// Appends the number that `entry` denotes. Where it denotes none, the
    /// buffer stays as it is and the error names the column and the field.
    pub fn push(&mut self, entry: &str) -> (res: Result<(), Error>)
        requires
            old(self).wf(),
        ensures
            final(self).wf(),
            final(self).column == old(self).column,
            match parse_value(T::kind(), entry@) {
                Some(v) => res is Ok && final(self).values() == old(self).values().push(v),
                None => final(self).inner == old(self).inner && (res matches Err(e) && e@
                    == (Fault::NumericParseError {
                    column: old(self).column as int,
                    raw_value: entry@,
                })),
            },
    {
        match T::parse(entry) {
            Some(x) => {
                self.inner.push(x);
                Ok(())
            },
            None => Err(
                Error::NumericParseError { column: self.column, raw_value: String::from_str(entry) },
            ),
        }
    }

    /// Ends the batch: the buffer becomes a series of the given name.
    pub fn into_series(self, name: &str) -> (s: Series)
        requires
            self.wf(),
        ensures
            s.wf(),
            s.name@ == name@,
            s.kind() == T::kind(),
            s.values() == self.values(),
    {
        let data = T::into_data(self.inner);
        let s = Series { name: String::from_str(name), data };
        s
    }
}

/// The data of a finished column.
#[derive(Debug, Clone, PartialEq, Eq)]
pub enum SeriesData {
    /// Dictionary-encoded text: the row `i` holds `dictionary[codes[i]]`.
    Categorical { dictionary: Vec<String>, codes: Vec<usize> },
    UInt64(Vec<u64>),
    UInt32(Vec<u32>),
    Float32(Vec<Real>),
}

impl SeriesData {
    /// The kind of the column.
    pub open spec fn kind(&self) -> ColumnKind {
        match self {
            SeriesData::Categorical { .. } => ColumnKind::Categorical,
            SeriesData::UInt64(_) => ColumnKind::UInt64,
            SeriesData::UInt32(_) => ColumnKind::UInt32,
            SeriesData::Float32(_) => ColumnKind::Float32,
        }
    }

    /// The values of the column, row by row.
    pub open spec fn values(&self) -> Seq<Value> {
        match self {
            SeriesData::Categorical { dictionary, codes } => Seq::new(
                codes@.len(),
                |i: int| Value::Text(dictionary@[codes@[i] as int]@),
            ),
            SeriesData::UInt64(items) => Seq::new(items@.len(), |i: int| Value::UInt64(items@[i])),
            SeriesData::UInt32(items) => Seq::new(items@.len(), |i: int| Value::UInt32(items@[i])),
            SeriesData::Float32(items) => Seq::new(
                items@.len(),
                |i: int| Value::Float32(items@[i]@),
            ),
        }
    }

    /// References point into the dictionary, which holds no text twice; the
    /// literals of a floating-point column are well formed.
    pub open spec fn wf(&self) -> bool {
        match self {
            SeriesData::Categorical { dictionary, codes } => {
                &&& forall|i: int| 0 <= i < codes@.len() ==> (#[trigger] codes@[i]) < dictionary@.len()
                &&& no_duplicates(texts(dictionary@))
            },
            SeriesData::Float32(items) => forall|i: int|
                0 <= i < items@.len() ==> (#[trigger] items@[i]).wf(),
            _ => true,
        }
    }

    /// The kind of the column.
    pub fn column_kind(&self) -> (k: ColumnKind)
        ensures
            k == self.kind(),
    {
        match self {
            SeriesData::Categorical { .. } => ColumnKind::Categorical,
            SeriesData::UInt64(_) => ColumnKind::UInt64,
            SeriesData::UInt32(_) => ColumnKind::UInt32,
            SeriesData::Float32(_) => ColumnKind::Float32,
        }
    }

    /// The number of rows.
    pub fn len(&self) -> (n: usize)
        ensures
            n == self.values().len(),
    {
        match self {
            SeriesData::Categorical { dictionary: _, codes } => codes.len(),
            SeriesData::UInt64(items) => items.len(),
            SeriesData::UInt32(items) => items.len(),
            SeriesData::Float32(items) => items.len(),
        }
    }
}

/// A finished column: a name and the values of one batch.
#[derive(Debug, Clone, PartialEq, Eq)]
pub struct Series {
    pub name: String,
    pub data: SeriesData,
}

impl Series {
    /// The kind of the column.
    pub open spec fn kind(&self) -> ColumnKind {
        self.data.kind()
    }

    /// The values of the column, row by row.
    pub open spec fn values(&self) -> Seq<Value> {
        self.data.values()
    }

    /// The data is well formed.
    pub open spec fn wf(&self) -> bool {
        self.data.wf()
    }

    /// The number of rows.
    pub fn len(&self) -> (n: usize)
        ensures
            n == self.values().len(),
    {
        self.data.len()
    }
}

/// The buffer of one column, of either variant.
pub enum ColumnBuffer {
    Categorical(Categorical),
    UInt64(Numerical<u64>),
    UInt32(Numerical<u32>),
    Float32(Numerical<Real>),
}

impl ColumnBuffer {
    /// The kind of the column.
    pub open spec fn kind(&self) -> ColumnKind {
        match self {
            ColumnBuffer::Categorical(_) => ColumnKind::Categorical,
            ColumnBuffer::UInt64(_) => ColumnKind::UInt64,
            ColumnBuffer::UInt32(_) => ColumnKind::UInt32,
            ColumnBuffer::Float32(_) => ColumnKind::Float32,
        }
    }

    /// The values that were pushed, in order.
    pub open spec fn values(&self) -> Seq<Value> {
        match self {
            ColumnBuffer::Categorical(c) => Seq::new(c@.len(), |i: int| Value::Text(c@[i])),
            ColumnBuffer::UInt64(n) => n.values(),
            ColumnBuffer::UInt32(n) => n.values(),
            ColumnBuffer::Float32(n) => n.values(),
        }
    }

    /// The index of the column that a numerical buffer reports in its errors.
    pub open spec fn column(&self) -> int {
        match self {
            ColumnBuffer::Categorical(_) => 0,
            ColumnBuffer::UInt64(n) => n.column as int,
            ColumnBuffer::UInt32(n) => n.column as int,
            ColumnBuffer::Float32(n) => n.column as int,
        }
    }

    /// The buffer of the variant is well formed.
    pub open spec fn wf(&self) -> bool {
        match self {
            ColumnBuffer::Categorical(c) => c.wf(),
            ColumnBuffer::UInt64(n) => n.wf(),
            ColumnBuffer::UInt32(n) => n.wf(),
            ColumnBuffer::Float32(n) => n.wf(),
        }
    }

    /// An empty buffer for the column of the given index and kind.
    pub fn with_capacity(kind: ColumnKind, column: usize, capacity: usize) -> (r: Self)
        ensures
            r.wf(),
            r.kind() == kind,
            r.values() == Seq::<Value>::empty(),
            kind != ColumnKind::Categorical ==> r.column() == column,
    {
        let r = match kind {
            ColumnKind::Categorical => ColumnBuffer::Categorical(
                Categorical::with_capacity(capacity),
            ),
            ColumnKind::UInt64 => ColumnBuffer::UInt64(
                Numerical::with_capacity(capacity).in_column(column),
            ),
            ColumnKind::UInt32 => ColumnBuffer::UInt32(
                Numerical::with_capacity(capacity).in_column(column),
            ),
            ColumnKind::Float32 => ColumnBuffer::Float32(
                Numerical::with_capacity(capacity).in_column(column),
            ),
        };
        r
    }

    /// The number of values in the buffer.
    pub fn len(&self) -> (n: usize)
        requires
            self.wf(),
        ensures
            n == self.values().len(),
    {
        match self {
            ColumnBuffer::Categorical(c) => c.len(),
            ColumnBuffer::UInt64(n) => n.len(),
            ColumnBuffer::UInt32(n) => n.len(),
            ColumnBuffer::Float32(n) => n.len(),
        }
    }

    /// Appends the value that `value` denotes in this column. A categorical
    /// column takes any text; a numerical column refuses what is not a number
    /// of its type, and then stays as it is.
    pub fn push(&mut self, value: &str) -> (res: Result<(), Error>)
        requires
            old(self).wf(),
        ensures
            final(self).wf(),
            final(self).kind() == old(self).kind(),
            final(self).column() == old(self).column(),
            match parse_value(old(self).kind(), value@) {
                Some(v) => res is Ok && final(self).values() == old(self).values().push(v),
                None => final(self).values() == old(self).values() && (res matches Err(e) && e@
                    == (Fault::NumericParseError {
                    column: old(self).column(),
                    raw_value: value@,
                })),
            },
    {
        match self {
            ColumnBuffer::Categorical(c) => {
                let r = c.push(value);
                r
            },
            ColumnBuffer::UInt64(n) => n.push(value),
            ColumnBuffer::UInt32(n) => n.push(value),
            ColumnBuffer::Float32(n) => n.push(value),
        }
    }

    /// Ends the batch: the buffer becomes a series of the given name.
    pub fn finish(self, name: &str) -> (s: Series)
        requires
            self.wf(),
        ensures
            s.wf(),
            s.name@ == name@,
            s.kind() == self.kind(),
            s.values() == self.values(),
    {
        match self {
            ColumnBuffer::Categorical(c) => {
                c.into_series(name)
            },
            ColumnBuffer::UInt64(n) => n.into_series(name),
            ColumnBuffer::UInt32(n) => n.into_series(name),
            ColumnBuffer::Float32(n) => n.into_series(name),
        }
    }
}

} // verus!
