//! The symbol writer: the rows of one symbol, gathered batch by batch, and
//! the record of the sink that the batches go to.
//!
//! The writer decides; it does not touch a file. Each decision comes back as
//! a value (a [`Batch`] to write, a [`Command`] to carry out) for the caller
//! to perform.

use vstd::prelude::*;
use vstd::string::StringExecFns;
use crate::column::Value;
use crate::columns::{accept, schema_of, standard_schema, Columns, Field, Frame};
use crate::error::{Error, Fault};
use crate::row::normalize_line;

verus! {

/// What is known of a batched sink: the schema that it was opened with, and
/// whether it has been finished.
pub struct Sink {
    pub schema: Vec<Field>,
    pub finished: bool,
}

/// Why a finished sink takes no further batch.
pub open spec fn finished_cause() -> Seq<char> {
    "the sink is finished"@
}

/// Whether two schemas name the same columns with the same kinds.
pub fn same_schema(a: &Vec<Field>, b: &Vec<Field>) -> (r: bool)
    ensures
        r == (schema_of(a@) == schema_of(b@)),
{
    if a.len() != b.len() {
        return false;
    }
    let n = a.len();
    let mut j: usize = 0;
    while j < n
        invariant
            n == a.len(),
            n == b.len(),
            j <= n,
            forall|k: int| 0 <= k < j ==> schema_of(a@)[k] == schema_of(b@)[k],
        decreases n - j,
    {
        if !(a[j].name == b[j].name && a[j].kind == b[j].kind) {
            proof {
                assert(schema_of(a@)[j as int] != schema_of(b@)[j as int]);
            }
            return false;
        }
        j = j + 1;
    }
    proof {
        assert(schema_of(a@) =~= schema_of(b@));
    }
    true
}

impl Sink {
    /// A sink that was opened with the given schema and is not finished.
    pub fn open(schema: Vec<Field>) -> (r: Self)
        ensures
            r.schema == schema,
            !r.finished,
    {
        Sink { schema, finished: false }
    }

    /// Tests whether the sink takes the frame as its next batch: it must not
    /// be finished, and the frame must have the schema of the first batch.
    pub fn check_batch(&self, frame: &Frame) -> (res: Result<(), Error>)
        ensures
            match res {
                Ok(()) => !self.finished && frame.schema() == schema_of(self.schema@),
                Err(e) => if self.finished {
                    e@ == (Fault::IoError { cause: finished_cause() })
                } else {
                    e@ == Fault::SchemaMismatch && frame.schema() != schema_of(self.schema@)
                },
            },
    {
        if self.finished {
            return Err(Error::IoError { cause: String::from_str("the sink is finished") });
        }
        let fields = frame.fields();
        if same_schema(&fields, &self.schema) {
            Ok(())
        } else {
            Err(Error::SchemaMismatch)
        }
    }

    /// Finishes the sink. Says whether this call did it: `false` where the
    /// sink was finished before.
    pub fn finish(&mut self) -> (first: bool)
        ensures
            first == !old(self).finished,
            final(self).finished,
            final(self).schema == old(self).schema,
    {
        let first = !self.finished;
        self.finished = true;
        first
    }
}

/// A batch for the caller to write: the frame, the file it goes to, and
/// whether the file has to be created first, truncated, with the schema of
/// this frame.
#[derive(Debug, Clone, PartialEq, Eq)]
pub struct Batch {
    pub path: String,
    pub create: bool,
    pub frame: Frame,
}

/// The mathematical value of a [`Batch`].
pub struct Emitted {
    pub path: Seq<char>,
    pub create: bool,
    pub rows: Seq<Seq<Value>>,
}

impl View for Batch {
    type V = Emitted;

    open spec fn view(&self) -> Emitted {
        Emitted { path: self.path@, create: self.create, rows: self.frame.rows() }
    }
}

impl Batch {
    /// The frame is well formed and has the fifteen columns of the row schema.
    pub open spec fn wf(&self) -> bool {
        self.frame.wf() && self.frame.standard()
    }
}

/// The mathematical value of an optional batch.
pub open spec fn batch_view(batch: Option<Batch>) -> Option<Emitted> {
    match batch {
        Some(b) => Some(b@),
        None => None,
    }
}

/// The mathematical value of an optional error.
pub open spec fn fault_view(error: Option<Error>) -> Option<Fault> {
    match error {
        Some(e) => Some(e@),
        None => None,
    }
}

/// What a push did: the batch that had to leave first, if the buffer was
/// full, and why the row was dropped, if it was.
#[derive(Debug, Clone, PartialEq, Eq)]
pub struct Pushed {
    pub flushed: Option<Batch>,
    pub dropped: Option<Error>,
}

/// One thing for the caller to do to a file.
#[derive(Debug, Clone, PartialEq, Eq)]
pub enum Command {
    /// Write the batch to its file, creating the file first where the batch
    /// says so.
    Write(Batch),
    /// Finish the sink of the file at `path`: write the footer and close.
    Finish { path: String },
}

/// The mathematical value of a [`Command`].
pub enum Action {
    Write(Emitted),
    Finish { path: Seq<char> },
}

impl Action {
    /// The file that the command is about.
    pub open spec fn path(self) -> Seq<char> {
        match self {
            Action::Write(batch) => batch.path,
            Action::Finish { path } => path,
        }
    }
}

impl View for Command {
    type V = Action;

    open spec fn view(&self) -> Action {
        match self {
            Command::Write(batch) => Action::Write(batch@),
            Command::Finish { path } => Action::Finish { path: path@ },
        }
    }
}

impl Command {
    /// The batch of a write is well formed.
    pub open spec fn wf(&self) -> bool {
        self matches Command::Write(batch) ==> batch.wf()
    }
}

/// The mathematical values of a sequence of commands.
pub open spec fn actions(commands: Seq<Command>) -> Seq<Action> {
    Seq::new(commands.len(), |i: int| commands[i]@)
}

/// A write for each batch, in order.
pub open spec fn writes(out: Seq<Emitted>) -> Seq<Action> {
    Seq::new(out.len(), |i: int| Action::Write(out[i]))
}

/// Whether the batch of every write is well formed.
pub open spec fn all_wf(commands: Seq<Command>) -> bool {
    forall|i: int| 0 <= i < commands.len() ==> (#[trigger] commands[i]).wf()
}

/// The mathematical value of a [`Product`].
pub struct ProductState {
    pub path: Seq<char>,
    pub capacity: nat,
    pub rows: Seq<Seq<Value>>,
    pub opened: bool,
    pub closed: bool,
}

impl ProductState {
    /// The state of a writer that has seen nothing yet.
    pub open spec fn fresh(path: Seq<char>, capacity: nat) -> ProductState {
        ProductState {
            path,
            capacity,
            rows: Seq::<Seq<Value>>::empty(),
            opened: false,
            closed: false,
        }
    }

    /// Whether the buffer is full, so that it leaves before the next row.
    pub open spec fn flush_due(self) -> bool {
        self.rows.len() >= self.capacity
    }

    /// The batch that a flush hands out.
    pub open spec fn emitted(self) -> Emitted {
        Emitted { path: self.path, create: !self.opened, rows: self.rows }
    }

    /// The state after a flush: the buffer is empty and the sink is open.
    pub open spec fn flushed(self) -> ProductState {
        ProductState { rows: Seq::<Seq<Value>>::empty(), opened: true, ..self }
    }

    /// The state after a push of `line`, and the batch that left before it.
    pub open spec fn step(self, line: Seq<char>) -> (ProductState, Option<Emitted>) {
        let (base, out) = if self.flush_due() {
            (self.flushed(), Some(self.emitted()))
        } else {
            (self, None)
        };
        match accept(line) {
            Ok(record) => (ProductState { rows: base.rows.push(record), ..base }, out),
            Err(_) => (base, out),
        }
    }

    /// Whether a close has a last batch to write: there are rows left, or
    /// the file does not exist yet.
    pub open spec fn last_due(self) -> bool {
        self.rows.len() > 0 || !self.opened
    }

    /// What a close asks for: the last batch, where one is due, and the
    /// finishing of the sink; nothing where the writer is closed already.
    pub open spec fn shut_actions(self) -> Seq<Action> {
        if self.closed {
            Seq::<Action>::empty()
        } else if self.last_due() {
            seq![Action::Write(self.emitted()), Action::Finish { path: self.path }]
        } else {
            seq![Action::Finish { path: self.path }]
        }
    }

    /// The state after a close, and the batch that it hands out.
    pub open spec fn shut(self) -> (ProductState, Option<Emitted>) {
        if self.closed {
            (self, None)
        } else {
            (
                ProductState { closed: true, ..self.flushed() },
                if self.last_due() {
                    Some(self.emitted())
                } else {
                    None
                },
            )
        }
    }
}

/// The writer of one symbol: the file it writes to, how many rows it
/// buffers, the rows of the current batch, and what it knows of its sink.
pub struct Product {
    pub path: String,
    pub capacity: usize,
    pub columns: Columns,
    pub writer: Option<Sink>,
}

impl View for Product {
    type V = ProductState;

    open spec fn view(&self) -> ProductState {
        ProductState {
            path: self.path@,
            capacity: self.capacity as nat,
            rows: self.columns.rows(),
            opened: self.writer is Some,
            closed: self.writer matches Some(w) && w.finished,
        }
    }
}

impl Product {
    /// The buffer is well formed; the sink, once open, has the row schema;
    /// a closed writer holds no rows.
    pub open spec fn wf(&self) -> bool {
        &&& self.columns.wf()
        &&& self.writer matches Some(w) ==> schema_of(w.schema@) == standard_schema()
        &&& self@.closed ==> self@.rows.len() == 0
    }

    /// A writer for the file at `path` that buffers `capacity` rows.
    pub fn new(path: String, capacity: usize) -> (r: Self)
        ensures
            r.wf(),
            r@ == ProductState::fresh(path@, capacity as nat),
    {
        Product { path, capacity, columns: Columns::with_capacity(capacity), writer: None }
    }

    /// Whether the writer has been closed.
    pub fn is_closed(&self) -> (r: bool)
        ensures
            r == self@.closed,
    {
        match &self.writer {
            Some(w) => w.finished,
            None => false,
        }
    }

    /// The number of rows in the buffer.
    pub fn len(&self) -> (n: usize)
        requires
            self.wf(),
        ensures
            n == self@.rows.len(),
    {
        self.columns.len()
    }

    /// Flushes: the buffer becomes a batch for the caller to write, and a
    /// fresh buffer takes its place. The first batch opens the sink and fixes
    /// its schema. A closed writer refuses.
    pub fn write(&mut self) -> (res: Result<Batch, Error>)
        requires
            old(self).wf(),
        ensures
            final(self).wf(),
            match res {
                Ok(batch) => {
                    &&& !old(self)@.closed
                    &&& batch.wf()
                    &&& batch@ == old(self)@.emitted()
                    &&& final(self)@ == old(self)@.flushed()
                },
                Err(e) => {
                    &&& old(self)@.closed
                    &&& *final(self) == *old(self)
                    &&& e@ == (Fault::IoError { cause: finished_cause() })
                },
            },
    {
        if self.is_closed() {
            return Err(Error::IoError { cause: String::from_str("the sink is finished") });
        }
        let mut cols = Columns::with_capacity(self.capacity);
        std::mem::swap(&mut self.columns, &mut cols);
        let frame = cols.into_frame();
        let create = self.writer.is_none();
        if create {
            self.writer = Some(Sink::open(frame.fields()));
        }
        let checked = match &self.writer {
            Some(w) => w.check_batch(&frame),
            None => Ok(()),
        };
        match checked {
            Ok(()) => Ok(Batch { path: self.path.clone(), create, frame }),
            Err(e) => Err(e),
        }
    }

    /// Takes a line. Where the buffer is full, it is flushed first, and the
    /// batch comes back for the caller to write. The line is then normalised
    /// and its row appended; a line that is no row is dropped, and the reason
    /// comes back. A closed writer refuses.
    pub fn push(&mut self, row: &str) -> (res: Result<Pushed, Error>)
        requires
            old(self).wf(),
        ensures
            final(self).wf(),
            match res {
                Ok(pushed) => {
                    &&& !old(self)@.closed
                    &&& (final(self)@, batch_view(pushed.flushed)) == old(self)@.step(row@)
                    &&& pushed.flushed matches Some(batch) ==> batch.wf()
                    &&& fault_view(pushed.dropped) == match accept(row@) {
                        Ok(_) => None::<Fault>,
                        Err(fault) => Some(fault),
                    }
                },
                Err(e) => {
                    &&& old(self)@.closed
                    &&& *final(self) == *old(self)
                    &&& e@ == (Fault::IoError { cause: finished_cause() })
                },
            },
    {
        if self.is_closed() {
            return Err(Error::IoError { cause: String::from_str("the sink is finished") });
        }
        let flushed = if self.columns.len() >= self.capacity {
            match self.write() {
                Ok(batch) => Some(batch),
                Err(e) => {
                    return Err(e);
                },
            }
        } else {
            None
        };
        let dropped = match normalize_line(row) {
            Ok(fields) => match self.columns.push(&fields) {
                Ok(()) => None,
                Err(e) => Some(e),
            },
            Err(e) => Some(e),
        };
        Ok(Pushed { flushed, dropped })
    }

    /// Closes the writer. The first close hands out the rows that are left
    /// as a last batch (also an empty one, where no batch was written yet,
    /// so that the file exists) and asks for the sink to be finished. Any
    /// later close asks for nothing.
    pub fn close(&mut self) -> (commands: Vec<Command>)
        requires
            old(self).wf(),
        ensures
            final(self).wf(),
            final(self)@ == old(self)@.shut().0,
            final(self)@.closed,
            actions(commands@) == old(self)@.shut_actions(),
            commands@.len() == old(self)@.shut_actions().len(),
            all_wf(commands@),
    {
        let mut commands: Vec<Command> = Vec::new();
        if self.is_closed() {
            return commands;
        }
        if self.columns.len() > 0 || self.writer.is_none() {
            match self.write() {
                Ok(batch) => {
                    commands.push(Command::Write(batch));
                },
                Err(_) => {},
            }
        }
        proof {
            assert(self@.rows =~= Seq::<Seq<Value>>::empty());
        }
        match self.writer.take() {
            Some(mut w) => {
                let _ = w.finish();
                self.writer = Some(w);
            },
            None => {},
        }
        commands.push(Command::Finish { path: self.path.clone() });
        commands
    }
}

/// The records of the lines that are rows, in order.
pub open spec fn accepted(lines: Seq<Seq<char>>) -> Seq<Seq<Value>>
    decreases lines.len(),
{
    if lines.len() == 0 {
        Seq::<Seq<Value>>::empty()
    } else {
        let head = accepted(lines.drop_last());
        match accept(lines.last()) {
            Ok(record) => head.push(record),
            Err(_) => head,
        }
    }
}

/// The rows of a sequence of batches, in order.
pub open spec fn batch_rows(batches: Seq<Emitted>) -> Seq<Seq<Value>>
    decreases batches.len(),
{
    if batches.len() == 0 {
        Seq::<Seq<Value>>::empty()
    } else {
        batch_rows(batches.drop_last()) + batches.last().rows
    }
}

/// The rows of the batches that a sequence of commands writes, in order.
pub open spec fn written_rows(commands: Seq<Action>) -> Seq<Seq<Value>>
    decreases commands.len(),
{
    if commands.len() == 0 {
        Seq::<Seq<Value>>::empty()
    } else {
        match commands.last() {
            Action::Write(batch) => written_rows(commands.drop_last()) + batch.rows,
            Action::Finish { .. } => written_rows(commands.drop_last()),
        }
    }
}

impl ProductState {
    /// The state after pushing the lines in order, and the batches that left
    /// on the way.
    pub open spec fn run(self, lines: Seq<Seq<char>>) -> (ProductState, Seq<Emitted>)
        decreases lines.len(),
    {
        if lines.len() == 0 {
            (self, Seq::<Emitted>::empty())
        } else {
            let (state, out) = self.run(lines.drop_last());
            let (next, batch) = state.step(lines.last());
            (
                next,
                match batch {
                    Some(b) => out.push(b),
                    None => out,
                },
            )
        }
    }

    /// Everything that a writer asks of its caller over its life: a write
    /// for each batch that left while the lines were pushed, then what the
    /// close asks for.
    pub open spec fn trace(self, lines: Seq<Seq<char>>) -> Seq<Action> {
        let (state, out) = self.run(lines);
        writes(out) + state.shut_actions()
    }
}

/// Pushing lines changes neither the file nor the capacity of a writer, and
/// neither closes nor reopens it. Every batch goes to the writer's file; the
/// first batch of a writer that was not open creates the file, and no other
/// batch does.
pub proof fn lemma_run_keeps(state: ProductState, lines: Seq<Seq<char>>)
    ensures
        state.run(lines).0.path == state.path,
        state.run(lines).0.capacity == state.capacity,
        state.run(lines).0.closed == state.closed,
        state.run(lines).0.opened == (state.opened || state.run(lines).1.len() > 0),
        forall|i: int|
            0 <= i < state.run(lines).1.len() ==> {
                &&& (#[trigger] state.run(lines).1[i]).path == state.path
                &&& state.run(lines).1[i].create == (i == 0 && !state.opened)
            },
    decreases lines.len(),
{
    if lines.len() > 0 {
        lemma_run_keeps(state, lines.drop_last());
    }
}

/// No row is lost and none is written twice: the rows of the batches that
/// left, followed by the rows still in the buffer, are the rows that the
/// writer started with followed by the records of the accepted lines.
pub proof fn lemma_nothing_lost(state: ProductState, lines: Seq<Seq<char>>)
    ensures
        batch_rows(state.run(lines).1) + state.run(lines).0.rows == state.rows + accepted(lines),
    decreases lines.len(),
{
    if lines.len() > 0 {
        let head = lines.drop_last();
        lemma_nothing_lost(state, head);
        let (mid, out) = state.run(head);
        let before = state.rows + accepted(head);
        if mid.flush_due() {
            assert(state.run(lines).1.drop_last() =~= out);
        } else if let Ok(record) = accept(lines.last()) {
            assert(batch_rows(out) + mid.rows.push(record) =~= before.push(record));
        }
    }
}

/// Batches are full: where a writer with a positive capacity starts with no
/// more rows than its capacity, every batch that leaves while lines are
/// pushed holds exactly `capacity` rows, and the buffer never holds more.
pub proof fn lemma_full_batches(state: ProductState, lines: Seq<Seq<char>>)
    requires
        state.capacity > 0,
        state.rows.len() <= state.capacity,
    ensures
        state.run(lines).0.rows.len() <= state.capacity,
        forall|i: int|
            0 <= i < state.run(lines).1.len() ==> (#[trigger] state.run(lines).1[i]).rows.len()
                == state.capacity,
    decreases lines.len(),
{
    if lines.len() > 0 {
        lemma_full_batches(state, lines.drop_last());
        lemma_run_keeps(state, lines.drop_last());
    }
}

/// While a fresh writer has taken no more rows than its capacity, no batch
/// leaves, and the buffer holds the records of the lines.
pub proof fn lemma_fill(path: Seq<char>, capacity: nat, lines: Seq<Seq<char>>)
    requires
        lines.len() <= capacity,
        forall|i: int| 0 <= i < lines.len() ==> accept(#[trigger] lines[i]) is Ok,
    ensures
        ProductState::fresh(path, capacity).run(lines).1.len() == 0,
        ProductState::fresh(path, capacity).run(lines).0 == (ProductState {
            rows: accepted(lines),
            ..ProductState::fresh(path, capacity)
        }),
        accepted(lines).len() == lines.len(),
    decreases lines.len(),
{
    if lines.len() > 0 {
        let head = lines.drop_last();
        lemma_fill(path, capacity, head);
    }
}

/// A flush comes exactly when the buffer is full: after `capacity` rows
/// have gone into a fresh writer, no batch has left. The next row makes the
/// one batch leave that holds those `capacity` rows, and is then alone in
/// the buffer.
pub proof fn lemma_flush_at_capacity(
    path: Seq<char>,
    capacity: nat,
    lines: Seq<Seq<char>>,
    extra: Seq<char>,
)
    requires
        capacity > 0,
        lines.len() == capacity,
        forall|i: int| 0 <= i < lines.len() ==> accept(#[trigger] lines[i]) is Ok,
        accept(extra) is Ok,
    ensures
        ProductState::fresh(path, capacity).run(lines).1.len() == 0,
        ProductState::fresh(path, capacity).run(lines.push(extra)).1 == seq![
            Emitted { path, create: true, rows: accepted(lines) },
        ],
        ProductState::fresh(path, capacity).run(lines.push(extra)).0.rows == seq![
            accept(extra)->Ok_0,
        ],
{
    lemma_fill(path, capacity, lines);
    let all = lines.push(extra);
    assert(all.drop_last() =~= lines);
}

/// A second close is a no-op: it asks for nothing and changes nothing.
pub proof fn lemma_close_twice(state: ProductState)
    ensures
        state.shut().0.closed,
        state.shut().0.shut() == (state.shut().0, None::<Emitted>),
        state.shut().0.shut_actions() == Seq::<Action>::empty(),
        state.shut_actions().len() <= 2,
{
}

/// Over the life of a writer that starts fresh, the batches that it asks to
/// have written hold exactly the records of the accepted lines, in order:
/// what was read back from the file would be those rows, no more, no less.
/// The file is created once, by the first write, and finished once, by the
/// last command.
pub proof fn lemma_round_trip(path: Seq<char>, capacity: nat, lines: Seq<Seq<char>>)
    ensures
        written_rows(ProductState::fresh(path, capacity).trace(lines)) == accepted(lines),
        ProductState::fresh(path, capacity).trace(lines).len() >= 2,
        ProductState::fresh(path, capacity).trace(lines).first() matches Action::Write(batch)
            && batch.create,
        ProductState::fresh(path, capacity).trace(lines).last() == (Action::Finish { path }),
        forall|i: int|
            0 <= i < ProductState::fresh(path, capacity).trace(lines).len() ==> (
            #[trigger] ProductState::fresh(path, capacity).trace(lines)[i]).path() == path,
{
    let fresh = ProductState::fresh(path, capacity);
    let (state, out) = fresh.run(lines);
    lemma_run_keeps(fresh, lines);
    lemma_nothing_lost(fresh, lines);
    let head = writes(out);
    lemma_written_rows_of_writes(out);
    lemma_written_rows_concat(head, state.shut_actions());
    let tail = state.shut_actions();
    let none = Seq::<Action>::empty();
    assert(written_rows(none) =~= Seq::<Seq<Value>>::empty());
    if state.last_due() {
        let one = seq![Action::Write(state.emitted())];
        assert(tail.drop_last() =~= one);
        assert(one.drop_last() =~= none);
        assert(written_rows(one) == written_rows(none) + state.rows);
    } else {
        assert(tail.drop_last() =~= none);
    }
}

/// The rows of a run of writes are the rows of their batches.
pub proof fn lemma_written_rows_of_writes(out: Seq<Emitted>)
    ensures
        written_rows(writes(out)) == batch_rows(out),
    decreases out.len(),
{
    if out.len() > 0 {
        lemma_written_rows_of_writes(out.drop_last());
        assert(writes(out).drop_last() =~= writes(out.drop_last()));
    }
}

/// The rows that two runs of commands write, one after the other.
pub proof fn lemma_written_rows_concat(a: Seq<Action>, b: Seq<Action>)
    ensures
        written_rows(a + b) == written_rows(a) + written_rows(b),
    decreases b.len(),
{
    if b.len() > 0 {
        lemma_written_rows_concat(a, b.drop_last());
        assert((a + b).drop_last() =~= a + b.drop_last());
    }
}

} // verus!
