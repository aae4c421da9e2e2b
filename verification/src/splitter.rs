//! The stream router: lines go to the writer of their symbol, which is made
//! when the symbol is first seen, and all writers are closed at the end.

use vstd::prelude::*;
use vstd::hash_map::StringHashMap;
use vstd::hash_set::StringHashSet;
use vstd::string::StringExecFns;
use crate::columns::accept;
use crate::error::{Error, Fault};
use crate::product::{
    accepted,
    actions,
    all_wf,
    batch_view,
    fault_view,
    finished_cause,
    lemma_round_trip,
    lemma_run_keeps,
    writes,
    written_rows,
    Action,
    Batch,
    Command,
    Emitted,
    Product,
    ProductState,
};
use crate::text::{remove_char, split, split_spec, texts, without};

verus! {

/// The position, among the space-separated tokens of a line, of the token
/// that holds the symbol.
pub const SYMBOL_TOKEN: usize = 5;

/// The symbol of a line: its sixth space-separated token, underscores
/// removed; none where the line has fewer than six tokens.
pub open spec fn symbol_of(line: Seq<char>) -> Option<Seq<char>> {
    let tokens = split_spec(line, ' ');
    if tokens.len() > SYMBOL_TOKEN {
        Some(without(tokens[SYMBOL_TOKEN as int], '_'))
    } else {
        None
    }
}

/// The directory of a job's files: `base_dir/date/ticker/`.
pub open spec fn directory_of(base_dir: Seq<char>, date: Seq<char>, ticker: Seq<char>) -> Seq<
    char,
> {
    base_dir + seq!['/'] + date + seq!['/'] + ticker + seq!['/']
}

/// The extension of the files.
pub open spec fn extension() -> Seq<char> {
    ".parquet"@
}

/// The file of a symbol in a directory.
pub open spec fn file_of(directory: Seq<char>, symbol: Seq<char>) -> Seq<char> {
    directory + symbol + extension()
}

/// The file of a symbol: `base_dir/date/ticker/symbol.parquet`.
pub open spec fn path_of(
    base_dir: Seq<char>,
    date: Seq<char>,
    ticker: Seq<char>,
    symbol: Seq<char>,
) -> Seq<char> {
    file_of(directory_of(base_dir, date, ticker), symbol)
}

/// Two symbols never share a file.
pub proof fn lemma_file_of_injective(directory: Seq<char>, a: Seq<char>, b: Seq<char>)
    requires
        file_of(directory, a) == file_of(directory, b),
    ensures
        a == b,
{
    let x = file_of(directory, a);
    assert(x.len() == directory.len() + a.len() + extension().len());
    assert forall|i: int| 0 <= i < a.len() implies a[i] == b[i] by {
        assert(x[directory.len() + i] == a[i]);
    }
}

/// The lines of a symbol, in order.
pub open spec fn lines_for(lines: Seq<Seq<char>>, symbol: Seq<char>) -> Seq<Seq<char>>
    decreases lines.len(),
{
    if lines.len() == 0 {
        Seq::<Seq<char>>::empty()
    } else {
        let head = lines_for(lines.drop_last(), symbol);
        if symbol_of(lines.last()) == Some(symbol) {
            head.push(lines.last())
        } else {
            head
        }
    }
}

/// One more line is one more line for its symbol, and for no other.
pub proof fn lemma_lines_for_push(lines: Seq<Seq<char>>, line: Seq<char>, symbol: Seq<char>)
    ensures
        lines_for(lines.push(line), symbol) == if symbol_of(line) == Some(symbol) {
            lines_for(lines, symbol).push(line)
        } else {
            lines_for(lines, symbol)
        },
{
    assert(lines.push(line).drop_last() =~= lines);
}

/// Reads the symbol of a line.
pub fn get_symbol(row: &str) -> (res: Result<String, Error>)
    ensures
        match symbol_of(row@) {
            Some(symbol) => res matches Ok(s) && s@ == symbol,
            None => res matches Err(e) && e@ == Fault::SymbolExtractionError,
        },
{
    let tokens = split(row, ' ');
    if tokens.len() > SYMBOL_TOKEN {
        Ok(remove_char(tokens[SYMBOL_TOKEN].as_str(), '_'))
    } else {
        Err(Error::SymbolExtractionError)
    }
}

/// What a job is given: the date and the ticker of its records, how many
/// rows a writer buffers, and the symbols to leave out.
pub struct DownloadArgs {
    pub date: String,
    pub ticker: String,
    pub capacity: usize,
    pub skip: StringHashSet,
    pub skipped: Vec<String>,
}

impl DownloadArgs {
    /// The arguments of a job.
    pub fn new(date: String, ticker: String, capacity: usize, skip: Vec<String>) -> (r: Self)
        ensures
            r.date == date,
            r.ticker == ticker,
            r.capacity == capacity,
            r.skipped == skip,
            r.skip@ == texts(skip@).to_set(),
    {
        let mut set = StringHashSet::new();
        let n = skip.len();
        let mut i: usize = 0;
        while i < n
            invariant
                n == skip.len(),
                i <= n,
                set@ == texts(skip@).take(i as int).to_set(),
            decreases n - i,
        {
            proof {
                let before = texts(skip@).take(i as int);
                before.lemma_push_to_set_commute(skip@[i as int]@);
                assert(texts(skip@).take(i + 1) =~= before.push(skip@[i as int]@));
            }
            set.insert(skip[i].clone());
            i = i + 1;
        }
        proof {
            assert(texts(skip@).take(n as int) =~= texts(skip@));
        }
        DownloadArgs { date, ticker, capacity, skip: set, skipped: skip }
    }

    /// The date of the records.
    pub fn date(&self) -> (s: &str)
        ensures
            s@ == self.date@,
    {
        self.date.as_str()
    }

    /// The ticker of the records.
    pub fn ticker(&self) -> (s: &str)
        ensures
            s@ == self.ticker@,
    {
        self.ticker.as_str()
    }

    /// The number of rows that a writer buffers.
    pub fn capacity(&self) -> (n: usize)
        ensures
            n == self.capacity,
    {
        self.capacity
    }

    /// The symbols to leave out, as they were given.
    pub fn skipped(&self) -> (list: &Vec<String>)
        ensures
            *list == self.skipped,
    {
        &self.skipped
    }

    /// Whether the lines of the symbol are to be left out.
    pub fn skips(&self, symbol: &str) -> (r: bool)
        ensures
            r == self.skip@.contains(symbol@),
    {
        self.skip.contains(symbol)
    }

    /// The directory of the job's files under `base_dir`.
    pub fn directory(&self, base_dir: &str) -> (dir: String)
        ensures
            dir@ == directory_of(base_dir@, self.date@, self.ticker@),
    {
        proof {
            reveal_strlit("/");
        }
        let mut dir = String::from_str(base_dir);
        dir.append("/");
        dir.append(self.date.as_str());
        dir.append("/");
        dir.append(self.ticker.as_str());
        dir.append("/");
        dir
    }

    /// The file of a symbol under `base_dir`.
    pub fn create_path(&self, base_dir: &str, symbol: &str) -> (path: String)
        ensures
            path@ == path_of(base_dir@, self.date@, self.ticker@, symbol@),
    {
        let mut path = self.directory(base_dir);
        path.append(symbol);
        path.append(".parquet");
        path
    }
}

/// Where a router stands.
#[derive(Debug, Clone, Copy, PartialEq, Eq, Structural)]
pub enum RouterState {
    /// No line has been routed yet.
    Idle,
    /// Lines are being routed.
    Running,
    /// The stream ended and all writers were closed.
    Completed,
    /// The job failed.
    Failed,
}

/// What routing a line did.
#[derive(Debug, Clone, PartialEq, Eq)]
pub struct Routed {
    /// The symbol of the line.
    pub symbol: String,
    /// Whether the line was left out because its symbol is to be skipped.
    pub skipped: bool,
    /// The batch that the symbol's writer had to flush first, for the caller
    /// to write.
    pub flushed: Option<Batch>,
    /// Why the line was dropped, where it was.
    pub dropped: Option<Error>,
}

/// The router of one job.
pub struct Splitter<'a> {
    pub args: &'a DownloadArgs,
    pub directory: String,
    pub index: StringHashMap<usize>,
    pub symbols: Vec<String>,
    pub products: Vec<Product>,
    pub state: RouterState,
    pub drained: bool,
    pub seen: Ghost<Seq<Seq<char>>>,
}

/// What the closing of writers asks for, writer by writer.
pub open spec fn drain_actions(states: Seq<ProductState>) -> Seq<Action>
    decreases states.len(),
{
    if states.len() == 0 {
        Seq::<Action>::empty()
    } else {
        drain_actions(states.drop_last()) + states.last().shut_actions()
    }
}

impl<'a> Splitter<'a> {
    /// The file of a symbol.
    pub open spec fn path_for(&self, symbol: Seq<char>) -> Seq<char> {
        file_of(self.directory@, symbol)
    }

    /// The lines of a symbol among those routed so far.
    pub open spec fn own_lines(&self, symbol: Seq<char>) -> Seq<Seq<char>> {
        lines_for(self.seen@, symbol)
    }

    /// The state of a symbol's writer after the lines routed so far.
    pub open spec fn state_for(&self, symbol: Seq<char>) -> ProductState {
        ProductState::fresh(self.path_for(symbol), self.args.capacity as nat).run(
            self.own_lines(symbol),
        ).0
    }

    /// Whether lines can still be routed.
    pub open spec fn live(&self) -> bool {
        self.state is Idle || self.state is Running
    }

    /// Whether the writer of index `i` is the writer of the symbol of index
    /// `i`: found under its symbol, fed with the lines of its symbol, and
    /// closed once the router is drained.
    pub open spec fn tracks(&self, i: int) -> bool {
        let symbol = self.symbols@[i]@;
        &&& self.products@[i].wf()
        &&& !self.args.skip@.contains(symbol)
        &&& self.own_lines(symbol).len() > 0
        &&& self.index@.contains_key(symbol)
        &&& self.index@[symbol] == i
        &&& if self.drained {
            self.products@[i]@.closed
        } else {
            self.products@[i]@ == self.state_for(symbol)
        }
    }

    /// Whether the index leads from `key` to a writer of that symbol, where
    /// it holds `key`.
    pub open spec fn indexed(&self, key: Seq<char>) -> bool {
        self.index@.contains_key(key) ==> self.index@[key] < self.symbols@.len()
            && self.symbols@[self.index@[key] as int]@ == key
    }

    /// Whether a symbol that has no writer and is not skipped has had no line.
    pub open spec fn unseen(&self, symbol: Seq<char>) -> bool {
        !self.args.skip@.contains(symbol) && !self.index@.contains_key(symbol)
            ==> self.own_lines(symbol).len() == 0
    }

    /// The router has one writer for each symbol that it has routed a line
    /// of, and the index finds it.
    pub open spec fn wf(&self) -> bool {
        &&& self.args.capacity > 0
        &&& self.symbols@.len() == self.products@.len()
        &&& forall|i: int| 0 <= i < self.products@.len() ==> #[trigger] self.tracks(i)
        &&& forall|key: Seq<char>| #[trigger] self.indexed(key)
        &&& forall|symbol: Seq<char>| #[trigger] self.unseen(symbol)
        &&& self.live() ==> !self.drained
        &&& self.state is Idle ==> self.seen@.len() == 0
        &&& self.state is Completed ==> self.drained
    }

    /// The states of the writers, in the order in which they were made.
    pub open spec fn writer_states(&self) -> Seq<ProductState> {
        Seq::new(self.products@.len(), |i: int| self.products@[i]@)
    }

    /// A router for the job, writing under `base_dir`. The capacity must be
    /// positive.
    pub fn new(args: &'a DownloadArgs, base_dir: &str) -> (res: Result<Self, Error>)
        ensures
            match res {
                Ok(r) => {
                    &&& args.capacity > 0
                    &&& r.wf()
                    &&& r.args == args
                    &&& r.directory@ == directory_of(base_dir@, args.date@, args.ticker@)
                    &&& r.state is Idle
                    &&& r.seen@ == Seq::<Seq<char>>::empty()
                    &&& r.products@.len() == 0
                },
                Err(e) => args.capacity == 0 && e@ == Fault::ConfigError,
            },
    {
        if args.capacity == 0 {
            return Err(Error::ConfigError);
        }
        let r = Splitter {
            args,
            directory: args.directory(base_dir),
            index: StringHashMap::new(),
            symbols: Vec::new(),
            products: Vec::new(),
            state: RouterState::Idle,
            drained: false,
            seen: Ghost(Seq::<Seq<char>>::empty()),
        };
        Ok(r)
    }

    /// Where the router stands.
    pub fn state(&self) -> (s: RouterState)
        ensures
            s == self.state,
    {
        self.state
    }

    /// The number of writers: the symbols that a line was routed of.
    pub fn len(&self) -> (n: usize)
        ensures
            n == self.products@.len(),
    {
        self.products.len()
    }

    /// Routes a line: finds its symbol, leaves the line out where the symbol
    /// is to be skipped, and else hands it to the symbol's writer, which is
    /// made where this is the symbol's first line.
    ///
    /// A line without a symbol fails the router. A router that has failed or
    /// has been finished refuses.
    pub fn route(&mut self, line: &str) -> (res: Result<Routed, Error>)
        requires
            old(self).wf(),
        ensures
            final(self).wf(),
            final(self).args == old(self).args,
            final(self).directory == old(self).directory,
            final(self).drained == old(self).drained,
            match res {
                Ok(routed) => {
                    &&& old(self).live()
                    &&& final(self).state is Running
                    &&& final(self).seen@ == old(self).seen@.push(line@)
                    &&& symbol_of(line@) == Some(routed.symbol@)
                    &&& routed.skipped == old(self).args.skip@.contains(routed.symbol@)
                    &&& routed.flushed matches Some(batch) ==> batch.wf()
                    &&& if routed.skipped {
                        routed.flushed is None && routed.dropped is None
                    } else {
                        &&& batch_view(routed.flushed) == old(self).state_for(routed.symbol@).step(
                            line@,
                        ).1
                        &&& fault_view(routed.dropped) == match accept(line@) {
                            Ok(_) => None::<Fault>,
                            Err(fault) => Some(fault),
                        }
                    }
                },
                Err(e) => if old(self).live() {
                    &&& symbol_of(line@) is None
                    &&& e@ == Fault::SymbolExtractionError
                    &&& *final(self) == (Splitter { state: RouterState::Failed, ..*old(self) })
                } else {
                    &&& e@ == (Fault::IoError { cause: finished_cause() })
                    &&& *final(self) == *old(self)
                },
            },
    {
        match self.state {
            RouterState::Idle => {},
            RouterState::Running => {},
            _ => {
                return Err(Error::IoError { cause: String::from_str("the sink is finished") });
            },
        }
        let symbol = match get_symbol(line) {
            Ok(symbol) => symbol,
            Err(e) => {
                self.state = RouterState::Failed;
                proof {
                    self.lemma_wf_after_state(*old(self));
                }
                return Err(e);
            },
        };
        let ghost before = *self;
        let ghost s0 = symbol@;
        self.state = RouterState::Running;
        self.seen = Ghost(self.seen@.push(line@));
        if self.args.skip.contains(symbol.as_str()) {
            proof {
                assert forall|i: int| 0 <= i < self.products@.len() implies #[trigger] self.tracks(
                    i,
                ) by {
                    assert(before.tracks(i));
                    lemma_lines_for_push(before.seen@, line@, self.symbols@[i]@);
                }
                assert forall|key: Seq<char>| #[trigger] self.indexed(key) by {
                    assert(before.indexed(key));
                }
                assert forall|s: Seq<char>| #[trigger] self.unseen(s) by {
                    assert(before.unseen(s));
                    lemma_lines_for_push(before.seen@, line@, s);
                }
            }
            return Ok(Routed { symbol, skipped: true, flushed: None, dropped: None });
        }
        let found: Option<usize> = match self.index.get(symbol.as_str()) {
            Some(i) => Some(*i),
            None => None,
        };
        let at: usize = match found {
            Some(i) => {
                proof {
                    assert(before.indexed(s0));
                }
                i
            },
            None => {
                let n = self.products.len();
                let path = self.make_path(symbol.as_str());
                self.symbols.push(symbol.clone());
                self.products.push(Product::new(path, self.args.capacity));
                self.index.insert(symbol.clone(), n);
                proof {
                    assert(before.unseen(s0));
                }
                n
            },
        };
        proof {
            lemma_run_keeps(
                ProductState::fresh(before.path_for(s0), before.args.capacity as nat),
                before.own_lines(s0),
            );
            if found is Some {
                assert(before.tracks(at as int));
            }
        }
        let pushed = self.products[at].push(line);
        proof {
            lemma_lines_for_push(before.seen@, line@, s0);
            assert(before.own_lines(s0).push(line@).drop_last() =~= before.own_lines(s0));
            assert forall|i: int| 0 <= i < self.products@.len() implies #[trigger] self.tracks(
                i,
            ) by {
                if i != at {
                    assert(before.tracks(i));
                    lemma_lines_for_push(before.seen@, line@, self.symbols@[i]@);
                }
            }
            assert forall|key: Seq<char>| #[trigger] self.indexed(key) by {
                assert(before.indexed(key));
            }
            assert forall|s: Seq<char>| #[trigger] self.unseen(s) by {
                assert(before.unseen(s));
                lemma_lines_for_push(before.seen@, line@, s);
            }
        }
        match pushed {
            Ok(p) => Ok(Routed { symbol, skipped: false, flushed: p.flushed, dropped: p.dropped }),
            Err(e) => Err(e),
        }
    }

    fn make_path(&self, symbol: &str) -> (path: String)
        ensures
            path@ == self.path_for(symbol@),
    {
        let mut path = self.directory.clone();
        path.append(symbol);
        path.append(".parquet");
        path
    }

    proof fn lemma_wf_after_state(self, before: Self)
        requires
            before.wf(),
            before.live(),
            self == (Splitter { state: RouterState::Failed, ..before }),
        ensures
            self.wf(),
    {
        assert forall|i: int| 0 <= i < self.products@.len() implies #[trigger] self.tracks(i) by {
            assert(before.tracks(i));
        }
        assert forall|key: Seq<char>| #[trigger] self.indexed(key) by {
            assert(before.indexed(key));
        }
        assert forall|s: Seq<char>| #[trigger] self.unseen(s) by {
            assert(before.unseen(s));
        }
    }

    fn drain(&mut self) -> (commands: Vec<Command>)
        requires
            old(self).wf(),
            !old(self).drained,
        ensures
            final(self).drained,
            final(self).args == old(self).args,
            final(self).directory == old(self).directory,
            final(self).state == old(self).state,
            final(self).seen == old(self).seen,
            final(self).symbols == old(self).symbols,
            final(self).index == old(self).index,
            final(self).products@.len() == old(self).products@.len(),
            forall|k: int|
                0 <= k < final(self).products@.len() ==> (#[trigger] final(self).products@[k]).wf()
                    && final(self).products@[k]@.closed,
            actions(commands@) == drain_actions(old(self).writer_states()),
            all_wf(commands@),
    {
        let ghost before = *self;
        let ghost states = self.writer_states();
        let mut commands: Vec<Command> = Vec::new();
        let n = self.products.len();
        let mut i: usize = 0;
        while i < n
            invariant
                i <= n,
                n == self.products@.len(),
                n == before.products@.len(),
                states.len() == n,
                before.wf(),
                !before.drained,
                states == before.writer_states(),
                *self == (Splitter { products: self.products, ..before }),
                forall|k: int|
                    0 <= k < i ==> (#[trigger] self.products@[k]).wf() && self.products@[k]@.closed,
                forall|k: int| i <= k < n ==> (#[trigger] self.products@[k]) == before.products@[k],
                actions(commands@) == drain_actions(states.take(i as int)),
                all_wf(commands@),
            decreases n - i,
        {
            proof {
                assert(before.tracks(i as int));
            }
            let mut closing = self.products[i].close();
            commands.append(&mut closing);
            proof {
                assert(states.take(i + 1).drop_last() =~= states.take(i as int));
            }
            i = i + 1;
        }
        self.drained = true;
        proof {
            assert(states.take(n as int) =~= states);
        }
        commands
    }

    /// Ends the stream: every writer is closed, in the order in which the
    /// writers were made, and what the closing asks for comes back. A router
    /// that was finished before asks for nothing.
    pub fn finish(&mut self) -> (commands: Vec<Command>)
        requires
            old(self).wf(),
        ensures
            final(self).wf(),
            final(self).drained,
            final(self).args == old(self).args,
            final(self).directory == old(self).directory,
            final(self).seen == old(self).seen,
            final(self).state == if old(self).live() {
                RouterState::Completed
            } else {
                old(self).state
            },
            actions(commands@) == if old(self).drained {
                Seq::<Action>::empty()
            } else {
                drain_actions(old(self).writer_states())
            },
            old(self).drained ==> commands@.len() == 0,
            all_wf(commands@),
    {
        if self.drained {
            let commands: Vec<Command> = Vec::new();
            return commands;
        }
        let commands = self.drain();
        match self.state {
            RouterState::Idle => {
                self.state = RouterState::Completed;
            },
            RouterState::Running => {
                self.state = RouterState::Completed;
            },
            _ => {},
        }
        proof {
            self.lemma_wf_after_end(*old(self));
        }
        commands
    }

    /// Gives the job up, after a failure of the line source or of a sink:
    /// the router fails, every writer is closed, and what the closing asks
    /// for comes back. A router that was finished before stays as it is.
    pub fn abort(&mut self) -> (commands: Vec<Command>)
        requires
            old(self).wf(),
        ensures
            final(self).wf(),
            final(self).drained,
            final(self).args == old(self).args,
            final(self).directory == old(self).directory,
            final(self).seen == old(self).seen,
            final(self).state == if old(self).drained {
                old(self).state
            } else {
                RouterState::Failed
            },
            actions(commands@) == if old(self).drained {
                Seq::<Action>::empty()
            } else {
                drain_actions(old(self).writer_states())
            },
            old(self).drained ==> commands@.len() == 0,
            all_wf(commands@),
    {
        if self.drained {
            let commands: Vec<Command> = Vec::new();
            return commands;
        }
        let commands = self.drain();
        self.state = RouterState::Failed;
        proof {
            self.lemma_wf_after_end(*old(self));
        }
        commands
    }

    proof fn lemma_wf_after_end(self, before: Self)
        requires
            self.drained,
            !self.live(),
            self.symbols == before.symbols,
            self.args == before.args,
            self.index == before.index,
            self.seen == before.seen,
            self.directory == before.directory,
            self.args.capacity > 0,
            self.symbols@.len() == self.products@.len(),
            self.symbols@.len() == before.products@.len(),
            before.wf(),
            forall|i: int|
                0 <= i < self.products@.len() ==> (#[trigger] self.products@[i]).wf()
                    && self.products@[i]@.closed,
        ensures
            self.wf(),
    {
        assert forall|i: int| 0 <= i < self.products@.len() implies #[trigger] self.tracks(i) by {
            assert(before.tracks(i));
        }
        assert forall|key: Seq<char>| #[trigger] self.indexed(key) by {
            assert(before.indexed(key));
        }
        assert forall|s: Seq<char>| #[trigger] self.unseen(s) by {
            assert(before.unseen(s));
        }
    }
}

/// The commands of a journal that concern the file at `path`, in order.
pub open spec fn commands_for(journal: Seq<Action>, path: Seq<char>) -> Seq<Action>
    decreases journal.len(),
{
    if journal.len() == 0 {
        Seq::<Action>::empty()
    } else {
        let head = commands_for(journal.drop_last(), path);
        if journal.last().path() == path {
            head.push(journal.last())
        } else {
            head
        }
    }
}

/// How many lines are routed before the stream ends or a line without a
/// symbol fails the job: the length of the longest run of lines, from the
/// first on, that all have a symbol.
pub open spec fn routable(lines: Seq<Seq<char>>) -> nat
    decreases lines.len(),
{
    if lines.len() == 0 {
        0
    } else {
        let k = routable(lines.drop_last());
        if k == lines.len() - 1 && symbol_of(lines.last()) is Some {
            lines.len()
        } else {
            k
        }
    }
}

/// What a job asks for on behalf of one symbol, once `lines` are routed:
/// nothing where the symbol is skipped or has had no line; else what a
/// writer of its own asks for that is fed the symbol's lines, as far as the
/// job has come (`done`: with the closing; else the writes so far).
pub open spec fn expected(
    directory: Seq<char>,
    capacity: nat,
    skip: Set<Seq<char>>,
    lines: Seq<Seq<char>>,
    symbol: Seq<char>,
    done: bool,
) -> Seq<Action> {
    let own = lines_for(lines, symbol);
    let fresh = ProductState::fresh(file_of(directory, symbol), capacity);
    if skip.contains(symbol) || own.len() == 0 {
        Seq::<Action>::empty()
    } else if done {
        fresh.trace(own)
    } else {
        writes(fresh.run(own).1)
    }
}

/// Whether the journal holds, for the file of `symbol`, exactly what the job
/// asks for on behalf of that symbol.
pub open spec fn agrees(
    journal: Seq<Action>,
    directory: Seq<char>,
    capacity: nat,
    skip: Set<Seq<char>>,
    lines: Seq<Seq<char>>,
    symbol: Seq<char>,
    done: bool,
) -> bool {
    commands_for(journal, file_of(directory, symbol)) == expected(
        directory,
        capacity,
        skip,
        lines,
        symbol,
        done,
    )
}

/// Whether `path` is the file of a symbol that is not skipped and has had a
/// line.
pub open spec fn known_path(
    path: Seq<char>,
    directory: Seq<char>,
    skip: Set<Seq<char>>,
    lines: Seq<Seq<char>>,
) -> bool {
    exists|symbol: Seq<char>|
        #[trigger] file_of(directory, symbol) == path && !skip.contains(symbol) && lines_for(
            lines,
            symbol,
        ).len() > 0
}

/// Whether every command of the journal is about the file of a symbol that
/// is not skipped and has had a line.
pub open spec fn only_known(
    journal: Seq<Action>,
    directory: Seq<char>,
    skip: Set<Seq<char>>,
    lines: Seq<Seq<char>>,
) -> bool {
    forall|i: int|
        0 <= i < journal.len() ==> known_path((#[trigger] journal[i]).path(), directory, skip, lines)
}

/// Every line before the count has a symbol, and the line at the count,
/// where there is one, has none.
pub proof fn lemma_routable(lines: Seq<Seq<char>>)
    ensures
        routable(lines) <= lines.len(),
        forall|j: int| 0 <= j < routable(lines) ==> symbol_of(#[trigger] lines[j]) is Some,
        routable(lines) < lines.len() ==> symbol_of(lines[routable(lines) as int]) is None,
    decreases lines.len(),
{
    if lines.len() > 0 {
        lemma_routable(lines.drop_last());
        assert forall|j: int| 0 <= j < routable(lines) implies symbol_of(
            #[trigger] lines[j],
        ) is Some by {
            if j < lines.len() - 1 {
                assert(lines.drop_last()[j] == lines[j]);
            }
        }
    }
}

/// The commands of a file in two journals, one after the other.
pub proof fn lemma_commands_for_concat(a: Seq<Action>, b: Seq<Action>, path: Seq<char>)
    ensures
        commands_for(a + b, path) == commands_for(a, path) + commands_for(b, path),
    decreases b.len(),
{
    if b.len() > 0 {
        lemma_commands_for_concat(a, b.drop_last(), path);
        assert((a + b).drop_last() =~= a + b.drop_last());
    }
}

/// What the close of a writer asks for concerns the writer's file only.
pub proof fn lemma_shut_for(state: ProductState, path: Seq<char>)
    ensures
        commands_for(state.shut_actions(), path) == if state.path == path {
            state.shut_actions()
        } else {
            Seq::<Action>::empty()
        },
{
    let tail = state.shut_actions();
    let none = Seq::<Action>::empty();
    assert(commands_for(none, path) =~= none);
    if !state.closed {
        if state.last_due() {
            let one = seq![Action::Write(state.emitted())];
            assert(tail.drop_last() =~= one);
            assert(one.drop_last() =~= none);
            if state.path == path {
                assert(commands_for(one, path) =~= one);
            } else {
                assert(commands_for(one, path) =~= none);
            }
        } else {
            assert(tail.drop_last() =~= none);
        }
    }
}

/// Closing writers of different files asks, for each file, for what the
/// close of its writer asks for, and for nothing about any other file.
pub proof fn lemma_drain_for(states: Seq<ProductState>, path: Seq<char>)
    requires
        forall|i: int, j: int|
            0 <= i < j < states.len() ==> (#[trigger] states[i]).path != (#[trigger] states[j]).path,
    ensures
        (forall|i: int| 0 <= i < states.len() ==> (#[trigger] states[i]).path != path)
            ==> commands_for(drain_actions(states), path) == Seq::<Action>::empty(),
        forall|i: int|
            0 <= i < states.len() && (#[trigger] states[i]).path == path ==> commands_for(
                drain_actions(states),
                path,
            ) == states[i].shut_actions(),
    decreases states.len(),
{
    if states.len() > 0 {
        let head = states.drop_last();
        let last = states.last();
        lemma_drain_for(head, path);
        lemma_commands_for_concat(drain_actions(head), last.shut_actions(), path);
        lemma_shut_for(last, path);
        let all = commands_for(drain_actions(states), path);
        if last.path == path {
            assert forall|i: int| 0 <= i < states.len() && (#[trigger] states[i]).path
                == path implies all == states[i].shut_actions() by {}
        } else {
            assert forall|i: int| 0 <= i < states.len() && (#[trigger] states[i]).path
                == path implies all == states[i].shut_actions() by {
                assert(head[i] == states[i]);
            }
            if forall|i: int| 0 <= i < states.len() ==> (#[trigger] states[i]).path != path {
                assert forall|i: int| 0 <= i < head.len() implies (#[trigger] head[i]).path
                    != path by {}
            }
        }
    }
}

/// Every command that the closing of writers asks for is about the file of
/// one of the writers.
pub proof fn lemma_drain_paths(states: Seq<ProductState>)
    ensures
        forall|k: int|
            0 <= k < drain_actions(states).len() ==> exists|i: int|
                0 <= i < states.len() && (#[trigger] states[i]).path == (
                #[trigger] drain_actions(states)[k]).path(),
    decreases states.len(),
{
    if states.len() > 0 {
        let head = states.drop_last();
        lemma_drain_paths(head);
        let front = drain_actions(head);
        assert forall|k: int| 0 <= k < drain_actions(states).len() implies exists|i: int|
            0 <= i < states.len() && (#[trigger] states[i]).path == (#[trigger] drain_actions(
                states,
            )[k]).path() by {
            if k < front.len() {
                let i = choose|i: int|
                    0 <= i < head.len() && (#[trigger] head[i]).path == front[k].path();
            }
        }
    }
}

/// The journal with a write of the batch after it, where there is a batch.
pub open spec fn with_write(journal: Seq<Action>, flushed: Option<Emitted>) -> Seq<Action> {
    match flushed {
        Some(batch) => journal.push(Action::Write(batch)),
        None => journal,
    }
}

/// Routing one more line keeps the journal in agreement with what each
/// symbol asks for: the batch that the line's writer flushed, if any, is the
/// one new command, and it is about the file of the line's symbol.
pub proof fn lemma_route_agrees(
    journal: Seq<Action>,
    directory: Seq<char>,
    capacity: nat,
    skip: Set<Seq<char>>,
    lines: Seq<Seq<char>>,
    line: Seq<char>,
    flushed: Option<Emitted>,
)
    requires
        symbol_of(line) is Some,
        forall|s: Seq<char>| #[trigger] agrees(journal, directory, capacity, skip, lines, s, false),
        only_known(journal, directory, skip, lines),
        flushed == if skip.contains(symbol_of(line)->Some_0) {
            None::<Emitted>
        } else {
            ProductState::fresh(file_of(directory, symbol_of(line)->Some_0), capacity).run(
                lines_for(lines, symbol_of(line)->Some_0),
            ).0.step(line).1
        },
    ensures
        forall|s: Seq<char>|
            #[trigger] agrees(
                with_write(journal, flushed),
                directory,
                capacity,
                skip,
                lines.push(line),
                s,
                false,
            ),
        only_known(with_write(journal, flushed), directory, skip, lines.push(line)),
{
    let s0 = symbol_of(line)->Some_0;
    let next = with_write(journal, flushed);
    let fresh0 = ProductState::fresh(file_of(directory, s0), capacity);
    lemma_run_keeps(fresh0, lines_for(lines, s0));
    assert(next.drop_last() =~= journal || next == journal);
    assert forall|s: Seq<char>| #[trigger]
        agrees(next, directory, capacity, skip, lines.push(line), s, false) by {
        assert(agrees(journal, directory, capacity, skip, lines, s, false));
        lemma_lines_for_push(lines, line, s);
        let path = file_of(directory, s);
        if s == s0 {
            if !skip.contains(s0) {
                let own = lines_for(lines, s0);
                let grown = own.push(line);
                assert(grown.drop_last() =~= own);
                let out = fresh0.run(own).1;
                assert(writes(Seq::<Emitted>::empty()) =~= Seq::<Action>::empty());
                match flushed {
                    Some(batch) => {
                        assert(writes(out.push(batch)) =~= writes(out).push(Action::Write(batch)));
                    },
                    None => {},
                }
            }
        } else {
            match flushed {
                Some(batch) => {
                    if file_of(directory, s0) == path {
                        lemma_file_of_injective(directory, s0, s);
                    }
                },
                None => {},
            }
        }
    }
    assert forall|i: int| 0 <= i < next.len() implies known_path(
        (#[trigger] next[i]).path(),
        directory,
        skip,
        lines.push(line),
    ) by {
        if i < journal.len() {
            let s = choose|s: Seq<char>|
                #[trigger] file_of(directory, s) == journal[i].path() && !skip.contains(s)
                    && lines_for(lines, s).len() > 0;
            lemma_lines_for_push(lines, line, s);
        }
    }
}

impl<'a> Splitter<'a> {
    /// Closing the writers completes the journal: for each symbol it then
    /// holds everything that a writer of the symbol's own asks for over its
    /// life, and nothing about any other file.
    pub proof fn lemma_drain_agrees(self, journal: Seq<Action>)
        requires
            self.wf(),
            !self.drained,
            forall|s: Seq<char>| #[trigger]
                agrees(
                    journal,
                    self.directory@,
                    self.args.capacity as nat,
                    self.args.skip@,
                    self.seen@,
                    s,
                    false,
                ),
            only_known(journal, self.directory@, self.args.skip@, self.seen@),
        ensures
            forall|s: Seq<char>| #[trigger]
                agrees(
                    journal + drain_actions(self.writer_states()),
                    self.directory@,
                    self.args.capacity as nat,
                    self.args.skip@,
                    self.seen@,
                    s,
                    true,
                ),
            only_known(
                journal + drain_actions(self.writer_states()),
                self.directory@,
                self.args.skip@,
                self.seen@,
            ),
    {
        let states = self.writer_states();
        let closing = drain_actions(states);
        let directory = self.directory@;
        let capacity = self.args.capacity as nat;
        let skip = self.args.skip@;
        assert forall|i: int| 0 <= i < states.len() implies (#[trigger] states[i]).path == file_of(
            directory,
            self.symbols@[i]@,
        ) && !states[i].closed by {
            assert(self.tracks(i));
            lemma_run_keeps(
                ProductState::fresh(self.path_for(self.symbols@[i]@), capacity),
                self.own_lines(self.symbols@[i]@),
            );
        }
        assert forall|i: int, j: int| 0 <= i < j < states.len() implies (#[trigger] states[i]).path
            != (#[trigger] states[j]).path by {
            assert(self.tracks(i));
            assert(self.tracks(j));
            if states[i].path == states[j].path {
                lemma_file_of_injective(directory, self.symbols@[i]@, self.symbols@[j]@);
            }
        }
        assert forall|s: Seq<char>| #[trigger]
            agrees(journal + closing, directory, capacity, skip, self.seen@, s, true) by {
            let path = file_of(directory, s);
            assert(agrees(journal, directory, capacity, skip, self.seen@, s, false));
            lemma_commands_for_concat(journal, closing, path);
            lemma_drain_for(states, path);
            assert(self.indexed(s));
            assert(self.unseen(s));
            if self.index@.contains_key(s) {
                let i = self.index@[s] as int;
                assert(self.tracks(i));
                assert(states[i].path == path);
            } else {
                assert forall|i: int| 0 <= i < states.len() implies (#[trigger] states[i]).path
                    != path by {
                    assert(self.tracks(i));
                    if states[i].path == path {
                        lemma_file_of_injective(directory, self.symbols@[i]@, s);
                    }
                }
            }
        }
        lemma_drain_paths(states);
        assert forall|k: int| 0 <= k < (journal + closing).len() implies known_path(
            (#[trigger] (journal + closing)[k]).path(),
            directory,
            skip,
            self.seen@,
        ) by {
            if k >= journal.len() {
                let c = closing[k - journal.len()];
                let i = choose|i: int| 0 <= i < states.len() && (#[trigger] states[i]).path == c.path();
                assert(self.tracks(i));
            }
        }
    }
}

/// Where the journal holds no command of a file, no command of it is about
/// that file.
pub proof fn lemma_commands_for_none(journal: Seq<Action>, path: Seq<char>)
    requires
        commands_for(journal, path).len() == 0,
    ensures
        forall|i: int| 0 <= i < journal.len() ==> (#[trigger] journal[i]).path() != path,
    decreases journal.len(),
{
    if journal.len() > 0 {
        lemma_commands_for_none(journal.drop_last(), path);
        assert forall|i: int| 0 <= i < journal.len() implies (#[trigger] journal[i]).path()
            != path by {
            if i < journal.len() - 1 {
                assert(journal.drop_last()[i] == journal[i]);
            }
        }
    }
}

/// A skipped symbol leaves no trace: no batch is written to its file and
/// its file is never made, whatever lines of it the stream holds.
pub proof fn lemma_skipped_is_silent(
    args: DownloadArgs,
    base_dir: Seq<char>,
    lines: Seq<Seq<char>>,
    report: Report,
    symbol: Seq<char>,
)
    requires
        args.is_report(base_dir, lines, report),
        args.skip@.contains(symbol),
    ensures
        forall|i: int|
            0 <= i < report.commands@.len() ==> (#[trigger] report.commands@[i])@.path() != path_of(
                base_dir,
                args.date@,
                args.ticker@,
                symbol,
            ),
{
    let journal = actions(report.commands@);
    let path = path_of(base_dir, args.date@, args.ticker@, symbol);
    if args.capacity > 0 {
        assert(agrees(
            journal,
            directory_of(base_dir, args.date@, args.ticker@),
            args.capacity as nat,
            args.skip@,
            lines.take(routable(lines) as int),
            symbol,
            true,
        ));
        lemma_commands_for_none(journal, path);
        assert forall|i: int| 0 <= i < report.commands@.len() implies (
        #[trigger] report.commands@[i])@.path() != path by {
            assert(journal[i] == report.commands@[i]@);
        }
    }
}

/// Nothing is lost and nothing is written twice: for a symbol that is not
/// skipped, the batches that a job asks to have written to the symbol's
/// file hold, in order, exactly the records of the symbol's lines that are
/// rows, among the lines that were routed.
pub proof fn lemma_report_round_trip(
    args: DownloadArgs,
    base_dir: Seq<char>,
    lines: Seq<Seq<char>>,
    report: Report,
    symbol: Seq<char>,
)
    requires
        args.capacity > 0,
        args.is_report(base_dir, lines, report),
        !args.skip@.contains(symbol),
    ensures
        written_rows(
            commands_for(
                actions(report.commands@),
                path_of(base_dir, args.date@, args.ticker@, symbol),
            ),
        ) == accepted(lines_for(lines.take(routable(lines) as int), symbol)),
{
    let directory = directory_of(base_dir, args.date@, args.ticker@);
    let own = lines_for(lines.take(routable(lines) as int), symbol);
    assert(agrees(
        actions(report.commands@),
        directory,
        args.capacity as nat,
        args.skip@,
        lines.take(routable(lines) as int),
        symbol,
        true,
    ));
    if own.len() > 0 {
        lemma_round_trip(file_of(directory, symbol), args.capacity as nat, own);
    }
}

/// What became of a job: everything that it asks its caller to do, in
/// order, and how it ended.
#[derive(Debug, PartialEq, Eq)]
pub struct Report {
    pub commands: Vec<Command>,
    pub result: Result<(), Error>,
}

impl DownloadArgs {
    /// Whether `report` is what the job makes of `lines`, writing under
    /// `base_dir`.
    ///
    /// A job with a capacity of zero is refused and asks for nothing. Else
    /// the lines are routed up to the first line without a symbol, which
    /// fails the job, or to the end. Either way the writers are closed. The
    /// commands then hold, for each symbol that is not skipped and has had a
    /// line, exactly what a writer of its own asks for that is fed the lines
    /// of the symbol, and nothing about any other file.
    pub open spec fn is_report(&self, base_dir: Seq<char>, lines: Seq<Seq<char>>, report: Report) -> bool {
        let directory = directory_of(base_dir, self.date@, self.ticker@);
        let routed = lines.take(routable(lines) as int);
        if self.capacity == 0 {
            &&& report.commands@.len() == 0
            &&& report.result matches Err(e) && e@ == Fault::ConfigError
        } else {
            &&& all_wf(report.commands@)
            &&& forall|symbol: Seq<char>| #[trigger]
                agrees(
                    actions(report.commands@),
                    directory,
                    self.capacity as nat,
                    self.skip@,
                    routed,
                    symbol,
                    true,
                )
            &&& only_known(actions(report.commands@), directory, self.skip@, routed)
            &&& if routable(lines) == lines.len() {
                report.result is Ok
            } else {
                report.result matches Err(e) && e@ == Fault::SymbolExtractionError
            }
        }
    }

    /// Runs the job over the lines of its stream. Nothing is written: the
    /// report holds the batches and the closings for the caller to carry out.
    pub fn download_impl(&self, base_dir: &str, rows: &Vec<String>) -> (report: Report)
        ensures
            self.is_report(base_dir@, texts(rows@), report),
    {
        let mut journal: Vec<Command> = Vec::new();
        let mut splitter = match Splitter::new(self, base_dir) {
            Ok(splitter) => splitter,
            Err(e) => {
                return Report { commands: journal, result: Err(e) };
            },
        };
        let ghost lines = texts(rows@);
        let ghost directory = directory_of(base_dir@, self.date@, self.ticker@);
        let ghost capacity = self.capacity as nat;
        let ghost skip = self.skip@;
        let n = rows.len();
        let mut k: usize = 0;
        proof {
            assert(lines.take(0) =~= Seq::<Seq<char>>::empty());
            assert forall|s: Seq<char>| #[trigger]
                agrees(actions(journal@), directory, capacity, skip, lines.take(0), s, false) by {}
        }
        while k < n
            invariant
                n == rows.len(),
                k <= n,
                lines == texts(rows@),
                directory == directory_of(base_dir@, self.date@, self.ticker@),
                capacity == self.capacity as nat,
                skip == self.skip@,
                self.capacity > 0,
                splitter.wf(),
                splitter.live(),
                splitter.args == self,
                splitter.directory@ == directory,
                splitter.seen@ == lines.take(k as int),
                forall|j: int| 0 <= j < k ==> symbol_of(#[trigger] lines[j]) is Some,
                all_wf(journal@),
                forall|s: Seq<char>| #[trigger]
                    agrees(
                        actions(journal@),
                        directory,
                        capacity,
                        skip,
                        lines.take(k as int),
                        s,
                        false,
                    ),
                only_known(actions(journal@), directory, skip, lines.take(k as int)),
            decreases n - k,
        {
            let ghost so_far = actions(journal@);
            proof {
                assert(lines.take(k + 1) =~= lines.take(k as int).push(lines[k as int]));
            }
            match splitter.route(rows[k].as_str()) {
                Ok(routed) => {
                    proof {
                        lemma_route_agrees(
                            so_far,
                            directory,
                            capacity,
                            skip,
                            lines.take(k as int),
                            lines[k as int],
                            batch_view(routed.flushed),
                        );
                    }
                    match routed.flushed {
                        Some(batch) => {
                            proof {
                                assert(actions(journal@.push(Command::Write(batch))) =~= so_far.push(
                                    Action::Write(batch@),
                                ));
                            }
                            journal.push(Command::Write(batch));
                        },
                        None => {},
                    }
                },
                Err(e) => {
                    let ghost failed = splitter;
                    let mut closing = splitter.abort();
                    proof {
                        failed.lemma_drain_agrees(so_far);
                        assert(actions(journal@ + closing@) =~= so_far + actions(closing@));
                        lemma_routable(lines);
                    }
                    journal.append(&mut closing);
                    return Report { commands: journal, result: Err(e) };
                },
            }
            k = k + 1;
        }
        let ghost ended = splitter;
        let mut closing = splitter.finish();
        proof {
            ended.lemma_drain_agrees(actions(journal@));
            assert(actions(journal@ + closing@) =~= actions(journal@) + actions(closing@));
            lemma_routable(lines);
        }
        journal.append(&mut closing);
        Report { commands: journal, result: Ok(()) }
    }
}

} // verus!
