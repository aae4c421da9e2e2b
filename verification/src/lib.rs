//! Partitioned columnar ingestion of market tick records.
//!
//! Lines of quote and trade records are normalised into rows of fifteen
//! fields, routed by instrument symbol, gathered in typed column buffers and
//! handed out as column-oriented frames, one batch at a time.
//!
//! The library decides and computes; it reads no stream and writes no file.
//! What is to be written comes back as values for the caller to carry out.

use vstd::prelude::*;
use crate::error::{Error, Fault};
use crate::splitter::{lemma_routable, routable, DownloadArgs, Report};
use crate::text::texts;

pub mod column;
pub mod columns;
pub mod error;
pub mod numeric;
pub mod product;
pub mod row;
pub mod splitter;
pub mod text;

verus! {

/// Runs one job over the lines of its stream.
pub fn download(args: &DownloadArgs, base_dir: &str, rows: &Vec<String>) -> (report: Report)
    ensures
        args.is_report(base_dir@, texts(rows@), report),
{
    args.download_impl(base_dir, rows)
}

/// A job and the lines of its stream.
pub struct Job {
    pub args: DownloadArgs,
    pub rows: Vec<String>,
}

impl Job {
    /// Whether the job fails: its capacity is zero, or one of its lines has
    /// no symbol.
    pub open spec fn fails(&self) -> bool {
        self.args.capacity == 0 || routable(texts(self.rows@)) < self.rows@.len()
    }
}

/// What became of a set of jobs: the reports of the jobs that ran, in
/// order, the index of the job that failed, if one did, and its error.
pub struct FanOut {
    pub reports: Vec<Report>,
    pub failed: Option<usize>,
    pub result: Result<(), Error>,
}

/// The index of the first job that fails; the number of jobs where none
/// does.
pub open spec fn first_failure(jobs: Seq<Job>) -> nat
    decreases jobs.len(),
{
    if jobs.len() == 0 {
        0
    } else {
        let k = first_failure(jobs.drop_last());
        if k == jobs.len() - 1 && !jobs.last().fails() {
            jobs.len()
        } else {
            k
        }
    }
}

/// No job before the first failure fails, and the job at it, where there is
/// one, does.
pub proof fn lemma_first_failure(jobs: Seq<Job>)
    ensures
        first_failure(jobs) <= jobs.len(),
        forall|j: int| 0 <= j < first_failure(jobs) ==> !(#[trigger] jobs[j]).fails(),
        first_failure(jobs) < jobs.len() ==> jobs[first_failure(jobs) as int].fails(),
    decreases jobs.len(),
{
    if jobs.len() > 0 {
        lemma_first_failure(jobs.drop_last());
        assert forall|j: int| 0 <= j < first_failure(jobs) implies !(#[trigger] jobs[j]).fails() by {
            if j < jobs.len() - 1 {
                assert(jobs.drop_last()[j] == jobs[j]);
            }
        }
    }
}

/// Tests a worker budget: it must be positive.
pub fn check_workers(n_workers: usize) -> (res: Result<(), Error>)
    ensures
        match res {
            Ok(()) => n_workers > 0,
            Err(e) => n_workers == 0 && e@ == Fault::ConfigError,
        },
{
    if n_workers == 0 {
        Err(Error::ConfigError)
    } else {
        Ok(())
    }
}

/// Runs many jobs, each over the lines of its own stream, and stops at the
/// first that fails. The jobs share nothing; the number of workers says how
/// many of them a caller may carry out at a time, and must be positive.
///
/// The jobs before the failed one are complete, and what they asked for
/// stands. The failed job's report holds what it asked for until it failed,
/// its closings included.
pub fn par_download(jobs: &Vec<Job>, base_dir: &str, n_workers: usize) -> (out: FanOut)
    ensures
        n_workers == 0 ==> {
            &&& out.reports@.len() == 0
            &&& out.failed is None
            &&& out.result matches Err(e) && e@ == Fault::ConfigError
        },
        n_workers > 0 ==> {
            let k = first_failure(jobs@);
            &&& out.reports@.len() == if k < jobs@.len() {
                k + 1
            } else {
                jobs@.len()
            }
            &&& forall|i: int|
                0 <= i < out.reports@.len() ==> (#[trigger] jobs@[i]).args.is_report(
                    base_dir@,
                    texts(jobs@[i].rows@),
                    out.reports@[i],
                )
            &&& forall|i: int| 0 <= i < k ==> (#[trigger] out.reports@[i]).result is Ok
            &&& if k == jobs@.len() {
                out.failed is None && out.result is Ok
            } else {
                &&& out.failed == Some(k as usize)
                &&& out.result matches Err(e) && (out.reports@[k as int].result matches Err(cause)
                    && e@ == cause@)
            }
        },
{
    let mut reports: Vec<Report> = Vec::new();
    match check_workers(n_workers) {
        Ok(()) => {},
        Err(e) => {
            return FanOut { reports, failed: None, result: Err(e) };
        },
    }
    let n = jobs.len();
    let mut i: usize = 0;
    while i < n
        invariant
            n == jobs@.len(),
            i <= n,
            n_workers > 0,
            reports@.len() == i,
            forall|j: int| 0 <= j < i ==> !(#[trigger] jobs@[j]).fails(),
            forall|j: int|
                0 <= j < i ==> (#[trigger] jobs@[j]).args.is_report(
                    base_dir@,
                    texts(jobs@[j].rows@),
                    reports@[j],
                ),
            forall|j: int| 0 <= j < i ==> (#[trigger] reports@[j]).result is Ok,
        decreases n - i,
    {
        let report = jobs[i].args.download_impl(base_dir, &jobs[i].rows);
        let failure = match &report.result {
            Ok(()) => None,
            Err(e) => Some(e.duplicate()),
        };
        proof {
            lemma_routable(texts(jobs@[i as int].rows@));
        }
        reports.push(report);
        match failure {
            Some(e) => {
                proof {
                    lemma_first_failure(jobs@);
                }
                return FanOut { reports, failed: Some(i), result: Err(e) };
            },
            None => {},
        }
        i = i + 1;
    }
    proof {
        lemma_first_failure(jobs@);
    }
    FanOut { reports, failed: None, result: Ok(()) }
}

} // verus!
