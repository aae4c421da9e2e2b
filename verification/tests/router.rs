use midas_rs::column::SeriesData;
use midas_rs::error::Error;
use midas_rs::product::Command;
use midas_rs::splitter::{get_symbol, DownloadArgs, Report, RouterState, Splitter};
use midas_rs::{check_workers, download, par_download, Job};

fn quote(symbol: &str, n: u32) -> String {
    format!("F@ 16462314{:05} {} 45 O {} 7 1.25 Q A 12 1.35 N X Y", n, n, symbol)
}

fn trade(symbol: &str, n: u32) -> String {
    format!("FT 16462314{:05} {} 46 O {} I 3 4.5 B 8 9 Z", n, n, symbol)
}

fn args(capacity: usize, skip: &[&str]) -> DownloadArgs {
    DownloadArgs::new(
        "20220302".to_string(),
        "SPXW".to_string(),
        capacity,
        skip.iter().map(|s| s.to_string()).collect(),
    )
}

fn stamps_of(report: &Report, path: &str) -> Vec<u32> {
    let mut out = Vec::new();
    for command in &report.commands {
        if let Command::Write(batch) = command {
            if batch.path == path {
                match &batch.frame.columns[2].data {
                    SeriesData::UInt32(items) => out.extend(items.iter().copied()),
                    other => panic!("not a u32 column: {:?}", other),
                }
            }
        }
    }
    out
}

fn paths_of(report: &Report) -> Vec<String> {
    let mut out: Vec<String> = Vec::new();
    for command in &report.commands {
        let path = match command {
            Command::Write(batch) => batch.path.clone(),
            Command::Finish { path } => path.clone(),
        };
        if !out.contains(&path) {
            out.push(path);
        }
    }
    out
}

#[test]
fn test_get_symbol() {
    let line = "F@ 1646231400123 930 45 O SPXW_220302C04400000 7 1.25 Q A 12 1.35 N X Y";
    assert_eq!(get_symbol(line).unwrap(), "SPXW220302C04400000");
}

#[test]
fn symbol_needs_six_tokens() {
    assert_eq!(get_symbol("F@ 1 2 3 4"), Err(Error::SymbolExtractionError));
    assert_eq!(get_symbol(""), Err(Error::SymbolExtractionError));
    assert_eq!(get_symbol("F@ 1 2 3 4 S_Y_M").unwrap(), "SYM");
    assert_eq!(get_symbol("a b c d e ").unwrap(), "");
    assert_eq!(get_symbol("a  c d e f_ g").unwrap(), "f");
}

#[test]
fn test_download() {
    let rows: Vec<String> = (0..40)
        .map(|n| if n % 3 == 0 { trade("SPXW_220302C04400000", n) } else { quote("SPXW_220302P04400000", n) })
        .collect();
    let job = DownloadArgs::new("placeholder".to_string(), "placeholder".to_string(), 10000, Vec::new());
    let report = job.download_impl("test_data", &rows);
    assert_eq!(report.result, Ok(()));
    assert_eq!(
        paths_of(&report),
        vec![
            "test_data/placeholder/placeholder/SPXW220302C04400000.parquet".to_string(),
            "test_data/placeholder/placeholder/SPXW220302P04400000.parquet".to_string(),
        ]
    );
    assert_eq!(report.commands.len(), 4);
}

#[test]
fn every_accepted_row_is_written_once() {
    let mut rows: Vec<String> = Vec::new();
    for n in 0..23 {
        rows.push(quote("AAA_1", n));
        if n % 2 == 0 {
            rows.push(trade("BBB_2", 100 + n));
        }
        if n % 5 == 0 {
            rows.push("F@ 1 2 3 O AAA_1 broken".to_string());
        }
    }
    let report = args(4, &[]).download_impl("base", &rows);
    assert_eq!(report.result, Ok(()));
    assert_eq!(stamps_of(&report, "base/20220302/SPXW/AAA1.parquet"), (0..23).collect::<Vec<u32>>());
    assert_eq!(
        stamps_of(&report, "base/20220302/SPXW/BBB2.parquet"),
        (0..23).filter(|n| n % 2 == 0).map(|n| 100 + n).collect::<Vec<u32>>()
    );
    let mut creations = 0;
    let mut finishes = 0;
    for command in &report.commands {
        match command {
            Command::Write(batch) => {
                if batch.create {
                    creations += 1;
                }
                assert!(batch.frame.height() <= 4);
            }
            Command::Finish { .. } => finishes += 1,
        }
    }
    assert_eq!(creations, 2);
    assert_eq!(finishes, 2);
    assert_eq!(
        report.commands.last(),
        Some(&Command::Finish { path: "base/20220302/SPXW/BBB2.parquet".to_string() })
    );
}

#[test]
fn skipped_symbols_leave_no_trace() {
    let rows = vec![quote("AAA_1", 1), quote("BBB_2", 2), quote("AAA_1", 3), quote("BBB_2", 4)];
    let report = args(10, &["AAA1"]).download_impl("base", &rows);
    assert_eq!(report.result, Ok(()));
    assert_eq!(paths_of(&report), vec!["base/20220302/SPXW/BBB2.parquet".to_string()]);
    assert_eq!(stamps_of(&report, "base/20220302/SPXW/AAA1.parquet"), Vec::<u32>::new());
    assert_eq!(stamps_of(&report, "base/20220302/SPXW/BBB2.parquet"), vec![2, 4]);
}

#[test]
fn skip_goes_by_the_symbol_without_underscores() {
    let rows = vec![quote("AAA_1", 1)];
    let report = args(10, &["AAA_1"]).download_impl("base", &rows);
    assert_eq!(stamps_of(&report, "base/20220302/SPXW/AAA1.parquet"), vec![1]);
    assert!(args(10, &["AAA1", "B"]).skips("AAA1"));
    assert!(!args(10, &["AAA1", "B"]).skips("AAA_1"));
}

#[test]
fn symbol_with_only_dropped_rows_still_gets_a_file() {
    let rows = vec!["F@ 1 2 3 O AAA_1 broken".to_string()];
    let report = args(10, &[]).download_impl("base", &rows);
    assert_eq!(report.result, Ok(()));
    assert_eq!(report.commands.len(), 2);
    match &report.commands[0] {
        Command::Write(batch) => {
            assert!(batch.create);
            assert_eq!(batch.path, "base/20220302/SPXW/AAA1.parquet");
            assert_eq!(batch.frame.height(), 0);
        }
        other => panic!("not a write: {:?}", other),
    }
}

#[test]
fn line_without_symbol_fails_the_job_and_closes_the_writers() {
    let rows = vec![quote("AAA_1", 1), quote("BBB_2", 2), "F@ short".to_string(), quote("AAA_1", 4)];
    let report = args(10, &[]).download_impl("base", &rows);
    assert_eq!(report.result, Err(Error::SymbolExtractionError));
    assert_eq!(stamps_of(&report, "base/20220302/SPXW/AAA1.parquet"), vec![1]);
    assert_eq!(stamps_of(&report, "base/20220302/SPXW/BBB2.parquet"), vec![2]);
    assert_eq!(report.commands.len(), 4);
}

#[test]
fn capacity_zero_is_a_config_error() {
    let rows = vec![quote("AAA_1", 1)];
    let report = args(0, &[]).download_impl("base", &rows);
    assert_eq!(report.result, Err(Error::ConfigError));
    assert!(report.commands.is_empty());
    let job = args(0, &[]);
    assert_eq!(Splitter::new(&job, "base").err(), Some(Error::ConfigError));
}

#[test]
fn empty_stream_asks_for_nothing() {
    let report = args(5, &[]).download_impl("base", &Vec::new());
    assert_eq!(report.result, Ok(()));
    assert!(report.commands.is_empty());
}

#[test]
fn download_is_download_impl() {
    let rows = vec![quote("AAA_1", 1), trade("AAA_1", 2), quote("CCC", 3)];
    let job = args(1, &["CCC"]);
    assert_eq!(download(&job, "b", &rows), job.download_impl("b", &rows));
}

#[test]
fn getters_give_the_arguments_back() {
    let job = args(7, &["X"]);
    assert_eq!(job.date(), "20220302");
    assert_eq!(job.ticker(), "SPXW");
    assert_eq!(job.capacity(), 7);
    assert_eq!(job.skipped(), &vec!["X".to_string()]);
    assert_eq!(job.directory("data"), "data/20220302/SPXW/");
    assert_eq!(job.create_path("data", "SPXW220302C04400000"), "data/20220302/SPXW/SPXW220302C04400000.parquet");
}

#[test]
fn router_goes_through_its_states() {
    let job = args(2, &["SKIP"]);
    let mut router = Splitter::new(&job, "base").unwrap();
    assert_eq!(router.state(), RouterState::Idle);
    let routed = router.route(&quote("AAA_1", 1)).unwrap();
    assert_eq!(routed.symbol, "AAA1");
    assert!(!routed.skipped);
    assert_eq!(routed.flushed, None);
    assert_eq!(routed.dropped, None);
    assert_eq!(router.state(), RouterState::Running);
    let skipped = router.route(&quote("SKIP", 2)).unwrap();
    assert!(skipped.skipped);
    assert_eq!(router.len(), 1);
    let dropped = router.route("F@ 1 2 3 O BBB_2 broken").unwrap();
    assert_eq!(dropped.dropped, Some(Error::MalformedRecord));
    assert_eq!(router.len(), 2);
    router.route(&quote("AAA_1", 3)).unwrap();
    let full = router.route(&quote("AAA_1", 4)).unwrap();
    assert_eq!(full.flushed.unwrap().frame.height(), 2);
    let commands = router.finish();
    assert_eq!(router.state(), RouterState::Completed);
    assert_eq!(commands.len(), 4);
    assert_eq!(router.finish(), Vec::<Command>::new());
    assert_eq!(router.abort(), Vec::<Command>::new());
    assert_eq!(router.state(), RouterState::Completed);
    assert_eq!(
        router.route(&quote("AAA_1", 5)),
        Err(Error::IoError { cause: "the sink is finished".to_string() })
    );
}

#[test]
fn router_fails_on_a_line_without_symbol() {
    let job = args(2, &[]);
    let mut router = Splitter::new(&job, "base").unwrap();
    router.route(&quote("AAA_1", 1)).unwrap();
    assert_eq!(router.route("nothing here"), Err(Error::SymbolExtractionError));
    assert_eq!(router.state(), RouterState::Failed);
    assert_eq!(
        router.route(&quote("AAA_1", 2)),
        Err(Error::IoError { cause: "the sink is finished".to_string() })
    );
    let commands = router.finish();
    assert_eq!(commands.len(), 2);
    assert_eq!(router.state(), RouterState::Failed);
}

#[test]
fn abort_closes_the_writers_and_fails_the_router() {
    let job = args(2, &[]);
    let mut router = Splitter::new(&job, "base").unwrap();
    router.route(&quote("AAA_1", 1)).unwrap();
    router.route(&quote("BBB_2", 2)).unwrap();
    let commands = router.abort();
    assert_eq!(commands.len(), 4);
    assert_eq!(router.state(), RouterState::Failed);
    assert_eq!(router.abort(), Vec::<Command>::new());
}

#[test]
fn fan_out_stops_at_the_first_failed_job() {
    let jobs = vec![
        Job { args: args(2, &[]), rows: vec![quote("AAA_1", 1), quote("AAA_1", 2)] },
        Job { args: args(2, &[]), rows: vec![quote("BBB_2", 3), "bad".to_string()] },
        Job { args: args(2, &[]), rows: vec![quote("CCC_3", 4)] },
    ];
    let out = par_download(&jobs, "base", 4);
    assert_eq!(out.result, Err(Error::SymbolExtractionError));
    assert_eq!(out.failed, Some(1));
    assert_eq!(out.reports.len(), 2);
    assert_eq!(out.reports[0].result, Ok(()));
    assert_eq!(stamps_of(&out.reports[0], "base/20220302/SPXW/AAA1.parquet"), vec![1, 2]);
    assert_eq!(out.reports[1].result, Err(Error::SymbolExtractionError));
    assert_eq!(stamps_of(&out.reports[1], "base/20220302/SPXW/BBB2.parquet"), vec![3]);
}

#[test]
fn fan_out_runs_every_job_where_none_fails() {
    let jobs = vec![
        Job { args: args(1, &[]), rows: vec![quote("AAA_1", 1)] },
        Job { args: args(1, &["BBB2"]), rows: vec![quote("BBB_2", 2)] },
    ];
    let out = par_download(&jobs, "base", 1);
    assert_eq!(out.result, Ok(()));
    assert_eq!(out.failed, None);
    assert_eq!(out.reports.len(), 2);
    assert!(out.reports[1].commands.is_empty());
    let none = par_download(&Vec::new(), "base", 3);
    assert_eq!(none.result, Ok(()));
    assert!(none.reports.is_empty());
}

#[test]
fn fan_out_needs_a_worker() {
    let jobs = vec![Job { args: args(1, &[]), rows: vec![quote("AAA_1", 1)] }];
    let out = par_download(&jobs, "base", 0);
    assert_eq!(out.result, Err(Error::ConfigError));
    assert_eq!(out.failed, None);
    assert!(out.reports.is_empty());
    assert_eq!(check_workers(0), Err(Error::ConfigError));
    assert_eq!(check_workers(1), Ok(()));
}

#[test]
fn fan_out_reports_a_job_with_capacity_zero() {
    let jobs = vec![
        Job { args: args(0, &[]), rows: vec![quote("AAA_1", 1)] },
        Job { args: args(1, &[]), rows: vec![quote("BBB_2", 2)] },
    ];
    let out = par_download(&jobs, "base", 2);
    assert_eq!(out.result, Err(Error::ConfigError));
    assert_eq!(out.failed, Some(0));
    assert_eq!(out.reports.len(), 1);
}

#[test]
fn symbol_is_the_sixth_token_without_underscores() {
    let lines = [
        "F@ 1 2 3 4 SPXW_220302C04400000 6",
        "a b c d e f",
        "a b c d e f_g_h i j",
        "a b c d e  g",
        "a b c d e _",
        "  c d e f g",
    ];
    for line in lines {
        let expected = line.split(' ').nth(5).unwrap().replace('_', "");
        assert_eq!(get_symbol(line), Ok(expected), "{:?}", line);
    }
}
