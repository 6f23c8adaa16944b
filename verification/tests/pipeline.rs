use quote_ingest::naming::KeyScheme;
use quote_ingest::model::Phase;
use quote_ingest::pipeline::Pipeline;
use quote_ingest::protocol::{Command, DuplicatePolicy, Event, Report};
use quote_ingest::quote::Quote;
use std::collections::BTreeMap;

/// A stand-in for the registry, the provider and the store.
struct World {
    keys: Vec<String>,
    statuses: BTreeMap<String, String>,
    quotes: BTreeMap<String, Result<Vec<Quote<f32>>, String>>,
    store: BTreeMap<String, BTreeMap<i64, f32>>,
    failing_series: Vec<String>,
    reports: Vec<Report>,
    fetches: Vec<String>,
    writes: usize,
}

fn world() -> World {
    World {
        keys: Vec::new(),
        statuses: BTreeMap::new(),
        quotes: BTreeMap::new(),
        store: BTreeMap::new(),
        failing_series: Vec::new(),
        reports: Vec::new(),
        fetches: Vec::new(),
        writes: 0,
    }
}

fn register(world: &mut World, instrument: &str, status: &str) {
    let key = format!("MARKET:METADATA:STOCKS:{}", instrument);
    world.keys.push(key.clone());
    world.statuses.insert(key, status.to_string());
}

fn quote(day: u64, base: f64) -> Quote<f32> {
    Quote {
        timestamp: day,
        open: base as f32,
        high: (base + 2.0) as f32,
        low: (base - 1.0) as f32,
        close: (base + 1.0) as f32,
        adjclose: (base + 0.5) as f32,
    }
}

fn answer(world: &mut World, command: Command<f32>) -> Event<f32> {
    match command {
        Command::ListKeys { pattern } => {
            assert_eq!(pattern, "MARKET:METADATA:STOCKS:*");
            Event::Keys(world.keys.clone())
        }
        Command::ReadStatus { key, attribute } => {
            assert_eq!(attribute, "attivo");
            match world.statuses.get(&key) {
                Some(status) => Event::Status(status.clone()),
                None => Event::Failed(format!("no such record: {}", key)),
            }
        }
        Command::Fetch { instrument, interval, period } => {
            assert_eq!(interval, "1d");
            assert_eq!(period, "1w");
            world.fetches.push(instrument.clone());
            match world.quotes.get(&instrument) {
                Some(Ok(quotes)) => Event::Quotes(quotes.clone()),
                Some(Err(reason)) => Event::Failed(reason.clone()),
                None => Event::Failed(format!("unknown symbol {}", instrument)),
            }
        }
        Command::Upsert { point, policy } => {
            assert_eq!(policy, DuplicatePolicy::Last);
            if world.failing_series.contains(&point.key) {
                Event::Failed(format!("cannot write {}", point.key))
            } else {
                world.store.entry(point.key).or_default().insert(point.timestamp, point.value);
                world.writes += 1;
                Event::Written
            }
        }
        Command::Finish | Command::Abort => unreachable!(),
    }
}

fn run(world: &mut World) -> Phase {
    let machine: Pipeline<f32> = Pipeline::new(KeyScheme::standard(), "1w".to_string());
    let (mut machine, mut step) = machine.step(Event::Start);
    loop {
        world.reports.extend(step.reports);
        if step.command == Command::Finish || step.command == Command::Abort {
            return machine.phase();
        }
        let event = answer(world, step.command);
        let next = machine.step(event);
        machine = next.0;
        step = next.1;
    }
}

fn diagnostics(world: &World) -> Vec<Report> {
    world.reports.iter().filter(|r| !matches!(r, Report::Progress { .. })).cloned().collect()
}

#[test]
fn empty_response_writes_nothing_and_full_response_writes_every_field() {
    let mut w = world();
    register(&mut w, "MSFT", "1");
    register(&mut w, "AAPL", "1");
    w.quotes.insert("AAPL".to_string(), Ok(vec![]));
    w.quotes.insert(
        "MSFT".to_string(),
        Ok(vec![quote(1_700_000_000, 10.0), quote(1_700_086_400, 20.0), quote(1_700_172_800, 30.0)]),
    );
    assert_eq!(run(&mut w), Phase::Done);
    assert_eq!(w.fetches, vec!["AAPL".to_string(), "MSFT".to_string()]);
    assert_eq!(w.writes, 15);
    assert_eq!(w.store.len(), 5);
    for field in ["open", "close", "high", "low", "adj_close"] {
        assert!(!w.store.contains_key(&format!("MARKET:AAPL:{}", field)));
        let series = &w.store[&format!("MARKET:MSFT:{}", field)];
        assert_eq!(
            series.keys().copied().collect::<Vec<i64>>(),
            vec![1_700_000_000_000, 1_700_086_400_000, 1_700_172_800_000]
        );
    }
    assert_eq!(w.store["MARKET:MSFT:open"][&1_700_086_400_000], 20.0);
    assert_eq!(w.store["MARKET:MSFT:close"][&1_700_086_400_000], 21.0);
    assert_eq!(w.store["MARKET:MSFT:high"][&1_700_086_400_000], 22.0);
    assert_eq!(w.store["MARKET:MSFT:low"][&1_700_086_400_000], 19.0);
    assert_eq!(w.store["MARKET:MSFT:adj_close"][&1_700_086_400_000], 20.5);
    assert!(diagnostics(&w).is_empty());
}

#[test]
fn provider_error_for_the_only_instrument_still_completes() {
    let mut w = world();
    register(&mut w, "XXXX", "1");
    w.quotes.insert("XXXX".to_string(), Err("delisted".to_string()));
    assert_eq!(run(&mut w), Phase::Done);
    assert_eq!(w.writes, 0);
    assert!(w.store.is_empty());
    assert_eq!(
        diagnostics(&w),
        vec![Report::FetchFailed { instrument: "XXXX".to_string(), reason: "delisted".to_string() }]
    );
}

#[test]
fn failure_for_one_instrument_leaves_the_others_alone() {
    let mut w = world();
    register(&mut w, "MSFT", "1");
    register(&mut w, "GOOG", "1");
    register(&mut w, "AAPL", "1");
    w.quotes.insert("AAPL".to_string(), Ok(vec![quote(86_400, 1.0)]));
    w.quotes.insert("GOOG".to_string(), Err("timeout".to_string()));
    w.quotes.insert("MSFT".to_string(), Ok(vec![quote(86_400, 3.0)]));
    assert_eq!(run(&mut w), Phase::Done);
    assert_eq!(w.fetches, vec!["AAPL", "GOOG", "MSFT"]);
    assert_eq!(w.writes, 10);
    assert_eq!(w.store["MARKET:AAPL:open"][&86_400_000], 1.0);
    assert_eq!(w.store["MARKET:MSFT:open"][&86_400_000], 3.0);
    assert!(w.store.keys().all(|key| !key.starts_with("MARKET:GOOG:")));
    assert_eq!(
        diagnostics(&w),
        vec![Report::FetchFailed { instrument: "GOOG".to_string(), reason: "timeout".to_string() }]
    );
}

#[test]
fn failure_for_the_first_and_the_last_instrument_leaves_the_middle_alone() {
    let mut w = world();
    register(&mut w, "A", "1");
    register(&mut w, "B", "1");
    register(&mut w, "C", "1");
    w.quotes.insert("B".to_string(), Ok(vec![quote(1, 5.0), quote(2, 6.0)]));
    assert_eq!(run(&mut w), Phase::Done);
    assert_eq!(w.fetches, vec!["A", "B", "C"]);
    assert_eq!(w.writes, 10);
    assert_eq!(diagnostics(&w).len(), 2);
}

#[test]
fn writing_the_same_quote_twice_leaves_one_point_per_field() {
    let mut w = world();
    register(&mut w, "AAPL", "1");
    w.quotes.insert("AAPL".to_string(), Ok(vec![quote(86_400, 7.0), quote(86_400, 7.0)]));
    assert_eq!(run(&mut w), Phase::Done);
    assert_eq!(w.writes, 10);
    assert_eq!(w.store.len(), 5);
    for series in w.store.values() {
        assert_eq!(series.len(), 1);
    }
    assert_eq!(w.store["MARKET:AAPL:open"][&86_400_000], 7.0);
    assert_eq!(w.store["MARKET:AAPL:close"][&86_400_000], 8.0);
    assert_eq!(w.store["MARKET:AAPL:high"][&86_400_000], 9.0);
    assert_eq!(w.store["MARKET:AAPL:low"][&86_400_000], 6.0);
    assert_eq!(w.store["MARKET:AAPL:adj_close"][&86_400_000], 7.5);
}

#[test]
fn a_second_run_over_the_same_day_leaves_the_store_as_it_was() {
    let mut w = world();
    register(&mut w, "AAPL", "1");
    w.quotes.insert("AAPL".to_string(), Ok(vec![quote(86_400, 7.0), quote(172_800, 9.0)]));
    assert_eq!(run(&mut w), Phase::Done);
    let after_first = w.store.clone();
    assert_eq!(run(&mut w), Phase::Done);
    assert_eq!(w.store, after_first);
    assert_eq!(w.writes, 20);
}

#[test]
fn the_later_of_two_runs_decides_the_stored_close() {
    let mut w = world();
    register(&mut w, "AAPL", "1");
    let mut first = quote(86_400, 10.0);
    first.close = 10.25;
    w.quotes.insert("AAPL".to_string(), Ok(vec![first]));
    assert_eq!(run(&mut w), Phase::Done);
    assert_eq!(w.store["MARKET:AAPL:close"][&86_400_000], 10.25);
    let mut second = quote(86_400, 10.0);
    second.close = 11.75;
    w.quotes.insert("AAPL".to_string(), Ok(vec![second]));
    assert_eq!(run(&mut w), Phase::Done);
    assert_eq!(w.store["MARKET:AAPL:close"].len(), 1);
    assert_eq!(w.store["MARKET:AAPL:close"][&86_400_000], 11.75);
    assert_eq!(w.store["MARKET:AAPL:open"][&86_400_000], 10.0);
}

#[test]
fn a_written_quote_reads_back_at_a_thousand_times_its_day() {
    let provided = [(1_700_000_000u64, 189.123456789f64, 191.987654321f64, 188.000000001f64, 190.55f64, 190.1f64)];
    let mut w = world();
    register(&mut w, "AAPL", "1");
    let quotes: Vec<Quote<f32>> = provided
        .iter()
        .map(|(day, open, high, low, close, adjclose)| Quote {
            timestamp: *day,
            open: *open as f32,
            high: *high as f32,
            low: *low as f32,
            close: *close as f32,
            adjclose: *adjclose as f32,
        })
        .collect();
    w.quotes.insert("AAPL".to_string(), Ok(quotes));
    assert_eq!(run(&mut w), Phase::Done);
    let (day, open, high, low, close, adjclose) = provided[0];
    let at = (day * 1000) as i64;
    assert_eq!(at, 1_700_000_000_000);
    for (field, price) in
        [("open", open), ("high", high), ("low", low), ("close", close), ("adj_close", adjclose)]
    {
        let stored = w.store[&format!("MARKET:AAPL:{}", field)][&at];
        assert!((stored as f64 - price).abs() <= price.abs() * (f32::EPSILON as f64), "{}", field);
    }
}

#[test]
fn inactive_instruments_are_not_asked_for() {
    let mut w = world();
    register(&mut w, "AAPL", "0");
    register(&mut w, "MSFT", "1");
    register(&mut w, "GOOG", "");
    w.quotes.insert("AAPL".to_string(), Ok(vec![quote(1, 1.0)]));
    w.quotes.insert("GOOG".to_string(), Ok(vec![quote(1, 1.0)]));
    w.quotes.insert("MSFT".to_string(), Ok(vec![quote(1, 1.0)]));
    assert_eq!(run(&mut w), Phase::Done);
    assert_eq!(w.fetches, vec!["MSFT"]);
    assert_eq!(w.writes, 5);
}

#[test]
fn an_empty_registry_finishes_at_once() {
    let mut w = world();
    assert_eq!(run(&mut w), Phase::Done);
    assert!(w.fetches.is_empty());
    assert!(w.reports.is_empty());
    assert_eq!(w.writes, 0);
}

#[test]
fn progress_counts_from_zero_over_the_active_instruments() {
    let mut w = world();
    register(&mut w, "MSFT", "1");
    register(&mut w, "SKIP", "0");
    register(&mut w, "AAPL", "1");
    w.quotes.insert("AAPL".to_string(), Ok(vec![]));
    w.quotes.insert("MSFT".to_string(), Ok(vec![]));
    assert_eq!(run(&mut w), Phase::Done);
    assert_eq!(
        w.reports,
        vec![
            Report::Progress { index: 0, total: 2, instrument: "AAPL".to_string() },
            Report::Progress { index: 1, total: 2, instrument: "MSFT".to_string() },
        ]
    );
}

#[test]
fn a_failed_key_listing_ends_the_run() {
    let machine: Pipeline<f32> = Pipeline::new(KeyScheme::standard(), "1w".to_string());
    let (machine, step) = machine.step(Event::Start);
    assert_eq!(machine.phase(), Phase::ListingKeys);
    assert_eq!(step.command, Command::ListKeys { pattern: "MARKET:METADATA:STOCKS:*".to_string() });
    assert!(step.reports.is_empty());
    let (machine, step) = machine.step(Event::Failed("connection reset".to_string()));
    assert_eq!(machine.phase(), Phase::Aborted);
    assert_eq!(step.command, Command::Abort);
    assert_eq!(step.reports, vec![Report::RegistryFailed { reason: "connection reset".to_string() }]);
}

#[test]
fn a_failed_status_read_ends_the_run() {
    let mut w = world();
    register(&mut w, "AAPL", "1");
    register(&mut w, "MSFT", "1");
    w.statuses.remove("MARKET:METADATA:STOCKS:MSFT");
    w.quotes.insert("AAPL".to_string(), Ok(vec![quote(1, 1.0)]));
    assert_eq!(run(&mut w), Phase::Aborted);
    assert!(w.fetches.is_empty());
    assert_eq!(w.writes, 0);
    assert_eq!(
        w.reports,
        vec![Report::RegistryFailed {
            reason: "no such record: MARKET:METADATA:STOCKS:MSFT".to_string()
        }]
    );
}

#[test]
fn statuses_are_read_key_by_key_in_the_order_listed() {
    let machine: Pipeline<f32> = Pipeline::new(KeyScheme::standard(), "1w".to_string());
    let (machine, _) = machine.step(Event::Start);
    let keys = vec!["MARKET:METADATA:STOCKS:B".to_string(), "MARKET:METADATA:STOCKS:A".to_string()];
    let (machine, step) = machine.step(Event::Keys(keys.clone()));
    assert_eq!(machine.phase(), Phase::ReadingStatus);
    assert_eq!(
        step.command,
        Command::ReadStatus { key: keys[0].clone(), attribute: "attivo".to_string() }
    );
    let (machine, step) = machine.step(Event::Status("1".to_string()));
    assert_eq!(machine.phase(), Phase::ReadingStatus);
    assert!(machine.instruments().is_empty());
    assert_eq!(
        step.command,
        Command::ReadStatus { key: keys[1].clone(), attribute: "attivo".to_string() }
    );
    let (machine, step) = machine.step(Event::Status("1".to_string()));
    assert_eq!(machine.phase(), Phase::Fetching { instrument: 0 });
    assert_eq!(machine.instruments(), &vec!["A".to_string(), "B".to_string()]);
    assert_eq!(
        step.command,
        Command::Fetch {
            instrument: "A".to_string(),
            interval: "1d".to_string(),
            period: "1w".to_string()
        }
    );
}

#[test]
fn a_failed_write_gives_up_the_rest_of_its_quote_only() {
    let mut w = world();
    register(&mut w, "MSFT", "1");
    register(&mut w, "AAPL", "1");
    w.quotes.insert("AAPL".to_string(), Ok(vec![quote(1, 1.0), quote(2, 2.0)]));
    w.quotes.insert("MSFT".to_string(), Ok(vec![quote(1, 3.0)]));
    w.failing_series.push("MARKET:AAPL:high".to_string());
    assert_eq!(run(&mut w), Phase::Done);
    assert_eq!(w.writes, 2 + 2 + 5);
    for day in [1000, 2000] {
        assert!(w.store["MARKET:AAPL:open"].contains_key(&day));
        assert!(w.store["MARKET:AAPL:close"].contains_key(&day));
    }
    assert!(!w.store.contains_key("MARKET:AAPL:high"));
    assert!(!w.store.contains_key("MARKET:AAPL:low"));
    assert!(!w.store.contains_key("MARKET:AAPL:adj_close"));
    assert_eq!(w.store["MARKET:MSFT:adj_close"][&1000], 3.5);
    let failed = |day: i64| Report::WriteFailed {
        instrument: "AAPL".to_string(),
        key: "MARKET:AAPL:high".to_string(),
        timestamp: day,
        reason: "cannot write MARKET:AAPL:high".to_string(),
    };
    assert_eq!(diagnostics(&w), vec![failed(1000), failed(2000)]);
}

#[test]
fn points_are_handed_out_in_write_order() {
    let machine: Pipeline<f32> = Pipeline::new(KeyScheme::standard(), "1w".to_string());
    let (machine, _) = machine.step(Event::Start);
    let (machine, _) = machine.step(Event::Keys(vec!["MARKET:METADATA:STOCKS:AAPL".to_string()]));
    let (machine, _) = machine.step(Event::Status("1".to_string()));
    let (mut machine, mut step) = machine.step(Event::Quotes(vec![quote(3, 10.0)]));
    let mut handed_out = Vec::new();
    for field in 0..5 {
        assert_eq!(machine.phase(), Phase::Writing { instrument: 0, quote: 0, field });
        match step.command {
            Command::Upsert { point, policy: DuplicatePolicy::Last } => {
                handed_out.push((point.key, point.timestamp, point.value))
            }
            other => panic!("{:?}", other),
        }
        let next = machine.step(Event::Written);
        machine = next.0;
        step = next.1;
    }
    assert_eq!(
        handed_out,
        vec![
            ("MARKET:AAPL:open".to_string(), 3000, 10.0),
            ("MARKET:AAPL:close".to_string(), 3000, 11.0),
            ("MARKET:AAPL:high".to_string(), 3000, 12.0),
            ("MARKET:AAPL:low".to_string(), 3000, 9.0),
            ("MARKET:AAPL:adj_close".to_string(), 3000, 10.5),
        ]
    );
    assert_eq!(machine.phase(), Phase::Done);
    assert_eq!(step.command, Command::Finish);
}

#[test]
fn a_quote_with_a_day_out_of_range_is_given_up_alone() {
    let mut w = world();
    register(&mut w, "AAPL", "1");
    register(&mut w, "MSFT", "1");
    w.quotes.insert(
        "AAPL".to_string(),
        Ok(vec![quote(1, 1.0), quote(u64::MAX, 2.0), quote(2, 4.0)]),
    );
    w.quotes.insert("MSFT".to_string(), Ok(vec![quote(1, 3.0)]));
    assert_eq!(run(&mut w), Phase::Done);
    assert_eq!(w.fetches, vec!["AAPL", "MSFT"]);
    assert_eq!(w.writes, 15);
    assert_eq!(w.store["MARKET:AAPL:open"][&1000], 1.0);
    assert_eq!(w.store["MARKET:AAPL:adj_close"][&1000], 1.5);
    assert_eq!(w.store["MARKET:AAPL:open"][&2000], 4.0);
    assert_eq!(w.store["MARKET:AAPL:close"][&2000], 5.0);
    assert_eq!(w.store["MARKET:AAPL:open"].len(), 2);
    assert_eq!(w.store["MARKET:MSFT:open"][&1000], 3.0);
    assert_eq!(
        diagnostics(&w),
        vec![Report::DayOutOfRange { instrument: "AAPL".to_string(), day: u64::MAX }]
    );
}

#[test]
fn the_first_day_out_of_range_is_the_one_past_the_last_that_fits() {
    let mut w = world();
    register(&mut w, "AAPL", "1");
    w.quotes.insert(
        "AAPL".to_string(),
        Ok(vec![quote(9_223_372_036_854_776, 1.0), quote(9_223_372_036_854_775, 2.0)]),
    );
    assert_eq!(run(&mut w), Phase::Done);
    assert_eq!(w.writes, 5);
    assert_eq!(w.store["MARKET:AAPL:open"][&9_223_372_036_854_775_000], 2.0);
    assert_eq!(
        diagnostics(&w),
        vec![Report::DayOutOfRange {
            instrument: "AAPL".to_string(),
            day: 9_223_372_036_854_776
        }]
    );
}

#[test]
fn quotes_that_all_have_a_day_out_of_range_write_nothing() {
    let mut w = world();
    register(&mut w, "AAPL", "1");
    register(&mut w, "MSFT", "1");
    w.quotes.insert(
        "AAPL".to_string(),
        Ok(vec![quote(u64::MAX, 1.0), quote(u64::MAX - 1, 2.0)]),
    );
    w.quotes.insert("MSFT".to_string(), Ok(vec![quote(7, 3.0)]));
    assert_eq!(run(&mut w), Phase::Done);
    assert_eq!(w.fetches, vec!["AAPL", "MSFT"]);
    assert_eq!(w.writes, 5);
    assert!(w.store.keys().all(|key| key.starts_with("MARKET:MSFT:")));
    assert_eq!(
        w.reports,
        vec![
            Report::Progress { index: 0, total: 2, instrument: "AAPL".to_string() },
            Report::DayOutOfRange { instrument: "AAPL".to_string(), day: u64::MAX },
            Report::DayOutOfRange { instrument: "AAPL".to_string(), day: u64::MAX - 1 },
            Report::Progress { index: 1, total: 2, instrument: "MSFT".to_string() },
        ]
    );
}

#[test]
fn the_last_quote_of_a_day_decides_whatever_else_the_answer_holds() {
    let mut w = world();
    register(&mut w, "AAPL", "1");
    w.quotes.insert(
        "AAPL".to_string(),
        Ok(vec![
            quote(u64::MAX, 9.0),
            quote(86_400, 1.0),
            quote(172_800, 2.0),
            quote(86_400, 3.0),
            quote(u64::MAX, 9.0),
        ]),
    );
    assert_eq!(run(&mut w), Phase::Done);
    assert_eq!(w.writes, 15);
    assert_eq!(w.store["MARKET:AAPL:open"][&86_400_000], 3.0);
    assert_eq!(w.store["MARKET:AAPL:close"][&86_400_000], 4.0);
    assert_eq!(w.store["MARKET:AAPL:high"][&86_400_000], 5.0);
    assert_eq!(w.store["MARKET:AAPL:low"][&86_400_000], 2.0);
    assert_eq!(w.store["MARKET:AAPL:adj_close"][&86_400_000], 3.5);
    assert_eq!(w.store["MARKET:AAPL:open"][&172_800_000], 2.0);
    for series in w.store.values() {
        assert_eq!(series.len(), 2);
    }
    assert_eq!(diagnostics(&w).len(), 2);
}

#[test]
fn a_day_out_of_range_after_a_failed_write_is_reported_after_it() {
    let machine: Pipeline<f32> = Pipeline::new(KeyScheme::standard(), "1w".to_string());
    let (machine, _) = machine.step(Event::Start);
    let (machine, _) = machine.step(Event::Keys(vec!["MARKET:METADATA:STOCKS:AAPL".to_string()]));
    let (machine, _) = machine.step(Event::Status("1".to_string()));
    let (machine, step) = machine.step(Event::Quotes(vec![
        quote(u64::MAX, 0.0),
        quote(1, 1.0),
        quote(u64::MAX, 0.0),
        quote(2, 2.0),
    ]));
    assert_eq!(machine.phase(), Phase::Writing { instrument: 0, quote: 1, field: 0 });
    assert_eq!(
        step.reports,
        vec![Report::DayOutOfRange { instrument: "AAPL".to_string(), day: u64::MAX }]
    );
    let (machine, step) = machine.step(Event::Failed("full".to_string()));
    assert_eq!(machine.phase(), Phase::Writing { instrument: 0, quote: 3, field: 0 });
    assert_eq!(
        step.reports,
        vec![
            Report::WriteFailed {
                instrument: "AAPL".to_string(),
                key: "MARKET:AAPL:open".to_string(),
                timestamp: 1000,
                reason: "full".to_string()
            },
            Report::DayOutOfRange { instrument: "AAPL".to_string(), day: u64::MAX },
        ]
    );
    match step.command {
        Command::Upsert { point, policy: DuplicatePolicy::Last } => {
            assert_eq!(point.key, "MARKET:AAPL:open");
            assert_eq!(point.timestamp, 2000);
            assert_eq!(point.value, 2.0);
        }
        other => panic!("{:?}", other),
    }
}

#[test]
fn an_answer_that_was_not_awaited_counts_as_a_failure() {
    let machine: Pipeline<f32> = Pipeline::new(KeyScheme::standard(), "1w".to_string());
    let (machine, _) = machine.step(Event::Start);
    let (machine, _) = machine.step(Event::Keys(vec![
        "MARKET:METADATA:STOCKS:AAPL".to_string(),
        "MARKET:METADATA:STOCKS:MSFT".to_string(),
    ]));
    let (machine, _) = machine.step(Event::Status("1".to_string()));
    let (machine, _) = machine.step(Event::Status("1".to_string()));
    let (machine, step) = machine.step(Event::Written);
    assert_eq!(machine.phase(), Phase::Fetching { instrument: 1 });
    assert_eq!(
        step.reports,
        vec![
            Report::FetchFailed {
                instrument: "AAPL".to_string(),
                reason: "unexpected answer".to_string()
            },
            Report::Progress { index: 1, total: 2, instrument: "MSFT".to_string() },
        ]
    );
    let (machine, step) = machine.step(Event::Quotes(vec![quote(1, 1.0)]));
    assert_eq!(machine.phase(), Phase::Writing { instrument: 1, quote: 0, field: 0 });
    let (machine, step2) = machine.step(Event::Status("1".to_string()));
    assert!(matches!(step.command, Command::Upsert { .. }));
    assert_eq!(machine.phase(), Phase::Done);
    assert_eq!(step2.command, Command::Finish);
    assert_eq!(
        step2.reports,
        vec![Report::WriteFailed {
            instrument: "MSFT".to_string(),
            key: "MARKET:MSFT:open".to_string(),
            timestamp: 1000,
            reason: "unexpected answer".to_string()
        }]
    );
    for stray in [Event::Written, Event::Quotes(vec![quote(1, 1.0)]), Event::Start] {
        let (machine, step) = Pipeline::<f32>::new(KeyScheme::standard(), "1w".to_string())
            .step(Event::Start)
            .0
            .step(stray);
        assert_eq!(machine.phase(), Phase::Aborted);
        assert_eq!(
            step.reports,
            vec![Report::RegistryFailed { reason: "unexpected answer".to_string() }]
        );
    }
}

#[test]
fn a_run_that_ended_stays_ended() {
    let machine: Pipeline<f32> = Pipeline::new(KeyScheme::standard(), "1w".to_string());
    let (machine, _) = machine.step(Event::Start);
    let (machine, step) = machine.step(Event::Keys(Vec::new()));
    assert_eq!(machine.phase(), Phase::Done);
    assert_eq!(step.command, Command::Finish);
    let (machine, step) = machine.step(Event::Quotes(vec![quote(1, 1.0)]));
    assert_eq!(machine.phase(), Phase::Done);
    assert_eq!(step.command, Command::Finish);
    assert!(step.reports.is_empty());

    let aborted: Pipeline<f32> = Pipeline::new(KeyScheme::standard(), "1w".to_string());
    let (aborted, _) = aborted.step(Event::Start);
    let (aborted, _) = aborted.step(Event::Failed("down".to_string()));
    let (aborted, step) = aborted.step(Event::Keys(Vec::new()));
    assert_eq!(aborted.phase(), Phase::Aborted);
    assert_eq!(step.command, Command::Abort);
    assert!(step.reports.is_empty());
}

#[test]
fn a_new_run_is_idle_and_knows_no_instrument() {
    let machine: Pipeline<f32> = Pipeline::new(KeyScheme::standard(), "99y".to_string());
    assert_eq!(machine.phase(), Phase::Idle);
    assert!(machine.instruments().is_empty());
}

#[test]
fn the_period_is_handed_to_the_provider_as_given() {
    let machine: Pipeline<f32> = Pipeline::new(KeyScheme::standard(), "99y".to_string());
    let (machine, _) = machine.step(Event::Start);
    let (machine, _) = machine.step(Event::Keys(vec!["MARKET:METADATA:STOCKS:AAPL".to_string()]));
    let (_, step) = machine.step(Event::Status("1".to_string()));
    assert_eq!(
        step.command,
        Command::Fetch {
            instrument: "AAPL".to_string(),
            interval: "1d".to_string(),
            period: "99y".to_string()
        }
    );
}

#[test]
fn no_instrument_is_asked_for_twice() {
    let mut w = world();
    for name in ["C", "A", "B", "E", "D"] {
        register(&mut w, name, "1");
    }
    w.quotes.insert("B".to_string(), Ok(vec![quote(1, 1.0)]));
    w.quotes.insert("D".to_string(), Ok(vec![]));
    w.failing_series.push("MARKET:B:open".to_string());
    assert_eq!(run(&mut w), Phase::Done);
    assert_eq!(w.fetches, vec!["A", "B", "C", "D", "E"]);
    assert_eq!(w.writes, 0);
}
