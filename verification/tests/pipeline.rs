use optimizer::csr_graph::{CSRGraph, InputEdge};
use optimizer::dataset::{Dataset, Edge, Token};
use optimizer::error::PipelineError;
use optimizer::pipeline::config::{
    PipelineConfig, RateBounds, Span, DEFAULT_BOUND_WEIGHT, MIN_POSITIVE_WEIGHT,
};
use optimizer::pipeline::prepare::prepare;
use optimizer::pipeline::producer::{max_delay_ms, Producer, ProducerAction};
use optimizer::pipeline::searcher::{needs_search, search_pass, searcher_step, SearchEvent};
use optimizer::pipeline::stats::PipelineStats;
use optimizer::pipeline::types::{
    GraphUpdate, SearchOutcome, UpdateValidationError, WriterOutcome,
};
use optimizer::pipeline::writer::{
    all_applicable, apply_valid_updates, commit_batch, effective_max_coalesce, next_wait,
    validate_batch, validate_update, BatchWait,
};
use optimizer::rate::{Rate, WEIGHT_SCALE};
use rand::rngs::StdRng;
use rand::SeedableRng;

fn rate_of(value: f64) -> Rate {
    Rate::new(value.to_bits(), (-value.ln() * WEIGHT_SCALE as f64).round() as i64)
}

fn dataset_edge(id: u64, from: u64, to: u64, rate: f64) -> Edge {
    Edge { id, from, to, rate: rate_of(rate), pool_id: 0, kind: 0 }
}

fn token(id: u64, symbol: &str) -> Token {
    Token { id, symbol: symbol.into() }
}

fn triangular_arbitrage_dataset() -> Dataset {
    Dataset {
        tokens: vec![token(0, "A"), token(1, "B"), token(2, "C")],
        edges: vec![
            dataset_edge(0, 0, 1, 1.10),
            dataset_edge(1, 1, 2, 1.05),
            dataset_edge(2, 2, 0, 0.98),
        ],
    }
}

fn acyclic_dataset() -> Dataset {
    Dataset {
        tokens: vec![token(0, "A"), token(1, "B")],
        edges: vec![dataset_edge(0, 0, 1, 0.99), dataset_edge(1, 1, 0, 0.99)],
    }
}

fn invalid_rate_dataset() -> Dataset {
    Dataset { tokens: vec![token(0, "A")], edges: vec![dataset_edge(0, 0, 0, 0.0)] }
}

fn quick_config(max_updates: usize) -> PipelineConfig {
    PipelineConfig {
        max_updates,
        channel_capacity: 8,
        hop_cap: 4,
        search_interval: Span::from_millis(5),
        coalesce_window: Span::from_millis(1),
        max_coalesce: 4,
        rate_jitter: 0.0f64.to_bits(),
        ..PipelineConfig::default()
    }
}

/// Runs the stages in turn on one thread: the producer's updates are batched
/// as the writer's wait rule allows, each pause of the producer lets the
/// searcher tick, and the end of the producer shuts the searcher down.
fn run_in_turn(dataset: &Dataset, config: &PipelineConfig, seed: u64) -> PipelineStats {
    let input = prepare(dataset).expect("dataset can be run");
    let mut graph = CSRGraph::from_edges(input.node_count, input.edges);
    let bounds = RateBounds::from_config(config);
    assert!(bounds.is_usable());
    let max_coalesce = effective_max_coalesce(config.max_coalesce);
    let mut rng = StdRng::seed_from_u64(seed);
    let mut producer = Producer::new(config, input.baseline_rates.len());
    let mut writer = WriterOutcome::default();
    let mut search = SearchOutcome::default();
    let mut batch: Vec<GraphUpdate> = Vec::new();
    loop {
        let action = producer.next(&mut rng);
        if let ProducerAction::Send { edge_index } = action {
            let new_rate = bounds.clamp(input.baseline_rates[edge_index]);
            batch.push(GraphUpdate::Rate { edge_index, new_rate });
            if next_wait(batch.len(), max_coalesce, config.coalesce_window) == BatchWait::More {
                continue;
            }
        }
        if !batch.is_empty() {
            let bounded = validate_batch(&batch, graph.edge_count(), bounds, &mut writer);
            assert!(all_applicable(&bounded, graph.edge_count()));
            commit_batch(&mut graph, &bounded, &mut writer);
            batch.clear();
        }
        let event = match action {
            ProducerAction::Send { .. } => continue,
            ProducerAction::Sleep { .. } => SearchEvent::Tick,
            ProducerAction::Stop => SearchEvent::Shutdown,
        };
        let snapshot = if needs_search(&graph) { Some(graph.clone()) } else { None };
        if !searcher_step(event, snapshot.as_ref(), config.hop_cap, &mut search) {
            break;
        }
    }
    PipelineStats::aggregate(writer, search)
}

#[test]
fn pipeline_consumes_expected_number_of_updates() {
    let dataset = triangular_arbitrage_dataset();
    let stats = run_in_turn(&dataset, &quick_config(32), 1);

    assert_eq!(stats.updates_processed, 32);
    assert!(
        stats.unique_updates_applied <= stats.updates_processed,
        "unique applied updates should never exceed processed"
    );
    assert!(
        stats.searches_run >= 1,
        "expected at least one search pass; got {}",
        stats.searches_run
    );
    assert_eq!(stats.invalid_index_updates, 0, "unexpected out-of-bounds updates recorded");
    assert_eq!(stats.invalid_rate_updates, 0, "unexpected invalid rate updates recorded");
    assert!(stats.last_cycle.is_some());
}

#[test]
fn pipeline_reports_last_cycle_when_one_exists() {
    let dataset = triangular_arbitrage_dataset();
    let stats = run_in_turn(
        &dataset,
        &PipelineConfig {
            max_updates: 16,
            channel_capacity: 4,
            hop_cap: 4,
            search_interval: Span::from_millis(2),
            coalesce_window: Span::from_millis(1),
            max_coalesce: 4,
            rate_jitter: 0.0f64.to_bits(),
            ..PipelineConfig::default()
        },
        2,
    );

    assert!(stats.last_cycle.is_some(), "expected a profitable cycle");
    assert!(
        stats.unique_updates_applied <= stats.updates_processed,
        "unique applied updates should never exceed processed"
    );
    assert_eq!(stats.invalid_index_updates, 0, "unexpected out-of-bounds updates recorded");
    assert_eq!(stats.invalid_rate_updates, 0, "unexpected invalid rate updates recorded");
    let cycle = stats.last_cycle.unwrap();
    assert_eq!(cycle.vertices, vec![0, 1, 2, 0]);
    assert_eq!(cycle.edge_indexes, vec![0, 1, 2]);
}

#[test]
fn pipeline_runs_search_even_without_cycle() {
    let dataset = acyclic_dataset();
    let stats = run_in_turn(&dataset, &quick_config(24), 3);

    assert!(
        stats.searches_run > 0,
        "pipeline should keep checking even when no profitable cycle exists"
    );
    assert!(
        stats.last_cycle.is_none(),
        "acyclic dataset should not yield a profitable cycle"
    );
    assert!(
        stats.unique_updates_applied <= stats.updates_processed,
        "unique applied updates should never exceed processed"
    );
    assert_eq!(
        stats.invalid_index_updates, 0,
        "acyclic run should not drop updates for index reasons"
    );
    assert_eq!(
        stats.invalid_rate_updates, 0,
        "acyclic run should not drop updates for rate reasons"
    );
}

#[test]
fn pipeline_handles_zero_updates_gracefully() {
    let dataset = triangular_arbitrage_dataset();
    let stats = run_in_turn(&dataset, &quick_config(0), 4);

    assert_eq!(stats.updates_processed, 0);
    assert_eq!(stats.unique_updates_applied, 0);
    assert!(
        stats.searches_run >= 1,
        "searcher should take at least one snapshot on shutdown"
    );
    assert_eq!(stats.invalid_index_updates, 0, "no updates implies no index errors");
    assert_eq!(stats.invalid_rate_updates, 0, "no updates implies no rate errors");
}

#[test]
fn pipeline_rejects_empty_dataset() {
    let dataset = Dataset { tokens: vec![], edges: vec![] };
    let err = prepare(&dataset).expect_err("empty dataset should not start the pipeline");

    assert!(matches!(err, PipelineError::EmptyDataset));
}

#[test]
fn pipeline_rejects_invalid_edge_rate() {
    let dataset = invalid_rate_dataset();
    let err = prepare(&dataset).expect_err("invalid rate should cause the pipeline to abort");

    assert!(matches!(err, PipelineError::InvalidRate { .. }));
}

#[test]
fn pipeline_handles_bursty_producer() {
    let dataset = triangular_arbitrage_dataset();
    let stats = run_in_turn(
        &dataset,
        &PipelineConfig {
            max_updates: 64,
            channel_capacity: 4,
            hop_cap: 6,
            search_interval: Span::from_millis(5),
            coalesce_window: Span::from_millis(8),
            max_coalesce: 16,
            rate_jitter: 0.05f64.to_bits(),
            ..PipelineConfig::default()
        },
        5,
    );

    assert!(
        stats.updates_processed >= 16,
        "expected a reasonable portion of bursts to land"
    );
    assert!(
        stats.unique_updates_applied <= stats.updates_processed,
        "unique applied updates should never exceed processed"
    );
    assert!(stats.searches_run >= 1, "searcher should still run during bursty traffic");
    assert_eq!(stats.updates_processed, 64);
    assert_eq!(stats.unique_updates_applied, 64);
}

#[test]
fn writer_tracks_invalid_updates() {
    let edges: Vec<InputEdge> = vec![(0usize, 1usize, rate_of(1.0))];
    let mut graph = CSRGraph::from_edges(2, edges);
    let config = PipelineConfig {
        max_coalesce: 4,
        coalesce_window: Span::from_millis(1),
        ..PipelineConfig::default()
    };
    let bounds = RateBounds::from_config(&config);
    let batch = vec![
        // invalid index
        GraphUpdate::Rate { edge_index: 5, new_rate: rate_of(1.0) },
        // invalid rate
        GraphUpdate::Rate { edge_index: 0, new_rate: rate_of(0.0) },
    ];
    let mut outcome = WriterOutcome::default();
    let bounded = validate_batch(&batch, graph.edge_count(), bounds, &mut outcome);
    assert!(bounded.is_empty());
    commit_batch(&mut graph, &bounded, &mut outcome);

    assert_eq!(outcome.processed_updates, 0);
    assert_eq!(outcome.invalid_index_updates, 1);
    assert_eq!(outcome.invalid_rate_updates, 1);
    assert_eq!(outcome.unique_updates_applied, 0);
    assert_eq!(graph.edge_rate(0), rate_of(1.0));
}

#[test]
fn invalid_updates_mid_stream_are_counted_and_dropped() {
    let edges: Vec<InputEdge> =
        vec![(0, 1, rate_of(1.0)), (1, 2, rate_of(1.0)), (2, 0, rate_of(1.0))];
    let mut graph = CSRGraph::from_edges(3, edges);
    let bounds = RateBounds::from_config(&PipelineConfig::default());
    let edge_count = graph.edge_count();
    let batch = vec![
        GraphUpdate::Rate { edge_index: 1, new_rate: rate_of(1.5) },
        GraphUpdate::Rate { edge_index: edge_count, new_rate: rate_of(1.0) },
        GraphUpdate::Rate { edge_index: 2, new_rate: rate_of(0.0) },
        GraphUpdate::Rate { edge_index: 0, new_rate: rate_of(f64::NAN) },
        GraphUpdate::Rate { edge_index: 0, new_rate: rate_of(-2.0) },
        GraphUpdate::Rate { edge_index: 2, new_rate: rate_of(0.5) },
        GraphUpdate::Rate { edge_index: 1, new_rate: rate_of(2.5) },
    ];
    let mut outcome = WriterOutcome::default();
    let bounded = validate_batch(&batch, edge_count, bounds, &mut outcome);
    assert_eq!(bounded.len(), 3);
    assert_eq!(outcome.processed_updates, 3);
    assert_eq!(outcome.invalid_index_updates, 1);
    assert_eq!(outcome.invalid_rate_updates, 3);
    assert_eq!(outcome.unique_updates_applied, 0);
    assert!(all_applicable(&bounded, edge_count));
    commit_batch(&mut graph, &bounded, &mut outcome);
    assert_eq!(outcome.unique_updates_applied, 3);
    assert!(outcome.unique_updates_applied <= outcome.processed_updates);
    assert_eq!(
        outcome.invalid_index_updates + outcome.invalid_rate_updates + outcome.processed_updates,
        batch.len()
    );
    // Updates to one edge are applied in order: the last one stands.
    assert_eq!(graph.edge_rate(0), rate_of(1.0));
    assert_eq!(graph.edge_rate(1), rate_of(2.5));
    assert_eq!(graph.edge_rate(2), rate_of(0.5));
    assert_eq!(graph.edge_weight(1), rate_of(2.5).neg_log);
}

#[test]
fn validate_update_names_what_is_wrong() {
    let good = GraphUpdate::Rate { edge_index: 2, new_rate: rate_of(1.25) };
    match validate_update(good, 3) {
        Ok(GraphUpdate::Rate { edge_index, new_rate }) => {
            assert_eq!(edge_index, 2);
            assert_eq!(new_rate, rate_of(1.25));
        }
        Err(_) => panic!("a valid update is accepted"),
    }
    match validate_update(GraphUpdate::Rate { edge_index: 3, new_rate: rate_of(0.0) }, 3) {
        Err(UpdateValidationError::IndexOutOfBounds(index)) => assert_eq!(index, 3),
        _ => panic!("the index is looked at before the rate"),
    }
    match validate_update(GraphUpdate::Rate { edge_index: 1, new_rate: rate_of(0.0) }, 3) {
        Err(UpdateValidationError::InvalidRate(rate)) => assert_eq!(rate, rate_of(0.0)),
        _ => panic!("a rate of zero is refused"),
    }
    assert!(matches!(
        validate_update(GraphUpdate::Rate { edge_index: 1, new_rate: rate_of(f64::INFINITY) }, 3),
        Err(UpdateValidationError::InvalidRate(_))
    ));
}

#[test]
fn valid_rates_are_held_within_the_bounds() {
    let bounds = RateBounds::from_config(&PipelineConfig::default());
    let batch = vec![
        GraphUpdate::Rate { edge_index: 0, new_rate: rate_of(1e-12) },
        GraphUpdate::Rate { edge_index: 0, new_rate: rate_of(1e12) },
        GraphUpdate::Rate { edge_index: 0, new_rate: rate_of(3.0) },
    ];
    let mut outcome = WriterOutcome::default();
    let bounded = validate_batch(&batch, 1, bounds, &mut outcome);
    let rates: Vec<Rate> = bounded
        .iter()
        .map(|update| match update {
            GraphUpdate::Rate { new_rate, .. } => *new_rate,
        })
        .collect();
    assert_eq!(rates[0], Rate::new(1e-9f64.to_bits(), DEFAULT_BOUND_WEIGHT));
    assert_eq!(rates[1], Rate::new(1e9f64.to_bits(), -DEFAULT_BOUND_WEIGHT));
    assert_eq!(rates[2], rate_of(3.0));
}

#[test]
fn apply_valid_updates_applies_in_order() {
    let edges: Vec<InputEdge> = vec![(0, 1, rate_of(1.0)), (1, 0, rate_of(1.0))];
    let mut graph = CSRGraph::from_edges(2, edges);
    let updates = vec![
        GraphUpdate::Rate { edge_index: 1, new_rate: rate_of(0.9) },
        GraphUpdate::Rate { edge_index: 0, new_rate: rate_of(1.2) },
        GraphUpdate::Rate { edge_index: 1, new_rate: rate_of(0.8) },
    ];
    assert_eq!(apply_valid_updates(&mut graph, &updates), 3);
    assert_eq!(graph.edge_rate(0), rate_of(1.2));
    assert_eq!(graph.edge_rate(1), rate_of(0.8));
    assert_eq!(apply_valid_updates(&mut graph, &[]), 0);
    assert!(!all_applicable(
        &[GraphUpdate::Rate { edge_index: 2, new_rate: rate_of(1.0) }],
        graph.edge_count()
    ));
}

#[test]
fn batch_wait_follows_window_and_cap() {
    let window = Span::from_millis(5);
    let none = Span::from_millis(0);
    assert_eq!(next_wait(0, 4, window), BatchWait::First);
    assert_eq!(next_wait(0, 1, none), BatchWait::First);
    assert_eq!(next_wait(1, 4, window), BatchWait::More);
    assert_eq!(next_wait(3, 4, window), BatchWait::More);
    assert_eq!(next_wait(4, 4, window), BatchWait::Nothing);
    assert_eq!(next_wait(1, 4, none), BatchWait::Nothing);
    assert_eq!(next_wait(1, 1, window), BatchWait::Nothing);
    assert_eq!(next_wait(1, 4, Span { secs: 0, nanos: 1 }), BatchWait::More);
    assert_eq!(effective_max_coalesce(0), 1);
    assert_eq!(effective_max_coalesce(1), 1);
    assert_eq!(effective_max_coalesce(16), 16);
}

#[test]
fn default_config_has_the_documented_values() {
    let config = PipelineConfig::default();
    assert_eq!(config.hop_cap, 6);
    assert_eq!(config.max_updates, 256);
    assert_eq!(config.channel_capacity, 64);
    assert_eq!(config.search_interval.as_millis(), 250);
    assert_eq!(config.coalesce_window.as_millis(), 5);
    assert_eq!(config.max_coalesce, 16);
    assert_eq!(f64::from_bits(config.rate_jitter), 0.02);
    assert_eq!(f64::from_bits(config.min_rate_bound.bits), 1e-9);
    assert_eq!(f64::from_bits(config.max_rate_bound.bits), 1e9);
    assert!((config.min_rate_bound.neg_log - rate_of(1e-9).neg_log).abs() <= 4);
    assert!((config.max_rate_bound.neg_log - rate_of(1e9).neg_log).abs() <= 4);
    assert!(config.jitter_enabled());
    assert!(!quick_config(1).jitter_enabled());
    assert!((MIN_POSITIVE_WEIGHT - rate_of(f64::MIN_POSITIVE).neg_log).abs() <= 128);
}

#[test]
fn spans_count_milliseconds() {
    assert_eq!(Span::from_millis(0), Span { secs: 0, nanos: 0 });
    assert!(Span::from_millis(0).is_zero());
    assert_eq!(Span::from_millis(1_250), Span { secs: 1, nanos: 250_000_000 });
    assert_eq!(Span::from_millis(1_250).as_millis(), 1_250);
    assert_eq!(Span { secs: 2, nanos: 999_999 }.as_millis(), 2_000);
    assert!(!Span { secs: 0, nanos: 1 }.is_zero());
    assert_eq!(Span { secs: u64::MAX, nanos: 999_999_999 }.as_millis(), 18_446_744_073_709_551_615_999);
}

#[test]
fn rate_bounds_follow_the_configuration() {
    let clamp_with = |min: f64, max: f64, rate: f64| -> f64 {
        let config = PipelineConfig {
            min_rate_bound: rate_of(min),
            max_rate_bound: rate_of(max),
            ..PipelineConfig::default()
        };
        f64::from_bits(RateBounds::from_config(&config).clamp(rate_of(rate)).bits)
    };
    let expect = |min: f64, max: f64, rate: f64| -> f64 {
        let lo = min.max(f64::MIN_POSITIVE);
        let hi = max.max(lo);
        rate.clamp(lo, hi)
    };
    let ends = [f64::NAN, -1.0, 0.0, 1e-320, 0.5, 2.0, 1e300, f64::INFINITY, f64::NEG_INFINITY];
    let rates = [f64::NAN, -3.0, -0.0, 0.0, 1e-310, 0.25, 0.5, 1.0, 2.0, 7.0, f64::INFINITY];
    for &min in &ends {
        for &max in &ends {
            for &rate in &rates {
                assert_eq!(
                    clamp_with(min, max, rate).to_bits(),
                    expect(min, max, rate).to_bits(),
                    "{rate} within {min} and {max}"
                );
            }
        }
    }
    assert!(RateBounds::from_config(&PipelineConfig::default()).is_usable());
    let unbounded = PipelineConfig {
        max_rate_bound: rate_of(f64::INFINITY),
        ..PipelineConfig::default()
    };
    assert!(!RateBounds::from_config(&unbounded).is_usable());
}

#[test]
fn prepare_translates_edges_and_counts_nodes() {
    let dataset = Dataset {
        tokens: vec![],
        edges: vec![
            dataset_edge(10, 4, 1, 1.5),
            dataset_edge(11, 0, 7, 0.5),
            dataset_edge(12, 7, 7, 2.0),
        ],
    };
    let input = prepare(&dataset).expect("every edge can be taken");
    assert_eq!(input.node_count, 8);
    assert_eq!(
        input.edges,
        vec![(4, 1, rate_of(1.5)), (0, 7, rate_of(0.5)), (7, 7, rate_of(2.0))]
    );
    assert_eq!(input.baseline_rates, vec![rate_of(1.5), rate_of(0.5), rate_of(2.0)]);
    let graph = CSRGraph::from_edges(input.node_count, input.edges);
    assert_eq!(graph.node_count(), 8);
    assert_eq!(graph.edge_count(), 3);
}

#[test]
fn prepare_reports_the_first_edge_it_refuses() {
    let too_far = u64::MAX;
    let from_and_rate = Dataset {
        tokens: vec![],
        edges: vec![
            dataset_edge(1, 0, 1, 1.0),
            dataset_edge(2, 1, 0, f64::NAN),
            dataset_edge(3, too_far, 0, 1.0),
        ],
    };
    match prepare(&from_and_rate) {
        Err(PipelineError::InvalidRate { edge_id, rate }) => {
            assert_eq!(edge_id, 2);
            assert_eq!(rate, rate_of(f64::NAN));
        }
        _ => panic!("edge 2 is the first that cannot be taken"),
    }
    let from_first = Dataset {
        tokens: vec![],
        edges: vec![dataset_edge(7, too_far, too_far, 0.0), dataset_edge(8, 0, 1, -1.0)],
    };
    assert!(matches!(prepare(&from_first), Err(PipelineError::FromIndex { edge_id: 7 })));
    let to_before_rate = Dataset {
        tokens: vec![],
        edges: vec![dataset_edge(9, 3, too_far, 0.0)],
    };
    assert!(matches!(prepare(&to_before_rate), Err(PipelineError::ToIndex { edge_id: 9 })));
    let negative = Dataset { tokens: vec![], edges: vec![dataset_edge(5, 0, 1, -1.0)] };
    assert!(matches!(prepare(&negative), Err(PipelineError::InvalidRate { edge_id: 5, .. })));
    let infinite = Dataset { tokens: vec![], edges: vec![dataset_edge(6, 0, 1, f64::INFINITY)] };
    assert!(matches!(prepare(&infinite), Err(PipelineError::InvalidRate { edge_id: 6, .. })));
}

#[test]
fn search_pass_counts_and_keeps_the_latest_cycle() {
    let gainful = CSRGraph::from_edges(
        3,
        vec![(0, 1, rate_of(1.02)), (1, 2, rate_of(1.02)), (2, 0, rate_of(0.98))],
    );
    let lossy = CSRGraph::from_edges(2, vec![(0, 1, rate_of(0.99)), (1, 0, rate_of(0.99))]);
    let empty = CSRGraph::from_edges(2, vec![]);
    assert!(needs_search(&gainful));
    assert!(!needs_search(&empty));

    let mut outcome = SearchOutcome::default();
    search_pass(&empty, 4, &mut outcome);
    assert_eq!(outcome.searches_run, 0);
    assert!(outcome.last_cycle.is_none());

    search_pass(&lossy, 4, &mut outcome);
    assert_eq!(outcome.searches_run, 1);
    assert!(outcome.last_cycle.is_none());

    search_pass(&gainful, 4, &mut outcome);
    assert_eq!(outcome.searches_run, 2);
    assert_eq!(outcome.last_cycle.as_ref().unwrap().vertices, vec![0, 1, 2, 0]);

    // A search without an answer leaves the cycle found before.
    search_pass(&lossy, 4, &mut outcome);
    assert_eq!(outcome.searches_run, 3);
    assert_eq!(outcome.last_cycle.as_ref().unwrap().vertices, vec![0, 1, 2, 0]);

    assert!(searcher_step(SearchEvent::Tick, Some(&gainful), 4, &mut outcome));
    assert_eq!(outcome.searches_run, 4);
    assert!(searcher_step(SearchEvent::Tick, None, 4, &mut outcome));
    assert_eq!(outcome.searches_run, 4);
    assert!(!searcher_step(SearchEvent::Shutdown, Some(&lossy), 4, &mut outcome));
    assert_eq!(outcome.searches_run, 5);
}

#[test]
fn aggregate_carries_every_counter() {
    let writer = WriterOutcome {
        processed_updates: 9,
        unique_updates_applied: 8,
        invalid_index_updates: 2,
        invalid_rate_updates: 3,
    };
    let search = SearchOutcome { searches_run: 5, last_cycle: None };
    let stats = PipelineStats::aggregate(writer, search);
    assert_eq!(stats.updates_processed, 9);
    assert_eq!(stats.unique_updates_applied, 8);
    assert_eq!(stats.searches_run, 5);
    assert!(stats.last_cycle.is_none());
    assert_eq!(stats.invalid_index_updates, 2);
    assert_eq!(stats.invalid_rate_updates, 3);
    let blank = PipelineStats::default();
    assert_eq!(blank.updates_processed + blank.searches_run, 0);
}

#[test]
fn producer_sends_every_update_in_bounded_bursts() {
    let config = PipelineConfig {
        max_updates: 200,
        max_coalesce: 7,
        search_interval: Span::from_millis(10_000),
        ..PipelineConfig::default()
    };
    let edge_count = 5;
    let mut rng = StdRng::seed_from_u64(42);
    let mut producer = Producer::new(&config, edge_count);
    assert_eq!(producer.updates_left(), 200);
    assert_eq!(producer.burst_limit(), 7);
    let mut sent = 0usize;
    let mut burst = 0usize;
    let mut bursts: Vec<usize> = Vec::new();
    let mut pauses: Vec<u64> = Vec::new();
    let mut seen = vec![0usize; edge_count];
    loop {
        match producer.next(&mut rng) {
            ProducerAction::Send { edge_index } => {
                assert!(edge_index < edge_count);
                seen[edge_index] += 1;
                sent += 1;
                burst += 1;
                assert!(burst <= 7);
                assert_eq!(producer.updates_left(), 200 - sent);
            }
            ProducerAction::Sleep { millis } => {
                assert!(millis >= 1 && millis <= 20_000);
                assert!(burst > 0, "a pause follows a burst");
                bursts.push(burst);
                burst = 0;
                pauses.push(millis);
            }
            ProducerAction::Stop => break,
        }
    }
    assert_eq!(sent, 200);
    assert_eq!(producer.updates_left(), 0);
    assert_eq!(producer.next(&mut rng), ProducerAction::Stop);
    // What is drawn varies: every edge is picked, and not every burst or pause is alike.
    assert!(seen.iter().all(|&count| count > 0));
    assert!(bursts.iter().any(|&size| size != bursts[0]));
    assert!(pauses.iter().any(|&millis| millis != pauses[0]));
    assert!(bursts.iter().any(|&size| size > 1));
    assert!(seen.iter().any(|&count| count != sent));
}

#[test]
fn producer_stops_at_once_with_nothing_to_do() {
    let mut rng = StdRng::seed_from_u64(7);
    let mut no_edges = Producer::new(&quick_config(10), 0);
    assert_eq!(no_edges.next(&mut rng), ProducerAction::Stop);
    assert_eq!(no_edges.updates_left(), 10);
    let mut no_updates = Producer::new(&quick_config(0), 3);
    assert_eq!(no_updates.next(&mut rng), ProducerAction::Stop);
    // A cap of zero counts as one: every burst is a single update.
    let single = PipelineConfig { max_updates: 3, max_coalesce: 0, ..PipelineConfig::default() };
    let mut producer = Producer::new(&single, 2);
    assert_eq!(producer.burst_limit(), 1);
    let mut sends = 0;
    let mut last_was_send = false;
    loop {
        match producer.next(&mut rng) {
            ProducerAction::Send { .. } => {
                sends += 1;
                last_was_send = true;
            }
            ProducerAction::Sleep { .. } => {
                assert!(last_was_send);
                last_was_send = false;
            }
            ProducerAction::Stop => break,
        }
    }
    assert_eq!(sends, 3);
}

#[test]
fn longest_pause_is_twice_the_interval() {
    assert_eq!(max_delay_ms(Span::from_millis(250)), 500);
    assert_eq!(max_delay_ms(Span::from_millis(5)), 10);
    assert_eq!(max_delay_ms(Span::from_millis(0)), 2);
    assert_eq!(max_delay_ms(Span { secs: 0, nanos: 999_999 }), 2);
    assert_eq!(max_delay_ms(Span::from_millis(u64::MAX / 2)), u64::MAX - 1);
    assert_eq!(max_delay_ms(Span::from_millis(u64::MAX / 2 + 1)), u64::MAX);
    assert_eq!(max_delay_ms(Span::from_millis(u64::MAX)), u64::MAX);
    // 2^64 milliseconds: the low 64 bits are zero.
    assert_eq!(max_delay_ms(Span { secs: 18_446_744_073_709_551, nanos: 616_000_000 }), 0);
}
