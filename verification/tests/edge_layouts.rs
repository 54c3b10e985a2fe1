use optimizer::edge_layouts::{EdgeAoS, EdgeSoA};
use optimizer::rate::{Rate, WEIGHT_SCALE};

fn layout_rate(value: f64) -> Rate {
    Rate::new(value.to_bits(), (-value.ln() * WEIGHT_SCALE as f64).round() as i64)
}

fn layout_edge(from: usize, to: usize, rate: f64) -> EdgeAoS {
    EdgeAoS::new(from, to, layout_rate(rate))
}

#[test]
fn converts_aos_to_soa_and_back() {
    let input = vec![
        layout_edge(1, 2, 1.1),
        layout_edge(2, 3, 0.9),
        layout_edge(3, 1, 1.05),
    ];

    let soa = EdgeSoA::from(input.clone());
    assert_eq!(soa.len(), input.len());

    let round_trip: Vec<EdgeAoS> = soa.into();
    assert_eq!(round_trip, input);
}

#[test]
fn soa_iteration_matches_aos() {
    let edges = vec![
        layout_edge(0, 1, 1.01),
        layout_edge(1, 2, 1.02),
        layout_edge(2, 0, 0.99),
    ];

    let soa = EdgeSoA::from(edges.as_slice());
    let iterated: Vec<_> = soa.iter();
    let expected: Vec<_> = edges.iter().map(|e| (e.from, e.to, e.rate)).collect();

    assert_eq!(iterated, expected);
}

#[test]
fn with_capacity_preallocates_and_starts_empty() {
    let cap = 8;
    let soa = EdgeSoA::with_capacity(cap);

    assert_eq!(soa.len(), 0);
    assert!(soa.is_empty());
    assert!(soa.from.capacity() >= cap);
    assert!(soa.to.capacity() >= cap);
    assert!(soa.rate.capacity() >= cap);
}

#[test]
fn push_adds_edges_in_order() {
    let mut soa = EdgeSoA::with_capacity(2);
    soa.push(4, 5, layout_rate(1.5));
    soa.push(6, 7, layout_rate(0.5));

    assert_eq!(soa.len(), 2);
    let collected: Vec<_> = soa.iter();
    assert_eq!(collected, vec![(4, 5, layout_rate(1.5)), (6, 7, layout_rate(0.5))]);
}

#[test]
fn from_slice_copies_data() {
    let mut edges = vec![layout_edge(10, 11, 1.11), layout_edge(11, 12, 0.91)];
    let soa = EdgeSoA::from(edges.as_slice());

    // Mutate the source slice after conversion; the SoA snapshot should not change.
    edges[0].rate = layout_rate(42.0);

    let collected: Vec<_> = soa.iter();
    assert_eq!(collected, vec![(10, 11, layout_rate(1.11)), (11, 12, layout_rate(0.91))]);
}

#[test]
fn records_and_columns_agree_by_name() {
    let edges = vec![layout_edge(3, 4, 2.0), layout_edge(5, 6, 0.25)];
    let soa = EdgeSoA::from_records(&edges);
    assert_eq!(soa.from, vec![3, 5]);
    assert_eq!(soa.to, vec![4, 6]);
    assert_eq!(soa.rate, vec![layout_rate(2.0), layout_rate(0.25)]);
    assert!(!soa.is_empty());
    assert_eq!(soa.into_records(), edges);
}

#[test]
fn uneven_columns_give_rows_of_the_shortest() {
    let soa = EdgeSoA {
        from: vec![1, 2, 3],
        to: vec![4, 5],
        rate: vec![layout_rate(1.0), layout_rate(2.0), layout_rate(3.0)],
    };
    assert_eq!(soa.iter(), vec![(1, 4, layout_rate(1.0)), (2, 5, layout_rate(2.0))]);
    assert_eq!(soa.len(), 3);
    assert_eq!(
        soa.into_records(),
        vec![layout_edge(1, 4, 1.0), layout_edge(2, 5, 2.0)]
    );
}
