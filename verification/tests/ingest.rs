use memgraph::error::IngestError;
use memgraph::graph::Graph;
use memgraph::ingest::{IngestionPipeline, PROGRESS_INTERVAL};
use memgraph::stream::EdgeStream;

fn outgoing(graph: &Graph, node: u32) -> Vec<u32> {
    graph.node(node).map(|lists| lists.outgoing().clone()).unwrap_or_default()
}

fn incoming(graph: &Graph, node: u32) -> Vec<u32> {
    graph.node(node).map(|lists| lists.incoming().clone()).unwrap_or_default()
}

fn chain(records: u32) -> Vec<u8> {
    let mut data = String::new();
    for index in 0..records {
        data.push_str(&format!("{}\t{}\n", index, index + 1));
    }
    data.into_bytes()
}

#[test]
fn load_of_three_edges() {
    let mut graph = Graph::new(16);
    assert_eq!(graph.load_from_tsv(b"1\t2\n2\t3\n1\t3\n"), Ok(3));
    assert_eq!(graph.node_count(), 3);
    assert_eq!(outgoing(&graph, 1), vec![2, 3]);
    assert_eq!(incoming(&graph, 1), Vec::<u32>::new());
    assert_eq!(outgoing(&graph, 2), vec![3]);
    assert_eq!(incoming(&graph, 2), vec![1]);
    assert_eq!(outgoing(&graph, 3), Vec::<u32>::new());
    assert_eq!(incoming(&graph, 3), vec![2, 1]);
}

#[test]
fn load_of_empty_input() {
    let mut graph = Graph::new(16);
    assert_eq!(graph.load_from_tsv(b""), Ok(0));
    assert_eq!(graph.node_count(), 0);
}

#[test]
fn load_of_blank_lines_only() {
    let mut graph = Graph::new(16);
    assert_eq!(graph.load_from_tsv(b"\n\n\n"), Ok(0));
    assert_eq!(graph.node_count(), 0);
}

#[test]
fn load_stops_at_a_non_numeric_field() {
    let mut graph = Graph::new(16);
    assert_eq!(graph.load_from_tsv(b"1\t2\n1\tX\n3\t4\n"), Err(IngestError::ParseError { record: 1 }));
    assert_eq!(graph.node_count(), 2);
    assert_eq!(outgoing(&graph, 1), vec![2]);
    assert_eq!(incoming(&graph, 2), vec![1]);
    assert!(graph.node(3).is_none());
    assert!(graph.node(4).is_none());
}

#[test]
fn load_of_one_bad_record_leaves_the_store_empty() {
    let mut graph = Graph::new(16);
    assert_eq!(graph.load_from_tsv(b"1\tX"), Err(IngestError::ParseError { record: 0 }));
    assert_eq!(graph.node_count(), 0);
}

#[test]
fn load_stops_at_a_missing_field() {
    let mut graph = Graph::new(16);
    assert_eq!(graph.load_from_tsv(b"1\t2\n3\n5\t6\n"), Err(IngestError::ParseError { record: 1 }));
    assert_eq!(graph.node_count(), 2);
    assert!(graph.node(3).is_none());
    assert!(graph.node(5).is_none());
}

#[test]
fn load_stops_at_an_empty_field() {
    let mut graph = Graph::new(16);
    assert_eq!(graph.load_from_tsv(b"1\t\n"), Err(IngestError::ParseError { record: 0 }));
    assert_eq!(graph.load_from_tsv(b"\t1\n"), Err(IngestError::ParseError { record: 0 }));
    assert_eq!(graph.node_count(), 0);
}

#[test]
fn load_stops_at_a_field_out_of_range() {
    let mut graph = Graph::new(16);
    assert_eq!(
        graph.load_from_tsv(b"4294967295\t0\n4294967296\t0\n"),
        Err(IngestError::ParseError { record: 1 })
    );
    assert_eq!(outgoing(&graph, u32::MAX), vec![0]);
    assert_eq!(incoming(&graph, 0), vec![u32::MAX]);
    assert_eq!(graph.node_count(), 2);
}

#[test]
fn load_stops_at_a_third_field() {
    let mut graph = Graph::new(16);
    assert_eq!(graph.load_from_tsv(b"1\t2\t3\n"), Err(IngestError::ParseError { record: 0 }));
    assert_eq!(graph.node_count(), 0);
}

#[test]
fn load_keeps_repeated_edges() {
    let mut graph = Graph::new(16);
    assert_eq!(graph.load_from_tsv(b"5\t6\n5\t6\n"), Ok(2));
    assert_eq!(outgoing(&graph, 5), vec![6, 6]);
    assert_eq!(incoming(&graph, 6), vec![5, 5]);
    assert_eq!(graph.node_count(), 2);
}

#[test]
fn load_does_not_skip_the_first_record() {
    let mut graph = Graph::new(16);
    assert_eq!(graph.load_from_tsv(b"7\t8\n"), Ok(1));
    assert_eq!(outgoing(&graph, 7), vec![8]);
}

#[test]
fn load_adds_to_what_the_store_holds() {
    let mut graph = Graph::new(16);
    graph.add_edge(1, 2);
    assert_eq!(graph.load_from_tsv(b"1\t3\n4\t2\n"), Ok(2));
    assert_eq!(graph.load_from_tsv(b"1\t2\n"), Ok(1));
    assert_eq!(outgoing(&graph, 1), vec![2, 3, 2]);
    assert_eq!(incoming(&graph, 2), vec![1, 4, 1]);
    assert_eq!(graph.node_count(), 4);
}

#[test]
fn load_is_the_same_for_any_capacity_hint() {
    let data = b"1\t2\n2\t3\n1\t3\n5\t6\n5\t6\n3\t3\n0\t4294967295\n";
    let mut small = Graph::new(0);
    let mut large = Graph::new(10_000_000);
    assert_eq!(small.load_from_tsv(data), Ok(7));
    assert_eq!(large.load_from_tsv(data), Ok(7));
    assert_eq!(small.node_count(), large.node_count());
    assert_eq!(small.node_count(), 7);
    for node in [0, 1, 2, 3, 4, 5, 6, u32::MAX] {
        assert_eq!(outgoing(&small, node), outgoing(&large, node));
        assert_eq!(incoming(&small, node), incoming(&large, node));
        assert_eq!(small.node(node).is_some(), large.node(node).is_some());
    }
    assert_eq!(outgoing(&small, 1), vec![2, 3]);
    assert_eq!(incoming(&small, 3), vec![2, 1, 3]);
}

#[test]
fn load_is_the_same_for_any_capacity_hint_up_to_a_fault() {
    let data = b"1\t2\n2\t3\noops\n9\t9\n";
    let mut small = Graph::new(0);
    let mut large = Graph::new(10_000_000);
    assert_eq!(small.load_from_tsv(data), Err(IngestError::ParseError { record: 2 }));
    assert_eq!(large.load_from_tsv(data), Err(IngestError::ParseError { record: 2 }));
    for node in [1, 2, 3, 9] {
        assert_eq!(outgoing(&small, node), outgoing(&large, node));
        assert_eq!(incoming(&small, node), incoming(&large, node));
    }
    assert_eq!(small.node_count(), 3);
    assert_eq!(large.node_count(), 3);
}

#[test]
fn load_counts_each_record_on_both_sides() {
    let mut graph = Graph::new(0);
    assert_eq!(graph.load_from_tsv(&chain(250)), Ok(250));
    let outgoing_total: usize = (0..=250u32).map(|node| outgoing(&graph, node).len()).sum();
    let incoming_total: usize = (0..=250u32).map(|node| incoming(&graph, node).len()).sum();
    assert_eq!(outgoing_total, 250);
    assert_eq!(incoming_total, 250);
    assert_eq!(graph.node_count(), 251);
}

#[test]
fn progress_interval_is_a_thousand_records() {
    assert_eq!(PROGRESS_INTERVAL, 1000);
}

#[test]
fn run_without_a_full_interval_gives_no_signal() {
    let data = chain(999);
    let mut graph = Graph::new(0);
    let mut pipeline = IngestionPipeline::new();
    assert!(pipeline.progress().is_empty());
    assert_eq!(pipeline.run(&mut graph, EdgeStream::new(&data)), Ok(999));
    assert!(pipeline.progress().is_empty());
}

#[test]
fn run_signals_every_thousand_records() {
    let data = chain(2500);
    let mut graph = Graph::new(0);
    let mut pipeline = IngestionPipeline::new();
    assert_eq!(pipeline.run(&mut graph, EdgeStream::new(&data)), Ok(2500));
    assert_eq!(pipeline.progress(), &vec![1000, 2000]);
    assert_eq!(graph.node_count(), 2501);
    assert_eq!(outgoing(&graph, 2499), vec![2500]);
}

#[test]
fn run_signals_at_the_thousandth_record_itself() {
    let data = chain(1000);
    let mut graph = Graph::new(0);
    let mut pipeline = IngestionPipeline::new();
    assert_eq!(pipeline.run(&mut graph, EdgeStream::new(&data)), Ok(1000));
    assert_eq!(pipeline.progress(), &vec![1000]);
}

#[test]
fn run_keeps_its_signals_when_it_fails() {
    let mut data = chain(1500);
    data.extend_from_slice(b"1\tX\n");
    data.extend_from_slice(&chain(700));
    let mut graph = Graph::new(0);
    let mut pipeline = IngestionPipeline::new();
    assert_eq!(
        pipeline.run(&mut graph, EdgeStream::new(&data)),
        Err(IngestError::ParseError { record: 1500 })
    );
    assert_eq!(pipeline.progress(), &vec![1000]);
    assert_eq!(graph.node_count(), 1501);
    assert_eq!(incoming(&graph, 1500), vec![1499]);
    assert!(graph.node(1501).is_none());
}

#[test]
fn run_gives_no_signal_for_a_record_that_fails() {
    let mut data = chain(999);
    data.extend_from_slice(b"bad\trecord\n");
    let mut graph = Graph::new(0);
    let mut pipeline = IngestionPipeline::new();
    assert_eq!(
        pipeline.run(&mut graph, EdgeStream::new(&data)),
        Err(IngestError::ParseError { record: 999 })
    );
    assert!(pipeline.progress().is_empty());
}

#[test]
fn run_counts_the_records_of_each_run_from_zero() {
    let first = chain(1200);
    let second = chain(1100);
    let mut graph = Graph::new(0);
    let mut pipeline = IngestionPipeline::new();
    assert_eq!(pipeline.run(&mut graph, EdgeStream::new(&first)), Ok(1200));
    assert_eq!(pipeline.run(&mut graph, EdgeStream::new(&second)), Ok(1100));
    assert_eq!(pipeline.progress(), &vec![1000, 1000]);
    assert_eq!(outgoing(&graph, 5), vec![6, 6]);
}

#[test]
fn run_takes_up_a_stream_that_was_read_in_part() {
    let mut graph = Graph::new(0);
    let mut pipeline = IngestionPipeline::new();
    let mut stream = EdgeStream::new(b"1\t2\n3\t4\n5\t6\n7\tX\n");
    assert_eq!(stream.next_edge(), Ok(Some((1, 2))));
    assert_eq!(pipeline.run(&mut graph, stream), Err(IngestError::ParseError { record: 3 }));
    assert!(graph.node(1).is_none());
    assert_eq!(outgoing(&graph, 3), vec![4]);
    assert_eq!(outgoing(&graph, 5), vec![6]);
    assert_eq!(graph.node_count(), 4);
}

#[test]
fn run_on_a_stopped_stream_adds_nothing() {
    let mut graph = Graph::new(0);
    let mut pipeline = IngestionPipeline::new();
    let mut stream = EdgeStream::new(b"X\n1\t2\n");
    assert_eq!(stream.next_edge(), Err(IngestError::ParseError { record: 0 }));
    assert_eq!(pipeline.run(&mut graph, stream), Ok(0));
    assert_eq!(graph.node_count(), 0);
}

#[test]
fn load_reads_quoted_fields_as_the_reader_does() {
    let mut graph = Graph::new(0);
    assert_eq!(graph.load_from_tsv(b"\"1\"\t\"2\"\n"), Ok(1));
    assert_eq!(outgoing(&graph, 1), vec![2]);
}

#[test]
fn load_skips_blank_lines_as_the_reader_does() {
    let mut graph = Graph::new(0);
    assert_eq!(graph.load_from_tsv(b"1\t2\n\n3\t4\n"), Ok(2));
    assert_eq!(outgoing(&graph, 3), vec![4]);
}

#[test]
fn crate_root_offers_the_main_types() {
    let mut graph = memgraph::Graph::new(2);
    let mut pipeline = memgraph::IngestionPipeline::new();
    let outcome: Result<u64, memgraph::IngestError> =
        pipeline.run(&mut graph, memgraph::EdgeStream::new(b"1\t2\n"));
    assert_eq!(outcome, Ok(1));
    let node: memgraph::NodeId = 1;
    let lists: &memgraph::NodeMap = graph.node(node).unwrap();
    assert_eq!(lists.outgoing(), &vec![2]);
    assert_eq!(memgraph::PROGRESS_INTERVAL, 1000);
}
