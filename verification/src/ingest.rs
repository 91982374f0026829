//! Bulk loading: edges are taken from a stream and added to a store, one
//! by one and in the order of the stream.

use crate::error::IngestError;
use crate::graph::{
    apply_edges, fresh_store, lemma_totals_grow_by_edges, total_incoming, total_outgoing, Graph,
    GraphView, NodeId,
};
use crate::stream::{edge_of_read, fault_of_read, tsv_reads, EdgeStream, Reading};
use vstd::prelude::*;

verus! {

/// A progress signal is given each time this many more records have been
/// added.
pub const PROGRESS_INTERVAL: u64 = 1000;

/// The number of reads at the head of `reads` that give an edge: the
/// index of the first read that gives none, or the length of `reads`
/// where every read gives one.
pub open spec fn leading_edges(reads: Seq<Reading>) -> nat
    decreases reads.len(),
{
    if reads.len() > 0 && edge_of_read(reads[0]) is Some {
        1 + leading_edges(reads.skip(1))
    } else {
        0
    }
}

/// The edges that `reads` give, in order. It is meant for reads that each
/// give an edge.
pub open spec fn edges_of(reads: Seq<Reading>) -> Seq<(NodeId, NodeId)> {
    reads.map_values(|read: Reading| edge_of_read(read)->Some_0)
}

/// The number of records that a run adds to the store, for a stream that
/// has `reads` to give and has handed out `position` edges: the reads at
/// the head of `reads` that give an edge, as far as record indices reach.
pub open spec fn applied_count(reads: Seq<Reading>, position: u64) -> nat {
    if leading_edges(reads) <= u64::MAX - position {
        leading_edges(reads)
    } else {
        (u64::MAX - position) as nat
    }
}

/// The store `g` after a run over a stream that has `reads` to give and
/// has handed out `position` edges: `g` with the edges of the records
/// that the run adds, added in their order.
pub open spec fn store_after(g: GraphView, reads: Seq<Reading>, position: u64) -> GraphView {
    apply_edges(g, edges_of(reads.take(applied_count(reads, position) as int)))
}

/// The record counts at which a progress signal is given while `count`
/// records are added: the multiples of the interval up to `count`, in
/// rising order.
pub open spec fn progress_marks(count: nat) -> Seq<u64> {
    Seq::new(count / (PROGRESS_INTERVAL as nat), |i: int| ((i + 1) * PROGRESS_INTERVAL) as u64)
}

/// How a run ends for a stream that has `reads` to give, has handed out
/// `position` edges and is stopped or not.
///
/// On a stopped stream the run adds nothing and gives `Ok(0)`. Otherwise
/// it ends at the first of these: the record that cannot be numbered
/// (`RecordLimit`); the first read that gives no edge, which is a record
/// that denotes none (`ParseError`) or a failure of the reader
/// (`IoError`), each with the index of the record; the end of the reads,
/// where the run gives the number of records that it added.
pub open spec fn run_outcome(reads: Seq<Reading>, position: u64, stopped: bool) -> Result<
    u64,
    IngestError,
> {
    let leading = leading_edges(reads);
    if stopped {
        Ok(0)
    } else if leading >= u64::MAX - position {
        Err(IngestError::RecordLimit)
    } else if leading < reads.len() {
        Err(fault_of_read(reads[leading as int], (position + leading) as u64))
    } else {
        Ok(leading as u64)
    }
}

/// Where the first `count` reads of `reads` each give an edge, at least
/// `count` reads lead; exactly `count` where the next read gives none or
/// there is no next read.
proof fn lemma_leading_edges(reads: Seq<Reading>, count: nat)
    requires
        count <= reads.len(),
        forall|i: int| 0 <= i < count ==> edge_of_read(#[trigger] reads[i]) is Some,
    ensures
        leading_edges(reads) >= count,
        count == reads.len() || edge_of_read(reads[count as int]) is None ==> leading_edges(reads)
            == count,
    decreases count,
{
    if count > 0 {
        let rest = reads.skip(1);
        assert forall|i: int| 0 <= i < count - 1 implies edge_of_read(#[trigger] rest[i]) is Some by {
            assert(rest[i] == reads[i + 1]);
        }
        lemma_leading_edges(rest, (count - 1) as nat);
        if count < reads.len() {
            assert(rest[count - 1] == reads[count as int]);
        }
    }
}

/// No more reads lead than there are.
proof fn lemma_leading_at_most_len(reads: Seq<Reading>)
    ensures
        leading_edges(reads) <= reads.len(),
    decreases reads.len(),
{
    if reads.len() > 0 {
        lemma_leading_at_most_len(reads.skip(1));
    }
}

/// The edges of one read more are the edges so far and the edge of that
/// read.
proof fn lemma_edges_of_next(reads: Seq<Reading>, count: nat)
    requires
        count < reads.len(),
    ensures
        edges_of(reads.take(count as int + 1)) == edges_of(reads.take(count as int)).push(
            edge_of_read(reads[count as int])->Some_0,
        ),
{
    assert(edges_of(reads.take(count as int + 1)) =~= edges_of(reads.take(count as int)).push(
        edge_of_read(reads[count as int])->Some_0,
    ));
}

/// The marks of one record more: one mark more where the new count is a
/// multiple of the interval, else the same.
proof fn lemma_progress_marks_next(count: nat)
    requires
        count < u64::MAX,
    ensures
        progress_marks(count + 1) == if (count + 1) % (PROGRESS_INTERVAL as nat) == 0 {
            progress_marks(count).push((count + 1) as u64)
        } else {
            progress_marks(count)
        },
{
    if (count + 1) % (PROGRESS_INTERVAL as nat) == 0 {
        assert(progress_marks(count + 1) =~= progress_marks(count).push((count + 1) as u64));
    } else {
        assert(progress_marks(count + 1) =~= progress_marks(count));
    }
}

/// A run over a fresh stream stops at the first record that denotes no
/// edge. It fails with `ParseError` and the index of that record; the
/// store has gained the edges of the records before it, in their order,
/// and nothing of the records after it.
pub proof fn lemma_run_stops_at_first_bad_record(
    g: GraphView,
    reads: Seq<Reading>,
    record: nat,
)
    requires
        record < reads.len(),
        record < u64::MAX,
        forall|i: int| 0 <= i < record ==> edge_of_read(#[trigger] reads[i]) is Some,
        reads[record as int] is Some,
        edge_of_read(reads[record as int]) is None,
    ensures
        run_outcome(reads, 0, false) == Err::<u64, IngestError>(
            IngestError::ParseError { record: record as u64 },
        ),
        store_after(g, reads, 0) == apply_edges(g, edges_of(reads.take(record as int))),
{
    lemma_leading_edges(reads, record);
}

/// A run over a fresh stream that meets no fault adds every record: it
/// gives their number, the store has gained the edge of each, in their
/// order, and the sums of its outgoing and of its incoming lists have each
/// grown by that number.
pub proof fn lemma_run_over_edges_only(g: GraphView, reads: Seq<Reading>)
    requires
        reads.len() < u64::MAX,
        forall|i: int| 0 <= i < reads.len() ==> edge_of_read(#[trigger] reads[i]) is Some,
    ensures
        run_outcome(reads, 0, false) == Ok::<u64, IngestError>(reads.len() as u64),
        store_after(g, reads, 0) == apply_edges(g, edges_of(reads)),
        total_outgoing(store_after(g, reads, 0)) == total_outgoing(g) + reads.len(),
        total_incoming(store_after(g, reads, 0)) == total_incoming(g) + reads.len(),
{
    lemma_leading_edges(reads, reads.len());
    assert(reads.take(reads.len() as int) =~= reads);
    lemma_totals_grow_by_edges(g, edges_of(reads));
}

/// Whatever a run meets, the sums of the outgoing and of the incoming
/// lists of the store each grow by the number of records that the run
/// adds.
pub proof fn lemma_run_counts_each_record(
    g: GraphView,
    reads: Seq<Reading>,
    position: u64,
)
    ensures
        applied_count(reads, position) <= reads.len(),
        total_outgoing(store_after(g, reads, position)) == total_outgoing(g) + applied_count(
            reads,
            position,
        ),
        total_incoming(store_after(g, reads, position)) == total_incoming(g) + applied_count(
            reads,
            position,
        ),
{
    lemma_leading_at_most_len(reads);
    lemma_totals_grow_by_edges(g, edges_of(reads.take(applied_count(reads, position) as int)));
}

/// The capacity hint changes nothing that a load leaves behind: stores
/// created with different hints hold the same adjacency lists after they
/// have loaded the same input.
pub proof fn lemma_load_ignores_hint(hint: u32, other_hint: u32, data: Seq<u8>)
    ensures
        store_after(fresh_store(hint), tsv_reads(data), 0) == store_after(
            fresh_store(other_hint),
            tsv_reads(data),
            0,
        ),
{
}

/// Drives a stream of edges into a store and keeps the progress signals
/// that it gave.
#[derive(Debug)]
pub struct IngestionPipeline {
    progress: Vec<u64>,
}

impl IngestionPipeline {
    /// The progress signals given so far: for each, the number of records
    /// that its run had added by then.
    pub closed spec fn signals(&self) -> Seq<u64> {
        self.progress@
    }

    /// A pipeline that has given no signal.
    pub fn new() -> (pipeline: IngestionPipeline)
        ensures
            pipeline.signals() == Seq::<u64>::empty(),
    {
        IngestionPipeline { progress: Vec::new() }
    }

    /// The progress signals given so far.
    pub fn progress(&self) -> (signals: &Vec<u64>)
        ensures
            signals@ == self.signals(),
    {
        &self.progress
    }

    /// Reads `stream` to its end and adds each edge to `store`, in the
    /// order of the stream. The run stops at the first fault; the edges
    /// added before it stay in the store. Each time another
    /// `PROGRESS_INTERVAL` records have been added, their number is
    /// appended to the signals. On success the result is the number of
    /// records added.
    pub fn run(&mut self, store: &mut Graph, stream: EdgeStream<'_>) -> (outcome: Result<
        u64,
        IngestError,
    >)
        requires
            stream.wf(),
        ensures
            final(store)@ == store_after(old(store)@, stream.remaining(), stream.position()),
            final(self).signals() == old(self).signals() + progress_marks(
                applied_count(stream.remaining(), stream.position()),
            ),
            outcome == run_outcome(stream.remaining(), stream.position(), stream.stopped()),
    {
        let ghost reads = stream.remaining();
        let ghost start = stream.position();
        let mut edges = stream;
        let mut count: u64 = 0;
        proof {
            edges.lemma_stopped_is_empty();
            assert(reads.take(0) =~= Seq::empty());
            assert(edges_of(reads.take(0)) =~= Seq::empty());
            assert(progress_marks(0) =~= Seq::empty());
            assert(reads.skip(0) =~= reads);
        }
        loop
            invariant
                reads == stream.remaining(),
                start == stream.position(),
                edges.wf(),
                count <= reads.len(),
                start + count <= u64::MAX,
                edges.remaining() == reads.skip(count as int),
                edges.position() == start + count,
                edges.stopped() == stream.stopped(),
                stream.stopped() ==> reads.len() == 0,
                forall|i: int| 0 <= i < count ==> edge_of_read(#[trigger] reads[i]) is Some,
                store@ == apply_edges(old(store)@, edges_of(reads.take(count as int))),
                self.signals() == old(self).signals() + progress_marks(count as nat),
            decreases reads.len() - count,
        {
            let next = edges.next_edge();
            proof {
                lemma_leading_edges(reads, count as nat);
                if count < reads.len() {
                    assert(reads.skip(count as int)[0] == reads[count as int]);
                }
            }
            match next {
                Ok(Some((source, target))) => {
                    proof {
                        let so_far = edges_of(reads.take(count as int));
                        lemma_edges_of_next(reads, count as nat);
                        lemma_progress_marks_next(count as nat);
                        assert(reads.skip(count as int).skip(1) =~= reads.skip(count + 1));
                        assert(so_far.push((source, target)).drop_last() =~= so_far);
                    }
                    store.add_edge(source, target);
                    count = count + 1;
                    if count % PROGRESS_INTERVAL == 0 {
                        self.progress.push(count);
                    }
                },
                Ok(None) => {
                    return Ok(count);
                },
                Err(error) => {
                    return Err(error);
                },
            }
        }
    }
}

impl Graph {
    /// Adds the edges of tab-separated `data` to the store: one edge for
    /// each record, in the order of the records. Loading stops at the
    /// first fault, and the edges before it stay in the store. On success
    /// the result is the number of records loaded.
    pub fn load_from_tsv(&mut self, data: &[u8]) -> (outcome: Result<u64, IngestError>)
        ensures
            final(self)@ == store_after(old(self)@, tsv_reads(data@), 0),
            outcome == run_outcome(tsv_reads(data@), 0, false),
    {
        let mut pipeline = IngestionPipeline::new();
        pipeline.run(self, EdgeStream::new(data))
    }
}

} // verus!
