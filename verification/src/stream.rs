//! A stream of edges read from tab-separated bytes.

use crate::error::IngestError;
use crate::graph::NodeId;
use crate::parse::{edge_of, fields_of, parse_edge};
use vstd::prelude::*;

verus! {

/// The byte that separates the two fields of a record.
pub const TAB: u8 = 0x09;

/// What one call of the reader gives: the fields of the record that it
/// read, or `None` where it reported an error.
pub type Reading = Option<Seq<Seq<u8>>>;

/// The reader of the `csv` crate. Its state is hidden; `pending_reads`,
/// `rows_read` and `headerless` say what the contracts below need of it.
#[verifier::external_type_specification]
#[verifier::external_body]
#[verifier::reject_recursive_types(R)]
pub struct ExReader<R>(csv::Reader<R>);

/// The error of the `csv` crate.
#[verifier::external_type_specification]
#[verifier::external_body]
pub struct ExError(csv::Error);

/// What a `csv::Reader` gives for `data` when it is built by
/// `csv::ReaderBuilder` with the given field delimiter, with or without a
/// header row, and with or without leave for records to differ in their
/// number of fields: one entry for each call of `read_byte_record` before
/// the first call that reports the end of the input. The entry is the
/// fields of the record that the call read, or `None` where the call
/// reported an error.
pub uninterp spec fn csv_reads(data: Seq<u8>, delimiter: u8, has_headers: bool, flexible: bool) -> Seq<
    Option<Seq<Seq<u8>>>,
>;

/// What a reader over bytes in memory has yet to give: one entry for each
/// call of `read_byte_record` before the first call that reports the end of
/// the input, as in `csv_reads`.
pub uninterp spec fn pending_reads(reader: csv::Reader<&[u8]>) -> Seq<Option<Seq<Seq<u8>>>>;

/// The number of records that a reader has read so far: the record index
/// of its position.
pub uninterp spec fn rows_read(reader: csv::Reader<&[u8]>) -> nat;

/// Whether a reader hands out each record that it reads: it was built
/// without a header row, and its headers were neither asked for nor set
/// before its first read.
pub uninterp spec fn headerless(reader: csv::Reader<&[u8]>) -> bool;

/// Calls `csv::ReaderBuilder::new`, sets `delimiter`, `has_headers` and
/// `flexible` as given and calls `from_reader` on `data`. The new reader
/// has read no record, has the reads of `data` to give, and is headerless
/// unless a header row was asked for.
#[verifier::external_body]
fn open_reader(data: &[u8], delimiter: u8, has_headers: bool, flexible: bool) -> (reader: csv::Reader<&[u8]>)
    ensures
        pending_reads(reader) == csv_reads(data@, delimiter, has_headers, flexible),
        rows_read(reader) == 0,
        headerless(reader) == !has_headers,
{
    csv::ReaderBuilder::new()
        .delimiter(delimiter)
        .has_headers(has_headers)
        .flexible(flexible)
        .from_reader(data)
}

/// Calls `csv::Reader::read_byte_record` on a fresh `csv::ByteRecord` and
/// hands out what the call returned together with the fields of the
/// record. Where the call returns `true` the fields are those of the first
/// pending read, and the reader, still headerless, has read one record
/// more. Where it returns an error, the first pending read is an error.
/// Either way that read is pending no longer. Where the call returns
/// `false`, nothing was pending and nothing will be. Stated for a
/// headerless reader, which reads one record in a call. The reader panics
/// when its record index would pass `u64::MAX`, so the call is made below
/// that only.
#[verifier::external_body]
fn read_row(reader: &mut csv::Reader<&[u8]>) -> (read: Result<(bool, Vec<Vec<u8>>), csv::Error>)
    requires
        headerless(*old(reader)),
        rows_read(*old(reader)) < u64::MAX,
    ensures
        match read {
            Ok((true, row)) => {
                &&& pending_reads(*old(reader)).len() > 0
                &&& pending_reads(*old(reader))[0] == Some(fields_of(row@))
                &&& pending_reads(*final(reader)) == pending_reads(*old(reader)).skip(1)
                &&& rows_read(*final(reader)) == rows_read(*old(reader)) + 1
                &&& headerless(*final(reader))
            },
            Ok((false, _)) => {
                &&& pending_reads(*old(reader)).len() == 0
                &&& pending_reads(*final(reader)).len() == 0
            },
            Err(_) => {
                &&& pending_reads(*old(reader)).len() > 0
                &&& pending_reads(*old(reader))[0] is None
                &&& pending_reads(*final(reader)) == pending_reads(*old(reader)).skip(1)
            },
        },
{
    let mut record = csv::ByteRecord::new();
    let more = reader.read_byte_record(&mut record)?;
    Ok((more, record.iter().map(|field| field.to_vec()).collect()))
}

/// What tab-separated input without a header row gives, read by read.
pub open spec fn tsv_reads(data: Seq<u8>) -> Seq<Reading> {
    csv_reads(data, TAB, false, true)
}

/// The edge that a read gives: that of the record read, and none where the
/// reader failed.
pub open spec fn edge_of_read(read: Reading) -> Option<(NodeId, NodeId)> {
    match read {
        Some(fields) => edge_of(fields),
        None => None,
    }
}

/// Why a read that gives no edge stops the stream, for the record with
/// index `record`.
pub open spec fn fault_of_read(read: Reading, record: u64) -> IngestError {
    match read {
        Some(_) => IngestError::ParseError { record },
        None => IngestError::IoError { record },
    }
}

/// What a stream answers that has `reads` to give, has handed out
/// `position` edges and is stopped or not.
///
/// A stopped stream answers `Ok(None)`. One that has handed out `u64::MAX`
/// edges answers `RecordLimit`. One with nothing left to read answers
/// `Ok(None)`, the end of the input. Otherwise the answer is the edge of
/// the next read, or the fault of a read that gives none.
pub open spec fn answer(reads: Seq<Reading>, position: u64, stopped: bool) -> Result<
    Option<(NodeId, NodeId)>,
    IngestError,
> {
    if stopped {
        Ok(None)
    } else if position == u64::MAX {
        Err(IngestError::RecordLimit)
    } else if reads.len() == 0 {
        Ok(None)
    } else {
        match edge_of_read(reads[0]) {
            Some(edge) => Ok(Some(edge)),
            None => Err(fault_of_read(reads[0], position)),
        }
    }
}

/// The index of the record that a stream reads next when it has handed out
/// `position` edges, which is `position` itself. The reader counts the
/// records that it has read in 64 bits, so there is no reading on after
/// `u64::MAX` records: that is `RecordLimit`.
pub fn index_of_next(position: u64) -> (index: Result<u64, IngestError>)
    ensures
        index == if position == u64::MAX {
            Err::<u64, IngestError>(IngestError::RecordLimit)
        } else {
            Ok(position)
        },
{
    if position == u64::MAX {
        Err(IngestError::RecordLimit)
    } else {
        Ok(position)
    }
}

/// What a stream answers when its reader returned `read` for record
/// `record`: the edge of the record that was read, `ParseError` where that
/// record denotes none, `Ok(None)` at the end of the input, and `IoError`
/// where the reader failed.
pub fn edge_from_read(read: Result<(bool, Vec<Vec<u8>>), csv::Error>, record: u64) -> (outcome: Result<
    Option<(NodeId, NodeId)>,
    IngestError,
>)
    ensures
        outcome == match read {
            Ok((true, row)) => match edge_of(fields_of(row@)) {
                Some(edge) => Ok::<Option<(NodeId, NodeId)>, IngestError>(Some(edge)),
                None => Err(IngestError::ParseError { record }),
            },
            Ok((false, _)) => Ok(None),
            Err(_) => Err(IngestError::IoError { record }),
        },
{
    match read {
        Ok((true, row)) => match parse_edge(&row) {
            Some(edge) => Ok(Some(edge)),
            None => Err(IngestError::ParseError { record }),
        },
        Ok((false, _)) => Ok(None),
        Err(_) => Err(IngestError::IoError { record }),
    }
}

/// A stream of edges over tab-separated bytes. It hands out one edge for
/// each record, in the order of the input, and cannot be rewound. After the
/// end of the input or the first fault it is stopped, and hands out nothing
/// more.
pub struct EdgeStream<'a> {
    reader: csv::Reader<&'a [u8]>,
    yielded: u64,
    stopped: bool,
}

impl<'a> EdgeStream<'a> {
    /// Until it stops, the stream has handed out an edge for each record
    /// that its reader has read, and its reader is headerless.
    pub closed spec fn wf(&self) -> bool {
        !self.stopped ==> self.yielded == rows_read(self.reader) && headerless(self.reader)
    }

    /// Whether the stream has ended, at the end of its input or at a fault.
    pub closed spec fn stopped(&self) -> bool {
        self.stopped
    }

    /// What the stream has yet to read; nothing once it is stopped.
    pub closed spec fn remaining(&self) -> Seq<Reading> {
        if self.stopped {
            Seq::empty()
        } else {
            pending_reads(self.reader)
        }
    }

    /// The index of the record that the stream reads next: the number of
    /// edges that it has handed out.
    pub closed spec fn position(&self) -> u64 {
        self.yielded
    }

    /// Opens a stream over `data`.
    pub fn new(data: &'a [u8]) -> (stream: EdgeStream<'a>)
        ensures
            stream.wf(),
            !stream.stopped(),
            stream.remaining() == tsv_reads(data@),
            stream.position() == 0,
    {
        EdgeStream { reader: open_reader(data, TAB, false, true), yielded: 0, stopped: false }
    }

    /// The number of edges that the stream has handed out.
    pub fn edges_read(&self) -> (count: u64)
        ensures
            count == self.position(),
    {
        self.yielded
    }

    /// Reads the next record and hands out the edge that it denotes;
    /// `Ok(None)` is the end of the input. After an edge the stream stands
    /// at the next read. After any other answer it is stopped.
    pub fn next_edge(&mut self) -> (outcome: Result<Option<(NodeId, NodeId)>, IngestError>)
        requires
            old(self).wf(),
        ensures
            final(self).wf(),
            outcome == answer(old(self).remaining(), old(self).position(), old(self).stopped()),
            match outcome {
                Ok(Some(_)) => {
                    &&& !final(self).stopped()
                    &&& final(self).remaining() == old(self).remaining().skip(1)
                    &&& final(self).position() == old(self).position() + 1
                },
                _ => {
                    &&& final(self).stopped()
                    &&& final(self).remaining() == Seq::<Reading>::empty()
                    &&& final(self).position() == old(self).position()
                },
            },
    {
        if self.stopped {
            return Ok(None);
        }
        let record = match index_of_next(self.yielded) {
            Ok(record) => record,
            Err(limit) => {
                self.stopped = true;
                return Err(limit);
            },
        };
        let outcome = edge_from_read(read_row(&mut self.reader), record);
        match outcome {
            Ok(Some(_)) => {
                self.yielded = self.yielded + 1;
            },
            _ => {
                self.stopped = true;
            },
        }
        outcome
    }

    /// A stopped stream has nothing left to read.
    pub proof fn lemma_stopped_is_empty(&self)
        ensures
            self.stopped() ==> self.remaining().len() == 0,
    {
    }
}

} // verus!
