//! The capture-stream extractor: a block-structured capture container is
//! read block by block through a buffered reader; each block's buffered raw
//! bytes are decoded with lossy UTF-8 and scanned by the matching engine.  A
//! malformed block or a failing refill aborts the whole scan of the input.
//!
//! The reader is modeled by two named sequences: the bytes buffered at its
//! current position (its window) and the input bytes not yet buffered.  The
//! trusted reader operations say how each call moves bytes between the two,
//! and the verified walk concludes that the scanned texts are the lossy
//! decodes of consecutive windows of the input, covering all of it when the
//! walk ends cleanly.

use vstd::prelude::*;

use pcap_parser::traits::PcapReaderIterator;

use crate::catalog::Catalog;
use crate::filter::Filter;
use crate::identifier::{identify_all, lemma_identify_all_snoc, Identifier, Match};
use crate::options::Options;
use crate::text::{utf8_lossy, utf8_lossy_of};

verus! {

/// The buffered capture reader over the input bytes.  Verus cannot take the
/// reader type of pcap_parser directly (its generic parameter is bound by an
/// outside trait), so it is held opaquely in this struct and touched only
/// through the trusted functions below.
#[verifier::external_body]
pub struct CaptureReader {
    inner: pcap_parser::PcapNGReader<std::io::Cursor<Vec<u8>>>,
}

/// Whether pcap_parser::PcapNGReader::new accepts the bytes as the start of
/// a capture stream, with a buffer of the given capacity; reading from an
/// in-memory cursor, the outcome depends on these arguments alone.
pub uninterp spec fn capture_accepts(capacity: int, data: Seq<u8>) -> bool;

/// The bytes buffered at the reader's current position: what its `data`
/// method yields.
pub uninterp spec fn capture_window(reader: CaptureReader) -> Seq<u8>;

/// The input bytes the reader has not yet buffered.
pub uninterp spec fn capture_rest(reader: CaptureReader) -> Seq<u8>;

/// What one read attempt on the capture stream yielded: a whole block that
/// consumed so many buffered bytes, the end of the stream, too few buffered
/// bytes for a block, a buffer too small for the block, or a malformed
/// block.
pub enum CaptureEvent {
    Block(usize),
    Eof,
    Incomplete,
    BufferTooSmall,
    Malformed,
}

/// Why a capture scan failed: the input did not begin with a valid section
/// header, a refill could not complete a block, a block was malformed, or
/// the stream made no progress for far longer than its length allows.
#[derive(Debug)]
pub enum CaptureError {
    Init,
    Refill,
    Malformed,
    Stalled,
}

/// The buffer capacity of the capture reader, as bytes.
pub const CAPTURE_BUFFER_CAPACITY: usize = 65536;

/// Relies on pcap_parser::PcapNGReader::new: deterministic in the capacity
/// and the bytes; on success the buffer holds a prefix of the input and the
/// rest awaits reading, so nothing of the input is lost.
#[verifier::external_body]
fn capture_reader_new(capacity: usize, data: &[u8]) -> (r: Result<CaptureReader, ()>)
    ensures
        r is Ok <==> capture_accepts(capacity as int, data@),
        (r matches Ok(reader) ==> capture_window(reader) + capture_rest(reader) == data@),
{
    match pcap_parser::PcapNGReader::new(capacity, std::io::Cursor::new(data.to_vec())) {
        Ok(inner) => Ok(CaptureReader { inner }),
        Err(_) => Err(()),
    }
}

/// Relies on PcapNGReader::next: attempts to parse one block from the
/// buffered window, leaving the window and the unread input as they are; a
/// parsed block lies within the window, and end of stream is reported only
/// once the window and the unread input are both empty.
#[verifier::external_body]
fn capture_next(reader: &mut CaptureReader) -> (ev: CaptureEvent)
    ensures
        capture_window(*final(reader)) == capture_window(*old(reader)),
        capture_rest(*final(reader)) == capture_rest(*old(reader)),
        (ev matches CaptureEvent::Block(offset) ==> offset <= capture_window(
            *old(reader),
        ).len()),
        ev is Eof ==> capture_window(*old(reader)).len() == 0 && capture_rest(
            *old(reader),
        ).len() == 0,
{
    match reader.inner.next() {
        Ok((offset, _)) => CaptureEvent::Block(offset),
        Err(pcap_parser::PcapError::Eof) => CaptureEvent::Eof,
        Err(pcap_parser::PcapError::Incomplete(_)) => CaptureEvent::Incomplete,
        Err(pcap_parser::PcapError::BufferTooSmall) => CaptureEvent::BufferTooSmall,
        Err(_) => CaptureEvent::Malformed,
    }
}

/// Relies on PcapNGReader::data: yields exactly the buffered window.
#[verifier::external_body]
fn capture_data(reader: &CaptureReader) -> (r: Vec<u8>)
    ensures
        r@ == capture_window(*reader),
{
    reader.inner.data().to_vec()
}

/// Relies on PcapNGReader::consume: drops the given number of bytes from
/// the front of the buffered window.
#[verifier::external_body]
fn capture_consume(reader: &mut CaptureReader, offset: usize)
    requires
        offset <= capture_window(*old(reader)).len(),
    ensures
        capture_window(*final(reader)) == capture_window(*old(reader)).skip(offset as int),
        capture_rest(*final(reader)) == capture_rest(*old(reader)),
{
    reader.inner.consume(offset);
}

/// Relies on PcapNGReader::refill: moves unread input bytes into the
/// buffered window, losing none.
#[verifier::external_body]
fn capture_refill(reader: &mut CaptureReader) -> (r: Result<(), ()>)
    ensures
        r is Ok ==> capture_window(*final(reader)) + capture_rest(*final(reader))
            == capture_window(*old(reader)) + capture_rest(*old(reader)),
{
    match reader.inner.refill() {
        Ok(()) => Ok(()),
        Err(_) => Err(()),
    }
}

/// A record of the blocks a capture walk scanned: for each block, where its
/// window began in the input, how long the window was, and how many of its
/// bytes the block consumed.  The windows sit at consecutive positions,
/// each block consumes no more than its window, and every window lies
/// within the input.
pub open spec fn capture_trace_ok(data: Seq<u8>, trace: Seq<(int, int, int)>) -> bool {
    forall|i: int|
        #![trigger trace[i]]
        0 <= i < trace.len() ==> {
            &&& trace[i].0 == (if i == 0 {
                0int
            } else {
                trace[i - 1].0 + trace[i - 1].2
            })
            &&& 0 <= trace[i].2 <= trace[i].1
            &&& trace[i].0 + trace[i].1 <= data.len()
        }
}

/// The input position a trace has consumed up to.
pub open spec fn trace_end(trace: Seq<(int, int, int)>) -> int {
    if trace.len() == 0 {
        0
    } else {
        trace.last().0 + trace.last().2
    }
}

/// The texts a trace scanned: each window's bytes, decoded lossily.
pub open spec fn trace_texts(data: Seq<u8>, trace: Seq<(int, int, int)>) -> Seq<Seq<char>> {
    trace.map_values(|t: (int, int, int)| utf8_lossy_of(data.subrange(t.0, t.0 + t.1)))
}

impl Identifier {
    /// Walks a capture container given as bytes, block by block, and scans
    /// each block's buffered window, decoded as lossy UTF-8, with the
    /// catalog and filter.  The records appended and the dedup store left
    /// behind are exactly those of scanning, in order, the lossy decodes of
    /// consecutive windows of the input; when the walk reaches the end of
    /// the stream it returns `Ok` and the windows have consumed the whole
    /// input.  Bytes that `PcapNGReader::new` rejects give `Err(Init)` and
    /// nothing else does; a malformed block or a failed or stalled refill
    /// aborts with an error, keeping the records gathered so far.
    #[verifier::rlimit(100)]
    pub fn identify_capture_bytes(
        &mut self,
        data: &[u8],
        matches: &mut Vec<Match>,
        catalog: &Catalog,
        filter: &Filter,
        options: &Options,
    ) -> (r: Result<(), CaptureError>)
        ensures
            (r matches Err(CaptureError::Init)) <==> !capture_accepts(
                CAPTURE_BUFFER_CAPACITY as int,
                data@,
            ),
            exists|trace: Seq<(int, int, int)>|
                {
                    &&& #[trigger] capture_trace_ok(data@, trace)
                    &&& final(matches).deep_view() == old(matches).deep_view() + identify_all(
                        trace_texts(data@, trace),
                        catalog.patterns.deep_view(),
                        filter@,
                        options.allow_duplicates,
                        old(self)@,
                    ).0
                    &&& final(self)@ == identify_all(
                        trace_texts(data@, trace),
                        catalog.patterns.deep_view(),
                        filter@,
                        options.allow_duplicates,
                        old(self)@,
                    ).1
                    &&& (r is Ok ==> trace_end(trace) == data@.len())
                },
    {
        let ghost mut trace: Seq<(int, int, int)> = Seq::empty();
        let ghost mut pos: int = 0;

        let mut reader = match capture_reader_new(CAPTURE_BUFFER_CAPACITY, data) {
            Result::Ok(reader) => reader,
            Result::Err(_) => {
                proof {
                    lemma_trace_empty(data@, catalog.patterns.deep_view(), filter@,
                        options.allow_duplicates, old(self)@, matches.deep_view());
                }
                return Result::Err(CaptureError::Init);
            },
        };

        proof {
            lemma_trace_empty(data@, catalog.patterns.deep_view(), filter@,
                options.allow_duplicates, old(self)@, matches.deep_view());
            assert(data@.skip(0) =~= data@);
        }
        // Every parsed block consumes buffered bytes and every useful refill
        // buffers new ones, so a healthy stream takes far fewer turns than
        // this bound; running out of it means the stream is stuck.
        let mut fuel: u128 = data.len() as u128 * 2 + 16;
        loop
            invariant
                capture_accepts(CAPTURE_BUFFER_CAPACITY as int, data@),
                capture_trace_ok(data@, trace),
                pos == trace_end(trace),
                0 <= pos <= data@.len(),
                capture_window(reader) + capture_rest(reader) == data@.skip(pos),
                matches.deep_view() == old(matches).deep_view() + identify_all(
                    trace_texts(data@, trace),
                    catalog.patterns.deep_view(),
                    filter@,
                    options.allow_duplicates,
                    old(self)@,
                ).0,
                self@ == identify_all(
                    trace_texts(data@, trace),
                    catalog.patterns.deep_view(),
                    filter@,
                    options.allow_duplicates,
                    old(self)@,
                ).1,
            decreases fuel,
        {
            if fuel == 0 {
                return Result::Err(CaptureError::Stalled);
            }
            fuel = fuel - 1;
            match capture_next(&mut reader) {
                CaptureEvent::Block(offset) => {
                    let payload = capture_data(&reader);
                    let content = utf8_lossy(payload.as_slice());
                    let ghost window = capture_window(reader);
                    let ghost wlen = window.len() as int;
                    proof {
                        assert(capture_window(reader) + capture_rest(reader) == data@.skip(pos));
                        assert((capture_window(reader) + capture_rest(reader)).len()
                            == capture_window(reader).len() + capture_rest(reader).len());
                        assert(data@.skip(pos).len() == data@.len() - pos);
                        assert(wlen + capture_rest(reader).len() == data@.len() - pos);
                        assert(window =~= data@.skip(pos).take(wlen));
                        assert forall|j: int| 0 <= j < wlen implies data@.skip(pos).take(wlen)[j]
                            == data@.subrange(pos, pos + wlen)[j] by {
                            assert(data@.skip(pos)[j] == data@[pos + j]);
                        }
                        assert(data@.skip(pos).take(wlen) =~= data@.subrange(pos, pos + wlen));
                        lemma_identify_all_snoc(
                            trace_texts(data@, trace),
                            content@,
                            catalog.patterns.deep_view(),
                            filter@,
                            options.allow_duplicates,
                            old(self)@,
                        );
                    }
                    self.identify_text(content, matches, catalog, filter, options);
                    capture_consume(&mut reader, offset);
                    proof {
                        assert(capture_window(reader) + capture_rest(reader)
                            =~= data@.skip(pos).skip(offset as int));
                        assert(data@.skip(pos).skip(offset as int) =~= data@.skip(pos + offset));
                        let prev = trace;
                        trace = trace.push((pos, wlen, offset as int));
                        pos = pos + offset;
                        assert(trace_texts(data@, trace)
                            =~= trace_texts(data@, prev).push(utf8_lossy_of(
                            data@.subrange(prev_end(prev), prev_end(prev) + wlen),
                        )));
                        assert forall|i: int| #![trigger trace[i]] 0 <= i < trace.len() implies {
                            &&& trace[i].0 == (if i == 0 {
                                0int
                            } else {
                                trace[i - 1].0 + trace[i - 1].2
                            })
                            &&& 0 <= trace[i].2 <= trace[i].1
                            &&& trace[i].0 + trace[i].1 <= data@.len()
                        } by {
                            if i < prev.len() {
                                assert(trace[i] == prev[i]);
                                if i > 0 {
                                    assert(trace[i - 1] == prev[i - 1]);
                                }
                            }
                        }
                    }
                },
                CaptureEvent::Eof => {
                    proof {
                        assert(data@.skip(pos).len() == 0);
                    }
                    return Result::Ok(());
                },
                CaptureEvent::Incomplete => {
                    match capture_refill(&mut reader) {
                        Result::Ok(_) => {},
                        Result::Err(_) => {
                            return Result::Err(CaptureError::Refill);
                        },
                    }
                },
                CaptureEvent::BufferTooSmall => {
                    match capture_refill(&mut reader) {
                        Result::Ok(_) => {},
                        Result::Err(_) => {
                            return Result::Err(CaptureError::Refill);
                        },
                    }
                },
                CaptureEvent::Malformed => {
                    return Result::Err(CaptureError::Malformed);
                },
            }
        }
    }
}

/// The position an already-validated trace ends at; a synonym used while a
/// new step is appended.
pub open spec fn prev_end(trace: Seq<(int, int, int)>) -> int {
    trace_end(trace)
}

/// An empty trace scans nothing and leaves everything as it came.
proof fn lemma_trace_empty(
    data: Seq<u8>,
    patterns: Seq<crate::catalog::PatternDefView>,
    f: crate::filter::FilterView,
    allow_duplicates: bool,
    store: Seq<Seq<char>>,
    ms: Seq<crate::identifier::MatchView>,
)
    ensures
        capture_trace_ok(data, Seq::empty()),
        trace_end(Seq::empty()) == 0,
        trace_texts(data, Seq::empty()) == Seq::<Seq<char>>::empty(),
        identify_all(Seq::empty(), patterns, f, allow_duplicates, store).0 == Seq::<
            crate::identifier::MatchView,
        >::empty(),
        identify_all(Seq::empty(), patterns, f, allow_duplicates, store).1 == store,
        ms + Seq::<crate::identifier::MatchView>::empty() == ms,
{
    assert(trace_texts(data, Seq::empty()) =~= Seq::<Seq<char>>::empty());
    assert(ms + Seq::<crate::identifier::MatchView>::empty() =~= ms);
}

} // verus!
