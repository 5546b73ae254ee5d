//! The acquisition loop's state machine and its per-chunk pipeline step.
//!
//! The embedding program owns the transport: it opens the byte source,
//! reads bounded chunks under a short timeout, sleeps for the backoff,
//! and feeds what happened back as a [`SerialEvent`].  The decisions —
//! which state comes next, and everything that happens to a chunk of
//! bytes — are verified here.  On entering `Streaming` from `Opening` the
//! caller must reset the decoder's stream state
//! ([`PacketProcessor::reset_stream`]): stale partial frames and the
//! trigger gate never survive a reconnect.  A timeout is not an error;
//! any other read failure sends the loop through `Retrying` back to
//! `Opening`.

use vstd::prelude::*;
use crate::logger::Logger;
use crate::processor::PacketProcessor;
use crate::processor::accepted_frames;
use crate::processor::active_at;
use crate::processor::count_on_channel;
use crate::processor::gate_after_frames;
use crate::processor::lemma_accepted_active;
use crate::processor::sat_add_usize;
use crate::protocol::WireFrame;
use crate::protocol::parse_frames;
use crate::protocol::parse_rest;
use crate::sample::AdcSample;
use crate::sink::SampleSink;
use crate::sink::publish_one;
use crate::sink::publish_seq;
use crate::text::csv_row_chars;
use crate::text::display_line;
use crate::text::display_line_chars;

verus! {

/// Where the acquisition loop stands.
#[derive(Clone, Copy, Debug, PartialEq, Eq, Structural)]
pub enum AcqState {
    /// Acquiring a byte source.
    Opening,
    /// Reading chunks and decoding them.
    Streaming,
    /// Waiting out the backoff delay after a failure.
    Retrying,
}

/// What the transport reported for one step of the loop.
#[derive(Clone, Copy, Debug, PartialEq, Eq, Structural)]
pub enum SerialEvent {
    /// A byte source was acquired.
    Opened,
    /// No byte source could be acquired.
    OpenFailed,
    /// A read returned at least one byte.
    DataReady,
    /// A read timed out with no data: not an error.
    TimedOut,
    /// A read failed for a reason other than a timeout.
    ReadFailed,
    /// The backoff delay has elapsed.
    BackoffElapsed,
}

/// The loop's transition relation.  Events that cannot arise in a state
/// leave it unchanged.
pub open spec fn next_state(s: AcqState, e: SerialEvent) -> AcqState {
    match (s, e) {
        (AcqState::Opening, SerialEvent::Opened) => AcqState::Streaming,
        (AcqState::Opening, SerialEvent::OpenFailed) => AcqState::Retrying,
        (AcqState::Streaming, SerialEvent::DataReady) => AcqState::Streaming,
        (AcqState::Streaming, SerialEvent::TimedOut) => AcqState::Streaming,
        (AcqState::Streaming, SerialEvent::ReadFailed) => AcqState::Retrying,
        (AcqState::Retrying, SerialEvent::BackoffElapsed) => AcqState::Opening,
        (other, _) => other,
    }
}

/// Advances the loop's state for one transport event.
pub fn acquisition_step(s: AcqState, e: SerialEvent) -> (r: AcqState)
    ensures
        r == next_state(s, e),
{
    match (s, e) {
        (AcqState::Opening, SerialEvent::Opened) => AcqState::Streaming,
        (AcqState::Opening, SerialEvent::OpenFailed) => AcqState::Retrying,
        (AcqState::Streaming, SerialEvent::DataReady) => AcqState::Streaming,
        (AcqState::Streaming, SerialEvent::TimedOut) => AcqState::Streaming,
        (AcqState::Streaming, SerialEvent::ReadFailed) => AcqState::Retrying,
        (AcqState::Retrying, SerialEvent::BackoffElapsed) => AcqState::Opening,
        (other, _) => other,
    }
}

/// The sample an accepted pair denotes once stamped with capture time
/// `ts`.
pub open spec fn sample_with(p: (WireFrame, bool), ts: u128) -> AdcSample {
    AdcSample { channel: p.0.channel, raw_value: p.0.raw_value, timestamp: ts, is_trigger: p.1 }
}

/// The display record an accepted pair yields; it does not depend on the
/// capture time.
pub open spec fn display_of(p: (WireFrame, bool)) -> Seq<char> {
    display_line_chars(sample_with(p, 0))
}

/// The display records of a whole accepted sequence, in order.
pub open spec fn display_rows(acc: Seq<(WireFrame, bool)>) -> Seq<Seq<char>> {
    acc.map_values(|p: (WireFrame, bool)| display_of(p))
}

/// Whether `row` is the log row of the accepted pair `p` under some
/// capture time.
pub open spec fn row_matches(row: Seq<char>, p: (WireFrame, bool)) -> bool {
    exists|ts: u128| row == csv_row_chars(#[trigger] sample_with(p, ts))
}

/// Everything one successfully read chunk does: the bytes join the frame
/// buffer, every complete frame is decoded and routed through the channel
/// gate and trigger policy, each accepted sample is published to the
/// display sink (drop-oldest) and, while recording, rendered into a log
/// row.  The returned rows are what the embedding program must append and
/// flush to the destination, in order; a failure there is its caller's to
/// report and never reaches decoding.
pub fn handle_chunk(
    proc: &mut PacketProcessor,
    sink: &mut SampleSink,
    log: &mut Logger,
    bytes: &[u8],
) -> (rows: Vec<String>)
    ensures
        ({
            let fs = parse_frames(old(proc).buffered() + bytes@);
            let acc = accepted_frames(
                fs,
                old(proc).active(),
                old(proc).config(),
                old(proc).gate(),
            );
            &&& final(proc).buffered() == parse_rest(old(proc).buffered() + bytes@)
            &&& final(proc).gate() == gate_after_frames(
                fs,
                old(proc).active(),
                old(proc).config(),
                old(proc).gate(),
            )
            &&& final(proc).active() == old(proc).active()
            &&& final(proc).config() == old(proc).config()
            &&& final(proc).received() as int == sat_add_usize(
                old(proc).received() as int,
                acc.len() as int,
            )
            &&& forall|c: int|
                0 <= c < 4 ==> (#[trigger] final(proc).counts()[c]) as int == sat_add_usize(
                    old(proc).counts()[c] as int,
                    count_on_channel(acc, c),
                )
            &&& final(sink).cap() == old(sink).cap()
            &&& final(sink).contents() == publish_seq(
                old(sink).contents(),
                old(sink).cap(),
                display_rows(acc),
            )
            &&& final(log).recording() == old(log).recording()
            &&& final(log).session() == old(log).session() + rows.deep_view()
            &&& rows.deep_view().len() == (if old(log).recording() {
                acc.len() as int
            } else {
                0int
            })
            &&& forall|k: int|
                0 <= k < rows.deep_view().len() ==> row_matches(
                    #[trigger] rows.deep_view()[k],
                    acc[k],
                )
        }),
{
    let ghost a0 = proc.active();
    let ghost cfg0 = proc.config();
    let ghost g0 = proc.gate();
    proc.add_bytes(bytes);
    let samples: Vec<AdcSample> = proc.process_packets();
    let ghost fs = parse_frames(old(proc).buffered() + bytes@);
    let ghost acc = accepted_frames(fs, a0, cfg0, g0);
    proof {
        lemma_accepted_active(fs, a0, cfg0, g0);
    }
    let mut rows: Vec<String> = Vec::new();
    let ghost sink0 = sink.contents();
    let ghost cap = sink.cap();
    let ghost session0 = log.session();
    let ghost rec0 = log.recording();
    let ghost rs = display_rows(acc);
    proof {
        assert(rs.skip(0) =~= rs);
        assert(rows.deep_view() =~= Seq::<Seq<char>>::empty());
        assert(session0 + rows.deep_view() =~= session0);
    }
    let mut i: usize = 0;
    while i < samples.len()
        invariant
            i <= samples@.len(),
            samples@.len() == acc.len(),
            forall|k: int|
                0 <= k < acc.len() ==> (#[trigger] samples@[k]).channel == acc[k].0.channel
                    && samples@[k].raw_value == acc[k].0.raw_value && samples@[k].is_trigger
                    == acc[k].1,
            forall|k: int|
                0 <= k < acc.len() ==> active_at(a0, (#[trigger] acc[k]).0.channel),
            rs == display_rows(acc),
            sink.cap() == cap,
            publish_seq(sink0, cap, rs) == publish_seq(
                sink.contents(),
                cap,
                rs.skip(i as int),
            ),
            log.recording() == rec0,
            log.session() == session0 + rows.deep_view(),
            rows.deep_view().len() == (if rec0 {
                i as int
            } else {
                0int
            }),
            forall|k: int|
                0 <= k < rows.deep_view().len() ==> row_matches(
                    #[trigger] rows.deep_view()[k],
                    acc[k],
                ),
        decreases samples@.len() - i,
    {
        let s: AdcSample = samples[i];
        proof {
            assert(active_at(a0, acc[i as int].0.channel));
        }
        let line: String = display_line(&s);
        let ghost sink_pre = sink.contents();
        sink.publish(line);
        proof {
            assert(rs[i as int] == display_of(acc[i as int]));
            assert(rs.skip(i as int)[0] == rs[i as int]);
            assert(rs.skip(i as int).skip(1) =~= rs.skip(i as int + 1));
            assert(rs.skip(i as int).len() > 0);
            assert(publish_seq(sink_pre, cap, rs.skip(i as int)) == publish_seq(
                publish_one(sink_pre, cap, rs.skip(i as int)[0]),
                cap,
                rs.skip(i as int + 1),
            ));
        }
        let ghost rows_pre = rows.deep_view();
        if let Some(row) = log.log_sample(&s) {
            rows.push(row);
            proof {
                assert(rows.deep_view() =~= rows_pre.push(row@));
                assert(sample_with(acc[i as int], s.timestamp) == s);
                assert(row_matches(row@, acc[i as int]));
                assert(session0 + rows_pre.push(row@) =~= (session0 + rows_pre).push(row@));
            }
        }
        i += 1;
    }
    proof {
        assert(rs.skip(acc.len() as int) =~= Seq::<Seq<char>>::empty());
        assert(publish_seq(sink.contents(), cap, Seq::<Seq<char>>::empty()) == sink.contents());
    }
    rows
}

} // verus!
