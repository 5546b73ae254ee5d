//! The toggleable recording sink: an independent consumer of the decoded
//! stream that renders one durable log row per accepted sample.
//!
//! The logger is the decision-and-rendering half of persistence: it keeps
//! the recording flag, renders the header and each row, and models the
//! rows written to the current destination since it was last opened.
//! Actually creating the destination file, appending the returned rows
//! and flushing them is the embedding program's concern; a write failure
//! there is reported to its caller and never disturbs decoding.

use vstd::prelude::*;
use crate::sample::AdcSample;
use crate::text::csv_row;
use crate::text::csv_row_chars;
use crate::text::log_header_chars;
use crate::text::log_header_row;

verus! {

/// Recording state plus a ghost model of the current session's rows.
pub struct Logger {
    recording: bool,
    session_rows: Ghost<Seq<Seq<char>>>,
}

/// How `stop` changes a logger: recording ends, the destination is
/// released, and the rows already written stay what they were.
pub open spec fn stop_transition(pre: Logger, post: Logger) -> bool {
    !post.recording() && post.session() == pre.session()
}

/// How `start` changes a logger: recording begins on a fresh destination
/// whose content is exactly the returned header row.
pub open spec fn start_transition(pre: Logger, post: Logger, header: Seq<char>) -> bool {
    &&& post.recording()
    &&& header == log_header_chars() + seq!['\n']
    &&& post.session() == seq![header]
}

impl Logger {
    /// Whether recording is active.
    pub closed spec fn recording(&self) -> bool {
        self.recording
    }

    /// The rows of the current destination, header included: what a
    /// reader of the log would see once the embedding program has
    /// appended every returned row.
    pub closed spec fn session(&self) -> Seq<Seq<char>> {
        self.session_rows@
    }

    /// A logger that is not recording and has no destination.
    pub fn new() -> (r: Self)
        ensures
            !r.recording(),
            r.session() == Seq::<Seq<char>>::empty(),
    {
        Logger { recording: false, session_rows: Ghost(Seq::empty()) }
    }

    /// Starts recording on a fresh destination and returns the header
    /// row to write to it.  Starting while already recording replaces
    /// the destination: no row of the previous session carries over.
    pub fn start(&mut self) -> (header: String)
        ensures
            start_transition(*old(self), *final(self), header@),
    {
        let header = log_header_row();
        self.recording = true;
        proof {
            self.session_rows@ = seq![header@];
        }
        header
    }

    /// Stops recording and releases the destination; harmless when
    /// recording is already stopped.
    pub fn stop(&mut self)
        ensures
            stop_transition(*old(self), *final(self)),
    {
        self.recording = false;
    }

    /// Whether recording is active.
    pub fn is_recording(&self) -> (r: bool)
        ensures
            r == self.recording(),
    {
        self.recording
    }

    /// While recording, renders the row for one accepted sample and
    /// counts it into the session; otherwise a no-op yielding nothing.
    pub fn log_sample(&mut self, sample: &AdcSample) -> (r: Option<String>)
        ensures
            final(self).recording() == old(self).recording(),
            old(self).recording() ==> (r matches Some(row) && row@ == csv_row_chars(*sample)
                && final(self).session() == old(self).session().push(row@)),
            !old(self).recording() ==> r is None && final(self).session() == old(self).session(),
    {
        if !self.recording {
            return None;
        }
        let row = csv_row(sample);
        proof {
            self.session_rows@ = self.session_rows@.push(row@);
        }
        Some(row)
    }
}

/// Stopping twice in a row is a no-op the second time: the second stop
/// leaves every observable of the logger exactly as the first left it
/// (and, being total, it can never fail).
pub proof fn lemma_stop_idempotent(l1: Logger, l2: Logger, l3: Logger)
    requires
        stop_transition(l1, l2),
        stop_transition(l2, l3),
    ensures
        l3.recording() == l2.recording(),
        l3.session() == l2.session(),
{
}

/// Toggling recording off and on yields a destination holding exactly
/// the fresh header row: no residual rows from the prior session.
pub proof fn lemma_restart_is_fresh(l1: Logger, l2: Logger, l3: Logger, header: Seq<char>)
    requires
        stop_transition(l1, l2),
        start_transition(l2, l3, header),
    ensures
        l3.session() == seq![log_header_chars() + seq!['\n']],
        l3.session().len() == 1,
{
}

} // verus!
