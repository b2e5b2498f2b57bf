//! The orchestrator: the decisions of a run, one event at a time.
//!
//! The caller owns the byte source, the transformer and the sink. It performs
//! the action it is given and reports what happened:
//!
//! * `Read`: read at most `max_bytes` bytes from the source and hand them to
//!   `on_read`; no bytes means that the source has ended.
//! * `Transform`: start the transformer on `payload`, hand each unit of its
//!   output to `on_line`, and call `on_transform_end` when it has finished.
//! * `Finish`: flush the sink; the run is complete.
//! * `Fail`: the run has failed and nothing more is to be done.
//!
//! A cycle fills the buffer, behind what the last split carried over, until
//! it holds `buffer_size` bytes or the source has ended, and then splits it.
//! The bytes of the prefix are read first and dropped unseen.

use vstd::prelude::*;
use vstd::utf8::valid_utf8;

use crate::adapter::payload;
use crate::adapter::payload_of;
use crate::adapter::verdict;
use crate::adapter::verdict_of;
use crate::adapter::LineVerdict;
use crate::envelope::EnvelopeConfig;
use crate::envelope::EnvelopeView;
use crate::error::diagnostic_text;
use crate::error::StreamError;
use crate::framer::framed;
use crate::framer::lemma_framed_carry_is_shorter;
use crate::framer::split;
use crate::metrics::RunMetrics;
use crate::pattern::append_bytes;
use crate::text::check_text;

verus! {

/// Where a run stands.
#[derive(Clone, Copy, Debug, PartialEq, Eq, Structural)]
pub enum Phase {
    /// Waiting for bytes from the source.
    Reading,
    /// The buffer is full or the source has ended: the buffer is being
    /// split. No event finds a run in this phase.
    Splitting,
    /// Waiting for the transformer to finish a batch.
    Transforming,
    /// The stream was processed up to its suffix.
    Finished,
    /// The run has failed.
    Failed,
}

/// What the caller is to do next.
#[derive(Debug)]
pub enum Action {
    /// Read at most `max_bytes` bytes from the source and report them.
    Read { max_bytes: usize },
    /// Run the transformer on `payload` and report what it puts out.
    Transform { payload: Vec<u8> },
    /// Flush the sink: the stream was processed up to its suffix.
    Finish,
    /// Stop: the run has failed.
    Fail(StreamError),
}

/// An action as plain values.
pub enum ActionView {
    Read { max_bytes: int },
    Transform { payload: Seq<u8> },
    Finish,
    Fail(StreamError),
}

impl View for Action {
    type V = ActionView;

    open spec fn view(&self) -> ActionView {
        match *self {
            Action::Read { max_bytes } => ActionView::Read { max_bytes: max_bytes as int },
            Action::Transform { payload } => ActionView::Transform { payload: payload@ },
            Action::Finish => ActionView::Finish,
            Action::Fail(e) => ActionView::Fail(e),
        }
    }
}

/// The state of a run as plain values.
pub struct RunView {
    pub envelope: EnvelopeView,
    pub separator: Seq<u8>,
    pub buffer_size: int,
    pub wrap_as_array: bool,
    pub continue_on_error: bool,
    /// Bytes of the prefix that are still to be dropped.
    pub skip: int,
    /// The text waiting to be split.
    pub buffer: Seq<u8>,
    /// Whether the source has ended.
    pub exhausted: bool,
    /// Whether the suffix was seen.
    pub is_final: bool,
    pub phase: Phase,
    pub failure: Option<StreamError>,
    /// Number of splits made so far.
    pub cycles: int,
    pub metrics: RunMetrics,
}

/// The state of a run that has not read anything.
pub open spec fn initial(
    envelope: EnvelopeView,
    separator: Seq<u8>,
    buffer_size: int,
    wrap_as_array: bool,
    continue_on_error: bool,
) -> RunView {
    RunView {
        envelope,
        separator,
        buffer_size,
        wrap_as_array,
        continue_on_error,
        skip: envelope.prefix.len() as int,
        buffer: Seq::empty(),
        exhausted: false,
        is_final: false,
        phase: Phase::Reading,
        failure: None,
        cycles: 0,
        metrics: RunMetrics { total_bytes: 0, entities_total: 0, entities_filtered_out: 0, errors: 0 },
    }
}

/// How many bytes the next read may bring: what is left of the prefix, or
/// else the room left in the buffer.
pub open spec fn request_size(s: RunView) -> int {
    if s.skip > 0 {
        s.skip
    } else {
        s.buffer_size - s.buffer.len()
    }
}

/// The run fails with `e`.
pub open spec fn failed(s: RunView, e: StreamError) -> (RunView, ActionView) {
    (RunView { phase: Phase::Failed, failure: Some(e), ..s }, ActionView::Fail(e))
}

/// The buffer is split. A split that fails fails the run. So does one that
/// does not close the stream when the source has ended: the stream ended
/// without its suffix. Otherwise the carry becomes the buffer; a ready span
/// that is not empty goes to the transformer, and after an empty one the run
/// finishes, if the split closed the stream, or reads on.
pub open spec fn after_split(s: RunView) -> (RunView, ActionView) {
    let counted = RunView { cycles: s.cycles + 1, ..s };
    match framed(s.buffer, s.envelope, s.separator, s.buffer_size) {
        Err(e) => failed(counted, e),
        Ok(parts) => if !parts.is_final && s.exhausted {
            failed(counted, StreamError::MalformedStream)
        } else {
            let kept = RunView { buffer: parts.carry, is_final: parts.is_final, ..counted };
            if parts.ready.len() > 0 {
                (
                    RunView { phase: Phase::Transforming, ..kept },
                    ActionView::Transform { payload: payload_of(parts.ready, s.wrap_as_array) },
                )
            } else if parts.is_final {
                (RunView { phase: Phase::Finished, ..kept }, ActionView::Finish)
            } else {
                (
                    RunView { phase: Phase::Reading, ..kept },
                    ActionView::Read { max_bytes: request_size(kept) },
                )
            }
        },
    }
}

/// The source answered a read with `chunk`.
///
/// While the prefix is being dropped, the chunk is dropped; a source that
/// ends there ends too early. After that, no bytes mean the end of the
/// source: with an empty buffer the stream ended without its suffix, else
/// what is in the buffer is split. Bytes that are not valid UTF-8 fail the
/// run. Valid ones are put behind the buffer and counted; the buffer is split
/// once it holds `buffer_size` bytes, and filled further until then.
pub open spec fn after_read(s: RunView, chunk: Seq<u8>) -> (RunView, ActionView) {
    if chunk.len() == 0 {
        let ended = RunView { exhausted: true, ..s };
        if s.skip > 0 || s.buffer.len() == 0 {
            failed(ended, StreamError::MalformedStream)
        } else {
            after_split(RunView { phase: Phase::Splitting, ..ended })
        }
    } else if s.skip > 0 {
        let dropped = RunView { skip: s.skip - chunk.len(), ..s };
        (dropped, ActionView::Read { max_bytes: request_size(dropped) })
    } else if !valid_utf8(chunk) {
        failed(s, StreamError::EncodingError)
    } else {
        let filled = RunView {
            buffer: s.buffer + chunk,
            metrics: RunMetrics {
                total_bytes: (s.metrics.total_bytes + chunk.len()) as u64,
                ..s.metrics
            },
            ..s
        };
        if filled.buffer.len() < s.buffer_size {
            (filled, ActionView::Read { max_bytes: request_size(filled) })
        } else {
            after_split(RunView { phase: Phase::Splitting, ..filled })
        }
    }
}

/// One unit of transformer output was seen: a line that arrived is counted
/// as an entity, a failure that is passed over as an error, and a failure
/// that is not passed over fails the run.
pub open spec fn after_line(s: RunView, arrived: bool) -> (RunView, LineVerdict) {
    match verdict_of(arrived, s.continue_on_error) {
        LineVerdict::Forward => (
            RunView {
                metrics: RunMetrics {
                    entities_total: (s.metrics.entities_total + 1) as u64,
                    ..s.metrics
                },
                ..s
            },
            LineVerdict::Forward,
        ),
        LineVerdict::Skip => (
            RunView {
                metrics: RunMetrics { errors: (s.metrics.errors + 1) as u64, ..s.metrics },
                ..s
            },
            LineVerdict::Skip,
        ),
        LineVerdict::Abort => (
            RunView {
                phase: Phase::Failed,
                failure: Some(StreamError::TransformFailure),
                ..s
            },
            LineVerdict::Abort,
        ),
    }
}

/// The transformer has finished a batch: the run is finished if the batch
/// closed the stream, and reads on if not.
pub open spec fn after_transform(s: RunView, filtered_out: int) -> (RunView, ActionView) {
    let counted = RunView {
        metrics: RunMetrics {
            entities_filtered_out: (s.metrics.entities_filtered_out + filtered_out) as u64,
            ..s.metrics
        },
        ..s
    };
    if s.is_final {
        (RunView { phase: Phase::Finished, ..counted }, ActionView::Finish)
    } else {
        (
            RunView { phase: Phase::Reading, ..counted },
            ActionView::Read { max_bytes: request_size(counted) },
        )
    }
}

/// The buffer of `s` holds no more than `buffer_size` bytes, and nothing
/// while the prefix is being dropped.
pub open spec fn bounded(s: RunView) -> bool {
    &&& s.envelope.delimiter.len() > 0
    &&& s.buffer_size > 0
    &&& 0 <= s.skip
    &&& s.skip > 0 ==> s.buffer.len() == 0
    &&& s.buffer.len() <= s.buffer_size
    &&& 0 <= s.cycles
}

/// What holds of every state that a run passes through: the buffer is
/// bounded, and while the run reads or transforms there is room in it for at
/// least one more byte.
pub open spec fn well_formed(s: RunView) -> bool {
    &&& bounded(s)
    &&& s.phase == Phase::Reading || s.phase == Phase::Transforming ==> s.buffer.len()
        < s.buffer_size
}

/// The decisions of one run.
pub struct Orchestrator {
    config: EnvelopeConfig,
    separator: Vec<u8>,
    buffer_size: usize,
    wrap_as_array: bool,
    continue_on_error: bool,
    skip: usize,
    buffer: Vec<u8>,
    exhausted: bool,
    is_final: bool,
    phase: Phase,
    failure: Option<StreamError>,
    cycles: u64,
    metrics: RunMetrics,
}

impl View for Orchestrator {
    type V = RunView;

    closed spec fn view(&self) -> RunView {
        RunView {
            envelope: self.config@,
            separator: self.separator@,
            buffer_size: self.buffer_size as int,
            wrap_as_array: self.wrap_as_array,
            continue_on_error: self.continue_on_error,
            skip: self.skip as int,
            buffer: self.buffer@,
            exhausted: self.exhausted,
            is_final: self.is_final,
            phase: self.phase,
            failure: self.failure,
            cycles: self.cycles as int,
            metrics: self.metrics,
        }
    }
}

impl Orchestrator {
    #[verifier::type_invariant]
    spec fn buffer_is_bounded(&self) -> bool {
        &&& self.config@.delimiter.len() > 0
        &&& self.buffer_size > 0
        &&& self.buffer@.len() <= self.buffer_size
        &&& self.skip > 0 ==> self.buffer@.len() == 0
        &&& self.phase == Phase::Reading || self.phase == Phase::Transforming
            ==> self.buffer@.len() < self.buffer_size
    }

    /// Sets a run up. Nothing has been read yet; the first action is
    /// `first_action`. There is no run with a buffer of no bytes.
    pub fn new(
        config: EnvelopeConfig,
        separator: Vec<u8>,
        buffer_size: usize,
        wrap_as_array: bool,
        continue_on_error: bool,
    ) -> (run: Option<Orchestrator>)
        ensures
            match run {
                Some(r) => {
                    &&& buffer_size > 0
                    &&& r@ == initial(
                        config@,
                        separator@,
                        buffer_size as int,
                        wrap_as_array,
                        continue_on_error,
                    )
                    &&& well_formed(r@)
                },
                None => buffer_size == 0,
            },
    {
        if buffer_size == 0 {
            return None;
        }
        let skip: usize = config.prefix().len();
        let delimiter = config.delimiter();
        assert(config@.delimiter.len() > 0);
        Some(
            Orchestrator {
                config,
                separator,
                buffer_size,
                wrap_as_array,
                continue_on_error,
                skip,
                buffer: Vec::new(),
                exhausted: false,
                is_final: false,
                phase: Phase::Reading,
                failure: None,
                cycles: 0,
                metrics: RunMetrics::new(),
            },
        )
    }

    /// Where the run stands.
    pub fn phase(&self) -> (phase: Phase)
        ensures
            phase == self@.phase,
    {
        self.phase
    }

    /// The counters of the run.
    pub fn metrics(&self) -> (metrics: RunMetrics)
        ensures
            metrics == self@.metrics,
    {
        self.metrics
    }

    /// Why the run failed, if it did.
    pub fn failure(&self) -> (failure: Option<StreamError>)
        ensures
            failure == self@.failure,
    {
        self.failure
    }

    /// Why the run failed and where: the failure with the number of the
    /// cycle and of the bytes taken in, if the run has failed.
    pub fn diagnostic(&self) -> (text: Option<String>)
        ensures
            text is Some <==> self@.failure is Some,
            text matches Some(t) ==> t@ == diagnostic_text(
                self@.failure->Some_0,
                self@.cycles,
                self@.metrics.total_bytes as int,
            ),
    {
        match self.failure {
            Some(e) => Some(e.diagnostic(self.cycles, self.metrics.total_bytes)),
            None => None,
        }
    }

    /// The number of splits made so far.
    pub fn cycles(&self) -> (cycles: u64)
        ensures
            cycles == self@.cycles,
    {
        self.cycles
    }

    /// How many bytes the next read may bring.
    pub fn read_size(&self) -> (max_bytes: usize)
        ensures
            max_bytes == request_size(self@),
            well_formed(self@),
            self@.phase == Phase::Reading ==> max_bytes >= 1,
    {
        proof {
            use_type_invariant(self);
        }
        if self.skip > 0 {
            self.skip
        } else {
            self.buffer_size - self.buffer.len()
        }
    }

    /// The action that starts the run: the first read.
    pub fn first_action(&self) -> (action: Action)
        ensures
            action@ == (ActionView::Read { max_bytes: request_size(self@) }),
    {
        Action::Read { max_bytes: self.read_size() }
    }

    fn fail(&mut self, e: StreamError) -> (action: Action)
        ensures
            final(self)@ == failed(old(self)@, e).0,
            action@ == failed(old(self)@, e).1,
    {
        proof {
            use_type_invariant(&*self);
        }
        self.phase = Phase::Failed;
        self.failure = Some(e);
        Action::Fail(e)
    }

    fn split_buffer(&mut self) -> (action: Action)
        requires
            old(self)@.phase == Phase::Splitting,
            old(self)@.cycles < u64::MAX,
        ensures
            final(self)@ == after_split(old(self)@).0,
            action@ == after_split(old(self)@).1,
    {
        let delimiter = self.config.delimiter();
        proof {
            use_type_invariant(&*self);
            lemma_framed_carry_is_shorter(
                self@.buffer,
                self@.envelope,
                self@.separator,
                self@.buffer_size,
            );
        }
        self.cycles = self.cycles + 1;
        let outcome = split(
            self.buffer.as_slice(),
            &self.config,
            self.separator.as_slice(),
            self.buffer_size,
        );
        match outcome {
            Err(e) => self.fail(e),
            Ok(parts) => {
                if !parts.is_final && self.exhausted {
                    self.fail(StreamError::MalformedStream)
                } else {
                    self.buffer = parts.carry;
                    self.is_final = parts.is_final;
                    if parts.ready.len() > 0 {
                        self.phase = Phase::Transforming;
                        Action::Transform {
                            payload: payload(parts.ready.as_slice(), self.wrap_as_array),
                        }
                    } else if parts.is_final {
                        self.phase = Phase::Finished;
                        Action::Finish
                    } else {
                        self.phase = Phase::Reading;
                        Action::Read { max_bytes: self.read_size() }
                    }
                }
            },
        }
    }

    /// Takes the answer of the source to a read: `chunk`, which is empty
    /// when the source has ended.
    pub fn on_read(&mut self, chunk: &[u8]) -> (action: Action)
        requires
            old(self)@.phase == Phase::Reading,
            chunk@.len() <= request_size(old(self)@),
            old(self)@.metrics.total_bytes + chunk@.len() <= u64::MAX,
            old(self)@.cycles < u64::MAX,
        ensures
            final(self)@ == after_read(old(self)@, chunk@).0,
            action@ == after_read(old(self)@, chunk@).1,
            well_formed(final(self)@),
    {
        proof {
            use_type_invariant(&*self);
        }
        let length: usize = chunk.len();
        let action = if length == 0 {
            self.exhausted = true;
            if self.skip > 0 || self.buffer.len() == 0 {
                self.fail(StreamError::MalformedStream)
            } else {
                self.phase = Phase::Splitting;
                self.split_buffer()
            }
        } else if self.skip > 0 {
            self.skip = self.skip - length;
            Action::Read { max_bytes: self.read_size() }
        } else {
            match check_text(chunk) {
                Err(e) => self.fail(e),
                Ok(_) => {
                    let mut text: Vec<u8> = Vec::new();
                    core::mem::swap(&mut self.buffer, &mut text);
                    append_bytes(&mut text, chunk);
                    let full: bool = text.len() >= self.buffer_size;
                    if full {
                        self.phase = Phase::Splitting;
                    }
                    self.buffer = text;
                    self.metrics.total_bytes = self.metrics.total_bytes + (length as u64);
                    if full {
                        self.split_buffer()
                    } else {
                        Action::Read { max_bytes: self.read_size() }
                    }
                },
            }
        };
        proof {
            use_type_invariant(&*self);
        }
        action
    }

    /// Takes one unit of the transformer's output: a line that arrived, or a
    /// failure.
    pub fn on_line(&mut self, arrived: bool) -> (v: LineVerdict)
        requires
            old(self)@.phase == Phase::Transforming,
            old(self)@.metrics.entities_total < u64::MAX,
            old(self)@.metrics.errors < u64::MAX,
        ensures
            final(self)@ == after_line(old(self)@, arrived).0,
            v == after_line(old(self)@, arrived).1,
            well_formed(final(self)@),
    {
        proof {
            use_type_invariant(&*self);
        }
        let v = verdict(arrived, self.continue_on_error);
        match v {
            LineVerdict::Forward => {
                self.metrics.entities_total = self.metrics.entities_total + 1;
            },
            LineVerdict::Skip => {
                self.metrics.errors = self.metrics.errors + 1;
            },
            LineVerdict::Abort => {
                self.phase = Phase::Failed;
                self.failure = Some(StreamError::TransformFailure);
            },
        }
        proof {
            use_type_invariant(&*self);
        }
        v
    }

    /// Takes the end of the transformer's output for one batch, with the
    /// number of records for which it reported that it produced nothing.
    pub fn on_transform_end(&mut self, filtered_out: u64) -> (action: Action)
        requires
            old(self)@.phase == Phase::Transforming,
            old(self)@.metrics.entities_filtered_out + filtered_out <= u64::MAX,
        ensures
            final(self)@ == after_transform(old(self)@, filtered_out as int).0,
            action@ == after_transform(old(self)@, filtered_out as int).1,
            well_formed(final(self)@),
    {
        proof {
            use_type_invariant(&*self);
        }
        self.metrics.entities_filtered_out = self.metrics.entities_filtered_out + filtered_out;
        let action = if self.is_final {
            self.phase = Phase::Finished;
            Action::Finish
        } else {
            self.phase = Phase::Reading;
            Action::Read { max_bytes: self.read_size() }
        };
        proof {
            use_type_invariant(&*self);
        }
        action
    }
}

} // verus!
