//! Media source extensions: source buffers to which a page appends segments.
//!
//! Appends are queued and processed one at a time.
use std::collections::VecDeque;

use vstd::prelude::*;

verus! {

/// State of a media source.
#[derive(Debug, Clone, Copy, PartialEq, Eq, Structural)]
pub enum ReadyState {
    Closed,
    Open,
    Ended,
}

/// A source buffer: how many bytes it has taken in, and what waits to be
/// processed.
#[derive(Debug, Clone)]
pub struct SourceBuffer<T> {
    pub mime_type: String,
    pub appended_bytes: u64,
    /// The stretches of time that are buffered.
    pub time_ranges: Vec<(T, T)>,
    pub pending: VecDeque<Vec<u8>>,
    pub updating: bool,
}

/// What a source buffer holds.
#[verifier::ext_equal]
pub struct BufferModel<T> {
    pub mime_type: Seq<char>,
    pub appended_bytes: int,
    pub time_ranges: Seq<(T, T)>,
    pub pending: Seq<Vec<u8>>,
    pub updating: bool,
}

impl<T> View for SourceBuffer<T> {
    type V = BufferModel<T>;

    open spec fn view(&self) -> BufferModel<T> {
        BufferModel {
            mime_type: self.mime_type@,
            appended_bytes: self.appended_bytes as int,
            time_ranges: self.time_ranges@,
            pending: self.pending@,
            updating: self.updating,
        }
    }
}

/// The number of bytes in a list of segments.
pub open spec fn total_bytes(segments: Seq<Vec<u8>>) -> int
    decreases segments.len(),
{
    if segments.len() == 0 {
        0
    } else {
        segments[0]@.len() + total_bytes(segments.drop_first())
    }
}

impl<T> BufferModel<T> {
    /// With a segment queued.
    pub open spec fn appended(self, data: Vec<u8>) -> BufferModel<T> {
        BufferModel { pending: self.pending.push(data), updating: true, ..self }
    }

    /// With the first segment in the queue processed, if there is one.
    pub open spec fn stepped(self) -> BufferModel<T> {
        if self.pending.len() == 0 {
            BufferModel { updating: false, ..self }
        } else {
            BufferModel {
                appended_bytes: self.appended_bytes + self.pending[0]@.len(),
                pending: self.pending.drop_first(),
                updating: self.pending.len() > 1,
                ..self
            }
        }
    }

    /// After `n` steps.
    pub open spec fn after_steps(self, n: nat) -> BufferModel<T>
        decreases n,
    {
        if n == 0 {
            self
        } else {
            self.stepped().after_steps((n - 1) as nat)
        }
    }
}

impl<T> SourceBuffer<T> {
    pub fn new(mime: String) -> (r: Self)
        ensures
            r@ == (BufferModel::<T> {
                mime_type: mime@,
                appended_bytes: 0,
                time_ranges: Seq::empty(),
                pending: Seq::empty(),
                updating: false,
            }),
    {
        SourceBuffer {
            mime_type: mime,
            appended_bytes: 0,
            time_ranges: Vec::new(),
            pending: VecDeque::new(),
            updating: false,
        }
    }

    /// Queues a segment.
    pub fn append_buffer(&mut self, data: Vec<u8>)
        ensures
            final(self)@ == old(self)@.appended(data),
    {
        self.pending.push_back(data);
        self.updating = true;
    }

    /// Processes one queued segment, and tells whether there was one.
    pub fn step(&mut self) -> (r: bool)
        requires
            old(self)@.pending.len() > 0 ==> old(self)@.appended_bytes + old(self)@.pending[0]@.len()
                <= u64::MAX,
        ensures
            r == (old(self)@.pending.len() > 0),
            final(self)@ == old(self)@.stepped(),
    {
        match self.pending.pop_front() {
            Some(d) => {
                self.appended_bytes = self.appended_bytes + d.len() as u64;
                self.updating = self.pending.len() > 0;
                assert(self@.pending =~= old(self)@.pending.drop_first());
                true
            },
            None => {
                self.updating = false;
                false
            },
        }
    }
}

/// A media source with its buffers.
#[derive(Debug, Clone)]
pub struct MediaSource<T> {
    pub ready_state: ReadyState,
    pub source_buffers: Vec<SourceBuffer<T>>,
    pub duration_s: Option<T>,
}

impl<T> Default for MediaSource<T> {
    fn default() -> (r: Self)
        ensures
            r.ready_state == ReadyState::Closed,
            r.source_buffers@.len() == 0,
            r.duration_s is None,
    {
        MediaSource { ready_state: ReadyState::Closed, source_buffers: Vec::new(), duration_s: None }
    }
}

impl<T> MediaSource<T> {
    /// Adds an empty buffer and returns its index.
    pub fn add_source_buffer(&mut self, mime: String) -> (r: usize)
        ensures
            r == old(self).source_buffers@.len(),
            final(self).ready_state == old(self).ready_state,
            final(self).duration_s == old(self).duration_s,
            final(self).source_buffers@.len() == r + 1,
            final(self).source_buffers@.take(r as int) == old(self).source_buffers@,
            final(self).source_buffers@[r as int]@ == (BufferModel::<T> {
                mime_type: mime@,
                appended_bytes: 0,
                time_ranges: Seq::empty(),
                pending: Seq::empty(),
                updating: false,
            }),
    {
        let index: usize = self.source_buffers.len();
        self.source_buffers.push(SourceBuffer::new(mime));
        assert(self.source_buffers@.take(index as int) =~= old(self).source_buffers@);
        index
    }

    pub fn open(&mut self)
        ensures
            final(self).ready_state == ReadyState::Open,
            final(self).source_buffers == old(self).source_buffers,
            final(self).duration_s == old(self).duration_s,
    {
        self.ready_state = ReadyState::Open;
    }

    pub fn end_of_stream(&mut self)
        ensures
            final(self).ready_state == ReadyState::Ended,
            final(self).source_buffers == old(self).source_buffers,
            final(self).duration_s == old(self).duration_s,
    {
        self.ready_state = ReadyState::Ended;
    }
}

proof fn total_bytes_push(segments: Seq<Vec<u8>>, data: Vec<u8>)
    ensures
        total_bytes(segments.push(data)) == total_bytes(segments) + data@.len(),
    decreases segments.len(),
{
    reveal_with_fuel(total_bytes, 2);
    if segments.len() == 0 {
        assert(segments.push(data).drop_first() =~= Seq::<Vec<u8>>::empty());
    } else {
        assert(segments.push(data).drop_first() =~= segments.drop_first().push(data));
        total_bytes_push(segments.drop_first(), data);
    }
}

/// No byte is lost or counted twice: appending adds to what is queued, and a
/// step moves bytes from the queue to the buffer.
pub proof fn bytes_are_conserved<T>(b: BufferModel<T>, data: Vec<u8>)
    ensures
        b.appended(data).appended_bytes == b.appended_bytes,
        total_bytes(b.appended(data).pending) == total_bytes(b.pending) + data@.len(),
        b.stepped().appended_bytes + total_bytes(b.stepped().pending) == b.appended_bytes
            + total_bytes(b.pending),
{
    total_bytes_push(b.pending, data);
}

/// As many steps as there are queued segments empty the queue, take in all its
/// bytes and end the update.
pub proof fn steps_drain_the_queue<T>(b: BufferModel<T>)
    requires
        b.updating ==> b.pending.len() > 0,
    ensures
        b.after_steps(b.pending.len()).pending.len() == 0,
        b.after_steps(b.pending.len()).appended_bytes == b.appended_bytes + total_bytes(b.pending),
        !b.after_steps(b.pending.len()).updating,
    decreases b.pending.len(),
{
    if b.pending.len() > 0 {
        steps_drain_the_queue(b.stepped());
    }
}

/// A buffer is updating exactly while something is queued, if it was so before.
pub proof fn updating_means_queued<T>(b: BufferModel<T>, data: Vec<u8>)
    requires
        b.updating == (b.pending.len() > 0),
    ensures
        b.appended(data).updating == (b.appended(data).pending.len() > 0),
        b.stepped().updating == (b.stepped().pending.len() > 0),
{
}

/// Segments are processed in the order in which they were appended, one at each step.
pub proof fn segments_are_processed_in_order<T>(b: BufferModel<T>, n: nat)
    requires
        n <= b.pending.len(),
    ensures
        b.after_steps(n).pending == b.pending.skip(n as int),
        b.after_steps(n).appended_bytes == b.appended_bytes + total_bytes(
            b.pending.take(n as int),
        ),
    decreases n,
{
    if n == 0 {
        assert(b.pending.skip(0) =~= b.pending);
        assert(b.pending.take(0) =~= Seq::<Vec<u8>>::empty());
    } else {
        segments_are_processed_in_order(b.stepped(), (n - 1) as nat);
        assert(b.pending.drop_first().skip(n - 1) =~= b.pending.skip(n as int));
        assert(b.pending.take(n as int).drop_first() =~= b.pending.drop_first().take(n - 1));
    }
}

/// An append waits behind all others and starts an update; neither it nor a step touches
/// the type or the stretches of time.
pub proof fn appends_wait_their_turn<T>(b: BufferModel<T>, data: Vec<u8>)
    ensures
        b.appended(data).updating,
        b.appended(data).pending.len() == b.pending.len() + 1,
        b.appended(data).pending.last() == data,
        b.appended(data).pending.drop_last() == b.pending,
        b.appended(data).mime_type == b.mime_type,
        b.appended(data).time_ranges == b.time_ranges,
        b.stepped().mime_type == b.mime_type,
        b.stepped().time_ranges == b.time_ranges,
{
    assert(b.appended(data).pending.drop_last() =~= b.pending);
}

} // verus!
