//! The state machine that `<video>` and `<audio>` elements share.
//!
//! Holds the ready state, the network state, the clock and the playback flags,
//! and queues the events that an element fires. Times and factors are of any
//! type: the caller computes with them, and tells whether the clock has reached
//! the end.
use vstd::prelude::*;

verus! {

/// How much of a resource is known, from least to most.
#[derive(Debug, Clone, Copy, PartialEq, Eq, PartialOrd, Ord, Structural)]
pub enum ReadyState {
    /// Nothing.
    HaveNothing,
    /// Duration and dimensions.
    HaveMetadata,
    /// The frame at the current time.
    HaveCurrentData,
    /// At least one frame behind it.
    HaveFutureData,
    /// Enough to play without running out.
    HaveEnoughData,
}

impl ReadyState {
    /// The number that scripts see.
    pub open spec fn rank(self) -> int {
        match self {
            ReadyState::HaveNothing => 0,
            ReadyState::HaveMetadata => 1,
            ReadyState::HaveCurrentData => 2,
            ReadyState::HaveFutureData => 3,
            ReadyState::HaveEnoughData => 4,
        }
    }

    /// The number that scripts see.
    pub fn level(self) -> (r: u8)
        ensures
            r == self.rank(),
    {
        match self {
            ReadyState::HaveNothing => 0,
            ReadyState::HaveMetadata => 1,
            ReadyState::HaveCurrentData => 2,
            ReadyState::HaveFutureData => 3,
            ReadyState::HaveEnoughData => 4,
        }
    }
}

/// What an element does on the network.
#[derive(Debug, Clone, Copy, PartialEq, Eq, Structural)]
pub enum NetworkState {
    Empty,
    Idle,
    Loading,
    NoSource,
}

/// Events that an element fires.
#[derive(Debug, Clone, PartialEq, Eq)]
pub enum MediaEvent {
    LoadStart,
    LoadedMetadata,
    LoadedData,
    CanPlay,
    CanPlayThrough,
    Play,
    Playing,
    Pause,
    TimeUpdate,
    Ended,
    Error(String),
    Stalled,
    Waiting,
    Seeking,
    Seeked,
}

/// A media element.
#[derive(Debug)]
pub struct MediaElement<T, V> {
    pub ready_state: ReadyState,
    pub network_state: NetworkState,
    pub current_time_s: T,
    pub duration_s: T,
    pub paused: bool,
    pub muted: bool,
    pub volume: V,
    pub playback_rate: V,
    pub loop_: bool,
    pub ended: bool,
    pub error: Option<String>,
    /// Events that have not been handed out.
    pub pending: Vec<MediaEvent>,
}

/// The state of an element and the events that it has queued.
#[verifier::ext_equal]
pub struct ElementState<T, V> {
    pub ready_state: ReadyState,
    pub network_state: NetworkState,
    pub current_time_s: T,
    pub duration_s: T,
    pub paused: bool,
    pub muted: bool,
    pub volume: V,
    pub playback_rate: V,
    pub loop_: bool,
    pub ended: bool,
    pub error: Option<String>,
    pub pending: Seq<MediaEvent>,
}

impl<T, V> View for MediaElement<T, V> {
    type V = ElementState<T, V>;

    open spec fn view(&self) -> ElementState<T, V> {
        ElementState {
            ready_state: self.ready_state,
            network_state: self.network_state,
            current_time_s: self.current_time_s,
            duration_s: self.duration_s,
            paused: self.paused,
            muted: self.muted,
            volume: self.volume,
            playback_rate: self.playback_rate,
            loop_: self.loop_,
            ended: self.ended,
            error: self.error,
            pending: self.pending@,
        }
    }
}

impl<T, V> ElementState<T, V> {
    /// A fresh element: paused, and without a resource.
    pub open spec fn fresh(zero: T, unknown: T, one: V) -> ElementState<T, V> {
        ElementState {
            ready_state: ReadyState::HaveNothing,
            network_state: NetworkState::Empty,
            current_time_s: zero,
            duration_s: unknown,
            paused: true,
            muted: false,
            volume: one,
            playback_rate: one,
            loop_: false,
            ended: false,
            error: None,
            pending: Seq::empty(),
        }
    }

    /// With an event queued.
    pub open spec fn fired(self, event: MediaEvent) -> ElementState<T, V> {
        ElementState { pending: self.pending.push(event), ..self }
    }

    /// Loading of a resource has begun.
    pub open spec fn loading(self, zero: T) -> ElementState<T, V> {
        ElementState {
            network_state: NetworkState::Loading,
            ready_state: ReadyState::HaveNothing,
            current_time_s: zero,
            ended: false,
            error: None,
            ..self
        }.fired(MediaEvent::LoadStart)
    }

    /// Duration and dimensions are known.
    pub open spec fn with_metadata(self, duration: T) -> ElementState<T, V> {
        ElementState { ready_state: ReadyState::HaveMetadata, duration_s: duration, ..self }.fired(
            MediaEvent::LoadedMetadata,
        )
    }

    /// The first frame has been decoded.
    pub open spec fn with_first_frame(self) -> ElementState<T, V> {
        if self.ready_state.rank() < ReadyState::HaveCurrentData.rank() {
            ElementState { ready_state: ReadyState::HaveCurrentData, ..self }.fired(
                MediaEvent::LoadedData,
            )
        } else {
            self
        }
    }

    /// Enough is buffered to play through.
    pub open spec fn with_enough_data(self) -> ElementState<T, V> {
        let idle = ElementState { network_state: NetworkState::Idle, ..self };
        if self.ready_state.rank() < ReadyState::HaveEnoughData.rank() {
            ElementState { ready_state: ReadyState::HaveEnoughData, ..idle }.fired(
                MediaEvent::CanPlay,
            ).fired(MediaEvent::CanPlayThrough)
        } else {
            idle
        }
    }

    /// Playback has been asked for.
    pub open spec fn playing(self) -> ElementState<T, V> {
        if self.paused {
            ElementState { paused: false, ended: false, ..self }.fired(MediaEvent::Play).fired(
                if self.ready_state.rank() >= ReadyState::HaveFutureData.rank() {
                    MediaEvent::Playing
                } else {
                    MediaEvent::Waiting
                },
            )
        } else {
            self
        }
    }

    /// A pause has been asked for.
    pub open spec fn pausing(self) -> ElementState<T, V> {
        if self.paused {
            self
        } else {
            ElementState { paused: true, ..self }.fired(MediaEvent::Pause)
        }
    }

    /// Time has passed: the clock stands at `now`, and `at_end` tells whether it
    /// has reached the end. Then it goes back to zero, or stops there.
    pub open spec fn ticked(self, now: T, at_end: bool, zero: T) -> ElementState<T, V> {
        if self.paused || self.ended {
            self
        } else if !at_end {
            ElementState { current_time_s: now, ..self }.fired(MediaEvent::TimeUpdate)
        } else if self.loop_ {
            ElementState { current_time_s: zero, ..self }.fired(MediaEvent::TimeUpdate).fired(
                MediaEvent::Seeked,
            )
        } else {
            ElementState {
                current_time_s: self.duration_s,
                ended: true,
                paused: true,
                ..self.fired(MediaEvent::TimeUpdate)
            }.fired(MediaEvent::Ended)
        }
    }

    /// The clock has been set.
    pub open spec fn sought(self, to: T) -> ElementState<T, V> {
        ElementState { current_time_s: to, ended: false, ..self.fired(MediaEvent::Seeking) }.fired(
            MediaEvent::Seeked,
        )
    }
}

impl<T: Copy, V: Copy> MediaElement<T, V> {
    /// A fresh element, where `unknown` stands for an unknown duration.
    pub fn new(zero: T, unknown: T, one: V) -> (r: Self)
        ensures
            r@ == ElementState::fresh(zero, unknown, one),
    {
        MediaElement {
            ready_state: ReadyState::HaveNothing,
            network_state: NetworkState::Empty,
            current_time_s: zero,
            duration_s: unknown,
            paused: true,
            muted: false,
            volume: one,
            playback_rate: one,
            loop_: false,
            ended: false,
            error: None,
            pending: Vec::new(),
        }
    }

    /// Begins to load a resource.
    pub fn load(&mut self, zero: T)
        ensures
            final(self)@ == old(self)@.loading(zero),
    {
        self.network_state = NetworkState::Loading;
        self.ready_state = ReadyState::HaveNothing;
        self.current_time_s = zero;
        self.ended = false;
        self.error = None;
        self.pending.push(MediaEvent::LoadStart);
    }

    /// Duration and dimensions have been decoded.
    pub fn on_metadata(&mut self, duration_s: T)
        ensures
            final(self)@ == old(self)@.with_metadata(duration_s),
    {
        self.duration_s = duration_s;
        self.ready_state = ReadyState::HaveMetadata;
        self.pending.push(MediaEvent::LoadedMetadata);
    }

    /// The first frame has been decoded.
    pub fn on_first_frame(&mut self)
        ensures
            final(self)@ == old(self)@.with_first_frame(),
    {
        if self.ready_state.level() < ReadyState::HaveCurrentData.level() {
            self.ready_state = ReadyState::HaveCurrentData;
            self.pending.push(MediaEvent::LoadedData);
        }
    }

    /// Enough is buffered to keep playing.
    pub fn on_can_play_through(&mut self)
        ensures
            final(self)@ == old(self)@.with_enough_data(),
    {
        if self.ready_state.level() < ReadyState::HaveEnoughData.level() {
            self.ready_state = ReadyState::HaveEnoughData;
            self.pending.push(MediaEvent::CanPlay);
            self.pending.push(MediaEvent::CanPlayThrough);
        }
        self.network_state = NetworkState::Idle;
    }

    pub fn play(&mut self)
        ensures
            final(self)@ == old(self)@.playing(),
    {
        if self.paused {
            self.paused = false;
            self.ended = false;
            self.pending.push(MediaEvent::Play);
            if self.ready_state.level() >= ReadyState::HaveFutureData.level() {
                self.pending.push(MediaEvent::Playing);
            } else {
                self.pending.push(MediaEvent::Waiting);
            }
        }
    }

    pub fn pause(&mut self)
        ensures
            final(self)@ == old(self)@.pausing(),
    {
        if !self.paused {
            self.paused = true;
            self.pending.push(MediaEvent::Pause);
        }
    }

    /// Lets time pass. `now` is the clock moved on by the time passed; `at_end`
    /// tells whether the duration is known and the clock has reached it.
    pub fn tick(&mut self, now: T, at_end: bool, zero: T)
        ensures
            final(self)@ == old(self)@.ticked(now, at_end, zero),
    {
        if self.paused || self.ended {
            return;
        }
        self.current_time_s = now;
        self.pending.push(MediaEvent::TimeUpdate);
        if at_end {
            if self.loop_ {
                self.current_time_s = zero;
                self.pending.push(MediaEvent::Seeked);
            } else {
                self.current_time_s = self.duration_s;
                self.ended = true;
                self.paused = true;
                self.pending.push(MediaEvent::Ended);
            }
        }
    }

    /// Sets the clock, to a time that the caller has limited to the range of the
    /// resource.
    pub fn seek(&mut self, to: T)
        ensures
            final(self)@ == old(self)@.sought(to),
    {
        self.pending.push(MediaEvent::Seeking);
        self.current_time_s = to;
        self.ended = false;
        self.pending.push(MediaEvent::Seeked);
    }

    pub fn raise_error(&mut self, msg: &str)
        ensures
            final(self)@.error matches Some(e) && e@ == msg@,
            final(self)@ == (ElementState {
                error: final(self)@.error,
                network_state: NetworkState::NoSource,
                ..old(self)@
            }).fired(MediaEvent::Error(final(self)@.error->0)),
    {
        let text: String = msg.to_owned();
        let copy: String = text.clone();
        self.error = Some(text);
        self.network_state = NetworkState::NoSource;
        self.pending.push(MediaEvent::Error(copy));
    }

    /// Hands out the queued events.
    pub fn drain_events(&mut self) -> (r: Vec<MediaEvent>)
        ensures
            r@ == old(self)@.pending,
            final(self)@ == (ElementState { pending: Seq::empty(), ..old(self)@ }),
    {
        let mut out: Vec<MediaEvent> = Vec::new();
        std::mem::swap(&mut out, &mut self.pending);
        out
    }
}

/// An element that has ended is paused.
pub open spec fn consistent<T, V>(s: ElementState<T, V>) -> bool {
    s.ended ==> s.paused
}

/// A fresh element is consistent, and every operation keeps it so.
pub proof fn ended_elements_are_paused<T, V>(
    s: ElementState<T, V>,
    zero: T,
    time: T,
    one: V,
    at_end: bool,
)
    requires
        consistent(s),
    ensures
        consistent(ElementState::fresh(zero, time, one)),
        consistent(s.loading(zero)),
        consistent(s.with_metadata(time)),
        consistent(s.with_first_frame()),
        consistent(s.with_enough_data()),
        consistent(s.playing()),
        consistent(s.pausing()),
        consistent(s.ticked(time, at_end, zero)),
        consistent(s.sought(time)),
{
}

/// Decoding progress never lowers the ready state of an element whose metadata
/// are known.
pub proof fn decoding_raises_the_ready_state<T, V>(s: ElementState<T, V>)
    ensures
        s.with_first_frame().ready_state.rank() >= s.ready_state.rank(),
        s.with_enough_data().ready_state.rank() >= s.ready_state.rank(),
        s.with_first_frame().ready_state.rank() >= 2,
        s.with_enough_data().ready_state.rank() == 4,
        s.with_first_frame().with_first_frame() == s.with_first_frame(),
        s.with_enough_data().with_enough_data() == s.with_enough_data(),
{
}

/// Loading, metadata, first frame and a full buffer fire their events in this
/// order, and lead an element to where it can play through.
pub proof fn loading_fires_events_in_order<T, V>(s: ElementState<T, V>, zero: T, duration: T)
    ensures
        s.loading(zero).with_metadata(duration).with_first_frame().with_enough_data().pending == s.pending
            + seq![
            MediaEvent::LoadStart,
            MediaEvent::LoadedMetadata,
            MediaEvent::LoadedData,
            MediaEvent::CanPlay,
            MediaEvent::CanPlayThrough,
        ],
        s.loading(zero).with_metadata(duration).with_first_frame().with_enough_data().ready_state
            == ReadyState::HaveEnoughData,
{
    assert(s.loading(zero).with_metadata(duration).with_first_frame().with_enough_data().pending =~= s.pending
        + seq![
        MediaEvent::LoadStart,
        MediaEvent::LoadedMetadata,
        MediaEvent::LoadedData,
        MediaEvent::CanPlay,
        MediaEvent::CanPlayThrough,
    ]);
}

/// Playing twice is playing once, and so is pausing; a pause stops the clock.
pub proof fn play_and_pause_are_idempotent<T, V>(
    s: ElementState<T, V>,
    now: T,
    at_end: bool,
    zero: T,
)
    ensures
        s.playing().playing() == s.playing(),
        s.pausing().pausing() == s.pausing(),
        s.pausing().ticked(now, at_end, zero) == s.pausing(),
{
}

/// A looping element never ends.
pub proof fn looping_elements_do_not_end<T, V>(
    s: ElementState<T, V>,
    now: T,
    at_end: bool,
    zero: T,
)
    requires
        s.loop_,
        !s.ended,
    ensures
        !s.ticked(now, at_end, zero).ended,
        s.ticked(now, at_end, zero).paused == s.paused,
{
}

/// Everything but the clock, the ready and network states, the end and the error: what
/// only the page sets.
pub open spec fn same_settings<T, V>(s: ElementState<T, V>, t: ElementState<T, V>) -> bool {
    &&& s.muted == t.muted
    &&& s.volume == t.volume
    &&& s.playback_rate == t.playback_rate
    &&& s.loop_ == t.loop_
}

/// The events of `s` come first among those of `t`.
pub open spec fn more_events<T, V>(s: ElementState<T, V>, t: ElementState<T, V>) -> bool {
    s.pending.len() <= t.pending.len() && t.pending.take(s.pending.len() as int) == s.pending
}

/// No operation changes what only the page sets, and none loses an event.
pub proof fn settings_and_events_are_kept<T, V>(
    s: ElementState<T, V>,
    t: ElementState<T, V>,
    time: T,
    at_end: bool,
    zero: T,
)
    requires
        t == s.loading(zero) || t == s.with_metadata(time) || t == s.with_first_frame() || t
            == s.with_enough_data() || t == s.playing() || t == s.pausing() || t == s.ticked(
            time,
            at_end,
            zero,
        ) || t == s.sought(time),
    ensures
        same_settings(s, t),
        more_events(s, t),
{
    assert(t.pending.take(s.pending.len() as int) =~= s.pending);
}

/// The clock and the end are left alone by decoding and by pausing; only metadata set
/// the duration; only loading clears an error.
pub proof fn decoding_leaves_the_clock_alone<T, V>(
    s: ElementState<T, V>,
    t: ElementState<T, V>,
    duration: T,
)
    requires
        t == s.with_metadata(duration) || t == s.with_first_frame() || t == s.with_enough_data()
            || t == s.pausing() || t == s.playing(),
    ensures
        t.current_time_s == s.current_time_s,
        t == s.playing() || t.ended == s.ended,
        t == s.with_metadata(duration) || t.duration_s == s.duration_s,
        t.error == s.error,
        t == s.playing() || t == s.pausing() || t.paused == s.paused,
        t == s.with_enough_data() || t.network_state == s.network_state,
{
}

/// Loading starts afresh: nothing is known, the clock stands at zero, there is no end
/// and no error; the element goes on playing if it played.
pub proof fn loading_starts_afresh<T, V>(s: ElementState<T, V>, zero: T)
    ensures
        s.loading(zero).ready_state == ReadyState::HaveNothing,
        s.loading(zero).network_state == NetworkState::Loading,
        s.loading(zero).current_time_s == zero,
        !s.loading(zero).ended,
        s.loading(zero).error is None,
        s.loading(zero).paused == s.paused,
        s.loading(zero).duration_s == s.duration_s,
{
}

/// Playing an element that is paused fires `Play`, then `Playing` if there is data
/// ahead of the clock and `Waiting` if not; pausing one that plays fires `Pause`. An
/// element that plays already, or is paused already, fires nothing.
pub proof fn play_and_pause_fire_their_events<T, V>(s: ElementState<T, V>)
    ensures
        !s.playing().paused,
        s.pausing().paused,
        s.paused && (s.ready_state == ReadyState::HaveFutureData || s.ready_state
            == ReadyState::HaveEnoughData) ==> s.playing().pending == s.pending + seq![
            MediaEvent::Play,
            MediaEvent::Playing,
        ],
        s.paused && (s.ready_state == ReadyState::HaveNothing || s.ready_state
            == ReadyState::HaveMetadata || s.ready_state == ReadyState::HaveCurrentData)
            ==> s.playing().pending == s.pending + seq![MediaEvent::Play, MediaEvent::Waiting],
        s.paused ==> !s.playing().ended,
        !s.paused ==> s.playing() == s,
        !s.paused ==> s.pausing().pending == s.pending + seq![MediaEvent::Pause],
        s.paused ==> s.pausing() == s,
        s.pausing().ended == s.ended,
{
    assert(s.pending.push(MediaEvent::Play).push(MediaEvent::Playing) =~= s.pending + seq![
        MediaEvent::Play,
        MediaEvent::Playing,
    ]);
    assert(s.pending.push(MediaEvent::Play).push(MediaEvent::Waiting) =~= s.pending + seq![
        MediaEvent::Play,
        MediaEvent::Waiting,
    ]);
    assert(s.pending.push(MediaEvent::Pause) =~= s.pending + seq![MediaEvent::Pause]);
}

/// While an element plays, the clock follows the time. At the end it stops with the
/// clock at the duration, or starts again from zero where it loops.
pub proof fn the_clock_follows_the_time<T, V>(
    s: ElementState<T, V>,
    now: T,
    at_end: bool,
    zero: T,
)
    requires
        !s.paused,
        !s.ended,
    ensures
        !at_end ==> {
            let t = s.ticked(now, at_end, zero);
            t.current_time_s == now && !t.paused && !t.ended && t.pending == s.pending + seq![
                MediaEvent::TimeUpdate,
            ]
        },
        at_end && s.loop_ ==> {
            let t = s.ticked(now, at_end, zero);
            t.current_time_s == zero && !t.paused && !t.ended && t.pending == s.pending + seq![
                MediaEvent::TimeUpdate,
                MediaEvent::Seeked,
            ]
        },
        at_end && !s.loop_ ==> {
            let t = s.ticked(now, at_end, zero);
            t.current_time_s == s.duration_s && t.paused && t.ended && t.pending == s.pending
                + seq![MediaEvent::TimeUpdate, MediaEvent::Ended]
        },
        s.ticked(now, at_end, zero).duration_s == s.duration_s,
        s.ticked(now, at_end, zero).ready_state == s.ready_state,
        s.ticked(now, at_end, zero).network_state == s.network_state,
        s.ticked(now, at_end, zero).error == s.error,
{
    assert(s.pending.push(MediaEvent::TimeUpdate) =~= s.pending + seq![MediaEvent::TimeUpdate]);
    assert(s.pending.push(MediaEvent::TimeUpdate).push(MediaEvent::Seeked) =~= s.pending + seq![
        MediaEvent::TimeUpdate,
        MediaEvent::Seeked,
    ]);
    assert(s.pending.push(MediaEvent::TimeUpdate).push(MediaEvent::Ended) =~= s.pending + seq![
        MediaEvent::TimeUpdate,
        MediaEvent::Ended,
    ]);
}

/// Seeking sets the clock and takes an element back from its end, whether it plays or
/// not, and changes nothing else; it fires `Seeking` and then `Seeked`.
pub proof fn seeking_sets_the_clock<T, V>(s: ElementState<T, V>, to: T)
    ensures
        s.sought(to).current_time_s == to,
        !s.sought(to).ended,
        s.sought(to).paused == s.paused,
        s.sought(to).ready_state == s.ready_state,
        s.sought(to).network_state == s.network_state,
        s.sought(to).duration_s == s.duration_s,
        s.sought(to).error == s.error,
        s.sought(to).pending == s.pending + seq![MediaEvent::Seeking, MediaEvent::Seeked],
{
    assert(s.sought(to).pending =~= s.pending + seq![MediaEvent::Seeking, MediaEvent::Seeked]);
}

} // verus!
