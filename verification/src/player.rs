//! The decisions of the audio pipeline: its transport state (what play,
//! pause, resume, stop, seek and the background threads do to it), the
//! buffer sizes the decode thread works with, and the decode thread's
//! crossfade bookkeeping. The threads, the decoder and the audio device
//! stay with the caller, which reports each event here and carries out what
//! comes back.
use vstd::prelude::*;

use crate::crossfade::{target_fits, CrossfadeMixer, MixerView, CROSSFADE_DURATION_MS};
use crate::text::{chars_of, contains_at, has_infix, lowercase, string_of, to_lowercase};
use crate::types::{ErrorKind, PlaybackError, PlaybackState};

verus! {

/// Audio buffered before output starts, in milliseconds.
pub const PREBUFFER_MS: u64 = 500;

/// Seconds of audio the playback ring holds.
pub const RING_SECONDS: u64 = 10;

/// Longest wait of one step of the crossfade drain, in milliseconds.
pub const DRAIN_STEP_MS: u64 = 500;

/// Margin added to the time the buffered frames take to play out, in
/// milliseconds, before a crossfade drain gives up.
pub const DRAIN_MARGIN_MS: u64 = 3000;

/// Free ring space, in frames, that the decode thread waits for before it
/// decodes the next chunk: half the prebuffer, counted in samples.
pub fn chunk_threshold(sample_rate: u32, channels: u16) -> (n: usize)
    requires
        sample_rate * channels * PREBUFFER_MS <= usize::MAX,
    ensures
        n == (sample_rate * channels * PREBUFFER_MS / 1000) / 2,
{
    let sr = sample_rate as usize;
    let ch = channels as usize;
    proof {
        assert(sr * ch * 500 == sample_rate * channels * PREBUFFER_MS);
    }
    (sr * ch * (PREBUFFER_MS as usize) / 1000) / 2
}

/// Samples the ring must have room for before playback starts: the frames of
/// the prebuffer, times the channels.
pub fn prebuffer_samples(sample_rate: u32, channels: u16) -> (n: usize)
    requires
        (sample_rate * PREBUFFER_MS / 1000) * channels <= usize::MAX,
    ensures
        n == (sample_rate * PREBUFFER_MS / 1000) * channels,
{
    let frames: u64 = sample_rate as u64 * PREBUFFER_MS / 1000;
    assert(frames <= usize::MAX) by (nonlinear_arith)
        requires
            frames * channels <= usize::MAX,
            frames <= 0xFFFF_FFFFu64 / 2,
            usize::MAX >= 0xFFFF_FFFFu64,
    ;
    (frames as usize) * (channels as usize)
}

/// The frame a seek to `seek_ms` lands on.
pub fn seek_frame(seek_ms: u64, sample_rate: u32) -> (f: u64)
    requires
        seek_ms * sample_rate <= u64::MAX,
    ensures
        f == seek_ms * sample_rate / 1000,
{
    seek_ms * sample_rate as u64 / 1000
}

/// The play position the decode thread reads off the frames it has written:
/// whole seconds, in milliseconds.
pub fn written_position_ms(frames_written: u64, sample_rate: u32) -> (ms: u64)
    requires
        sample_rate > 0,
        position_of(frames_written, sample_rate) <= u64::MAX,
    ensures
        ms == position_of(frames_written, sample_rate),
{
    (frames_written / sample_rate as u64) * 1000
}

/// How long a crossfade waits for the ring to drain: the time the buffered
/// frames take to play, plus a margin.
pub fn drain_budget_ms(available_frames: usize, sample_rate: u32) -> (ms: u64)
    requires
        sample_rate > 0,
        available_frames * 1000 <= u64::MAX,
        (available_frames * 1000) / (sample_rate as int) + DRAIN_MARGIN_MS <= u64::MAX,
    ensures
        ms == (available_frames * 1000) / (sample_rate as int) + DRAIN_MARGIN_MS,
{
    (available_frames as u64 * 1000) / sample_rate as u64 + DRAIN_MARGIN_MS
}

/// One step of the wait for the ring to drain after a crossfade.
#[derive(Debug, Clone, Copy, PartialEq, Eq, Structural)]
pub enum DrainStep {
    /// Every buffered frame has been played.
    Drained,
    /// The user moved the player on (it is neither playing nor paused).
    Aborted,
    /// The drain budget is spent.
    TimedOut,
    /// Wait this many milliseconds, then look again.
    Wait(u64),
}

pub open spec fn spec_drain_step(
    available: usize,
    state: PlaybackState,
    now_ms: u64,
    deadline_ms: u64,
) -> DrainStep {
    if available == 0 {
        DrainStep::Drained
    } else if state != PlaybackState::Playing && state != PlaybackState::Paused {
        DrainStep::Aborted
    } else if now_ms >= deadline_ms {
        DrainStep::TimedOut
    } else if deadline_ms - now_ms <= DRAIN_STEP_MS {
        DrainStep::Wait((deadline_ms - now_ms) as u64)
    } else {
        DrainStep::Wait(DRAIN_STEP_MS)
    }
}

/// What the crossfade drain does next: stop once the ring is empty, when
/// the player has been moved on, or when the deadline has passed; else wait
/// for the rest of the budget, at most half a second.
pub fn drain_step(available: usize, state: PlaybackState, now_ms: u64, deadline_ms: u64) -> (s:
    DrainStep)
    ensures
        s == spec_drain_step(available, state, now_ms, deadline_ms),
{
    if available == 0 {
        DrainStep::Drained
    } else if state != PlaybackState::Playing && state != PlaybackState::Paused {
        DrainStep::Aborted
    } else if now_ms >= deadline_ms {
        DrainStep::TimedOut
    } else if deadline_ms - now_ms <= DRAIN_STEP_MS {
        DrainStep::Wait(deadline_ms - now_ms)
    } else {
        DrainStep::Wait(DRAIN_STEP_MS)
    }
}

/// The kind of a playback failure, read off its message (case-insensitive).
pub open spec fn spec_classify(msg: Seq<char>) -> ErrorKind {
    let m = lowercase(msg);
    if has_infix(m, "unsupported format"@) {
        ErrorKind::UnknownFormat
    } else if has_infix(m, "prebuffer timeout"@) {
        ErrorKind::Cancelled
    } else if has_infix(m, "no such file"@) || has_infix(m, "not found"@) || has_infix(
        m,
        "permission denied"@,
    ) || has_infix(m, "access is denied"@) {
        ErrorKind::IoError
    } else if has_infix(m, "seek"@) {
        ErrorKind::SeekError
    } else {
        ErrorKind::DecoderError
    }
}

fn contains_str(v: &Vec<char>, p: &str) -> (b: bool)
    ensures
        b == has_infix(v@, p@),
{
    let pv = chars_of(p);
    let r = contains_at(v, 0, v.len(), &pv);
    assert(v@.subrange(0, v@.len() as int) =~= v@);
    r
}

/// Classify a playback failure by its message: an unsupported format, a
/// prebuffer timeout (cancelled), a missing or unreadable file, a failed
/// seek, and anything else a decoder error.
pub fn classify_error(message: &str) -> (k: ErrorKind)
    ensures
        k == spec_classify(message@),
{
    let lower = to_lowercase(message);
    let m = chars_of(lower.as_str());
    if contains_str(&m, "unsupported format") {
        ErrorKind::UnknownFormat
    } else if contains_str(&m, "prebuffer timeout") {
        ErrorKind::Cancelled
    } else if contains_str(&m, "no such file") || contains_str(&m, "not found") || contains_str(
        &m,
        "permission denied",
    ) || contains_str(&m, "access is denied") {
        ErrorKind::IoError
    } else if contains_str(&m, "seek") {
        ErrorKind::SeekError
    } else {
        ErrorKind::DecoderError
    }
}

fn prefixed(prefix: &str, detail: &str) -> (s: String)
    ensures
        s@ == prefix@ + detail@,
{
    let mut v = chars_of(prefix);
    let mut d = chars_of(detail);
    v.append(&mut d);
    string_of(v.as_slice())
}

/// The transport state of the pipeline, as the commands and the background
/// threads see it.
pub struct Transport {
    state: PlaybackState,
    current_file: Option<String>,
    duration_ms: u64,
    crossfade_enabled: bool,
    crossfade_ms: u64,
    crossfade_pending: bool,
    crossfade_channel: bool,
    metadata_rev: u64,
    last_error: Option<PlaybackError>,
}

pub ghost struct TransportView {
    pub state: PlaybackState,
    pub current_file: Option<Seq<char>>,
    pub duration_ms: u64,
    pub crossfade_enabled: bool,
    pub crossfade_ms: u64,
    pub crossfade_pending: bool,
    /// The next track's sample channel is open.
    pub crossfade_channel: bool,
    pub metadata_rev: u64,
    /// Kind, message and track of the last failure.
    pub last_error: Option<(ErrorKind, Seq<char>, Option<Seq<char>>)>,
}

pub open spec fn error_view(e: Option<PlaybackError>) -> Option<
    (ErrorKind, Seq<char>, Option<Seq<char>>),
> {
    match e {
        Some(x) => Some((x.kind, x.message@, crate::paths::opt_view(x.track_path))),
        None => None,
    }
}

impl View for Transport {
    type V = TransportView;

    closed spec fn view(&self) -> TransportView {
        TransportView {
            state: self.state,
            current_file: crate::paths::opt_view(self.current_file),
            duration_ms: self.duration_ms,
            crossfade_enabled: self.crossfade_enabled,
            crossfade_ms: self.crossfade_ms,
            crossfade_pending: self.crossfade_pending,
            crossfade_channel: self.crossfade_channel,
            metadata_rev: self.metadata_rev,
            last_error: error_view(self.last_error),
        }
    }
}

/// The transport after a pause.
pub open spec fn paused_view(t: TransportView) -> TransportView {
    TransportView { state: PlaybackState::Paused, ..t }
}

/// The transport after a resume whose output started.
pub open spec fn resumed_view(t: TransportView) -> TransportView {
    TransportView { state: PlaybackState::Playing, ..t }
}

/// The transport after `stop`: no file, no crossfade under way, stopped.
pub open spec fn stopped_view(t: TransportView) -> TransportView {
    TransportView {
        state: PlaybackState::Stopped,
        current_file: None,
        crossfade_pending: false,
        crossfade_channel: false,
        ..t
    }
}

impl Transport {
    /// A transport with nothing loaded, crossfade on at its default length.
    pub fn new() -> (t: Self)
        ensures
            t@ == (TransportView {
                state: PlaybackState::Idle,
                current_file: None,
                duration_ms: 0,
                crossfade_enabled: true,
                crossfade_ms: CROSSFADE_DURATION_MS,
                crossfade_pending: false,
                crossfade_channel: false,
                metadata_rev: 0,
                last_error: None,
            }),
    {
        Transport {
            state: PlaybackState::Idle,
            current_file: None,
            duration_ms: 0,
            crossfade_enabled: true,
            crossfade_ms: CROSSFADE_DURATION_MS,
            crossfade_pending: false,
            crossfade_channel: false,
            metadata_rev: 0,
            last_error: None,
        }
    }

    pub fn state(&self) -> (s: PlaybackState)
        ensures
            s == self@.state,
    {
        self.state
    }

    pub fn duration_ms(&self) -> (d: u64)
        ensures
            d == self@.duration_ms,
    {
        self.duration_ms
    }

    pub fn current_file(&self) -> (f: Option<String>)
        ensures
            crate::paths::opt_view(f) == self@.current_file,
    {
        self.current_file.clone()
    }

    /// Revision of the song record, bumped each time fresh tags land.
    pub fn metadata_rev(&self) -> (r: u64)
        ensures
            r == self@.metadata_rev,
    {
        self.metadata_rev
    }

    /// The last failure, if any since the last `open`.
    pub fn last_error(&self) -> (e: Option<PlaybackError>)
        ensures
            error_view(e) == self@.last_error,
    {
        match &self.last_error {
            Some(x) => Some(
                PlaybackError {
                    kind: x.kind,
                    message: x.message.clone(),
                    track_path: x.track_path.clone(),
                    timestamp_ms: x.timestamp_ms,
                },
            ),
            None => None,
        }
    }

    /// Forget the last failure.
    pub fn clear_error(&mut self)
        ensures
            final(self)@ == (TransportView { last_error: None, ..old(self)@ }),
    {
        self.last_error = None;
    }

    pub fn crossfade_is_pending(&self) -> (b: bool)
        ensures
            b == self@.crossfade_pending,
    {
        self.crossfade_pending
    }

    pub fn crossfade_clear_pending(&mut self)
        ensures
            final(self)@ == (TransportView { crossfade_pending: false, ..old(self)@ }),
    {
        self.crossfade_pending = false;
    }

    pub fn crossfade_duration_ms(&self) -> (ms: u64)
        ensures
            ms == self@.crossfade_ms,
    {
        self.crossfade_ms
    }

    pub fn crossfade_enabled(&self) -> (b: bool)
        ensures
            b == self@.crossfade_enabled,
    {
        self.crossfade_enabled
    }

    /// Set the crossfade length; 0 turns crossfade off.
    pub fn set_crossfade_duration_ms(&mut self, ms: u64)
        ensures
            final(self)@ == (TransportView {
                crossfade_ms: ms,
                crossfade_enabled: ms > 0,
                ..old(self)@
            }),
    {
        self.crossfade_ms = ms;
        self.crossfade_enabled = ms > 0;
    }

    /// Stop: the caller stops the output and drops the ring; the transport
    /// forgets the file and any crossfade under way.
    pub fn stop(&mut self)
        ensures
            final(self)@ == stopped_view(old(self)@),
    {
        self.current_file = None;
        self.crossfade_pending = false;
        self.crossfade_channel = false;
        self.state = PlaybackState::Stopped;
    }

    /// Open `path` for playback: whatever played is stopped, the last error
    /// is forgotten, and the transport is loading `path`.
    pub fn open(&mut self, path: &str)
        ensures
            final(self)@ == (TransportView {
                state: PlaybackState::Loading,
                current_file: Some(path@),
                crossfade_pending: false,
                crossfade_channel: false,
                last_error: None,
                ..old(self)@
            }),
    {
        self.stop();
        self.clear_error();
        self.state = PlaybackState::Loading;
        self.current_file = Some(path.to_owned());
        self.crossfade_pending = false;
        self.crossfade_channel = false;
    }

    /// Tags read for `path` have arrived: they are kept (and the revision
    /// bumped) only if `path` is still the current file.
    pub fn accept_metadata(&mut self, path: &str) -> (keep: bool)
        ensures
            keep == (old(self)@.current_file == Some(path@)),
            keep ==> final(self)@ == (TransportView {
                metadata_rev: (if old(self)@.metadata_rev == u64::MAX {
                    0
                } else {
                    old(self)@.metadata_rev + 1
                }) as u64,
                ..old(self)@
            }),
            !keep ==> final(self)@ == old(self)@,
    {
        let is_current = match &self.current_file {
            Some(p) => crate::text::str_eq(p.as_str(), path),
            None => false,
        };
        if is_current {
            self.metadata_rev = self.metadata_rev.wrapping_add(1);
        }
        is_current
    }

    /// The decoder of the current file is open and knows its length.
    pub fn set_duration_ms(&mut self, ms: u64)
        ensures
            final(self)@ == (TransportView { duration_ms: ms, ..old(self)@ }),
    {
        self.duration_ms = ms;
    }

    /// Output started after the prebuffer: the transport is playing.
    pub fn playback_started(&mut self)
        ensures
            final(self)@ == (TransportView { state: PlaybackState::Playing, ..old(self)@ }),
    {
        self.state = PlaybackState::Playing;
    }

    /// Record a failure and enter the error state, so that the frontend
    /// logs it and skips on.
    pub fn fail(&mut self, kind: ErrorKind, message: String, track_path: String)
        ensures
            final(self)@ == (TransportView {
                state: PlaybackState::Error,
                last_error: Some((kind, message@, Some(track_path@))),
                ..old(self)@
            }),
    {
        self.last_error = Some(PlaybackError::new(kind, message, Some(track_path)));
        self.state = PlaybackState::Error;
    }

    /// The background start of playback failed with `message`: the failure
    /// is classified by its message.
    pub fn start_failed(&mut self, message: &str, track_path: String)
        ensures
            final(self)@ == (TransportView {
                state: PlaybackState::Error,
                last_error: Some((spec_classify(message@), message@, Some(track_path@))),
                ..old(self)@
            }),
    {
        let kind = classify_error(message);
        self.fail(kind, message.to_owned(), track_path);
    }

    /// The prebuffer did not fill within its time.
    pub fn prebuffer_timed_out(&mut self, track_path: String)
        ensures
            final(self)@ == (TransportView {
                state: PlaybackState::Error,
                last_error: Some(
                    (ErrorKind::Cancelled, "Prebuffer timeout (decoder too slow)"@, Some(track_path@)),
                ),
                ..old(self)@
            }),
    {
        self.fail(ErrorKind::Cancelled, "Prebuffer timeout (decoder too slow)".to_owned(), track_path);
    }

    /// The decoder failed with `detail`, in the normal path or while mixing
    /// a crossfade.
    pub fn decode_failed(&mut self, detail: &str, crossfading: bool, track_path: String)
        ensures
            final(self)@ == (TransportView {
                state: PlaybackState::Error,
                last_error: Some(
                    (
                        ErrorKind::DecoderError,
                        (if crossfading {
                            "Crossfade decode error: "@
                        } else {
                            "Decode error: "@
                        }) + detail@,
                        Some(track_path@),
                    ),
                ),
                ..old(self)@
            }),
    {
        let message = if crossfading {
            prefixed("Crossfade decode error: ", detail)
        } else {
            prefixed("Decode error: ", detail)
        };
        self.fail(ErrorKind::DecoderError, message, track_path);
    }

    /// The loading watchdog: a transport still loading when it fires has
    /// hung, and fails as cancelled. Returns whether it fired.
    pub fn loading_watchdog(&mut self, track_path: String) -> (fired: bool)
        ensures
            fired == (old(self)@.state == PlaybackState::Loading),
            fired ==> final(self)@ == (TransportView {
                state: PlaybackState::Error,
                last_error: Some(
                    (ErrorKind::Cancelled, "Loading timed out (>3s)"@, Some(track_path@)),
                ),
                ..old(self)@
            }),
            !fired ==> final(self)@ == old(self)@,
    {
        if self.state == PlaybackState::Loading {
            self.fail(ErrorKind::Cancelled, "Loading timed out (>3s)".to_owned(), track_path);
            true
        } else {
            false
        }
    }

    /// Pause: only a playing transport pauses. Returns whether it did, in
    /// which case the caller stops the output.
    pub fn pause(&mut self) -> (paused: bool)
        ensures
            paused == (old(self)@.state == PlaybackState::Playing),
            paused ==> final(self)@ == paused_view(old(self)@),
            !paused ==> final(self)@ == old(self)@,
    {
        if self.state == PlaybackState::Playing {
            self.state = PlaybackState::Paused;
            true
        } else {
            false
        }
    }

    /// Whether a resume is to be tried: only a paused transport resumes.
    pub fn can_resume(&self) -> (b: bool)
        ensures
            b == (self@.state == PlaybackState::Paused),
    {
        self.state == PlaybackState::Paused
    }

    /// Resume: a paused transport plays again once its output has started.
    pub fn resume(&mut self, output_started: bool)
        ensures
            (old(self)@.state == PlaybackState::Paused && output_started) ==> final(self)@
                == resumed_view(old(self)@),
            !(old(self)@.state == PlaybackState::Paused && output_started) ==> final(self)@
                == old(self)@,
    {
        if self.state == PlaybackState::Paused && output_started {
            self.state = PlaybackState::Playing;
        }
    }

    /// Seek: the current file is reopened at `position_ms`; with no file
    /// loaded the seek fails.
    pub fn seek(&self, position_ms: u64) -> (r: Result<(String, u64), String>)
        ensures
            match r {
                Ok((p, pos)) => self@.current_file == Some(p@) && pos == position_ms,
                Err(e) => self@.current_file is None && e@ == "no file loaded"@,
            },
    {
        match &self.current_file {
            Some(p) => Ok((p.clone(), position_ms)),
            None => Err("no file loaded".to_owned()),
        }
    }

    /// The next track's decoder is running and its samples flow.
    pub fn crossfade_started(&mut self)
        ensures
            final(self)@ == (TransportView {
                crossfade_pending: true,
                crossfade_channel: true,
                ..old(self)@
            }),
    {
        self.crossfade_channel = true;
        self.crossfade_pending = true;
    }

    /// Whether the next track's sample channel is open.
    pub fn crossfade_channel_open(&self) -> (b: bool)
        ensures
            b == self@.crossfade_channel,
    {
        self.crossfade_channel
    }

    /// The crossfade has mixed out and the ring has drained: the track is
    /// over. The state changes before the pending flag clears, so the
    /// frontend sees the stop while the crossfade still counts as under way.
    pub fn crossfade_finished(&mut self)
        ensures
            final(self)@ == (TransportView {
                state: PlaybackState::Stopped,
                crossfade_pending: false,
                ..old(self)@
            }),
    {
        self.state = PlaybackState::Stopped;
        self.crossfade_pending = false;
    }
}

/// Once stopped, nothing of the old track is left: no file, no crossfade,
/// and a seek fails, whatever the transport held before.
pub proof fn lemma_stop_forgets(t: TransportView)
    ensures
        stopped_view(t).current_file is None,
        !stopped_view(t).crossfade_pending,
        !stopped_view(t).crossfade_channel,
        stopped_view(t).state == PlaybackState::Stopped,
        stopped_view(stopped_view(t)) == stopped_view(t),
{
}

/// A resume undoes a pause: pausing a playing transport and resuming it
/// once the output starts again gives back the transport as it was, file,
/// crossfade and error included.
pub proof fn lemma_pause_resume(t: TransportView)
    requires
        t.state == PlaybackState::Playing,
    ensures
        paused_view(t).state == PlaybackState::Paused,
        resumed_view(paused_view(t)) == t,
{
}

/// The decode thread's view of the track it decodes: how far it has
/// written, and the crossfade into the next track.
pub struct DecodeProgress {
    frames_written: u64,
    sample_rate: u32,
    duration_ms: u64,
    mixer: CrossfadeMixer,
}

pub ghost struct ProgressView {
    pub frames_written: u64,
    pub sample_rate: u32,
    pub duration_ms: u64,
    pub mixer: MixerView,
}

impl View for DecodeProgress {
    type V = ProgressView;

    closed spec fn view(&self) -> ProgressView {
        ProgressView {
            frames_written: self.frames_written,
            sample_rate: self.sample_rate,
            duration_ms: self.duration_ms,
            mixer: self.mixer@,
        }
    }
}

pub open spec fn position_of(frames_written: u64, sample_rate: u32) -> int {
    ((frames_written as int) / (sample_rate as int)) * 1000
}

impl DecodeProgress {
    /// A fresh decode of a track of `duration_ms` at `sample_rate`, with
    /// the crossfade settings snapshotted when it started.
    pub fn new(
        crossfade_enabled: bool,
        crossfade_ms: u64,
        sample_rate: u32,
        channels: u16,
        duration_ms: u64,
    ) -> (d: Self)
        requires
            target_fits(crossfade_enabled, crossfade_ms, sample_rate as u64, channels),
        ensures
            d@.frames_written == 0,
            d@.sample_rate == sample_rate,
            d@.duration_ms == duration_ms,
            d@.mixer == (MixerView {
                enabled: crossfade_enabled,
                duration_ms: crossfade_ms,
                target_samples: crate::crossfade::spec_target(
                    crossfade_enabled,
                    crossfade_ms,
                    sample_rate as u64,
                    channels,
                ) as u64,
                mixed_samples: 0,
                triggered: false,
                active: false,
            }),
    {
        DecodeProgress {
            frames_written: 0,
            sample_rate,
            duration_ms,
            mixer: CrossfadeMixer::new(crossfade_enabled, crossfade_ms, sample_rate as u64, channels),
        }
    }

    pub fn frames_written(&self) -> (n: u64)
        ensures
            n == self@.frames_written,
    {
        self.frames_written
    }

    /// The crossfade state machine.
    pub fn mixer(&self) -> (m: &CrossfadeMixer)
        ensures
            m@ == self@.mixer,
    {
        &self.mixer
    }

    /// Whether the mixing path is active.
    pub fn mixing(&self) -> (b: bool)
        ensures
            b == self@.mixer.active,
    {
        self.mixer.is_active()
    }

    /// A decoded chunk went into the ring, `written` frames of it. Returns
    /// whether the next track's decoder is to be started now: once, when
    /// the written position enters the crossfade window.
    pub fn wrote(&mut self, written: usize) -> (start_next: bool)
        requires
            old(self)@.sample_rate > 0,
            old(self)@.frames_written + written <= u64::MAX,
            position_of((old(self)@.frames_written + written) as u64, old(self)@.sample_rate)
                <= u64::MAX,
        ensures
            final(self)@.frames_written == old(self)@.frames_written + written,
            final(self)@.sample_rate == old(self)@.sample_rate,
            final(self)@.duration_ms == old(self)@.duration_ms,
            start_next == old(self)@.mixer.should_trigger(
                position_of(final(self)@.frames_written, old(self)@.sample_rate) as u64,
                old(self)@.duration_ms,
            ),
            final(self)@.mixer == (MixerView {
                triggered: old(self)@.mixer.triggered || start_next,
                ..old(self)@.mixer
            }),
    {
        self.frames_written = self.frames_written + written as u64;
        let pos = written_position_ms(self.frames_written, self.sample_rate);
        if self.mixer.should_trigger(pos, self.duration_ms) {
            self.mixer.mark_triggered();
            true
        } else {
            false
        }
    }

    /// Switch to the mixing path if the next track's channel is ready and
    /// the crossfade was triggered.
    pub fn channel_ready(&mut self, ready: bool)
        ensures
            final(self)@ == (ProgressView {
                mixer: MixerView {
                    active: old(self)@.mixer.active || (old(self)@.mixer.triggered && ready),
                    ..old(self)@.mixer
                },
                ..old(self)@
            }),
    {
        if self.mixer.should_activate(ready) {
            self.mixer.activate();
        }
    }

    /// A mixed chunk went into the ring, `written` frames of it, taking in
    /// `next_samples` samples of the next track. Returns whether the
    /// crossfade is complete.
    pub fn mixed(&mut self, written: usize, next_samples: usize) -> (complete: bool)
        requires
            old(self)@.frames_written + written <= u64::MAX,
            old(self)@.mixer.mixed_samples + next_samples <= u64::MAX,
        ensures
            final(self)@.frames_written == old(self)@.frames_written + written,
            final(self)@.sample_rate == old(self)@.sample_rate,
            final(self)@.duration_ms == old(self)@.duration_ms,
            final(self)@.mixer == (MixerView {
                mixed_samples: (old(self)@.mixer.mixed_samples + next_samples) as u64,
                ..old(self)@.mixer
            }),
            complete == final(self)@.mixer.is_complete(),
    {
        self.frames_written = self.frames_written + written as u64;
        self.mixer.count_mixed(next_samples);
        self.mixer.is_complete()
    }
}

} // verus!
