//! End-of-track crossfade: when to start the next track's decoder, when to
//! switch to mixing, how many samples to mix, and the channel layout
//! conversion of the next track's samples. The gains themselves are real
//! numbers and are applied by the caller.
use vstd::prelude::*;

verus! {

/// Default crossfade duration (ms).
pub const CROSSFADE_DURATION_MS: u64 = 3000;

/// Whether the play position is within the crossfade window at the end of
/// the track: `duration - position <= crossfade` (saturating), never for a
/// zero duration or a zero crossfade.
pub open spec fn spec_in_window(position_ms: u64, duration_ms: u64, crossfade_ms: u64) -> bool {
    duration_ms != 0 && crossfade_ms != 0 && (if duration_ms >= position_ms {
        duration_ms - position_ms
    } else {
        0
    }) <= crossfade_ms
}

/// Check whether we're within the crossfade window of the end of the track.
pub fn in_crossfade_window(position_ms: u64, duration_ms: u64, crossfade_ms: u64) -> (b: bool)
    ensures
        b == spec_in_window(position_ms, duration_ms, crossfade_ms),
{
    if duration_ms == 0 || crossfade_ms == 0 {
        return false;
    }
    let remaining = if duration_ms >= position_ms {
        duration_ms - position_ms
    } else {
        0
    };
    remaining <= crossfade_ms
}

/// The samples (frames times channels) that a crossfade of `duration_ms`
/// mixes: none when disabled or of zero length.
pub open spec fn spec_target(enabled: bool, duration_ms: u64, sample_rate: u64, channels: u16) -> int {
    if enabled && duration_ms > 0 {
        (sample_rate * duration_ms / 1000) * channels
    } else {
        0
    }
}

/// The crossfade's sample count fits in a `u64` (its computation does not
/// overflow).
pub open spec fn target_fits(enabled: bool, duration_ms: u64, sample_rate: u64, channels: u16) -> bool {
    enabled && duration_ms > 0 ==> sample_rate * duration_ms <= u64::MAX && (sample_rate
        * duration_ms / 1000) * channels <= u64::MAX
}

/// Crossfade state machine: trigger the next track's decoder once inside
/// the window, activate mixing once its samples flow, and complete once the
/// target number of samples has been mixed.
pub struct CrossfadeMixer {
    enabled: bool,
    duration_ms: u64,
    target_samples: u64,
    mixed_samples: u64,
    /// Set once the next-track decoder has been launched (no retrigger).
    triggered: bool,
    /// Set once the mixing path is active.
    active: bool,
}

pub ghost struct MixerView {
    pub enabled: bool,
    pub duration_ms: u64,
    pub target_samples: u64,
    pub mixed_samples: u64,
    pub triggered: bool,
    pub active: bool,
}

impl View for CrossfadeMixer {
    type V = MixerView;

    closed spec fn view(&self) -> MixerView {
        MixerView {
            enabled: self.enabled,
            duration_ms: self.duration_ms,
            target_samples: self.target_samples,
            mixed_samples: self.mixed_samples,
            triggered: self.triggered,
            active: self.active,
        }
    }
}

impl MixerView {
    pub open spec fn should_trigger(self, position_ms: u64, track_duration_ms: u64) -> bool {
        self.enabled && !self.triggered && spec_in_window(
            position_ms,
            track_duration_ms,
            self.duration_ms,
        )
    }

    pub open spec fn is_complete(self) -> bool {
        self.active && self.target_samples > 0 && self.mixed_samples >= self.target_samples
    }
}

impl CrossfadeMixer {
    /// A mixer for the current track's sample rate and channel count.
    pub fn new(enabled: bool, duration_ms: u64, sample_rate: u64, channels: u16) -> (m: Self)
        requires
            target_fits(enabled, duration_ms, sample_rate, channels),
        ensures
            m@ == (MixerView {
                enabled,
                duration_ms,
                target_samples: spec_target(enabled, duration_ms, sample_rate, channels) as u64,
                mixed_samples: 0,
                triggered: false,
                active: false,
            }),
    {
        let target_samples = if enabled && duration_ms > 0 {
            (sample_rate * duration_ms / 1000) * channels as u64
        } else {
            0
        };
        CrossfadeMixer {
            enabled,
            duration_ms,
            target_samples,
            mixed_samples: 0,
            triggered: false,
            active: false,
        }
    }

    /// Whether crossfade is enabled at all.
    pub fn enabled(&self) -> (b: bool)
        ensures
            b == self@.enabled,
    {
        self.enabled
    }

    /// Configured crossfade duration in milliseconds.
    pub fn duration_ms(&self) -> (d: u64)
        ensures
            d == self@.duration_ms,
    {
        self.duration_ms
    }

    /// Total samples (frames times channels) to mix before completion.
    pub fn target_samples(&self) -> (n: u64)
        ensures
            n == self@.target_samples,
    {
        self.target_samples
    }

    /// Samples mixed so far.
    pub fn mixed_samples(&self) -> (n: u64)
        ensures
            n == self@.mixed_samples,
    {
        self.mixed_samples
    }

    /// Should the next-track decoder be started now? Only once, when the
    /// play position enters the crossfade window.
    pub fn should_trigger(&self, position_ms: u64, track_duration_ms: u64) -> (b: bool)
        ensures
            b == self@.should_trigger(position_ms, track_duration_ms),
    {
        self.enabled && !self.triggered && in_crossfade_window(
            position_ms,
            track_duration_ms,
            self.duration_ms,
        )
    }

    /// Record that the next-track decoder launch has been attempted.
    pub fn mark_triggered(&mut self)
        ensures
            final(self)@ == (MixerView { triggered: true, ..old(self)@ }),
    {
        self.triggered = true;
    }

    /// Should the decode thread switch to the mixing path, now that the next
    /// track's channel is (or is not) ready?
    pub fn should_activate(&self, next_channel_ready: bool) -> (b: bool)
        ensures
            b == (self@.triggered && !self@.active && next_channel_ready),
    {
        self.triggered && !self.active && next_channel_ready
    }

    /// Activate the mixing path.
    pub fn activate(&mut self)
        ensures
            final(self)@ == (MixerView { active: true, ..old(self)@ }),
    {
        if !self.active {
            self.active = true;
        }
    }

    /// Is the mixing path active?
    pub fn is_active(&self) -> (b: bool)
        ensures
            b == self@.active,
    {
        self.active
    }

    /// Has the crossfade mixed enough samples to stop the decode thread?
    pub fn is_complete(&self) -> (b: bool)
        ensures
            b == self@.is_complete(),
    {
        self.active && self.target_samples > 0 && self.mixed_samples >= self.target_samples
    }

    /// Count the samples of one chunk of the next track that a mix step
    /// takes in (none when the chunk is missing or empty).
    pub fn count_mixed(&mut self, next_samples: usize)
        requires
            old(self)@.mixed_samples + next_samples <= u64::MAX,
        ensures
            final(self)@ == (MixerView {
                mixed_samples: (old(self)@.mixed_samples + next_samples) as u64,
                ..old(self)@
            }),
    {
        if next_samples > 0 {
            self.mixed_samples = self.mixed_samples + next_samples as u64;
        }
    }
}

/// Once the next-track decoder has been launched, the mixer never asks for
/// it again, wherever the play position is.
pub proof fn lemma_triggers_once(m: MixerView, position_ms: u64, track_duration_ms: u64)
    requires
        m.triggered,
    ensures
        !m.should_trigger(position_ms, track_duration_ms),
{
}

/// A crossfade of `duration_ms` at `sample_rate` over `channels` channels
/// mixes the whole frames of that duration on every channel.
pub proof fn lemma_target_frames_times_channels(duration_ms: u64, sample_rate: u64, channels: u16)
    requires
        duration_ms > 0,
    ensures
        spec_target(true, duration_ms, sample_rate, channels) == (sample_rate * duration_ms / 1000)
            * channels,
        spec_target(false, duration_ms, sample_rate, channels) == 0,
{
}

/// A crossfade completes only on the mixing path, only with a target, and
/// once that target is reached.
pub proof fn lemma_complete_needs_active(m: MixerView)
    ensures
        m.is_complete() ==> m.active && m.target_samples > 0 && m.mixed_samples >= m.target_samples,
{
}

/// The sample at `(frame, ch)` after converting from `src_ch` to `dst_ch`
/// channels: the same channel when the source has it, the one channel of a
/// mono source, else silence.
pub open spec fn converted_sample<T>(input: Seq<T>, src_ch: u16, frame: int, ch: int, silence: T) -> T {
    if ch < src_ch {
        input[frame * src_ch + ch]
    } else if src_ch == 1 {
        input[frame * src_ch]
    } else {
        silence
    }
}

/// Interleaved channel conversion (mono to stereo by duplication, more
/// channels to fewer by keeping the first ones, extra channels silent).
/// With equal layouts the samples are copied as they are.
pub fn channel_convert<T: Copy>(interleaved: &[T], src_ch: u16, dst_ch: u16, silence: T) -> (out: Vec<T>)
    requires
        src_ch != dst_ch ==> src_ch > 0,
        src_ch != dst_ch ==> ((interleaved@.len() as int) / (src_ch as int)) * dst_ch <= usize::MAX,
    ensures
        src_ch == dst_ch ==> out@ == interleaved@,
        src_ch != dst_ch ==> {
            let frames = (interleaved@.len() as int) / (src_ch as int);
            &&& out@.len() == frames * dst_ch
            &&& forall|f: int, c: int|
                0 <= f < frames && 0 <= c < dst_ch ==> #[trigger] out@[f * dst_ch + c]
                    == converted_sample(interleaved@, src_ch, f, c, silence)
        },
{
    if src_ch == dst_ch {
        let mut v: Vec<T> = Vec::new();
        let mut i: usize = 0;
        while i < interleaved.len()
            invariant
                i <= interleaved@.len(),
                v@ == interleaved@.take(i as int),
            decreases interleaved@.len() - i,
        {
            v.push(interleaved[i]);
            i = i + 1;
            assert(v@ =~= interleaved@.take(i as int));
        }
        assert(interleaved@.take(i as int) =~= interleaved@);
        return v;
    }
    let sc = src_ch as usize;
    let dc = dst_ch as usize;
    let n = interleaved.len();
    let frames = n / sc;
    let mut out: Vec<T> = Vec::new();
    let mut f: usize = 0;
    while f < frames
        invariant
            sc == src_ch,
            dc == dst_ch,
            sc > 0,
            frames == (interleaved@.len() as int) / (sc as int),
            frames * dc <= usize::MAX,
            n == interleaved@.len(),
            f <= frames,
            out@.len() == f * dc,
            forall|g: int, c: int|
                0 <= g < f && 0 <= c < dc ==> #[trigger] out@[g * dc + c] == converted_sample(
                    interleaved@,
                    src_ch,
                    g,
                    c,
                    silence,
                ),
        decreases frames - f,
    {
        assert(f * sc + sc <= frames * sc) by (nonlinear_arith)
            requires
                f < frames,
        ;
        assert(frames * sc <= interleaved@.len()) by (nonlinear_arith)
            requires
                frames == (interleaved@.len() as int) / (sc as int),
                sc > 0,
        ;
        assert(f * dc + dc <= frames * dc) by (nonlinear_arith)
            requires
                f < frames,
        ;
        let base = f * sc;
        let mut ch: usize = 0;
        while ch < dc
            invariant
                sc == src_ch,
                dc == dst_ch,
                sc > 0,
                f < frames,
                base == f * sc,
                base + sc <= interleaved@.len(),
                n == interleaved@.len(),
                f * dc + dc <= usize::MAX,
                ch <= dc,
                out@.len() == f * dc + ch,
                forall|g: int, c: int|
                    0 <= g < f && 0 <= c < dc ==> #[trigger] out@[g * dc + c] == converted_sample(
                        interleaved@,
                        src_ch,
                        g,
                        c,
                        silence,
                    ),
                forall|c: int|
                    0 <= c < ch ==> #[trigger] out@[f * dc + c] == converted_sample(
                        interleaved@,
                        src_ch,
                        f as int,
                        c,
                        silence,
                    ),
            decreases dc - ch,
        {
            let s = if ch < sc {
                interleaved[base + ch]
            } else if src_ch == 1 {
                interleaved[base]
            } else {
                silence
            };
            let ghost before = out@;
            out.push(s);
            proof {
                assert forall|g: int, c: int| 0 <= g < f && 0 <= c < dc implies #[trigger] out@[g
                    * dc + c] == converted_sample(interleaved@, src_ch, g, c, silence) by {
                    assert(g * dc + c < f * dc) by (nonlinear_arith)
                        requires
                            0 <= g < f,
                            0 <= c < dc,
                    ;
                    assert(out@[g * dc + c] == before[g * dc + c]);
                }
                assert forall|c: int| 0 <= c < ch + 1 implies #[trigger] out@[f * dc + c]
                    == converted_sample(interleaved@, src_ch, f as int, c, silence) by {
                    if c < ch {
                        assert(out@[f * dc + c] == before[f * dc + c]);
                    }
                }
            }
            ch = ch + 1;
        }
        proof {
            assert forall|g: int, c: int| 0 <= g < f + 1 && 0 <= c < dc implies #[trigger] out@[g
                * dc + c] == converted_sample(interleaved@, src_ch, g, c, silence) by {
                if g == f {
                    assert(out@[f * dc + c] == converted_sample(
                        interleaved@,
                        src_ch,
                        f as int,
                        c,
                        silence,
                    ));
                }
            }
            assert(out@.len() == (f + 1) * dc) by (nonlinear_arith)
                requires
                    out@.len() == f * dc + dc,
            ;
        }
        f = f + 1;
    }
    out
}

} // verus!
