//! Fade-in and fade-out bookkeeping: which ramp is running, over how many
//! samples, and how far it has come. The ramp gains are real numbers and
//! are applied by the audio path, which reports back what it processed.
use vstd::prelude::*;

verus! {

/// Default fade-in duration: 50 ms, about 2205 samples at 44.1 kHz.
pub const FADE_IN_DURATION_SAMPLES: usize = 2205;

/// Default fade-out duration: 200 ms, about 8820 samples at 44.1 kHz.
pub const FADE_OUT_DURATION_SAMPLES: usize = 8820;

/// Default crossfade duration: 2 s, about 88200 samples at 44.1 kHz.
pub const CROSSFADE_DURATION_SAMPLES: usize = 88200;

#[derive(Debug, Clone, Copy, PartialEq, Eq, Structural)]
pub enum FadeKind {
    Off,
    FadeIn,
    FadeOut,
}

#[derive(Debug, Clone, Copy)]
pub struct FadeState {
    pub kind: FadeKind,
    /// Total samples in this ramp.
    pub total: usize,
    /// Samples already processed.
    pub elapsed: usize,
}

impl FadeState {
    pub fn is_active(&self) -> (b: bool)
        ensures
            b == (self.kind != FadeKind::Off),
    {
        match self.kind {
            FadeKind::Off => false,
            _ => true,
        }
    }
}

/// Handles fade-in and fade-out transitions.
pub struct FadeProcessor {
    /// The current fade (`None` = off).
    state: Option<FadeState>,
    sample_rate: u32,
    channels: u16,
    enabled: bool,
}

pub ghost struct FadeView {
    pub state: Option<(FadeKind, usize, usize)>,
    pub sample_rate: u32,
    pub channels: u16,
    pub enabled: bool,
}

impl View for FadeProcessor {
    type V = FadeView;

    closed spec fn view(&self) -> FadeView {
        FadeView {
            state: match self.state {
                Some(s) => Some((s.kind, s.total, s.elapsed)),
                None => None,
            },
            sample_rate: self.sample_rate,
            channels: self.channels,
            enabled: self.enabled,
        }
    }
}

/// The samples (frames times channels) of a ramp of `ms` milliseconds.
pub open spec fn ramp_samples(sample_rate: u32, channels: u16, ms: u32) -> int {
    (sample_rate * ms / 1000) * channels
}

impl FadeView {
    pub open spec fn fading(self) -> bool {
        self.state matches Some(s) && s.0 != FadeKind::Off
    }
}

impl FadeProcessor {
    pub fn new() -> (p: Self)
        ensures
            p@ == (FadeView { state: None, sample_rate: 44100, channels: 2, enabled: true }),
    {
        FadeProcessor { state: None, sample_rate: 44100, channels: 2, enabled: true }
    }

    /// Start a fade-in of `duration_ms` (50 ms by default).
    pub fn fade_in(&mut self, duration_ms: Option<u32>)
        requires
            ramp_samples(
                old(self)@.sample_rate,
                old(self)@.channels,
                match duration_ms {
                    Some(ms) => ms,
                    None => 50,
                },
            ) <= usize::MAX,
        ensures
            final(self)@ == (FadeView {
                state: Some(
                    (
                        FadeKind::FadeIn,
                        ramp_samples(
                            old(self)@.sample_rate,
                            old(self)@.channels,
                            match duration_ms {
                                Some(ms) => ms,
                                None => 50,
                            },
                        ) as usize,
                        0usize,
                    ),
                ),
                ..old(self)@
            }),
    {
        let ms = match duration_ms {
            Some(ms) => ms,
            None => 50,
        };
        let total = self.ramp_total(ms);
        self.state = Some(FadeState { kind: FadeKind::FadeIn, total, elapsed: 0 });
    }

    /// Start a fade-out of `duration_ms` (200 ms by default).
    pub fn fade_out(&mut self, duration_ms: Option<u32>)
        requires
            ramp_samples(
                old(self)@.sample_rate,
                old(self)@.channels,
                match duration_ms {
                    Some(ms) => ms,
                    None => 200,
                },
            ) <= usize::MAX,
        ensures
            final(self)@ == (FadeView {
                state: Some(
                    (
                        FadeKind::FadeOut,
                        ramp_samples(
                            old(self)@.sample_rate,
                            old(self)@.channels,
                            match duration_ms {
                                Some(ms) => ms,
                                None => 200,
                            },
                        ) as usize,
                        0usize,
                    ),
                ),
                ..old(self)@
            }),
    {
        let ms = match duration_ms {
            Some(ms) => ms,
            None => 200,
        };
        let total = self.ramp_total(ms);
        self.state = Some(FadeState { kind: FadeKind::FadeOut, total, elapsed: 0 });
    }

    fn ramp_total(&self, ms: u32) -> (n: usize)
        requires
            ramp_samples(self@.sample_rate, self@.channels, ms) <= usize::MAX,
        ensures
            n == ramp_samples(self@.sample_rate, self@.channels, ms),
    {
        let sr = self.sample_rate as u64;
        let m = ms as u64;
        assert(sr * m <= 0xFFFF_FFFF * 0xFFFF_FFFFu64) by (nonlinear_arith)
            requires
                sr <= 0xFFFF_FFFF,
                m <= 0xFFFF_FFFF,
        ;
        let frames = sr * m / 1000;
        if self.channels == 0 {
            assert(ramp_samples(self@.sample_rate, self@.channels, ms) == 0) by (nonlinear_arith)
                requires
                    self@.channels == 0,
            ;
            return 0;
        }
        assert(frames <= frames * self.channels) by (nonlinear_arith)
            requires
                self.channels > 0,
        ;
        (frames as usize) * (self.channels as usize)
    }

    /// Whether a fade is in progress.
    pub fn fading(&self) -> (b: bool)
        ensures
            b == self@.fading(),
    {
        match &self.state {
            Some(s) => s.is_active(),
            None => false,
        }
    }

    /// Cancel any fade.
    pub fn cancel(&mut self)
        ensures
            final(self)@ == (FadeView { state: None, ..old(self)@ }),
    {
        self.state = None;
    }

    /// The fade in progress, if any: its kind, length and progress.
    pub fn state(&self) -> (s: Option<FadeState>)
        ensures
            match s {
                Some(x) => self@.state == Some((x.kind, x.total, x.elapsed)),
                None => self@.state is None,
            },
    {
        self.state
    }

    /// Record that the audio path has processed `frames` frames of
    /// `channels` channels under the fade; the fade ends once all its samples
    /// are done.
    pub fn advance(&mut self, frames: usize, channels: usize)
        requires
            old(self)@.state matches Some(s) ==> s.2 + frames * channels <= usize::MAX,
        ensures
            final(self)@.sample_rate == old(self)@.sample_rate,
            final(self)@.channels == old(self)@.channels,
            final(self)@.enabled == old(self)@.enabled,
            match old(self)@.state {
                None => final(self)@.state is None,
                Some(s) => if s.0 == FadeKind::Off {
                    final(self)@.state == old(self)@.state
                } else if s.2 + frames * channels >= s.1 {
                    final(self)@.state is None
                } else {
                    final(self)@.state == Some((s.0, s.1, (s.2 + frames * channels) as usize))
                },
            },
    {
        match self.state {
            None => {},
            Some(st) => {
                if st.is_active() {
                    assert(frames * channels <= usize::MAX) by (nonlinear_arith)
                        requires
                            st.elapsed + frames * channels <= usize::MAX,
                    ;
                    let elapsed = st.elapsed + frames * channels;
                    if elapsed >= st.total {
                        self.state = None;
                    } else {
                        self.state = Some(FadeState { kind: st.kind, total: st.total, elapsed });
                    }
                }
            },
        }
    }

    /// Drop any fade (the processor's reset).
    pub fn reset(&mut self)
        ensures
            final(self)@ == (FadeView { state: None, ..old(self)@ }),
    {
        self.state = None;
    }

    pub fn set_sample_rate(&mut self, rate: u32)
        ensures
            final(self)@ == (FadeView { sample_rate: rate, ..old(self)@ }),
    {
        self.sample_rate = rate;
    }

    pub fn set_channels(&mut self, ch: u16)
        ensures
            final(self)@ == (FadeView { channels: ch, ..old(self)@ }),
    {
        self.channels = ch;
    }

    pub fn enabled(&self) -> (b: bool)
        ensures
            b == self@.enabled,
    {
        self.enabled
    }

    pub fn set_enabled(&mut self, e: bool)
        ensures
            final(self)@ == (FadeView { enabled: e, ..old(self)@ }),
    {
        self.enabled = e;
    }
}

/// A started fade is in progress, a cancelled one is not, and a fade ends as
/// soon as the processed samples reach its length.
pub proof fn lemma_fade_lifecycle(v: FadeView, kind: FadeKind, total: usize, elapsed: usize)
    ensures
        kind != FadeKind::Off ==> (FadeView { state: Some((kind, total, elapsed)), ..v }).fading(),
        !(FadeView { state: None, ..v }).fading(),
{
}

} // verus!
