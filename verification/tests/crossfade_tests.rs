use ttplayer::crossfade::{channel_convert, in_crossfade_window, CrossfadeMixer, CROSSFADE_DURATION_MS};
use ttplayer::fade::{FadeKind, FadeProcessor};

#[test]
fn disabled_mixer_never_triggers() {
    let m = CrossfadeMixer::new(false, 3000, 44100, 2);
    assert!(!m.should_trigger(0, 10000));
    assert!(!m.is_active());
    assert!(!m.is_complete());
    assert_eq!(m.target_samples(), 0);
}

#[test]
fn triggers_only_once_inside_window() {
    let mut m = CrossfadeMixer::new(true, 3000, 44100, 2);
    // 10s track, crossfade 3s → window opens at 7s
    assert!(!m.should_trigger(6000, 10000));
    assert!(m.should_trigger(7000, 10000));
    m.mark_triggered();
    assert!(!m.should_trigger(9000, 10000)); // already triggered
}

#[test]
fn target_samples_is_frames_times_channels() {
    let m = CrossfadeMixer::new(true, 1000, 44100, 2);
    // 1s × 44100 × 2ch = 88200 samples
    assert_eq!(m.target_samples(), 88200);
}

#[test]
fn mix_counts_only_next_track_samples() {
    let mut m = CrossfadeMixer::new(true, 1000, 44100, 1);
    m.count_mixed(0);
    assert_eq!(m.mixed_samples(), 0);
    m.count_mixed(4);
    assert_eq!(m.mixed_samples(), 4);
}

#[test]
fn mixer_completes_once_target_mixed_while_active() {
    let mut m = CrossfadeMixer::new(true, 1000, 44100, 1);
    m.count_mixed(44100);
    // not active yet: never complete
    assert!(!m.is_complete());
    m.activate();
    assert!(m.is_complete());
}

#[test]
fn mixer_activates_only_after_trigger_and_ready_channel() {
    let mut m = CrossfadeMixer::new(true, 3000, 44100, 2);
    assert!(!m.should_activate(true));
    m.mark_triggered();
    assert!(!m.should_activate(false));
    assert!(m.should_activate(true));
    m.activate();
    assert!(!m.should_activate(true));
    assert!(m.is_active());
}

#[test]
fn crossfade_window_edges() {
    assert!(!in_crossfade_window(0, 0, 3000));
    assert!(in_crossfade_window(1000, 2000, 3000)); // track shorter than fade
    assert!(in_crossfade_window(7000, 10000, 3000));
    assert!(!in_crossfade_window(6999, 10000, 3000));
    assert_eq!(CROSSFADE_DURATION_MS, 3000);
}

#[test]
fn channel_convert_mono_to_stereo_and_down() {
    let up = channel_convert(&[1i32, 2, 3], 1, 2, 0);
    assert_eq!(up, vec![1, 1, 2, 2, 3, 3]);
    let same = channel_convert(&[1i32, 2, 3, 4], 2, 2, 0);
    assert_eq!(same, vec![1, 2, 3, 4]);
}

#[test]
fn fade_in_then_runs_out() {
    let mut f = FadeProcessor::new();
    assert!(!f.fading());
    f.fade_in(Some(50));
    assert!(f.fading());
    let st = f.state().unwrap();
    assert_eq!(st.kind, FadeKind::FadeIn);
    // 50 ms at 44.1 kHz stereo
    assert_eq!(st.total, 4410);
    f.advance(2000, 2);
    assert!(f.fading());
    f.advance(205, 2);
    assert!(!f.fading());
    f.fade_out(None);
    assert_eq!(f.state().unwrap().kind, FadeKind::FadeOut);
    f.cancel();
    assert!(!f.fading());
}
