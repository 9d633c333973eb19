use ttplayer::player::{
    chunk_threshold, classify_error, drain_budget_ms, drain_step, prebuffer_samples, seek_frame,
    written_position_ms, DecodeProgress, DrainStep, Transport,
};
use ttplayer::ring::SampleRing;
use ttplayer::types::{
    code_to_state, parse_theme_mode, state_to_code, theme_from_file, theme_mode_name, theme_to_file,
    ErrorKind, PlaybackState,
};

#[test]
fn buffer_sizes() {
    assert_eq!(chunk_threshold(44100, 2), 22050);
    assert_eq!(prebuffer_samples(44100, 2), 44100);
    assert_eq!(seek_frame(1500, 48000), 72000);
    assert_eq!(written_position_ms(44100 * 3 + 10, 44100), 3000);
    assert_eq!(drain_budget_ms(44100, 44100), 4000);
}

#[test]
fn drain_steps() {
    assert_eq!(drain_step(0, PlaybackState::Playing, 0, 10), DrainStep::Drained);
    assert_eq!(drain_step(5, PlaybackState::Stopped, 0, 10), DrainStep::Aborted);
    assert_eq!(drain_step(5, PlaybackState::Paused, 10, 10), DrainStep::TimedOut);
    assert_eq!(drain_step(5, PlaybackState::Playing, 0, 200), DrainStep::Wait(200));
    assert_eq!(drain_step(5, PlaybackState::Playing, 0, 2000), DrainStep::Wait(500));
}

#[test]
fn errors_are_classified_by_message() {
    assert_eq!(classify_error("Unsupported Format: x"), ErrorKind::UnknownFormat);
    assert_eq!(classify_error("prebuffer timeout"), ErrorKind::Cancelled);
    assert_eq!(classify_error("No such file or directory"), ErrorKind::IoError);
    assert_eq!(classify_error("Access is denied."), ErrorKind::IoError);
    assert_eq!(classify_error("seek failed"), ErrorKind::SeekError);
    assert_eq!(classify_error("garbage"), ErrorKind::DecoderError);
}

#[test]
fn transport_lifecycle() {
    let mut t = Transport::new();
    assert_eq!(t.state(), PlaybackState::Idle);
    assert_eq!(t.crossfade_duration_ms(), 3000);
    assert!(t.seek(10).is_err());
    t.open("/a.mp3");
    assert_eq!(t.state(), PlaybackState::Loading);
    assert_eq!(t.current_file(), Some("/a.mp3".to_string()));
    assert!(!t.pause()); // only a playing transport pauses
    t.playback_started();
    assert!(t.pause());
    assert_eq!(t.state(), PlaybackState::Paused);
    assert!(t.can_resume());
    t.resume(false);
    assert_eq!(t.state(), PlaybackState::Paused);
    t.resume(true);
    assert_eq!(t.state(), PlaybackState::Playing);
    assert_eq!(t.seek(1234), Ok(("/a.mp3".to_string(), 1234)));
    assert!(!t.loading_watchdog("/a.mp3".to_string()));
    t.stop();
    assert_eq!(t.state(), PlaybackState::Stopped);
    assert_eq!(t.current_file(), None);
}

#[test]
fn transport_failures_and_metadata() {
    let mut t = Transport::new();
    t.open("/a.mp3");
    assert!(t.accept_metadata("/a.mp3"));
    assert_eq!(t.metadata_rev(), 1);
    assert!(!t.accept_metadata("/b.mp3"));
    assert_eq!(t.metadata_rev(), 1);
    assert!(t.loading_watchdog("/a.mp3".to_string()));
    assert_eq!(t.state(), PlaybackState::Error);
    let e = t.last_error().unwrap();
    assert_eq!(e.kind, ErrorKind::Cancelled);
    assert_eq!(e.message, "Loading timed out (>3s)");
    t.open("/b.mp3");
    assert!(t.last_error().is_none());
    t.decode_failed("bad", true, "/b.mp3".to_string());
    assert_eq!(t.last_error().unwrap().message, "Crossfade decode error: bad");
    t.start_failed("unsupported format: \"/c\"", "/c".to_string());
    assert_eq!(t.last_error().unwrap().kind, ErrorKind::UnknownFormat);
    t.prebuffer_timed_out("/c".to_string());
    assert_eq!(t.last_error().unwrap().kind, ErrorKind::Cancelled);
}

#[test]
fn transport_crossfade_flags() {
    let mut t = Transport::new();
    t.set_crossfade_duration_ms(0);
    assert!(!t.crossfade_enabled());
    t.set_crossfade_duration_ms(2000);
    assert!(t.crossfade_enabled());
    t.open("/a.mp3");
    t.playback_started();
    t.crossfade_started();
    assert!(t.crossfade_is_pending());
    assert!(t.crossfade_channel_open());
    t.crossfade_finished();
    assert_eq!(t.state(), PlaybackState::Stopped);
    assert!(!t.crossfade_is_pending());
}

#[test]
fn decode_progress_triggers_once_then_mixes_to_completion() {
    // 10 s track at 100 Hz mono, 3 s crossfade
    let mut p = DecodeProgress::new(true, 3000, 100, 1, 10_000);
    assert!(!p.wrote(600)); // 6 s written
    assert!(p.wrote(100)); // 7 s: window reached
    assert!(!p.wrote(100)); // only once
    p.channel_ready(true);
    assert!(p.mixing());
    assert!(!p.mixed(100, 200));
    assert!(p.mixed(100, 100)); // 300 samples = 3 s mono
    assert_eq!(p.frames_written(), 1000);
}

#[test]
fn state_codes_round_trip() {
    for s in [
        PlaybackState::Idle,
        PlaybackState::Loading,
        PlaybackState::Playing,
        PlaybackState::Paused,
        PlaybackState::Stopped,
        PlaybackState::Error,
    ] {
        assert_eq!(code_to_state(state_to_code(s)), s);
    }
}

#[test]
fn ring_reads_back_what_was_written() {
    let mut r: SampleRing<i32> = SampleRing::new(44100, 2, 4, 0);
    assert_eq!(r.free(), 4);
    let n = r.write(&[1, 2, 3, 4, 5, 6]);
    assert_eq!(n, 3);
    assert_eq!(r.available(), 3);
    let mut out = vec![(0, 0); 5];
    let got = r.read_block(0, &mut out);
    assert_eq!(got, 3);
    assert_eq!(&out[..3], &[(1, 2), (3, 4), (5, 6)]);
    assert_eq!(out[3], (0, 0));
    r.advance_read(2);
    // two frames of room left: 4 - (3 - 2) = 3, and only whole frames of input
    let n = r.write(&[7, 8, 9, 10, 11, 12, 13]);
    assert_eq!(n, 3);
    let mut out = vec![(0, 0); 4];
    assert_eq!(r.read_block(2, &mut out), 4);
    assert_eq!(out, vec![(5, 6), (7, 8), (9, 10), (11, 12)]);
    r.seek_to_frame(100);
    assert_eq!(r.available(), 0);
    assert_eq!(r.read_pos(), 100);
}

#[test]
fn mono_ring_doubles_the_sample() {
    let mut r: SampleRing<i32> = SampleRing::new(8000, 1, 2, 0);
    assert_eq!(r.write(&[5, 6, 7]), 2);
    let mut out = vec![(0, 0); 2];
    r.read_block(0, &mut out);
    assert_eq!(out, vec![(5, 5), (6, 6)]);
}

#[test]
fn theme_names_and_file_round_trip() {
    for code in 0u8..=2 {
        assert_eq!(parse_theme_mode(theme_mode_name(code)), Some(code));
        assert_eq!(theme_from_file(theme_to_file(code)), code);
    }
    assert_eq!(theme_mode_name(7), "system");
    assert_eq!(parse_theme_mode("Light"), None);
    assert_eq!(theme_from_file("  light\n"), 0);
    assert_eq!(theme_from_file("sepia"), 1);
    assert_eq!(theme_to_file(9), "dark");
}
