use ttplayer::codecs::{
    track_shape, Ac3DecoderFactory, ApeDecoderFactory, CodecRegistry, ProbeResult, SymphoniaDecoder,
};
use ttplayer::convert::{
    check_bit_depth, convert_result, options_from_dto, output_path, supported_input_extensions,
    tag_updates, wav_header, ConvertOptions, ConvertOptionsDto, OutputFormat,
};
use ttplayer::pcm::{
    ac3_duration_ms, ac3_frame_count, ac3_stream_info, ac3_total_samples, Ac3Error, decode_pcm_le, pcm_full_scale,
    s16le_samples, wants_more_data, Ac3Cursor, ChunkQueue, CHUNK_FRAMES,
};
use ttplayer::types::SongMetadata;

#[test]
fn ape_and_ac3_probe_by_magic_and_extension() {
    let ape = ApeDecoderFactory;
    assert_eq!(ape.probe(b"MAC \x00", "ape"), ProbeResult::Match);
    assert_eq!(ape.probe(b"xxxx", "ape"), ProbeResult::Maybe);
    assert_eq!(ape.probe(b"MAC ", "mp3"), ProbeResult::No);
    let ac3 = Ac3DecoderFactory;
    assert_eq!(ac3.probe(&[0x0B, 0x77, 0], "bin"), ProbeResult::Match);
    assert_eq!(ac3.probe(&[0, 0], "eac3"), ProbeResult::Maybe);
    assert_eq!(ac3.probe(&[0, 0], "mp3"), ProbeResult::No);
    assert_eq!(ape.priority(), 15);
    assert_eq!(ac3.priority(), 12);
    assert_eq!(SymphoniaDecoder.priority(), 10);
}

#[test]
fn registry_prefers_highest_priority_match() {
    let reg = CodecRegistry::with_defaults();
    let d = reg.probe("/x/song.ape", b"MAC \x00\x00").unwrap();
    assert_eq!(d.name(), "ape-decoder");
    let d = reg.probe("/x/song.flac", b"fLaC").unwrap();
    assert_eq!(d.name(), SymphoniaDecoder.name());
    assert!(CodecRegistry::new().probe("/x/song.flac", b"fLaC").is_none());
}

#[test]
fn output_formats_and_paths() {
    assert_eq!(OutputFormat::from_extension("WAV"), Some(OutputFormat::Wav));
    assert_eq!(OutputFormat::from_extension("mp3"), None);
    assert_eq!(OutputFormat::Wav.extension(), "wav");
    assert_eq!(OutputFormat::all(), vec![OutputFormat::Wav]);
    let mut o = ConvertOptions::default();
    assert_eq!(o.bit_depth, 16);
    let p = output_path("/music/a.flac", &o);
    assert_eq!(std::path::Path::new(&p), std::path::Path::new("/music/a.wav"));
    o.output_dir = Some("/out".to_string());
    let p = output_path("/music/a.flac", &o);
    assert_eq!(std::path::Path::new(&p), std::path::Path::new("/out/a.wav"));
    assert_eq!(supported_input_extensions().len(), 15);
    assert_eq!(supported_input_extensions()[0], "mp3");
}

#[test]
fn wav_header_layout() {
    let h = wav_header(100, 2, 44100, 16);
    assert_eq!(h.len(), 44);
    assert_eq!(&h[0..4], b"RIFF");
    assert_eq!(&h[8..16], b"WAVEfmt ");
    // data size = 100 * 2 bytes
    assert_eq!(u32::from_le_bytes([h[40], h[41], h[42], h[43]]), 200);
    // file size field = 36 + data
    assert_eq!(u32::from_le_bytes([h[4], h[5], h[6], h[7]]), 236);
    // byte rate = 44100 * 2 * 2
    assert_eq!(u32::from_le_bytes([h[28], h[29], h[30], h[31]]), 176400);
    assert_eq!(u16::from_le_bytes([h[32], h[33]]), 4);
}

#[test]
fn convert_options_and_results() {
    assert!(check_bit_depth(16).is_ok());
    assert_eq!(check_bit_depth(12), Err("Unsupported bit depth: 12".to_string()));
    let dto = ConvertOptionsDto {
        output_format: "wav".to_string(),
        output_dir: None,
        bit_depth: None,
        preserve_tags: Some(false),
    };
    let o = options_from_dto(dto).unwrap();
    assert_eq!(o.bit_depth, 16);
    assert!(!o.preserve_tags);
    let bad = ConvertOptionsDto {
        output_format: "ogg".to_string(),
        output_dir: None,
        bit_depth: None,
        preserve_tags: None,
    };
    assert!(options_from_dto(bad).is_err());
    let r = convert_result("in.flac", Err("boom".to_string()));
    assert!(!r.success);
    assert_eq!(r.error, Some("boom".to_string()));
    let r = convert_result("in.flac", Ok("out.wav".to_string()));
    assert!(r.success);
    assert_eq!(r.output, "out.wav");
}

#[test]
fn tag_updates_skip_empty_fields() {
    let mut m = SongMetadata::default();
    m.title = "T".to_string();
    m.year = Some(1999);
    let u = tag_updates(&m);
    assert_eq!(u, vec![("title".to_string(), "T".to_string()), ("year".to_string(), "1999".to_string())]);
}

#[test]
fn pcm_bytes_to_samples() {
    assert_eq!(s16le_samples(&[0x01, 0x00, 0xFF, 0xFF, 0x00, 0x80, 0x07]), vec![1, -1, -32768]);
    assert_eq!(decode_pcm_le(&[0xFF, 0xFF, 0xFF, 0x00, 0x00, 0x40], 24), vec![-1, 0x40_0000]);
    assert_eq!(decode_pcm_le(&[0, 0, 0, 0x80], 32), vec![i32::MIN]);
    assert_eq!(decode_pcm_le(&[0x34, 0x12], 8), vec![0x1234]);
    assert_eq!(pcm_full_scale(24), 8388608);
    assert_eq!(pcm_full_scale(16), 32768);
    assert_eq!(pcm_full_scale(32), 2147483648);
}

#[test]
fn ac3_frame_walk() {
    assert_eq!(ac3_frame_count(4, 100), Err("AC-3 file too small (4)".to_string()));
    assert_eq!(ac3_frame_count(1000, 0), Err("zero frame length in syncinfo".to_string()));
    assert_eq!(ac3_frame_count(1000, 300), Ok(3));
    assert_eq!(ac3_total_samples(3), 4608);
    assert_eq!(ac3_duration_ms(3, 48000), 96);
    let mut c = Ac3Cursor::new(1000);
    assert!(!c.at_end());
    assert_eq!(c.take_frame(300), Some((0, 300)));
    assert_eq!(c.take_frame(300), Some((300, 600)));
    assert_eq!(c.take_frame(300), Some((600, 900)));
    assert_eq!(c.take_frame(300), None); // partial frame at the end
    assert_eq!(c.frame_index(), 3);
    assert!(wants_more_data("need more data"));
    assert!(wants_more_data("try again"));
    assert!(!wants_more_data("bad frame"));
}

#[test]
fn ape_chunks_hand_out_whole_frames() {
    let mut q: ChunkQueue<i16> = ChunkQueue::new(2, 2);
    assert!(q.exhausted());
    assert_eq!(q.next_frame_index(), Some(0));
    q.refill(vec![7; CHUNK_FRAMES * 2 + 6]);
    let a = q.take_chunk();
    assert_eq!(a.len(), CHUNK_FRAMES * 2);
    assert_eq!(q.position(), CHUNK_FRAMES as u64);
    let b = q.take_chunk();
    assert_eq!(b.len(), 6);
    assert_eq!(q.position(), CHUNK_FRAMES as u64 + 3);
    assert!(q.exhausted());
    assert_eq!(q.next_frame_index(), Some(1));
    assert_eq!(q.next_frame_index(), None);
    q.seeked(500, 0);
    assert_eq!(q.position(), 500);
    assert_eq!(q.next_frame_index(), Some(0));
}

#[test]
fn ac3_streams_too_short_or_unreadable_are_refused() {
    match ac3_stream_info(&[0x0B, 0x77, 0]) {
        Err(Ac3Error::Refused(m)) => assert_eq!(m, "AC-3 file too small (3)"),
        _ => panic!("short stream accepted"),
    }
    match ac3_stream_info(&[0u8; 16]) {
        Err(Ac3Error::Sync(_)) => {}
        _ => panic!("stream without a syncword accepted"),
    }
}

#[test]
fn output_format_extension_round_trips() {
    for f in OutputFormat::all() {
        assert_eq!(OutputFormat::from_extension(f.extension()), Some(f));
    }
    assert_eq!(OutputFormat::from_extension("Wav"), Some(OutputFormat::Wav));
    assert_eq!(OutputFormat::from_extension("wave"), None);
    assert_eq!(OutputFormat::from_extension(""), None);
}

#[test]
fn track_shape_defaults_and_frame_length() {
    assert_eq!(track_shape(None, None, None), (44100, 2, None));
    assert_eq!(track_shape(Some(48000), Some(6), Some(96000)), (48000, 6, Some(2000)));
    assert_eq!(track_shape(None, Some(1), Some(44100 * 3 + 10)), (44100, 1, Some(3000)));
    assert_eq!(track_shape(Some(44100), Some(2), Some(0)), (44100, 2, None));
    assert_eq!(track_shape(Some(0), Some(2), Some(u64::MAX)), (0, 2, None));
}
