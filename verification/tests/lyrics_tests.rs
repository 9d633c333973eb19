use ttplayer::lrc_search::lrc_candidates;
use ttplayer::lyrics_parser::{
    decode_lrc_bytes, lrc_from_bytes, lrc_path_for_audio, lrcfile_to_string, parse_lrc,
    parse_timestamp, strip_word_tags, try_parse_lrc,
};
use ttplayer::lyrics_timing::LyricsEngine;

#[test]
fn test_decode_utf8_with_bom() {
    let content = "[00:01.00]测试歌词\n";
    let mut bytes = vec![0xEF, 0xBB, 0xBF];
    bytes.extend_from_slice(content.as_bytes());
    let decoded = decode_lrc_bytes(&bytes);
    assert_eq!(decoded, content);
}

#[test]
fn test_decode_plain_utf8() {
    let content = "[00:01.00]测试歌词\n";
    let decoded = decode_lrc_bytes(content.as_bytes());
    assert_eq!(decoded, content);
}

#[test]
fn test_decode_gbk() {
    // [ti:测试歌曲] / [00:01.00]第一行歌词 / [00:03.50]第二行歌词 in GBK
    let gbk_bytes: &[u8] = &[
        0x5B, 0x74, 0x69, 0x3A, 0xB2, 0xE2, 0xCA, 0xD4, 0xB8, 0xE8, 0xC7, 0xFA, 0x5D, 0x0A,
        0x5B, 0x30, 0x30, 0x3A, 0x30, 0x31, 0x2E, 0x30, 0x30, 0x5D, 0xB5, 0xDA, 0xD2, 0xBB,
        0xD0, 0xD0, 0xB8, 0xE8, 0xB4, 0xCA, 0x0A,
        0x5B, 0x30, 0x30, 0x3A, 0x30, 0x33, 0x2E, 0x35, 0x30, 0x5D, 0xB5, 0xDA, 0xB6, 0xFE,
        0xD0, 0xD0, 0xB8, 0xE8, 0xB4, 0xCA, 0x0A,
    ];
    let decoded = decode_lrc_bytes(gbk_bytes);
    assert!(decoded.contains("测试歌曲"), "missing title in: {}", decoded);
    assert!(decoded.contains("第一行歌词"), "missing line 1 in: {}", decoded);
    assert!(decoded.contains("第二行歌词"), "missing line 2 in: {}", decoded);
}

#[test]
fn test_search_lrc_files_case_insensitive() {
    let audio = "/tmp/MyCaseInsensitiveTest.mp3";
    let lrc = "/tmp/mycaseinsensitivetest.LRC";
    let entries = vec![
        "/tmp/unrelated.lrc".to_string(),
        lrc.to_string(),
        "/tmp/MyCaseInsensitiveTest.mp3".to_string(),
    ];
    let results = lrc_candidates(audio, false, &entries);
    assert!(
        results.iter().any(|p| p == lrc),
        "expected case-insensitive match to find {:?}, got {:?}",
        lrc,
        results
    );
    assert_eq!(results.len(), 1);
}

#[test]
fn lrc_candidates_put_exact_match_first_and_once() {
    let entries = vec![
        "/music/song (live).lrc".to_string(),
        "/music/song.lrc".to_string(),
        "/music/other.lrc".to_string(),
    ];
    let results = lrc_candidates("/music/song.flac", true, &entries);
    assert_eq!(results, vec!["/music/song.lrc".to_string(), "/music/song (live).lrc".to_string()]);
}

#[test]
fn test_parse_standard_lrc() {
    let lrc = parse_lrc(
        r#"
[ti:Test Song]
[ar:Test Artist]
[offset:+500]
[00:10.50]First line
[00:20.00]Second line
[00:30.00]
[00:40.00]Fourth line
"#,
    );
    assert_eq!(lrc.metadata.title, Some("Test Song".to_string()));
    assert_eq!(lrc.metadata.artist, Some("Test Artist".to_string()));
    assert_eq!(lrc.metadata.offset_ms, 500);
    assert_eq!(lrc.lines.len(), 4);
    assert_eq!(lrc.lines[0].time_ms, 10500);
    assert_eq!(lrc.lines[0].text, "First line");
    assert_eq!(lrc.lines[2].text, ""); // instrumental break
}

#[test]
fn test_parse_enhanced_lrc() {
    let lrc = parse_lrc("[00:10.00]<00:10.00>Hello <00:11.00>world");
    assert_eq!(lrc.lines.len(), 1);
    let words = lrc.lines[0].words.as_ref().unwrap();
    assert_eq!(words.len(), 2);
    assert_eq!(words[0].text, "Hello");
    assert_eq!(words[1].text, "world");
}

#[test]
fn test_parse_multi_timestamp() {
    let lrc = parse_lrc("[00:10.00][00:30.00]Repeated line");
    assert_eq!(lrc.lines.len(), 2);
    assert_eq!(lrc.lines[0].time_ms, 10000);
    assert_eq!(lrc.lines[1].time_ms, 30000);
    assert_eq!(lrc.lines[0].text, "Repeated line");
}

#[test]
fn test_serialize_roundtrip() {
    let original = "[ti:Test Song]\n[ar:Test Artist]\n[offset:500]\n[00:10.50]First line\n[00:20.00]Second line\n";
    let lrc = parse_lrc(original);
    let serialized = lrcfile_to_string(&lrc);
    let reparsed = parse_lrc(&serialized);
    assert_eq!(reparsed.metadata.title, Some("Test Song".to_string()));
    assert_eq!(reparsed.metadata.artist, Some("Test Artist".to_string()));
    assert_eq!(reparsed.metadata.offset_ms, 500);
    assert_eq!(reparsed.lines.len(), 2);
    assert_eq!(reparsed.lines[0].time_ms, 10500);
    assert_eq!(reparsed.lines[0].text, "First line");
}

#[test]
fn test_serialize_no_metadata() {
    let lrc = parse_lrc("[00:01.00]Hello\n[00:02.00]World\n");
    let out = lrcfile_to_string(&lrc);
    assert!(out.starts_with("[00:01.00]Hello"));
}

#[test]
fn test_lrc_path_for_audio() {
    let lrc = lrc_path_for_audio("/music/song.flac").unwrap();
    assert_eq!(std::path::Path::new(&lrc), std::path::Path::new("/music/song.lrc"));
}

#[test]
fn lines_come_out_sorted_by_time() {
    let lrc = parse_lrc("[00:30.00]C\n[00:10.00]A\n[00:20.00]B\n");
    let times: Vec<u32> = lrc.lines.iter().map(|l| l.time_ms).collect();
    assert_eq!(times, vec![10000, 20000, 30000]);
}

#[test]
fn timestamp_forms() {
    assert_eq!(parse_timestamp("01:02.50"), Some(62500));
    assert_eq!(parse_timestamp("01:02"), Some(62000));
    assert_eq!(parse_timestamp("1:02.5"), Some(62500));
    assert_eq!(parse_timestamp("ti:x"), None);
    assert_eq!(strip_word_tags("<00:01.00>Hi <00:02.00>there"), "Hi there");
}

#[test]
fn lrc_bytes_without_timed_lines_give_no_lyrics() {
    assert!(matches!(lrc_from_bytes(b"[ti:Only]\nno time here\n"), Some(None)));
    let some = lrc_from_bytes("[00:01.00]x\n".as_bytes()).unwrap().unwrap();
    assert_eq!(some.lines.len(), 1);
    assert!(try_parse_lrc("[00:01.00]x").is_some());
}

#[test]
fn test_timing_basic() {
    let lrc = parse_lrc("[00:10.00]First\n[00:20.00]Second\n[00:30.00]Third");
    let mut engine = LyricsEngine::new();
    engine.load(lrc);

    // Before first line
    let u = engine.update(5000);
    assert_eq!(u.index, None);

    // At first line
    let u = engine.update(10000);
    assert_eq!(u.index, Some(0));
    assert_eq!(u.text, "First");

    // Between first and second
    let u = engine.update(15000);
    assert_eq!(u.index, Some(0));

    // At second line
    let u = engine.update(20000);
    assert_eq!(u.index, Some(1));
    assert_eq!(u.text, "Second");
    assert!(u.changed);

    // Same line again
    let u = engine.update(25000);
    assert_eq!(u.index, Some(1));
    assert!(!u.changed);
}

#[test]
fn test_timing_with_offset() {
    let lrc = parse_lrc("[offset:+500]\n[00:10.00]Line");
    let mut engine = LyricsEngine::new();
    engine.load(lrc);

    // 9600ms + 500ms offset = 10100ms >= 10000ms
    let u = engine.update(9600);
    assert_eq!(u.index, Some(0));
}

#[test]
fn engine_clear_forgets_lyrics() {
    let mut engine = LyricsEngine::new();
    assert!(!engine.has_lyrics());
    engine.load(parse_lrc("[00:01.00]a\n[00:02.00]b"));
    assert!(engine.has_lyrics());
    assert_eq!(engine.lines().len(), 2);
    assert_eq!(engine.find_line(1500), Some(0));
    assert_eq!(engine.find_line(500), None);
    let back = engine.to_lrcfile();
    assert_eq!(back.lines.len(), 2);
    engine.clear();
    assert!(!engine.has_lyrics());
    assert_eq!(engine.current_index(), None);
    assert_eq!(engine.current_text(), "");
}

#[test]
fn millisecond_times_round_trip() {
    let lrc = parse_lrc("[offset:250]\n[00:10.505]First\n[00:20.50]Second\n[01:02.007]Third\n");
    let mut engine = LyricsEngine::new();
    engine.load(lrc);
    let f = engine.to_lrcfile();
    let text = lrcfile_to_string(&f);
    assert!(text.contains("[00:10.505]First\n"), "{}", text);
    assert!(text.contains("[00:20.50]Second\n"), "{}", text);
    assert!(text.contains("[01:02.007]Third\n"), "{}", text);
    let back = parse_lrc(&text);
    assert_eq!(back.metadata.offset_ms, 250);
    let times: Vec<(u32, String)> = back.lines.iter().map(|l| (l.time_ms, l.text.clone())).collect();
    let orig: Vec<(u32, String)> = engine.lines().iter().map(|l| (l.time_ms, l.text.clone())).collect();
    assert_eq!(times, orig);
    assert_eq!(times[0].0, 10505);
}

#[test]
fn bracketed_text_round_trips() {
    let lrc = parse_lrc("[00:01.00][x]hello\n[00:02.00][Chorus] sing\n");
    let got: Vec<(u32, &str)> = lrc.lines.iter().map(|l| (l.time_ms, l.text.as_str())).collect();
    assert_eq!(got, vec![(1000, "[x]hello"), (2000, "[Chorus] sing")]);
    let text = lrcfile_to_string(&lrc);
    let back = parse_lrc(&text);
    let again: Vec<(u32, &str)> = back.lines.iter().map(|l| (l.time_ms, l.text.as_str())).collect();
    assert_eq!(again, got);
}

#[test]
fn equal_times_keep_source_order() {
    let lrc = parse_lrc("[00:02.00]X\n[00:01.00]Y\n[00:01.00]Z");
    let got: Vec<(u32, &str)> = lrc.lines.iter().map(|l| (l.time_ms, l.text.as_str())).collect();
    assert_eq!(got, vec![(1000, "Y"), (1000, "Z"), (2000, "X")]);
}

#[test]
fn utf8_text_is_kept_with_or_without_bom() {
    let s = "[00:01.00]测试歌词\n";
    assert_eq!(decode_lrc_bytes(s.as_bytes()), s);
    let with_bom = [&[0xEF, 0xBB, 0xBF][..], s.as_bytes()].concat();
    assert_eq!(decode_lrc_bytes(&with_bom), s);
}

#[test]
fn lrc_candidates_hold_no_path_twice() {
    let entries = vec!["/m/song.lrc".to_string(), "/m/song.lrc".to_string(), "/m/Song (live).LRC".to_string()];
    let r = lrc_candidates("/m/song.mp3", true, &entries);
    assert_eq!(r, vec!["/m/song.lrc".to_string(), "/m/Song (live).LRC".to_string()]);
}

#[test]
fn lrc_candidates_without_a_file_name_find_nothing() {
    let entries = vec!["/song.lrc".to_string()];
    assert!(lrc_candidates("", true, &entries).is_empty());
    assert!(lrc_candidates("/", true, &entries).is_empty());
}
