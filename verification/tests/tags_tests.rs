use ttplayer::desktop_lyrics::{
    apply_update, check_update, sanitize, trimmed_color, DesktopLyricsSettings, SettingsUpdate,
};
use ttplayer::file_props::{file_properties, format_duration, AudioParams};
use ttplayer::tags::{
    atomic_temp_path, cover_art_uri, metadata_from_tags, tag_edit, tag_edits, Picture, TagEdit,
    TagFields,
};
use ttplayer::types::SongMetadata;

#[test]
fn atomic_temp_path_preserves_extension() {
    let p = atomic_temp_path("/tmp/song.mp3");
    let p = std::path::Path::new(&p);
    assert_eq!(p.file_name().unwrap(), "song.tagtmp.mp3");
    assert_eq!(p.extension().unwrap(), "mp3");

    let p2 = atomic_temp_path("noext");
    assert_eq!(std::path::Path::new(&p2).file_name().unwrap(), "noext.tagtmp");
}

#[test]
fn tag_edits_follow_the_key() {
    assert!(matches!(tag_edit("title", "T"), TagEdit::SetTitle(ref s) if s == "T"));
    assert!(matches!(tag_edit("title", ""), TagEdit::RemoveTitle));
    assert!(matches!(tag_edit("album_artist", ""), TagEdit::InsertAlbumArtist(ref s) if s.is_empty()));
    assert!(matches!(tag_edit("year", "2001"), TagEdit::SetYear(2001)));
    assert!(matches!(tag_edit("year", "20x1"), TagEdit::Ignore));
    assert!(matches!(tag_edit("track", "+7"), TagEdit::SetTrack(7)));
    assert!(matches!(tag_edit("comment", ""), TagEdit::RemoveComment));
    assert!(matches!(tag_edit("composer", "x"), TagEdit::Ignore));
    let all = tag_edits(&[("genre".to_string(), "Rock".to_string()), ("x".to_string(), String::new())]);
    assert_eq!(all.len(), 2);
    assert!(matches!(all[0], TagEdit::SetGenre(ref s) if s == "Rock"));
    assert!(matches!(all[1], TagEdit::Ignore));
}

fn fields() -> TagFields {
    TagFields {
        title: Some("T".to_string()),
        artist: None,
        album: Some("A".to_string()),
        album_artist: None,
        year: Some(1999),
        track: None,
        genre: None,
        comment: None,
        duration_ms: 1234,
        bit_rate: Some(320),
        sample_rate: Some(44100),
        channels: Some(2),
        bit_depth: Some(16),
        picture: Some(Picture { mime_type: Some("image/png".to_string()), data: b"hi".to_vec() }),
    }
}

#[test]
fn tags_become_song_record() {
    let m = metadata_from_tags(fields());
    assert_eq!(m.title, "T");
    assert_eq!(m.artist, "");
    assert_eq!(m.duration_ms, Some(1234));
    assert_eq!(m.channels, Some(2));
    assert_eq!(m.cover_art, Some("data:image/png;base64,aGk=".to_string()));
}

#[test]
fn cover_art_only_for_web_images() {
    let gif = Some(Picture { mime_type: Some("image/gif".to_string()), data: vec![1] });
    assert_eq!(cover_art_uri(&gif), None);
    let none = Some(Picture { mime_type: None, data: vec![1] });
    assert_eq!(cover_art_uri(&none), None);
    let jpg = Some(Picture { mime_type: Some("image/jpeg".to_string()), data: vec![0xff] });
    assert_eq!(cover_art_uri(&jpg), Some("data:image/jpeg;base64,/w==".to_string()));
}

#[test]
fn durations_as_shown() {
    assert_eq!(format_duration(187_000), "3:07");
    assert_eq!(format_duration(3_725_999), "1:02:05");
    assert_eq!(format_duration(999), "0:00");
}

#[test]
fn properties_of_a_file() {
    let mut tags = SongMetadata::default();
    tags.title = "Song".to_string();
    let p = file_properties(
        "/m/Song.FLAC",
        2048,
        "2.0 KB".to_string(),
        Some(AudioParams { sample_rate: 44100, channels: 2, duration_ms: Some(61_000) }),
        &Some(tags),
    );
    assert_eq!(p.file_name, "Song.FLAC");
    assert_eq!(p.format, "FLAC");
    assert_eq!(p.format_ext, "flac");
    assert_eq!(p.duration_str, Some("1:01".to_string()));
    assert_eq!(p.title, Some("Song".to_string()));
    assert_eq!(p.artist, None);
    assert!(!p.has_cover);
    let q = file_properties("/m/x.zzz", 0, "0 B".to_string(), None, &None);
    assert_eq!(q.format, "Unknown");
    assert_eq!(q.duration_str, None);
}

#[test]
fn desktop_settings_repair_and_update() {
    let d = DesktopLyricsSettings::default();
    assert_eq!(d.font_size, 28);
    let mut bad = d.clone();
    bad.font_size = 99;
    bad.font_color = "  #A1b2C3 ".to_string();
    bad.line_count = 3;
    bad.direction = "diagonal".to_string();
    let s = sanitize(bad);
    assert_eq!(s.font_size, 28);
    assert_eq!(s.font_color, "#A1b2C3");
    assert_eq!(s.line_count, 1);
    assert_eq!(s.direction, "horizontal");
    let mut worse = d.clone();
    worse.font_color = "#12345g".to_string();
    assert_eq!(sanitize(worse).font_color, "#a78bfa");
    assert_eq!(trimmed_color(" #000000 "), (true, "#000000".to_string()));

    let mut u = SettingsUpdate {
        font_size: Some(50),
        locked: None,
        font_family: None,
        bold: None,
        italic: None,
        font_color: None,
        karaoke: None,
        line_count: None,
        direction: None,
        visible: Some(true),
    };
    assert_eq!(check_update(&u), Err("字号超出范围 [12, 48]".to_string()));
    u.font_size = Some(30);
    u.font_color = Some(" #ffffff".to_string());
    assert!(check_update(&u).is_ok());
    let mut cur = d.clone();
    apply_update(&mut cur, u);
    assert_eq!(cur.font_size, 30);
    assert_eq!(cur.font_color, "#ffffff");
    assert!(cur.visible);
    assert_eq!(cur.direction, "horizontal");
}
