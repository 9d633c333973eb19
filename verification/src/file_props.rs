//! The file properties dialog: what it shows of a file, from its path, its
//! size, what its decoder reports and what its tags hold.
use vstd::prelude::*;

use crate::paths;
use crate::text::{dec, dec2, push_dec, push_dec2, string_of};
use crate::types::{
    detect_format, detected_format, extension_lowercase, format_name, format_title,
    lower_extension, SongMetadata,
};

verus! {

/// `m:ss` below an hour, `h:mm:ss` from an hour on, of whole seconds.
pub open spec fn duration_text(ms: u64) -> Seq<char> {
    let total = ms / 1000;
    let min = total / 60;
    let sec = total % 60;
    if min >= 60 {
        dec((min / 60) as nat) + seq![':'] + dec2((min % 60) as nat) + seq![':'] + dec2(sec as nat)
    } else {
        dec(min as nat) + seq![':'] + dec2(sec as nat)
    }
}

/// A track length as the dialog shows it: `3:07`, `1:02:05`.
pub fn format_duration(ms: u64) -> (s: String)
    ensures
        s@ == duration_text(ms),
{
    let total = ms / 1000;
    let min = total / 60;
    let sec = total % 60;
    let mut v: Vec<char> = Vec::new();
    if min >= 60 {
        push_dec(&mut v, min / 60);
        v.push(':');
        push_dec2(&mut v, min % 60);
        v.push(':');
        push_dec2(&mut v, sec);
    } else {
        push_dec(&mut v, min);
        v.push(':');
        push_dec2(&mut v, sec);
    }
    assert(v@ =~= duration_text(ms));
    string_of(v.as_slice())
}

/// What the decoder of a file reports.
#[derive(Debug, Clone, Copy)]
pub struct AudioParams {
    pub sample_rate: u32,
    pub channels: u16,
    pub duration_ms: Option<u64>,
}

/// The properties of one file.
#[derive(Debug, Clone)]
pub struct FileProperties {
    pub file_name: String,
    pub file_path: String,
    pub file_size: u64,
    pub file_size_str: String,
    pub format: String,
    pub format_ext: String,
    pub sample_rate: Option<u32>,
    pub channels: Option<u16>,
    pub bit_depth: Option<u16>,
    pub bitrate: Option<u32>,
    pub duration_ms: Option<u64>,
    pub duration_str: Option<String>,
    pub title: Option<String>,
    pub artist: Option<String>,
    pub album: Option<String>,
    pub album_artist: Option<String>,
    pub year: Option<u32>,
    pub track: Option<u32>,
    pub genre: Option<String>,
    pub comment: Option<String>,
    pub has_cover: bool,
}

/// A tag text as the dialog shows it: absent when empty.
pub open spec fn shown(s: Seq<char>) -> Option<Seq<char>> {
    if s.len() == 0 {
        None
    } else {
        Some(s)
    }
}

pub open spec fn shown_tag(tags: Option<SongMetadata>, f: spec_fn(SongMetadata) -> Seq<char>) -> Option<
    Seq<char>,
> {
    match tags {
        Some(t) => shown(f(t)),
        None => None,
    }
}

/// The properties the dialog shows of the file at `path`.
pub open spec fn properties_match(
    p: FileProperties,
    path: Seq<char>,
    file_size: u64,
    size_text: Seq<char>,
    audio: Option<AudioParams>,
    tags: Option<SongMetadata>,
) -> bool {
    &&& p.file_name@ == (match paths::path_file_name(path) {
        Some(n) => n,
        None => Seq::empty(),
    })
    &&& p.file_path@ == path
    &&& p.file_size == file_size
    &&& p.file_size_str@ == size_text
    &&& p.format@ == format_title(detected_format(lower_extension(path)))
    &&& p.format_ext@ == lower_extension(path)
    &&& p.sample_rate == (match audio {
        Some(a) => Some(a.sample_rate),
        None => None,
    })
    &&& p.channels == (match audio {
        Some(a) => Some(a.channels),
        None => None,
    })
    &&& p.bit_depth is None
    &&& p.bitrate is None
    &&& p.duration_ms == (match audio {
        Some(a) => a.duration_ms,
        None => None,
    })
    &&& paths::opt_view(p.duration_str) == (match p.duration_ms {
        Some(ms) => Some(duration_text(ms)),
        None => None,
    })
    &&& paths::opt_view(p.title) == shown_tag(tags, |t: SongMetadata| t.title@)
    &&& paths::opt_view(p.artist) == shown_tag(tags, |t: SongMetadata| t.artist@)
    &&& paths::opt_view(p.album) == shown_tag(tags, |t: SongMetadata| t.album@)
    &&& paths::opt_view(p.album_artist) == shown_tag(tags, |t: SongMetadata| t.album_artist@)
    &&& p.year == (match tags {
        Some(t) => t.year,
        None => None,
    })
    &&& p.track == (match tags {
        Some(t) => t.track,
        None => None,
    })
    &&& paths::opt_view(p.genre) == shown_tag(tags, |t: SongMetadata| t.genre@)
    &&& paths::opt_view(p.comment) == shown_tag(tags, |t: SongMetadata| t.comment@)
    &&& p.has_cover == (match tags {
        Some(t) => t.cover_art is Some,
        None => false,
    })
}

fn shown_text(s: &String) -> (r: Option<String>)
    ensures
        paths::opt_view(r) == shown(s@),
{
    if s.as_str().unicode_len() == 0 {
        None
    } else {
        Some(s.clone())
    }
}

/// The properties of the file at `path` of `file_size` bytes (shown as
/// `size_text`), with what its decoder reported, if it opened, and its
/// tags, if they were read.
pub fn file_properties(
    path: &str,
    file_size: u64,
    size_text: String,
    audio: Option<AudioParams>,
    tags: &Option<SongMetadata>,
) -> (p: FileProperties)
    ensures
        properties_match(p, path@, file_size, size_text@, audio, *tags),
{
    let file_name = match paths::file_name(path) {
        Some(n) => n,
        None => String::new(),
    };
    let format = detect_format(path);
    let fmt_name = format_name(&format);
    let (sample_rate, channels, duration_ms) = match audio {
        Some(a) => (Some(a.sample_rate), Some(a.channels), a.duration_ms),
        None => (None, None, None),
    };
    let duration_str = match duration_ms {
        Some(ms) => Some(format_duration(ms)),
        None => None,
    };
    let (title, artist, album, album_artist, year, track, genre, comment, has_cover) = match tags {
        Some(t) => (
            shown_text(&t.title),
            shown_text(&t.artist),
            shown_text(&t.album),
            shown_text(&t.album_artist),
            t.year,
            t.track,
            shown_text(&t.genre),
            shown_text(&t.comment),
            t.cover_art.is_some(),
        ),
        None => (None, None, None, None, None, None, None, None, false),
    };
    FileProperties {
        file_name,
        file_path: path.to_owned(),
        file_size,
        file_size_str: size_text,
        format: fmt_name.to_owned(),
        format_ext: extension_lowercase(path),
        sample_rate,
        channels,
        bit_depth: None,
        bitrate: None,
        duration_ms,
        duration_str,
        title,
        artist,
        album,
        album_artist,
        year,
        track,
        genre,
        comment,
        has_cover,
    }
}

} // verus!
