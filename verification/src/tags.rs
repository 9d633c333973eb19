//! Tag reading and writing: what a file's tags become in a `SongMetadata`,
//! how an edit from the frontend changes a tag, and where a tag write stages
//! its copy of the file.
use vstd::prelude::*;

use crate::paths;
use crate::skin::{base64_encode, base64_standard};
use crate::text::{chars_of, parse_u32, parse_u32_in, str_eq, string_of};
use crate::types::SongMetadata;

verus! {

/// The first picture of a tag: its MIME type, where the tag names one, and
/// its bytes.
#[derive(Debug, Clone)]
pub struct Picture {
    pub mime_type: Option<String>,
    pub data: Vec<u8>,
}

/// What the primary tag and the audio properties of a file hold, each item
/// as the tag reader hands it out.
#[derive(Debug, Clone)]
pub struct TagFields {
    pub title: Option<String>,
    pub artist: Option<String>,
    pub album: Option<String>,
    pub album_artist: Option<String>,
    pub year: Option<u32>,
    pub track: Option<u32>,
    pub genre: Option<String>,
    pub comment: Option<String>,
    pub duration_ms: u64,
    pub bit_rate: Option<u32>,
    pub sample_rate: Option<u32>,
    pub channels: Option<u8>,
    pub bit_depth: Option<u8>,
    pub picture: Option<Picture>,
}

/// The image types a cover may be shown in: those every web view renders.
pub open spec fn is_web_image(mime: Seq<char>) -> bool {
    mime == "image/jpeg"@ || mime == "image/png"@ || mime == "image/webp"@ || mime
        == "image/bmp"@
}

/// The cover URI of a picture: a `data:` URI when its MIME type is a web
/// image type, none otherwise.
pub open spec fn spec_cover_art(p: Option<Picture>) -> Option<Seq<char>> {
    match p {
        Some(pic) => match pic.mime_type {
            Some(m) => if is_web_image(m@) {
                Some("data:"@ + m@ + ";base64,"@ + base64_standard(pic.data@))
            } else {
                None
            },
            None => None,
        },
        None => None,
    }
}

pub open spec fn text_or_empty(o: Option<String>) -> Seq<char> {
    match o {
        Some(s) => s@,
        None => Seq::empty(),
    }
}

pub open spec fn widen(o: Option<u8>) -> Option<u16> {
    match o {
        Some(x) => Some(x as u16),
        None => None,
    }
}

/// The song record the tags of a file give: missing text items read as
/// empty, the numbers as they are, the cover as `spec_cover_art` says.
pub open spec fn metadata_matches(m: SongMetadata, f: TagFields) -> bool {
    &&& m.title@ == text_or_empty(f.title)
    &&& m.artist@ == text_or_empty(f.artist)
    &&& m.album@ == text_or_empty(f.album)
    &&& m.album_artist@ == text_or_empty(f.album_artist)
    &&& m.year == f.year
    &&& m.track == f.track
    &&& m.genre@ == text_or_empty(f.genre)
    &&& m.comment@ == text_or_empty(f.comment)
    &&& m.duration_ms == Some(f.duration_ms)
    &&& m.bit_rate == f.bit_rate
    &&& m.sample_rate == f.sample_rate
    &&& m.channels == widen(f.channels)
    &&& m.bit_depth == widen(f.bit_depth)
    &&& crate::paths::opt_view(m.cover_art) == spec_cover_art(f.picture)
}

fn text_of(o: Option<String>) -> (s: String)
    ensures
        s@ == text_or_empty(o),
{
    match o {
        Some(s) => s,
        None => String::new(),
    }
}

fn widen_exec(o: Option<u8>) -> (r: Option<u16>)
    ensures
        r == widen(o),
{
    match o {
        Some(x) => Some(x as u16),
        None => None,
    }
}

/// The cover art URI of a picture; only JPEG, PNG, WebP and BMP images are
/// handed to the frontend.
pub fn cover_art_uri(p: &Option<Picture>) -> (r: Option<String>)
    ensures
        paths::opt_view(r) == spec_cover_art(*p),
{
    match p {
        Some(pic) => match &pic.mime_type {
            Some(m) => {
                let ms = m.as_str();
                if str_eq(ms, "image/jpeg") || str_eq(ms, "image/png") || str_eq(ms, "image/webp")
                    || str_eq(ms, "image/bmp") {
                    let b64 = base64_encode(pic.data.as_slice());
                    let mut out = chars_of("data:");
                    let mut mv = chars_of(ms);
                    out.append(&mut mv);
                    let mut sep = chars_of(";base64,");
                    out.append(&mut sep);
                    let mut bv = chars_of(b64.as_str());
                    out.append(&mut bv);
                    Some(string_of(out.as_slice()))
                } else {
                    None
                }
            },
            None => None,
        },
        None => None,
    }
}

/// The song record of a file whose tags and properties read as `f`.
pub fn metadata_from_tags(f: TagFields) -> (m: SongMetadata)
    ensures
        metadata_matches(m, f),
{
    let cover_art = cover_art_uri(&f.picture);
    SongMetadata {
        title: text_of(f.title),
        artist: text_of(f.artist),
        album: text_of(f.album),
        album_artist: text_of(f.album_artist),
        year: f.year,
        track: f.track,
        genre: text_of(f.genre),
        comment: text_of(f.comment),
        duration_ms: Some(f.duration_ms),
        bit_rate: f.bit_rate,
        sample_rate: f.sample_rate,
        channels: widen_exec(f.channels),
        bit_depth: widen_exec(f.bit_depth),
        cover_art,
    }
}

/// One change to a file's primary tag.
#[derive(Debug, Clone)]
pub enum TagEdit {
    SetTitle(String),
    RemoveTitle,
    SetArtist(String),
    RemoveArtist,
    SetAlbum(String),
    RemoveAlbum,
    /// The album artist is written as given, also when empty.
    InsertAlbumArtist(String),
    SetGenre(String),
    RemoveGenre,
    SetComment(String),
    RemoveComment,
    SetYear(u32),
    SetTrack(u32),
    /// The key is not a tag field, or its number does not parse.
    Ignore,
}

/// The edit that an update of `key` to `value` makes.
pub open spec fn edit_for(e: TagEdit, key: Seq<char>, value: Seq<char>) -> bool {
    if key == "title"@ {
        if value.len() == 0 { e is RemoveTitle } else { e matches TagEdit::SetTitle(v) && v@ == value }
    } else if key == "artist"@ {
        if value.len() == 0 { e is RemoveArtist } else { e matches TagEdit::SetArtist(v) && v@ == value }
    } else if key == "album"@ {
        if value.len() == 0 { e is RemoveAlbum } else { e matches TagEdit::SetAlbum(v) && v@ == value }
    } else if key == "album_artist"@ {
        e matches TagEdit::InsertAlbumArtist(v) && v@ == value
    } else if key == "genre"@ {
        if value.len() == 0 { e is RemoveGenre } else { e matches TagEdit::SetGenre(v) && v@ == value }
    } else if key == "comment"@ {
        if value.len() == 0 {
            e is RemoveComment
        } else {
            e matches TagEdit::SetComment(v) && v@ == value
        }
    } else if key == "year"@ {
        match parse_u32(value) {
            Some(y) => e == TagEdit::SetYear(y),
            None => e is Ignore,
        }
    } else if key == "track"@ {
        match parse_u32(value) {
            Some(t) => e == TagEdit::SetTrack(t),
            None => e is Ignore,
        }
    } else {
        e is Ignore
    }
}

/// The edit that an update of the tag field `key` to `value` makes: an empty
/// text removes the field (but the album artist, which is written as given),
/// a year or track number is set where it parses, and any other key is
/// ignored.
pub fn tag_edit(key: &str, value: &str) -> (e: TagEdit)
    ensures
        edit_for(e, key@, value@),
{
    let empty = value.unicode_len() == 0;
    if str_eq(key, "title") {
        if empty { TagEdit::RemoveTitle } else { TagEdit::SetTitle(value.to_owned()) }
    } else if str_eq(key, "artist") {
        if empty { TagEdit::RemoveArtist } else { TagEdit::SetArtist(value.to_owned()) }
    } else if str_eq(key, "album") {
        if empty { TagEdit::RemoveAlbum } else { TagEdit::SetAlbum(value.to_owned()) }
    } else if str_eq(key, "album_artist") {
        TagEdit::InsertAlbumArtist(value.to_owned())
    } else if str_eq(key, "genre") {
        if empty { TagEdit::RemoveGenre } else { TagEdit::SetGenre(value.to_owned()) }
    } else if str_eq(key, "comment") {
        if empty { TagEdit::RemoveComment } else { TagEdit::SetComment(value.to_owned()) }
    } else if str_eq(key, "year") || str_eq(key, "track") {
        let v = chars_of(value);
        match parse_u32_in(&v, 0, v.len()) {
            Some(n) => {
                assert(v@.subrange(0, v@.len() as int) =~= value@);
                if str_eq(key, "year") { TagEdit::SetYear(n) } else { TagEdit::SetTrack(n) }
            },
            None => {
                assert(v@.subrange(0, v@.len() as int) =~= value@);
                TagEdit::Ignore
            },
        }
    } else {
        TagEdit::Ignore
    }
}

/// The edits of a list of updates, one for each, in order.
pub fn tag_edits(updates: &[(String, String)]) -> (v: Vec<TagEdit>)
    ensures
        v@.len() == updates@.len(),
        forall|i: int|
            0 <= i < v@.len() ==> edit_for(#[trigger] v@[i], updates@[i].0@, updates@[i].1@),
{
    let mut v: Vec<TagEdit> = Vec::new();
    let mut i: usize = 0;
    while i < updates.len()
        invariant
            i <= updates@.len(),
            v@.len() == i,
            forall|j: int| 0 <= j < i ==> edit_for(#[trigger] v@[j], updates@[j].0@, updates@[j].1@),
        decreases updates@.len() - i,
    {
        let e = tag_edit(updates[i].0.as_str(), updates[i].1.as_str());
        v.push(e);
        i = i + 1;
    }
    v
}

/// Where a tag write stages its copy of `path`: the same directory (the
/// current one when the path has none), the file stem (`tt` when it has
/// none), then `.tagtmp`, then the extension where there is one.
pub open spec fn spec_temp_path(path: Seq<char>) -> Seq<char> {
    let dir = match paths::path_parent(path) {
        Some(d) => d,
        None => "."@,
    };
    let stem = match paths::path_file_stem(path) {
        Some(s) => s,
        None => "tt"@,
    };
    let name = match paths::path_extension(path) {
        Some(e) => stem + ".tagtmp."@ + e,
        None => stem + ".tagtmp"@,
    };
    paths::path_join(dir, name)
}

/// The temporary path beside `path` that a tag write saves to before it
/// renames the copy over the original: `song.mp3` → `song.tagtmp.mp3`.
pub fn atomic_temp_path(path: &str) -> (r: String)
    ensures
        r@ == spec_temp_path(path@),
{
    let dir: String = match paths::parent(path) {
        Some(d) => d,
        None => ".".to_owned(),
    };
    let mut name: Vec<char> = match paths::file_stem(path) {
        Some(s) => chars_of(s.as_str()),
        None => chars_of("tt"),
    };
    match paths::extension(path) {
        Some(e) => {
            let mut t = chars_of(".tagtmp.");
            name.append(&mut t);
            let mut ev = chars_of(e.as_str());
            name.append(&mut ev);
        },
        None => {
            let mut t = chars_of(".tagtmp");
            name.append(&mut t);
        },
    }
    let n = string_of(name.as_slice());
    paths::join(dir.as_str(), n.as_str())
}

} // verus!
