//! Types shared by the player, the playlist and the frontend bridge.
use vstd::prelude::*;

use crate::paths;
use crate::text::{chars_of, lowercase, range_eq, str_eq, to_lowercase, trim, trimmed};

verus! {

/// Supported audio formats.
#[derive(Debug, Clone, Copy, PartialEq, Eq, Structural)]
pub enum AudioFormat {
    Flac,
    Mp3,
    Aac,
    Vorbis,
    Opus,
    Wav,
    Wma,
    Ape,
    Tak,
    Mpc,
    Ac3,
    Mod,
    Unknown,
}

/// Playback state machine.
#[derive(Debug, Clone, Copy, PartialEq, Eq, Structural)]
pub enum PlaybackState {
    Idle,
    Loading,
    Playing,
    Paused,
    Stopped,
    /// Playback failed (corrupt file, unsupported format, decode error); the
    /// frontend observes it and skips to the next track.
    Error,
}

/// Playback modes of a playlist.
#[derive(Debug, Clone, Copy, PartialEq, Eq, Structural)]
pub enum PlayMode {
    /// Stop after the current track.
    Single,
    /// Repeat the current track.
    LoopOne,
    /// Play to the end of the list, then stop.
    Sequential,
    /// Play the list over and over.
    Loop,
    /// Pick another track at random.
    Random,
}

/// Error kind for playback errors.
#[derive(Debug, Clone, Copy, PartialEq, Eq, Structural)]
pub enum ErrorKind {
    NoFile,
    UnknownFormat,
    DecoderError,
    OutputError,
    SeekError,
    IoError,
    Cancelled,
}

/// A playback error with the context needed for logging and auto-skip.
#[derive(Debug, Clone)]
pub struct PlaybackError {
    pub kind: ErrorKind,
    pub message: String,
    /// Path of the track that failed (`None` if no track was involved).
    pub track_path: Option<String>,
    /// Unix epoch timestamp (ms) when the error was recorded.
    pub timestamp_ms: u64,
}

/// Milliseconds since the Unix epoch, read from `SystemTime::now()`; 0 when
/// the clock reads earlier than the epoch. Nothing is promised of the value:
/// it is the machine's clock.
#[verifier::external_body]
fn unix_time_ms() -> u64 {
    std::time::SystemTime::now().duration_since(std::time::UNIX_EPOCH).map(
        |d| d.as_millis() as u64,
    ).unwrap_or(0)
}

impl PlaybackError {
    /// An error of `kind` with `message`, stamped with the current time.
    pub fn new(kind: ErrorKind, message: String, track_path: Option<String>) -> (e: Self)
        ensures
            e.kind == kind,
            e.message@ == message@,
            e.track_path == track_path,
    {
        PlaybackError { kind, message, track_path, timestamp_ms: unix_time_ms() }
    }
}

/// Song metadata read from the tags of a file. The ReplayGain values of the
/// tags are real numbers and travel beside this record, not in it.
#[derive(Debug, Clone)]
pub struct SongMetadata {
    pub title: String,
    pub artist: String,
    pub album: String,
    pub album_artist: String,
    pub year: Option<u32>,
    pub track: Option<u32>,
    pub genre: String,
    pub comment: String,
    pub duration_ms: Option<u64>,
    pub bit_rate: Option<u32>,
    pub sample_rate: Option<u32>,
    pub channels: Option<u16>,
    pub bit_depth: Option<u16>,
    /// Album cover as a `data:` URI.
    pub cover_art: Option<String>,
}

impl SongMetadata {
    /// Every text empty, every number and the cover absent.
    pub open spec fn is_blank(&self) -> bool {
        &&& self.title@.len() == 0
        &&& self.artist@.len() == 0
        &&& self.album@.len() == 0
        &&& self.album_artist@.len() == 0
        &&& self.year is None
        &&& self.track is None
        &&& self.genre@.len() == 0
        &&& self.comment@.len() == 0
        &&& self.duration_ms is None
        &&& self.bit_rate is None
        &&& self.sample_rate is None
        &&& self.channels is None
        &&& self.bit_depth is None
        &&& self.cover_art is None
    }
}

impl Default for SongMetadata {
    fn default() -> (m: Self)
        ensures
            m.is_blank(),
    {
        SongMetadata {
            title: String::new(),
            artist: String::new(),
            album: String::new(),
            album_artist: String::new(),
            year: None,
            track: None,
            genre: String::new(),
            comment: String::new(),
            duration_ms: None,
            bit_rate: None,
            sample_rate: None,
            channels: None,
            bit_depth: None,
            cover_art: None,
        }
    }
}

/// Track info handed to the frontend.
#[derive(Debug, Clone)]
pub struct TrackInfo {
    pub path: String,
    pub format: AudioFormat,
    pub metadata: SongMetadata,
    pub duration_ms: u64,
    pub file_size: u64,
}

/// The format a track is listed as, by its lower-cased extension.
pub open spec fn track_format(ext: Seq<char>) -> AudioFormat {
    if ext == "flac"@ {
        AudioFormat::Flac
    } else if ext == "mp3"@ {
        AudioFormat::Mp3
    } else if ext == "aac"@ || ext == "m4a"@ {
        AudioFormat::Aac
    } else if ext == "ogg"@ {
        AudioFormat::Vorbis
    } else if ext == "opus"@ {
        AudioFormat::Opus
    } else if ext == "wav"@ {
        AudioFormat::Wav
    } else if ext == "wma"@ {
        AudioFormat::Wma
    } else if ext == "ape"@ {
        AudioFormat::Ape
    } else if ext == "tak"@ {
        AudioFormat::Tak
    } else if ext == "mpc"@ {
        AudioFormat::Mpc
    } else if ext == "ac3"@ || ext == "dts"@ {
        AudioFormat::Ac3
    } else if ext == "mod"@ || ext == "s3m"@ || ext == "xm"@ || ext == "it"@ {
        AudioFormat::Mod
    } else {
        AudioFormat::Unknown
    }
}

/// The lower-cased extension of a path, empty when it has none.
pub open spec fn lower_extension(path: Seq<char>) -> Seq<char> {
    match paths::path_extension(path) {
        Some(e) => lowercase(e),
        None => Seq::empty(),
    }
}

/// The lower-cased extension of `path`, empty when it has none.
pub fn extension_lowercase(path: &str) -> (e: String)
    ensures
        e@ == lower_extension(path@),
{
    match paths::extension(path) {
        Some(x) => to_lowercase(x.as_str()),
        None => String::new(),
    }
}

/// `track_format` of a lower-cased extension.
pub fn format_for_extension(ext: &str) -> (f: AudioFormat)
    ensures
        f == track_format(ext@),
{
    if str_eq(ext, "flac") {
        AudioFormat::Flac
    } else if str_eq(ext, "mp3") {
        AudioFormat::Mp3
    } else if str_eq(ext, "aac") || str_eq(ext, "m4a") {
        AudioFormat::Aac
    } else if str_eq(ext, "ogg") {
        AudioFormat::Vorbis
    } else if str_eq(ext, "opus") {
        AudioFormat::Opus
    } else if str_eq(ext, "wav") {
        AudioFormat::Wav
    } else if str_eq(ext, "wma") {
        AudioFormat::Wma
    } else if str_eq(ext, "ape") {
        AudioFormat::Ape
    } else if str_eq(ext, "tak") {
        AudioFormat::Tak
    } else if str_eq(ext, "mpc") {
        AudioFormat::Mpc
    } else if str_eq(ext, "ac3") || str_eq(ext, "dts") {
        AudioFormat::Ac3
    } else if str_eq(ext, "mod") || str_eq(ext, "s3m") || str_eq(ext, "xm") || str_eq(ext, "it") {
        AudioFormat::Mod
    } else {
        AudioFormat::Unknown
    }
}

impl TrackInfo {
    /// A track for `path` with its format taken from the extension, blank
    /// metadata, and zero duration and size.
    pub fn from_path(path: &str) -> (t: Self)
        ensures
            t.path@ == path@,
            t.format == track_format(lower_extension(path@)),
            t.metadata.is_blank(),
            t.duration_ms == 0,
            t.file_size == 0,
    {
        let ext = extension_lowercase(path);
        TrackInfo {
            path: path.to_owned(),
            format: format_for_extension(ext.as_str()),
            metadata: SongMetadata::default(),
            duration_ms: 0,
            file_size: 0,
        }
    }
}

/// The format the codec registry reports for a lower-cased extension.
pub open spec fn detected_format(ext: Seq<char>) -> AudioFormat {
    if ext == "flac"@ {
        AudioFormat::Flac
    } else if ext == "mp3"@ {
        AudioFormat::Mp3
    } else if ext == "aac"@ || ext == "m4a"@ || ext == "m4b"@ || ext == "alac"@ {
        AudioFormat::Aac
    } else if ext == "ogg"@ {
        AudioFormat::Vorbis
    } else if ext == "opus"@ {
        AudioFormat::Opus
    } else if ext == "wav"@ {
        AudioFormat::Wav
    } else if ext == "wma"@ {
        AudioFormat::Wma
    } else if ext == "ape"@ {
        AudioFormat::Ape
    } else if ext == "tak"@ {
        AudioFormat::Tak
    } else if ext == "mpc"@ || ext == "mp+"@ || ext == "mpp"@ {
        AudioFormat::Mpc
    } else if ext == "ac3"@ || ext == "dts"@ || ext == "eac3"@ || ext == "a52"@ {
        AudioFormat::Ac3
    } else if ext == "mod"@ || ext == "xm"@ || ext == "s3m"@ || ext == "it"@ || ext == "dw"@ {
        AudioFormat::Mod
    } else {
        AudioFormat::Unknown
    }
}

/// Map a path's extension to an `AudioFormat`, as the codec registry does.
pub fn detect_format(path: &str) -> (f: AudioFormat)
    ensures
        f == detected_format(lower_extension(path@)),
{
    let e = extension_lowercase(path);
    let ext = e.as_str();
    if str_eq(ext, "flac") {
        AudioFormat::Flac
    } else if str_eq(ext, "mp3") {
        AudioFormat::Mp3
    } else if str_eq(ext, "aac") || str_eq(ext, "m4a") || str_eq(ext, "m4b") || str_eq(
        ext,
        "alac",
    ) {
        AudioFormat::Aac
    } else if str_eq(ext, "ogg") {
        AudioFormat::Vorbis
    } else if str_eq(ext, "opus") {
        AudioFormat::Opus
    } else if str_eq(ext, "wav") {
        AudioFormat::Wav
    } else if str_eq(ext, "wma") {
        AudioFormat::Wma
    } else if str_eq(ext, "ape") {
        AudioFormat::Ape
    } else if str_eq(ext, "tak") {
        AudioFormat::Tak
    } else if str_eq(ext, "mpc") || str_eq(ext, "mp+") || str_eq(ext, "mpp") {
        AudioFormat::Mpc
    } else if str_eq(ext, "ac3") || str_eq(ext, "dts") || str_eq(ext, "eac3") || str_eq(
        ext,
        "a52",
    ) {
        AudioFormat::Ac3
    } else if str_eq(ext, "mod") || str_eq(ext, "xm") || str_eq(ext, "s3m") || str_eq(ext, "it")
        || str_eq(ext, "dw") {
        AudioFormat::Mod
    } else {
        AudioFormat::Unknown
    }
}

/// Display name of a format, as shown in the file properties dialog.
pub open spec fn format_title(f: AudioFormat) -> Seq<char> {
    match f {
        AudioFormat::Flac => "FLAC"@,
        AudioFormat::Mp3 => "MP3"@,
        AudioFormat::Aac => "AAC"@,
        AudioFormat::Vorbis => "OGG Vorbis"@,
        AudioFormat::Opus => "Opus"@,
        AudioFormat::Wav => "WAV"@,
        AudioFormat::Wma => "WMA"@,
        AudioFormat::Ape => "APE"@,
        AudioFormat::Tak => "TAK"@,
        AudioFormat::Mpc => "Musepack"@,
        AudioFormat::Ac3 => "AC-3"@,
        AudioFormat::Mod => "Tracker Module"@,
        AudioFormat::Unknown => "Unknown"@,
    }
}

pub fn format_name(fmt: &AudioFormat) -> (s: &'static str)
    ensures
        s@ == format_title(*fmt),
{
    match fmt {
        AudioFormat::Flac => "FLAC",
        AudioFormat::Mp3 => "MP3",
        AudioFormat::Aac => "AAC",
        AudioFormat::Vorbis => "OGG Vorbis",
        AudioFormat::Opus => "Opus",
        AudioFormat::Wav => "WAV",
        AudioFormat::Wma => "WMA",
        AudioFormat::Ape => "APE",
        AudioFormat::Tak => "TAK",
        AudioFormat::Mpc => "Musepack",
        AudioFormat::Ac3 => "AC-3",
        AudioFormat::Mod => "Tracker Module",
        AudioFormat::Unknown => "Unknown",
    }
}

// ── playback state codes ─────────────────────────────────────────────────

/// The code under which a state is kept in the player's atomic cell.
pub open spec fn spec_state_code(s: PlaybackState) -> u8 {
    match s {
        PlaybackState::Idle => 0,
        PlaybackState::Loading => 1,
        PlaybackState::Playing => 2,
        PlaybackState::Paused => 3,
        PlaybackState::Stopped => 4,
        PlaybackState::Error => 5,
    }
}

pub fn state_to_code(s: PlaybackState) -> (c: u8)
    ensures
        c == spec_state_code(s),
{
    match s {
        PlaybackState::Idle => 0,
        PlaybackState::Loading => 1,
        PlaybackState::Playing => 2,
        PlaybackState::Paused => 3,
        PlaybackState::Stopped => 4,
        PlaybackState::Error => 5,
    }
}

/// The state a code stands for; an unknown code reads as `Idle`.
pub fn code_to_state(c: u8) -> (s: PlaybackState)
    ensures
        c <= 5 ==> spec_state_code(s) == c,
        c > 5 ==> s == PlaybackState::Idle,
{
    match c {
        0 => PlaybackState::Idle,
        1 => PlaybackState::Loading,
        2 => PlaybackState::Playing,
        3 => PlaybackState::Paused,
        4 => PlaybackState::Stopped,
        5 => PlaybackState::Error,
        _ => PlaybackState::Idle,
    }
}

/// A state survives the round trip through its code.
pub proof fn lemma_state_code_roundtrip(s: PlaybackState)
    ensures
        spec_state_code(s) <= 5,
        forall|t: PlaybackState| spec_state_code(t) == spec_state_code(s) ==> t == s,
{
}

// ── play mode names ──────────────────────────────────────────────────────

/// The name under which the frontend knows a play mode.
pub open spec fn play_mode_title(m: PlayMode) -> Seq<char> {
    match m {
        PlayMode::Single => "single"@,
        PlayMode::LoopOne => "loopone"@,
        PlayMode::Sequential => "sequential"@,
        PlayMode::Loop => "loop"@,
        PlayMode::Random => "random"@,
    }
}

/// The play mode a lower-cased name selects.
pub open spec fn play_mode_named(name: Seq<char>) -> Option<PlayMode> {
    if name == "single"@ {
        Some(PlayMode::Single)
    } else if name == "sequential"@ {
        Some(PlayMode::Sequential)
    } else if name == "loop"@ {
        Some(PlayMode::Loop)
    } else if name == "loop_one"@ || name == "loopone"@ {
        Some(PlayMode::LoopOne)
    } else if name == "random"@ {
        Some(PlayMode::Random)
    } else {
        None
    }
}

pub fn play_mode_name(m: PlayMode) -> (s: &'static str)
    ensures
        s@ == play_mode_title(m),
{
    match m {
        PlayMode::Single => "single",
        PlayMode::LoopOne => "loopone",
        PlayMode::Sequential => "sequential",
        PlayMode::Loop => "loop",
        PlayMode::Random => "random",
    }
}

/// Parse a play mode name, case-insensitively (`None` for an unknown name).
pub fn parse_play_mode(name: &str) -> (m: Option<PlayMode>)
    ensures
        m == play_mode_named(lowercase(name@)),
{
    let low = to_lowercase(name);
    let s = low.as_str();
    if str_eq(s, "single") {
        Some(PlayMode::Single)
    } else if str_eq(s, "sequential") {
        Some(PlayMode::Sequential)
    } else if str_eq(s, "loop") {
        Some(PlayMode::Loop)
    } else if str_eq(s, "loop_one") || str_eq(s, "loopone") {
        Some(PlayMode::LoopOne)
    } else if str_eq(s, "random") {
        Some(PlayMode::Random)
    } else {
        None
    }
}

/// The name a play mode is shown under selects that mode again, read as
/// `parse_play_mode` reads it.
pub proof fn lemma_play_mode_name_roundtrip(m: PlayMode)
    ensures
        play_mode_named(play_mode_title(m)) == Some(m),
        play_mode_named(lowercase(play_mode_title(m))) == Some(m),
{
    reveal_strlit("single");
    reveal_strlit("sequential");
    reveal_strlit("loop");
    reveal_strlit("loop_one");
    reveal_strlit("loopone");
    reveal_strlit("random");
    assert("sequential"@.len() != "single"@.len());
    assert("loop"@.len() != "single"@.len() && "loop"@.len() != "sequential"@.len());
    assert("loopone"@.len() != "single"@.len() && "loopone"@.len() != "sequential"@.len());
    assert("loopone"@.len() != "loop"@.len() && "loopone"@.len() != "loop_one"@.len());
    assert("random"@[0] != "single"@[0] && "random"@.len() != "sequential"@.len());
    assert("random"@.len() != "loop"@.len() && "random"@.len() != "loop_one"@.len());
    assert("random"@.len() != "loopone"@.len());
    let t = play_mode_title(m);
    assert(crate::text::is_ascii_text(t));
    assert(t.map_values(|c: char| crate::text::ascii_lower(c)) =~= t);
}

// ── theme mode ───────────────────────────────────────────────────────────

/// Theme mode codes: 0 = light, 1 = dark, 2 = follow the system.
pub open spec fn theme_title(code: u8) -> Seq<char> {
    if code == 0 {
        "light"@
    } else if code == 1 {
        "dark"@
    } else {
        "system"@
    }
}

pub open spec fn theme_named(name: Seq<char>) -> Option<u8> {
    if name == "light"@ {
        Some(0)
    } else if name == "dark"@ {
        Some(1)
    } else if name == "system"@ {
        Some(2)
    } else {
        None
    }
}

/// The name the frontend is given for a theme code.
pub fn theme_mode_name(code: u8) -> (s: &'static str)
    ensures
        s@ == theme_title(code),
{
    if code == 0 {
        "light"
    } else if code == 1 {
        "dark"
    } else {
        "system"
    }
}

/// The theme code of an exact name (`None` for any other name).
pub fn parse_theme_mode(name: &str) -> (c: Option<u8>)
    ensures
        c == theme_named(name@),
{
    if str_eq(name, "light") {
        Some(0)
    } else if str_eq(name, "dark") {
        Some(1)
    } else if str_eq(name, "system") {
        Some(2)
    } else {
        None
    }
}

/// The name the frontend is given for a theme code selects that code again.
pub proof fn lemma_theme_name_roundtrip(code: u8)
    requires
        code <= 2,
    ensures
        theme_named(theme_title(code)) == Some(code),
{
    reveal_strlit("light");
    reveal_strlit("dark");
    reveal_strlit("system");
    assert("dark"@.len() != "light"@.len());
    assert("system"@.len() != "light"@.len() && "system"@.len() != "dark"@.len());
}

/// The theme stored in the settings file: "light" or "system" after
/// trimming, anything else reads as dark.
pub open spec fn stored_theme(content: Seq<char>) -> u8 {
    let t = trim(content);
    if t == "light"@ {
        0
    } else if t == "system"@ {
        2
    } else {
        1
    }
}

pub fn theme_from_file(content: &str) -> (c: u8)
    ensures
        c == stored_theme(content@),
{
    let v = chars_of(content);
    let t = trimmed(&v, 0, v.len());
    assert(v@.subrange(0, v@.len() as int) =~= v@);
    if range_eq(&t, 0, t.len(), "light") {
        assert(t@.subrange(0, t@.len() as int) =~= t@);
        0
    } else if range_eq(&t, 0, t.len(), "system") {
        assert(t@.subrange(0, t@.len() as int) =~= t@);
        2
    } else {
        assert(t@.subrange(0, t@.len() as int) =~= t@);
        1
    }
}

/// The text the settings file is written with for a theme code.
pub open spec fn theme_file_text(code: u8) -> Seq<char> {
    if code == 0 {
        "light"@
    } else if code == 2 {
        "system"@
    } else {
        "dark"@
    }
}

pub fn theme_to_file(code: u8) -> (s: &'static str)
    ensures
        s@ == theme_file_text(code),
{
    if code == 0 {
        "light"
    } else if code == 2 {
        "system"
    } else {
        "dark"
    }
}

/// What the settings file holds is read back as the same theme.
pub proof fn lemma_theme_file_roundtrip(code: u8)
    requires
        code <= 2,
    ensures
        stored_theme(theme_file_text(code)) == code,
{
    reveal_strlit("light");
    reveal_strlit("dark");
    reveal_strlit("system");
    let s = theme_file_text(code);
    assert(s.len() > 0 && !crate::text::is_ws(s[0]) && !crate::text::is_ws(s.last()));
    crate::text::lemma_trim_id(s);
}

} // verus!
