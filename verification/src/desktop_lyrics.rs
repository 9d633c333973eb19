//! Desktop lyrics window settings: their defaults, the repair of settings
//! read back from disk, and the checks and changes of an update from the
//! frontend. The window opacity is a real number and is kept and checked
//! beside these settings, not in them.
use vstd::prelude::*;

use crate::text::{chars_of, string_of, trim, trimmed};

verus! {

/// Smallest font size, in pixels.
pub const FONT_MIN: u32 = 12;

/// Largest font size, in pixels.
pub const FONT_MAX: u32 = 48;

/// Font size of fresh settings, in pixels.
pub const FONT_DEFAULT: u32 = 28;

/// Longest font family name kept, in characters.
pub const FAMILY_MAX_CHARS: usize = 256;

pub open spec fn family_default() -> Seq<char> {
    "system-ui, sans-serif"@
}

pub open spec fn color_default() -> Seq<char> {
    "#a78bfa"@
}

/// Settings of the desktop lyrics window.
#[derive(Debug, Clone)]
pub struct DesktopLyricsSettings {
    pub font_size: u32,
    pub locked: bool,
    pub font_family: String,
    pub bold: bool,
    pub italic: bool,
    /// Font colour, `#RRGGBB`.
    pub font_color: String,
    /// Highlight word by word rather than line by line.
    pub karaoke: bool,
    /// Lines shown: 1 or 2.
    pub line_count: u32,
    /// `horizontal` or `vertical`.
    pub direction: String,
    /// Whether the window was open when last used.
    pub visible: bool,
}

pub open spec fn is_default_settings(s: DesktopLyricsSettings) -> bool {
    &&& s.font_size == FONT_DEFAULT
    &&& !s.locked
    &&& s.font_family@ == family_default()
    &&& s.bold
    &&& !s.italic
    &&& s.font_color@ == color_default()
    &&& s.karaoke
    &&& s.line_count == 1
    &&& s.direction@ == "horizontal"@
    &&& !s.visible
}

impl Default for DesktopLyricsSettings {
    fn default() -> (s: Self)
        ensures
            is_default_settings(s),
    {
        DesktopLyricsSettings {
            font_size: FONT_DEFAULT,
            locked: false,
            font_family: "system-ui, sans-serif".to_owned(),
            bold: true,
            italic: false,
            font_color: "#a78bfa".to_owned(),
            karaoke: true,
            line_count: 1,
            direction: "horizontal".to_owned(),
            visible: false,
        }
    }
}

pub open spec fn is_hex_digit(c: char) -> bool {
    ('0' <= c <= '9') || ('a' <= c <= 'f') || ('A' <= c <= 'F')
}

/// `#RRGGBB`: a `#` and six hexadecimal digits, nothing else.
pub open spec fn is_hex_color(s: Seq<char>) -> bool {
    s.len() == 7 && s[0] == '#' && forall|i: int| 1 <= i < 7 ==> #[trigger] is_hex_digit(s[i])
}

pub open spec fn font_size_ok(n: u32) -> bool {
    FONT_MIN <= n <= FONT_MAX
}

pub open spec fn direction_ok(d: Seq<char>) -> bool {
    d == "horizontal"@ || d == "vertical"@
}

fn hex_color(v: &Vec<char>) -> (b: bool)
    ensures
        b == is_hex_color(v@),
{
    if v.len() != 7 || v[0] != '#' {
        return false;
    }
    let mut i: usize = 1;
    while i < 7
        invariant
            v@.len() == 7,
            1 <= i <= 7,
            forall|j: int| 1 <= j < i ==> #[trigger] is_hex_digit(v@[j]),
        decreases 7 - i,
    {
        let c = v[i];
        if !(('0' <= c && c <= '9') || ('a' <= c && c <= 'f') || ('A' <= c && c <= 'F')) {
            assert(!is_hex_digit(v@[i as int]));
            return false;
        }
        i = i + 1;
    }
    true
}

/// Whether `s`, once trimmed, is a `#RRGGBB` colour; and the trimmed text.
pub fn trimmed_color(s: &str) -> (r: (bool, String))
    ensures
        r.1@ == trim(s@),
        r.0 == is_hex_color(trim(s@)),
{
    let v = chars_of(s);
    let t = trimmed(&v, 0, v.len());
    assert(v@.subrange(0, v@.len() as int) =~= s@);
    (hex_color(&t), string_of(t.as_slice()))
}

fn is_direction(d: &str) -> (b: bool)
    ensures
        b == direction_ok(d@),
{
    crate::text::str_eq(d, "horizontal") || crate::text::str_eq(d, "vertical")
}

/// The settings as repaired after reading them back: a font size out of
/// range, an over-long family, a colour that is not `#RRGGBB` once
/// trimmed, a line count other than 1 or 2 and an unknown direction each
/// fall back to their default; a good colour is kept trimmed.
pub open spec fn sanitized(s: DesktopLyricsSettings, out: DesktopLyricsSettings) -> bool {
    &&& out.font_size == (if font_size_ok(s.font_size) {
        s.font_size
    } else {
        FONT_DEFAULT
    })
    &&& out.locked == s.locked
    &&& out.font_family@ == (if s.font_family@.len() > FAMILY_MAX_CHARS {
        family_default()
    } else {
        s.font_family@
    })
    &&& out.bold == s.bold
    &&& out.italic == s.italic
    &&& out.font_color@ == (if is_hex_color(trim(s.font_color@)) {
        trim(s.font_color@)
    } else {
        color_default()
    })
    &&& out.karaoke == s.karaoke
    &&& out.line_count == (if s.line_count == 1 || s.line_count == 2 {
        s.line_count
    } else {
        1
    })
    &&& out.direction@ == (if direction_ok(s.direction@) {
        s.direction@
    } else {
        "horizontal"@
    })
    &&& out.visible == s.visible
}

/// Repair settings read back from disk (see `sanitized`).
pub fn sanitize(s: DesktopLyricsSettings) -> (out: DesktopLyricsSettings)
    ensures
        sanitized(s, out),
{
    let mut s = s;
    if !(FONT_MIN <= s.font_size && s.font_size <= FONT_MAX) {
        s.font_size = FONT_DEFAULT;
    }
    if s.font_family.as_str().unicode_len() > FAMILY_MAX_CHARS {
        s.font_family = "system-ui, sans-serif".to_owned();
    }
    let (valid, col) = trimmed_color(s.font_color.as_str());
    if !valid {
        s.font_color = "#a78bfa".to_owned();
    } else {
        s.font_color = col;
    }
    if s.line_count != 1 && s.line_count != 2 {
        s.line_count = 1;
    }
    if !is_direction(s.direction.as_str()) {
        s.direction = "horizontal".to_owned();
    }
    s
}

/// A change to the settings from the frontend; each `None` keeps the
/// current value.
#[derive(Debug, Clone)]
pub struct SettingsUpdate {
    pub font_size: Option<u32>,
    pub locked: Option<bool>,
    pub font_family: Option<String>,
    pub bold: Option<bool>,
    pub italic: Option<bool>,
    pub font_color: Option<String>,
    pub karaoke: Option<bool>,
    pub line_count: Option<u32>,
    pub direction: Option<String>,
    pub visible: Option<bool>,
}

/// The first check an update fails, in the order the fields are checked,
/// with its message; `None` when all pass.
pub open spec fn update_error(u: SettingsUpdate) -> Option<Seq<char>> {
    if u.font_size matches Some(n) && !font_size_ok(n) {
        Some("字号超出范围 [12, 48]"@)
    } else if u.font_family matches Some(f) && f@.len() > FAMILY_MAX_CHARS {
        Some("字体族名称过长"@)
    } else if u.font_color matches Some(c) && !is_hex_color(trim(c@)) {
        Some("颜色格式无效，需为 #RRGGBB"@)
    } else if u.line_count matches Some(n) && n != 1 && n != 2 {
        Some("显示行数仅支持 1（单行）或 2（双行）"@)
    } else if u.direction matches Some(d) && !direction_ok(d@) {
        Some("显示方向仅支持 horizontal 或 vertical"@)
    } else {
        None
    }
}

/// Check an update: a font size out of range, an over-long family, a
/// colour that is not `#RRGGBB` once trimmed, a line count other than 1 or
/// 2, or an unknown direction is refused with its message.
pub fn check_update(u: &SettingsUpdate) -> (r: Result<(), String>)
    ensures
        match r {
            Ok(()) => update_error(*u) is None,
            Err(e) => update_error(*u) == Some(e@),
        },
{
    if let Some(n) = u.font_size {
        if !(FONT_MIN <= n && n <= FONT_MAX) {
            return Err("字号超出范围 [12, 48]".to_owned());
        }
    }
    if let Some(f) = &u.font_family {
        if f.as_str().unicode_len() > FAMILY_MAX_CHARS {
            return Err("字体族名称过长".to_owned());
        }
    }
    if let Some(c) = &u.font_color {
        let (valid, _) = trimmed_color(c.as_str());
        if !valid {
            return Err("颜色格式无效，需为 #RRGGBB".to_owned());
        }
    }
    if let Some(n) = u.line_count {
        if n != 1 && n != 2 {
            return Err("显示行数仅支持 1（单行）或 2（双行）".to_owned());
        }
    }
    if let Some(d) = &u.direction {
        if !is_direction(d.as_str()) {
            return Err("显示方向仅支持 horizontal 或 vertical".to_owned());
        }
    }
    Ok(())
}

pub open spec fn or_keep<T>(new: Option<T>, old: T) -> T {
    match new {
        Some(x) => x,
        None => old,
    }
}

pub open spec fn text_or_keep(new: Option<String>, old: Seq<char>) -> Seq<char> {
    match new {
        Some(x) => x@,
        None => old,
    }
}

/// The settings after an update: each given field replaces the current one
/// (the colour trimmed), the others stay.
pub open spec fn updated(s: DesktopLyricsSettings, u: SettingsUpdate, out: DesktopLyricsSettings) -> bool {
    &&& out.font_size == or_keep(u.font_size, s.font_size)
    &&& out.locked == or_keep(u.locked, s.locked)
    &&& out.font_family@ == text_or_keep(u.font_family, s.font_family@)
    &&& out.bold == or_keep(u.bold, s.bold)
    &&& out.italic == or_keep(u.italic, s.italic)
    &&& out.font_color@ == (match u.font_color {
        Some(c) => trim(c@),
        None => s.font_color@,
    })
    &&& out.karaoke == or_keep(u.karaoke, s.karaoke)
    &&& out.line_count == or_keep(u.line_count, s.line_count)
    &&& out.direction@ == text_or_keep(u.direction, s.direction@)
    &&& out.visible == or_keep(u.visible, s.visible)
}

/// Apply a checked update.
#[verifier::spinoff_prover]
#[verifier::rlimit(40)]
pub fn apply_update(s: &mut DesktopLyricsSettings, u: SettingsUpdate)
    ensures
        updated(*old(s), u, *final(s)),
{
    if let Some(n) = u.font_size {
        s.font_size = n;
    }
    if let Some(l) = u.locked {
        s.locked = l;
    }
    if let Some(f) = u.font_family {
        s.font_family = f;
    }
    if let Some(b) = u.bold {
        s.bold = b;
    }
    if let Some(i) = u.italic {
        s.italic = i;
    }
    if let Some(c) = u.font_color {
        let (_, t) = trimmed_color(c.as_str());
        s.font_color = t;
    }
    if let Some(k) = u.karaoke {
        s.karaoke = k;
    }
    if let Some(n) = u.line_count {
        s.line_count = n;
    }
    if let Some(d) = u.direction {
        s.direction = d;
    }
    if let Some(v) = u.visible {
        s.visible = v;
    }
}

/// Settings that pass the checks are left as they are by the repair made
/// when they are read back: an update that was accepted survives a restart
/// (the colour already trimmed).
pub proof fn lemma_accepted_update_survives(
    s: DesktopLyricsSettings,
    u: SettingsUpdate,
    out: DesktopLyricsSettings,
    back: DesktopLyricsSettings,
)
    requires
        update_error(u) is None,
        updated(s, u, out),
        sanitized(s, s),
        sanitized(out, back),
    ensures
        back.font_size == out.font_size,
        back.font_family@ == out.font_family@,
        back.font_color@ == out.font_color@,
        back.line_count == out.line_count,
        back.direction@ == out.direction@,
        back.locked == out.locked,
        back.bold == out.bold,
        back.italic == out.italic,
        back.karaoke == out.karaoke,
        back.visible == out.visible,
{
    match u.font_color {
        Some(c) => {
            let t = trim(c@);
            assert(is_hex_digit(t[6]));
            assert(t.last() == t[6]);
            crate::text::lemma_trim_id(t);
        },
        None => {},
    }
}

} // verus!
