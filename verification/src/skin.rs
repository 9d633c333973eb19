//! Skins: their definitions and defaults, the colour arithmetic of the
//! palette, the CSS a skin compiles to, and the manager that keeps the
//! current skin. Reading and writing skin files is done by the caller, who
//! hands over the definitions and the image files' data URIs.
use vstd::prelude::*;

use base64::Engine;

use crate::paths;
use crate::text::{chars_of, dec, push_dec, push_str, str_eq, string_of, trim, trimmed};

verus! {

// ── definitions ──────────────────────────────────────────────────────────

/// Skin metadata from `skin.json`.
#[derive(Debug, Clone)]
pub struct SkinMeta {
    pub name: String,
    pub version: String,
    pub author: String,
    pub description: String,
    pub preview: Option<String>,
}

/// Color definitions for a skin.
#[derive(Debug, Clone)]
pub struct SkinColors {
    pub bg_primary: String,
    pub bg_secondary: String,
    pub bg_tertiary: String,
    pub text_primary: String,
    pub text_secondary: String,
    pub highlight: String,
    pub accent: String,
    pub accent_hover: String,
    /// A light tint of the accent; when absent it is derived from `accent`.
    pub accent_light: Option<String>,
    pub progress_fill: String,
    pub progress_bg: String,
    pub border_color: String,
    pub panel_bg: String,
    pub button_bg: String,
    pub button_hover: String,
    pub spectrum_top: Option<String>,
    pub spectrum_bottom: Option<String>,
    pub spectrum_peak: Option<String>,
}

pub fn default_bg_primary() -> (s: String)
    ensures
        s@ == "#0f061a"@,
{
    "#0f061a".to_owned()
}

pub fn default_bg_secondary() -> (s: String)
    ensures
        s@ == "#1a0f2e"@,
{
    "#1a0f2e".to_owned()
}

pub fn default_bg_tertiary() -> (s: String)
    ensures
        s@ == "#251540"@,
{
    "#251540".to_owned()
}

pub fn default_text_primary() -> (s: String)
    ensures
        s@ == "#e0d4ff"@,
{
    "#e0d4ff".to_owned()
}

pub fn default_text_secondary() -> (s: String)
    ensures
        s@ == "#a78bfa"@,
{
    "#a78bfa".to_owned()
}

pub fn default_highlight() -> (s: String)
    ensures
        s@ == "#f5d78a"@,
{
    "#f5d78a".to_owned()
}

pub fn default_accent() -> (s: String)
    ensures
        s@ == "#7c3aed"@,
{
    "#7c3aed".to_owned()
}

pub fn default_accent_hover() -> (s: String)
    ensures
        s@ == "#8b5cf6"@,
{
    "#8b5cf6".to_owned()
}

pub fn default_progress_fill() -> (s: String)
    ensures
        s@ == "#8b5cf6"@,
{
    "#8b5cf6".to_owned()
}

pub fn default_progress_bg() -> (s: String)
    ensures
        s@ == "#2a1a4a"@,
{
    "#2a1a4a".to_owned()
}

pub fn default_border_color() -> (s: String)
    ensures
        s@ == "#3a2a5a"@,
{
    "#3a2a5a".to_owned()
}

pub fn default_panel_bg() -> (s: String)
    ensures
        s@ == "#0f061a"@,
{
    "#0f061a".to_owned()
}

pub fn default_button_bg() -> (s: String)
    ensures
        s@ == "#2a1a4a"@,
{
    "#2a1a4a".to_owned()
}

pub fn default_button_hover() -> (s: String)
    ensures
        s@ == "#3a2a5a"@,
{
    "#3a2a5a".to_owned()
}

impl Default for SkinColors {
    fn default() -> (c: Self)
        ensures
            c.bg_primary@ == "#0f061a"@,
            c.bg_secondary@ == "#1a0f2e"@,
            c.bg_tertiary@ == "#251540"@,
            c.text_primary@ == "#e0d4ff"@,
            c.text_secondary@ == "#a78bfa"@,
            c.highlight@ == "#f5d78a"@,
            c.accent@ == "#7c3aed"@,
            c.accent_hover@ == "#8b5cf6"@,
            c.progress_fill@ == "#8b5cf6"@,
            c.progress_bg@ == "#2a1a4a"@,
            c.border_color@ == "#3a2a5a"@,
            c.panel_bg@ == "#0f061a"@,
            c.button_bg@ == "#2a1a4a"@,
            c.button_hover@ == "#3a2a5a"@,
            c.spectrum_top is None,
            c.spectrum_bottom is None,
            c.spectrum_peak is None,
            c.accent_light is None,
    {
        SkinColors {
            bg_primary: default_bg_primary(),
            bg_secondary: default_bg_secondary(),
            bg_tertiary: default_bg_tertiary(),
            text_primary: default_text_primary(),
            text_secondary: default_text_secondary(),
            highlight: default_highlight(),
            accent: default_accent(),
            accent_hover: default_accent_hover(),
            progress_fill: default_progress_fill(),
            progress_bg: default_progress_bg(),
            border_color: default_border_color(),
            panel_bg: default_panel_bg(),
            button_bg: default_button_bg(),
            button_hover: default_button_hover(),
            spectrum_top: None,
            spectrum_bottom: None,
            spectrum_peak: None,
            accent_light: None,
        }
    }
}

/// Background image for a UI region.
#[derive(Debug, Clone)]
pub struct SkinBackground {
    /// Image file path (relative to the skin's directory).
    pub image: String,
    /// CSS `background-size`.
    pub size: String,
    /// CSS `background-position`.
    pub position: String,
    /// CSS `background-repeat`.
    pub repeat: String,
}

pub fn default_bg_size() -> (s: String)
    ensures
        s@ == "cover"@,
{
    "cover".to_owned()
}

pub fn default_bg_position() -> (s: String)
    ensures
        s@ == "center"@,
{
    "center".to_owned()
}

pub fn default_bg_repeat() -> (s: String)
    ensures
        s@ == "no-repeat"@,
{
    "no-repeat".to_owned()
}

/// Button images for the normal, hover, pressed and disabled states.
#[derive(Debug, Clone)]
pub struct ButtonImageSet {
    pub normal: String,
    pub hover: Option<String>,
    pub pressed: Option<String>,
    pub disabled: Option<String>,
}

/// Layout parameters.
#[derive(Debug, Clone)]
pub struct SkinLayout {
    pub player_width: u32,
    pub player_height: u32,
    pub border_radius: u32,
}

/// Player width of a skin that names none, in pixels.
pub fn default_player_width() -> (w: u32)
    ensures
        w == 327,
{
    327
}

/// Player height of a skin that names none, in pixels.
pub fn default_player_height() -> (h: u32)
    ensures
        h == 186,
{
    186
}

/// Corner radius of a skin that names none, in pixels.
pub fn default_border_radius() -> (r: u32)
    ensures
        r == 4,
{
    4
}

impl Default for SkinLayout {
    fn default() -> (l: Self)
        ensures
            l.player_width == 327,
            l.player_height == 186,
            l.border_radius == 4,
    {
        SkinLayout {
            player_width: default_player_width(),
            player_height: default_player_height(),
            border_radius: default_border_radius(),
        }
    }
}

pub open spec fn default_font() -> Seq<char> {
    "'Segoe UI', 'Microsoft YaHei', sans-serif"@
}

pub fn default_font_title() -> (s: String)
    ensures
        s@ == default_font(),
{
    "'Segoe UI', 'Microsoft YaHei', sans-serif".to_owned()
}

pub fn default_font_body() -> (s: String)
    ensures
        s@ == default_font(),
{
    "'Segoe UI', 'Microsoft YaHei', sans-serif".to_owned()
}

/// Font configuration.
#[derive(Debug, Clone)]
pub struct SkinFonts {
    pub title: String,
    pub body: String,
    pub mono: Option<String>,
}

impl Default for SkinFonts {
    fn default() -> (f: Self)
        ensures
            f.title@ == default_font(),
            f.body@ == default_font(),
            f.mono is None,
    {
        SkinFonts { title: default_font_title(), body: default_font_body(), mono: None }
    }
}

/// A complete skin definition. The background and button images are keyed
/// by region and button name, in the order they are written to CSS.
#[derive(Debug, Clone)]
pub struct SkinDefinition {
    pub meta: SkinMeta,
    pub colors: SkinColors,
    pub layout: SkinLayout,
    pub fonts: SkinFonts,
    pub backgrounds: Vec<(String, SkinBackground)>,
    pub images: Vec<(String, ButtonImageSet)>,
    pub custom_css: Option<String>,
}

/// Skin info for the frontend.
#[derive(Debug, Clone)]
pub struct SkinInfo {
    pub id: String,
    pub name: String,
    pub version: String,
    pub author: String,
    pub description: String,
    pub is_builtin: bool,
    /// Whether the skin has image assets.
    pub has_images: bool,
}

// ── colours ──────────────────────────────────────────────────────────────

/// The value of a hexadecimal digit (`0-9`, `a-f`, `A-F`).
pub open spec fn hex_val(c: char) -> Option<u8> {
    if '0' <= c <= '9' {
        Some((c as u32 - 48) as u8)
    } else if 'a' <= c <= 'f' {
        Some((c as u32 - 87) as u8)
    } else if 'A' <= c <= 'F' {
        Some((c as u32 - 55) as u8)
    } else {
        None
    }
}

/// The byte that two hexadecimal digits `x y` write.
pub open spec fn hex_pair(x: char, y: char) -> Option<u8> {
    match (hex_val(x), hex_val(y)) {
        (Some(a), Some(b)) => Some((a * 16 + b) as u8),
        _ => None,
    }
}

/// The text with its leading `#`s removed.
pub open spec fn strip_hashes(s: Seq<char>) -> Seq<char>
    decreases s.len(),
{
    if s.len() > 0 && s[0] == '#' {
        strip_hashes(s.drop_first())
    } else {
        s
    }
}

/// The colour of three byte values, when all three read.
pub open spec fn rgb_of(r: Option<u8>, g: Option<u8>, b: Option<u8>) -> Option<(u8, u8, u8)> {
    match (r, g, b) {
        (Some(r), Some(g), Some(b)) => Some((r, g, b)),
        _ => None,
    }
}

/// The colour of `#RGB` or `#RRGGBB` (trimmed, any number of leading `#`;
/// `#RGB` doubles each digit); `None` for anything else.
pub open spec fn spec_parse_hex(s: Seq<char>) -> Option<(u8, u8, u8)> {
    let t = strip_hashes(trim(s));
    if t.len() == 3 {
        rgb_of(hex_pair(t[0], t[0]), hex_pair(t[1], t[1]), hex_pair(t[2], t[2]))
    } else if t.len() == 6 {
        rgb_of(hex_pair(t[0], t[1]), hex_pair(t[2], t[3]), hex_pair(t[4], t[5]))
    } else {
        None
    }
}

fn hex_val_exec(c: char) -> (r: Option<u8>)
    ensures
        r == hex_val(c),
{
    if '0' <= c && c <= '9' {
        Some((c as u32 - 48) as u8)
    } else if 'a' <= c && c <= 'f' {
        Some((c as u32 - 87) as u8)
    } else if 'A' <= c && c <= 'F' {
        Some((c as u32 - 55) as u8)
    } else {
        None
    }
}

fn hex_pair_exec(x: char, y: char) -> (r: Option<u8>)
    ensures
        r == hex_pair(x, y),
{
    match (hex_val_exec(x), hex_val_exec(y)) {
        (Some(a), Some(b)) => Some(a * 16 + b),
        _ => None,
    }
}

fn rgb_of_exec(r: Option<u8>, g: Option<u8>, b: Option<u8>) -> (c: Option<(u8, u8, u8)>)
    ensures
        c == rgb_of(r, g, b),
{
    match (r, g, b) {
        (Some(r), Some(g), Some(b)) => Some((r, g, b)),
        _ => None,
    }
}

/// Parse a `#RGB` or `#RRGGBB` hex string into `(r, g, b)`; `None` for
/// malformed input.
pub fn parse_hex_color(s: &str) -> (r: Option<(u8, u8, u8)>)
    ensures
        r == spec_parse_hex(s@),
{
    let v = chars_of(s);
    assert(v@.subrange(0, v@.len() as int) =~= v@);
    let t = trimmed(&v, 0, v.len());
    let mut i: usize = 0;
    assert(t@.subrange(0, t@.len() as int) =~= t@);
    while i < t.len() && t[i] == '#'
        invariant
            i <= t@.len(),
            strip_hashes(t@) == strip_hashes(t@.subrange(i as int, t@.len() as int)),
        decreases t@.len() - i,
    {
        assert(t@.subrange(i as int, t@.len() as int).drop_first() =~= t@.subrange(
            i + 1,
            t@.len() as int,
        ));
        i = i + 1;
    }
    let u = crate::text::slice_vec(&t, i, t.len());
    assert(u@ == strip_hashes(trim(s@)));
    if u.len() == 3 {
        rgb_of_exec(hex_pair_exec(u[0], u[0]), hex_pair_exec(u[1], u[1]), hex_pair_exec(u[2], u[2]))
    } else if u.len() == 6 {
        rgb_of_exec(hex_pair_exec(u[0], u[1]), hex_pair_exec(u[2], u[3]), hex_pair_exec(u[4], u[5]))
    } else {
        None
    }
}

/// A colour channel mixed 55% toward white, rounded half up:
/// `c + (255 - c) * 0.55`.
pub open spec fn tint(c: u8) -> u8 {
    ((45 * c + 14025 + 50) / 100) as u8
}

pub open spec fn hex_digit(d: int) -> char {
    if d < 10 {
        (48 + d) as char
    } else {
        (87 + d) as char
    }
}

/// `{:02x}`: two lower-case hexadecimal digits.
pub open spec fn hex2(n: u8) -> Seq<char> {
    seq![hex_digit((n / 16) as int), hex_digit((n % 16) as int)]
}

/// `#rrggbb` in lower-case hexadecimal.
pub open spec fn hex_color(c: (u8, u8, u8)) -> Seq<char> {
    seq!['#'] + hex2(c.0) + hex2(c.1) + hex2(c.2)
}

fn push_hex2(out: &mut Vec<char>, n: u8)
    ensures
        final(out)@ == old(out)@ + hex2(n),
{
    let hi = n / 16;
    let lo = n % 16;
    let ch = if hi < 10 {
        ((48 + hi) as char)
    } else {
        ((87 + hi) as char)
    };
    let cl = if lo < 10 {
        ((48 + lo) as char)
    } else {
        ((87 + lo) as char)
    };
    out.push(ch);
    out.push(cl);
    assert(final(out)@ =~= old(out)@ + hex2(n));
}

/// `#rrggbb` of a colour.
pub fn hex_string(c: (u8, u8, u8)) -> (s: String)
    ensures
        s@ == hex_color(c),
{
    let mut out: Vec<char> = Vec::new();
    out.push('#');
    push_hex2(&mut out, c.0);
    push_hex2(&mut out, c.1);
    push_hex2(&mut out, c.2);
    assert(out@ =~= hex_color(c));
    string_of(out.as_slice())
}

/// The pale tint of an accent colour: each channel mixed 55% toward white.
pub fn accent_tint(rgb: (u8, u8, u8)) -> (s: String)
    ensures
        s@ == hex_color((tint(rgb.0), tint(rgb.1), tint(rgb.2))),
{
    let r = ((45 * (rgb.0 as u32) + 14075) / 100) as u8;
    let g = ((45 * (rgb.1 as u32) + 14075) / 100) as u8;
    let b = ((45 * (rgb.2 as u32) + 14075) / 100) as u8;
    hex_string((r, g, b))
}

// ── assets ───────────────────────────────────────────────────────────────

/// The Base64 digit of a six-bit value (RFC 4648 standard alphabet).
pub open spec fn b64_digit(v: int) -> char {
    if v < 26 {
        (65 + v) as char
    } else if v < 52 {
        (97 + v - 26) as char
    } else if v < 62 {
        (48 + v - 52) as char
    } else if v == 62 {
        '+'
    } else {
        '/'
    }
}

/// The Base64 encoding of the bytes (RFC 4648, standard alphabet, padded
/// with `=`): every three bytes become four digits; one or two bytes left
/// at the end become two or three digits and the padding.
pub open spec fn base64_standard(b: Seq<u8>) -> Seq<char>
    decreases b.len(),
{
    if b.len() == 0 {
        Seq::empty()
    } else if b.len() == 1 {
        seq![b64_digit(b[0] as int / 4), b64_digit((b[0] as int % 4) * 16), '=', '=']
    } else if b.len() == 2 {
        seq![
            b64_digit(b[0] as int / 4),
            b64_digit((b[0] as int % 4) * 16 + b[1] as int / 16),
            b64_digit((b[1] as int % 16) * 4),
            '=',
        ]
    } else {
        seq![
            b64_digit(b[0] as int / 4),
            b64_digit((b[0] as int % 4) * 16 + b[1] as int / 16),
            b64_digit((b[1] as int % 16) * 4 + b[2] as int / 64),
            b64_digit(b[2] as int % 64),
        ] + base64_standard(b.subrange(3, b.len() as int))
    }
}

/// `base64::engine::general_purpose::STANDARD.encode`: RFC 4648 Base64 with
/// the standard alphabet and padding, as `base64_standard` spells it out.
#[verifier::external_body]
pub(crate) fn base64_encode(bytes: &[u8]) -> (s: String)
    ensures
        s@ == base64_standard(bytes@),
{
    base64::engine::general_purpose::STANDARD.encode(bytes)
}

/// The MIME type of an image file, by its extension.
pub open spec fn image_mime(ext: Option<Seq<char>>) -> Seq<char> {
    match ext {
        Some(e) => if e == "svg"@ {
            "image/svg+xml"@
        } else if e == "png"@ {
            "image/png"@
        } else if e == "jpg"@ || e == "jpeg"@ {
            "image/jpeg"@
        } else if e == "gif"@ {
            "image/gif"@
        } else if e == "webp"@ {
            "image/webp"@
        } else {
            "application/octet-stream"@
        },
        None => "application/octet-stream"@,
    }
}

/// A CSS data URI for an image file's bytes: `data:{mime};base64,{data}`.
pub fn image_data_uri(path: &str, bytes: &[u8]) -> (s: String)
    ensures
        s@ == "data:"@ + image_mime(paths::path_extension(path@)) + ";base64,"@ + base64_standard(
            bytes@,
        ),
{
    let ext = paths::extension(path);
    let mime: &str = match &ext {
        Some(e) => {
            let e = e.as_str();
            if str_eq(e, "svg") {
                "image/svg+xml"
            } else if str_eq(e, "png") {
                "image/png"
            } else if str_eq(e, "jpg") || str_eq(e, "jpeg") {
                "image/jpeg"
            } else if str_eq(e, "gif") {
                "image/gif"
            } else if str_eq(e, "webp") {
                "image/webp"
            } else {
                "application/octet-stream"
            }
        },
        None => "application/octet-stream",
    };
    let data = base64_encode(bytes);
    let mut out = chars_of("data:");
    let mut m = chars_of(mime);
    out.append(&mut m);
    let mut sep = chars_of(";base64,");
    out.append(&mut sep);
    let mut d = chars_of(data.as_str());
    out.append(&mut d);
    string_of(out.as_slice())
}

// ── CSS ──────────────────────────────────────────────────────────────────

/// `  --{name}: {value};\n`
pub open spec fn css_decl(name: Seq<char>, value: Seq<char>) -> Seq<char> {
    "  --"@ + name + ": "@ + value + ";\n"@
}

/// A declaration for a value that may be absent.
pub open spec fn opt_decl(name: Seq<char>, value: Option<String>) -> Seq<char> {
    match value {
        Some(v) => css_decl(name, v@),
        None => Seq::empty(),
    }
}

/// `r, g, b` in decimal.
pub open spec fn rgb_text(c: (u8, u8, u8)) -> Seq<char> {
    dec(c.0 as nat) + ", "@ + dec(c.1 as nat) + ", "@ + dec(c.2 as nat)
}

pub open spec fn spectrum_decls(c: SkinColors) -> Seq<char> {
    opt_decl("spectrum-top"@, c.spectrum_top) + opt_decl("spectrum-bottom"@, c.spectrum_bottom)
        + opt_decl("spectrum-peak"@, c.spectrum_peak)
}

/// The colour of a text when it reads as one, else `fallback`.
pub open spec fn color_or(s: Seq<char>, fallback: (u8, u8, u8)) -> (u8, u8, u8) {
    match spec_parse_hex(s) {
        Some(c) => c,
        None => fallback,
    }
}

/// The accent's RGB channels (a violet when the accent does not read).
pub open spec fn accent_rgb(c: SkinColors) -> (u8, u8, u8) {
    color_or(c.accent@, (124, 108, 240))
}

/// The primary text colour's RGB channels (a pale violet when it does not
/// read).
pub open spec fn text_rgb(c: SkinColors) -> (u8, u8, u8) {
    color_or(c.text_primary@, (224, 212, 255))
}

/// The accent's light tint: as given, else the accent mixed toward white.
pub open spec fn accent_light(c: SkinColors) -> Seq<char> {
    match c.accent_light {
        Some(l) => l@,
        None => {
            let rgb = accent_rgb(c);
            hex_color((tint(rgb.0), tint(rgb.1), tint(rgb.2)))
        },
    }
}

pub open spec fn root_head(skin: SkinDefinition) -> Seq<char> {
    let c = skin.colors;
    ":root {\n"@ + css_decl("bg-primary"@, c.bg_primary@) + css_decl(
        "bg-secondary"@,
        c.bg_secondary@,
    ) + css_decl("bg-tertiary"@, c.bg_tertiary@) + css_decl("text-primary"@, c.text_primary@)
        + css_decl("text-primary-rgb"@, rgb_text(text_rgb(c)))
}

pub open spec fn root_accent(skin: SkinDefinition) -> Seq<char> {
    let c = skin.colors;
    css_decl("text-secondary"@, c.text_secondary@) + css_decl("highlight"@, c.highlight@) + css_decl(
        "accent"@,
        c.accent@,
    ) + css_decl("accent-hover"@, c.accent_hover@) + css_decl(
        "accent-rgb"@,
        rgb_text(accent_rgb(c)),
    ) + css_decl("accent-light"@, accent_light(c))
}

pub open spec fn root_panels(skin: SkinDefinition) -> Seq<char> {
    let c = skin.colors;
    css_decl("progress-fill"@, c.progress_fill@) + css_decl("progress-bg"@, c.progress_bg@)
        + css_decl("border-color"@, c.border_color@) + css_decl("panel-bg"@, c.panel_bg@)
        + css_decl("button-bg"@, c.button_bg@) + css_decl("button-hover"@, c.button_hover@)
}

pub open spec fn root_shape(skin: SkinDefinition) -> Seq<char> {
    css_decl("border-radius"@, dec(skin.layout.border_radius as nat) + "px"@) + css_decl(
        "font-title"@,
        skin.fonts.title@,
    ) + css_decl("font-body"@, skin.fonts.body@)
}

/// The opening of the dark (default) palette: colours, radius and fonts.
pub open spec fn root_decls(skin: SkinDefinition) -> Seq<char> {
    root_head(skin) + root_accent(skin) + root_panels(skin) + root_shape(skin)
}

/// `  --bg-{region}-{prop}: {value};\n`
pub open spec fn bg_prop(region: Seq<char>, prop: Seq<char>, value: Seq<char>) -> Seq<char> {
    "  --bg-"@ + region + "-"@ + prop + ": "@ + value + ";\n"@
}

/// The declarations of one background region, with its image's data URI.
pub open spec fn bg_decls(region: Seq<char>, bg: SkinBackground, uri: Seq<char>) -> Seq<char> {
    (if uri.len() > 0 {
        bg_prop(region, "image"@, "url(\""@ + uri + "\")"@)
    } else {
        Seq::empty()
    }) + bg_prop(region, "size"@, bg.size@) + bg_prop(region, "position"@, bg.position@) + bg_prop(
        region,
        "repeat"@,
        bg.repeat@,
    )
}

/// The background declarations from region `i` on, with the data URIs of
/// their images in order.
pub open spec fn bgs_css(bgs: Seq<(String, SkinBackground)>, i: int, uris: Seq<Seq<char>>) -> Seq<
    char,
>
    decreases bgs.len() - i,
{
    if i < 0 || i >= bgs.len() {
        Seq::empty()
    } else {
        bg_decls(bgs[i].0@, bgs[i].1, uris[0]) + bgs_css(bgs, i + 1, uris.drop_first())
    }
}

/// `  --img-{name}-{state}: url("{uri}");\n`, nothing for an image that
/// could not be read.
#[verifier::opaque]
pub open spec fn img_decl(name: Seq<char>, state: Seq<char>, uri: Seq<char>) -> Seq<char> {
    if uri.len() > 0 {
        "  --img-"@ + name + "-"@ + state + ": url(\""@ + uri + "\");\n"@
    } else {
        Seq::empty()
    }
}

pub open spec fn opt_count(o: Option<String>) -> int {
    if o is Some {
        1
    } else {
        0
    }
}

/// How many image files a button has.
pub open spec fn img_files(set: ButtonImageSet) -> int {
    1 + opt_count(set.hover) + opt_count(set.pressed) + opt_count(set.disabled)
}

/// The declarations of one button's images, with their data URIs in order:
/// normal, then hover, pressed and disabled where present.
pub open spec fn img_decls(name: Seq<char>, set: ButtonImageSet, uris: Seq<Seq<char>>) -> Seq<char> {
    let h = opt_count(set.hover);
    let p = opt_count(set.pressed);
    img_decl(name, "normal"@, uris[0]) + (if set.hover is Some {
        img_decl(name, "hover"@, uris[1])
    } else {
        Seq::empty()
    }) + (if set.pressed is Some {
        img_decl(name, "pressed"@, uris[1 + h])
    } else {
        Seq::empty()
    }) + (if set.disabled is Some {
        img_decl(name, "disabled"@, uris[1 + h + p])
    } else {
        Seq::empty()
    })
}

/// The button image declarations from button `i` on.
pub open spec fn imgs_css(imgs: Seq<(String, ButtonImageSet)>, i: int, uris: Seq<Seq<char>>) -> Seq<
    char,
>
    decreases imgs.len() - i,
{
    if i < 0 || i >= imgs.len() {
        Seq::empty()
    } else {
        img_decls(imgs[i].0@, imgs[i].1, uris) + imgs_css(
            imgs,
            i + 1,
            uris.subrange(img_files(imgs[i].1), uris.len() as int),
        )
    }
}

/// The image files of the buttons from button `i` on, in order.
pub open spec fn img_assets(imgs: Seq<(String, ButtonImageSet)>, i: int) -> Seq<Seq<char>>
    decreases imgs.len() - i,
{
    if i < 0 || i >= imgs.len() {
        Seq::empty()
    } else {
        let set = imgs[i].1;
        seq![set.normal@] + (match set.hover {
            Some(x) => seq![x@],
            None => Seq::empty(),
        }) + (match set.pressed {
            Some(x) => seq![x@],
            None => Seq::empty(),
        }) + (match set.disabled {
            Some(x) => seq![x@],
            None => Seq::empty(),
        }) + img_assets(imgs, i + 1)
    }
}

/// The background images from region `i` on, in order.
pub open spec fn bg_assets(bgs: Seq<(String, SkinBackground)>, i: int) -> Seq<Seq<char>>
    decreases bgs.len() - i,
{
    if i < 0 || i >= bgs.len() {
        Seq::empty()
    } else {
        seq![bgs[i].1.image@] + bg_assets(bgs, i + 1)
    }
}

/// Every image file of a skin, in the order its CSS uses them.
pub open spec fn skin_assets(skin: SkinDefinition) -> Seq<Seq<char>> {
    bg_assets(skin.backgrounds@, 0) + img_assets(skin.images@, 0)
}

/// The light palette: fixed light colours, the skin's accent colours.
pub open spec fn light_block(c: SkinColors) -> Seq<char> {
    ":root[data-theme=\"light\"] {\n"@
        + "  --bg-primary: #f2f2f2;\n  --bg-secondary: #e8e8e8;\n  --bg-tertiary: #dcdcdc;\n  --text-primary: #1a1a1a;\n  --text-primary-rgb: 26, 26, 26;\n  --text-secondary: #666666;\n  --highlight: #333333;\n"@
        + css_decl("accent"@, c.accent@) + css_decl("accent-hover"@, c.accent_hover@) + css_decl(
        "accent-rgb"@,
        rgb_text(accent_rgb(c)),
    ) + css_decl("accent-light"@, accent_light(c)) + css_decl("progress-fill"@, c.progress_fill@)
        + "  --progress-bg: #d4d4d4;\n  --border-color: #d0d0d0;\n  --panel-bg: #f2f2f2;\n  --button-bg: #e6e6e6;\n  --button-hover: #d8d8d8;\n"@
        + spectrum_decls(c) + "}\n"@
}

/// The rules that draw a button with its images.
pub open spec fn button_rules(name: Seq<char>, set: ButtonImageSet) -> Seq<char> {
    let sel = "[data-skin-btn=\""@ + name + "\"]"@;
    sel + " {\n  background-image: var(--img-"@ + name
        + "-normal) !important;\n  background-size: contain !important;\n  background-repeat: no-repeat !important;\n  background-position: center !important;\n  background-color: transparent !important;\n  color: transparent !important;\n  font-size: 0 !important;\n}\n"@
        + (if set.hover is Some {
        sel + ":hover { background-image: var(--img-"@ + name + "-hover) !important; }\n"@
    } else {
        Seq::empty()
    }) + (if set.pressed is Some {
        sel + ":active { background-image: var(--img-"@ + name + "-pressed) !important; }\n"@
    } else {
        Seq::empty()
    })
}

pub open spec fn buttons_css(imgs: Seq<(String, ButtonImageSet)>, i: int) -> Seq<char>
    decreases imgs.len() - i,
{
    if i < 0 || i >= imgs.len() {
        Seq::empty()
    } else {
        button_rules(imgs[i].0@, imgs[i].1) + buttons_css(imgs, i + 1)
    }
}

/// The CSS of a skin, given the data URIs of its image files in the order
/// of `skin_assets` (an empty URI for a file that could not be read): the
/// dark palette with fonts, spectrum colours and images, the light palette,
/// the button rules, and the skin's own CSS.
pub open spec fn skin_css(skin: SkinDefinition, uris: Seq<Seq<char>>) -> Seq<char> {
    let nb = skin.backgrounds@.len() as int;
    root_decls(skin) + spectrum_decls(skin.colors) + opt_decl("font-mono"@, skin.fonts.mono)
        + bgs_css(skin.backgrounds@, 0, uris) + imgs_css(
        skin.images@,
        0,
        uris.subrange(nb, uris.len() as int),
    ) + "}\n"@ + light_block(skin.colors) + buttons_css(skin.images@, 0) + (match skin.custom_css {
        Some(cs) => "\n"@ + cs@,
        None => Seq::empty(),
    })
}

proof fn lemma_img_assets_len(imgs: Seq<(String, ButtonImageSet)>, i: int)
    requires
        0 <= i <= imgs.len(),
    ensures
        img_assets(imgs, i).len() >= 0,
        i < imgs.len() ==> img_assets(imgs, i).len() == img_files(imgs[i].1) + img_assets(
            imgs,
            i + 1,
        ).len(),
    decreases imgs.len() - i,
{
}

proof fn lemma_bg_assets_len(bgs: Seq<(String, SkinBackground)>, i: int)
    requires
        0 <= i <= bgs.len(),
    ensures
        bg_assets(bgs, i).len() == bgs.len() - i,
    decreases bgs.len() - i,
{
    if i < bgs.len() {
        lemma_bg_assets_len(bgs, i + 1);
    }
}

fn push_decl(out: &mut Vec<char>, name: &str, value: &str)
    ensures
        final(out)@ == old(out)@ + css_decl(name@, value@),
{
    push_str(out, "  --");
    push_str(out, name);
    push_str(out, ": ");
    push_str(out, value);
    push_str(out, ";\n");
    assert(final(out)@ =~= old(out)@ + css_decl(name@, value@));
}

fn push_opt_decl(out: &mut Vec<char>, name: &str, value: &Option<String>)
    ensures
        final(out)@ == old(out)@ + opt_decl(name@, *value),
{
    match value {
        Some(v) => push_decl(out, name, v.as_str()),
        None => assert(final(out)@ =~= old(out)@ + opt_decl(name@, *value)),
    }
}

fn push_rgb(out: &mut Vec<char>, c: (u8, u8, u8))
    ensures
        final(out)@ == old(out)@ + rgb_text(c),
{
    push_dec(out, c.0 as u64);
    push_str(out, ", ");
    push_dec(out, c.1 as u64);
    push_str(out, ", ");
    push_dec(out, c.2 as u64);
    assert(final(out)@ =~= old(out)@ + rgb_text(c));
}

fn text_of_chars(v: Vec<char>) -> (s: String)
    ensures
        s@ == v@,
{
    string_of(v.as_slice())
}

fn push_spectrum(out: &mut Vec<char>, c: &SkinColors)
    ensures
        final(out)@ == old(out)@ + spectrum_decls(*c),
{
    push_opt_decl(out, "spectrum-top", &c.spectrum_top);
    push_opt_decl(out, "spectrum-bottom", &c.spectrum_bottom);
    push_opt_decl(out, "spectrum-peak", &c.spectrum_peak);
    assert(final(out)@ =~= old(out)@ + spectrum_decls(*c));
}

fn color_or_exec(s: &str, fallback: (u8, u8, u8)) -> (r: (u8, u8, u8))
    ensures
        r == color_or(s@, fallback),
{
    match parse_hex_color(s) {
        Some(c) => c,
        None => fallback,
    }
}

fn push_root_head(out: &mut Vec<char>, skin: &SkinDefinition, trgb: (u8, u8, u8))
    requires
        trgb == text_rgb(skin.colors),
    ensures
        final(out)@ == old(out)@ + root_head(*skin),
{
    let c = &skin.colors;
    push_str(out, ":root {\n");
    push_decl(out, "bg-primary", c.bg_primary.as_str());
    push_decl(out, "bg-secondary", c.bg_secondary.as_str());
    push_decl(out, "bg-tertiary", c.bg_tertiary.as_str());
    push_decl(out, "text-primary", c.text_primary.as_str());
    let mut t: Vec<char> = Vec::new();
    push_rgb(&mut t, trgb);
    assert(t@ =~= rgb_text(trgb));
    let ts = text_of_chars(t);
    push_decl(out, "text-primary-rgb", ts.as_str());
    assert(final(out)@ =~= old(out)@ + root_head(*skin));
}

fn push_root_accent(out: &mut Vec<char>, skin: &SkinDefinition, rgb: (u8, u8, u8), light: &str)
    requires
        rgb == accent_rgb(skin.colors),
        light@ == accent_light(skin.colors),
    ensures
        final(out)@ == old(out)@ + root_accent(*skin),
{
    let c = &skin.colors;
    push_decl(out, "text-secondary", c.text_secondary.as_str());
    push_decl(out, "highlight", c.highlight.as_str());
    push_decl(out, "accent", c.accent.as_str());
    push_decl(out, "accent-hover", c.accent_hover.as_str());
    let mut a: Vec<char> = Vec::new();
    push_rgb(&mut a, rgb);
    assert(a@ =~= rgb_text(rgb));
    let as_ = text_of_chars(a);
    push_decl(out, "accent-rgb", as_.as_str());
    push_decl(out, "accent-light", light);
    assert(final(out)@ =~= old(out)@ + root_accent(*skin));
}

fn push_root_panels(out: &mut Vec<char>, skin: &SkinDefinition)
    ensures
        final(out)@ == old(out)@ + root_panels(*skin),
{
    let c = &skin.colors;
    push_decl(out, "progress-fill", c.progress_fill.as_str());
    push_decl(out, "progress-bg", c.progress_bg.as_str());
    push_decl(out, "border-color", c.border_color.as_str());
    push_decl(out, "panel-bg", c.panel_bg.as_str());
    push_decl(out, "button-bg", c.button_bg.as_str());
    push_decl(out, "button-hover", c.button_hover.as_str());
    assert(final(out)@ =~= old(out)@ + root_panels(*skin));
}

fn push_root_shape(out: &mut Vec<char>, skin: &SkinDefinition)
    ensures
        final(out)@ == old(out)@ + root_shape(*skin),
{
    let mut r: Vec<char> = Vec::new();
    push_dec(&mut r, skin.layout.border_radius as u64);
    push_str(&mut r, "px");
    assert(r@ =~= dec(skin.layout.border_radius as nat) + "px"@);
    let rs = text_of_chars(r);
    push_decl(out, "border-radius", rs.as_str());
    push_decl(out, "font-title", skin.fonts.title.as_str());
    push_decl(out, "font-body", skin.fonts.body.as_str());
    assert(final(out)@ =~= old(out)@ + root_shape(*skin));
}

fn push_root(out: &mut Vec<char>, skin: &SkinDefinition, rgb: (u8, u8, u8), trgb: (u8, u8, u8), light: &str)
    requires
        rgb == accent_rgb(skin.colors),
        trgb == text_rgb(skin.colors),
        light@ == accent_light(skin.colors),
    ensures
        final(out)@ == old(out)@ + root_decls(*skin),
{
    push_root_head(out, skin, trgb);
    push_root_accent(out, skin, rgb, light);
    push_root_panels(out, skin);
    push_root_shape(out, skin);
    assert(final(out)@ =~= old(out)@ + root_decls(*skin));
}

fn push_light(out: &mut Vec<char>, c: &SkinColors, rgb: (u8, u8, u8), light: &str)
    requires
        rgb == accent_rgb(*c),
        light@ == accent_light(*c),
    ensures
        final(out)@ == old(out)@ + light_block(*c),
{
    push_str(out, ":root[data-theme=\"light\"] {\n");
    push_str(
        out,
        "  --bg-primary: #f2f2f2;\n  --bg-secondary: #e8e8e8;\n  --bg-tertiary: #dcdcdc;\n  --text-primary: #1a1a1a;\n  --text-primary-rgb: 26, 26, 26;\n  --text-secondary: #666666;\n  --highlight: #333333;\n",
    );
    push_decl(out, "accent", c.accent.as_str());
    push_decl(out, "accent-hover", c.accent_hover.as_str());
    let mut a: Vec<char> = Vec::new();
    push_rgb(&mut a, rgb);
    assert(a@ =~= rgb_text(rgb));
    let as_ = text_of_chars(a);
    push_decl(out, "accent-rgb", as_.as_str());
    push_decl(out, "accent-light", light);
    push_decl(out, "progress-fill", c.progress_fill.as_str());
    push_str(
        out,
        "  --progress-bg: #d4d4d4;\n  --border-color: #d0d0d0;\n  --panel-bg: #f2f2f2;\n  --button-bg: #e6e6e6;\n  --button-hover: #d8d8d8;\n",
    );
    push_spectrum(out, c);
    push_str(out, "}\n");
    assert(final(out)@ =~= old(out)@ + light_block(*c));
}

fn push_bg_prop(out: &mut Vec<char>, region: &str, prop: &str, value: &str)
    ensures
        final(out)@ == old(out)@ + bg_prop(region@, prop@, value@),
{
    push_str(out, "  --bg-");
    push_str(out, region);
    push_str(out, "-");
    push_str(out, prop);
    push_str(out, ": ");
    push_str(out, value);
    push_str(out, ";\n");
    assert(final(out)@ =~= old(out)@ + bg_prop(region@, prop@, value@));
}

fn push_bg(out: &mut Vec<char>, region: &str, bg: &SkinBackground, uri: &str)
    ensures
        final(out)@ == old(out)@ + bg_decls(region@, *bg, uri@),
{
    let ghost start = out@;
    if uri.unicode_len() > 0 {
        let mut u: Vec<char> = Vec::new();
        push_str(&mut u, "url(\"");
        push_str(&mut u, uri);
        push_str(&mut u, "\")");
        assert(u@ =~= "url(\""@ + uri@ + "\")"@);
        let us = text_of_chars(u);
        push_bg_prop(out, region, "image", us.as_str());
    }
    let ghost a = out@;
    assert(a =~= start + (if uri@.len() > 0 {
        bg_prop(region@, "image"@, "url(\""@ + uri@ + "\")"@)
    } else {
        Seq::empty()
    }));
    push_bg_prop(out, region, "size", bg.size.as_str());
    push_bg_prop(out, region, "position", bg.position.as_str());
    push_bg_prop(out, region, "repeat", bg.repeat.as_str());
    assert(final(out)@ =~= old(out)@ + bg_decls(region@, *bg, uri@));
}

fn push_img_decl(out: &mut Vec<char>, name: &str, state: &str, uri: &str)
    ensures
        final(out)@ == old(out)@ + img_decl(name@, state@, uri@),
{
    reveal(img_decl);
    if uri.unicode_len() > 0 {
        push_str(out, "  --img-");
        push_str(out, name);
        push_str(out, "-");
        push_str(out, state);
        push_str(out, ": url(\"");
        push_str(out, uri);
        push_str(out, "\");\n");
        assert(final(out)@ =~= old(out)@ + img_decl(name@, state@, uri@));
    } else {
        assert(final(out)@ =~= old(out)@ + img_decl(name@, state@, uri@));
    }
}

pub open spec fn strings_view(v: Seq<String>) -> Seq<Seq<char>> {
    v.map_values(|s: String| s@)
}

fn push_opt_img(out: &mut Vec<char>, name: &str, state: &str, present: bool, uris: &[String], j: usize) -> (next: usize)
    requires
        present ==> j < uris@.len(),
    ensures
        next == j + (if present {
            1int
        } else {
            0
        }),
        final(out)@ == old(out)@ + (if present {
            img_decl(name@, state@, uris@[j as int]@)
        } else {
            Seq::<char>::empty()
        }),
{
    if present {
        push_img_decl(out, name, state, uris[j].as_str());
        j + 1
    } else {
        assert(final(out)@ =~= old(out)@ + Seq::<char>::empty());
        j
    }
}

/// Push one button's image declarations, using the URIs from `k` on;
/// returns where the next button's URIs start.
fn push_imgs_of(out: &mut Vec<char>, name: &str, set: &ButtonImageSet, uris: &[String], k: usize) -> (next: usize)
    requires
        k + img_files(*set) <= uris@.len(),
    ensures
        next == k + img_files(*set),
        final(out)@ == old(out)@ + img_decls(
            name@,
            *set,
            strings_view(uris@).subrange(k as int, uris@.len() as int),
        ),
{
    let ghost us = strings_view(uris@).subrange(k as int, uris@.len() as int);
    let ghost o0 = out@;
    push_img_decl(out, name, "normal", uris[k].as_str());
    let ghost o1 = out@;
    let j1 = push_opt_img(out, name, "hover", set.hover.is_some(), uris, k + 1);
    let ghost o2 = out@;
    let j2 = push_opt_img(out, name, "pressed", set.pressed.is_some(), uris, j1);
    let ghost o3 = out@;
    let j3 = push_opt_img(out, name, "disabled", set.disabled.is_some(), uris, j2);
    proof {
        let h = opt_count(set.hover);
        let p = opt_count(set.pressed);
        let n = "normal"@;
        assert(us[0] == uris@[k as int]@);
        let pa = img_decl(name@, n, us[0]);
        let pb = if set.hover is Some {
            img_decl(name@, "hover"@, us[1])
        } else {
            Seq::empty()
        };
        let pc = if set.pressed is Some {
            img_decl(name@, "pressed"@, us[1 + h])
        } else {
            Seq::empty()
        };
        let pd = if set.disabled is Some {
            img_decl(name@, "disabled"@, us[1 + h + p])
        } else {
            Seq::empty()
        };
        assert(o1 == o0 + pa);
        if set.hover is Some {
            assert(us[1] == uris@[k + 1]@);
        }
        assert(o2 == o1 + pb);
        if set.pressed is Some {
            assert(us[1 + h] == uris@[j1 as int]@);
        }
        assert(o3 == o2 + pc);
        if set.disabled is Some {
            assert(us[1 + h + p] == uris@[j2 as int]@);
        }
        assert(out@ == o3 + pd);
        assert(img_decls(name@, *set, us) == pa + pb + pc + pd);
        assert(out@ =~= o0 + (pa + pb + pc + pd));
    }
    j3
}

fn push_button_rules(out: &mut Vec<char>, name: &str, set: &ButtonImageSet)
    ensures
        final(out)@ == old(out)@ + button_rules(name@, *set),
{
    let mut selv: Vec<char> = Vec::new();
    push_str(&mut selv, "[data-skin-btn=\"");
    push_str(&mut selv, name);
    push_str(&mut selv, "\"]");
    let sel = text_of_chars(selv);
    push_str(out, sel.as_str());
    push_str(out, " {\n  background-image: var(--img-");
    push_str(out, name);
    push_str(
        out,
        "-normal) !important;\n  background-size: contain !important;\n  background-repeat: no-repeat !important;\n  background-position: center !important;\n  background-color: transparent !important;\n  color: transparent !important;\n  font-size: 0 !important;\n}\n",
    );
    let ghost a1 = out@;
    if set.hover.is_some() {
        push_str(out, sel.as_str());
        push_str(out, ":hover { background-image: var(--img-");
        push_str(out, name);
        push_str(out, "-hover) !important; }\n");
    }
    let ghost a2 = out@;
    if set.pressed.is_some() {
        push_str(out, sel.as_str());
        push_str(out, ":active { background-image: var(--img-");
        push_str(out, name);
        push_str(out, "-pressed) !important; }\n");
    }
    assert(final(out)@ =~= old(out)@ + button_rules(name@, *set));
}

/// No two backgrounds of a skin share a name, and no two image sets do: each
/// names one CSS variable.
pub open spec fn distinct_keys(skin: SkinDefinition) -> bool {
    &&& forall|i: int, j: int|
        0 <= i < j < skin.backgrounds@.len() ==> (#[trigger] skin.backgrounds@[i]).0@
            != (#[trigger] skin.backgrounds@[j]).0@
    &&& forall|i: int, j: int|
        0 <= i < j < skin.images@.len() ==> (#[trigger] skin.images@[i]).0@
            != (#[trigger] skin.images@[j]).0@
}

/// Whether no two backgrounds of the skin share a name and no two image sets
/// do.
pub fn has_distinct_keys(skin: &SkinDefinition) -> (b: bool)
    ensures
        b == distinct_keys(*skin),
{
    let bs = &skin.backgrounds;
    let mut i: usize = 0;
    while i < bs.len()
        invariant
            i <= bs@.len(),
            bs == &skin.backgrounds,
            forall|a: int, c: int| 0 <= a < i && a < c < bs@.len() ==> (#[trigger] bs@[a]).0@
                != (#[trigger] bs@[c]).0@,
        decreases bs@.len() - i,
    {
        let mut j: usize = i + 1;
        while j < bs.len()
            invariant
                i < bs@.len(),
                i + 1 <= j <= bs@.len(),
                bs == &skin.backgrounds,
                forall|a: int, c: int| 0 <= a < i && a < c < bs@.len() ==> (#[trigger] bs@[a]).0@
                    != (#[trigger] bs@[c]).0@,
                forall|c: int| i < c < j ==> bs@[i as int].0@ != (#[trigger] bs@[c]).0@,
            decreases bs@.len() - j,
        {
            if str_eq(bs[i].0.as_str(), bs[j].0.as_str()) {
                return false;
            }
            j = j + 1;
        }
        i = i + 1;
    }
    let ims = &skin.images;
    let mut i: usize = 0;
    while i < ims.len()
        invariant
            i <= ims@.len(),
            ims == &skin.images,
            forall|a: int, c: int| 0 <= a < i && a < c < ims@.len() ==> (#[trigger] ims@[a]).0@
                != (#[trigger] ims@[c]).0@,
        decreases ims@.len() - i,
    {
        let mut j: usize = i + 1;
        while j < ims.len()
            invariant
                i < ims@.len(),
                i + 1 <= j <= ims@.len(),
                ims == &skin.images,
                forall|a: int, c: int| 0 <= a < i && a < c < ims@.len() ==> (#[trigger] ims@[a]).0@
                    != (#[trigger] ims@[c]).0@,
                forall|c: int| i < c < j ==> ims@[i as int].0@ != (#[trigger] ims@[c]).0@,
            decreases ims@.len() - j,
        {
            if str_eq(ims[i].0.as_str(), ims[j].0.as_str()) {
                return false;
            }
            j = j + 1;
        }
        i = i + 1;
    }
    true
}

/// Generate the CSS of a skin, given the data URIs of its image files in
/// the order of `skin_assets`.
#[verifier::spinoff_prover]
#[verifier::rlimit(60)]
pub fn generate_css(skin: &SkinDefinition, uris: &[String]) -> (css: String)
    requires
        distinct_keys(*skin),
        uris@.len() == skin_assets(*skin).len(),
    ensures
        css@ == skin_css(*skin, strings_view(uris@)),
{
    let ghost us = strings_view(uris@);
    let c = &skin.colors;
    let rgb = color_or_exec(c.accent.as_str(), (124, 108, 240));
    let trgb = color_or_exec(c.text_primary.as_str(), (224, 212, 255));
    let light: String = match &c.accent_light {
        Some(l) => l.clone(),
        None => accent_tint(rgb),
    };
    let mut out: Vec<char> = Vec::new();
    push_root(&mut out, skin, rgb, trgb, light.as_str());
    push_spectrum(&mut out, c);
    push_opt_decl(&mut out, "font-mono", &skin.fonts.mono);
    let ghost head = out@;
    proof {
        lemma_bg_assets_len(skin.backgrounds@, 0);
    }
    let nb = skin.backgrounds.len();
    let mut i: usize = 0;
    assert(us.subrange(0, us.len() as int) =~= us);
    while i < nb
        invariant
            nb == skin.backgrounds@.len(),
            i <= nb,
            nb <= uris@.len(),
            us == strings_view(uris@),
            head + bgs_css(skin.backgrounds@, 0, us) == out@ + bgs_css(
                skin.backgrounds@,
                i as int,
                us.subrange(i as int, us.len() as int),
            ),
        decreases nb - i,
    {
        let ghost before = out@;
        let (region, bg) = (&skin.backgrounds[i].0, &skin.backgrounds[i].1);
        push_bg(&mut out, region.as_str(), bg, uris[i].as_str());
        proof {
            let rest = us.subrange(i as int, us.len() as int);
            assert(rest[0] == uris@[i as int]@);
            assert(rest.drop_first() =~= us.subrange(i + 1, us.len() as int));
        }
        i = i + 1;
    }
    assert(bgs_css(skin.backgrounds@, nb as int, us.subrange(nb as int, us.len() as int))
        =~= Seq::<char>::empty());
    let ghost mid = out@;
    let ni = skin.images.len();
    let mut j: usize = 0;
    let mut k: usize = nb;
    proof {
        lemma_img_assets_len(skin.images@, 0);
        assert(us.subrange(nb as int, us.len() as int).subrange(0, us.len() - nb) =~= us.subrange(
            nb as int,
            us.len() as int,
        ));
    }
    while j < ni
        invariant
            ni == skin.images@.len(),
            j <= ni,
            nb <= k <= uris@.len(),
            us == strings_view(uris@),
            uris@.len() - k == img_assets(skin.images@, j as int).len(),
            mid + imgs_css(skin.images@, 0, us.subrange(nb as int, us.len() as int)) == out@
                + imgs_css(skin.images@, j as int, us.subrange(k as int, us.len() as int)),
        decreases ni - j,
    {
        proof {
            lemma_img_assets_len(skin.images@, j as int);
            lemma_img_assets_len(skin.images@, j + 1);
        }
        let (name, set) = (&skin.images[j].0, &skin.images[j].1);
        let k2 = push_imgs_of(&mut out, name.as_str(), set, uris, k);
        proof {
            let rest = us.subrange(k as int, us.len() as int);
            assert(rest.subrange(img_files(*set), rest.len() as int) =~= us.subrange(
                k2 as int,
                us.len() as int,
            ));
        }
        k = k2;
        j = j + 1;
    }
    assert(imgs_css(skin.images@, ni as int, us.subrange(k as int, us.len() as int))
        =~= Seq::<char>::empty());
    push_str(&mut out, "}\n");
    push_light(&mut out, c, rgb, light.as_str());
    let ghost head2 = out@;
    let mut j: usize = 0;
    while j < ni
        invariant
            ni == skin.images@.len(),
            j <= ni,
            head2 + buttons_css(skin.images@, 0) == out@ + buttons_css(skin.images@, j as int),
        decreases ni - j,
    {
        push_button_rules(&mut out, skin.images[j].0.as_str(), &skin.images[j].1);
        j = j + 1;
    }
    assert(buttons_css(skin.images@, ni as int) =~= Seq::<char>::empty());
    let ghost head3 = out@;
    match &skin.custom_css {
        Some(cs) => {
            push_str(&mut out, "\n");
            push_str(&mut out, cs.as_str());
        },
        None => {},
    }
    assert(out@ =~= skin_css(*skin, us));
    text_of_chars(out)
}

// ── skins and the manager ────────────────────────────────────────────────

/// The default palette, apart from the accent, its light tint and the
/// spectrum colours.
pub open spec fn base_palette(c: SkinColors) -> bool {
    &&& c.bg_primary@ == "#0f061a"@
    &&& c.bg_secondary@ == "#1a0f2e"@
    &&& c.bg_tertiary@ == "#251540"@
    &&& c.text_primary@ == "#e0d4ff"@
    &&& c.text_secondary@ == "#a78bfa"@
    &&& c.highlight@ == "#f5d78a"@
    &&& c.accent_hover@ == "#8b5cf6"@
    &&& c.progress_fill@ == "#8b5cf6"@
    &&& c.progress_bg@ == "#2a1a4a"@
    &&& c.border_color@ == "#3a2a5a"@
    &&& c.panel_bg@ == "#0f061a"@
    &&& c.button_bg@ == "#2a1a4a"@
    &&& c.button_hover@ == "#3a2a5a"@
    &&& c.spectrum_bottom is None
}

/// A built-in skin of version 1.0 by TTPlayer with the given name,
/// description, accent and light tint, the base palette, the default
/// player size and title and body fonts, no images and no custom CSS.
pub open spec fn builtin_shape(
    d: SkinDefinition,
    name: Seq<char>,
    description: Seq<char>,
    accent: Seq<char>,
    light: Seq<char>,
) -> bool {
    &&& d.meta.name@ == name
    &&& d.meta.version@ == "1.0"@
    &&& d.meta.author@ == "TTPlayer"@
    &&& d.meta.description@ == description
    &&& d.meta.preview is None
    &&& base_palette(d.colors)
    &&& d.colors.accent@ == accent
    &&& d.colors.accent_light matches Some(l) && l@ == light
    &&& d.layout.player_width == 327
    &&& d.layout.player_height == 186
    &&& d.fonts.title@ == default_font()
    &&& d.fonts.body@ == default_font()
    &&& d.backgrounds@.len() == 0
    &&& d.images@.len() == 0
    &&& d.custom_css is None
}

/// The default skin: "紫韵经典" in violet, accent `#7c3aed` with the light
/// tint `#C4B5FD`, rounded by 4 pixels, no monospace font.
pub open spec fn is_default_skin(d: SkinDefinition) -> bool {
    &&& builtin_shape(d, "紫韵经典"@, "默认紫色主题"@, "#7c3aed"@, "#C4B5FD"@)
    &&& d.colors.spectrum_top is None
    &&& d.colors.spectrum_peak is None
    &&& d.layout.border_radius == 4
    &&& d.fonts.mono is None
}

/// The TTPlayer blue skin: accent `#4a8db7` with the light tint `#90e0ef`,
/// its own spectrum colours, rounded by 3 pixels, Courier New for
/// monospace text.
pub open spec fn is_blue_skin(d: SkinDefinition) -> bool {
    &&& builtin_shape(d, "TTPlayer Blue"@, "经典蓝色主题"@, "#4a8db7"@, "#90e0ef"@)
    &&& d.colors.spectrum_top matches Some(t) && t@ == "#27435f"@
    &&& d.colors.spectrum_peak matches Some(p) && p@ == "#88aacb"@
    &&& d.layout.border_radius == 3
    &&& d.fonts.mono matches Some(m) && m@ == "'Courier New', monospace"@
}

/// A built-in skin that differs from the default one only in its name,
/// description, accent and light tint.
pub open spec fn is_plain_variant(
    d: SkinDefinition,
    name: Seq<char>,
    description: Seq<char>,
    accent: Seq<char>,
    light: Seq<char>,
) -> bool {
    &&& builtin_shape(d, name, description, accent, light)
    &&& d.colors.spectrum_top is None
    &&& d.colors.spectrum_peak is None
    &&& d.layout.border_radius == 4
    &&& d.fonts.mono is None
}

/// The green skin: accent `#22c55e` with the light tint `#86efac`.
pub open spec fn is_green_skin(d: SkinDefinition) -> bool {
    is_plain_variant(d, "Green"@, "绿色主题"@, "#22c55e"@, "#86efac"@)
}

/// The rose skin: accent `#e11d48` with the light tint `#fda4af`.
pub open spec fn is_rose_skin(d: SkinDefinition) -> bool {
    is_plain_variant(d, "Rose"@, "玫瑰主题"@, "#e11d48"@, "#fda4af"@)
}

/// The built-in skin ids.
pub open spec fn builtin_id(id: Seq<char>) -> bool {
    id == "default"@ || id == "ttplayer-blue"@ || id == "green"@ || id == "rose"@
}

/// `d` is the built-in skin with id `id`.
pub open spec fn is_builtin_skin(id: Seq<char>, d: SkinDefinition) -> bool {
    if id == "default"@ {
        is_default_skin(d)
    } else if id == "ttplayer-blue"@ {
        is_blue_skin(d)
    } else if id == "green"@ {
        is_green_skin(d)
    } else if id == "rose"@ {
        is_rose_skin(d)
    } else {
        false
    }
}

/// The skin every built-in one starts from: the default palette without a
/// light tint, the default layout and fonts, no images.
fn base_skin(name: &str, description: &str, accent: &str, light: &str) -> (d: SkinDefinition)
    ensures
        builtin_shape(d, name@, description@, accent@, light@),
        d.colors.spectrum_top is None,
        d.colors.spectrum_peak is None,
        d.layout.border_radius == 4,
        d.fonts.mono is None,
{
    let mut colors = SkinColors::default();
    colors.accent = accent.to_owned();
    colors.accent_light = Some(light.to_owned());
    SkinDefinition {
        meta: SkinMeta {
            name: name.to_owned(),
            version: "1.0".to_owned(),
            author: "TTPlayer".to_owned(),
            description: description.to_owned(),
            preview: None,
        },
        colors,
        layout: SkinLayout::default(),
        fonts: SkinFonts::default(),
        backgrounds: Vec::new(),
        images: Vec::new(),
        custom_css: None,
    }
}

/// The default skin.
pub fn default_skin() -> (d: SkinDefinition)
    ensures
        is_default_skin(d),
{
    base_skin("紫韵经典", "默认紫色主题", "#7c3aed", "#C4B5FD")
}

/// The TTPlayer blue skin.
pub fn blue_skin() -> (d: SkinDefinition)
    ensures
        is_blue_skin(d),
{
    let mut d = base_skin("TTPlayer Blue", "经典蓝色主题", "#4a8db7", "#90e0ef");
    d.colors.spectrum_top = Some("#27435f".to_owned());
    d.colors.spectrum_peak = Some("#88aacb".to_owned());
    d.layout.border_radius = 3;
    d.fonts.mono = Some("'Courier New', monospace".to_owned());
    d
}

/// The green skin.
pub fn green_skin() -> (d: SkinDefinition)
    ensures
        is_green_skin(d),
{
    base_skin("Green", "绿色主题", "#22c55e", "#86efac")
}

/// The rose skin.
pub fn rose_skin() -> (d: SkinDefinition)
    ensures
        is_rose_skin(d),
{
    base_skin("Rose", "玫瑰主题", "#e11d48", "#fda4af")
}

/// Whether an id is a built-in skin's.
pub fn is_builtin_id(id: &str) -> (b: bool)
    ensures
        b == builtin_id(id@),
{
    str_eq(id, "default") || str_eq(id, "ttplayer-blue") || str_eq(id, "green") || str_eq(id, "rose")
}

/// The ids of the built-in skins, in order.
pub fn builtin_ids() -> (ids: Vec<String>)
    ensures
        ids@.len() == 4,
        ids@[0]@ == "default"@,
        ids@[1]@ == "ttplayer-blue"@,
        ids@[2]@ == "green"@,
        ids@[3]@ == "rose"@,
{
    let mut ids: Vec<String> = Vec::new();
    ids.push("default".to_owned());
    ids.push("ttplayer-blue".to_owned());
    ids.push("green".to_owned());
    ids.push("rose".to_owned());
    ids
}

/// The built-in skin with the given id.
pub fn builtin_skin(id: &str) -> (d: Option<SkinDefinition>)
    ensures
        builtin_id(id@) <==> d is Some,
        d matches Some(x) ==> is_builtin_skin(id@, x),
{
    if str_eq(id, "default") {
        Some(default_skin())
    } else if str_eq(id, "ttplayer-blue") {
        Some(blue_skin())
    } else if str_eq(id, "green") {
        Some(green_skin())
    } else if str_eq(id, "rose") {
        Some(rose_skin())
    } else {
        None
    }
}

/// `dirs::config_dir`: the user's configuration directory, when there is
/// one. Nothing is promised of the value: it depends on the environment.
#[verifier::external_body]
fn config_dir() -> Option<String> {
    dirs::config_dir().map(|p| p.to_string_lossy().into_owned())
}

/// Two lower-case hexadecimal digits of a byte read back as the byte.
proof fn lemma_hex2_reads(n: u8)
    ensures
        hex_digit((n / 16) as int) != '#',
        !crate::text::is_ws(hex_digit((n % 16) as int)),
        hex_pair(hex_digit((n / 16) as int), hex_digit((n % 16) as int)) == Some(n),
{
    let hi = (n / 16) as int;
    let lo = (n % 16) as int;
    assert(hi * 16 + lo == n);
    assert(hex_digit(hi) as u32 == (if hi < 10 { 48 + hi } else { 87 + hi }));
    assert(hex_digit(lo) as u32 == (if lo < 10 { 48 + lo } else { 87 + lo }));
}

/// A colour written as `#rrggbb` reads back as the same colour.
pub proof fn lemma_hex_roundtrip(c: (u8, u8, u8))
    ensures
        spec_parse_hex(hex_color(c)) == Some(c),
{
    let s = hex_color(c);
    let t = s.drop_first();
    lemma_hex2_reads(c.0);
    lemma_hex2_reads(c.1);
    lemma_hex2_reads(c.2);
    assert(t =~= hex2(c.0) + hex2(c.1) + hex2(c.2));
    assert(s.last() == s[6]);
    crate::text::lemma_trim_id(s);
    assert(strip_hashes(t) == t);
    assert(strip_hashes(s) == t);
}

/// Where the skins live for a configuration directory (`.` when there is
/// none): `{config}/ttplayer-next/skins`.
pub open spec fn skins_dir_of(config: Option<Seq<char>>) -> Seq<char> {
    let base = match config {
        Some(d) => d,
        None => "."@,
    };
    paths::path_join(paths::path_join(base, "ttplayer-next"@), "skins"@)
}

/// Skin manager: the current skin and where skins live on disk.
pub struct SkinManager {
    current: SkinDefinition,
    current_id: String,
    skin_dir: String,
}

pub ghost struct ManagerView {
    pub current: SkinDefinition,
    pub current_id: Seq<char>,
    pub skin_dir: Seq<char>,
}

impl SkinManager {
    /// The current skin names each background and image set once.
    #[verifier::type_invariant]
    spec fn keys_distinct(self) -> bool {
        distinct_keys(self.current)
    }
}

impl View for SkinManager {
    type V = ManagerView;

    closed spec fn view(&self) -> ManagerView {
        ManagerView { current: self.current, current_id: self.current_id@, skin_dir: self.skin_dir@ }
    }
}

impl SkinManager {
    /// A manager with the default skin current, and skins kept under
    /// `{config}/ttplayer-next/skins` for the given configuration directory
    /// (`.` standing in for a missing one).
    pub fn with_config_dir(config: Option<String>) -> (m: Self)
        ensures
            is_default_skin(m@.current),
            m@.current_id == "default"@,
            m@.skin_dir == skins_dir_of(paths::opt_view(config)),
    {
        let base = match config {
            Some(d) => d,
            None => ".".to_owned(),
        };
        let app = paths::join(base.as_str(), "ttplayer-next");
        let skin_dir = paths::join(app.as_str(), "skins");
        SkinManager { current: default_skin(), current_id: "default".to_owned(), skin_dir }
    }

    /// A manager with the default skin current, and skins kept under
    /// `{config dir}/ttplayer-next/skins` of the user's configuration
    /// directory (`.` standing in for a missing one).
    pub fn new() -> (m: Self)
        ensures
            is_default_skin(m@.current),
            m@.current_id == "default"@,
            exists|config: Option<Seq<char>>| m@.skin_dir == skins_dir_of(config),
    {
        Self::with_config_dir(config_dir())
    }

    /// The directory the skins live in.
    pub fn skin_dir_path(&self) -> (p: &str)
        ensures
            p@ == self@.skin_dir,
    {
        self.skin_dir.as_str()
    }

    /// The current skin's id.
    pub fn current_skin_id(&self) -> (id: &str)
        ensures
            id@ == self@.current_id,
    {
        self.current_id.as_str()
    }

    /// The current skin's definition.
    pub fn current_skin(&self) -> (d: &SkinDefinition)
        ensures
            *d == self@.current,
    {
        &self.current
    }

    /// Where an image of a skin lives: inside the skin's directory for an
    /// installed skin, the path as given for a built-in one.
    pub fn resolve_asset_path(&self, skin_id: Option<&str>, relative_path: &str) -> (p: String)
        ensures
            p@ == match skin_id {
                Some(id) => paths::path_join(paths::path_join(self@.skin_dir, id@), relative_path@),
                None => relative_path@,
            },
    {
        match skin_id {
            Some(id) => {
                let dir = paths::join(self.skin_dir.as_str(), id);
                paths::join(dir.as_str(), relative_path)
            },
            None => relative_path.to_owned(),
        }
    }

    /// The files of a skin's images, resolved, in the order its CSS uses
    /// them.
    pub fn asset_paths(&self, skin: &SkinDefinition, skin_id: Option<&str>) -> (v: Vec<String>)
        ensures
            v@.len() == skin_assets(*skin).len(),
            forall|i: int|
                0 <= i < v@.len() ==> (#[trigger] v@[i])@ == match skin_id {
                    Some(id) => paths::path_join(
                        paths::path_join(self@.skin_dir, id@),
                        skin_assets(*skin)[i],
                    ),
                    None => skin_assets(*skin)[i],
                },
    {
        let mut rel: Vec<String> = Vec::new();
        let ghost all = skin_assets(*skin);
        proof {
            lemma_bg_assets_len(skin.backgrounds@, 0);
        }
        let mut i: usize = 0;
        assert(strings_view(rel@) + bg_assets(skin.backgrounds@, 0) =~= bg_assets(
            skin.backgrounds@,
            0,
        ));
        while i < skin.backgrounds.len()
            invariant
                i <= skin.backgrounds@.len(),
                strings_view(rel@) + bg_assets(skin.backgrounds@, i as int) == bg_assets(
                    skin.backgrounds@,
                    0,
                ),
            decreases skin.backgrounds@.len() - i,
        {
            let ghost before = strings_view(rel@);
            rel.push(skin.backgrounds[i].1.image.clone());
            assert(strings_view(rel@) =~= before.push(skin.backgrounds@[i as int].1.image@));
            assert(before + bg_assets(skin.backgrounds@, i as int) =~= strings_view(rel@)
                + bg_assets(skin.backgrounds@, i + 1));
            i = i + 1;
        }
        assert(bg_assets(skin.backgrounds@, i as int) =~= Seq::<Seq<char>>::empty());
        let ghost head = strings_view(rel@);
        assert(head =~= bg_assets(skin.backgrounds@, 0));
        let mut j: usize = 0;
        while j < skin.images.len()
            invariant
                j <= skin.images@.len(),
                strings_view(rel@) + img_assets(skin.images@, j as int) == head + img_assets(
                    skin.images@,
                    0,
                ),
            decreases skin.images@.len() - j,
        {
            let ghost before = strings_view(rel@);
            let set = &skin.images[j].1;
            rel.push(set.normal.clone());
            if let Some(h) = &set.hover {
                rel.push(h.clone());
            }
            if let Some(p) = &set.pressed {
                rel.push(p.clone());
            }
            if let Some(d) = &set.disabled {
                rel.push(d.clone());
            }
            assert(strings_view(rel@) =~= before + (seq![set.normal@] + (match set.hover {
                Some(x) => seq![x@],
                None => Seq::empty(),
            }) + (match set.pressed {
                Some(x) => seq![x@],
                None => Seq::empty(),
            }) + (match set.disabled {
                Some(x) => seq![x@],
                None => Seq::empty(),
            })));
            assert(before + img_assets(skin.images@, j as int) =~= strings_view(rel@) + img_assets(
                skin.images@,
                j + 1,
            ));
            j = j + 1;
        }
        assert(img_assets(skin.images@, j as int) =~= Seq::<Seq<char>>::empty());
        assert(strings_view(rel@) =~= all);
        let mut out: Vec<String> = Vec::new();
        let mut k: usize = 0;
        while k < rel.len()
            invariant
                k <= rel@.len(),
                strings_view(rel@) == all,
                out@.len() == k,
                forall|i: int|
                    0 <= i < k ==> (#[trigger] out@[i])@ == match skin_id {
                        Some(id) => paths::path_join(paths::path_join(self@.skin_dir, id@), all[i]),
                        None => all[i],
                    },
            decreases rel@.len() - k,
        {
            assert(all[k as int] == rel@[k as int]@);
            let p = self.resolve_asset_path(skin_id, rel[k].as_str());
            out.push(p);
            k = k + 1;
        }
        out
    }

    /// The CSS of the current skin, with the data URIs of its images (read
    /// from the paths `asset_paths` gives with no skin id).
    pub fn css_variables(&self, uris: &[String]) -> (css: String)
        requires
            uris@.len() == skin_assets(self@.current).len(),
        ensures
            css@ == skin_css(self@.current, strings_view(uris@)),
    {
        proof {
            use_type_invariant(self);
        }
        generate_css(&self.current, uris)
    }

    /// Make a skin read from disk current and return its CSS, given the data
    /// URIs of its images (read from the paths `asset_paths` gives with the
    /// skin's id).
    pub fn apply_loaded(&mut self, skin_id: &str, skin: SkinDefinition, uris: &[String]) -> (css: String)
        requires
            distinct_keys(skin),
            uris@.len() == skin_assets(skin).len(),
        ensures
            css@ == skin_css(skin, strings_view(uris@)),
            final(self)@ == (ManagerView {
                current: skin,
                current_id: skin_id@,
                skin_dir: old(self)@.skin_dir,
            }),
    {
        let css = generate_css(&skin, uris);
        self.current = skin;
        self.current_id = skin_id.to_owned();
        css
    }

    /// Make a built-in skin current and return the CSS of the current skin;
    /// an error for an id that no built-in skin has.
    pub fn apply_builtin(&mut self, skin_id: &str) -> (r: Result<String, String>)
        ensures
            builtin_id(skin_id@) ==> (r matches Ok(css) && is_builtin_skin(skin_id@, final(self)@.current)
                && final(self)@.current_id == skin_id@ && final(self)@.skin_dir == old(self)@.skin_dir
                && css@ == skin_css(final(self)@.current, Seq::empty())),
            !builtin_id(skin_id@) ==> (r matches Err(e) && e@ == "Skin not found: "@ + skin_id@
                && final(self)@ == old(self)@),
    {
        match builtin_skin(skin_id) {
            Some(def) => {
                proof {
                    lemma_bg_assets_len(def.backgrounds@, 0);
                }
                let none: Vec<String> = Vec::new();
                assert(strings_view(none@) =~= Seq::<Seq<char>>::empty());
                self.current = def;
                self.current_id = skin_id.to_owned();
                Ok(self.css_variables(none.as_slice()))
            },
            None => {
                let mut msg = chars_of("Skin not found: ");
                push_str(&mut msg, skin_id);
                Err(string_of(msg.as_slice()))
            },
        }
    }
}

/// Whether a skin may be deleted: every skin but the default one.
pub fn check_deletable(skin_id: &str) -> (r: Result<(), String>)
    ensures
        skin_id@ == "default"@ ==> (r matches Err(e) && e@ == "默认皮肤不可删除"@),
        skin_id@ != "default"@ ==> r is Ok,
{
    if str_eq(skin_id, "default") {
        Err("默认皮肤不可删除".to_owned())
    } else {
        Ok(())
    }
}

pub ghost struct InfoView {
    pub id: Seq<char>,
    pub name: Seq<char>,
    pub version: Seq<char>,
    pub author: Seq<char>,
    pub description: Seq<char>,
    pub is_builtin: bool,
    pub has_images: bool,
}

impl View for SkinInfo {
    type V = InfoView;

    open spec fn view(&self) -> InfoView {
        InfoView {
            id: self.id@,
            name: self.name@,
            version: self.version@,
            author: self.author@,
            description: self.description@,
            is_builtin: self.is_builtin,
            has_images: self.has_images,
        }
    }
}

pub open spec fn infos_view(v: Seq<SkinInfo>) -> Seq<InfoView> {
    v.map_values(|i: SkinInfo| i@)
}

/// What the frontend is told of a skin.
pub open spec fn spec_info(id: Seq<char>, d: SkinDefinition, builtin: bool) -> InfoView {
    InfoView {
        id,
        name: d.meta.name@,
        version: d.meta.version@,
        author: d.meta.author@,
        description: d.meta.description@,
        is_builtin: builtin,
        has_images: d.backgrounds@.len() > 0 || d.images@.len() > 0,
    }
}

/// The information on a skin with the given id.
pub fn skin_info(id: &str, d: &SkinDefinition, is_builtin: bool) -> (i: SkinInfo)
    ensures
        i@ == spec_info(id@, *d, is_builtin),
{
    SkinInfo {
        id: id.to_owned(),
        name: d.meta.name.clone(),
        version: d.meta.version.clone(),
        author: d.meta.author.clone(),
        description: d.meta.description.clone(),
        is_builtin,
        has_images: d.backgrounds.len() > 0 || d.images.len() > 0,
    }
}

/// `a <= b` in the order of strings: character by character, by code
/// point, a prefix first.
pub open spec fn lex_le(a: Seq<char>, b: Seq<char>) -> bool
    decreases a.len(),
{
    if a.len() == 0 {
        true
    } else if b.len() == 0 {
        false
    } else if a[0] != b[0] {
        (a[0] as u32) < (b[0] as u32)
    } else {
        lex_le(a.drop_first(), b.drop_first())
    }
}

fn lex_le_exec(a: &str, b: &str) -> (r: bool)
    ensures
        r == lex_le(a@, b@),
{
    let x = chars_of(a);
    let y = chars_of(b);
    let mut i: usize = 0;
    assert(x@.subrange(0, x@.len() as int) =~= x@);
    assert(y@.subrange(0, y@.len() as int) =~= y@);
    loop
        invariant
            i <= x@.len(),
            i <= y@.len(),
            x@ == a@,
            y@ == b@,
            lex_le(a@, b@) == lex_le(
                x@.subrange(i as int, x@.len() as int),
                y@.subrange(i as int, y@.len() as int),
            ),
        decreases x@.len() - i,
    {
        if i == x.len() {
            return true;
        }
        if i == y.len() {
            return false;
        }
        if x[i] != y[i] {
            return (x[i] as u32) < (y[i] as u32);
        }
        assert(x@.subrange(i as int, x@.len() as int).drop_first() =~= x@.subrange(
            i + 1,
            x@.len() as int,
        ));
        assert(y@.subrange(i as int, y@.len() as int).drop_first() =~= y@.subrange(
            i + 1,
            y@.len() as int,
        ));
        i = i + 1;
    }
}

/// Where `insert_by_id` puts an entry: after every entry whose id is not
/// after its id.
pub open spec fn id_ins_pos(s: Seq<InfoView>, x: InfoView) -> int
    decreases s.len(),
{
    if s.len() == 0 || !lex_le(s[0].id, x.id) {
        0
    } else {
        1 + id_ins_pos(s.drop_first(), x)
    }
}

/// The entries sorted by id; entries with equal ids keep their order.
pub open spec fn sort_by_id(s: Seq<InfoView>) -> Seq<InfoView>
    decreases s.len(),
{
    if s.len() == 0 {
        s
    } else {
        let t = sort_by_id(s.drop_last());
        t.insert(id_ins_pos(t, s.last()), s.last())
    }
}

proof fn lemma_id_ins_pos(s: Seq<InfoView>, x: InfoView)
    ensures
        0 <= id_ins_pos(s, x) <= s.len(),
    decreases s.len(),
{
    if s.len() > 0 && lex_le(s[0].id, x.id) {
        lemma_id_ins_pos(s.drop_first(), x);
    }
}

fn id_ins_pos_exec(v: &Vec<SkinInfo>, x: &SkinInfo) -> (p: usize)
    ensures
        p == id_ins_pos(infos_view(v@), x@),
{
    let ghost s = infos_view(v@);
    let mut i: usize = 0;
    assert(s.subrange(0, s.len() as int) =~= s);
    while i < v.len() && lex_le_exec(v[i].id.as_str(), x.id.as_str())
        invariant
            i <= v.len(),
            s == infos_view(v@),
            id_ins_pos(s, x@) == i + id_ins_pos(s.subrange(i as int, s.len() as int), x@),
        decreases v.len() - i,
    {
        assert(s.subrange(i as int, s.len() as int).drop_first() =~= s.subrange(
            i + 1,
            s.len() as int,
        ));
        i = i + 1;
    }
    i
}

fn sort_infos(infos: Vec<SkinInfo>) -> (r: Vec<SkinInfo>)
    ensures
        infos_view(r@) == sort_by_id(infos_view(infos@)),
{
    let ghost s = infos_view(infos@);
    let mut rest = infos;
    let mut out: Vec<SkinInfo> = Vec::new();
    let ghost mut k: int = 0;
    assert(s.take(0) =~= Seq::<InfoView>::empty());
    while rest.len() > 0
        invariant
            0 <= k <= s.len(),
            infos_view(rest@) == s.subrange(k, s.len() as int),
            infos_view(out@) == sort_by_id(s.take(k)),
        decreases rest.len(),
    {
        let ghost r0 = rest@;
        let x = rest.remove(0);
        proof {
            assert(infos_view(r0).len() == r0.len());
            assert(k < s.len());
            assert(infos_view(r0)[0] == r0[0]@);
            assert(s.subrange(k, s.len() as int)[0] == s[k]);
            assert(s.take(k + 1).drop_last() =~= s.take(k));
            assert(rest@ =~= r0.subrange(1, r0.len() as int));
            assert(infos_view(rest@) =~= infos_view(r0).subrange(1, r0.len() as int));
            assert(infos_view(rest@) =~= s.subrange(k + 1, s.len() as int));
        }
        let p = id_ins_pos_exec(&out, &x);
        proof {
            lemma_id_ins_pos(infos_view(out@), x@);
        }
        let ghost before = out@;
        out.insert(p, x);
        proof {
            assert(infos_view(out@) =~= infos_view(before).insert(p as int, x@));
            k = k + 1;
        }
    }
    assert(s.take(k) =~= s);
    out
}

/// What the frontend is told of the default skin.
pub open spec fn default_info() -> InfoView {
    InfoView {
        id: "default"@,
        name: "紫韵经典"@,
        version: "1.0"@,
        author: "TTPlayer"@,
        description: "默认紫色主题"@,
        is_builtin: true,
        has_images: false,
    }
}

pub open spec fn builtin_info(id: Seq<char>, name: Seq<char>, description: Seq<char>) -> InfoView {
    InfoView {
        id,
        name,
        version: "1.0"@,
        author: "TTPlayer"@,
        description,
        is_builtin: true,
        has_images: false,
    }
}

/// What the frontend is told of the built-in skins, in their order.
pub open spec fn builtin_infos() -> Seq<InfoView> {
    seq![
        default_info(),
        builtin_info("ttplayer-blue"@, "TTPlayer Blue"@, "经典蓝色主题"@),
        builtin_info("green"@, "Green"@, "绿色主题"@),
        builtin_info("rose"@, "Rose"@, "玫瑰主题"@),
    ]
}

/// The skins to list: those found on disk (id and definition; a skin is
/// built in when its id is a built-in one), else the built-in skins; sorted
/// by id.
pub open spec fn spec_list_skins(disk: Seq<(String, SkinDefinition)>) -> Seq<InfoView> {
    if disk.len() > 0 {
        sort_by_id(
            Seq::new(
                disk.len(),
                |i: int| spec_info(disk[i].0@, disk[i].1, builtin_id(disk[i].0@)),
            ),
        )
    } else {
        sort_by_id(builtin_infos())
    }
}

/// List the skins, given those found on disk (id and definition).
pub fn list_skins(disk: &Vec<(String, SkinDefinition)>) -> (r: Vec<SkinInfo>)
    ensures
        infos_view(r@) == spec_list_skins(disk@),
{
    let mut infos: Vec<SkinInfo> = Vec::new();
    let mut i: usize = 0;
    while i < disk.len()
        invariant
            i <= disk@.len(),
            infos_view(infos@) =~= Seq::new(
                i as nat,
                |j: int| spec_info(disk@[j].0@, disk@[j].1, builtin_id(disk@[j].0@)),
            ),
        decreases disk@.len() - i,
    {
        let id = disk[i].0.as_str();
        let builtin = is_builtin_id(id);
        let info = skin_info(id, &disk[i].1, builtin);
        let ghost before = infos_view(infos@);
        infos.push(info);
        assert(infos_view(infos@) =~= before.push(info@));
        i = i + 1;
    }
    if infos.len() == 0 {
        infos.push(skin_info("default", &default_skin(), true));
        infos.push(skin_info("ttplayer-blue", &blue_skin(), true));
        infos.push(skin_info("green", &green_skin(), true));
        infos.push(skin_info("rose", &rose_skin(), true));
        assert(infos_view(infos@) =~= builtin_infos());
    }
    sort_infos(infos)
}

/// The id a skin installs under: its name lower-cased, spaces turned into
/// dashes.
pub open spec fn spec_skin_id(name: Seq<char>) -> Seq<char> {
    crate::text::lowercase(name).map_values(|c: char| if c == ' ' {
        '-'
    } else {
        c
    })
}

/// The id a skin installs under.
pub fn skin_id_for_name(name: &str) -> (id: String)
    ensures
        id@ == spec_skin_id(name@),
{
    let low = crate::text::to_lowercase(name);
    let v = chars_of(low.as_str());
    let mut out: Vec<char> = Vec::new();
    let mut i: usize = 0;
    while i < v.len()
        invariant
            i <= v@.len(),
            out@ =~= v@.take(i as int).map_values(|c: char| if c == ' ' {
                '-'
            } else {
                c
            }),
        decreases v@.len() - i,
    {
        let c = v[i];
        out.push(if c == ' ' {
            '-'
        } else {
            c
        });
        i = i + 1;
    }
    assert(v@.take(i as int) =~= v@);
    string_of(out.as_slice())
}

/// An archive entry name that ends with `skin.json`.
pub open spec fn names_skin_json(name: Seq<char>) -> bool {
    name.len() >= 9 && name.subrange(name.len() - 9, name.len() as int) == "skin.json"@
}

/// The index of the first entry of a skin package whose name ends with
/// `skin.json`: the skin definition that installing reads. `None` when no
/// entry does.
pub fn skin_json_entry(names: &[String]) -> (r: Option<usize>)
    ensures
        match r {
            Some(i) => i < names@.len() && names_skin_json(names@[i as int]@) && forall|j: int|
                0 <= j < i ==> !names_skin_json(#[trigger] names@[j]@),
            None => forall|j: int| 0 <= j < names@.len() ==> !names_skin_json(#[trigger] names@[j]@),
        },
{
    let mut i: usize = 0;
    while i < names.len()
        invariant
            i <= names@.len(),
            forall|j: int| 0 <= j < i ==> !names_skin_json(#[trigger] names@[j]@),
        decreases names@.len() - i,
    {
        let v = chars_of(names[i].as_str());
        if v.len() >= 9 && crate::text::range_eq(&v, v.len() - 9, v.len(), "skin.json") {
            return Some(i);
        }
        i = i + 1;
    }
    None
}

} // verus!
