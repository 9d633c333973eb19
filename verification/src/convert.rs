//! Format conversion: output formats and options, where a converted file
//! goes, the WAV header, and the tags carried over. Decoding and writing the
//! samples is done by the caller.
use vstd::prelude::*;

use crate::paths;
use crate::text::{chars_of, lowercase, push_dec, push_str, str_eq, string_of, to_lowercase};
use crate::types::SongMetadata;

verus! {

/// Output format options.
#[derive(Debug, Clone, Copy, PartialEq, Eq, Structural)]
pub enum OutputFormat {
    Wav,
}

/// The output format a file extension names, compared case-insensitively.
pub open spec fn format_named(ext: Seq<char>) -> Option<OutputFormat> {
    if lowercase(ext) == "wav"@ {
        Some(OutputFormat::Wav)
    } else {
        None
    }
}

/// The file extension of an output format.
pub open spec fn format_extension(f: OutputFormat) -> Seq<char> {
    match f {
        OutputFormat::Wav => "wav"@,
    }
}

/// Every output format's extension names it again, in any case of its
/// letters.
pub proof fn lemma_extension_roundtrip(f: OutputFormat)
    ensures
        format_named(format_extension(f)) == Some(f),
        format_named("WAV"@) == Some(OutputFormat::Wav),
        format_named("Wav"@) == Some(OutputFormat::Wav),
{
    reveal_strlit("wav");
    reveal_strlit("WAV");
    reveal_strlit("Wav");
    let w = "wav"@;
    assert(crate::text::is_ascii_text(w));
    assert(w.map_values(|c: char| crate::text::ascii_lower(c)) =~= w);
    assert(crate::text::is_ascii_text("WAV"@));
    assert("WAV"@.map_values(|c: char| crate::text::ascii_lower(c)) =~= w);
    assert(crate::text::is_ascii_text("Wav"@));
    assert("Wav"@.map_values(|c: char| crate::text::ascii_lower(c)) =~= w);
}

impl OutputFormat {
    /// The format for a file extension, compared case-insensitively.
    pub fn from_extension(ext: &str) -> (f: Option<OutputFormat>)
        ensures
            f == format_named(ext@),
    {
        let low = to_lowercase(ext);
        if str_eq(low.as_str(), "wav") {
            Some(OutputFormat::Wav)
        } else {
            None
        }
    }

    pub fn extension(&self) -> (s: &'static str)
        ensures
            s@ == format_extension(*self),
    {
        match self {
            OutputFormat::Wav => "wav",
        }
    }

    pub fn display_name(&self) -> (s: &'static str)
        ensures
            s@ == "WAV (PCM)"@,
    {
        match self {
            OutputFormat::Wav => "WAV (PCM)",
        }
    }

    /// All supported output formats.
    pub fn all() -> (v: Vec<OutputFormat>)
        ensures
            v@ == seq![OutputFormat::Wav],
    {
        let mut v: Vec<OutputFormat> = Vec::new();
        v.push(OutputFormat::Wav);
        assert(v@ =~= seq![OutputFormat::Wav]);
        v
    }
}

/// Conversion options.
#[derive(Debug, Clone)]
pub struct ConvertOptions {
    pub output_format: OutputFormat,
    pub output_dir: Option<String>,
    /// 16 or 24 bits per sample for WAV.
    pub bit_depth: u16,
    pub preserve_tags: bool,
}

impl Default for ConvertOptions {
    fn default() -> (o: Self)
        ensures
            o.output_format == OutputFormat::Wav,
            o.output_dir is None,
            o.bit_depth == 16,
            o.preserve_tags,
    {
        ConvertOptions {
            output_format: OutputFormat::Wav,
            output_dir: None,
            bit_depth: 16,
            preserve_tags: true,
        }
    }
}

/// Where a converted file goes: `{dir}/{stem}.{ext}` in the output
/// directory, else beside the input (in `.` when it has no parent); an input
/// without a stem gives an empty stem.
pub open spec fn spec_output_path(input: Seq<char>, o: ConvertOptions) -> Seq<char> {
    let stem = match paths::path_file_stem(input) {
        Some(s) => s,
        None => Seq::empty(),
    };
    let name = stem + "."@ + "wav"@;
    match o.output_dir {
        Some(dir) => paths::path_join(dir@, name),
        None => paths::path_join(
            match paths::path_parent(input) {
                Some(p) => p,
                None => "."@,
            },
            name,
        ),
    }
}

/// Where the converted file of `input` goes.
pub fn output_path(input: &str, options: &ConvertOptions) -> (p: String)
    ensures
        p@ == spec_output_path(input@, *options),
{
    let stem = match paths::file_stem(input) {
        Some(s) => s,
        None => String::new(),
    };
    let mut name = chars_of(stem.as_str());
    push_str(&mut name, ".");
    push_str(&mut name, options.output_format.extension());
    let name_s = string_of(name.as_slice());
    match &options.output_dir {
        Some(dir) => paths::join(dir.as_str(), name_s.as_str()),
        None => {
            let parent = match paths::parent(input) {
                Some(p) => p,
                None => ".".to_owned(),
            };
            paths::join(parent.as_str(), name_s.as_str())
        },
    }
}

/// The input extensions the converter reads.
pub fn supported_input_extensions() -> (v: Vec<&'static str>)
    ensures
        v@.len() == 15,
        v@[0]@ == "mp3"@,
        v@[1]@ == "flac"@,
        v@[2]@ == "wav"@,
        v@[3]@ == "aac"@,
        v@[4]@ == "m4a"@,
        v@[5]@ == "ogg"@,
        v@[6]@ == "opus"@,
        v@[7]@ == "wma"@,
        v@[8]@ == "ape"@,
        v@[9]@ == "ac3"@,
        v@[10]@ == "eac3"@,
        v@[11]@ == "mod"@,
        v@[12]@ == "xm"@,
        v@[13]@ == "s3m"@,
        v@[14]@ == "it"@,
{
    let mut v: Vec<&'static str> = Vec::new();
    v.push("mp3");
    v.push("flac");
    v.push("wav");
    v.push("aac");
    v.push("m4a");
    v.push("ogg");
    v.push("opus");
    v.push("wma");
    v.push("ape");
    v.push("ac3");
    v.push("eac3");
    v.push("mod");
    v.push("xm");
    v.push("s3m");
    v.push("it");
    v
}

/// The little-endian bytes of a `u16`.
pub open spec fn le16(x: u16) -> Seq<u8> {
    seq![(x % 256) as u8, (x / 256) as u8]
}

/// The little-endian bytes of a `u32`.
pub open spec fn le32(x: u32) -> Seq<u8> {
    seq![(x % 256) as u8, ((x / 256) % 256) as u8, ((x / 65536) % 256) as u8, (x / 16777216) as u8]
}

/// The arithmetic of a WAV header does not overflow.
pub open spec fn wav_fits(num_samples: u32, channels: u16, sample_rate: u32, bits: u16) -> bool {
    &&& sample_rate * channels * (bits / 8) <= u32::MAX
    &&& channels * (bits / 8) <= u16::MAX
    &&& num_samples * (bits / 8) + 36 <= u32::MAX
}

/// The 44-byte header of a PCM WAV file holding `num_samples` samples.
pub open spec fn wav_header_bytes(num_samples: u32, channels: u16, sample_rate: u32, bits: u16) -> Seq<u8> {
    let bps = bits / 8;
    let data_size = (num_samples * bps) as u32;
    seq![0x52u8, 0x49u8, 0x46u8, 0x46u8] + le32((36 + data_size) as u32) + seq![
        0x57u8,
        0x41u8,
        0x56u8,
        0x45u8,
    ] + seq![0x66u8, 0x6Du8, 0x74u8, 0x20u8] + le32(16) + le16(1) + le16(channels) + le32(
        sample_rate,
    ) + le32((sample_rate * channels * bps) as u32) + le16((channels * bps) as u16) + le16(bits)
        + seq![0x64u8, 0x61u8, 0x74u8, 0x61u8] + le32(data_size)
}

/// The little-endian 16-bit number at offset `i` of `h`.
pub open spec fn read_le16(h: Seq<u8>, i: int) -> int {
    h[i] + 256 * h[i + 1]
}

/// The little-endian 32-bit number at offset `i` of `h`.
pub open spec fn read_le32(h: Seq<u8>, i: int) -> int {
    h[i] + 256 * h[i + 1] + 65536 * h[i + 2] + 16777216 * h[i + 3]
}

proof fn lemma_le16_reads(x: u16)
    ensures
        le16(x)[0] + 256 * le16(x)[1] == x,
{
    assert((x % 256) + 256 * (x / 256) == x) by (nonlinear_arith);
}

proof fn lemma_le32_reads(x: u32)
    ensures
        le32(x)[0] + 256 * le32(x)[1] + 65536 * le32(x)[2] + 16777216 * le32(x)[3] == x,
{
    assert((x % 256) + 256 * ((x / 256) % 256) + 65536 * ((x / 65536) % 256) + 16777216 * (x
        / 16777216) == x) by (bit_vector);
}

/// A WAV header reads back as what it was made from: 44 bytes, `RIFF`
/// with the file size less 8, `WAVE`, a 16-byte PCM `fmt ` chunk holding
/// the channel count, the sample rate, the byte rate, the block alignment
/// (bytes per frame) and the bits per sample, then `data` with the size of
/// the samples in bytes.
pub proof fn lemma_wav_header_fields(num_samples: u32, channels: u16, sample_rate: u32, bits: u16)
    requires
        wav_fits(num_samples, channels, sample_rate, bits),
    ensures
        wav_header_bytes(num_samples, channels, sample_rate, bits).len() == 44,
        wav_header_bytes(num_samples, channels, sample_rate, bits).subrange(0, 4) == "RIFF"@.map_values(
            |c: char| c as u8,
        ),
        read_le32(wav_header_bytes(num_samples, channels, sample_rate, bits), 4) == 36 + num_samples
            * (bits / 8),
        wav_header_bytes(num_samples, channels, sample_rate, bits).subrange(8, 16) == seq![
            0x57u8,
            0x41u8,
            0x56u8,
            0x45u8,
            0x66u8,
            0x6Du8,
            0x74u8,
            0x20u8,
        ],
        read_le32(wav_header_bytes(num_samples, channels, sample_rate, bits), 16) == 16,
        read_le16(wav_header_bytes(num_samples, channels, sample_rate, bits), 20) == 1,
        read_le16(wav_header_bytes(num_samples, channels, sample_rate, bits), 22) == channels,
        read_le32(wav_header_bytes(num_samples, channels, sample_rate, bits), 24) == sample_rate,
        read_le32(wav_header_bytes(num_samples, channels, sample_rate, bits), 28) == sample_rate
            * channels * (bits / 8),
        read_le16(wav_header_bytes(num_samples, channels, sample_rate, bits), 32) == channels * (bits
            / 8),
        read_le16(wav_header_bytes(num_samples, channels, sample_rate, bits), 34) == bits,
        wav_header_bytes(num_samples, channels, sample_rate, bits).subrange(36, 40) == seq![
            0x64u8,
            0x61u8,
            0x74u8,
            0x61u8,
        ],
        read_le32(wav_header_bytes(num_samples, channels, sample_rate, bits), 40) == num_samples * (
        bits / 8),
{
    let h = wav_header_bytes(num_samples, channels, sample_rate, bits);
    let bps = bits / 8;
    let data_size = (num_samples * bps) as u32;
    let byte_rate = (sample_rate * channels * bps) as u32;
    let align = (channels * bps) as u16;
    assert(num_samples * bps <= u32::MAX);
    assert(0 <= num_samples * bps) by (nonlinear_arith);
    assert(0 <= sample_rate * channels * bps) by (nonlinear_arith);
    assert(0 <= channels * bps) by (nonlinear_arith);
    lemma_le32_reads((36 + data_size) as u32);
    lemma_le32_reads(16);
    lemma_le16_reads(1);
    lemma_le16_reads(channels);
    lemma_le32_reads(sample_rate);
    lemma_le32_reads(byte_rate);
    lemma_le16_reads(align);
    lemma_le16_reads(bits);
    lemma_le32_reads(data_size);
    reveal_strlit("RIFF");
    assert(h.subrange(0, 4) =~= "RIFF"@.map_values(|c: char| c as u8));
    assert(h.subrange(8, 16) =~= seq![0x57u8, 0x41u8, 0x56u8, 0x45u8, 0x66u8, 0x6Du8, 0x74u8, 0x20u8]);
    assert(h.subrange(36, 40) =~= seq![0x64u8, 0x61u8, 0x74u8, 0x61u8]);
}

fn push_le16(out: &mut Vec<u8>, x: u16)
    ensures
        final(out)@ == old(out)@ + le16(x),
{
    out.push((x % 256) as u8);
    out.push((x / 256) as u8);
    assert(final(out)@ =~= old(out)@ + le16(x));
}

fn push_le32(out: &mut Vec<u8>, x: u32)
    ensures
        final(out)@ == old(out)@ + le32(x),
{
    out.push((x % 256) as u8);
    out.push(((x / 256) % 256) as u8);
    out.push(((x / 65536) % 256) as u8);
    out.push((x / 16777216) as u8);
    assert(final(out)@ =~= old(out)@ + le32(x));
}

fn push_bytes4(out: &mut Vec<u8>, a: u8, b: u8, c: u8, d: u8)
    ensures
        final(out)@ == old(out)@ + seq![a, b, c, d],
{
    out.push(a);
    out.push(b);
    out.push(c);
    out.push(d);
    assert(final(out)@ =~= old(out)@ + seq![a, b, c, d]);
}

/// The header of a PCM WAV file: RIFF size, format chunk (PCM, channels,
/// rate, byte rate, block align, bits), data chunk size.
pub fn wav_header(num_samples: u32, channels: u16, sample_rate: u32, bits_per_sample: u16) -> (h: Vec<u8>)
    requires
        wav_fits(num_samples, channels, sample_rate, bits_per_sample),
    ensures
        h@ == wav_header_bytes(num_samples, channels, sample_rate, bits_per_sample),
{
    let bps = bits_per_sample / 8;
    assert(sample_rate * channels <= sample_rate * channels * bps || bps == 0) by (nonlinear_arith);
    let byte_rate: u32 = if bps == 0 {
        0
    } else {
        assert(sample_rate * channels <= u32::MAX) by (nonlinear_arith)
            requires
                sample_rate * channels * bps <= u32::MAX,
                bps >= 1,
        ;
        sample_rate * (channels as u32) * (bps as u32)
    };
    proof {
        if bps == 0 {
            assert(sample_rate * channels * bps == 0) by (nonlinear_arith)
                requires
                    bps == 0,
            ;
        }
    }
    let block_align: u16 = channels * bps;
    let data_size: u32 = num_samples * (bps as u32);
    let mut h: Vec<u8> = Vec::new();
    push_bytes4(&mut h, 0x52, 0x49, 0x46, 0x46);
    push_le32(&mut h, 36 + data_size);
    push_bytes4(&mut h, 0x57, 0x41, 0x56, 0x45);
    push_bytes4(&mut h, 0x66, 0x6D, 0x74, 0x20);
    push_le32(&mut h, 16);
    push_le16(&mut h, 1);
    push_le16(&mut h, channels);
    push_le32(&mut h, sample_rate);
    push_le32(&mut h, byte_rate);
    push_le16(&mut h, block_align);
    push_le16(&mut h, bits_per_sample);
    push_bytes4(&mut h, 0x64, 0x61, 0x74, 0x61);
    push_le32(&mut h, data_size);
    assert(h@ =~= wav_header_bytes(num_samples, channels, sample_rate, bits_per_sample));
    h
}

/// Whether a bit depth can be written as WAV PCM; the error for one that
/// cannot.
pub fn check_bit_depth(bits: u16) -> (r: Result<(), String>)
    ensures
        (bits == 16 || bits == 24) ==> r is Ok,
        !(bits == 16 || bits == 24) ==> (r matches Err(e) && e@ == "Unsupported bit depth: "@ + crate::text::dec(bits as nat)),
{
    if bits == 16 || bits == 24 {
        Ok(())
    } else {
        let mut m = chars_of("Unsupported bit depth: ");
        push_dec(&mut m, bits as u64);
        Err(string_of(m.as_slice()))
    }
}

/// A tag written only where its text is non-empty.
pub open spec fn text_tag(key: Seq<char>, value: Seq<char>) -> Seq<(Seq<char>, Seq<char>)> {
    if value.len() > 0 {
        seq![(key, value)]
    } else {
        Seq::empty()
    }
}

/// A numeric tag written only where the number is present.
pub open spec fn number_tag(key: Seq<char>, value: Option<u32>) -> Seq<(Seq<char>, Seq<char>)> {
    match value {
        Some(n) => seq![(key, crate::text::dec(n as nat))],
        None => Seq::empty(),
    }
}

/// The tags a converted file receives from its source: each non-empty text
/// field and each present number, by field name, in order.
pub open spec fn spec_tag_updates(t: SongMetadata) -> Seq<(Seq<char>, Seq<char>)> {
    text_tag("title"@, t.title@) + text_tag("artist"@, t.artist@) + text_tag("album"@, t.album@)
        + text_tag("album_artist"@, t.album_artist@) + text_tag("genre"@, t.genre@) + text_tag(
        "comment"@,
        t.comment@,
    ) + number_tag("year"@, t.year) + number_tag("track"@, t.track)
}

pub open spec fn pairs_view(v: Seq<(String, String)>) -> Seq<(Seq<char>, Seq<char>)> {
    v.map_values(|p: (String, String)| (p.0@, p.1@))
}

fn push_text_tag(v: &mut Vec<(String, String)>, key: &str, value: &str)
    ensures
        pairs_view(final(v)@) == pairs_view(old(v)@) + text_tag(key@, value@),
{
    if value.unicode_len() > 0 {
        v.push((key.to_owned(), value.to_owned()));
        assert(pairs_view(final(v)@) =~= pairs_view(old(v)@) + text_tag(key@, value@));
    } else {
        assert(pairs_view(old(v)@) + text_tag(key@, value@) =~= pairs_view(old(v)@));
    }
}

fn push_number_tag(v: &mut Vec<(String, String)>, key: &str, value: Option<u32>)
    ensures
        pairs_view(final(v)@) == pairs_view(old(v)@) + number_tag(key@, value),
{
    match value {
        Some(n) => {
            let mut d: Vec<char> = Vec::new();
            push_dec(&mut d, n as u64);
            assert(d@ =~= crate::text::dec(n as nat));
            let s = string_of(d.as_slice());
            v.push((key.to_owned(), s));
            assert(pairs_view(final(v)@) =~= pairs_view(old(v)@) + number_tag(key@, value));
        },
        None => {
            assert(pairs_view(old(v)@) + number_tag(key@, value) =~= pairs_view(old(v)@));
        },
    }
}

/// The tags a converted file receives from its source's tags.
pub fn tag_updates(t: &SongMetadata) -> (v: Vec<(String, String)>)
    ensures
        pairs_view(v@) == spec_tag_updates(*t),
{
    let mut v: Vec<(String, String)> = Vec::new();
    assert(pairs_view(v@) =~= Seq::empty());
    push_text_tag(&mut v, "title", t.title.as_str());
    push_text_tag(&mut v, "artist", t.artist.as_str());
    push_text_tag(&mut v, "album", t.album.as_str());
    push_text_tag(&mut v, "album_artist", t.album_artist.as_str());
    push_text_tag(&mut v, "genre", t.genre.as_str());
    push_text_tag(&mut v, "comment", t.comment.as_str());
    push_number_tag(&mut v, "year", t.year);
    push_number_tag(&mut v, "track", t.track);
    assert(Seq::<(Seq<char>, Seq<char>)>::empty() + text_tag("title"@, t.title@) =~= text_tag(
        "title"@,
        t.title@,
    ));
    v
}

/// Convert options as the frontend sends them: the format by name and the
/// other options possibly missing.
#[derive(Debug, Clone)]
pub struct ConvertOptionsDto {
    pub output_format: String,
    pub output_dir: Option<String>,
    pub bit_depth: Option<u16>,
    pub preserve_tags: Option<bool>,
}

/// The outcome of converting one file.
#[derive(Debug, Clone)]
pub struct ConvertResult {
    pub input: String,
    pub output: String,
    pub success: bool,
    pub error: Option<String>,
}

/// The options a conversion request asks for: `wav` is the one format (by
/// exact name), 16 bits and tag copying by default; an error for another
/// format.
pub fn options_from_dto(dto: ConvertOptionsDto) -> (r: Result<ConvertOptions, String>)
    ensures
        dto.output_format@ == "wav"@ ==> (r matches Ok(o) && o.output_format == OutputFormat::Wav
            && o.output_dir == dto.output_dir && o.bit_depth == match dto.bit_depth {
            Some(b) => b,
            None => 16,
        } && o.preserve_tags == match dto.preserve_tags {
            Some(p) => p,
            None => true,
        }),
        dto.output_format@ != "wav"@ ==> (r matches Err(e) && e@ == "Unsupported output format: "@
            + dto.output_format@),
{
    if !str_eq(dto.output_format.as_str(), "wav") {
        let mut m = chars_of("Unsupported output format: ");
        push_str(&mut m, dto.output_format.as_str());
        return Err(string_of(m.as_slice()));
    }
    Ok(
        ConvertOptions {
            output_format: OutputFormat::Wav,
            output_dir: dto.output_dir,
            bit_depth: match dto.bit_depth {
                Some(b) => b,
                None => 16,
            },
            preserve_tags: match dto.preserve_tags {
                Some(p) => p,
                None => true,
            },
        },
    )
}

/// The result entry of one converted file: its output path, or the error.
pub fn convert_result(input: &str, outcome: Result<String, String>) -> (r: ConvertResult)
    ensures
        r.input@ == input@,
        match outcome {
            Ok(out) => r.output@ == out@ && r.success && r.error is None,
            Err(e) => r.output@ == Seq::<char>::empty() && !r.success && (r.error matches Some(x)
                && x@ == e@),
        },
{
    match outcome {
        Ok(out) => ConvertResult { input: input.to_owned(), output: out, success: true, error: None },
        Err(e) => ConvertResult {
            input: input.to_owned(),
            output: String::new(),
            success: false,
            error: Some(e),
        },
    }
}

} // verus!
