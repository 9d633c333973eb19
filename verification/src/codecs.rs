//! Format detection: each decoder's probe of a file's first bytes and
//! extension, and the registry's choice of the decoder to open a file with.
//! Decoding itself is done by the decoder libraries, outside this crate.
use vstd::prelude::*;

use crate::paths;
use crate::text::{str_eq, to_lowercase};

verus! {

/// Probe result for format detection.
#[derive(Debug, Clone, Copy, PartialEq, Eq, Structural)]
pub enum ProbeResult {
    Match,
    Maybe,
    No,
}

/// `p` is a prefix of `s`.
pub open spec fn bytes_prefix(s: Seq<u8>, p: Seq<u8>) -> bool {
    p.len() <= s.len() && s.subrange(0, p.len() as int) == p
}

fn starts_with_bytes(s: &[u8], p: &[u8]) -> (b: bool)
    ensures
        b == bytes_prefix(s@, p@),
{
    if p.len() > s.len() {
        return false;
    }
    let mut i: usize = 0;
    while i < p.len()
        invariant
            i <= p@.len() <= s@.len(),
            forall|j: int| 0 <= j < i ==> s@[j] == p@[j],
        decreases p@.len() - i,
    {
        if s[i] != p[i] {
            assert(s@.subrange(0, p@.len() as int)[i as int] != p@[i as int]);
            return false;
        }
        i = i + 1;
    }
    assert(s@.subrange(0, p@.len() as int) =~= p@);
    true
}

pub open spec fn mac_magic() -> Seq<u8> {
    seq![0x4Du8, 0x41u8, 0x43u8, 0x20u8]
}

/// The ASF header GUID that WMA files start with.
pub open spec fn asf_magic() -> Seq<u8> {
    seq![
        0x30u8, 0x26u8, 0xB2u8, 0x75u8, 0x8Eu8, 0x66u8, 0xCFu8, 0x11u8, 0xA6u8, 0xD9u8, 0x00u8,
        0xAAu8, 0x00u8, 0x62u8, 0xCEu8, 0x6Cu8,
    ]
}

fn asf_magic_vec() -> (v: Vec<u8>)
    ensures
        v@ == asf_magic(),
{
    let v: Vec<u8> = vec![
        0x30u8, 0x26u8, 0xB2u8, 0x75u8, 0x8Eu8, 0x66u8, 0xCFu8, 0x11u8, 0xA6u8, 0xD9u8, 0x00u8,
        0xAAu8, 0x00u8, 0x62u8, 0xCEu8, 0x6Cu8,
    ];
    assert(v@ =~= asf_magic());
    v
}

/// The APE (Monkey's Audio) decoder.
pub struct ApeDecoderFactory;

/// The AC-3 / E-AC-3 decoder.
pub struct Ac3DecoderFactory;

/// The general decoder for FLAC, MP3, AAC, Vorbis, Opus, WAV and ALAC.
pub struct SymphoniaDecoder;

/// The tracker module decoder (MOD, XM, S3M, IT).
pub struct XmrsDecoder;

pub open spec fn ape_probe(magic: Seq<u8>, ext: Seq<char>) -> ProbeResult {
    if ext != "ape"@ {
        ProbeResult::No
    } else if bytes_prefix(magic, mac_magic()) {
        ProbeResult::Match
    } else {
        ProbeResult::Maybe
    }
}

impl ApeDecoderFactory {
    pub fn name(&self) -> (s: &'static str)
        ensures
            s@ == "ape-decoder"@,
    {
        "ape-decoder"
    }

    pub fn extensions(&self) -> (v: Vec<&'static str>)
        ensures
            v@.len() == 1,
            v@[0]@ == "ape"@,
    {
        let mut v: Vec<&'static str> = Vec::new();
        v.push("ape");
        v
    }

    pub fn priority(&self) -> (p: u8)
        ensures
            p == 15,
    {
        15
    }

    /// A file with the extension `ape`; a match when it starts with `MAC `.
    pub fn probe(&self, magic: &[u8], extension: &str) -> (r: ProbeResult)
        ensures
            r == ape_probe(magic@, extension@),
    {
        if !str_eq(extension, "ape") {
            return ProbeResult::No;
        }
        let pat: Vec<u8> = vec![0x4Du8, 0x41u8, 0x43u8, 0x20u8];
        assert(pat@ =~= mac_magic());
        if starts_with_bytes(magic, pat.as_slice()) {
            ProbeResult::Match
        } else {
            ProbeResult::Maybe
        }
    }
}

pub open spec fn ac3_probe(magic: Seq<u8>, ext: Seq<char>) -> ProbeResult {
    if magic.len() >= 2 && magic[0] == 0x0B && magic[1] == 0x77 {
        ProbeResult::Match
    } else if ext == "ac3"@ || ext == "eac3"@ || ext == "a52"@ {
        ProbeResult::Maybe
    } else {
        ProbeResult::No
    }
}

impl Ac3DecoderFactory {
    pub fn name(&self) -> (s: &'static str)
        ensures
            s@ == "AC-3 / E-AC-3"@,
    {
        "AC-3 / E-AC-3"
    }

    pub fn extensions(&self) -> (v: Vec<&'static str>)
        ensures
            v@.len() == 3,
            v@[0]@ == "ac3"@,
            v@[1]@ == "eac3"@,
            v@[2]@ == "a52"@,
    {
        let mut v: Vec<&'static str> = Vec::new();
        v.push("ac3");
        v.push("eac3");
        v.push("a52");
        v
    }

    pub fn priority(&self) -> (p: u8)
        ensures
            p == 12,
    {
        12
    }

    /// A match on the AC-3 sync word `0B 77`; else a possible match by
    /// extension.
    pub fn probe(&self, magic: &[u8], extension: &str) -> (r: ProbeResult)
        ensures
            r == ac3_probe(magic@, extension@),
    {
        if magic.len() >= 2 && magic[0] == 0x0B && magic[1] == 0x77 {
            return ProbeResult::Match;
        }
        if str_eq(extension, "ac3") || str_eq(extension, "eac3") || str_eq(extension, "a52") {
            ProbeResult::Maybe
        } else {
            ProbeResult::No
        }
    }
}

pub open spec fn symphonia_probe(magic: Seq<u8>, ext: Seq<char>) -> ProbeResult {
    if ext == "flac"@ && bytes_prefix(magic, seq![0x66u8, 0x4Cu8, 0x61u8, 0x43u8]) {
        ProbeResult::Match
    } else if ext == "mp3"@ {
        if magic.len() >= 2 && magic[0] == 0xFF && (magic[1] & 0xE0) == 0xE0 {
            ProbeResult::Match
        } else {
            ProbeResult::Maybe
        }
    } else if ext == "wav"@ && bytes_prefix(magic, seq![0x52u8, 0x49u8, 0x46u8, 0x46u8]) {
        ProbeResult::Match
    } else if (ext == "ogg"@ || ext == "opus"@) && bytes_prefix(
        magic,
        seq![0x4Fu8, 0x67u8, 0x67u8, 0x53u8],
    ) {
        ProbeResult::Match
    } else if ext == "ogg"@ || ext == "opus"@ {
        ProbeResult::Maybe
    } else if ext == "aac"@ || ext == "m4a"@ {
        ProbeResult::Maybe
    } else if ext == "alac"@ || ext == "m4b"@ {
        ProbeResult::Maybe
    } else if ext == "wma"@ {
        if magic.len() >= 16 && magic.subrange(0, 16) == asf_magic() {
            ProbeResult::Match
        } else {
            ProbeResult::Maybe
        }
    } else {
        ProbeResult::No
    }
}

impl SymphoniaDecoder {
    pub fn name(&self) -> (s: &'static str)
        ensures
            s@ == "symphonia"@,
    {
        "symphonia"
    }

    pub fn extensions(&self) -> (v: Vec<&'static str>)
        ensures
            v@.len() == 9,
            v@[0]@ == "flac"@,
            v@[1]@ == "mp3"@,
            v@[2]@ == "m4a"@,
            v@[3]@ == "aac"@,
            v@[4]@ == "ogg"@,
            v@[5]@ == "opus"@,
            v@[6]@ == "wav"@,
            v@[7]@ == "alac"@,
            v@[8]@ == "wma"@,
    {
        let mut v: Vec<&'static str> = Vec::new();
        v.push("flac");
        v.push("mp3");
        v.push("m4a");
        v.push("aac");
        v.push("ogg");
        v.push("opus");
        v.push("wav");
        v.push("alac");
        v.push("wma");
        v
    }

    pub fn priority(&self) -> (p: u8)
        ensures
            p == 10,
    {
        10
    }

    /// By extension, a match when the file starts with the format's magic.
    pub fn probe(&self, magic: &[u8], extension: &str) -> (r: ProbeResult)
        ensures
            r == symphonia_probe(magic@, extension@),
    {
        let flac: Vec<u8> = vec![0x66u8, 0x4Cu8, 0x61u8, 0x43u8];
        let riff: Vec<u8> = vec![0x52u8, 0x49u8, 0x46u8, 0x46u8];
        let oggs: Vec<u8> = vec![0x4Fu8, 0x67u8, 0x67u8, 0x53u8];
        assert(flac@ =~= seq![0x66u8, 0x4Cu8, 0x61u8, 0x43u8]);
        assert(riff@ =~= seq![0x52u8, 0x49u8, 0x46u8, 0x46u8]);
        assert(oggs@ =~= seq![0x4Fu8, 0x67u8, 0x67u8, 0x53u8]);
        let e = extension;
        if str_eq(e, "flac") && starts_with_bytes(magic, flac.as_slice()) {
            ProbeResult::Match
        } else if str_eq(e, "mp3") {
            if magic.len() >= 2 && magic[0] == 0xFF && (magic[1] & 0xE0) == 0xE0 {
                ProbeResult::Match
            } else {
                ProbeResult::Maybe
            }
        } else if str_eq(e, "wav") && starts_with_bytes(magic, riff.as_slice()) {
            ProbeResult::Match
        } else if (str_eq(e, "ogg") || str_eq(e, "opus")) && starts_with_bytes(
            magic,
            oggs.as_slice(),
        ) {
            ProbeResult::Match
        } else if str_eq(e, "ogg") || str_eq(e, "opus") {
            ProbeResult::Maybe
        } else if str_eq(e, "aac") || str_eq(e, "m4a") {
            ProbeResult::Maybe
        } else if str_eq(e, "alac") || str_eq(e, "m4b") {
            ProbeResult::Maybe
        } else if str_eq(e, "wma") {
            let asf = asf_magic_vec();
            if magic.len() >= 16 && starts_with_bytes(magic, asf.as_slice()) {
                ProbeResult::Match
            } else {
                ProbeResult::Maybe
            }
        } else {
            ProbeResult::No
        }
    }
}

/// The sample rate a track reports, or 44100 Hz when it reports none.
pub open spec fn track_rate(sample_rate: Option<u32>) -> u32 {
    match sample_rate {
        Some(r) => r,
        None => 44100,
    }
}

/// The channel count a track reports, or 2 when it reports none.
pub open spec fn track_channels(channels: Option<u16>) -> u16 {
    match channels {
        Some(c) => c,
        None => 2,
    }
}

/// The length in milliseconds that an exact frame count gives: whole
/// milliseconds of `n` frames at `rate`; `None` when there is no count, the
/// count is 0 or the rate is 0 (the length is then found elsewhere).
pub open spec fn frames_duration_ms(num_frames: Option<u64>, rate: u32) -> Option<u64> {
    match num_frames {
        Some(n) if n > 0 && rate > 0 => Some((n * 1000 / (rate as int)) as u64),
        _ => None,
    }
}

/// The stream shape of a decoded track from what its parameters report:
/// the sample rate (44100 Hz when absent), the channel count (2 when
/// absent) and the length in milliseconds from an exact frame count, when
/// there is one. Where that length is computed, `n * 1000` must fit in 64
/// bits.
pub fn track_shape(sample_rate: Option<u32>, channels: Option<u16>, num_frames: Option<u64>) -> (r: (
    u32,
    u16,
    Option<u64>,
))
    requires
        track_rate(sample_rate) > 0 ==> (num_frames matches Some(n) ==> n * 1000 <= u64::MAX),
    ensures
        r.0 == track_rate(sample_rate),
        r.1 == track_channels(channels),
        r.2 == frames_duration_ms(num_frames, track_rate(sample_rate)),
{
    let rate: u32 = match sample_rate {
        Some(r) => r,
        None => 44100,
    };
    let ch: u16 = match channels {
        Some(c) => c,
        None => 2,
    };
    let duration: Option<u64> = match num_frames {
        Some(n) => {
            if n > 0 && rate > 0 {
                Some(n * 1000 / (rate as u64))
            } else {
                None
            }
        },
        None => None,
    };
    (rate, ch, duration)
}

pub open spec fn xmrs_probe(magic: Seq<u8>, ext: Seq<char>) -> ProbeResult {
    if ext == "mod"@ && magic.len() >= 4 && magic.subrange(0, 4) == seq![
        0x4Du8,
        0x2Eu8,
        0x4Bu8,
        0x2Eu8,
    ] {
        ProbeResult::Match
    } else if ext == "mod"@ && magic.len() >= 20 {
        ProbeResult::Maybe
    } else if ext == "xm"@ && magic.len() >= 17 && magic.subrange(0, 17) == "Extended Module: "@.map_values(
        |c: char| c as u8,
    ) {
        ProbeResult::Match
    } else if ext == "s3m"@ && magic.len() >= 44 {
        ProbeResult::Maybe
    } else if ext == "it"@ && magic.len() >= 4 && magic.subrange(0, 4) == seq![
        0x49u8,
        0x4Du8,
        0x50u8,
        0x4Du8,
    ] {
        ProbeResult::Match
    } else if ext == "dw"@ {
        ProbeResult::Maybe
    } else {
        ProbeResult::No
    }
}

impl XmrsDecoder {
    pub fn name(&self) -> (s: &'static str)
        ensures
            s@ == "xmrs"@,
    {
        "xmrs"
    }

    pub fn extensions(&self) -> (v: Vec<&'static str>)
        ensures
            v@.len() == 5,
            v@[0]@ == "mod"@,
            v@[1]@ == "xm"@,
            v@[2]@ == "s3m"@,
            v@[3]@ == "it"@,
            v@[4]@ == "dw"@,
    {
        let mut v: Vec<&'static str> = Vec::new();
        v.push("mod");
        v.push("xm");
        v.push("s3m");
        v.push("it");
        v.push("dw");
        v
    }

    pub fn priority(&self) -> (p: u8)
        ensures
            p == 8,
    {
        8
    }

    /// By extension, a match on the module's signature.
    pub fn probe(&self, magic: &[u8], extension: &str) -> (r: ProbeResult)
        ensures
            r == xmrs_probe(magic@, extension@),
    {
        let mk: Vec<u8> = vec![0x4Du8, 0x2Eu8, 0x4Bu8, 0x2Eu8];
        let impm: Vec<u8> = vec![0x49u8, 0x4Du8, 0x50u8, 0x4Du8];
        assert(mk@ =~= seq![0x4Du8, 0x2Eu8, 0x4Bu8, 0x2Eu8]);
        assert(impm@ =~= seq![0x49u8, 0x4Du8, 0x50u8, 0x4Du8]);
        let xm = crate::text::lit("Extended Module: ");
        proof {
            reveal_strlit("Extended Module: ");
        }
        let mut xmb: Vec<u8> = Vec::new();
        let mut i: usize = 0;
        while i < xm.len()
            invariant
                i <= xm@.len(),
                xm@ == "Extended Module: "@,
                xmb@ =~= xm@.take(i as int).map_values(|c: char| c as u8),
            decreases xm@.len() - i,
        {
            xmb.push(xm[i] as u8);
            i = i + 1;
        }
        assert(xm@.take(i as int) =~= xm@);
        let e = extension;
        if str_eq(e, "mod") && magic.len() >= 4 && starts_with_bytes(magic, mk.as_slice()) {
            ProbeResult::Match
        } else if str_eq(e, "mod") && magic.len() >= 20 {
            ProbeResult::Maybe
        } else if str_eq(e, "xm") && magic.len() >= 17 && starts_with_bytes(magic, xmb.as_slice()) {
            ProbeResult::Match
        } else if str_eq(e, "s3m") && magic.len() >= 44 {
            ProbeResult::Maybe
        } else if str_eq(e, "it") && magic.len() >= 4 && starts_with_bytes(magic, impm.as_slice()) {
            ProbeResult::Match
        } else if str_eq(e, "dw") {
            ProbeResult::Maybe
        } else {
            ProbeResult::No
        }
    }
}

/// A decoder that recognises a format it cannot decode; opening a file
/// with it fails with its message.
pub struct FormatStub {
    pub name: &'static str,
    pub extensions: Vec<&'static str>,
    pub priority: u8,
    pub magic_pattern: Option<Vec<u8>>,
    pub message: &'static str,
}

pub open spec fn str_views(v: Seq<&'static str>) -> Seq<Seq<char>> {
    v.map_values(|s: &'static str| s@)
}

pub open spec fn stub_probe(st: FormatStub, magic: Seq<u8>, ext: Seq<char>) -> ProbeResult {
    if str_views(st.extensions@).contains(ext) {
        match st.magic_pattern {
            Some(p) => if bytes_prefix(magic, p@) {
                ProbeResult::Match
            } else {
                ProbeResult::Maybe
            },
            None => ProbeResult::Maybe,
        }
    } else {
        ProbeResult::No
    }
}

impl FormatStub {
    /// A file with one of the stub's extensions; a match when it starts with
    /// the stub's magic bytes.
    pub fn probe(&self, magic: &[u8], extension: &str) -> (r: ProbeResult)
        ensures
            r == stub_probe(*self, magic@, extension@),
    {
        let mut found = false;
        let mut i: usize = 0;
        while i < self.extensions.len()
            invariant
                i <= self.extensions@.len(),
                found == exists|j: int| 0 <= j < i && str_views(self.extensions@)[j] == extension@,
            decreases self.extensions@.len() - i,
        {
            let ghost v = str_views(self.extensions@);
            assert(v[i as int] == self.extensions@[i as int]@);
            let ghost was = found;
            if str_eq(self.extensions[i], extension) {
                found = true;
            }
            proof {
                if found && !was {
                    assert(0 <= i < i + 1 && v[i as int] == extension@);
                }
                if !found {
                    assert forall|j: int| 0 <= j < i + 1 implies v[j] != extension@ by {
                        if j < i {
                        } else {
                            assert(v[j] == self.extensions@[i as int]@);
                        }
                    }
                }
            }
            i = i + 1;
        }
        proof {
            let v = str_views(self.extensions@);
            if v.contains(extension@) {
                let j = choose|j: int| 0 <= j < v.len() && v[j] == extension@;
                assert(v[j] == extension@);
            }
            if found {
                let j = choose|j: int| 0 <= j < i && v[j] == extension@;
                assert(v.contains(extension@));
            }
        }
        if !found {
            return ProbeResult::No;
        }
        match &self.magic_pattern {
            Some(p) => if starts_with_bytes(magic, p.as_slice()) {
                ProbeResult::Match
            } else {
                ProbeResult::Maybe
            },
            None => ProbeResult::Maybe,
        }
    }
}

/// The TAK stub: its name, extensions, priority, magic bytes and
/// message.
pub open spec fn is_tak_stub(d: FormatStub) -> bool {
    &&& d.name@ == "tak-stub"@
    &&& str_views(d.extensions@) == seq!["tak"@]
    &&& d.priority == 1
    &&& d.magic_pattern matches Some(p) && p@ == seq![0x74u8, 0x42u8, 0x61u8, 0x4Bu8]
    &&& d.message@ == "TAK format: no open-source decoder available. TAK is a proprietary lossless codec by Thomas Becker."@
}

/// TAK decoder stub (no open-source decoder is available).
pub fn tak_stub() -> (d: FormatStub)
    ensures
        is_tak_stub(d),
{
    let mut ext: Vec<&'static str> = Vec::new();
    ext.push("tak");
    let magic: Vec<u8> = vec![0x74u8, 0x42u8, 0x61u8, 0x4Bu8];
    assert(magic@ =~= seq![0x74u8, 0x42u8, 0x61u8, 0x4Bu8]);
    assert(str_views(ext@) =~= seq!["tak"@]);
    FormatStub {
        name: "tak-stub",
        extensions: ext,
        priority: 1,
        magic_pattern: Some(magic),
        message: "TAK format: no open-source decoder available. TAK is a proprietary lossless codec by Thomas Becker.",
    }
}

/// The WMA/ASF stub: its name, extensions, priority, magic bytes and
/// message.
pub open spec fn is_wma_stub(d: FormatStub) -> bool {
    &&& d.name@ == "wma-stub"@
    &&& str_views(d.extensions@) == seq!["wma"@, "asf"@, "wmv"@]
    &&& d.priority == 1
    &&& d.magic_pattern matches Some(p) && p@ == asf_magic()
    &&& d.message@ == "WMA/ASF format: no open-source decoder available yet. Use FFI with Windows Media Foundation."@
}

/// WMA/ASF decoder stub.
pub fn wma_stub() -> (d: FormatStub)
    ensures
        is_wma_stub(d),
{
    let mut ext: Vec<&'static str> = Vec::new();
    ext.push("wma");
    ext.push("asf");
    ext.push("wmv");
    assert(str_views(ext@) =~= seq!["wma"@, "asf"@, "wmv"@]);
    FormatStub {
        name: "wma-stub",
        extensions: ext,
        priority: 1,
        magic_pattern: Some(asf_magic_vec()),
        message: "WMA/ASF format: no open-source decoder available yet. Use FFI with Windows Media Foundation.",
    }
}

/// The MPC stub: its name, extensions, priority, magic bytes and
/// message.
pub open spec fn is_mpc_stub(d: FormatStub) -> bool {
    &&& d.name@ == "mpc-stub"@
    &&& str_views(d.extensions@) == seq!["mpc"@, "mp+"@, "mpp"@]
    &&& d.priority == 1
    &&& d.magic_pattern matches Some(p) && p@ == seq![0x4Du8, 0x50u8, 0x2Bu8]
    &&& d.message@ == "MPC (Musepack) format: no pure-Rust decoder available. Consider FFI with libmpcdec."@
}

/// MPC (Musepack) decoder stub.
pub fn mpc_stub() -> (d: FormatStub)
    ensures
        is_mpc_stub(d),
{
    let mut ext: Vec<&'static str> = Vec::new();
    ext.push("mpc");
    ext.push("mp+");
    ext.push("mpp");
    assert(str_views(ext@) =~= seq!["mpc"@, "mp+"@, "mpp"@]);
    let magic: Vec<u8> = vec![0x4Du8, 0x50u8, 0x2Bu8];
    assert(magic@ =~= seq![0x4Du8, 0x50u8, 0x2Bu8]);
    FormatStub {
        name: "mpc-stub",
        extensions: ext,
        priority: 1,
        magic_pattern: Some(magic),
        message: "MPC (Musepack) format: no pure-Rust decoder available. Consider FFI with libmpcdec.",
    }
}

/// The DTS stub: its name, extensions, priority, magic bytes and
/// message.
pub open spec fn is_dts_stub(d: FormatStub) -> bool {
    &&& d.name@ == "dts-stub"@
    &&& str_views(d.extensions@) == seq!["dts"@]
    &&& d.priority == 1
    &&& d.magic_pattern matches Some(p) && p@ == seq![0x7Fu8, 0xFEu8, 0x80u8, 0x01u8]
    &&& d.message@ == "DTS format: no pure-Rust decoder available yet. Consider FFI with libdca or libavcodec."@
}

/// DTS decoder stub (AC-3 and E-AC-3 have a decoder; DTS has none).
pub fn dts_stub() -> (d: FormatStub)
    ensures
        is_dts_stub(d),
{
    let mut ext: Vec<&'static str> = Vec::new();
    ext.push("dts");
    assert(str_views(ext@) =~= seq!["dts"@]);
    let magic: Vec<u8> = vec![0x7Fu8, 0xFEu8, 0x80u8, 0x01u8];
    assert(magic@ =~= seq![0x7Fu8, 0xFEu8, 0x80u8, 0x01u8]);
    FormatStub {
        name: "dts-stub",
        extensions: ext,
        priority: 1,
        magic_pattern: Some(magic),
        message: "DTS format: no pure-Rust decoder available yet. Consider FFI with libdca or libavcodec.",
    }
}

/// One of the decoders the registry knows.
pub enum Decoder {
    Ape(ApeDecoderFactory),
    Ac3(Ac3DecoderFactory),
    Symphonia(SymphoniaDecoder),
    Xmrs(XmrsDecoder),
    Stub(FormatStub),
}

pub open spec fn decoder_probe(d: Decoder, magic: Seq<u8>, ext: Seq<char>) -> ProbeResult {
    match d {
        Decoder::Ape(_) => ape_probe(magic, ext),
        Decoder::Ac3(_) => ac3_probe(magic, ext),
        Decoder::Symphonia(_) => symphonia_probe(magic, ext),
        Decoder::Xmrs(_) => xmrs_probe(magic, ext),
        Decoder::Stub(s) => stub_probe(s, magic, ext),
    }
}

pub open spec fn decoder_priority(d: Decoder) -> u8 {
    match d {
        Decoder::Ape(_) => 15,
        Decoder::Ac3(_) => 12,
        Decoder::Symphonia(_) => 10,
        Decoder::Xmrs(_) => 8,
        Decoder::Stub(s) => s.priority,
    }
}

pub open spec fn decoder_name(d: Decoder) -> Seq<char> {
    match d {
        Decoder::Ape(_) => "ape-decoder"@,
        Decoder::Ac3(_) => "AC-3 / E-AC-3"@,
        Decoder::Symphonia(_) => "symphonia"@,
        Decoder::Xmrs(_) => "xmrs"@,
        Decoder::Stub(s) => s.name@,
    }
}

impl Decoder {
    pub fn name(&self) -> (s: &'static str)
        ensures
            s@ == decoder_name(*self),
    {
        match self {
            Decoder::Ape(d) => d.name(),
            Decoder::Ac3(d) => d.name(),
            Decoder::Symphonia(d) => d.name(),
            Decoder::Xmrs(d) => d.name(),
            Decoder::Stub(d) => d.name,
        }
    }

    pub fn priority(&self) -> (p: u8)
        ensures
            p == decoder_priority(*self),
    {
        match self {
            Decoder::Ape(d) => d.priority(),
            Decoder::Ac3(d) => d.priority(),
            Decoder::Symphonia(d) => d.priority(),
            Decoder::Xmrs(d) => d.priority(),
            Decoder::Stub(d) => d.priority,
        }
    }

    pub fn probe(&self, magic: &[u8], extension: &str) -> (r: ProbeResult)
        ensures
            r == decoder_probe(*self, magic@, extension@),
    {
        match self {
            Decoder::Ape(d) => d.probe(magic, extension),
            Decoder::Ac3(d) => d.probe(magic, extension),
            Decoder::Symphonia(d) => d.probe(magic, extension),
            Decoder::Xmrs(d) => d.probe(magic, extension),
            Decoder::Stub(d) => d.probe(magic, extension),
        }
    }
}

/// How good a probe result is: a match before a possible match.
pub open spec fn rank(r: ProbeResult) -> int {
    match r {
        ProbeResult::Match => 0,
        ProbeResult::Maybe => 1,
        ProbeResult::No => 2,
    }
}

/// `a` comes before `b`: a match before a possible match, then the higher
/// priority first.
pub open spec fn better(a: (ProbeResult, u8), b: (ProbeResult, u8)) -> bool {
    rank(a.0) < rank(b.0) || (rank(a.0) == rank(b.0) && a.1 > b.1)
}

/// The candidate chosen among the decoders from `i` on, with `best` the
/// choice so far: a later candidate replaces it only when strictly better.
pub open spec fn pick(c: Seq<(ProbeResult, u8)>, i: int, best: Option<int>) -> Option<int>
    decreases c.len() - i,
{
    if i < 0 || i >= c.len() {
        best
    } else {
        let nb = if c[i].0 == ProbeResult::No {
            best
        } else {
            match best {
                None => Some(i),
                Some(b) => if better(c[i], c[b]) {
                    Some(i)
                } else {
                    best
                },
            }
        };
        pick(c, i + 1, nb)
    }
}

/// The decoder the registry opens a file with: of those whose probe is not
/// `No`, the first after sorting matches before possible matches and then by
/// priority, highest first (registration order among equals).
pub open spec fn choose_decoder(c: Seq<(ProbeResult, u8)>) -> Option<int> {
    pick(c, 0, None)
}

proof fn lemma_pick(c: Seq<(ProbeResult, u8)>, i: int, best: Option<int>)
    requires
        0 <= i <= c.len(),
        best matches Some(b) ==> 0 <= b < i && c[b].0 != ProbeResult::No && (forall|j: int|
            0 <= j < b && c[j].0 != ProbeResult::No ==> better(c[b], c[j])) && (forall|j: int|
            b < j < i && c[j].0 != ProbeResult::No ==> !better(c[j], c[b])),
        best is None ==> forall|j: int| 0 <= j < i ==> c[j].0 == ProbeResult::No,
    ensures
        pick(c, i, best) matches Some(b) ==> 0 <= b < c.len() && c[b].0 != ProbeResult::No && (
        forall|j: int| 0 <= j < b && c[j].0 != ProbeResult::No ==> better(c[b], c[j])) && (forall|
            j: int,
        | b < j < c.len() && c[j].0 != ProbeResult::No ==> !better(c[j], c[b])),
        pick(c, i, best) is None ==> forall|j: int| 0 <= j < c.len() ==> c[j].0 == ProbeResult::No,
    decreases c.len() - i,
{
    if i < c.len() {
        let nb = if c[i].0 == ProbeResult::No {
            best
        } else {
            match best {
                None => Some(i),
                Some(b) => if better(c[i], c[b]) {
                    Some(i)
                } else {
                    best
                },
            }
        };
        lemma_pick(c, i + 1, nb);
    }
}

/// The chosen decoder probed the file as a match or a possible match; every
/// decoder before it is worse and none after it is better; and there is a
/// choice whenever some decoder does not say `No`.
pub proof fn lemma_choose_decoder(c: Seq<(ProbeResult, u8)>)
    ensures
        choose_decoder(c) matches Some(b) ==> 0 <= b < c.len() && c[b].0 != ProbeResult::No && (
        forall|j: int| 0 <= j < b && c[j].0 != ProbeResult::No ==> better(c[b], c[j])) && (forall|
            j: int,
        | b < j < c.len() && c[j].0 != ProbeResult::No ==> !better(c[j], c[b])),
        choose_decoder(c) is None ==> forall|j: int| 0 <= j < c.len() ==> c[j].0 == ProbeResult::No,
{
    lemma_pick(c, 0, None);
}

/// An MPEG audio frame sync: `0xFF`, then a byte with its top three bits
/// set.
pub open spec fn mpeg_frame_sync(magic: Seq<u8>) -> bool {
    magic.len() >= 2 && magic[0] == 0xFFu8 && magic[1] >= 0xE0u8
}

/// Every `.mp3` file can be opened: the general decoder claims it as a match
/// when its first bytes are a frame sync and as a possible match otherwise
/// (a tag such as ID3v2 may come first), so any registry holding the
/// general decoder chooses some decoder for it.
pub proof fn lemma_mp3_always_opens(ds: Seq<Decoder>, k: int, magic: Seq<u8>)
    requires
        0 <= k < ds.len(),
        ds[k] is Symphonia,
    ensures
        decoder_probe(ds[k], magic, "mp3"@) != ProbeResult::No,
        decoder_probe(ds[k], magic, "mp3"@) == ProbeResult::Match <==> mpeg_frame_sync(magic),
        choose_decoder(candidates(ds, magic, "mp3"@)) is Some,
{
    reveal_strlit("mp3");
    reveal_strlit("flac");
    assert("mp3"@.len() != "flac"@.len());
    if magic.len() >= 2 {
        let b = magic[1];
        assert((b & 0xE0u8) == 0xE0u8 <==> b >= 0xE0u8) by (bit_vector);
        assert((magic[1] & 0xE0) == 0xE0 <==> magic[1] >= 0xE0u8);
    }
    let c = candidates(ds, magic, "mp3"@);
    assert(c[k].0 == decoder_probe(ds[k], magic, "mp3"@));
    lemma_choose_decoder(c);
}

/// Registry of the available audio decoders, in registration order.
pub struct CodecRegistry {
    decoders: Vec<Decoder>,
}

impl View for CodecRegistry {
    type V = Seq<Decoder>;

    closed spec fn view(&self) -> Seq<Decoder> {
        self.decoders@
    }
}

/// The probe results and priorities of decoders for a file.
pub open spec fn candidates(ds: Seq<Decoder>, magic: Seq<u8>, ext: Seq<char>) -> Seq<
    (ProbeResult, u8),
> {
    ds.map_values(|d: Decoder| (decoder_probe(d, magic, ext), decoder_priority(d)))
}

/// The lower-cased extension the registry probes with (empty for none).
pub open spec fn probe_extension(path: Seq<char>) -> Seq<char> {
    crate::text::lowercase(
        match paths::path_extension(path) {
            Some(e) => e,
            None => Seq::empty(),
        },
    )
}

impl CodecRegistry {
    pub fn new() -> (r: Self)
        ensures
            r@.len() == 0,
    {
        CodecRegistry { decoders: Vec::new() }
    }

    /// The registry with every decoder: APE, AC-3, the general decoder, the
    /// module decoder, then the TAK, WMA, MPC and DTS stubs.
    pub fn with_defaults() -> (r: Self)
        ensures
            r@.len() == 8,
            r@[0] is Ape,
            r@[1] is Ac3,
            r@[2] is Symphonia,
            r@[3] is Xmrs,
            r@[4] matches Decoder::Stub(st) && is_tak_stub(st),
            r@[5] matches Decoder::Stub(st) && is_wma_stub(st),
            r@[6] matches Decoder::Stub(st) && is_mpc_stub(st),
            r@[7] matches Decoder::Stub(st) && is_dts_stub(st),
    {
        let mut reg = Self::new();
        reg.register(Decoder::Ape(ApeDecoderFactory));
        reg.register(Decoder::Ac3(Ac3DecoderFactory));
        reg.register(Decoder::Symphonia(SymphoniaDecoder));
        reg.register(Decoder::Xmrs(XmrsDecoder));
        reg.register(Decoder::Stub(tak_stub()));
        reg.register(Decoder::Stub(wma_stub()));
        reg.register(Decoder::Stub(mpc_stub()));
        reg.register(Decoder::Stub(dts_stub()));
        reg
    }

    pub fn register(&mut self, decoder: Decoder)
        ensures
            final(self)@ == old(self)@.push(decoder),
    {
        self.decoders.push(decoder);
    }

    /// The decoder to open the file at `path` with, given its first bytes.
    pub fn probe(&self, path: &str, magic: &[u8]) -> (r: Option<&Decoder>)
        ensures
            match choose_decoder(candidates(self@, magic@, probe_extension(path@))) {
                Some(i) => r matches Some(d) && *d == self@[i],
                None => r is None,
            },
    {
        let ext = match paths::extension(path) {
            Some(e) => e,
            None => String::new(),
        };
        let ext_lower = to_lowercase(ext.as_str());
        let ghost c = candidates(self.decoders@, magic@, probe_extension(path@));
        let mut best: Option<usize> = None;
        let mut best_key: (ProbeResult, u8) = (ProbeResult::No, 0);
        let mut i: usize = 0;
        while i < self.decoders.len()
            invariant
                i <= self.decoders@.len(),
                c == candidates(self.decoders@, magic@, probe_extension(path@)),
                ext_lower@ == probe_extension(path@),
                match best {
                    Some(b) => b < i && best_key == c[b as int],
                    None => true,
                },
                pick(c, 0, None) == pick(c, i as int, match best {
                    Some(b) => Some(b as int),
                    None => None,
                }),
            decreases self.decoders@.len() - i,
        {
            let r = self.decoders[i].probe(magic, ext_lower.as_str());
            let p = self.decoders[i].priority();
            assert(c[i as int] == (r, p));
            let take = match r {
                ProbeResult::No => false,
                _ => match best {
                    None => true,
                    Some(_) => {
                        let ra: u8 = match r {
                            ProbeResult::Match => 0,
                            ProbeResult::Maybe => 1,
                            ProbeResult::No => 2,
                        };
                        let rb: u8 = match best_key.0 {
                            ProbeResult::Match => 0,
                            ProbeResult::Maybe => 1,
                            ProbeResult::No => 2,
                        };
                        ra < rb || (ra == rb && p > best_key.1)
                    },
                },
            };
            if take {
                best = Some(i);
                best_key = (r, p);
            }
            i = i + 1;
        }
        match best {
            Some(b) => Some(&self.decoders[b]),
            None => None,
        }
    }
}

} // verus!
