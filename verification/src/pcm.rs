//! What the decoder adapters do with the bytes and frames their decoders
//! hand out: little-endian PCM to integer samples, the walk over AC-3
//! syncframes, and the chunked hand-out of a large APE frame.
use vstd::prelude::*;

use crate::text::{chars_of, contains_at, has_infix, push_dec, string_of};

verus! {

/// The signed value of two little-endian bytes.
pub open spec fn le16(lo: u8, hi: u8) -> int {
    let u = lo + 256 * hi;
    if u >= 0x8000 {
        u - 0x1_0000
    } else {
        u
    }
}

/// The signed value of three little-endian bytes.
pub open spec fn le24(b0: u8, b1: u8, b2: u8) -> int {
    let u = b0 + 256 * b1 + 65536 * b2;
    if u >= 0x80_0000 {
        u - 0x100_0000
    } else {
        u
    }
}

/// The signed value of four little-endian bytes.
pub open spec fn le32(b0: u8, b1: u8, b2: u8, b3: u8) -> int {
    let u = b0 + 256 * b1 + 65536 * b2 + 16777216 * b3;
    if u >= 0x8000_0000 {
        u - 0x1_0000_0000
    } else {
        u
    }
}

/// Bytes per sample of a PCM stream of `bits` bits: 3 for 24, 4 for 32,
/// else 2 (16-bit is assumed for every other width).
pub open spec fn pcm_width(bits: u16) -> nat {
    if bits == 24 {
        3
    } else if bits == 32 {
        4
    } else {
        2
    }
}

/// Sample `i` of little-endian PCM bytes of `bits` bits.
pub open spec fn pcm_sample(pcm: Seq<u8>, bits: u16, i: int) -> int {
    let w = pcm_width(bits) as int;
    if w == 3 {
        le24(pcm[3 * i], pcm[3 * i + 1], pcm[3 * i + 2])
    } else if w == 4 {
        le32(pcm[4 * i], pcm[4 * i + 1], pcm[4 * i + 2], pcm[4 * i + 3])
    } else {
        le16(pcm[2 * i], pcm[2 * i + 1])
    }
}

fn i16_le(lo: u8, hi: u8) -> (v: i16)
    ensures
        v == le16(lo, hi),
{
    let u: u32 = lo as u32 + 256 * hi as u32;
    if u >= 0x8000 {
        (u as i32 - 0x1_0000) as i16
    } else {
        u as i16
    }
}

/// The signed 16-bit samples of little-endian bytes, two bytes each; an odd
/// last byte is left over.
pub fn s16le_samples(bytes: &[u8]) -> (v: Vec<i16>)
    ensures
        v@.len() == bytes@.len() / 2,
        forall|i: int| 0 <= i < v@.len() ==> #[trigger] v@[i] == le16(bytes@[2 * i], bytes@[2 * i + 1]),
{
    let n = bytes.len() / 2;
    let mut v: Vec<i16> = Vec::new();
    let mut i: usize = 0;
    while i < n
        invariant
            n == bytes@.len() / 2,
            i <= n,
            v@.len() == i,
            forall|j: int| 0 <= j < i ==> #[trigger] v@[j] == le16(bytes@[2 * j], bytes@[2 * j + 1]),
        decreases n - i,
    {
        assert(2 * i + 2 <= bytes@.len()) by (nonlinear_arith)
            requires
                i < n,
                n == bytes@.len() / 2,
        ;
        assert(2 * i + 2 <= bytes.len());
        v.push(i16_le(bytes[2 * i], bytes[2 * i + 1]));
        i = i + 1;
    }
    v
}

/// The integer samples of little-endian PCM bytes of `bits` bits (16, 24
/// or 32; any other width reads as 16), whole samples only.
pub fn decode_pcm_le(pcm: &[u8], bits: u16) -> (v: Vec<i32>)
    ensures
        v@.len() == pcm@.len() / pcm_width(bits),
        forall|i: int| 0 <= i < v@.len() ==> #[trigger] v@[i] == pcm_sample(pcm@, bits, i),
{
    let w: usize = if bits == 24 {
        3
    } else if bits == 32 {
        4
    } else {
        2
    };
    let n = pcm.len() / w;
    let mut v: Vec<i32> = Vec::new();
    let mut i: usize = 0;
    while i < n
        invariant
            w == pcm_width(bits),
            n == (pcm@.len() as int) / (w as int),
            i <= n,
            v@.len() == i,
            forall|j: int| 0 <= j < i ==> #[trigger] v@[j] == pcm_sample(pcm@, bits, j),
        decreases n - i,
    {
        assert(w * i + w <= pcm@.len()) by (nonlinear_arith)
            requires
                i < n,
                n == (pcm@.len() as int) / (w as int),
                w > 0,
        ;
        assert(w * i + w <= pcm.len());
        let base: usize = w * i;
        let s: i32 = if w == 3 {
            assert(base == 3 * i);
            let u: u32 = pcm[base] as u32 + 256 * pcm[base + 1] as u32 + 65536 * pcm[base + 2] as u32;
            if u >= 0x80_0000 {
                u as i32 - 0x100_0000
            } else {
                u as i32
            }
        } else if w == 4 {
            assert(base == 4 * i);
            let u: u64 = pcm[base] as u64 + 256 * pcm[base + 1] as u64 + 65536 * pcm[base + 2] as u64
                + 16777216 * pcm[base + 3] as u64;
            if u >= 0x8000_0000 {
                (u as i64 - 0x1_0000_0000) as i32
            } else {
                u as i32
            }
        } else {
            assert(base == 2 * i);
            i16_le(pcm[base], pcm[base + 1]) as i32
        };
        v.push(s);
        i = i + 1;
    }
    v
}

/// The magnitude that full scale has in samples of `bits` bits: the value
/// a sample is divided by to read as a fraction of full scale.
pub fn pcm_full_scale(bits: u16) -> (d: u64)
    ensures
        d == (if bits == 24 {
            0x80_0000
        } else if bits == 32 {
            0x8000_0000u64
        } else {
            0x8000
        }),
{
    if bits == 24 {
        0x80_0000
    } else if bits == 32 {
        0x8000_0000
    } else {
        0x8000
    }
}

// ── AC-3 ─────────────────────────────────────────────────────────────────

/// Samples per channel in one AC-3 syncframe.
pub const AC3_FRAME_SAMPLES: u64 = 1536;

/// The number of whole syncframes in a stream of `len` bytes whose first
/// frame is `frame_length` bytes long; a stream of fewer than five bytes
/// and a zero frame length are refused.
pub fn ac3_frame_count(len: usize, frame_length: usize) -> (r: Result<u64, String>)
    ensures
        len < 5 ==> (r matches Err(e) && e@ == "AC-3 file too small ("@ + crate::text::dec(
            len as nat,
        ) + ")"@),
        len >= 5 && frame_length == 0 ==> (r matches Err(e) && e@
            == "zero frame length in syncinfo"@),
        len >= 5 && frame_length > 0 ==> r == Ok::<u64, String>((len / frame_length) as u64),
{
    if len < 5 {
        let mut m = chars_of("AC-3 file too small (");
        push_dec(&mut m, len as u64);
        let mut t = chars_of(")");
        m.append(&mut t);
        return Err(string_of(m.as_slice()));
    }
    if frame_length == 0 {
        return Err("zero frame length in syncinfo".to_owned());
    }
    Ok((len / frame_length) as u64)
}

/// Samples per channel in `frames` syncframes.
pub fn ac3_total_samples(frames: u64) -> (n: u64)
    requires
        frames * AC3_FRAME_SAMPLES <= u64::MAX,
    ensures
        n == frames * AC3_FRAME_SAMPLES,
{
    frames * AC3_FRAME_SAMPLES
}

/// Length of `frames` syncframes at `sample_rate`, in milliseconds.
pub fn ac3_duration_ms(frames: u64, sample_rate: u32) -> (ms: u64)
    requires
        sample_rate > 0,
        frames * AC3_FRAME_SAMPLES * 1000 <= u64::MAX,
    ensures
        ms == frames * AC3_FRAME_SAMPLES * 1000 / (sample_rate as int),
{
    frames * AC3_FRAME_SAMPLES * 1000 / sample_rate as u64
}

/// Whether a decoder error only says that it wants more data: the frame
/// is then over, not failed.
pub fn wants_more_data(message: &str) -> (b: bool)
    ensures
        b == (has_infix(message@, "more data"@) || has_infix(message@, "again"@)),
{
    let m = chars_of(message);
    let a = chars_of("more data");
    let b = chars_of("again");
    assert(m@.subrange(0, m@.len() as int) =~= m@);
    contains_at(&m, 0, m.len(), &a) || contains_at(&m, 0, m.len(), &b)
}

// ── outside: oxideav-ac3 ────────────────────────────────────────────────

#[verifier::external_type_specification]
#[verifier::external_body]
pub struct ExOxideavError(oxideav_core::Error);

/// The frame length and sample rate that the syncinfo at the start of the
/// bytes gives, `None` when the bytes do not start with a syncinfo that
/// `oxideav_ac3::syncinfo::parse` reads.
pub uninterp spec fn ac3_sync(bytes: Seq<u8>) -> Option<(u32, u32)>;

/// `oxideav_ac3::syncinfo::parse`: the frame length and sample rate of the
/// syncframe the bytes start with. The contract names the result.
#[verifier::external_body]
fn ac3_syncinfo(bytes: &[u8]) -> (r: Result<(u32, u32), oxideav_core::Error>)
    ensures
        match r {
            Ok(v) => ac3_sync(bytes@) == Some(v),
            Err(_) => ac3_sync(bytes@) is None,
        },
{
    oxideav_ac3::syncinfo::parse(bytes).map(|si| (si.frame_length, si.sample_rate))
}

/// Why an AC-3 stream cannot be opened: too short or a zero frame length
/// (with the message), or a syncinfo the decoder does not read.
pub enum Ac3Error {
    Refused(String),
    Sync(oxideav_core::Error),
}

/// Open an AC-3 stream held in memory: the number of whole syncframes (by
/// the first frame's length) and the sample rate. A stream of fewer than
/// five bytes, one whose first syncinfo does not read, and a zero frame
/// length are refused.
pub fn ac3_stream_info(data: &[u8]) -> (r: Result<(u64, u32), Ac3Error>)
    ensures
        data@.len() < 5 ==> (r matches Err(Ac3Error::Refused(e)) && e@ == "AC-3 file too small ("@
            + crate::text::dec(data@.len()) + ")"@),
        data@.len() >= 5 ==> match ac3_sync(data@) {
            None => r matches Err(Ac3Error::Sync(_)),
            Some((fl, sr)) => if fl == 0 {
                r matches Err(Ac3Error::Refused(e)) && e@ == "zero frame length in syncinfo"@
            } else {
                r matches Ok((n, rate)) && n == (data@.len() as int) / (fl as int) && rate == sr
            },
        },
{
    let len = data.len();
    if len < 5 {
        return match ac3_frame_count(len, 0) {
            Ok(_) => Err(Ac3Error::Refused(String::new())),
            Err(e) => Err(Ac3Error::Refused(e)),
        };
    }
    match ac3_syncinfo(data) {
        Err(e) => Err(Ac3Error::Sync(e)),
        Ok((fl, sr)) => match ac3_frame_count(len, fl as usize) {
            Ok(n) => Ok((n, sr)),
            Err(e) => Err(Ac3Error::Refused(e)),
        },
    }
}

/// The walk over the syncframes of an AC-3 stream held in memory.
pub struct Ac3Cursor {
    offset: usize,
    frame_index: u64,
    len: usize,
}

pub ghost struct Ac3CursorView {
    pub offset: usize,
    pub frame_index: u64,
    pub len: usize,
}

impl View for Ac3Cursor {
    type V = Ac3CursorView;

    closed spec fn view(&self) -> Ac3CursorView {
        Ac3CursorView { offset: self.offset, frame_index: self.frame_index, len: self.len }
    }
}

impl Ac3Cursor {
    /// At the start of a stream of `len` bytes.
    pub fn new(len: usize) -> (c: Self)
        ensures
            c@ == (Ac3CursorView { offset: 0, frame_index: 0, len }),
    {
        Ac3Cursor { offset: 0, frame_index: 0, len }
    }

    pub fn offset(&self) -> (o: usize)
        ensures
            o == self@.offset,
    {
        self.offset
    }

    pub fn frame_index(&self) -> (i: u64)
        ensures
            i == self@.frame_index,
    {
        self.frame_index
    }

    /// Whether every byte has been walked.
    pub fn at_end(&self) -> (b: bool)
        ensures
            b == (self@.offset >= self@.len),
    {
        self.offset >= self.len
    }

    /// Take the frame of `frame_length` bytes at the offset: its byte range,
    /// or none when it runs past the end (a partial last frame, which is
    /// never decoded).
    pub fn take_frame(&mut self, frame_length: usize) -> (r: Option<(usize, usize)>)
        requires
            old(self)@.frame_index < u64::MAX,
        ensures
            old(self)@.offset + frame_length > old(self)@.len ==> r is None && final(self)@ == old(
                self,
            )@,
            old(self)@.offset + frame_length <= old(self)@.len ==> r == Some(
                (old(self)@.offset, (old(self)@.offset + frame_length) as usize),
            ) && final(self)@ == (Ac3CursorView {
                offset: (old(self)@.offset + frame_length) as usize,
                frame_index: (old(self)@.frame_index + 1) as u64,
                len: old(self)@.len,
            }),
    {
        if frame_length > self.len || self.offset > self.len - frame_length {
            return None;
        }
        let start = self.offset;
        self.offset = self.offset + frame_length;
        self.frame_index = self.frame_index + 1;
        Some((start, self.offset))
    }

    /// The byte range of the next whole syncframe of `data` (the stream the
    /// cursor walks), by the length its syncinfo gives; `None` at the end
    /// and for a partial last frame; the decoder's error for a syncinfo it
    /// does not read.
    pub fn next_frame(&mut self, data: &[u8]) -> (r: Result<Option<(usize, usize)>, oxideav_core::Error>)
        requires
            old(self)@.len == data@.len(),
            old(self)@.frame_index < u64::MAX,
        ensures
            old(self)@.offset >= old(self)@.len ==> (r matches Ok(None) && final(self)@ == old(self)@),
            old(self)@.offset < old(self)@.len ==> match ac3_sync(
                data@.subrange(old(self)@.offset as int, data@.len() as int),
            ) {
                None => r is Err && final(self)@ == old(self)@,
                Some((fl, _)) => if old(self)@.offset + fl > old(self)@.len {
                    (r matches Ok(None) && final(self)@ == old(self)@)
                } else {
                    &&& r matches Ok(Some(range)) && range == (
                        old(self)@.offset,
                        (old(self)@.offset + fl) as usize,
                    )
                    &&& final(self)@ == (Ac3CursorView {
                        offset: (old(self)@.offset + fl) as usize,
                        frame_index: (old(self)@.frame_index + 1) as u64,
                        len: old(self)@.len,
                    })
                },
            },
    {
        if self.at_end() {
            return Ok(None);
        }
        let rest = vstd::slice::slice_subrange(data, self.offset, data.len());
        match ac3_syncinfo(rest) {
            Err(e) => Err(e),
            Ok((fl, _)) => Ok(self.take_frame(fl as usize)),
        }
    }
}

// ── APE ──────────────────────────────────────────────────────────────────

/// Frames per chunk handed out of a decoded APE frame (100 ms at 44.1 kHz).
pub const CHUNK_FRAMES: usize = 4410;

/// The hand-out of the samples of one decoded APE frame in chunks, and the
/// count of frames decoded and handed out.
pub struct ChunkQueue<T> {
    buf: Vec<T>,
    read_pos: usize,
    channels: usize,
    current_frame: u32,
    total_frames: u32,
    position: u64,
}

pub ghost struct ChunkQueueView<T> {
    pub buf: Seq<T>,
    pub read_pos: usize,
    pub channels: usize,
    /// The next APE frame to decode.
    pub current_frame: u32,
    pub total_frames: u32,
    /// Frames handed out since the start (or the last seek).
    pub position: u64,
}

impl<T> View for ChunkQueue<T> {
    type V = ChunkQueueView<T>;

    closed spec fn view(&self) -> ChunkQueueView<T> {
        ChunkQueueView {
            buf: self.buf@,
            read_pos: self.read_pos,
            channels: self.channels,
            current_frame: self.current_frame,
            total_frames: self.total_frames,
            position: self.position,
        }
    }
}

impl<T: Copy> ChunkQueue<T> {
    /// Empty, before the first of `total_frames` APE frames.
    pub fn new(channels: usize, total_frames: u32) -> (q: Self)
        ensures
            q@.buf.len() == 0,
            q@.read_pos == 0,
            q@.channels == channels,
            q@.current_frame == 0,
            q@.total_frames == total_frames,
            q@.position == 0,
    {
        ChunkQueue {
            buf: Vec::new(),
            read_pos: 0,
            channels,
            current_frame: 0,
            total_frames,
            position: 0,
        }
    }

    pub fn position(&self) -> (p: u64)
        ensures
            p == self@.position,
    {
        self.position
    }

    /// Whether every sample of the current frame has been handed out.
    pub fn exhausted(&self) -> (b: bool)
        ensures
            b == (self@.read_pos >= self@.buf.len()),
    {
        self.read_pos >= self.buf.len()
    }

    /// The next APE frame to decode, if any is left; it counts as taken
    /// whether or not it decodes.
    pub fn next_frame_index(&mut self) -> (r: Option<u32>)
        ensures
            old(self)@.current_frame < old(self)@.total_frames ==> r == Some(
                old(self)@.current_frame,
            ) && final(self)@ == (ChunkQueueView {
                current_frame: (old(self)@.current_frame + 1) as u32,
                ..old(self)@
            }),
            old(self)@.current_frame >= old(self)@.total_frames ==> r is None && final(self)@
                == old(self)@,
    {
        if self.current_frame < self.total_frames {
            let idx = self.current_frame;
            self.current_frame = self.current_frame + 1;
            Some(idx)
        } else {
            None
        }
    }

    /// A frame decoded to `samples`: they are handed out from the start.
    pub fn refill(&mut self, samples: Vec<T>)
        ensures
            final(self)@ == (ChunkQueueView { buf: samples@, read_pos: 0, ..old(self)@ }),
    {
        self.buf = samples;
        self.read_pos = 0;
    }

    /// Hand out the next chunk: at most `CHUNK_FRAMES` frames of the
    /// samples not yet handed out. The position counts the whole frames.
    pub fn take_chunk(&mut self) -> (chunk: Vec<T>)
        requires
            old(self)@.channels > 0,
            CHUNK_FRAMES * old(self)@.channels <= usize::MAX,
            old(self)@.read_pos <= old(self)@.buf.len(),
            old(self)@.position + CHUNK_FRAMES <= u64::MAX,
        ensures
            ({
                let rest = old(self)@.buf.len() - old(self)@.read_pos;
                let n = if rest <= CHUNK_FRAMES * old(self)@.channels {
                    rest
                } else {
                    CHUNK_FRAMES * old(self)@.channels
                };
                &&& chunk@ == old(self)@.buf.subrange(
                    old(self)@.read_pos as int,
                    old(self)@.read_pos + n,
                )
                &&& final(self)@ == (ChunkQueueView {
                    read_pos: (old(self)@.read_pos + n) as usize,
                    position: (old(self)@.position + n / (old(self)@.channels as int)) as u64,
                    ..old(self)@
                })
            }),
    {
        let chunk_samples = CHUNK_FRAMES * self.channels;
        let remaining = self.buf.len() - self.read_pos;
        let to_read = if remaining < chunk_samples {
            remaining
        } else {
            chunk_samples
        };
        let mut out: Vec<T> = Vec::new();
        let mut i: usize = 0;
        while i < to_read
            invariant
                i <= to_read,
                self.read_pos + to_read <= self.buf.len(),
                out@ == self.buf@.subrange(self.read_pos as int, self.read_pos + i),
            decreases to_read - i,
        {
            out.push(self.buf[self.read_pos + i]);
            i = i + 1;
            assert(out@ =~= self.buf@.subrange(self.read_pos as int, self.read_pos + i));
        }
        self.read_pos = self.read_pos + to_read;
        let frames = to_read / self.channels;
        assert(frames <= CHUNK_FRAMES) by (nonlinear_arith)
            requires
                frames == (to_read as int) / (self.channels as int),
                to_read <= CHUNK_FRAMES * self.channels,
                self.channels > 0,
        ;
        self.position = self.position + frames as u64;
        out
    }

    /// A seek landed at `sample`, in the APE frame `frame_index`: decoding
    /// resumes there, with nothing left to hand out.
    pub fn seeked(&mut self, sample: u64, frame_index: u32)
        ensures
            final(self)@ == (ChunkQueueView {
                buf: Seq::empty(),
                read_pos: 0,
                current_frame: frame_index,
                position: sample,
                ..old(self)@
            }),
    {
        self.current_frame = frame_index;
        self.position = sample;
        self.buf.clear();
        self.read_pos = 0;
    }
}

} // verus!
