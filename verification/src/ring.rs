//! The playback ring: the decode thread writes interleaved frames, the output
//! callback reads them back by absolute frame position. Positions count
//! frames from the start of the track and only grow; a frame's slot in the
//! buffer is its position modulo the capacity.
use vstd::prelude::*;

verus! {

/// Interleaved sample ring addressed by absolute frame positions.
pub struct SampleRing<T> {
    buf: Vec<T>,
    write_pos: u64,
    read_pos: u64,
    sample_rate: u32,
    channels: u16,
    capacity_frames: usize,
}

pub ghost struct RingView<T> {
    pub buf: Seq<T>,
    pub write_pos: u64,
    pub read_pos: u64,
    pub sample_rate: u32,
    pub channels: u16,
    pub capacity_frames: usize,
}

impl<T> View for SampleRing<T> {
    type V = RingView<T>;

    closed spec fn view(&self) -> RingView<T> {
        RingView {
            buf: self.buf@,
            write_pos: self.write_pos,
            read_pos: self.read_pos,
            sample_rate: self.sample_rate,
            channels: self.channels,
            capacity_frames: self.capacity_frames,
        }
    }
}

impl<T> RingView<T> {
    /// The buffer holds `capacity_frames` frames of `channels` samples.
    pub open spec fn wf(self) -> bool {
        self.buf.len() == self.capacity_frames * self.channels
    }

    /// Index in the buffer of sample `c` of the frame at position `pos`.
    pub open spec fn slot(self, pos: int, c: int) -> int {
        (pos % (self.capacity_frames as int)) * self.channels + c
    }

    /// Sample `c` of the frame at absolute position `pos`.
    pub open spec fn sample(self, pos: int, c: int) -> T {
        self.buf[self.slot(pos, c)]
    }

    /// Frames written and not yet read.
    pub open spec fn buffered(self) -> int {
        self.write_pos - self.read_pos
    }

    /// Frames that a write can still take.
    pub open spec fn room(self) -> int {
        if self.buffered() <= self.capacity_frames {
            self.capacity_frames - self.buffered()
        } else {
            0
        }
    }

    /// The sample pair an output read gives for the frame at `pos`: its
    /// first two samples, the first twice for a mono ring.
    pub open spec fn pair(self, pos: int) -> (T, T) {
        (self.sample(pos, 0), if self.channels >= 2 {
            self.sample(pos, 1)
        } else {
            self.sample(pos, 0)
        })
    }
}

proof fn lemma_slot_bounds(cap: int, ch: int, pos: int, c: int)
    requires
        cap > 0,
        ch > 0,
        pos >= 0,
        0 <= c < ch,
    ensures
        0 <= (pos % cap) * ch + c < cap * ch,
{
    assert(0 <= pos % cap < cap);
    assert((pos % cap) * ch <= (cap - 1) * ch) by (nonlinear_arith)
        requires
            0 <= pos % cap <= cap - 1,
            ch > 0,
    ;
    assert((cap - 1) * ch + ch == cap * ch) by (nonlinear_arith);
    assert(0 <= (pos % cap) * ch) by (nonlinear_arith)
        requires
            0 <= pos % cap,
            ch > 0,
    ;
}

/// Slots of distinct frames within one capacity window, or of distinct
/// channels of one frame, differ.
proof fn lemma_slots_distinct(cap: int, ch: int, p: int, c: int, q: int, d: int)
    requires
        cap > 0,
        ch > 0,
        p >= 0,
        q >= 0,
        0 <= c < ch,
        0 <= d < ch,
        p != q || c != d,
        p - q < cap,
        q - p < cap,
    ensures
        (p % cap) * ch + c != (q % cap) * ch + d,
{
    if p == q {
    } else {
        let a = p % cap;
        let b = q % cap;
        assert(a != b) by {
            vstd::arithmetic::div_mod::lemma_fundamental_div_mod(p, cap);
            vstd::arithmetic::div_mod::lemma_fundamental_div_mod(q, cap);
            if a == b {
                assert(p - q == cap * (p / cap) - cap * (q / cap));
                assert(p - q == cap * (p / cap - q / cap)) by (nonlinear_arith)
                    requires
                        p - q == cap * (p / cap) - cap * (q / cap),
                ;
                let k = p / cap - q / cap;
                if k >= 1 {
                    assert(cap * k >= cap) by (nonlinear_arith)
                        requires
                            k >= 1,
                            cap > 0,
                    ;
                } else if k <= -1 {
                    assert(cap * k <= -cap) by (nonlinear_arith)
                        requires
                            k <= -1,
                            cap > 0,
                    ;
                }
            }
        }
        if a < b {
            assert(a * ch + c < b * ch + d) by (nonlinear_arith)
                requires
                    a < b,
                    0 <= c < ch,
                    0 <= d,
            ;
        } else {
            assert(b * ch + d < a * ch + c) by (nonlinear_arith)
                requires
                    b < a,
                    0 <= d < ch,
                    0 <= c,
            ;
        }
    }
}

impl<T: Copy> SampleRing<T> {
    /// An empty ring of `capacity_frames` frames of `channels` samples each,
    /// filled with `silence`, both positions at 0.
    pub fn new(sample_rate: u32, channels: u16, capacity_frames: usize, silence: T) -> (r: Self)
        requires
            capacity_frames * channels <= usize::MAX,
        ensures
            r@.wf(),
            r@.write_pos == 0,
            r@.read_pos == 0,
            r@.sample_rate == sample_rate,
            r@.channels == channels,
            r@.capacity_frames == capacity_frames,
            forall|i: int| 0 <= i < r@.buf.len() ==> r@.buf[i] == silence,
    {
        let n: usize = capacity_frames * (channels as usize);
        let mut buf: Vec<T> = Vec::new();
        let mut i: usize = 0;
        while i < n
            invariant
                i <= n,
                buf@.len() == i,
                forall|j: int| 0 <= j < i ==> buf@[j] == silence,
            decreases n - i,
        {
            buf.push(silence);
            i = i + 1;
        }
        SampleRing { buf, write_pos: 0, read_pos: 0, sample_rate, channels, capacity_frames }
    }

    pub fn sample_rate(&self) -> (r: u32)
        ensures
            r == self@.sample_rate,
    {
        self.sample_rate
    }

    pub fn channels(&self) -> (r: u16)
        ensures
            r == self@.channels,
    {
        self.channels
    }

    pub fn capacity_frames(&self) -> (r: usize)
        ensures
            r == self@.capacity_frames,
    {
        self.capacity_frames
    }

    pub fn read_pos(&self) -> (r: u64)
        ensures
            r == self@.read_pos,
    {
        self.read_pos
    }

    pub fn write_pos(&self) -> (r: u64)
        ensures
            r == self@.write_pos,
    {
        self.write_pos
    }

    /// Frames written and not yet read.
    pub fn available(&self) -> (n: usize)
        requires
            self@.read_pos <= self@.write_pos,
            self@.buffered() <= usize::MAX,
        ensures
            n == self@.buffered(),
    {
        (self.write_pos - self.read_pos) as usize
    }

    /// Frames a write can still take: the capacity less what is buffered,
    /// never below zero.
    pub fn free(&self) -> (n: usize)
        requires
            self@.read_pos <= self@.write_pos,
            self@.buffered() <= usize::MAX,
        ensures
            n == self@.room(),
    {
        self.capacity_frames.saturating_sub(self.available())
    }

    /// Write the whole frames of interleaved `samples`, as many as there is
    /// room for, after the last written frame. Returns the frames written;
    /// the frames still buffered keep their samples.
    pub fn write(&mut self, samples: &[T]) -> (n: usize)
        requires
            old(self)@.wf(),
            old(self)@.channels >= 1,
            old(self)@.read_pos <= old(self)@.write_pos,
            old(self)@.buffered() <= usize::MAX,
            old(self)@.write_pos + (samples@.len() as int) / (old(self)@.channels as int) <= u64::MAX,
        ensures
            final(self)@.wf(),
            n == (if (samples@.len() as int) / (old(self)@.channels as int) <= old(self)@.room() {
                (samples@.len() as int) / (old(self)@.channels as int)
            } else {
                old(self)@.room()
            }),
            final(self)@.write_pos == old(self)@.write_pos + n,
            final(self)@.read_pos == old(self)@.read_pos,
            final(self)@.sample_rate == old(self)@.sample_rate,
            final(self)@.channels == old(self)@.channels,
            final(self)@.capacity_frames == old(self)@.capacity_frames,
            forall|p: int, c: int|
                old(self)@.write_pos <= p < final(self)@.write_pos && 0 <= c < old(self)@.channels
                    ==> #[trigger] final(self)@.sample(p, c) == samples@[(p - old(self)@.write_pos)
                    * old(self)@.channels + c],
            old(self)@.buffered() <= old(self)@.capacity_frames ==> forall|p: int, c: int|
                old(self)@.read_pos <= p < old(self)@.write_pos && 0 <= c < old(self)@.channels
                    ==> #[trigger] final(self)@.sample(p, c) == old(self)@.sample(p, c),
    {
        let ghost old_v = self@;
        let ch = self.channels as usize;
        let frames = samples.len() / ch;
        if frames == 0 {
            return 0;
        }
        let avail = self.capacity_frames.saturating_sub((self.write_pos - self.read_pos) as usize);
        let to_write = if frames < avail {
            frames
        } else {
            avail
        };
        if to_write == 0 {
            return 0;
        }
        let cap = self.capacity_frames;
        proof {
            assert(frames * ch <= samples@.len()) by (nonlinear_arith)
                requires
                    frames == (samples@.len() as int) / (ch as int),
                    ch > 0,
            ;
        }
        let mut i: usize = 0;
        while i < to_write
            invariant
                old_v.wf(),
                self@.wf(),
                cap == old_v.capacity_frames,
                cap > 0,
                ch == old_v.channels as usize,
                ch >= 1,
                to_write <= frames,
                to_write <= cap,
                to_write <= old_v.room(),
                frames * ch <= samples@.len(),
                i <= to_write,
                self@.write_pos == old_v.write_pos,
                self@.read_pos == old_v.read_pos,
                self@.channels == old_v.channels,
                self@.capacity_frames == cap,
                self@.sample_rate == old_v.sample_rate,
                old_v.write_pos + frames <= u64::MAX,
                old_v.read_pos <= old_v.write_pos,
                forall|p: int, c: int|
                    old_v.write_pos <= p < old_v.write_pos + i && 0 <= c < ch ==> #[trigger] self@.sample(
                        p,
                        c,
                    ) == samples@[(p - old_v.write_pos) * ch + c],
                old_v.buffered() <= cap ==> forall|p: int, c: int|
                    old_v.read_pos <= p < old_v.write_pos && 0 <= c < ch ==> #[trigger] self@.sample(
                        p,
                        c,
                    ) == old_v.sample(p, c),
            decreases to_write - i,
        {
            let pos: u64 = self.write_pos + i as u64;
            let slot: usize = (pos % (cap as u64)) as usize;
            let mut c: usize = 0;
            while c < ch
                invariant
                    old_v.wf(),
                    self@.wf(),
                    cap == old_v.capacity_frames,
                    cap > 0,
                    ch == old_v.channels as usize,
                    ch >= 1,
                    to_write <= frames,
                    to_write <= cap,
                    to_write <= old_v.room(),
                    frames * ch <= samples@.len(),
                    i < to_write,
                    c <= ch,
                    pos == old_v.write_pos + i,
                    slot == (pos as int) % (cap as int),
                    self@.write_pos == old_v.write_pos,
                    self@.read_pos == old_v.read_pos,
                    self@.channels == old_v.channels,
                    self@.capacity_frames == cap,
                    self@.sample_rate == old_v.sample_rate,
                    old_v.write_pos + frames <= u64::MAX,
                    old_v.read_pos <= old_v.write_pos,
                    forall|p: int, d: int|
                        old_v.write_pos <= p < old_v.write_pos + i && 0 <= d < ch ==> #[trigger] self@.sample(
                            p,
                            d,
                        ) == samples@[(p - old_v.write_pos) * ch + d],
                    forall|d: int|
                        0 <= d < c ==> #[trigger] self@.sample(pos as int, d) == samples@[i * ch + d],
                    old_v.buffered() <= cap ==> forall|p: int, d: int|
                        old_v.read_pos <= p < old_v.write_pos && 0 <= d < ch ==> #[trigger] self@.sample(
                            p,
                            d,
                        ) == old_v.sample(p, d),
                decreases ch - c,
            {
                proof {
                    lemma_slot_bounds(cap as int, ch as int, pos as int, c as int);
                    assert(i * ch + c < frames * ch) by (nonlinear_arith)
                        requires
                            i < to_write <= frames,
                            c < ch,
                    ;
                    assert(0 <= i * ch) by (nonlinear_arith)
                        requires
                            i >= 0,
                            ch >= 0,
                    ;
                }
                let blen = self.buf.len();
                assert(slot * ch + c < blen);
                let idx: usize = slot * ch + c;
                let slen = samples.len();
                assert(i * ch + c < slen);
                let v = samples[i * ch + c];
                let ghost before = self@;
                self.buf.set(idx, v);
                proof {
                    assert forall|p: int, d: int|
                        old_v.write_pos <= p < old_v.write_pos + i && 0 <= d < ch implies #[trigger] self@.sample(
                            p,
                            d,
                        ) == samples@[(p - old_v.write_pos) * ch + d] by {
                        lemma_slots_distinct(cap as int, ch as int, p, d, pos as int, c as int);
                        lemma_slot_bounds(cap as int, ch as int, p, d);
                        assert(before.sample(p, d) == samples@[(p - old_v.write_pos) * ch + d]);
                    }
                    assert forall|d: int| 0 <= d < c + 1 implies #[trigger] self@.sample(
                        pos as int,
                        d,
                    ) == samples@[i * ch + d] by {
                        if d < c {
                            lemma_slots_distinct(
                                cap as int,
                                ch as int,
                                pos as int,
                                d,
                                pos as int,
                                c as int,
                            );
                            assert(before.sample(pos as int, d) == samples@[i * ch + d]);
                        }
                    }
                    if old_v.buffered() <= cap {
                        assert forall|p: int, d: int|
                            old_v.read_pos <= p < old_v.write_pos && 0 <= d < ch implies #[trigger] self@.sample(
                                p,
                                d,
                            ) == old_v.sample(p, d) by {
                            lemma_slots_distinct(cap as int, ch as int, p, d, pos as int, c as int);
                            lemma_slot_bounds(cap as int, ch as int, p, d);
                            assert(before.sample(p, d) == old_v.sample(p, d));
                        }
                    }
                }
                c = c + 1;
            }
            proof {
                assert forall|p: int, d: int|
                    old_v.write_pos <= p < old_v.write_pos + i + 1 && 0 <= d < ch implies #[trigger] self@.sample(
                        p,
                        d,
                    ) == samples@[(p - old_v.write_pos) * ch + d] by {
                    if p == pos {
                        assert(self@.sample(pos as int, d) == samples@[i * ch + d]);
                    }
                }
            }
            i = i + 1;
        }
        let ghost mid = self@;
        self.write_pos = self.write_pos + to_write as u64;
        assert forall|p: int, c: int|
            old_v.write_pos <= p < self@.write_pos && 0 <= c < old_v.channels implies #[trigger] self@.sample(
                p,
                c,
            ) == samples@[(p - old_v.write_pos) * old_v.channels + c] by {
            assert(mid.sample(p, c) == samples@[(p - old_v.write_pos) * ch + c]);
        }
        proof {
            if old_v.buffered() <= old_v.capacity_frames as int {
                assert forall|p: int, c: int|
                old_v.read_pos <= p < old_v.write_pos && 0 <= c < old_v.channels implies #[trigger] self@.sample(
                    p,
                    c,
                ) == old_v.sample(p, c) by {
                    assert(mid.sample(p, c) == old_v.sample(p, c));
                }
            }
        }
        to_write
    }

    /// Read the frames at positions `start, start + 1, ...` into `out` as
    /// sample pairs, as many as `out` holds and as have been written. Returns
    /// the frames read; `out` keeps its other entries. The read position is
    /// not moved.
    pub fn read_block(&self, start: u64, out: &mut Vec<(T, T)>) -> (n: usize)
        requires
            self@.wf(),
            self@.channels >= 1,
            self@.capacity_frames > 0 || old(out)@.len() == 0 || start >= self@.write_pos,
        ensures
            n == (if start >= self@.write_pos {
                0
            } else if old(out)@.len() <= self@.write_pos - start {
                old(out)@.len() as int
            } else {
                self@.write_pos - start
            }),
            final(out)@.len() == old(out)@.len(),
            forall|i: int| 0 <= i < n ==> #[trigger] final(out)@[i] == self@.pair(start + i),
            forall|i: int| n <= i < old(out)@.len() ==> #[trigger] final(out)@[i] == old(out)@[i],
    {
        if out.len() == 0 {
            return 0;
        }
        let avail: u64 = self.write_pos.saturating_sub(start);
        assert(avail == (if start >= self@.write_pos { 0 } else { self@.write_pos - start }));
        let olen: usize = out.len();
        assert(olen as u64 == olen);
        let to_read: usize = if (olen as u64) < avail {
            olen
        } else {
            avail as usize
        };
        assert(to_read <= avail);
        let ch = self.channels as usize;
        let cap = self.capacity_frames;
        let ghost out0 = out@;
        let mut i: usize = 0;
        while i < to_read
            invariant
                self@.wf(),
                ch == self@.channels,
                ch >= 1,
                cap == self@.capacity_frames,
                to_read > 0 ==> cap > 0,
                to_read <= out0.len(),
                to_read == 0 || start + to_read <= self@.write_pos,
                i <= to_read,
                out@.len() == out0.len(),
                forall|j: int| 0 <= j < i ==> #[trigger] out@[j] == self@.pair(start + j),
                forall|j: int| i <= j < out0.len() ==> #[trigger] out@[j] == out0[j],
            decreases to_read - i,
        {
            let pos: u64 = start + i as u64;
            proof {
                lemma_slot_bounds(cap as int, ch as int, pos as int, 0);
                if ch >= 2 {
                    lemma_slot_bounds(cap as int, ch as int, pos as int, 1);
                }
            }
            let slot: usize = (pos % (cap as u64)) as usize;
            let blen = self.buf.len();
            assert(slot * ch + 0 < blen);
            assert(ch >= 2 ==> slot * ch + 1 < blen);
            let offset: usize = slot * ch;
            let s0 = self.buf[offset];
            let s1 = if ch >= 2 {
                self.buf[offset + 1]
            } else {
                s0
            };
            out.set(i, (s0, s1));
            i = i + 1;
        }
        to_read
    }

    /// Move the read position on by `frames` (saturating at the largest
    /// position).
    pub fn advance_read(&mut self, frames: u64)
        ensures
            final(self)@ == (RingView {
                read_pos: (if old(self)@.read_pos + frames <= u64::MAX {
                    old(self)@.read_pos + frames
                } else {
                    u64::MAX as int
                }) as u64,
                ..old(self)@
            }),
    {
        if frames == 0 {
            return;
        }
        self.read_pos = self.read_pos.saturating_add(frames);
    }

    /// Seek: both positions jump to `frame`; nothing is left buffered.
    pub fn seek_to_frame(&mut self, frame: u64)
        ensures
            final(self)@ == (RingView { read_pos: frame, write_pos: frame, ..old(self)@ }),
    {
        self.read_pos = frame;
        self.write_pos = frame;
    }
}

/// What a read gives back of a write: the frames that one write stores are
/// read back, pair by pair, from the position where the write began.
pub proof fn lemma_read_after_write<T>(
    before: RingView<T>,
    after: RingView<T>,
    samples: Seq<T>,
    n: int,
    i: int,
)
    requires
        before.channels >= 1,
        after.channels == before.channels,
        after.write_pos == before.write_pos + n,
        0 <= i < n,
        forall|p: int, c: int|
            before.write_pos <= p < after.write_pos && 0 <= c < before.channels
                ==> #[trigger] after.sample(p, c) == samples[(p - before.write_pos) * before.channels
                + c],
    ensures
        after.pair(before.write_pos + i) == (samples[i * before.channels], if before.channels >= 2 {
            samples[i * before.channels + 1]
        } else {
            samples[i * before.channels]
        }),
{
    let p = before.write_pos + i;
    assert(after.sample(p, 0) == samples[(p - before.write_pos) * before.channels + 0]);
    if before.channels >= 2 {
        assert(after.sample(p, 1) == samples[(p - before.write_pos) * before.channels + 1]);
    }
}

} // verus!
