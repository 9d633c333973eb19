//! Lyrics timing: which lyric line is active at a playback position.
//!
//! The engine holds parsed lyrics and finds the active line by binary search
//! over line start times, with the file's global offset applied first.
use vstd::prelude::*;

use crate::lyrics_parser::{
    copy_lines, empty_meta, lemma_parse_lrc_output, lemma_write_read, lines_view, lrc_text,
    plain_start, spec_parse_lrc, time_sorted, written_lines, FileView, LineView, LrcFile, LrcLine,
    LrcMetadata, MetaView, Outcome,
};

verus! {

/// The engine that tracks which lyric line is active.
pub struct LyricsEngine {
    lines: Vec<LrcLine>,
    /// Global offset from the LRC `[offset:...]` tag (ms).
    offset_ms: i32,
    /// Current line index (`None` = not started or no line yet).
    current_index: Option<usize>,
}

pub ghost struct EngineView {
    pub lines: Seq<LineView>,
    pub offset_ms: i32,
    pub current_index: Option<usize>,
}

impl View for LyricsEngine {
    type V = EngineView;

    closed spec fn view(&self) -> EngineView {
        EngineView {
            lines: lines_view(self.lines@),
            offset_ms: self.offset_ms,
            current_index: self.current_index,
        }
    }
}

/// What one timing update reports: the active line, its text, the number of
/// lines, whether the active line changed, and how far into the line the
/// position is (`elapsed_ms` of `duration_ms`) for progress animations.
pub struct TimingUpdate {
    pub index: Option<usize>,
    pub text: String,
    pub total_lines: usize,
    pub changed: bool,
    pub elapsed_ms: u64,
    pub duration_ms: u64,
}

/// Where the bisection over start times ends: the first index in `lo..hi`
/// whose line it finds to start after `pos`.
pub open spec fn bisect(s: Seq<LineView>, pos: u64, lo: int, hi: int) -> int
    decreases hi - lo,
{
    if lo < hi {
        let mid = lo + (hi - lo) / 2;
        if s[mid].time_ms <= pos {
            bisect(s, pos, mid + 1, hi)
        } else {
            bisect(s, pos, lo, mid)
        }
    } else {
        lo
    }
}

/// The line active at `pos`: none before the first line, else the line
/// before the first one that the bisection finds to start after `pos`.
pub open spec fn spec_find_line(s: Seq<LineView>, pos: u64) -> Option<int> {
    if s.len() == 0 || pos < s[0].time_ms {
        None
    } else {
        let lo = bisect(s, pos, 0, s.len() as int);
        if lo > 0 {
            Some(lo - 1)
        } else {
            None
        }
    }
}

/// An index as an integer.
pub open spec fn index_int(r: Option<usize>) -> Option<int> {
    match r {
        Some(i) => Some(i as int),
        None => None,
    }
}

/// The position with the offset applied, never below zero. The position is
/// read as an `i64` the way `as` reads it.
pub open spec fn adjusted_pos(pos: u64, offset: i32) -> int {
    let p = if pos <= i64::MAX {
        pos as int
    } else {
        pos - 0x1_0000_0000_0000_0000
    };
    if p + offset < 0 {
        0
    } else {
        p + offset
    }
}

/// Adding the offset to the position read as an `i64` does not overflow.
pub open spec fn adjust_fits(pos: u64, offset: i32) -> bool {
    let p = if pos <= i64::MAX {
        pos as int
    } else {
        pos - 0x1_0000_0000_0000_0000
    };
    p + offset <= i64::MAX
}

pub open spec fn sat_sub(a: int, b: int) -> int {
    if a >= b {
        a - b
    } else {
        0
    }
}

/// When the line `i` ends: where the next line starts, or five seconds after
/// it starts for the last line.
pub open spec fn line_end(s: Seq<LineView>, i: int) -> int {
    if i + 1 < s.len() {
        s[i + 1].time_ms as int
    } else {
        s[i].time_ms + 5000
    }
}

proof fn lemma_bisect(s: Seq<LineView>, pos: u64, lo: int, hi: int)
    requires
        0 <= lo <= hi <= s.len(),
    ensures
        lo <= bisect(s, pos, lo, hi) <= hi,
        bisect(s, pos, lo, hi) > lo ==> s[bisect(s, pos, lo, hi) - 1].time_ms <= pos,
        bisect(s, pos, lo, hi) < hi ==> s[bisect(s, pos, lo, hi)].time_ms > pos,
    decreases hi - lo,
{
    if lo < hi {
        let mid = lo + (hi - lo) / 2;
        if s[mid].time_ms <= pos {
            lemma_bisect(s, pos, mid + 1, hi);
        } else {
            lemma_bisect(s, pos, lo, mid);
        }
    }
}

/// The active line starts at or before the position, and the line after it
/// (if any) starts after the position; with lines in order of time it is the
/// last line that starts at or before the position.
pub proof fn lemma_find_line(s: Seq<LineView>, pos: u64)
    ensures
        spec_find_line(s, pos) is None <==> s.len() == 0 || pos < s[0].time_ms,
        spec_find_line(s, pos) matches Some(i) ==> {
            &&& i < s.len()
            &&& 0 <= i
            &&& s[i].time_ms <= pos
            &&& i + 1 < s.len() ==> s[i + 1].time_ms > pos
            &&& time_sorted(s) ==> forall|j: int|
                0 <= j < s.len() ==> (s[j].time_ms <= pos <==> j <= i)
        },
{
    if s.len() > 0 && pos >= s[0].time_ms {
        lemma_bisect(s, pos, 0, s.len() as int);
        let r = bisect(s, pos, 0, s.len() as int);
        if r == 0 {
            assert(s[0].time_ms > pos);
        }
        assert(r > 0);
        assert(spec_find_line(s, pos) == Some(r - 1));
        assert(s[r - 1].time_ms <= pos);
        if r < s.len() {
            assert(s[r].time_ms > pos);
        }
        if time_sorted(s) {
            assert forall|j: int| 0 <= j < s.len() implies (s[j].time_ms <= pos <==> j <= r - 1) by {
                if j <= r - 1 {
                    assert(s[j].time_ms <= s[r - 1].time_ms);
                } else {
                    assert(s[r].time_ms <= s[j].time_ms);
                }
            }
        }
    }
}

/// While a line is active, it lasts until the next line starts, and the
/// position is inside it: its duration is the gap to the next line's start
/// and the time elapsed in it is less than that. Only the last line has no
/// next one; it lasts five seconds.
pub proof fn lemma_active_line_timing(s: Seq<LineView>, pos: u64)
    ensures
        spec_find_line(s, pos) matches Some(i) ==> {
            &&& i + 1 < s.len() ==> {
                &&& sat_sub(line_end(s, i), s[i].time_ms as int) == s[i + 1].time_ms - s[i].time_ms
                &&& s[i].time_ms <= pos < s[i + 1].time_ms
                &&& sat_sub(pos as int, s[i].time_ms as int) < sat_sub(
                    line_end(s, i),
                    s[i].time_ms as int,
                )
            }
            &&& i + 1 == s.len() ==> sat_sub(line_end(s, i), s[i].time_ms as int) == 5000
        },
{
    lemma_find_line(s, pos);
}

impl LyricsEngine {
    pub fn new() -> (e: Self)
        ensures
            e@ == (EngineView { lines: Seq::empty(), offset_ms: 0, current_index: None }),
    {
        let e = LyricsEngine { lines: Vec::new(), offset_ms: 0, current_index: None };
        assert(lines_view(e.lines@) =~= Seq::<LineView>::empty());
        e
    }

    /// Load lyrics from a parsed LRC file.
    pub fn load(&mut self, lrc: LrcFile)
        ensures
            final(self)@ == (EngineView {
                lines: lrc@.lines,
                offset_ms: lrc@.metadata.offset_ms,
                current_index: None,
            }),
    {
        self.lines = lrc.lines;
        self.offset_ms = lrc.metadata.offset_ms;
        self.current_index = None;
    }

    /// Clear all lyrics.
    pub fn clear(&mut self)
        ensures
            final(self)@ == (EngineView { lines: Seq::empty(), offset_ms: 0, current_index: None }),
    {
        self.lines.clear();
        self.offset_ms = 0;
        self.current_index = None;
        assert(lines_view(self.lines@) =~= Seq::<LineView>::empty());
    }

    /// Whether any lyrics are loaded.
    pub fn has_lyrics(&self) -> (b: bool)
        ensures
            b == (self@.lines.len() > 0),
    {
        self.lines.len() > 0
    }

    /// The lyric data as an `LrcFile`: the timed lines and the global offset,
    /// with no title, artist or album.
    pub fn to_lrcfile(&self) -> (f: LrcFile)
        ensures
            f@ == (FileView {
                metadata: crate::lyrics_parser::MetaView {
                    offset_ms: self@.offset_ms,
                    ..empty_meta()
                },
                lines: self@.lines,
            }),
    {
        let mut metadata = LrcMetadata::default();
        metadata.offset_ms = self.offset_ms;
        LrcFile { metadata, lines: copy_lines(&self.lines) }
    }

    /// All lines (for rendering).
    pub fn lines(&self) -> (r: &[LrcLine])
        ensures
            lines_view(r@) == self@.lines,
    {
        self.lines.as_slice()
    }

    /// The current line index.
    pub fn current_index(&self) -> (r: Option<usize>)
        ensures
            r == self@.current_index,
    {
        self.current_index
    }

    /// The current line's text, empty when there is none.
    pub fn current_text(&self) -> (r: &str)
        ensures
            r@ == match self@.current_index {
                Some(i) => if i < self@.lines.len() {
                    self@.lines[i as int].text
                } else {
                    Seq::empty()
                },
                None => Seq::empty(),
            },
    {
        proof {
            reveal_strlit("");
        }
        match self.current_index {
            Some(i) => {
                if i < self.lines.len() {
                    self.lines[i].text.as_str()
                } else {
                    ""
                }
            },
            None => "",
        }
    }

    /// The line active at `position_ms`: the last line starting at or before
    /// it, found by binary search.
    pub fn find_line(&self, position_ms: u64) -> (r: Option<usize>)
        ensures
            index_int(r) == spec_find_line(self@.lines, position_ms),
    {
        let ghost s = lines_view(self.lines@);
        if self.lines.len() == 0 {
            return None;
        }
        if position_ms < self.lines[0].time_ms as u64 {
            return None;
        }
        let mut lo: usize = 0;
        let mut hi: usize = self.lines.len();
        while lo < hi
            invariant
                0 <= lo <= hi <= self.lines.len(),
                s == lines_view(self.lines@),
                bisect(s, position_ms, 0, s.len() as int) == bisect(
                    s,
                    position_ms,
                    lo as int,
                    hi as int,
                ),
            decreases hi - lo,
        {
            let mid = lo + (hi - lo) / 2;
            if self.lines[mid].time_ms as u64 <= position_ms {
                lo = mid + 1;
            } else {
                hi = mid;
            }
        }
        if lo > 0 {
            Some(lo - 1)
        } else {
            None
        }
    }

    /// Update the engine with the playback position (ms): the line active at
    /// the position with the offset applied becomes the current line.
    pub fn update(&mut self, position_ms: u64) -> (u: TimingUpdate)
        requires
            adjust_fits(position_ms, old(self)@.offset_ms),
        ensures
            final(self)@.lines == old(self)@.lines,
            final(self)@.offset_ms == old(self)@.offset_ms,
            u.total_lines == old(self)@.lines.len(),
            old(self)@.lines.len() == 0 ==> u.index is None && u.text@ == Seq::<char>::empty()
                && !u.changed && u.elapsed_ms == 0 && u.duration_ms == 0 && final(self)@
                == old(self)@,
            old(self)@.lines.len() > 0 ==> {
                let s = old(self)@.lines;
                let adj = adjusted_pos(position_ms, old(self)@.offset_ms);
                let idx = spec_find_line(s, adj as u64);
                &&& index_int(u.index) == idx
                &&& final(self)@.current_index == u.index
                &&& u.changed == (u.index != old(self)@.current_index)
                &&& match idx {
                    Some(i) => {
                        &&& u.text@ == s[i].text
                        &&& u.elapsed_ms == sat_sub(adj, s[i].time_ms as int)
                        &&& u.duration_ms == sat_sub(line_end(s, i), s[i].time_ms as int)
                        &&& i + 1 < s.len() ==> u.duration_ms == s[i + 1].time_ms - s[i].time_ms
                            && u.elapsed_ms < u.duration_ms
                        &&& i + 1 == s.len() ==> u.duration_ms == 5000
                    },
                    None => u.text@ == Seq::<char>::empty() && u.elapsed_ms == 0 && u.duration_ms
                        == 0,
                }
            },
    {
        if self.lines.len() == 0 {
            return TimingUpdate {
                index: None,
                text: String::new(),
                total_lines: 0,
                changed: false,
                elapsed_ms: 0,
                duration_ms: 0,
            };
        }
        let p: i128 = if position_ms <= 0x7FFF_FFFF_FFFF_FFFF {
            position_ms as i128
        } else {
            position_ms as i128 - 0x1_0000_0000_0000_0000
        };
        let sum: i128 = p + self.offset_ms as i128;
        let adjusted: u64 = if sum < 0 {
            0
        } else {
            sum as u64
        };
        let new_index = self.find_line(adjusted);
        let changed = new_index != self.current_index;
        if changed {
            self.current_index = new_index;
        }
        proof {
            lemma_find_line(lines_view(self.lines@), adjusted);
        }
        proof {
            lemma_active_line_timing(lines_view(self.lines@), adjusted);
        }
        match new_index {
            Some(idx) => {
                let start = self.lines[idx].time_ms as u64;
                let end: u64 = if idx + 1 < self.lines.len() {
                    self.lines[idx + 1].time_ms as u64
                } else {
                    start + 5000
                };
                let elapsed: u64 = if adjusted >= start {
                    adjusted - start
                } else {
                    0
                };
                let duration: u64 = if end >= start {
                    end - start
                } else {
                    0
                };
                TimingUpdate {
                    index: new_index,
                    text: self.lines[idx].text.clone(),
                    total_lines: self.lines.len(),
                    changed,
                    elapsed_ms: elapsed,
                    duration_ms: duration,
                }
            },
            None => TimingUpdate {
                index: None,
                text: String::new(),
                total_lines: self.lines.len(),
                changed,
                elapsed_ms: 0,
                duration_ms: 0,
            },
        }
    }
}

/// What `to_lrcfile` writes for lyrics loaded from a parse reads back
/// perfectly: written with `lrcfile_to_string` and parsed again, it gives
/// the same offset and the same lines with the same times and texts, in the
/// same order (word timings are not written): for every file whose lyric
/// texts do not read as further tags after a time tag (`plain_start`).
pub proof fn lemma_to_lrcfile_roundtrip(s: Seq<char>)
    requires
        spec_parse_lrc(s) matches Outcome::Done(f) && forall|i: int|
            0 <= i < f.lines.len() ==> plain_start(#[trigger] f.lines[i].text),
    ensures
        spec_parse_lrc(s) matches Outcome::Done(f) && {
            let saved = FileView {
                metadata: MetaView { offset_ms: f.metadata.offset_ms, ..empty_meta() },
                lines: f.lines,
            };
            spec_parse_lrc(lrc_text(saved)) == Outcome::Done(
                FileView { metadata: saved.metadata, lines: written_lines(f.lines) },
            )
        },
{
    lemma_parse_lrc_output(s);
    let f = spec_parse_lrc(s)->Done_0;
    let saved = FileView {
        metadata: MetaView { offset_ms: f.metadata.offset_ms, ..empty_meta() },
        lines: f.lines,
    };
    lemma_write_read(saved);
}

} // verus!
