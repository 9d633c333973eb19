//! LRC lyrics parser: standard, enhanced and Karaoke LRC.
//!
//! - Standard LRC:  `[mm:ss.xx]Lyrics text`
//! - Enhanced LRC:  `[mm:ss.xx]<mm:ss.xx>word1 <mm:ss.xx>word2`
//! - Multiple tags: `[00:10.00][01:30.00]Same text for two timestamps`
//! - Metadata:      `[ti:Title] [ar:Artist] [al:Album] [offset:+/-ms]`
//!
//! Each parsing function has a specification that follows the text the way
//! the parser reads it; the few inputs on which reading would fail (a
//! fraction cut inside a multi-byte character, a time beyond `u32`) are
//! reported as `Outcome::Panics` and are refused by the functions that
//! cannot report them.
use vstd::prelude::*;

use crate::paths;
use crate::textcodec::{
    decode_as, decoded_as, detect_encoding, detected_encoding, lossy_text, utf8_lossy, utf8_text,
};
use vstd::utf8::{decode_utf8, encode_utf8, valid_utf8};
use crate::text::{
    all_digits, char_utf8_len, chars_of, contains_at, dec, dec2, dec3, dec_i32, push_dec2, push_dec3, push_dec_i32, digits_value, find_char, find_in, is_digit,
    lemma_dec_digits, lemma_find_char, lemma_find_char_at, lemma_parse_dec_i32, lemma_trim_id, occurs_at, lemma_parse_dec2, lemma_parse_dec3, lemma_trim_shape, has_infix, is_ws, parse_i32, parse_i32_in, parse_u32, parse_u32_in, range_eq, slice_vec, string_of, trim, trim_bounds, trimmed, unsigned_body, utf8_len,
    utf8_len_seq,
};

verus! {

// ── data ─────────────────────────────────────────────────────────────────

/// Word-level timing for enhanced/Karaoke LRC.
#[derive(Debug, Clone)]
pub struct WordTiming {
    /// Start time of this word (ms).
    pub time_ms: u32,
    /// The word text.
    pub text: String,
}

/// A single timed lyric line.
#[derive(Debug, Clone)]
pub struct LrcLine {
    /// Start time in milliseconds.
    pub time_ms: u32,
    /// Lyric text (empty for instrumental breaks).
    pub text: String,
    /// Enhanced/Karaoke word timings (`None` for standard LRC).
    pub words: Option<Vec<WordTiming>>,
}

/// LRC metadata tags.
#[derive(Debug, Clone)]
pub struct LrcMetadata {
    pub title: Option<String>,
    pub artist: Option<String>,
    pub album: Option<String>,
    /// Global offset in milliseconds (from the `[offset:+/-ms]` tag).
    pub offset_ms: i32,
}

/// Parsed LRC file with metadata and timed lines.
#[derive(Debug, Clone)]
pub struct LrcFile {
    pub metadata: LrcMetadata,
    pub lines: Vec<LrcLine>,
}

pub ghost struct WordView {
    pub time_ms: u32,
    pub text: Seq<char>,
}

pub ghost struct LineView {
    pub time_ms: u32,
    pub text: Seq<char>,
    pub words: Option<Seq<WordView>>,
}

pub ghost struct MetaView {
    pub title: Option<Seq<char>>,
    pub artist: Option<Seq<char>>,
    pub album: Option<Seq<char>>,
    pub offset_ms: i32,
}

pub ghost struct FileView {
    pub metadata: MetaView,
    pub lines: Seq<LineView>,
}

impl View for WordTiming {
    type V = WordView;

    open spec fn view(&self) -> WordView {
        WordView { time_ms: self.time_ms, text: self.text@ }
    }
}

pub open spec fn words_view(ws: Seq<WordTiming>) -> Seq<WordView> {
    ws.map_values(|w: WordTiming| w@)
}

pub open spec fn opt_words_view(w: Option<Vec<WordTiming>>) -> Option<Seq<WordView>> {
    match w {
        Some(ws) => Some(words_view(ws@)),
        None => None,
    }
}

impl View for LrcLine {
    type V = LineView;

    open spec fn view(&self) -> LineView {
        LineView {
            time_ms: self.time_ms,
            text: self.text@,
            words: opt_words_view(self.words),
        }
    }
}

pub open spec fn lines_view(ls: Seq<LrcLine>) -> Seq<LineView> {
    ls.map_values(|l: LrcLine| l@)
}

impl View for LrcMetadata {
    type V = MetaView;

    open spec fn view(&self) -> MetaView {
        MetaView {
            title: paths::opt_view(self.title),
            artist: paths::opt_view(self.artist),
            album: paths::opt_view(self.album),
            offset_ms: self.offset_ms,
        }
    }
}

impl View for LrcFile {
    type V = FileView;

    open spec fn view(&self) -> FileView {
        FileView { metadata: self.metadata@, lines: lines_view(self.lines@) }
    }
}

/// The outcome of reading some text: a value, or a failure of the reader
/// itself (the reader panics).
pub ghost enum Outcome<T> {
    Done(T),
    Panics,
}

/// `Done(x)` as `Some(x)`, a panic as `None`.
pub open spec fn outcome_opt<T>(o: Outcome<T>) -> Option<T> {
    match o {
        Outcome::Done(x) => Some(x),
        Outcome::Panics => None,
    }
}

// ── timestamps ───────────────────────────────────────────────────────────

/// `s.parse::<u32>().unwrap_or(0)`.
pub open spec fn parse_or_zero(s: Seq<char>) -> nat {
    match parse_u32(s) {
        Some(v) => v as nat,
        None => 0,
    }
}

/// Milliseconds of the fraction after the `.` of a timestamp: three digits
/// are milliseconds, two are centiseconds, one is tenths. The fraction is
/// cut after its third byte; the cut must fall between characters.
pub open spec fn frac_ms(f: Seq<char>) -> Outcome<nat> {
    let n = utf8_len_seq(f);
    if n >= 3 {
        let l0 = utf8_len(f[0]);
        if l0 == 1 {
            let l1 = utf8_len(f[1]);
            if l1 == 1 {
                if utf8_len(f[2]) == 1 {
                    Outcome::Done(parse_or_zero(f.subrange(0, 3)))
                } else {
                    Outcome::Panics
                }
            } else if l1 == 2 {
                Outcome::Done(0)
            } else {
                Outcome::Panics
            }
        } else if l0 == 2 {
            if utf8_len(f[1]) == 1 {
                Outcome::Done(0)
            } else {
                Outcome::Panics
            }
        } else if l0 == 3 {
            Outcome::Done(0)
        } else {
            Outcome::Panics
        }
    } else if n == 2 {
        Outcome::Done(parse_or_zero(f) * 10)
    } else if n == 1 {
        Outcome::Done(parse_or_zero(f) * 100)
    } else {
        Outcome::Done(0)
    }
}

/// `mm:ss`, `mm:ss.x`, `mm:ss.xx` or `mm:ss.xxx` in milliseconds; `None` when
/// the text is not such a timestamp.
pub open spec fn spec_parse_timestamp(s: Seq<char>) -> Outcome<Option<u32>> {
    match find_char(s, ':') {
        None => Outcome::Done(None),
        Some(c) => match parse_u32(s.subrange(0, c)) {
            None => Outcome::Done(None),
            Some(min) => {
                let p1 = s.subrange(c + 1, s.len() as int);
                let sec_str = match find_char(p1, '.') {
                    Some(d) => p1.subrange(0, d),
                    None => p1,
                };
                match parse_u32(sec_str) {
                    None => Outcome::Done(None),
                    Some(sec) => {
                        let cs = match find_char(p1, '.') {
                            Some(d) => frac_ms(p1.subrange(d + 1, p1.len() as int)),
                            None => Outcome::Done(0),
                        };
                        match cs {
                            Outcome::Panics => Outcome::Panics,
                            Outcome::Done(cs) => {
                                let total = min * 60000 + sec * 1000 + cs;
                                if total > u32::MAX {
                                    Outcome::Panics
                                } else {
                                    Outcome::Done(Some(total as u32))
                                }
                            },
                        }
                    },
                }
            },
        },
    }
}

proof fn lemma_utf8_len_seq_prefix(s: Seq<char>, k: int)
    requires
        0 <= k <= s.len(),
    ensures
        utf8_len_seq(s.subrange(0, k)) <= utf8_len_seq(s),
    decreases s.len() - k,
{
    if k < s.len() {
        lemma_utf8_len_seq_prefix(s, k + 1);
        assert(s.subrange(0, k + 1).drop_last() =~= s.subrange(0, k));
    } else {
        assert(s.subrange(0, k) =~= s);
    }
}

/// The first character's bytes come first.
proof fn lemma_utf8_first(s: Seq<char>)
    requires
        s.len() >= 1,
    ensures
        utf8_len_seq(s) == utf8_len(s[0]) + utf8_len_seq(s.drop_first()),
    decreases s.len(),
{
    if s.len() == 1 {
        assert(s.drop_last() =~= Seq::<char>::empty());
        assert(s.drop_first() =~= Seq::<char>::empty());
    } else {
        lemma_utf8_first(s.drop_last());
        assert(s.drop_last().drop_first() =~= s.drop_first().drop_last());
        assert(s.drop_first().last() == s.last());
    }
}

proof fn lemma_utf8_len_ge(s: Seq<char>)
    ensures
        utf8_len_seq(s) >= s.len(),
    decreases s.len(),
{
    if s.len() > 0 {
        lemma_utf8_len_ge(s.drop_last());
    }
}

proof fn lemma_utf8_len_empty(s: Seq<char>)
    ensures
        s.len() == 0 <==> utf8_len_seq(s) == 0,
{
    if s.len() > 0 {
        lemma_utf8_first(s);
    }
}

/// UTF-8 length of `v[lo..hi]`, stopping once it reaches 3 bytes.
fn utf8_len_upto3(v: &Vec<char>, lo: usize, hi: usize) -> (n: usize)
    requires
        lo <= hi <= v.len(),
    ensures
        n == if utf8_len_seq(v@.subrange(lo as int, hi as int)) >= 3 {
            3
        } else {
            utf8_len_seq(v@.subrange(lo as int, hi as int))
        },
{
    let ghost s = v@.subrange(lo as int, hi as int);
    let mut n: usize = 0;
    let mut i = lo;
    while i < hi
        invariant
            lo <= i <= hi <= v.len(),
            s == v@.subrange(lo as int, hi as int),
            n == utf8_len_seq(s.subrange(0, i - lo)),
            n < 3,
        decreases hi - i,
    {
        assert(s.subrange(0, i - lo + 1).drop_last() =~= s.subrange(0, i - lo));
        n = n + char_utf8_len(v[i]);
        i = i + 1;
        if n >= 3 {
            proof {
                lemma_utf8_len_seq_prefix(s, i - lo);
            }
            return 3;
        }
    }
    assert(s.subrange(0, i - lo) =~= s);
    n
}

/// `frac_ms` of `v[lo..hi]`, `None` where reading panics.
fn frac_ms_in(v: &Vec<char>, lo: usize, hi: usize) -> (r: Option<u32>)
    requires
        lo <= hi <= v.len(),
    ensures
        match frac_ms(v@.subrange(lo as int, hi as int)) {
            Outcome::Done(x) => r == Some(x as u32) && x <= 999,
            Outcome::Panics => r is None,
        },
{
    let ghost f = v@.subrange(lo as int, hi as int);
    let n = utf8_len_upto3(v, lo, hi);
    if n >= 3 {
        proof {
            lemma_utf8_len_empty(f);
            lemma_utf8_first(f);
            lemma_utf8_len_empty(f.drop_first());
            if f.len() >= 2 {
                lemma_utf8_first(f.drop_first());
                lemma_utf8_len_empty(f.drop_first().drop_first());
            }
        }
        let l0 = char_utf8_len(v[lo]);
        if l0 == 1 {
            let l1 = char_utf8_len(v[lo + 1]);
            if l1 == 1 {
                let l2 = char_utf8_len(v[lo + 2]);
                if l2 == 1 {
                    assert(v@.subrange(lo as int, lo + 3) =~= f.subrange(0, 3));
                    match parse_u32_in(v, lo, lo + 3) {
                        Some(x) => {
                            if x > 999 {
                                proof {
                                    lemma_three_chars_bound(f.subrange(0, 3));
                                }
                            }
                            Some(x)
                        },
                        None => Some(0),
                    }
                } else {
                    None
                }
            } else if l1 == 2 {
                Some(0)
            } else {
                None
            }
        } else if l0 == 2 {
            if char_utf8_len(v[lo + 1]) == 1 {
                Some(0)
            } else {
                None
            }
        } else if l0 == 3 {
            Some(0)
        } else {
            None
        }
    } else if n == 2 {
        match parse_u32_in(v, lo, hi) {
            Some(x) => {
                proof {
                    lemma_short_parse_bound(f, 2);
                }
                Some(x * 10)
            },
            None => Some(0),
        }
    } else if n == 1 {
        match parse_u32_in(v, lo, hi) {
            Some(x) => {
                proof {
                    lemma_short_parse_bound(f, 1);
                }
                Some(x * 100)
            },
            None => Some(0),
        }
    } else {
        Some(0)
    }
}

proof fn lemma_digits_value_bound(d: Seq<char>)
    requires
        all_digits(d),
    ensures
        d.len() == 0 ==> digits_value(d) == 0,
        d.len() == 1 ==> digits_value(d) <= 9,
        d.len() == 2 ==> digits_value(d) <= 99,
        d.len() == 3 ==> digits_value(d) <= 999,
    decreases d.len(),
{
    if d.len() > 0 {
        assert(all_digits(d.drop_last())) by {
            assert forall|i: int| 0 <= i < d.drop_last().len() implies #[trigger] is_digit(
                d.drop_last()[i],
            ) by {
                assert(d.drop_last()[i] == d[i]);
            }
        }
        lemma_digits_value_bound(d.drop_last());
        assert(is_digit(d[d.len() - 1]));
    }
}

proof fn lemma_three_chars_bound(s: Seq<char>)
    requires
        s.len() == 3,
        parse_u32(s) is Some,
    ensures
        parse_u32(s).unwrap() <= 999,
{
    let d = unsigned_body(s).unwrap();
    lemma_digits_value_bound(d);
}

proof fn lemma_short_parse_bound(s: Seq<char>, n: nat)
    requires
        1 <= n <= 2,
        utf8_len_seq(s) == n,
        parse_u32(s) is Some,
    ensures
        n == 2 ==> parse_u32(s).unwrap() <= 99,
        n == 1 ==> parse_u32(s).unwrap() <= 9,
{
    lemma_utf8_len_ge(s);
    let d = unsigned_body(s).unwrap();
    lemma_digits_value_bound(d);
}

/// `spec_parse_timestamp` of `v[lo..hi]`; the outer `None` stands for a
/// panic of the reader.
fn parse_timestamp_in(v: &Vec<char>, lo: usize, hi: usize) -> (r: Option<Option<u32>>)
    requires
        lo <= hi <= v.len(),
    ensures
        r == outcome_opt(spec_parse_timestamp(v@.subrange(lo as int, hi as int))),
{
    let ghost s = v@.subrange(lo as int, hi as int);
    let c = match find_in(v, lo, hi, ':') {
        Some(c) => c,
        None => {
            return Some(None);
        },
    };
    assert(v@.subrange(lo as int, c as int) =~= s.subrange(0, c - lo));
    let min = match parse_u32_in(v, lo, c) {
        Some(m) => m,
        None => {
            return Some(None);
        },
    };
    let ghost p1 = s.subrange(c - lo + 1, s.len() as int);
    assert(v@.subrange(c + 1, hi as int) =~= p1);
    let dot = find_in(v, c + 1, hi, '.');
    let sec_end = match dot {
        Some(d) => d,
        None => hi,
    };
    assert(v@.subrange(c + 1, sec_end as int) =~= (match find_char(p1, '.') {
        Some(d) => p1.subrange(0, d),
        None => p1,
    }));
    let sec = match parse_u32_in(v, c + 1, sec_end) {
        Some(x) => x,
        None => {
            return Some(None);
        },
    };
    let cs = match dot {
        Some(d) => {
            assert(v@.subrange(d + 1, hi as int) =~= p1.subrange(
                d - (c + 1) + 1,
                p1.len() as int,
            ));
            match frac_ms_in(v, d + 1, hi) {
                Some(x) => x,
                None => {
                    return None;
                },
            }
        },
        None => 0,
    };
    let total: u64 = (min as u64) * 60000 + (sec as u64) * 1000 + (cs as u64);
    if total > 0xFFFF_FFFF {
        None
    } else {
        Some(Some(total as u32))
    }
}

/// Parse a timestamp such as `03:45.67` or `03:45.678` into milliseconds.
pub fn parse_timestamp(s: &str) -> (r: Option<u32>)
    requires
        spec_parse_timestamp(s@) != Outcome::<Option<u32>>::Panics,
    ensures
        Outcome::Done(r) == spec_parse_timestamp(s@),
{
    let v = chars_of(s);
    assert(v@.subrange(0, v@.len() as int) =~= s@);
    parse_timestamp_in(&v, 0, v.len()).unwrap()
}

// ── timestamp tags and word timings ──────────────────────────────────────

/// The leading `[timestamp]` tags of a line, in order, and the rest of the
/// line after them. Reading stops at the first tag that is not a timestamp.
pub open spec fn collect_tags(rest: Seq<char>) -> Outcome<(Seq<u32>, Seq<char>)>
    decreases rest.len(),
{
    if rest.len() > 0 && rest[0] == '[' {
        match find_char(rest, ']') {
            Some(end) => match spec_parse_timestamp(rest.subrange(1, end)) {
                Outcome::Panics => Outcome::Panics,
                Outcome::Done(Some(t)) => {
                    proof {
                        lemma_find_char(rest, ']');
                    }
                    match collect_tags(rest.subrange(end + 1, rest.len() as int)) {
                        Outcome::Done(r) => Outcome::Done((seq![t] + r.0, r.1)),
                        Outcome::Panics => Outcome::Panics,
                    }
                },
                Outcome::Done(None) => Outcome::Done((Seq::empty(), rest)),
            },
            None => Outcome::Done((Seq::empty(), rest)),
        }
    } else {
        Outcome::Done((Seq::empty(), rest))
    }
}

/// The words of enhanced LRC text: each `<timestamp>` starts a word that
/// runs to the next `<`; empty words are dropped, and a `<` that does not
/// open a timestamp tag is skipped.
pub open spec fn spec_words(rem: Seq<char>) -> Outcome<Seq<WordView>>
    decreases rem.len(),
{
    match find_char(rem, '<') {
        None => Outcome::Done(Seq::empty()),
        Some(start) => {
            proof {
                lemma_find_char(rem, '<');
            }
            let after_lt = rem.subrange(start + 1, rem.len() as int);
            match find_char(after_lt, '>') {
                Some(end) => {
                    proof {
                        lemma_find_char(after_lt, '>');
                    }
                    match spec_parse_timestamp(after_lt.subrange(0, end)) {
                        Outcome::Panics => Outcome::Panics,
                        Outcome::Done(Some(t)) => {
                            let after_tag = after_lt.subrange(end + 1, after_lt.len() as int);
                            proof {
                                lemma_find_char(after_tag, '<');
                            }
                            let word_end = match find_char(after_tag, '<') {
                                Some(w) => w,
                                None => after_tag.len() as int,
                            };
                            let word = trim(after_tag.subrange(0, word_end));
                            match spec_words(after_tag.subrange(word_end, after_tag.len() as int)) {
                                Outcome::Panics => Outcome::Panics,
                                Outcome::Done(ws) => Outcome::Done(
                                    if word.len() > 0 {
                                        seq![WordView { time_ms: t, text: word }] + ws
                                    } else {
                                        ws
                                    },
                                ),
                            }
                        },
                        Outcome::Done(None) => spec_words(after_lt),
                    }
                },
                None => spec_words(after_lt),
            }
        },
    }
}

/// The word timings of a text, `None` when it has none.
pub open spec fn spec_enhanced_words(text: Seq<char>) -> Outcome<Option<Seq<WordView>>> {
    match spec_words(text) {
        Outcome::Panics => Outcome::Panics,
        Outcome::Done(ws) => Outcome::Done(
            if ws.len() == 0 {
                None
            } else {
                Some(ws)
            },
        ),
    }
}

/// `text` with every `<...>` tag removed (an unclosed `<` removes the rest).
pub open spec fn strip_raw(s: Seq<char>) -> Seq<char>
    decreases s.len(),
{
    if s.len() == 0 {
        Seq::empty()
    } else if s[0] == '<' {
        match find_char(s.drop_first(), '>') {
            Some(j) => {
                proof {
                    lemma_find_char(s.drop_first(), '>');
                }
                strip_raw(s.subrange(j + 2, s.len() as int))
            },
            None => Seq::empty(),
        }
    } else {
        seq![s[0]] + strip_raw(s.drop_first())
    }
}

/// Word timing tags removed from text for plain display, then trimmed.
pub open spec fn spec_strip_word_tags(s: Seq<char>) -> Seq<char> {
    trim(strip_raw(s))
}

pub open spec fn prepend_tags(a: Seq<u32>, o: Outcome<(Seq<u32>, Seq<char>)>) -> Outcome<
    (Seq<u32>, Seq<char>),
> {
    match o {
        Outcome::Done(r) => Outcome::Done((a + r.0, r.1)),
        Outcome::Panics => Outcome::Panics,
    }
}

/// The leading timestamp tags of `v[lo..hi]` and the index where the rest
/// begins; `None` where reading panics.
fn collect_tags_in(v: &Vec<char>, lo: usize, hi: usize) -> (r: Option<(Vec<u32>, usize)>)
    requires
        lo <= hi <= v.len(),
    ensures
        match collect_tags(v@.subrange(lo as int, hi as int)) {
            Outcome::Panics => r is None,
            Outcome::Done(x) => r matches Some(y) && y.0@ == x.0 && lo <= y.1 <= hi
                && v@.subrange(y.1 as int, hi as int) == x.1,
        },
{
    let ghost s0 = v@.subrange(lo as int, hi as int);
    let mut ts: Vec<u32> = Vec::new();
    let mut p = lo;
    assert(ts@ + Seq::<u32>::empty() =~= ts@);
    loop
        invariant
            lo <= p <= hi <= v.len(),
            collect_tags(s0) == prepend_tags(ts@, collect_tags(v@.subrange(p as int, hi as int))),
            s0 == v@.subrange(lo as int, hi as int),
        decreases hi - p,
    {
        let ghost rest = v@.subrange(p as int, hi as int);
        if p < hi && v[p] == '[' {
            match find_in(v, p, hi, ']') {
                Some(e) => {
                    proof {
                        lemma_find_char(rest, ']');
                    }
                    assert(v@.subrange(p + 1, e as int) =~= rest.subrange(1, e - p));
                    match parse_timestamp_in(v, p + 1, e) {
                        None => {
                            return None;
                        },
                        Some(Some(t)) => {
                            assert(v@.subrange(e + 1, hi as int) =~= rest.subrange(
                                e - p + 1,
                                rest.len() as int,
                            ));
                            let ghost before = ts@;
                            ts.push(t);
                            proof {
                                let o = collect_tags(v@.subrange(e + 1, hi as int));
                                match o {
                                    Outcome::Done(r) => {
                                        assert(before + (seq![t] + r.0) =~= ts@ + r.0);
                                    },
                                    Outcome::Panics => {},
                                }
                            }
                            p = e + 1;
                        },
                        Some(None) => {
                            assert(ts@ + Seq::<u32>::empty() =~= ts@);
                            return Some((ts, p));
                        },
                    }
                },
                None => {
                    assert(ts@ + Seq::<u32>::empty() =~= ts@);
                    return Some((ts, p));
                },
            }
        } else {
            assert(ts@ + Seq::<u32>::empty() =~= ts@);
            return Some((ts, p));
        }
    }
}

pub open spec fn prepend_words(a: Seq<WordView>, o: Outcome<Seq<WordView>>) -> Outcome<
    Seq<WordView>,
> {
    match o {
        Outcome::Done(ws) => Outcome::Done(a + ws),
        Outcome::Panics => Outcome::Panics,
    }
}

/// `spec_words` of `v[lo..hi]`; `None` where reading panics.
#[verifier::spinoff_prover]
#[verifier::rlimit(40)]
fn words_in(v: &Vec<char>, lo: usize, hi: usize) -> (r: Option<Vec<WordTiming>>)
    requires
        lo <= hi <= v.len(),
    ensures
        match spec_words(v@.subrange(lo as int, hi as int)) {
            Outcome::Panics => r is None,
            Outcome::Done(ws) => r matches Some(x) && words_view(x@) == ws,
        },
{
    let ghost s0 = v@.subrange(lo as int, hi as int);
    let mut out: Vec<WordTiming> = Vec::new();
    let mut p = lo;
    assert(words_view(out@) + Seq::<WordView>::empty() =~= words_view(out@));
    loop
        invariant
            lo <= p <= hi <= v.len(),
            spec_words(s0) == prepend_words(
                words_view(out@),
                spec_words(v@.subrange(p as int, hi as int)),
            ),
            s0 == v@.subrange(lo as int, hi as int),
        decreases hi - p,
    {
        let ghost rem = v@.subrange(p as int, hi as int);
        let st = match find_in(v, p, hi, '<') {
            None => {
                assert(words_view(out@) + Seq::<WordView>::empty() =~= words_view(out@));
                return Some(out);
            },
            Some(st) => st,
        };
        proof {
            lemma_find_char(rem, '<');
        }
        let ghost after_lt = rem.subrange(st - p + 1, rem.len() as int);
        assert(v@.subrange(st + 1, hi as int) =~= after_lt);
        match find_in(v, st + 1, hi, '>') {
            Some(e) => {
                proof {
                    lemma_find_char(after_lt, '>');
                }
                assert(v@.subrange(st + 1, e as int) =~= after_lt.subrange(0, e - (st + 1)));
                match parse_timestamp_in(v, st + 1, e) {
                    None => {
                        return None;
                    },
                    Some(Some(t)) => {
                        let ghost after_tag = after_lt.subrange(
                            e - (st + 1) + 1,
                            after_lt.len() as int,
                        );
                        assert(v@.subrange(e + 1, hi as int) =~= after_tag);
                        let we = match find_in(v, e + 1, hi, '<') {
                            Some(w) => w,
                            None => hi,
                        };
                        proof {
                            lemma_find_char(after_tag, '<');
                        }
                        assert(v@.subrange(e + 1, we as int) =~= after_tag.subrange(
                            0,
                            we - (e + 1),
                        ));
                        assert(v@.subrange(we as int, hi as int) =~= after_tag.subrange(
                            we - (e + 1),
                            after_tag.len() as int,
                        ));
                        let word = trimmed(v, e + 1, we);
                        let ghost before = words_view(out@);
                        if word.len() > 0 {
                            let w = WordTiming { time_ms: t, text: string_of(word.as_slice()) };
                            out.push(w);
                            proof {
                                assert(words_view(out@) =~= before.push(w@));
                                match spec_words(v@.subrange(we as int, hi as int)) {
                                    Outcome::Done(ws) => {
                                        assert(before + (seq![w@] + ws) =~= words_view(out@)
                                            + ws);
                                    },
                                    Outcome::Panics => {},
                                }
                            }
                        }
                        p = we;
                    },
                    Some(None) => {
                        p = st + 1;
                    },
                }
            },
            None => {
                p = st + 1;
            },
        }
    }
}

/// `spec_enhanced_words` of `v[lo..hi]`; the outer `None` stands for a panic.
fn enhanced_words_in(v: &Vec<char>, lo: usize, hi: usize) -> (r: Option<Option<Vec<WordTiming>>>)
    requires
        lo <= hi <= v.len(),
    ensures
        match spec_enhanced_words(v@.subrange(lo as int, hi as int)) {
            Outcome::Panics => r is None,
            Outcome::Done(None) => r == Some(None::<Vec<WordTiming>>),
            Outcome::Done(Some(ws)) => r matches Some(Some(x)) && words_view(x@) == ws,
        },
{
    match words_in(v, lo, hi) {
        None => None,
        Some(ws) => {
            if ws.len() == 0 {
                Some(None)
            } else {
                Some(Some(ws))
            }
        },
    }
}

/// Parse enhanced/Karaoke word timings: `<mm:ss.xx>word <mm:ss.xx>word`.
pub fn parse_enhanced_words(text: &str) -> (r: Option<Vec<WordTiming>>)
    requires
        spec_enhanced_words(text@) != Outcome::<Option<Seq<WordView>>>::Panics,
    ensures
        match spec_enhanced_words(text@) {
            Outcome::Done(None) => r is None,
            Outcome::Done(Some(ws)) => r matches Some(x) && words_view(x@) == ws,
            Outcome::Panics => false,
        },
{
    let v = chars_of(text);
    assert(v@.subrange(0, v@.len() as int) =~= text@);
    enhanced_words_in(&v, 0, v.len()).unwrap()
}

/// `strip_raw` of `v[lo..hi]`.
fn strip_raw_in(v: &Vec<char>, lo: usize, hi: usize) -> (r: Vec<char>)
    requires
        lo <= hi <= v.len(),
    ensures
        r@ == strip_raw(v@.subrange(lo as int, hi as int)),
{
    let ghost s0 = v@.subrange(lo as int, hi as int);
    let mut out: Vec<char> = Vec::new();
    let mut i = lo;
    assert(out@ + s0 =~= s0);
    while i < hi
        invariant
            lo <= i <= hi <= v.len(),
            s0 == v@.subrange(lo as int, hi as int),
            strip_raw(s0) == out@ + strip_raw(v@.subrange(i as int, hi as int)),
        decreases hi - i,
    {
        let ghost s = v@.subrange(i as int, hi as int);
        assert(s.drop_first() =~= v@.subrange(i + 1, hi as int));
        if v[i] == '<' {
            match find_in(v, i + 1, hi, '>') {
                Some(k) => {
                    proof {
                        lemma_find_char(s.drop_first(), '>');
                    }
                    assert(v@.subrange(k + 1, hi as int) =~= s.subrange(
                        (k - (i + 1)) + 2,
                        s.len() as int,
                    ));
                    i = k + 1;
                },
                None => {
                    assert(out@ + Seq::<char>::empty() =~= out@);
                    return out;
                },
            }
        } else {
            let ghost before = out@;
            out.push(v[i]);
            assert(before + (seq![v@[i as int]] + strip_raw(s.drop_first())) =~= out@ + strip_raw(
                s.drop_first(),
            ));
            i = i + 1;
        }
    }
    assert(v@.subrange(i as int, hi as int) =~= Seq::<char>::empty());
    assert(out@ + Seq::<char>::empty() =~= out@);
    out
}

/// Strip `<mm:ss.xx>` word timing tags from text for plain display.
pub fn strip_word_tags(text: &str) -> (r: String)
    ensures
        r@ == spec_strip_word_tags(text@),
{
    let v = chars_of(text);
    assert(v@.subrange(0, v@.len() as int) =~= text@);
    let raw = strip_raw_in(&v, 0, v.len());
    let t = trimmed(&raw, 0, raw.len());
    assert(raw@.subrange(0, raw@.len() as int) =~= raw@);
    string_of(t.as_slice())
}

// ── timestamp lines ──────────────────────────────────────────────────────

/// `c` lower-cases to the ASCII letter `l`.
pub open spec fn lower_is(c: char, l: char) -> bool {
    c == l || (c as u32) + 32 == (l as u32)
}

/// The text, lower-cased, starts with `[ver:` or `[ve:`. Only the ASCII
/// letters lower-case to `v`, `e` and `r`, so this compares them ignoring
/// ASCII case.
pub open spec fn ver_tag(t: Seq<char>) -> bool {
    &&& t.len() >= 4
    &&& t[0] == '['
    &&& lower_is(t[1], 'v')
    &&& lower_is(t[2], 'e')
    &&& (t[3] == ':' || (t.len() >= 5 && lower_is(t[3], 'r') && t[4] == ':'))
}

/// The lines of one `[t1][t2]...text` line: one per timestamp, each with the
/// same text and word timings. `None` when the line has no timestamp or is a
/// `[ver:...]` tag; word timing tags are removed from the displayed text.
pub open spec fn spec_ts_line(line: Seq<char>) -> Outcome<Option<Seq<LineView>>> {
    match collect_tags(line) {
        Outcome::Panics => Outcome::Panics,
        Outcome::Done(r) => {
            let ts = r.0;
            let text = trim(r.1);
            if ts.len() == 0 || ver_tag(text) {
                Outcome::Done(None)
            } else {
                let words = if find_char(text, '<') is Some {
                    spec_enhanced_words(text)
                } else {
                    Outcome::Done(None)
                };
                match words {
                    Outcome::Panics => Outcome::Panics,
                    Outcome::Done(w) => {
                        let clean = if w is Some {
                            spec_strip_word_tags(text)
                        } else {
                            text
                        };
                        Outcome::Done(
                            Some(ts.map_values(|t: u32| LineView { time_ms: t, text: clean, words: w })),
                        )
                    },
                }
            }
        },
    }
}

fn lower_is_exec(c: char, l: char) -> (b: bool)
    requires
        'a' <= l <= 'z',
    ensures
        b == lower_is(c, l),
{
    c == l || (c as u32) + 32 == (l as u32)
}

/// `ver_tag` of `v[lo..hi]`.
fn ver_tag_in(v: &Vec<char>, lo: usize, hi: usize) -> (b: bool)
    requires
        lo <= hi <= v.len(),
    ensures
        b == ver_tag(v@.subrange(lo as int, hi as int)),
{
    let n = hi - lo;
    if n >= 4 && v[lo] == '[' && lower_is_exec(v[lo + 1], 'v') && lower_is_exec(v[lo + 2], 'e') {
        if v[lo + 3] == ':' {
            return true;
        }
        if n >= 5 && lower_is_exec(v[lo + 3], 'r') && v[lo + 4] == ':' {
            return true;
        }
    }
    false
}

/// A copy of a list of word timings.
fn copy_words(ws: &Vec<WordTiming>) -> (r: Vec<WordTiming>)
    ensures
        words_view(r@) == words_view(ws@),
{
    let mut out: Vec<WordTiming> = Vec::new();
    let mut i: usize = 0;
    while i < ws.len()
        invariant
            i <= ws.len(),
            words_view(out@) == words_view(ws@.take(i as int)),
        decreases ws.len() - i,
    {
        let ghost before = out@;
        let w = WordTiming { time_ms: ws[i].time_ms, text: ws[i].text.clone() };
        assert(w@ == ws@[i as int]@);
        out.push(w);
        assert(ws@.take(i + 1) =~= ws@.take(i as int).push(ws@[i as int]));
        assert(words_view(out@) =~= words_view(before).push(w@));
        assert(words_view(ws@.take(i + 1)) =~= words_view(ws@.take(i as int)).push(w@));
        i = i + 1;
    }
    assert(ws@.take(i as int) =~= ws@);
    out
}

pub(crate) fn copy_words_opt(w: &Option<Vec<WordTiming>>) -> (r: Option<Vec<WordTiming>>)
    ensures
        opt_words_view(r) == opt_words_view(*w),
{
    match w {
        Some(ws) => Some(copy_words(ws)),
        None => None,
    }
}

/// A copy of a list of lyric lines.
pub(crate) fn copy_lines(ls: &Vec<LrcLine>) -> (r: Vec<LrcLine>)
    ensures
        lines_view(r@) == lines_view(ls@),
{
    let mut out: Vec<LrcLine> = Vec::new();
    let mut i: usize = 0;
    while i < ls.len()
        invariant
            i <= ls.len(),
            lines_view(out@) == lines_view(ls@.take(i as int)),
        decreases ls.len() - i,
    {
        let ghost before = out@;
        let l = LrcLine {
            time_ms: ls[i].time_ms,
            text: ls[i].text.clone(),
            words: copy_words_opt(&ls[i].words),
        };
        assert(l@ == ls@[i as int]@);
        out.push(l);
        assert(ls@.take(i + 1) =~= ls@.take(i as int).push(ls@[i as int]));
        assert(lines_view(out@) =~= lines_view(before).push(l@));
        assert(lines_view(ls@.take(i + 1)) =~= lines_view(ls@.take(i as int)).push(l@));
        i = i + 1;
    }
    assert(ls@.take(i as int) =~= ls@);
    out
}

/// `spec_ts_line` of `v[lo..hi]`; the outer `None` stands for a panic.
fn ts_line_in(v: &Vec<char>, lo: usize, hi: usize) -> (r: Option<Option<Vec<LrcLine>>>)
    requires
        lo <= hi <= v.len(),
    ensures
        match spec_ts_line(v@.subrange(lo as int, hi as int)) {
            Outcome::Panics => r is None,
            Outcome::Done(None) => r == Some(None::<Vec<LrcLine>>),
            Outcome::Done(Some(ls)) => r matches Some(Some(x)) && lines_view(x@) == ls,
        },
{
    let (ts, p) = match collect_tags_in(v, lo, hi) {
        None => {
            return None;
        },
        Some(x) => x,
    };
    let (a, b) = trim_bounds(v, p, hi);
    if ts.len() == 0 || ver_tag_in(v, a, b) {
        return Some(None);
    }
    let ghost text = v@.subrange(a as int, b as int);
    let words: Option<Vec<WordTiming>> = match find_in(v, a, b, '<') {
        Some(_) => match enhanced_words_in(v, a, b) {
            None => {
                return None;
            },
            Some(w) => w,
        },
        None => None,
    };
    let clean: Vec<char> = match &words {
        Some(_) => {
            let raw = strip_raw_in(v, a, b);
            assert(raw@.subrange(0, raw@.len() as int) =~= raw@);
            trimmed(&raw, 0, raw.len())
        },
        None => slice_vec(v, a, b),
    };
    let ghost wv = opt_words_view(words);
    let ghost mk = |t: u32| LineView { time_ms: t, text: clean@, words: wv };
    let mut out: Vec<LrcLine> = Vec::new();
    let mut i: usize = 0;
    while i < ts.len()
        invariant
            i <= ts.len(),
            wv == opt_words_view(words),
            mk == (|t: u32| LineView { time_ms: t, text: clean@, words: wv }),
            lines_view(out@) == ts@.take(i as int).map_values(mk),
        decreases ts.len() - i,
    {
        let line = LrcLine {
            time_ms: ts[i],
            text: string_of(clean.as_slice()),
            words: copy_words_opt(&words),
        };
        let ghost before = out@;
        assert(line@ == mk(ts@[i as int]));
        out.push(line);
        assert(ts@.take(i + 1) =~= ts@.take(i as int).push(ts@[i as int]));
        assert(lines_view(out@) =~= lines_view(before).push(line@));
        assert(ts@.take(i + 1).map_values(mk) =~= ts@.take(i as int).map_values(mk).push(
            mk(ts@[i as int]),
        ));
        i = i + 1;
    }
    assert(ts@.take(i as int) =~= ts@);
    Some(Some(out))
}

// ── whole files ──────────────────────────────────────────────────────────

/// The metadata tag of a line `[key:value]`: the key and the trimmed value,
/// read up to the first `]`. Lines that hold `][` carry no metadata.
pub open spec fn meta_entry(l: Seq<char>) -> Option<(Seq<char>, Seq<char>)> {
    if has_infix(l, seq![']', '[']) {
        None
    } else {
        match find_char(l, ']') {
            None => None,
            Some(end) => {
                let tag = l.subrange(1, end);
                match find_char(tag, ':') {
                    None => None,
                    Some(c) => Some((tag.subrange(0, c), trim(tag.subrange(c + 1, tag.len() as int)))),
                }
            },
        }
    }
}

/// The metadata after the tag `[key:value]`, or `None` when the key is not
/// one of `ti`, `ar`, `al`, `offset`. An offset that does not read as an
/// `i32` leaves the offset as it was.
pub open spec fn apply_meta(m: MetaView, key: Seq<char>, value: Seq<char>) -> Option<MetaView> {
    if key == seq!['t', 'i'] {
        Some(MetaView { title: Some(value), artist: m.artist, album: m.album, offset_ms: m.offset_ms })
    } else if key == seq!['a', 'r'] {
        Some(MetaView { title: m.title, artist: Some(value), album: m.album, offset_ms: m.offset_ms })
    } else if key == seq!['a', 'l'] {
        Some(MetaView { title: m.title, artist: m.artist, album: Some(value), offset_ms: m.offset_ms })
    } else if key == seq!['o', 'f', 'f', 's', 'e', 't'] {
        Some(
            MetaView {
                title: m.title,
                artist: m.artist,
                album: m.album,
                offset_ms: match parse_i32(value) {
                    Some(o) => o,
                    None => m.offset_ms,
                },
            },
        )
    } else {
        None
    }
}

/// What the parser has read so far.
pub ghost struct ParseState {
    pub meta: MetaView,
    pub lines: Seq<LineView>,
}

pub open spec fn empty_meta() -> MetaView {
    MetaView { title: None, artist: None, album: None, offset_ms: 0 }
}

/// The parser's state after one more line of the file. Lines are trimmed;
/// empty ones and those that do not start with `[` are skipped.
#[verifier::opaque]
pub open spec fn spec_step(st: ParseState, raw: Seq<char>) -> Outcome<ParseState> {
    let l = trim(raw);
    if l.len() == 0 || l[0] != '[' {
        Outcome::Done(st)
    } else {
        let meta = match meta_entry(l) {
            Some(e) => apply_meta(st.meta, e.0, e.1),
            None => None,
        };
        match meta {
            Some(m) => Outcome::Done(ParseState { meta: m, lines: st.lines }),
            None => match spec_ts_line(l) {
                Outcome::Panics => Outcome::Panics,
                Outcome::Done(None) => Outcome::Done(st),
                Outcome::Done(Some(ls)) => Outcome::Done(
                    ParseState { meta: st.meta, lines: st.lines + ls },
                ),
            },
        }
    }
}

/// The parser's state after the lines `ls`, in order.
pub open spec fn spec_fold(st: ParseState, ls: Seq<Seq<char>>) -> Outcome<ParseState>
    decreases ls.len(),
{
    if ls.len() == 0 {
        Outcome::Done(st)
    } else {
        match spec_step(st, ls[0]) {
            Outcome::Panics => Outcome::Panics,
            Outcome::Done(next) => spec_fold(next, ls.drop_first()),
        }
    }
}

/// The text split at each `\n`.
pub open spec fn split_lines(s: Seq<char>) -> Seq<Seq<char>>
    decreases s.len(),
{
    match find_char(s, '\n') {
        None => seq![s],
        Some(i) => {
            proof {
                lemma_find_char(s, '\n');
            }
            seq![s.subrange(0, i)] + split_lines(s.subrange(i + 1, s.len() as int))
        },
    }
}

/// The text without its leading byte order marks.
pub open spec fn strip_bom(s: Seq<char>) -> Seq<char>
    decreases s.len(),
{
    if s.len() > 0 && s[0] == '\u{FEFF}' {
        strip_bom(s.drop_first())
    } else {
        s
    }
}

/// Where `insert_by_time` puts a line with time `t`: after every line whose
/// time is at most `t`.
pub open spec fn ins_pos(s: Seq<LineView>, t: u32) -> int
    decreases s.len(),
{
    if s.len() == 0 || s[0].time_ms > t {
        0
    } else {
        1 + ins_pos(s.drop_first(), t)
    }
}

pub open spec fn insert_by_time(s: Seq<LineView>, x: LineView) -> Seq<LineView> {
    s.insert(ins_pos(s, x.time_ms), x)
}

/// The lines sorted by time; lines with equal times keep their order.
pub open spec fn sort_by_time(s: Seq<LineView>) -> Seq<LineView>
    decreases s.len(),
{
    if s.len() == 0 {
        s
    } else {
        insert_by_time(sort_by_time(s.drop_last()), s.last())
    }
}

/// The parsed LRC file: metadata and lines read line by line after the byte
/// order marks, then the lines sorted by time.
pub open spec fn spec_parse_lrc(s: Seq<char>) -> Outcome<FileView> {
    let init = ParseState { meta: empty_meta(), lines: Seq::empty() };
    match spec_fold(init, split_lines(strip_bom(s))) {
        Outcome::Panics => Outcome::Panics,
        Outcome::Done(st) => Outcome::Done(
            FileView { metadata: st.meta, lines: sort_by_time(st.lines) },
        ),
    }
}

pub proof fn lemma_ins_pos(s: Seq<LineView>, t: u32)
    ensures
        0 <= ins_pos(s, t) <= s.len(),
        forall|j: int| 0 <= j < ins_pos(s, t) ==> (#[trigger] s[j]).time_ms <= t,
        ins_pos(s, t) < s.len() ==> s[ins_pos(s, t)].time_ms > t,
    decreases s.len(),
{
    if s.len() > 0 && s[0].time_ms <= t {
        lemma_ins_pos(s.drop_first(), t);
        assert forall|j: int| 0 <= j < ins_pos(s, t) implies (#[trigger] s[j]).time_ms <= t by {
            if j > 0 {
                assert(s[j] == s.drop_first()[j - 1]);
            }
        }
    }
}

/// `ins_pos` of `v` for time `t`.
fn ins_pos_exec(v: &Vec<LrcLine>, t: u32) -> (p: usize)
    ensures
        p == ins_pos(lines_view(v@), t),
{
    let ghost s = lines_view(v@);
    let mut i: usize = 0;
    assert(s.subrange(0, s.len() as int) =~= s);
    while i < v.len() && v[i].time_ms <= t
        invariant
            i <= v.len(),
            s == lines_view(v@),
            ins_pos(s, t) == i + ins_pos(s.subrange(i as int, s.len() as int), t),
        decreases v.len() - i,
    {
        assert(s.subrange(i as int, s.len() as int).drop_first() =~= s.subrange(
            i + 1,
            s.len() as int,
        ));
        i = i + 1;
    }
    i
}

/// The lines sorted stably by time.
fn sort_lines(lines: Vec<LrcLine>) -> (r: Vec<LrcLine>)
    ensures
        lines_view(r@) == sort_by_time(lines_view(lines@)),
{
    let ghost s = lines_view(lines@);
    let mut rest = lines;
    let mut out: Vec<LrcLine> = Vec::new();
    let ghost mut k: int = 0;
    assert(s.take(0) =~= Seq::<LineView>::empty());
    while rest.len() > 0
        invariant
            0 <= k <= s.len(),
            lines_view(rest@) == s.subrange(k, s.len() as int),
            lines_view(out@) == sort_by_time(s.take(k)),
        decreases rest.len(),
    {
        let ghost r0 = rest@;
        let x = rest.remove(0);
        proof {
            assert(lines_view(r0).len() == r0.len());
            assert(k < s.len());
            assert(lines_view(r0)[0] == r0[0]@);
            assert(s.subrange(k, s.len() as int)[0] == s[k]);
            assert(x@ == s[k]);
            assert(s.take(k + 1).drop_last() =~= s.take(k));
            assert(rest@ =~= r0.subrange(1, r0.len() as int));
            assert(lines_view(rest@) =~= lines_view(r0).subrange(1, r0.len() as int));
            assert(lines_view(rest@) =~= s.subrange(k + 1, s.len() as int));
        }
        let p = ins_pos_exec(&out, x.time_ms);
        proof {
            lemma_ins_pos(lines_view(out@), x.time_ms);
        }
        let ghost before = out@;
        out.insert(p, x);
        proof {
            assert(lines_view(out@) =~= lines_view(before).insert(p as int, x@));
            k = k + 1;
        }
    }
    assert(s.take(k) =~= s);
    out
}

impl Default for LrcMetadata {
    fn default() -> (m: Self)
        ensures
            m@ == empty_meta(),
    {
        LrcMetadata { title: None, artist: None, album: None, offset_ms: 0 }
    }
}

/// `meta_entry` of `v[lo..hi]` as index ranges: the key `v[r.0..r.1]` and
/// the value `v[r.2..r.3]`.
fn meta_entry_in(v: &Vec<char>, lo: usize, hi: usize) -> (r: Option<(usize, usize, usize, usize)>)
    requires
        lo < hi <= v.len(),
        v@[lo as int] == '[',
    ensures
        match meta_entry(v@.subrange(lo as int, hi as int)) {
            None => r is None,
            Some(e) => r matches Some(x) && lo <= x.0 <= x.1 <= hi && lo <= x.2 <= x.3 <= hi
                && v@.subrange(x.0 as int, x.1 as int) == e.0 && v@.subrange(x.2 as int, x.3 as int)
                == e.1,
        },
{
    let ghost l = v@.subrange(lo as int, hi as int);
    let mut pat: Vec<char> = Vec::new();
    pat.push(']');
    pat.push('[');
    assert(pat@ =~= seq![']', '[']);
    if contains_at(v, lo, hi, &pat) {
        return None;
    }
    let end = match find_in(v, lo, hi, ']') {
        None => {
            return None;
        },
        Some(e) => e,
    };
    proof {
        lemma_find_char(l, ']');
    }
    assert(l[0] == '[');
    let ghost tag = l.subrange(1, end - lo);
    assert(v@.subrange(lo + 1, end as int) =~= tag);
    let c = match find_in(v, lo + 1, end, ':') {
        None => {
            return None;
        },
        Some(c) => c,
    };
    assert(v@.subrange(lo + 1, c as int) =~= tag.subrange(0, c - (lo + 1)));
    assert(v@.subrange(c + 1, end as int) =~= tag.subrange(c - (lo + 1) + 1, tag.len() as int));
    let (a, b) = trim_bounds(v, c + 1, end);
    Some((lo + 1, c, a, b))
}

fn text_of(v: &Vec<char>, lo: usize, hi: usize) -> (s: String)
    requires
        lo <= hi <= v.len(),
    ensures
        s@ == v@.subrange(lo as int, hi as int),
{
    let w = slice_vec(v, lo, hi);
    string_of(w.as_slice())
}

/// Reads the line `v[lo..hi]` into the metadata and lines read so far;
/// `false` where reading panics.
fn read_line(v: &Vec<char>, lo: usize, hi: usize, meta: &mut LrcMetadata, lines: &mut Vec<LrcLine>) -> (ok: bool)
    requires
        lo <= hi <= v.len(),
    ensures
        match spec_step(
            ParseState { meta: old(meta)@, lines: lines_view(old(lines)@) },
            v@.subrange(lo as int, hi as int),
        ) {
            Outcome::Panics => !ok,
            Outcome::Done(st) => ok && final(meta)@ == st.meta && lines_view(final(lines)@)
                == st.lines,
        },
{
    let ghost st = ParseState { meta: meta@, lines: lines_view(lines@) };
    reveal(spec_step);
    let (a, b) = trim_bounds(v, lo, hi);
    if a == b || v[a] != '[' {
        return true;
    }
    let ghost l = v@.subrange(a as int, b as int);
    if let Some((k0, k1, v0, v1)) = meta_entry_in(v, a, b) {
        proof {
            reveal_strlit("ti");
            reveal_strlit("ar");
            reveal_strlit("al");
            reveal_strlit("offset");
            assert("ti"@ =~= seq!['t', 'i']);
            assert("ar"@ =~= seq!['a', 'r']);
            assert("al"@ =~= seq!['a', 'l']);
            assert("offset"@ =~= seq!['o', 'f', 'f', 's', 'e', 't']);
        }
        if range_eq(v, k0, k1, "ti") {
            meta.title = Some(text_of(v, v0, v1));
            return true;
        } else if range_eq(v, k0, k1, "ar") {
            meta.artist = Some(text_of(v, v0, v1));
            return true;
        } else if range_eq(v, k0, k1, "al") {
            meta.album = Some(text_of(v, v0, v1));
            return true;
        } else if range_eq(v, k0, k1, "offset") {
            match parse_i32_in(v, v0, v1) {
                Some(o) => {
                    meta.offset_ms = o;
                },
                None => {},
            }
            return true;
        }
    }
    match ts_line_in(v, a, b) {
        None => false,
        Some(None) => true,
        Some(Some(mut ls)) => {
            let ghost before = lines_view(lines@);
            let ghost added = lines_view(ls@);
            lines.append(&mut ls);
            assert(lines_view(lines@) =~= before + added);
            true
        },
    }
}

/// `spec_parse_lrc` of `v`; `None` where reading panics.
fn parse_chars(v: &Vec<char>) -> (r: Option<LrcFile>)
    ensures
        match spec_parse_lrc(v@) {
            Outcome::Panics => r is None,
            Outcome::Done(f) => r matches Some(x) && x@ == f,
        },
{
    let n = v.len();
    let mut p: usize = 0;
    assert(v@.subrange(0, n as int) =~= v@);
    while p < n && v[p] == '\u{FEFF}'
        invariant
            p <= n == v.len(),
            strip_bom(v@) == strip_bom(v@.subrange(p as int, n as int)),
        decreases n - p,
    {
        assert(v@.subrange(p as int, n as int).drop_first() =~= v@.subrange(p + 1, n as int));
        p = p + 1;
    }
    let ghost init = ParseState { meta: empty_meta(), lines: Seq::empty() };
    let mut meta = LrcMetadata::default();
    let mut lines: Vec<LrcLine> = Vec::new();
    assert(lines_view(lines@) =~= Seq::<LineView>::empty());
    loop
        invariant
            p <= n == v.len(),
            init == (ParseState { meta: empty_meta(), lines: Seq::empty() }),
            spec_fold(init, split_lines(strip_bom(v@))) == spec_fold(
                ParseState { meta: meta@, lines: lines_view(lines@) },
                split_lines(v@.subrange(p as int, n as int)),
            ),
        decreases n - p,
    {
        let ghost rest = v@.subrange(p as int, n as int);
        let ghost st = ParseState { meta: meta@, lines: lines_view(lines@) };
        let ghost ls = split_lines(rest);
        proof {
            lemma_split_next(rest);
            lemma_fold_first(st, ls);
        }
        match find_in(v, p, n, '\n') {
            Some(e) => {
                proof {
                    assert(rest.subrange(0, e - p) =~= v@.subrange(p as int, e as int));
                    assert(rest.subrange(e - p + 1, rest.len() as int) =~= v@.subrange(
                        e + 1,
                        n as int,
                    ));
                    assert(ls.drop_first() =~= split_lines(v@.subrange(e + 1, n as int)));
                    assert(ls[0] == v@.subrange(p as int, e as int));
                }
                if !read_line(v, p, e, &mut meta, &mut lines) {
                    return None;
                }
                p = e + 1;
            },
            None => {
                proof {
                    assert(ls.drop_first() =~= Seq::<Seq<char>>::empty());
                    assert(ls[0] == rest);
                }
                if !read_line(v, p, n, &mut meta, &mut lines) {
                    return None;
                }
                let sorted = sort_lines(lines);
                return Some(LrcFile { metadata: meta, lines: sorted });
            },
        }
    }
}

pub proof fn lemma_split_next(s: Seq<char>)
    ensures
        match find_char(s, '\n') {
            None => split_lines(s) == seq![s],
            Some(i) => 0 <= i < s.len() && split_lines(s) == seq![s.subrange(0, i)] + split_lines(
                s.subrange(i + 1, s.len() as int),
            ),
        },
{
    lemma_find_char(s, '\n');
}

proof fn lemma_fold_first(st: ParseState, ls: Seq<Seq<char>>)
    requires
        ls.len() > 0,
    ensures
        spec_fold(st, ls) == match spec_step(st, ls[0]) {
            Outcome::Panics => Outcome::Panics,
            Outcome::Done(next) => spec_fold(next, ls.drop_first()),
        },
{
}

/// Parse an LRC file from a string (CRLF or LF line ends, leading byte order
/// marks skipped); `None` exactly where reading the text would panic.
pub fn try_parse_lrc(content: &str) -> (r: Option<LrcFile>)
    ensures
        match spec_parse_lrc(content@) {
            Outcome::Panics => r is None,
            Outcome::Done(f) => r matches Some(x) && x@ == f,
        },
{
    let v = chars_of(content);
    parse_chars(&v)
}

/// Parse an LRC file from a string. Handles CRLF, LF, and a BOM.
pub fn parse_lrc(content: &str) -> (r: LrcFile)
    requires
        spec_parse_lrc(content@) != Outcome::<FileView>::Panics,
    ensures
        Outcome::Done(r@) == spec_parse_lrc(content@),
{
    try_parse_lrc(content).unwrap()
}

// ── writing ──────────────────────────────────────────────────────────────

/// `[key:value]` on a line of its own.
pub open spec fn tag_line(key: Seq<char>, value: Seq<char>) -> Seq<char> {
    seq!['['] + key + seq![':'] + value + seq![']', '\n']
}

/// `[key:value]` when there is a value.
pub open spec fn opt_tag(key: Seq<char>, value: Option<Seq<char>>) -> Seq<char> {
    match value {
        Some(v) => tag_line(key, v),
        None => Seq::empty(),
    }
}

/// The offset as written: nothing for zero.
pub open spec fn offset_value(o: i32) -> Option<Seq<char>> {
    if o != 0 {
        Some(dec_i32(o))
    } else {
        None
    }
}

/// The metadata tags in LRC text: title, artist, album, and the offset when
/// it is not zero.
pub open spec fn meta_text(m: MetaView) -> Seq<char> {
    opt_tag(seq!['t', 'i'], m.title) + opt_tag(seq!['a', 'r'], m.artist) + opt_tag(
        seq!['a', 'l'],
        m.album,
    ) + opt_tag(seq!['o', 'f', 'f', 's', 'e', 't'], offset_value(m.offset_ms))
}

/// The fraction of a second in a time tag: hundredths (`cc`) when the
/// time is a whole number of them, else milliseconds (`mmm`).
pub open spec fn frac_text(ms: u32) -> Seq<char> {
    if ms % 10 == 0 {
        dec2(((ms % 1000) / 10) as nat)
    } else {
        dec3((ms % 1000) as nat)
    }
}

/// `[mm:ss.cc]` (or `[mm:ss.mmm]` for a time that is not a whole number of
/// hundredths) for a time in milliseconds; minutes are not wrapped.
pub open spec fn time_tag(ms: u32) -> Seq<char> {
    seq!['['] + dec2((ms / 60000) as nat) + seq![':'] + dec2(((ms % 60000) / 1000) as nat)
        + seq!['.'] + frac_text(ms) + seq![']']
}

pub open spec fn line_text(l: LineView) -> Seq<char> {
    time_tag(l.time_ms) + l.text + seq!['\n']
}

pub open spec fn lines_text(ls: Seq<LineView>) -> Seq<char>
    decreases ls.len(),
{
    if ls.len() == 0 {
        Seq::empty()
    } else {
        lines_text(ls.drop_last()) + line_text(ls.last())
    }
}

/// A file in LRC text: the metadata tags, then one timed line per lyric line
/// with its display text. Word timings are not written.
pub open spec fn lrc_text(f: FileView) -> Seq<char> {
    meta_text(f.metadata) + lines_text(f.lines)
}

fn push_str(out: &mut Vec<char>, s: &str)
    ensures
        final(out)@ == old(out)@ + s@,
{
    let mut w = chars_of(s);
    out.append(&mut w);
}

fn push_tag_line(out: &mut Vec<char>, key: &str, value: &str)
    ensures
        final(out)@ == old(out)@ + tag_line(key@, value@),
{
    out.push('[');
    push_str(out, key);
    out.push(':');
    push_str(out, value);
    out.push(']');
    out.push('\n');
    assert(final(out)@ =~= old(out)@ + tag_line(key@, value@));
}

fn push_time_tag(out: &mut Vec<char>, ms: u32)
    ensures
        final(out)@ == old(out)@ + time_tag(ms),
{
    out.push('[');
    push_dec2(out, (ms / 60000) as u64);
    out.push(':');
    push_dec2(out, ((ms % 60000) / 1000) as u64);
    out.push('.');
    if ms % 10 == 0 {
        push_dec2(out, ((ms % 1000) / 10) as u64);
    } else {
        push_dec3(out, (ms % 1000) as u64);
    }
    out.push(']');
    assert(final(out)@ =~= old(out)@ + time_tag(ms));
}

/// Serialize a parsed `LrcFile` back to the standard LRC text format.
///
/// Writes the metadata tags (`[ti:]`, `[ar:]`, `[al:]`, `[offset:]`), then
/// the timed lines. Word timings are dropped: only the display text is
/// written, which is enough to round-trip lyrics to a local cache file.
pub fn lrcfile_to_string(lrc: &LrcFile) -> (s: String)
    ensures
        s@ == lrc_text(lrc@),
{
    let mut out: Vec<char> = Vec::new();
    proof {
        reveal_strlit("ti");
        reveal_strlit("ar");
        reveal_strlit("al");
        reveal_strlit("offset");
        assert("ti"@ =~= seq!['t', 'i']);
        assert("ar"@ =~= seq!['a', 'r']);
        assert("al"@ =~= seq!['a', 'l']);
        assert("offset"@ =~= seq!['o', 'f', 'f', 's', 'e', 't']);
    }
    if let Some(t) = &lrc.metadata.title {
        push_tag_line(&mut out, "ti", t.as_str());
    }
    if let Some(a) = &lrc.metadata.artist {
        push_tag_line(&mut out, "ar", a.as_str());
    }
    if let Some(a) = &lrc.metadata.album {
        push_tag_line(&mut out, "al", a.as_str());
    }
    if lrc.metadata.offset_ms != 0 {
        let mut num: Vec<char> = Vec::new();
        push_dec_i32(&mut num, lrc.metadata.offset_ms);
        let n = string_of(num.as_slice());
        push_tag_line(&mut out, "offset", n.as_str());
    }
    assert(out@ =~= meta_text(lrc.metadata@));
    let ghost ls = lines_view(lrc.lines@);
    let mut i: usize = 0;
    while i < lrc.lines.len()
        invariant
            i <= lrc.lines.len(),
            ls == lines_view(lrc.lines@),
            out@ == meta_text(lrc.metadata@) + lines_text(ls.take(i as int)),
        decreases lrc.lines.len() - i,
    {
        let line = &lrc.lines[i];
        push_time_tag(&mut out, line.time_ms);
        push_str(&mut out, line.text.as_str());
        out.push('\n');
        proof {
            assert(ls.take(i + 1).drop_last() =~= ls.take(i as int));
            assert(ls.take(i + 1).last() == line@);
        }
        i = i + 1;
        assert(out@ =~= meta_text(lrc.metadata@) + lines_text(ls.take(i as int)));
    }
    assert(ls.take(i as int) =~= ls);
    string_of(out.as_slice())
}

// ── files and paths ──────────────────────────────────────────────────────

/// The text of LRC file bytes: after a UTF-8 byte order mark, the rest read
/// as UTF-8 (invalid sequences replaced); UTF-8 as it is; anything else in
/// the legacy encoding (GBK, Big5, Shift-JIS, ...) that detection guesses.
/// Should the guessed name be one that no encoding has, the bytes are read
/// as lossy UTF-8.
pub open spec fn spec_decode_lrc(b: Seq<u8>) -> Seq<char> {
    if b.len() >= 3 && b[0] == 0xEF && b[1] == 0xBB && b[2] == 0xBF {
        let rest = b.subrange(3, b.len() as int);
        if valid_utf8(rest) {
            decode_utf8(rest)
        } else {
            utf8_lossy(rest)
        }
    } else if valid_utf8(b) {
        decode_utf8(b)
    } else {
        match decoded_as(detected_encoding(b), b) {
            Some(t) => t,
            None => utf8_lossy(b),
        }
    }
}

/// Text saved as UTF-8 is read back as it is, with or without a byte order
/// mark in front (a text that itself starts with U+FEFF is read with that
/// character taken for the mark).
pub proof fn lemma_decode_keeps_utf8(t: Seq<char>)
    ensures
        (t.len() == 0 || t[0] != '\u{FEFF}') ==> spec_decode_lrc(encode_utf8(t)) == t,
        spec_decode_lrc(seq![0xEFu8, 0xBBu8, 0xBFu8] + encode_utf8(t)) == t,
{
    let e = encode_utf8(t);
    vstd::utf8::encode_utf8_valid_utf8(t);
    vstd::utf8::encode_utf8_decode_utf8(t);
    let b = seq![0xEFu8, 0xBBu8, 0xBFu8] + e;
    assert(b.subrange(3, b.len() as int) =~= e);
    if t.len() > 0 && t[0] != '\u{FEFF}' && e.len() >= 3 && e[0] == 0xEF && e[1] == 0xBB
        && e[2] == 0xBF {
        vstd::utf8::encode_utf8_first_scalar(t);
        assert(vstd::utf8::codepoint_width_3(0xEFu8, 0xBBu8, 0xBFu8) == 0xFEFFu32) by (bit_vector);
        assert(vstd::utf8::decode_first_scalar(e) == 0xFEFFu32);
        vstd::utf8::char_u32_cast(t[0], 0xFEFFu32);
        vstd::utf8::char_u32_cast('\u{FEFF}', 0xFEFFu32);
        assert(false);
    }
    if t.len() == 0 {
        assert(e =~= Seq::<u8>::empty());
    }
}

/// Decode raw LRC file bytes to a string: UTF-8 after a byte order mark,
/// else UTF-8 when the bytes are valid UTF-8, else the detected legacy
/// encoding.
pub fn decode_lrc_bytes(bytes: &[u8]) -> (s: String)
    ensures
        s@ == spec_decode_lrc(bytes@),
{
    let n = bytes.len();
    if n >= 3 && bytes[0] == 0xEF && bytes[1] == 0xBB && bytes[2] == 0xBF {
        let rest = vstd::slice::slice_subrange(bytes, 3, n);
        return lossy_text(rest);
    }
    if let Some(s) = utf8_text(bytes) {
        return s;
    }
    let label = detect_encoding(bytes);
    match decode_as(label.as_str(), bytes) {
        Some(s) => s,
        None => lossy_text(bytes),
    }
}

/// The lyrics in LRC file bytes: `Some(None)` when they hold no timed line,
/// `None` exactly where reading the decoded text would panic.
pub fn lrc_from_bytes(bytes: &[u8]) -> (r: Option<Option<LrcFile>>)
    ensures
        match spec_parse_lrc(spec_decode_lrc(bytes@)) {
            Outcome::Panics => r is None,
            Outcome::Done(f) => if f.lines.len() == 0 {
                r == Some(None::<LrcFile>)
            } else {
                r matches Some(Some(y)) && y@ == f
            },
        },
{
    let text = decode_lrc_bytes(bytes);
    match try_parse_lrc(text.as_str()) {
        None => None,
        Some(lrc) => {
            if lrc.lines.len() == 0 {
                Some(None)
            } else {
                Some(Some(lrc))
            }
        },
    }
}

/// `{dir}/{stem}.lrc` for an audio file `{dir}/{stem}.{ext}`.
pub open spec fn spec_lrc_path(audio: Seq<char>) -> Option<Seq<char>> {
    match paths::path_parent(audio) {
        None => None,
        Some(dir) => match paths::path_file_stem(audio) {
            None => None,
            Some(stem) => Some(paths::path_join(dir, stem + seq!['.', 'l', 'r', 'c'])),
        },
    }
}

/// Build the expected LRC path for an audio file:
/// `{audio_dir}/{audio_stem}.lrc`.
pub fn lrc_path_for_audio(audio_path: &str) -> (r: Option<String>)
    ensures
        paths::opt_view(r) == spec_lrc_path(audio_path@),
{
    let dir = match paths::parent(audio_path) {
        Some(d) => d,
        None => {
            return None;
        },
    };
    let stem = match paths::file_stem(audio_path) {
        Some(s) => s,
        None => {
            return None;
        },
    };
    let mut name = chars_of(stem.as_str());
    name.push('.');
    name.push('l');
    name.push('r');
    name.push('c');
    let file = string_of(name.as_slice());
    assert(file@ =~= stem@ + seq!['.', 'l', 'r', 'c']);
    Some(paths::join(dir.as_str(), file.as_str()))
}

/// Parse one LRC line with one or more timestamp tags: one `LrcLine` per
/// tag, `None` when the line has no timestamp tag.
pub fn parse_timestamp_line(line: &str) -> (r: Option<Vec<LrcLine>>)
    requires
        spec_ts_line(line@) != Outcome::<Option<Seq<LineView>>>::Panics,
    ensures
        match spec_ts_line(line@) {
            Outcome::Done(None) => r is None,
            Outcome::Done(Some(ls)) => r matches Some(x) && lines_view(x@) == ls,
            Outcome::Panics => false,
        },
{
    let v = chars_of(line);
    assert(v@.subrange(0, v@.len() as int) =~= line@);
    ts_line_in(&v, 0, v.len()).unwrap()
}

// ── what the parser produces ─────────────────────────────────────────────

/// No `c` in `s`.
pub open spec fn no_char(s: Seq<char>, c: char) -> bool {
    forall|i: int| 0 <= i < s.len() ==> s[i] != c
}

/// Neither starts nor ends with whitespace.
pub open spec fn trimmed_text(s: Seq<char>) -> bool {
    s.len() > 0 ==> !is_ws(s[0]) && !is_ws(s.last())
}

/// The lines are in order of time.
pub open spec fn time_sorted(s: Seq<LineView>) -> bool {
    forall|i: int, j: int| 0 <= i <= j < s.len() ==> s[i].time_ms <= s[j].time_ms
}

/// A line as the parser produces it: its text is trimmed and lies on one
/// line; with word timings, the text holds no `<`; without, the text holds
/// no word timing.
pub open spec fn parsed_line(l: LineView) -> bool {
    &&& no_char(l.text, '\n')
    &&& trimmed_text(l.text)
    &&& match l.words {
        Some(_) => no_char(l.text, '<'),
        None => find_char(l.text, '<') is Some ==> spec_enhanced_words(l.text) == Outcome::Done(
            None::<Seq<WordView>>,
        ),
    }
}

pub open spec fn parsed_value(o: Option<Seq<char>>) -> bool {
    o matches Some(v) ==> no_char(v, '\n') && no_char(v, ']') && trimmed_text(v)
}

/// Metadata as the parser produces it: each value is trimmed and holds
/// neither a line break nor `]`.
pub open spec fn parsed_meta(m: MetaView) -> bool {
    parsed_value(m.title) && parsed_value(m.artist) && parsed_value(m.album)
}

pub open spec fn parsed_lines(s: Seq<LineView>) -> bool {
    forall|i: int| 0 <= i < s.len() ==> #[trigger] parsed_line(s[i])
}

pub open spec fn parsed_state(st: ParseState) -> bool {
    parsed_meta(st.meta) && parsed_lines(st.lines)
}

proof fn lemma_split_lines_no_nl(s: Seq<char>)
    ensures
        forall|i: int| 0 <= i < split_lines(s).len() ==> no_char(#[trigger] split_lines(s)[i], '\n'),
    decreases s.len(),
{
    lemma_split_next(s);
    lemma_find_char(s, '\n');
    match find_char(s, '\n') {
        None => {},
        Some(k) => {
            lemma_split_lines_no_nl(s.subrange(k + 1, s.len() as int));
            let ls = split_lines(s);
            assert forall|i: int| 0 <= i < ls.len() implies no_char(#[trigger] ls[i], '\n') by {
                if i == 0 {
                    assert(ls[0] == s.subrange(0, k));
                } else {
                    assert(ls[i] == split_lines(s.subrange(k + 1, s.len() as int))[i - 1]);
                }
            }
        },
    }
}

proof fn lemma_trim_no_char(s: Seq<char>, c: char)
    requires
        no_char(s, c),
    ensures
        no_char(trim(s), c),
        trimmed_text(trim(s)),
{
    let a = lemma_trim_shape(s);
    assert forall|i: int| 0 <= i < trim(s).len() implies trim(s)[i] != c by {
        assert(trim(s)[i] == s[a + i]);
    }
}

proof fn lemma_collect_tags_rest(line: Seq<char>, c: char)
    requires
        no_char(line, c),
    ensures
        collect_tags(line) matches Outcome::Done(r) ==> no_char(r.1, c),
    decreases line.len(),
{
    if line.len() > 0 && line[0] == '[' {
        lemma_find_char(line, ']');
        match find_char(line, ']') {
            Some(end) => {
                let rest = line.subrange(end + 1, line.len() as int);
                assert forall|i: int| 0 <= i < rest.len() implies rest[i] != c by {
                    assert(rest[i] == line[end + 1 + i]);
                }
                lemma_collect_tags_rest(rest, c);
            },
            None => {},
        }
    }
}

proof fn lemma_strip_raw_chars(s: Seq<char>, c: char)
    ensures
        no_char(s, c) ==> no_char(strip_raw(s), c),
        no_char(strip_raw(s), '<'),
    decreases s.len(),
{
    if s.len() > 0 {
        if s[0] == '<' {
            lemma_find_char(s.drop_first(), '>');
            match find_char(s.drop_first(), '>') {
                Some(j) => {
                    let t = s.subrange(j + 2, s.len() as int);
                    assert forall|i: int| 0 <= i < t.len() implies t[i] == s[j + 2 + i] by {}
                    lemma_strip_raw_chars(t, c);
                },
                None => {},
            }
        } else {
            let t = s.drop_first();
            lemma_strip_raw_chars(t, c);
            let r = strip_raw(s);
            assert(r == seq![s[0]] + strip_raw(t));
            assert forall|i: int| 0 <= i < r.len() implies r[i] != '<' by {
                if i > 0 {
                    assert(r[i] == strip_raw(t)[i - 1]);
                }
            }
            if no_char(s, c) {
                assert forall|i: int| 0 <= i < r.len() implies r[i] != c by {
                    if i > 0 {
                        assert(r[i] == strip_raw(t)[i - 1]);
                    }
                }
            }
        }
    }
}

proof fn lemma_ts_line_parsed(line: Seq<char>)
    requires
        no_char(line, '\n'),
    ensures
        spec_ts_line(line) matches Outcome::Done(Some(ls)) ==> parsed_lines(ls),
{
    lemma_collect_tags_rest(line, '\n');
    match collect_tags(line) {
        Outcome::Done(r) => {
            let text = trim(r.1);
            lemma_trim_no_char(r.1, '\n');
            if r.0.len() > 0 && !ver_tag(text) && find_char(text, '<') is Some {
                match spec_enhanced_words(text) {
                    Outcome::Done(Some(_)) => {
                        lemma_strip_raw_chars(text, '\n');
                        lemma_trim_no_char(strip_raw(text), '\n');
                        lemma_trim_no_char(strip_raw(text), '<');
                    },
                    _ => {},
                }
            }
        },
        Outcome::Panics => {},
    }
}

proof fn lemma_meta_entry_parsed(l: Seq<char>)
    requires
        no_char(l, '\n'),
        l.len() > 0,
        l[0] == '[',
    ensures
        meta_entry(l) matches Some(e) ==> parsed_value(Some(e.1)),
{
    if !has_infix(l, seq![']', '[']) {
        lemma_find_char(l, ']');
        match find_char(l, ']') {
            Some(end) => {
                assert(end >= 1);
                {
                    let tag = l.subrange(1, end);
                    lemma_find_char(tag, ':');
                    match find_char(tag, ':') {
                        Some(c) => {
                            let v = tag.subrange(c + 1, tag.len() as int);
                            assert forall|i: int| 0 <= i < v.len() implies v[i] != '\n' && v[i]
                                != ']' by {
                                assert(v[i] == l[1 + c + 1 + i]);
                            }
                            lemma_trim_no_char(v, '\n');
                            lemma_trim_no_char(v, ']');
                        },
                        None => {},
                    }
                }
            },
            None => {},
        }
    }
}

proof fn lemma_step_parsed(st: ParseState, raw: Seq<char>)
    requires
        parsed_state(st),
        no_char(raw, '\n'),
    ensures
        spec_step(st, raw) matches Outcome::Done(n) ==> parsed_state(n),
{
    reveal(spec_step);
    let l = trim(raw);
    lemma_trim_no_char(raw, '\n');
    if l.len() > 0 && l[0] == '[' {
        lemma_meta_entry_parsed(l);
    }
    lemma_ts_line_parsed(l);
    match spec_step(st, raw) {
        Outcome::Done(n) => {
            if n.lines != st.lines {
                match spec_ts_line(l) {
                    Outcome::Done(Some(ls)) => {
                        assert forall|i: int| 0 <= i < n.lines.len() implies #[trigger] parsed_line(
                            n.lines[i],
                        ) by {
                            if i < st.lines.len() {
                                assert(n.lines[i] == st.lines[i]);
                            } else {
                                assert(n.lines[i] == ls[i - st.lines.len()]);
                            }
                        }
                    },
                    _ => {},
                }
            }
        },
        Outcome::Panics => {},
    }
}

proof fn lemma_fold_parsed(st: ParseState, ls: Seq<Seq<char>>)
    requires
        parsed_state(st),
        forall|i: int| 0 <= i < ls.len() ==> no_char(#[trigger] ls[i], '\n'),
    ensures
        spec_fold(st, ls) matches Outcome::Done(n) ==> parsed_state(n),
    decreases ls.len(),
{
    if ls.len() > 0 {
        lemma_step_parsed(st, ls[0]);
        match spec_step(st, ls[0]) {
            Outcome::Done(next) => {
                assert forall|i: int| 0 <= i < ls.drop_first().len() implies no_char(
                    #[trigger] ls.drop_first()[i],
                    '\n',
                ) by {
                    assert(ls.drop_first()[i] == ls[i + 1]);
                }
                lemma_fold_parsed(next, ls.drop_first());
            },
            Outcome::Panics => {},
        }
    }
}

// ── sorting by time ──────────────────────────────────────────────────────

proof fn lemma_insert_by_time(s: Seq<LineView>, x: LineView)
    requires
        time_sorted(s),
    ensures
        time_sorted(insert_by_time(s, x)),
        insert_by_time(s, x).len() == s.len() + 1,
        insert_by_time(s, x).to_multiset() == s.to_multiset().insert(x),
        forall|k: int|
            0 <= k < insert_by_time(s, x).len() ==> #[trigger] insert_by_time(s, x)[k] == x || exists|
                j: int,
            | 0 <= j < s.len() && insert_by_time(s, x)[k] == s[j],
{
    lemma_ins_pos(s, x.time_ms);
    let p = ins_pos(s, x.time_ms);
    let r = s.insert(p, x);
    assert forall|i: int, j: int| 0 <= i <= j < r.len() implies r[i].time_ms <= r[j].time_ms by {
        if i < p && j < p {
        } else if i < p && j == p {
        } else if i < p {
            assert(r[j] == s[j - 1]);
        } else if i == p && j == p {
        } else if i == p {
            assert(r[j] == s[j - 1]);
            assert(s[p].time_ms <= s[j - 1].time_ms);
        } else {
            assert(r[i] == s[i - 1]);
            assert(r[j] == s[j - 1]);
        }
    }
    assert forall|k: int| 0 <= k < r.len() implies #[trigger] r[k] == x || exists|j: int|
        0 <= j < s.len() && r[k] == s[j] by {
        if k < p {
            assert(r[k] == s[k]);
        } else if k > p {
            assert(r[k] == s[k - 1]);
        }
    }
    broadcast use vstd::seq_lib::group_to_multiset_ensures;

    assert(r.remove(p) =~= s);
    assert(r.to_multiset().count(x) > 0) by {
        assert(r[p] == x);
        assert(r.contains(x));
    }
    assert(r.to_multiset() =~= s.to_multiset().insert(x));
}

/// Sorting by time gives lines in order of time, the same lines as before,
/// each line being one of the lines sorted.
pub proof fn lemma_sort_by_time(s: Seq<LineView>)
    ensures
        time_sorted(sort_by_time(s)),
        sort_by_time(s).len() == s.len(),
        sort_by_time(s).to_multiset() == s.to_multiset(),
        forall|k: int|
            0 <= k < s.len() ==> exists|j: int| 0 <= j < s.len() && #[trigger] sort_by_time(s)[k] == s[j],
    decreases s.len(),
{
    broadcast use vstd::seq_lib::group_to_multiset_ensures;

    if s.len() > 0 {
        let t = s.drop_last();
        lemma_sort_by_time(t);
        lemma_insert_by_time(sort_by_time(t), s.last());
        assert(s =~= t.push(s.last()));
        let r = sort_by_time(s);
        assert forall|k: int| 0 <= k < s.len() implies exists|j: int|
            0 <= j < s.len() && #[trigger] r[k] == s[j] by {
            if r[k] == s.last() {
                assert(r[k] == s[s.len() - 1]);
            } else {
                let j0 = choose|j: int| 0 <= j < t.len() && r[k] == sort_by_time(t)[j];
                let j1 = choose|j: int| 0 <= j < t.len() && sort_by_time(t)[j0] == t[j];
                assert(r[k] == s[j1]);
            }
        }
    } else {
        assert(s.to_multiset() =~= sort_by_time(s).to_multiset());
    }
}

/// The lines of a time, in their order.
pub open spec fn with_time(s: Seq<LineView>, t: u32) -> Seq<LineView> {
    s.filter(|l: LineView| l.time_ms == t)
}

proof fn lemma_with_time_none(s: Seq<LineView>, t: u32)
    requires
        forall|i: int| 0 <= i < s.len() ==> #[trigger] s[i].time_ms > t,
    ensures
        with_time(s, t) == Seq::<LineView>::empty(),
    decreases s.len(),
{
    reveal(Seq::filter);
    if s.len() > 0 {
        assert forall|i: int| 0 <= i < s.drop_last().len() implies #[trigger] s.drop_last()[i].time_ms
            > t by {
            assert(s.drop_last()[i] == s[i]);
        }
        lemma_with_time_none(s.drop_last(), t);
        assert(s.last().time_ms > t);
    }
}

proof fn lemma_with_time_one(x: LineView, t: u32)
    ensures
        with_time(seq![x], t) == (if x.time_ms == t {
            seq![x]
        } else {
            Seq::<LineView>::empty()
        }),
{
    reveal_with_fuel(Seq::filter, 2);
    assert(seq![x].drop_last() =~= Seq::<LineView>::empty());
    assert(seq![x].last() == x);
    assert(Seq::<LineView>::empty().push(x) =~= seq![x]);
}

/// Sorting by time is stable: the lines of each time come out in the order
/// they went in.
pub proof fn lemma_sort_stable(s: Seq<LineView>, t: u32)
    ensures
        with_time(sort_by_time(s), t) == with_time(s, t),
    decreases s.len(),
{
    broadcast use Seq::filter_distributes_over_add;

    if s.len() > 0 {
        let p = s.drop_last();
        let x = s.last();
        lemma_sort_stable(p, t);
        lemma_sort_by_time(p);
        let q = sort_by_time(p);
        lemma_ins_pos(q, x.time_ms);
        let k = ins_pos(q, x.time_ms);
        let a = q.take(k);
        let b = q.skip(k);
        assert(sort_by_time(s) =~= a + seq![x] + b);
        assert(q =~= a + b);
        assert(s =~= p + seq![x]);
        lemma_with_time_one(x, t);
        let f = |l: LineView| l.time_ms == t;
        assert(with_time(sort_by_time(s), t) == with_time(a, t) + with_time(seq![x], t) + with_time(
            b,
            t,
        )) by {
            assert((a + seq![x] + b).filter(f) == (a + seq![x]).filter(f) + b.filter(f));
            assert((a + seq![x]).filter(f) == a.filter(f) + seq![x].filter(f));
        }
        assert(with_time(q, t) == with_time(a, t) + with_time(b, t)) by {
            assert((a + b).filter(f) == a.filter(f) + b.filter(f));
        }
        assert(with_time(s, t) == with_time(p, t) + with_time(seq![x], t)) by {
            assert((p + seq![x]).filter(f) == p.filter(f) + seq![x].filter(f));
        }
        if x.time_ms == t {
            assert forall|i: int| 0 <= i < b.len() implies #[trigger] b[i].time_ms > t by {
                assert(b[i] == q[k + i]);
                assert(q[k].time_ms <= q[k + i].time_ms);
            }
            lemma_with_time_none(b, t);
            assert(with_time(a, t) + with_time(seq![x], t) + with_time(b, t) =~= with_time(a, t)
                + with_time(seq![x], t));
            assert(with_time(a, t) + with_time(b, t) =~= with_time(a, t));
        } else {
            assert(with_time(a, t) + with_time(seq![x], t) + with_time(b, t) =~= with_time(a, t)
                + with_time(b, t));
            assert(with_time(p, t) + with_time(seq![x], t) =~= with_time(p, t));
        }
    }
}

/// The timed lines of a file in the order they stand in it (one per time
/// tag), before sorting.
pub open spec fn source_lines(s: Seq<char>) -> Seq<LineView> {
    match spec_fold(ParseState { meta: empty_meta(), lines: Seq::empty() }, split_lines(strip_bom(s))) {
        Outcome::Done(st) => st.lines,
        Outcome::Panics => Seq::empty(),
    }
}

/// `parse_lrc` returns the lines of the file sorted by time, stably: the
/// same lines as stand in the file, and the lines of each time in the order
/// they stand there.
pub proof fn lemma_parse_lrc_stable(s: Seq<char>, t: u32)
    ensures
        spec_parse_lrc(s) matches Outcome::Done(f) ==> {
            &&& time_sorted(f.lines)
            &&& f.lines.to_multiset() == source_lines(s).to_multiset()
            &&& with_time(f.lines, t) == with_time(source_lines(s), t)
        },
{
    lemma_sort_by_time(source_lines(s));
    lemma_sort_stable(source_lines(s), t);
}

/// Lines already in order of time are left as they are by sorting.
pub proof fn lemma_sort_sorted_id(s: Seq<LineView>)
    requires
        time_sorted(s),
    ensures
        sort_by_time(s) == s,
    decreases s.len(),
{
    if s.len() > 0 {
        let t = s.drop_last();
        assert(time_sorted(t));
        lemma_sort_sorted_id(t);
        lemma_ins_pos(t, s.last().time_ms);
        let p = ins_pos(t, s.last().time_ms);
        if p < t.len() {
            assert(t[p] == s[p]);
        }
        assert(t.insert(t.len() as int, s.last()) =~= s);
    }
}

// ── writing and reading back ─────────────────────────────────────────────

/// A line as it reads back from LRC text: its time, its display text, no
/// word timings.
pub open spec fn cached_line(l: LineView) -> LineView {
    LineView { time_ms: l.time_ms, text: l.text, words: None }
}

proof fn lemma_time_parts(t: u32)
    ensures
        (t / 60000) * 60000 + ((t % 60000) / 1000) * 1000 + ((t % 1000) / 10) * 10 == (t / 10)
            * 10,
        (t % 60000) / 1000 < 60,
        (t % 1000) / 10 < 100,
        (t / 10) * 10 <= t,
        (t / 60000) * 60000 + ((t % 60000) / 1000) * 1000 + t % 1000 == t,
        t % 10 == 0 ==> ((t % 1000) / 10) * 10 == t % 1000,
{
    let x = t as int;
    assert(x == 60000 * (x / 60000) + x % 60000) by (nonlinear_arith);
    let r = x % 60000;
    assert(0 <= r < 60000);
    assert(r == 1000 * (r / 1000) + r % 1000) by (nonlinear_arith);
    let r2 = r % 1000;
    assert(0 <= r2 < 1000);
    assert(x == 1000 * (60 * (x / 60000) + r / 1000) + r2);
    assert(x % 1000 == r2) by (nonlinear_arith)
        requires
            x == 1000 * (60 * (x / 60000) + r / 1000) + r2,
            0 <= r2 < 1000,
    ;
    assert(r2 == 10 * (r2 / 10) + r2 % 10) by (nonlinear_arith);
    assert(x == 10 * (6000 * (x / 60000) + 100 * (r / 1000) + r2 / 10) + r2 % 10);
    assert(x / 10 == 6000 * (x / 60000) + 100 * (r / 1000) + r2 / 10) by (nonlinear_arith)
        requires
            x == 10 * (6000 * (x / 60000) + 100 * (r / 1000) + r2 / 10) + r2 % 10,
            0 <= r2 % 10 < 10,
    ;
}

proof fn lemma_no_char_concat(a: Seq<char>, b: Seq<char>, c: char)
    requires
        no_char(a, c),
        no_char(b, c),
    ensures
        no_char(a + b, c),
{
    assert forall|i: int| 0 <= i < (a + b).len() implies (a + b)[i] != c by {
        if i >= a.len() {
            assert((a + b)[i] == b[i - a.len()]);
        }
    }
}

/// The first `c` of `p + [c] + r` is the one after `p` when `p` holds none.
proof fn lemma_find_after(p: Seq<char>, c: char, r: Seq<char>)
    requires
        no_char(p, c),
    ensures
        find_char(p + seq![c] + r, c) == Some(p.len() as int),
        (p + seq![c] + r).subrange(0, p.len() as int) == p,
        (p + seq![c] + r).subrange(p.len() as int + 1, (p + seq![c] + r).len() as int) == r,
{
    let y = p + seq![c] + r;
    assert forall|j: int| 0 <= j < p.len() implies y[j] != c by {
        assert(y[j] == p[j]);
    }
    lemma_find_char_at(y, c, p.len() as int);
    assert(y.subrange(0, p.len() as int) =~= p);
    assert(y.subrange(p.len() as int + 1, y.len() as int) =~= r);
}

proof fn lemma_digits_text(d: Seq<char>)
    requires
        all_digits(d),
    ensures
        no_char(d, ':'),
        no_char(d, '.'),
        no_char(d, ']'),
        no_char(d, '['),
        no_char(d, '\n'),
        utf8_len_seq(d) == d.len(),
        d.len() > 0 ==> !is_ws(d[0]) && !is_ws(d.last()),
    decreases d.len(),
{
    assert forall|i: int| 0 <= i < d.len() implies d[i] != ':' && d[i] != '.' && d[i] != ']'
        && d[i] != '[' && d[i] != '\n' by {
        assert(is_digit(d[i]));
    }
    if d.len() > 0 {
        assert(is_digit(d[0]));
        assert(is_digit(d[d.len() - 1]));
        assert(all_digits(d.drop_last())) by {
            assert forall|i: int| 0 <= i < d.drop_last().len() implies #[trigger] is_digit(
                d.drop_last()[i],
            ) by {
                assert(d.drop_last()[i] == d[i]);
            }
        }
        lemma_digits_text(d.drop_last());
    }
}

proof fn lemma_dec2_short(n: nat)
    requires
        n < 100,
    ensures
        dec2(n).len() == 2,
{
    reveal_with_fuel(dec, 2);
}

/// The fraction written in a time tag is digits and reads back as the
/// milliseconds of the time within its second.
proof fn lemma_frac_text(t: u32)
    ensures
        all_digits(frac_text(t)),
        frac_text(t).len() >= 2,
        frac_ms(frac_text(t)) == Outcome::Done((t % 1000) as nat),
{
    lemma_time_parts(t);
    if t % 10 == 0 {
        let c = ((t % 1000) / 10) as nat;
        lemma_parse_dec2(c);
        lemma_dec2_short(c);
        lemma_digits_text(dec2(c));
        assert(parse_or_zero(dec2(c)) == c);
        assert(frac_ms(dec2(c)) == Outcome::Done(c * 10));
    } else {
        let c = (t % 1000) as nat;
        let d = dec3(c);
        lemma_parse_dec3(c);
        lemma_digits_text(d);
        assert(is_digit(d[0]) && is_digit(d[1]) && is_digit(d[2]));
        assert(utf8_len(d[0]) == 1 && utf8_len(d[1]) == 1 && utf8_len(d[2]) == 1);
        assert(d.subrange(0, 3) =~= d);
        assert(parse_or_zero(d) == c);
        assert(frac_ms(d) == Outcome::Done(c));
    }
}

/// `mm:ss.` and the fraction of a time tag read back as the time.
proof fn lemma_parse_time_text(t: u32)
    ensures
        spec_parse_timestamp(
            dec2((t / 60000) as nat) + seq![':'] + dec2(((t % 60000) / 1000) as nat) + seq!['.']
                + frac_text(t),
        ) == Outcome::Done(Some(t)),
{
    let a = (t / 60000) as nat;
    let b = ((t % 60000) / 1000) as nat;
    lemma_time_parts(t);
    let da = dec2(a);
    let db = dec2(b);
    let dc = frac_text(t);
    lemma_parse_dec2(a);
    lemma_parse_dec2(b);
    lemma_frac_text(t);
    lemma_digits_text(da);
    lemma_digits_text(db);
    lemma_digits_text(dc);
    let r = db + seq!['.'] + dc;
    let s = da + seq![':'] + db + seq!['.'] + dc;
    assert(s =~= da + seq![':'] + r);
    lemma_find_after(da, ':', r);
    lemma_find_after(db, '.', dc);
}

/// A time tag followed by a text that reads as no further time tags reads as
/// that one time and the text.
proof fn lemma_collect_time_tag(t: u32, text: Seq<char>)
    requires
        collect_tags(text) == Outcome::Done((Seq::<u32>::empty(), text)),
    ensures
        collect_tags(time_tag(t) + text) == Outcome::Done((seq![t], text)),
{
    let a = (t / 60000) as nat;
    let b = ((t % 60000) / 1000) as nat;
    lemma_time_parts(t);
    lemma_parse_time_text(t);
    let c = frac_text(t);
    let inner = dec2(a) + seq![':'] + dec2(b) + seq!['.'] + c;
    lemma_parse_dec2(a);
    lemma_parse_dec2(b);
    lemma_frac_text(t);
    lemma_digits_text(dec2(a));
    lemma_digits_text(dec2(b));
    lemma_digits_text(c);
    let p = seq!['['] + inner;
    assert(no_char(p, ']')) by {
        assert(no_char(seq!['['], ']'));
        assert(no_char(seq![':'], ']'));
        assert(no_char(seq!['.'], ']'));
        lemma_no_char_concat(seq!['['], dec2(a), ']');
        lemma_no_char_concat(seq!['['] + dec2(a), seq![':'], ']');
        lemma_no_char_concat(seq!['['] + dec2(a) + seq![':'], dec2(b), ']');
        lemma_no_char_concat(seq!['['] + dec2(a) + seq![':'] + dec2(b), seq!['.'], ']');
        lemma_no_char_concat(seq!['['] + dec2(a) + seq![':'] + dec2(b) + seq!['.'], c, ']');
        assert(p =~= seq!['['] + dec2(a) + seq![':'] + dec2(b) + seq!['.'] + c);
    }
    let y = time_tag(t) + text;
    assert(y =~= p + seq![']'] + text);
    lemma_find_after(p, ']', text);
    assert(y.subrange(1, p.len() as int) =~= inner);
    assert(seq![t] + Seq::<u32>::empty() =~= seq![t]);
}

/// The shape of a time tag: `[`, the minutes' digits, `:`, more text without
/// `]`, then `]`.
proof fn lemma_time_tag_shape(t: u32) -> (parts: (Seq<char>, Seq<char>))
    ensures
        time_tag(t) == seq!['['] + parts.0 + seq![':'] + parts.1 + seq![']'],
        all_digits(parts.0),
        parts.0.len() >= 1,
        no_char(parts.1, ']'),
        no_char(parts.1, '\n'),
{
    let a = (t / 60000) as nat;
    let b = ((t % 60000) / 1000) as nat;
    let c = frac_text(t);
    lemma_parse_dec2(a);
    lemma_parse_dec2(b);
    lemma_frac_text(t);
    lemma_digits_text(dec2(b));
    lemma_digits_text(c);
    let r = dec2(b) + seq!['.'] + c;
    assert(no_char(seq!['.'], ']'));
    assert(no_char(seq!['.'], '\n'));
    lemma_no_char_concat(dec2(b), seq!['.'], ']');
    lemma_no_char_concat(dec2(b) + seq!['.'], c, ']');
    lemma_no_char_concat(dec2(b), seq!['.'], '\n');
    lemma_no_char_concat(dec2(b) + seq!['.'], c, '\n');
    assert(time_tag(t) =~= seq!['['] + dec2(a) + seq![':'] + r + seq![']']);
    (dec2(a), r)
}

/// A line that starts with a time tag carries no metadata.
#[verifier::spinoff_prover]
#[verifier::rlimit(30)]
proof fn lemma_timed_no_meta(t: u32, text: Seq<char>, m: MetaView)
    ensures
        meta_entry(time_tag(t) + text) matches Some(e) ==> apply_meta(m, e.0, e.1) is None,
{
    let y = time_tag(t) + text;
    let (d, r) = lemma_time_tag_shape(t);
    lemma_digits_text(d);
    let inner = d + seq![':'] + r;
    let p = seq!['['] + inner;
    assert(no_char(p, ']')) by {
        assert(no_char(seq!['['], ']'));
        assert(no_char(seq![':'], ']'));
        lemma_no_char_concat(seq!['['], d, ']');
        lemma_no_char_concat(seq!['['] + d, seq![':'], ']');
        lemma_no_char_concat(seq!['['] + d + seq![':'], r, ']');
        assert(p =~= seq!['['] + d + seq![':'] + r);
    }
    assert(y =~= p + seq![']'] + text);
    lemma_find_after(p, ']', text);
    assert(y.subrange(1, p.len() as int) =~= inner);
    lemma_find_after(d, ':', r);
    assert(is_digit(d[0]));
    match meta_entry(y) {
        Some(e) => {
            assert(e.0 == d);
            assert(e.0[0] != 't' && e.0[0] != 'a' && e.0[0] != 'o');
            assert(e.0 != seq!['t', 'i']);
            assert(e.0 != seq!['a', 'r']);
            assert(e.0 != seq!['a', 'l']);
            assert(e.0 != seq!['o', 'f', 'f', 's', 'e', 't']);
        },
        None => {},
    }
}

/// The line `[mm:ss.cc]text` written for a parsed line reads as one line,
/// `cached_line` of it.
proof fn lemma_timed_line(l: LineView)
    requires
        parsed_line(l),
        plain_start(l.text),
    ensures
        spec_ts_line(time_tag(l.time_ms) + l.text) == Outcome::Done(Some(seq![cached_line(l)])),
{
    let t = l.time_ms;
    let text = l.text;
    lemma_trim_id(text);
    lemma_collect_time_tag(t, text);
    assert(!ver_tag(text));
    lemma_find_char(text, '<');
    if find_char(text, '<') is Some {
        assert(l.words is None);
        assert(spec_enhanced_words(text) == Outcome::Done(None::<Seq<WordView>>));
    }
    match spec_ts_line(time_tag(t) + text) {
        Outcome::Done(Some(ls)) => {
            assert(ls.len() == 1);
            assert(ls[0] == cached_line(l));
            assert(ls =~= seq![cached_line(l)]);
        },
        _ => {},
    }
}

/// Reading the line `[mm:ss.cc]text` written for a parsed line adds that
/// line back, as `cached_line` says.
proof fn lemma_step_timed(st: ParseState, l: LineView)
    requires
        parsed_line(l),
        plain_start(l.text),
    ensures
        spec_step(st, time_tag(l.time_ms) + l.text) == Outcome::Done(
            ParseState { meta: st.meta, lines: st.lines.push(cached_line(l)) },
        ),
{
    reveal(spec_step);
    let y = time_tag(l.time_ms) + l.text;
    let (d, r) = lemma_time_tag_shape(l.time_ms);
    assert(y[0] == '[');
    if l.text.len() > 0 {
        assert(y.last() == l.text.last());
    } else {
        assert(y.last() == ']');
    }
    lemma_trim_id(y);
    lemma_timed_no_meta(l.time_ms, l.text, st.meta);
    lemma_timed_line(l);
    assert(st.lines + seq![cached_line(l)] =~= st.lines.push(cached_line(l)));
}

/// Reading the metadata line `[key:value]` sets that metadata.
proof fn lemma_step_tag(st: ParseState, key: Seq<char>, value: Seq<char>)
    requires
        key == seq!['t', 'i'] || key == seq!['a', 'r'] || key == seq!['a', 'l'] || key == seq![
            'o',
            'f',
            'f',
            's',
            'e',
            't',
        ],
        no_char(value, ']'),
        trimmed_text(value),
    ensures
        apply_meta(st.meta, key, value) is Some,
        spec_step(st, seq!['['] + key + seq![':'] + value + seq![']']) == Outcome::Done(
            ParseState { meta: apply_meta(st.meta, key, value)->0, lines: st.lines },
        ),
{
    reveal(spec_step);
    let x = seq!['['] + key + seq![':'] + value + seq![']'];
    let q = seq!['['] + key + seq![':'] + value;
    assert(no_char(key, ']'));
    assert(no_char(key, ':'));
    assert(no_char(q, ']')) by {
        assert(no_char(seq!['['], ']'));
        assert(no_char(seq![':'], ']'));
        lemma_no_char_concat(seq!['['], key, ']');
        lemma_no_char_concat(seq!['['] + key, seq![':'], ']');
        lemma_no_char_concat(seq!['['] + key + seq![':'], value, ']');
    }
    assert(x =~= q + seq![']'] + Seq::<char>::empty());
    assert(x[0] == '[');
    assert(x.last() == ']');
    lemma_trim_id(x);
    assert forall|i: int| !occurs_at(x, seq![']', '['], i) by {
        if occurs_at(x, seq![']', '['], i) {
            assert(x.subrange(i, i + 2)[0] == x[i]);
            if i < q.len() {
                assert(x[i] == q[i]);
            }
        }
    }
    lemma_find_after(q, ']', Seq::<char>::empty());
    let tag = key + seq![':'] + value;
    assert(x.subrange(1, q.len() as int) =~= tag);
    lemma_find_after(key, ':', value);
    lemma_trim_id(value);
}

proof fn lemma_fold_cons(st: ParseState, x: Seq<char>, r: Seq<char>)
    requires
        no_char(x, '\n'),
    ensures
        spec_fold(st, split_lines(x + seq!['\n'] + r)) == match spec_step(st, x) {
            Outcome::Panics => Outcome::Panics,
            Outcome::Done(next) => spec_fold(next, split_lines(r)),
        },
{
    let y = x + seq!['\n'] + r;
    lemma_find_after(x, '\n', r);
    lemma_split_next(y);
    let ls = split_lines(y);
    assert(ls[0] == x);
    assert(ls.drop_first() =~= split_lines(r));
    lemma_fold_first(st, ls);
}

proof fn lemma_fold_end(st: ParseState)
    ensures
        spec_fold(st, split_lines(Seq::empty())) == Outcome::Done(st),
{
    reveal(spec_step);
    lemma_split_next(Seq::<char>::empty());
    let ls = split_lines(Seq::<char>::empty());
    assert(ls.drop_first() =~= Seq::<Seq<char>>::empty());
    lemma_fold_first(st, ls);
    assert(trim(Seq::<char>::empty()) =~= Seq::<char>::empty());
}

proof fn lemma_lines_text_front(ls: Seq<LineView>)
    requires
        ls.len() > 0,
    ensures
        lines_text(ls) == line_text(ls[0]) + lines_text(ls.drop_first()),
    decreases ls.len(),
{
    if ls.len() == 1 {
        assert(ls.drop_last() =~= Seq::<LineView>::empty());
        assert(ls.drop_first() =~= Seq::<LineView>::empty());
        assert(lines_text(ls.drop_last()) == Seq::<char>::empty());
        assert(lines_text(ls.drop_first()) == Seq::<char>::empty());
        assert(ls.last() == ls[0]);
        assert(lines_text(ls) =~= line_text(ls[0]) + lines_text(ls.drop_first()));
    } else {
        lemma_lines_text_front(ls.drop_last());
        assert(ls.drop_last().drop_first() =~= ls.drop_first().drop_last());
        assert(ls.drop_first().last() == ls.last());
        assert(ls.drop_last()[0] == ls[0]);
    }
}

/// The lines that `lines_text(ls)` reads as.
pub open spec fn written_lines(ls: Seq<LineView>) -> Seq<LineView> {
    ls.map_values(|l: LineView| cached_line(l))
}

/// A text that may follow a time tag in written LRC and read back as itself:
/// it reads as no further time tags, and it is not a `[ver:...]` tag, which a
/// timed line never shows.
pub open spec fn plain_start(t: Seq<char>) -> bool {
    &&& collect_tags(t) == Outcome::Done((Seq::<u32>::empty(), t))
    &&& !ver_tag(t)
}

proof fn lemma_fold_lines(st: ParseState, ls: Seq<LineView>)
    requires
        parsed_lines(ls),
        forall|i: int| 0 <= i < ls.len() ==> plain_start(#[trigger] ls[i].text),
    ensures
        spec_fold(st, split_lines(lines_text(ls))) == Outcome::Done(
            ParseState { meta: st.meta, lines: st.lines + written_lines(ls) },
        ),
    decreases ls.len(),
{
    if ls.len() == 0 {
        lemma_fold_end(st);
        assert(st.lines + written_lines(ls) =~= st.lines);
    } else {
        let l = ls[0];
        assert(parsed_line(l));
        assert(plain_start(l.text));
        lemma_lines_text_front(ls);
        let x = time_tag(l.time_ms) + l.text;
        let (d, r) = lemma_time_tag_shape(l.time_ms);
        lemma_digits_text(d);
        assert(no_char(x, '\n')) by {
            assert(no_char(seq!['['], '\n'));
            assert(no_char(seq![':'], '\n'));
            assert(no_char(seq![']'], '\n'));
            lemma_no_char_concat(seq!['['], d, '\n');
            lemma_no_char_concat(seq!['['] + d, seq![':'], '\n');
            lemma_no_char_concat(seq!['['] + d + seq![':'], r, '\n');
            lemma_no_char_concat(seq!['['] + d + seq![':'] + r, seq![']'], '\n');
            lemma_no_char_concat(time_tag(l.time_ms), l.text, '\n');
        }
        assert(lines_text(ls) =~= x + seq!['\n'] + lines_text(ls.drop_first()));
        lemma_fold_cons(st, x, lines_text(ls.drop_first()));
        lemma_step_timed(st, l);
        let next = ParseState { meta: st.meta, lines: st.lines.push(cached_line(l)) };
        let rest = ls.drop_first();
        assert forall|i: int| 0 <= i < rest.len() implies plain_start(#[trigger] rest[i].text)
            && parsed_line(rest[i]) by {
            assert(rest[i] == ls[i + 1]);
        }
        lemma_fold_lines(next, rest);
        assert(st.lines.push(cached_line(l)) + written_lines(rest) =~= st.lines + written_lines(
            ls,
        ));
    }
}

/// What `parse_lrc` returns: the lines in order of time, each text trimmed
/// and on one line; metadata values trimmed, on one line and without `]`.
pub proof fn lemma_parse_lrc_output(s: Seq<char>)
    ensures
        spec_parse_lrc(s) matches Outcome::Done(f) ==> time_sorted(f.lines) && parsed_meta(
            f.metadata,
        ) && parsed_lines(f.lines),
{
    let init = ParseState { meta: empty_meta(), lines: Seq::empty() };
    let ls = split_lines(strip_bom(s));
    lemma_split_lines_no_nl(strip_bom(s));
    lemma_fold_parsed(init, ls);
    match spec_fold(init, ls) {
        Outcome::Done(st) => {
            lemma_sort_by_time(st.lines);
            let r = sort_by_time(st.lines);
            assert forall|k: int| 0 <= k < r.len() implies #[trigger] parsed_line(r[k]) by {
                let j = choose|j: int| 0 <= j < st.lines.len() && r[k] == st.lines[j];
                assert(parsed_line(st.lines[j]));
            }
        },
        Outcome::Panics => {},
    }
}

proof fn lemma_dec_i32_text(o: i32)
    ensures
        no_char(dec_i32(o), ']'),
        no_char(dec_i32(o), '\n'),
        trimmed_text(dec_i32(o)),
        parse_i32(dec_i32(o)) == Some(o),
{
    lemma_parse_dec_i32(o);
    if o < 0 {
        let n = (0 - o) as nat;
        lemma_dec_digits(n);
        lemma_digits_text(dec(n));
        assert(no_char(seq!['-'], ']'));
        assert(no_char(seq!['-'], '\n'));
        lemma_no_char_concat(seq!['-'], dec(n), ']');
        lemma_no_char_concat(seq!['-'], dec(n), '\n');
        assert(dec_i32(o).last() == dec(n).last());
    } else {
        lemma_dec_digits(o as nat);
        lemma_digits_text(dec(o as nat));
    }
}

proof fn lemma_fold_tag(st: ParseState, key: Seq<char>, value: Seq<char>, rest: Seq<char>)
    requires
        key == seq!['t', 'i'] || key == seq!['a', 'r'] || key == seq!['a', 'l'] || key == seq![
            'o',
            'f',
            'f',
            's',
            'e',
            't',
        ],
        no_char(value, ']'),
        no_char(value, '\n'),
        trimmed_text(value),
    ensures
        apply_meta(st.meta, key, value) is Some,
        spec_fold(st, split_lines(tag_line(key, value) + rest)) == spec_fold(
            ParseState { meta: apply_meta(st.meta, key, value)->0, lines: st.lines },
            split_lines(rest),
        ),
{
    let x = seq!['['] + key + seq![':'] + value + seq![']'];
    assert(no_char(key, '\n'));
    assert(no_char(x, '\n')) by {
        assert(no_char(seq!['['], '\n'));
        assert(no_char(seq![':'], '\n'));
        assert(no_char(seq![']'], '\n'));
        lemma_no_char_concat(seq!['['], key, '\n');
        lemma_no_char_concat(seq!['['] + key, seq![':'], '\n');
        lemma_no_char_concat(seq!['['] + key + seq![':'], value, '\n');
        lemma_no_char_concat(seq!['['] + key + seq![':'] + value, seq![']'], '\n');
    }
    assert(tag_line(key, value) + rest =~= x + seq!['\n'] + rest);
    lemma_fold_cons(st, x, rest);
    lemma_step_tag(st, key, value);
}

proof fn lemma_fold_opt_tag(
    st: ParseState,
    key: Seq<char>,
    value: Option<Seq<char>>,
    next: MetaView,
    rest: Seq<char>,
)
    requires
        key == seq!['t', 'i'] || key == seq!['a', 'r'] || key == seq!['a', 'l'] || key == seq![
            'o',
            'f',
            'f',
            's',
            'e',
            't',
        ],
        value matches Some(v) ==> no_char(v, ']') && no_char(v, '\n') && trimmed_text(v)
            && apply_meta(st.meta, key, v) == Some(next),
        value is None ==> next == st.meta,
    ensures
        spec_fold(st, split_lines(opt_tag(key, value) + rest)) == spec_fold(
            ParseState { meta: next, lines: st.lines },
            split_lines(rest),
        ),
{
    match value {
        Some(v) => lemma_fold_tag(st, key, v, rest),
        None => assert(opt_tag(key, value) + rest =~= rest),
    }
}

/// Reading the written metadata tags, then written lines, gives the metadata
/// and the lines back.
proof fn lemma_fold_written(m: MetaView, ls: Seq<LineView>)
    requires
        parsed_meta(m),
        parsed_lines(ls),
        forall|i: int| 0 <= i < ls.len() ==> plain_start(#[trigger] ls[i].text),
    ensures
        spec_fold(
            ParseState { meta: empty_meta(), lines: Seq::empty() },
            split_lines(meta_text(m) + lines_text(ls)),
        ) == Outcome::Done(ParseState { meta: m, lines: written_lines(ls) }),
{
    let l = lines_text(ls);
    let ti = seq!['t', 'i'];
    let ar = seq!['a', 'r'];
    let al = seq!['a', 'l'];
    let off = seq!['o', 'f', 'f', 's', 'e', 't'];
    let tp = opt_tag(ti, m.title);
    let ap = opt_tag(ar, m.artist);
    let bp = opt_tag(al, m.album);
    let op = opt_tag(off, offset_value(m.offset_ms));
    assert(meta_text(m) + l =~= tp + (ap + (bp + (op + l))));
    let e = Seq::<LineView>::empty();
    let m0 = empty_meta();
    let m1 = MetaView { title: m.title, artist: None, album: None, offset_ms: 0 };
    let m2 = MetaView { title: m.title, artist: m.artist, album: None, offset_ms: 0 };
    let m3 = MetaView { title: m.title, artist: m.artist, album: m.album, offset_ms: 0 };
    lemma_fold_opt_tag(ParseState { meta: m0, lines: e }, ti, m.title, m1, ap + (bp + (op + l)));
    lemma_fold_opt_tag(ParseState { meta: m1, lines: e }, ar, m.artist, m2, bp + (op + l));
    lemma_fold_opt_tag(ParseState { meta: m2, lines: e }, al, m.album, m3, op + l);
    if m.offset_ms != 0 {
        lemma_dec_i32_text(m.offset_ms);
    }
    lemma_fold_opt_tag(ParseState { meta: m3, lines: e }, off, offset_value(m.offset_ms), m, l);
    lemma_fold_lines(ParseState { meta: m, lines: e }, ls);
    assert(e + written_lines(ls) =~= written_lines(ls));
}

pub open spec fn bracket_start(x: Seq<char>) -> bool {
    x.len() == 0 || x[0] == '['
}

proof fn lemma_bracket_concat(a: Seq<char>, b: Seq<char>)
    requires
        bracket_start(a),
        bracket_start(b),
    ensures
        bracket_start(a + b),
{
    if a.len() == 0 {
        assert(a + b =~= b);
    }
}

proof fn lemma_written_sorted(ls: Seq<LineView>)
    requires
        time_sorted(ls),
    ensures
        time_sorted(written_lines(ls)),
{
    let w = written_lines(ls);
    assert forall|i: int, j: int| 0 <= i <= j < w.len() implies w[i].time_ms <= w[j].time_ms by {
        assert(w[i].time_ms == ls[i].time_ms && w[j].time_ms == ls[j].time_ms);
    }
}

/// Lyrics whose metadata and lines look as the parser leaves them, and whose
/// texts do not read as further tags (`plain_start`), read back from their LRC text as the same
/// metadata and the same lines, with the same times, in the same order,
/// without word timings.
pub proof fn lemma_write_read(f: FileView)
    requires
        parsed_meta(f.metadata),
        parsed_lines(f.lines),
        time_sorted(f.lines),
        forall|i: int| 0 <= i < f.lines.len() ==> plain_start(#[trigger] f.lines[i].text),
    ensures
        spec_parse_lrc(lrc_text(f)) == Outcome::Done(
            FileView { metadata: f.metadata, lines: written_lines(f.lines) },
        ),
{
    let m = f.metadata;
    let ls = f.lines;
    let x = lrc_text(f);
    // the written text starts with a tag, so no byte order mark is skipped
    assert(bracket_start(meta_text(m))) by {
        let tp = opt_tag(seq!['t', 'i'], m.title);
        let ap = opt_tag(seq!['a', 'r'], m.artist);
        let bp = opt_tag(seq!['a', 'l'], m.album);
        let op = opt_tag(seq!['o', 'f', 'f', 's', 'e', 't'], offset_value(m.offset_ms));
        lemma_bracket_concat(tp, ap);
        lemma_bracket_concat(tp + ap, bp);
        lemma_bracket_concat(tp + ap + bp, op);
    }
    assert(bracket_start(lines_text(ls))) by {
        if ls.len() > 0 {
            lemma_lines_text_front(ls);
        }
    }
    lemma_bracket_concat(meta_text(m), lines_text(ls));
    assert(strip_bom(x) == x);
    lemma_fold_written(m, ls);
    lemma_written_sorted(ls);
    lemma_sort_sorted_id(written_lines(ls));
}

/// Writing parsed lyrics with `lrcfile_to_string` and parsing the text
/// again gives back the same metadata and the same lines, with the same
/// times, in the same order, without word timings: for every file whose
/// lyric texts do not read as further tags after a time tag (`plain_start`).
pub proof fn lemma_lrc_roundtrip(s: Seq<char>)
    requires
        spec_parse_lrc(s) matches Outcome::Done(f) && forall|i: int|
            0 <= i < f.lines.len() ==> plain_start(#[trigger] f.lines[i].text),
    ensures
        spec_parse_lrc(s) matches Outcome::Done(f) && spec_parse_lrc(lrc_text(f)) == Outcome::Done(
            FileView { metadata: f.metadata, lines: written_lines(f.lines) },
        ),
{
    lemma_parse_lrc_output(s);
    lemma_write_read(spec_parse_lrc(s)->Done_0);
}

} // verus!
