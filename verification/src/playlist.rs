//! Playlists: tracks in order, a cursor on the current track, and the play
//! mode that decides which track comes next.
use vstd::prelude::*;

use crate::types::{lower_extension, track_format, PlayMode, TrackInfo};

verus! {

/// An ordered list of tracks with a cursor and a play mode.
#[derive(Debug, Clone)]
pub struct Playlist {
    pub name: String,
    pub items: Vec<TrackInfo>,
    pub play_mode: PlayMode,
    pub current_index: usize,
}

/// A uniformly random `usize` from `rand::random`. Nothing is promised of
/// the value: it is chance.
#[verifier::external_body]
fn random_usize() -> usize {
    rand::random::<usize>()
}

/// The next index in the modes that do not draw at random: none after the
/// last track in `Single` and `Sequential`, the same track in `LoopOne`, and
/// around to the first in `Loop`.
pub open spec fn fixed_next(mode: PlayMode, ci: usize, len: nat) -> Option<int> {
    if len == 0 {
        None
    } else {
        match mode {
            PlayMode::Single | PlayMode::Sequential => if ci + 1 >= len {
                None
            } else {
                Some(ci + 1)
            },
            PlayMode::LoopOne => Some(ci as int),
            PlayMode::Loop => Some((ci + 1) % (len as int)),
            PlayMode::Random => None,
        }
    }
}

/// `r` is a possible next index: the fixed one, or in `Random` mode a track
/// other than the current one (the current one when it is the only track).
pub open spec fn next_index_ok(mode: PlayMode, ci: usize, len: nat, r: Option<usize>) -> bool {
    if len == 0 {
        r is None
    } else if mode == PlayMode::Random {
        r matches Some(i) && if len <= 1 {
            i == ci
        } else {
            i < len && i != ci
        }
    } else {
        match r {
            Some(i) => fixed_next(mode, ci, len) == Some(i as int),
            None => fixed_next(mode, ci, len) is None,
        }
    }
}

/// The modes that step past the current track cannot do so from the last
/// `usize`.
pub open spec fn can_step(mode: PlayMode, ci: usize, len: nat) -> bool {
    len > 0 && mode != PlayMode::LoopOne && mode != PlayMode::Random ==> ci < usize::MAX
}

/// How many random numbers a Random-mode pick may draw.
pub const PICK_DRAWS: usize = 17;

/// The pick from draw `i` on: the first draw (taken modulo `len`) that is
/// not `current`, among the first `PICK_DRAWS` draws; else the index after
/// `current`.
pub open spec fn pick_from(len: usize, current: usize, draws: Seq<usize>, i: int) -> int
    decreases PICK_DRAWS - i,
{
    if i < 0 || i >= PICK_DRAWS || i >= draws.len() {
        (current + 1) % (len as int)
    } else if draws[i] % len != current {
        (draws[i] % len) as int
    } else {
        pick_from(len, current, draws, i + 1)
    }
}

/// A track other than `current` picked with the random numbers `draws`:
/// the current one when the list has at most one track.
pub open spec fn spec_pick_other(len: usize, current: usize, draws: Seq<usize>) -> int {
    if len <= 1 {
        current as int
    } else {
        pick_from(len, current, draws, 0)
    }
}

/// A pick from a list of more than one track with at least one draw is
/// another track on the list.
pub proof fn lemma_pick_other(len: usize, current: usize, draws: Seq<usize>, i: int)
    requires
        len > 1,
        0 <= i,
        draws.len() > 0,
        i > 0 ==> draws[i - 1] % len == current,
    ensures
        0 <= pick_from(len, current, draws, i) < len,
        pick_from(len, current, draws, i) != current,
    decreases PICK_DRAWS - i,
{
    if i >= PICK_DRAWS || i >= draws.len() {
        // the draw before `i` was `current`, so `current` is on the list
        assert(draws[i - 1] % len == current);
        if current + 1 < len {
            vstd::arithmetic::div_mod::lemma_small_mod((current + 1) as nat, len as nat);
        } else {
            vstd::arithmetic::div_mod::lemma_mod_self_0(len as int);
        }
    } else if draws[i] % len != current {
    } else {
        lemma_pick_other(len, current, draws, i + 1);
    }
}

/// The index a Random-mode pick lands on, given its random numbers: the
/// first draw (modulo `len`) that differs from `current`, among the first
/// `PICK_DRAWS`; else the index after `current`. The current index when the
/// list has at most one track.
pub fn pick_other_index(len: usize, current: usize, draws: &[usize]) -> (r: usize)
    requires
        len > 1 ==> draws@.len() > 0,
    ensures
        r == spec_pick_other(len, current, draws@),
{
    if len <= 1 {
        return current;
    }
    let mut i: usize = 0;
    while i < PICK_DRAWS && i < draws.len()
        invariant
            len > 1,
            draws@.len() > 0,
            i <= PICK_DRAWS,
            i > 0 ==> draws@[i - 1] % len == current,
            pick_from(len, current, draws@, 0) == pick_from(len, current, draws@, i as int),
        decreases PICK_DRAWS - i,
    {
        let c = draws[i] % len;
        if c != current {
            return c;
        }
        i = i + 1;
    }
    let k = if i == 0 { 0 } else { i - 1 };
    assert(draws@[k as int] % len == current);
    (current + 1) % len
}

/// Where the cursor goes when the track at `from` moves to `to`: it keeps
/// pointing at the same track.
pub open spec fn moved_index(ci: usize, from: usize, to: usize) -> usize {
    if ci == from {
        to
    } else if from < ci && to >= ci {
        (ci - 1) as usize
    } else if from > ci && to <= ci {
        (ci + 1) as usize
    } else {
        ci
    }
}

/// Where `insert_path` puts `x`: after every path that is not after it.
pub open spec fn path_ins_pos(s: Seq<Seq<char>>, x: Seq<char>) -> int
    decreases s.len(),
{
    if s.len() == 0 || !crate::paths::path_le(s[0], x) {
        0
    } else {
        1 + path_ins_pos(s.drop_first(), x)
    }
}

/// Paths sorted by insertion in the order of `std::path::Path`; paths that
/// compare equal keep their order.
pub open spec fn sort_paths(s: Seq<Seq<char>>) -> Seq<Seq<char>>
    decreases s.len(),
{
    if s.len() == 0 {
        s
    } else {
        let t = sort_paths(s.drop_last());
        t.insert(path_ins_pos(t, s.last()), s.last())
    }
}

pub open spec fn string_views(v: Seq<String>) -> Seq<Seq<char>> {
    v.map_values(|s: String| s@)
}

/// The extensions of the audio files that a folder scan adds.
pub open spec fn audio_extension(e: Seq<char>) -> bool {
    ||| e == "flac"@ || e == "mp3"@ || e == "wav"@ || e == "ape"@ || e == "tak"@
    ||| e == "ogg"@ || e == "opus"@ || e == "m4a"@ || e == "aac"@ || e == "alac"@
    ||| e == "wma"@ || e == "mpc"@ || e == "ac3"@ || e == "dts"@ || e == "eac3"@
    ||| e == "mod"@ || e == "xm"@ || e == "s3m"@ || e == "it"@
}

/// Whether a lower-cased extension is one of the audio files that a folder
/// scan adds.
pub fn is_audio_extension(ext: &str) -> (b: bool)
    ensures
        b == audio_extension(ext@),
{
    let exts = [
        "flac", "mp3", "wav", "ape", "tak", "ogg", "opus", "m4a", "aac", "alac", "wma", "mpc",
        "ac3", "dts", "eac3", "mod", "xm", "s3m", "it",
    ];
    let mut i: usize = 0;
    let mut found = false;
    while i < 19
        invariant
            i <= 19,
            exts@.len() == 19,
            found == exists|j: int| 0 <= j < i && ext@ == exts@[j]@,
            forall|j: int|
                0 <= j < 19 ==> exts@[j]@ == seq![
                    "flac"@,
                    "mp3"@,
                    "wav"@,
                    "ape"@,
                    "tak"@,
                    "ogg"@,
                    "opus"@,
                    "m4a"@,
                    "aac"@,
                    "alac"@,
                    "wma"@,
                    "mpc"@,
                    "ac3"@,
                    "dts"@,
                    "eac3"@,
                    "mod"@,
                    "xm"@,
                    "s3m"@,
                    "it"@,
                ][j],
        decreases 19 - i,
    {
        if crate::text::str_eq(ext, exts[i]) {
            found = true;
        }
        i = i + 1;
    }
    proof {
        let names = seq![
            "flac"@,
            "mp3"@,
            "wav"@,
            "ape"@,
            "tak"@,
            "ogg"@,
            "opus"@,
            "m4a"@,
            "aac"@,
            "alac"@,
            "wma"@,
            "mpc"@,
            "ac3"@,
            "dts"@,
            "eac3"@,
            "mod"@,
            "xm"@,
            "s3m"@,
            "it"@,
        ];
        if audio_extension(ext@) {
            let j = choose|j: int| 0 <= j < 19 && ext@ == names[j];
            assert(ext@ == exts@[j]@);
        }
        if found {
            let j = choose|j: int| 0 <= j < 19 && ext@ == exts@[j]@;
            assert(ext@ == names[j]);
        }
    }
    found
}

/// The entry a path is added as: the path, its format by extension, and no
/// tags, length or size yet.
pub open spec fn fresh_track(t: TrackInfo, path: Seq<char>) -> bool {
    &&& t.path@ == path
    &&& t.format == track_format(lower_extension(path))
    &&& t.metadata.is_blank()
    &&& t.duration_ms == 0
    &&& t.file_size == 0
}

impl Playlist {
    pub fn new(name: &str) -> (p: Self)
        ensures
            p.name@ == name@,
            p.items@.len() == 0,
            p.play_mode == PlayMode::Sequential,
            p.current_index == 0,
    {
        Playlist {
            name: name.to_owned(),
            items: Vec::new(),
            play_mode: PlayMode::Sequential,
            current_index: 0,
        }
    }

    /// Append the track at `path`.
    pub fn add_file(&mut self, path: &str)
        ensures
            final(self).items@.len() == old(self).items@.len() + 1,
            final(self).items@.drop_last() == old(self).items@,
            fresh_track(final(self).items@.last(), path@),
            final(self).name == old(self).name,
            final(self).play_mode == old(self).play_mode,
            final(self).current_index == old(self).current_index,
    {
        let info = TrackInfo::from_path(path);
        self.items.push(info);
        assert(self.items@.drop_last() =~= old(self).items@);
    }

    /// Append the tracks at `paths`, in order.
    pub fn add_files(&mut self, paths: &[String])
        ensures
            final(self).items@.len() == old(self).items@.len() + paths@.len(),
            final(self).items@.take(old(self).items@.len() as int) == old(self).items@,
            forall|i: int|
                0 <= i < paths@.len() ==> fresh_track(
                    #[trigger] final(self).items@[old(self).items@.len() + i],
                    paths@[i]@,
                ),
            final(self).name == old(self).name,
            final(self).play_mode == old(self).play_mode,
            final(self).current_index == old(self).current_index,
    {
        let ghost n0 = self.items@.len();
        let mut i: usize = 0;
        while i < paths.len()
            invariant
                i <= paths@.len(),
                n0 == old(self).items@.len(),
                self.items@.len() == n0 + i,
                self.items@.take(n0 as int) == old(self).items@,
                forall|k: int| 0 <= k < i ==> fresh_track(#[trigger] self.items@[n0 + k], paths@[k]@),
                self.name == old(self).name,
                self.play_mode == old(self).play_mode,
                self.current_index == old(self).current_index,
            decreases paths@.len() - i,
        {
            let ghost before = self.items@;
            self.add_file(paths[i].as_str());
            assert(self.items@.take(n0 as int) =~= before.take(n0 as int));
            assert forall|k: int| 0 <= k < i + 1 implies fresh_track(
                #[trigger] self.items@[n0 + k],
                paths@[k]@,
            ) by {
                if k < i {
                    assert(self.items@[n0 + k] == before[n0 + k]);
                }
            }
            i = i + 1;
        }
    }

    /// Remove the track at `index` (ignored when out of range); the cursor
    /// is pulled back onto the list when it falls off the end.
    pub fn remove(&mut self, index: usize)
        ensures
            index < old(self).items@.len() ==> final(self).items@ == old(self).items@.remove(
                index as int,
            ) && final(self).current_index == if old(self).current_index >= final(self).items@.len() {
                if final(self).items@.len() == 0 {
                    0
                } else {
                    (final(self).items@.len() - 1) as usize
                }
            } else {
                old(self).current_index
            },
            index >= old(self).items@.len() ==> final(self).items@ == old(self).items@
                && final(self).current_index == old(self).current_index,
            final(self).name == old(self).name,
            final(self).play_mode == old(self).play_mode,
    {
        if index < self.items.len() {
            self.items.remove(index);
            if self.current_index >= self.items.len() {
                self.current_index = if self.items.len() == 0 {
                    0
                } else {
                    self.items.len() - 1
                };
            }
        }
    }

    /// Move a track from `from` to `to`; the cursor keeps following the same
    /// track. Out-of-range indices, and `from == to`, change nothing.
    pub fn move_item(&mut self, from: usize, to: usize)
        ensures
            from < old(self).items@.len() && to < old(self).items@.len() && from != to ==> {
                &&& final(self).items@ == old(self).items@.remove(from as int).insert(
                    to as int,
                    old(self).items@[from as int],
                )
                &&& final(self).current_index == moved_index(old(self).current_index, from, to)
            },
            !(from < old(self).items@.len() && to < old(self).items@.len() && from != to) ==> {
                &&& final(self).items@ == old(self).items@
                &&& final(self).current_index == old(self).current_index
            },
            final(self).name == old(self).name,
            final(self).play_mode == old(self).play_mode,
    {
        let len = self.items.len();
        if from >= len || to >= len || from == to {
            return;
        }
        let item = self.items.remove(from);
        self.items.insert(to, item);
        let ci = self.current_index;
        self.current_index = if ci == from {
            to
        } else if from < ci && to >= ci {
            ci - 1
        } else if from > ci && to <= ci {
            ci + 1
        } else {
            ci
        };
    }

    /// Sort the paths found by a folder scan in path order and add them;
    /// returns how many were added.
    pub fn add_folder_paths(&mut self, paths: Vec<String>) -> (n: usize)
        ensures
            n == paths@.len(),
            final(self).items@.len() == old(self).items@.len() + paths@.len(),
            final(self).items@.take(old(self).items@.len() as int) == old(self).items@,
            forall|i: int|
                0 <= i < paths@.len() ==> fresh_track(
                    #[trigger] final(self).items@[old(self).items@.len() + i],
                    sort_paths(string_views(paths@))[i],
                ),
            final(self).name == old(self).name,
            final(self).play_mode == old(self).play_mode,
            final(self).current_index == old(self).current_index,
    {
        let sorted = sort_path_list(paths);
        proof {
            lemma_sort_paths_len(string_views(paths@));
            assert(string_views(sorted@).len() == sorted@.len());
        }
        let n = sorted.len();
        self.add_files(sorted.as_slice());
        n
    }

    /// The current play mode.
    pub fn play_mode(&self) -> (m: PlayMode)
        ensures
            m == self.play_mode,
    {
        self.play_mode
    }

    /// Set the play mode.
    pub fn set_play_mode(&mut self, mode: PlayMode)
        ensures
            final(self).play_mode == mode,
            final(self).items == old(self).items,
            final(self).name == old(self).name,
            final(self).current_index == old(self).current_index,
    {
        self.play_mode = mode;
    }

    /// Put the cursor on `index` (wherever that is) and give the path of the
    /// track there, if there is one.
    pub fn play_index(&mut self, index: usize) -> (r: Option<String>)
        ensures
            final(self).current_index == index,
            final(self).items == old(self).items,
            final(self).name == old(self).name,
            final(self).play_mode == old(self).play_mode,
            r is Some <==> index < old(self).items@.len(),
            r matches Some(p) ==> p@ == old(self).items@[index as int].path@,
    {
        self.current_index = index;
        if index < self.items.len() {
            Some(self.items[index].path.clone())
        } else {
            None
        }
    }

    /// The track under the cursor, if the cursor is on the list.
    pub fn current(&self) -> (r: Option<&TrackInfo>)
        ensures
            r is Some <==> self.current_index < self.items@.len(),
            r matches Some(t) ==> *t == self.items@[self.current_index as int],
    {
        if self.current_index < self.items.len() {
            Some(&self.items[self.current_index])
        } else {
            None
        }
    }

    /// The path of the track under the cursor.
    pub fn current_path(&self) -> (r: Option<&str>)
        ensures
            r is Some <==> self.current_index < self.items@.len(),
            r matches Some(p) ==> p@ == self.items@[self.current_index as int].path@,
    {
        match self.current() {
            Some(t) => Some(t.path.as_str()),
            None => None,
        }
    }

    /// A random index other than the current one; the current one when the
    /// list has a single track.
    fn random_index_excluding_current(&self) -> (r: usize)
        requires
            self.items@.len() > 0,
        ensures
            self.items@.len() <= 1 ==> r == self.current_index,
            self.items@.len() > 1 ==> r < self.items@.len() && r != self.current_index,
    {
        let len = self.items.len();
        if len <= 1 {
            return self.current_index;
        }
        let mut draws: Vec<usize> = Vec::new();
        while draws.len() < PICK_DRAWS
            invariant
                draws@.len() <= PICK_DRAWS,
            decreases PICK_DRAWS - draws@.len(),
        {
            draws.push(random_usize());
        }
        let r = pick_other_index(len, self.current_index, draws.as_slice());
        proof {
            lemma_pick_other(len, self.current_index, draws@, 0);
        }
        r
    }

    /// The index that follows in the play mode, without moving the cursor;
    /// `None` when there is none (`Single`/`Sequential` at the end).
    pub fn peek_next_index(&self) -> (r: Option<usize>)
        requires
            can_step(self.play_mode, self.current_index, self.items@.len()),
        ensures
            next_index_ok(self.play_mode, self.current_index, self.items@.len(), r),
    {
        if self.items.len() == 0 {
            return None;
        }
        match self.play_mode {
            PlayMode::Single | PlayMode::Sequential => {
                if self.current_index + 1 >= self.items.len() {
                    None
                } else {
                    Some(self.current_index + 1)
                }
            },
            PlayMode::LoopOne => Some(self.current_index),
            PlayMode::Loop => Some((self.current_index + 1) % self.items.len()),
            PlayMode::Random => Some(self.random_index_excluding_current()),
        }
    }

    /// The path of the track that follows, without moving the cursor.
    pub fn peek_next_path(&self) -> (r: Option<&str>)
        requires
            can_step(self.play_mode, self.current_index, self.items@.len()),
        ensures
            exists|o: Option<usize>|
                next_index_ok(self.play_mode, self.current_index, self.items@.len(), o)
                    && match o {
                    Some(i) => (r is Some <==> i < self.items@.len()) && (r matches Some(p) ==> p@
                        == self.items@[i as int].path@),
                    None => r is None,
                },
    {
        let n = self.peek_next_index();
        match n {
            Some(i) => {
                if i < self.items.len() {
                    Some(self.items[i].path.as_str())
                } else {
                    None
                }
            },
            None => None,
        }
    }

    /// Move the cursor to the track that follows and return its path;
    /// `None` (cursor unmoved) when there is no track to follow.
    pub fn next(&mut self) -> (r: Option<&str>)
        requires
            can_step(old(self).play_mode, old(self).current_index, old(self).items@.len()),
        ensures
            final(self).items == old(self).items,
            final(self).name == old(self).name,
            final(self).play_mode == old(self).play_mode,
            exists|o: Option<usize>|
                next_index_ok(old(self).play_mode, old(self).current_index, old(self).items@.len(), o)
                    && match o {
                    Some(i) => final(self).current_index == i && (r is Some <==> i < old(
                        self).items@.len()) && (r matches Some(p) ==> p@ == old(self).items@[i as int].path@),
                    None => final(self).current_index == old(self).current_index && r is None,
                },
    {
        let n = self.peek_next_index();
        match n {
            Some(i) => {
                self.current_index = i;
                self.current_path()
            },
            None => None,
        }
    }

    /// Move the cursor back one track (it stays on the first) and return its
    /// path; `None` for an empty list.
    pub fn prev(&mut self) -> (r: Option<&str>)
        ensures
            final(self).items == old(self).items,
            final(self).name == old(self).name,
            final(self).play_mode == old(self).play_mode,
            old(self).items@.len() == 0 ==> r is None && final(self).current_index == old(self).current_index,
            old(self).items@.len() > 0 ==> final(self).current_index == if old(self).current_index
                > 0 {
                (old(self).current_index - 1) as usize
            } else {
                0
            },
            r is Some <==> old(self).items@.len() > 0 && final(self).current_index < final(self).items@.len(),
            r matches Some(p) ==> p@ == final(self).items@[final(self).current_index as int].path@,
    {
        if self.items.len() == 0 {
            return None;
        }
        self.current_index = if self.current_index > 0 {
            self.current_index - 1
        } else {
            0
        };
        self.current_path()
    }

    /// Remove every track and put the cursor on the start.
    pub fn clear(&mut self)
        ensures
            final(self).items@.len() == 0,
            final(self).current_index == 0,
            final(self).name == old(self).name,
            final(self).play_mode == old(self).play_mode,
    {
        self.items.clear();
        self.current_index = 0;
    }

    pub fn len(&self) -> (n: usize)
        ensures
            n == self.items@.len(),
    {
        self.items.len()
    }

    pub fn is_empty(&self) -> (b: bool)
        ensures
            b == (self.items@.len() == 0),
    {
        self.items.len() == 0
    }
}

/// `path_ins_pos` over `v`.
fn path_ins_pos_exec(v: &Vec<String>, x: &str) -> (p: usize)
    ensures
        p == path_ins_pos(string_views(v@), x@),
{
    let ghost s = string_views(v@);
    let mut i: usize = 0;
    assert(s.subrange(0, s.len() as int) =~= s);
    while i < v.len() && crate::paths::path_le_exec(v[i].as_str(), x)
        invariant
            i <= v.len(),
            s == string_views(v@),
            path_ins_pos(s, x@) == i + path_ins_pos(s.subrange(i as int, s.len() as int), x@),
        decreases v.len() - i,
    {
        assert(s.subrange(i as int, s.len() as int).drop_first() =~= s.subrange(
            i + 1,
            s.len() as int,
        ));
        i = i + 1;
    }
    i
}

/// The paths sorted as `sort_paths` says.
fn sort_path_list(paths: Vec<String>) -> (r: Vec<String>)
    ensures
        string_views(r@) == sort_paths(string_views(paths@)),
{
    let ghost s = string_views(paths@);
    let mut rest = paths;
    let mut out: Vec<String> = Vec::new();
    let ghost mut k: int = 0;
    assert(s.take(0) =~= Seq::<Seq<char>>::empty());
    while rest.len() > 0
        invariant
            0 <= k <= s.len(),
            string_views(rest@) == s.subrange(k, s.len() as int),
            string_views(out@) == sort_paths(s.take(k)),
        decreases rest.len(),
    {
        let ghost r0 = rest@;
        let x = rest.remove(0);
        proof {
            assert(string_views(r0).len() == r0.len());
            assert(k < s.len());
            assert(string_views(r0)[0] == r0[0]@);
            assert(s.subrange(k, s.len() as int)[0] == s[k]);
            assert(x@ == s[k]);
            assert(s.take(k + 1).drop_last() =~= s.take(k));
            assert(rest@ =~= r0.subrange(1, r0.len() as int));
            assert(string_views(rest@) =~= string_views(r0).subrange(1, r0.len() as int));
            assert(string_views(rest@) =~= s.subrange(k + 1, s.len() as int));
        }
        let p = path_ins_pos_exec(&out, x.as_str());
        proof {
            lemma_path_ins_pos(string_views(out@), x@);
        }
        let ghost before = out@;
        out.insert(p, x);
        proof {
            assert(string_views(out@) =~= string_views(before).insert(p as int, x@));
            k = k + 1;
        }
    }
    assert(s.take(k) =~= s);
    out
}

proof fn lemma_sort_paths_len(s: Seq<Seq<char>>)
    ensures
        sort_paths(s).len() == s.len(),
    decreases s.len(),
{
    if s.len() > 0 {
        lemma_sort_paths_len(s.drop_last());
        lemma_path_ins_pos(sort_paths(s.drop_last()), s.last());
    }
}

proof fn lemma_path_ins_pos(s: Seq<Seq<char>>, x: Seq<char>)
    ensures
        0 <= path_ins_pos(s, x) <= s.len(),
    decreases s.len(),
{
    if s.len() > 0 && crate::paths::path_le(s[0], x) {
        lemma_path_ins_pos(s.drop_first(), x);
    }
}

/// `path_le` orders the paths of `s` totally: any two compare one way or the
/// other, and the order is transitive (as `Ord` for `std::path::Path` is).
pub open spec fn path_order_total(s: Seq<Seq<char>>) -> bool {
    &&& forall|a: Seq<char>, b: Seq<char>|
        s.contains(a) && s.contains(b) ==> crate::paths::path_le(a, b) || crate::paths::path_le(b, a)
    &&& forall|a: Seq<char>, b: Seq<char>, c: Seq<char>|
        s.contains(a) && s.contains(b) && s.contains(c) && crate::paths::path_le(a, b)
            && crate::paths::path_le(b, c) ==> crate::paths::path_le(a, c)
}

/// Each path of `s` is at or before every later one.
pub open spec fn paths_ascending(s: Seq<Seq<char>>) -> bool {
    forall|i: int, j: int| 0 <= i < j < s.len() ==> crate::paths::path_le(#[trigger] s[i], #[trigger] s[j])
}

proof fn lemma_ins_pos_bounds(t: Seq<Seq<char>>, x: Seq<char>)
    ensures
        forall|k: int| 0 <= k < path_ins_pos(t, x) ==> crate::paths::path_le(#[trigger] t[k], x),
        path_ins_pos(t, x) < t.len() ==> !crate::paths::path_le(t[path_ins_pos(t, x)], x),
    decreases t.len(),
{
    lemma_path_ins_pos(t, x);
    if t.len() > 0 && crate::paths::path_le(t[0], x) {
        let r = t.drop_first();
        lemma_ins_pos_bounds(r, x);
        lemma_path_ins_pos(r, x);
        assert forall|k: int| 0 <= k < path_ins_pos(t, x) implies crate::paths::path_le(
            #[trigger] t[k],
            x,
        ) by {
            if k > 0 {
                assert(t[k] == r[k - 1]);
            }
        }
        if path_ins_pos(t, x) < t.len() {
            assert(t[path_ins_pos(t, x)] == r[path_ins_pos(r, x)]);
        }
    }
}

/// A folder's tracks are added in path order: the sorted paths are the
/// same paths, each as often as given, and each is at or before every later
/// one, wherever the paths are totally ordered.
pub proof fn lemma_sort_paths_sorted(s: Seq<Seq<char>>)
    requires
        path_order_total(s),
    ensures
        sort_paths(s).to_multiset() == s.to_multiset(),
        paths_ascending(sort_paths(s)),
    decreases s.len(),
{
    if s.len() > 0 {
        let d = s.drop_last();
        let x = s.last();
        assert forall|a: Seq<char>| d.contains(a) implies s.contains(a) by {
            let i = choose|i: int| 0 <= i < d.len() && d[i] == a;
            assert(s[i] == a);
        }
        assert(s.contains(x)) by {
            assert(s[s.len() - 1] == x);
        }
        lemma_sort_paths_sorted(d);
        let t = sort_paths(d);
        let p = path_ins_pos(t, x);
        lemma_path_ins_pos(t, x);
        lemma_ins_pos_bounds(t, x);
        let r = t.insert(p, x);
        assert(r == sort_paths(s));
        assert(s =~= d.push(x));
        vstd::seq_lib::lemma_multiset_commutative(d, seq![x]);
        assert(d + seq![x] =~= d.push(x));
        assert(r =~= t.subrange(0, p) + seq![x] + t.subrange(p, t.len() as int));
        assert(t =~= t.subrange(0, p) + t.subrange(p, t.len() as int));
        vstd::seq_lib::lemma_multiset_commutative(t.subrange(0, p), t.subrange(p, t.len() as int));
        vstd::seq_lib::lemma_multiset_commutative(t.subrange(0, p) + seq![x], t.subrange(p, t.len() as int));
        vstd::seq_lib::lemma_multiset_commutative(t.subrange(0, p), seq![x]);
        assert forall|a: Seq<char>| t.contains(a) implies s.contains(a) by {
            t.to_multiset_ensures();
            d.to_multiset_ensures();
            assert(t.to_multiset().count(a) > 0);
            assert(d.contains(a));
        }
        assert forall|i: int, j: int| 0 <= i < j < r.len() implies crate::paths::path_le(
            #[trigger] r[i],
            #[trigger] r[j],
        ) by {
            if j < p {
                assert(r[i] == t[i] && r[j] == t[j]);
            } else if j == p {
                assert(r[i] == t[i]);
            } else if i < p {
                assert(r[i] == t[i] && r[j] == t[j - 1]);
            } else if i == p {
                assert(r[j] == t[j - 1]);
                assert(t.contains(t[p]));
                assert(t.contains(t[j - 1]));
                assert(!crate::paths::path_le(t[p], x));
                assert(crate::paths::path_le(x, t[p]));
                if j - 1 > p {
                    assert(crate::paths::path_le(t[p], t[j - 1]));
                }
            } else {
                assert(r[i] == t[i - 1] && r[j] == t[j - 1]);
            }
        }
    }
}

/// Several playlists, one of them active.
#[derive(Debug, Clone)]
pub struct PlaylistManager {
    pub playlists: Vec<Playlist>,
    pub active_index: usize,
}

/// A playlist's cursor as a loaded one is repaired: on the last track when
/// it is past the end, on the start of an empty list.
pub open spec fn repaired_cursor(ci: usize, len: nat) -> usize {
    if ci >= len && len > 0 {
        (len - 1) as usize
    } else if len == 0 {
        0
    } else {
        ci
    }
}

impl PlaylistManager {
    /// One empty playlist named "Default", active.
    pub fn new() -> (m: Self)
        ensures
            m.playlists@.len() == 1,
            m.playlists@[0].name@ == "Default"@,
            m.playlists@[0].items@.len() == 0,
            m.playlists@[0].play_mode == PlayMode::Sequential,
            m.playlists@[0].current_index == 0,
            m.active_index == 0,
    {
        let mut playlists: Vec<Playlist> = Vec::new();
        playlists.push(Playlist::new("Default"));
        PlaylistManager { playlists, active_index: 0 }
    }

    /// The active playlist.
    pub fn active(&self) -> (p: &Playlist)
        requires
            self.active_index < self.playlists@.len(),
        ensures
            *p == self.playlists@[self.active_index as int],
    {
        &self.playlists[self.active_index]
    }

    /// The active playlist, to change it.
    pub fn active_mut(&mut self) -> (p: &mut Playlist)
        requires
            old(self).active_index < old(self).playlists@.len(),
        ensures
            *p == old(self).playlists@[old(self).active_index as int],
            final(self).playlists@ == old(self).playlists@.update(
                old(self).active_index as int,
                *final(p),
            ),
            final(self).active_index == old(self).active_index,
    {
        &mut self.playlists[self.active_index]
    }

    /// The manager for playlists read back from storage, repaired: at least
    /// one playlist ("Default" when none was stored), the active index on the
    /// list (else the first), and each cursor on its list.
    pub fn from_loaded(playlists: Vec<Playlist>, active_index: usize) -> (m: Self)
        ensures
            playlists@.len() == 0 ==> m.playlists@.len() == 1 && m.playlists@[0].name@
                == "Default"@ && m.playlists@[0].items@.len() == 0 && m.playlists@[0].play_mode
                == PlayMode::Sequential && m.playlists@[0].current_index == 0 && m.active_index
                == 0,
            playlists@.len() > 0 ==> {
                &&& m.playlists@.len() == playlists@.len()
                &&& m.active_index == if active_index < playlists@.len() {
                    active_index
                } else {
                    0
                }
                &&& forall|i: int|
                    0 <= i < playlists@.len() ==> {
                        let p = #[trigger] m.playlists@[i];
                        let q = playlists@[i];
                        &&& p.name == q.name
                        &&& p.items == q.items
                        &&& p.play_mode == q.play_mode
                        &&& p.current_index == repaired_cursor(q.current_index, q.items@.len())
                    }
            },
            m.active_index < m.playlists@.len(),
    {
        if playlists.len() == 0 {
            return PlaylistManager::new();
        }
        let active = if active_index < playlists.len() {
            active_index
        } else {
            0
        };
        let n = playlists.len();
        let mut rest = playlists;
        let ghost orig = rest@;
        let mut out: Vec<Playlist> = Vec::new();
        let mut i: usize = 0;
        while i < n
            invariant
                i <= n == orig.len(),
                rest@ == orig.subrange(i as int, n as int),
                out@.len() == i,
                forall|j: int|
                    0 <= j < i ==> {
                        let p = #[trigger] out@[j];
                        let q = orig[j];
                        &&& p.name == q.name
                        &&& p.items == q.items
                        &&& p.play_mode == q.play_mode
                        &&& p.current_index == repaired_cursor(q.current_index, q.items@.len())
                    },
            decreases n - i,
        {
            let mut pl = rest.remove(0);
            assert(pl == orig[i as int]);
            let len = pl.items.len();
            if pl.current_index >= len && len > 0 {
                pl.current_index = len - 1;
            } else if len == 0 {
                pl.current_index = 0;
            }
            out.push(pl);
            assert(rest@ =~= orig.subrange(i + 1, n as int));
            i = i + 1;
        }
        PlaylistManager { playlists: out, active_index: active }
    }
}

/// A cursor the player can leave behind: on the list, or at 0 on an
/// empty one.
pub open spec fn sound_cursor(p: Playlist) -> bool {
    p.current_index < p.items@.len() || (p.items@.len() == 0 && p.current_index == 0)
}

/// Loading what was saved gives it back: the repair made on load leaves
/// every sound cursor, and an active index on the list, as they were.
pub proof fn lemma_load_keeps_saved_state(playlists: Seq<Playlist>, active_index: usize)
    requires
        playlists.len() > 0,
        active_index < playlists.len(),
        forall|i: int| 0 <= i < playlists.len() ==> sound_cursor(#[trigger] playlists[i]),
    ensures
        (if active_index < playlists.len() {
            active_index
        } else {
            0
        }) == active_index,
        forall|i: int|
            0 <= i < playlists.len() ==> repaired_cursor(
                #[trigger] playlists[i].current_index,
                playlists[i].items@.len(),
            ) == playlists[i].current_index,
{
    assert forall|i: int| 0 <= i < playlists.len() implies repaired_cursor(
        #[trigger] playlists[i].current_index,
        playlists[i].items@.len(),
    ) == playlists[i].current_index by {
        assert(sound_cursor(playlists[i]));
    }
}

/// Moving a track leaves the cursor on the track it was on: after the track
/// at `from` moves to `to`, `moved_index` points at the same track as the
/// cursor did before, and stays on the list.
pub proof fn lemma_move_item_follows(items: Seq<TrackInfo>, ci: usize, from: usize, to: usize)
    requires
        from < items.len(),
        to < items.len(),
        from != to,
        ci < items.len(),
    ensures
        moved_index(ci, from, to) < items.len(),
        items.remove(from as int).insert(to as int, items[from as int])[moved_index(
            ci,
            from,
            to,
        ) as int] == items[ci as int],
{
    let r = items.remove(from as int);
    let n = r.insert(to as int, items[from as int]);
    let m = moved_index(ci, from, to) as int;
    if ci != from {
        // position of the cursor's track in `r`
        let k: int = if ci < from {
            ci as int
        } else {
            ci - 1
        };
        assert(r[k] == items[ci as int]);
        if k < to {
            assert(n[k] == r[k]);
            assert(m == k);
        } else {
            assert(n[k + 1] == r[k]);
            assert(m == k + 1);
        }
    }
}

} // verus!
