//! Which LRC files beside an audio file are its lyrics: the file named
//! after it first, then every `.lrc` file whose name contains the audio
//! file's name or is contained in it, ignoring case.
use vstd::prelude::*;

use crate::paths;
use crate::text::{ascii_lower, chars_of, contains_at, has_infix, lowercase, string_of, to_lowercase};

verus! {

/// `str::eq_ignore_ascii_case(e, "lrc")`.
pub open spec fn is_lrc_extension(e: Seq<char>) -> bool {
    e.len() == 3 && ascii_lower(e[0]) == 'l' && ascii_lower(e[1]) == 'r' && ascii_lower(e[2])
        == 'c'
}

pub open spec fn stem_or_empty(p: Seq<char>) -> Seq<char> {
    match paths::path_file_stem(p) {
        Some(s) => s,
        None => Seq::empty(),
    }
}

/// A directory entry is a candidate for an audio file whose lower-cased
/// stem is `stem_lc`: an `.lrc` file (any case) whose lower-cased stem
/// contains `stem_lc` or is contained in it.
pub open spec fn lrc_candidate(entry: Seq<char>, stem_lc: Seq<char>) -> bool {
    &&& (match paths::path_extension(entry) {
        Some(e) => is_lrc_extension(e),
        None => false,
    })
    &&& (has_infix(lowercase(stem_or_empty(entry)), stem_lc) || has_infix(
        stem_lc,
        lowercase(stem_or_empty(entry)),
    ))
}

/// Whether `found` already holds a path equal to `p`.
pub open spec fn holds_path(found: Seq<Seq<char>>, p: Seq<char>) -> bool {
    exists|i: int| 0 <= i < found.len() && paths::path_equal(found[i], p)
}

/// The candidates among `entries`, in order, appended to `found`, each
/// path once.
pub open spec fn gather(entries: Seq<Seq<char>>, stem_lc: Seq<char>, found: Seq<Seq<char>>) -> Seq<
    Seq<char>,
>
    decreases entries.len(),
{
    if entries.len() == 0 {
        found
    } else {
        let p = entries[0];
        let next = if lrc_candidate(p, stem_lc) && !holds_path(found, p) {
            found.push(p)
        } else {
            found
        };
        gather(entries.drop_first(), stem_lc, next)
    }
}

/// The LRC files for `audio`: `{dir}/{stem}.lrc` when it exists, then the
/// candidates among the entries of the directory; nothing for a path with
/// no directory or no file name.
pub open spec fn spec_lrc_candidates(
    audio: Seq<char>,
    exact_exists: bool,
    entries: Seq<Seq<char>>,
) -> Seq<Seq<char>> {
    match paths::path_parent(audio) {
        None => Seq::empty(),
        Some(dir) => match paths::path_file_stem(audio) {
            None => Seq::empty(),
            Some(stem) => gather(
                entries,
                lowercase(stem),
                if exact_exists {
                    seq![paths::path_join(dir, stem + ".lrc"@)]
                } else {
                    Seq::empty()
                },
            ),
        },
    }
}

pub open spec fn strings_view(v: Seq<String>) -> Seq<Seq<char>> {
    v.map_values(|s: String| s@)
}

fn contains_either(a: &Vec<char>, b: &Vec<char>) -> (r: bool)
    ensures
        r == (has_infix(a@, b@) || has_infix(b@, a@)),
{
    assert(a@.subrange(0, a@.len() as int) =~= a@);
    assert(b@.subrange(0, b@.len() as int) =~= b@);
    contains_at(a, 0, a.len(), b) || contains_at(b, 0, b.len(), a)
}

fn is_lrc_ext(e: &str) -> (r: bool)
    ensures
        r == is_lrc_extension(e@),
{
    let v = chars_of(e);
    if v.len() != 3 {
        return false;
    }
    let a = v[0];
    let b = v[1];
    let c = v[2];
    (a == 'l' || a == 'L') && (b == 'r' || b == 'R') && (c == 'c' || c == 'C')
}

fn is_candidate(entry: &str, stem_lc: &Vec<char>) -> (r: bool)
    ensures
        r == lrc_candidate(entry@, stem_lc@),
{
    let ext_ok = match paths::extension(entry) {
        Some(e) => is_lrc_ext(e.as_str()),
        None => false,
    };
    if !ext_ok {
        return false;
    }
    let stem: String = match paths::file_stem(entry) {
        Some(s) => s,
        None => String::new(),
    };
    let lc = chars_of(to_lowercase(stem.as_str()).as_str());
    contains_either(&lc, stem_lc)
}

fn holds(found: &Vec<String>, p: &str) -> (r: bool)
    ensures
        r == holds_path(strings_view(found@), p@),
{
    let mut i: usize = 0;
    while i < found.len()
        invariant
            i <= found@.len(),
            forall|j: int| 0 <= j < i ==> !paths::path_equal(found@[j]@, p@),
        decreases found@.len() - i,
    {
        if paths::path_eq_exec(found[i].as_str(), p) {
            assert(strings_view(found@)[i as int] == found@[i as int]@);
            return true;
        }
        i = i + 1;
    }
    assert forall|j: int|
        0 <= j < strings_view(found@).len() implies !paths::path_equal(
        strings_view(found@)[j],
        p@,
    ) by {
        assert(strings_view(found@)[j] == found@[j]@);
    }
    false
}

/// The LRC files for the audio file `audio_path`, given whether
/// `{dir}/{stem}.lrc` exists and the paths of the entries of its directory:
/// that file first, then each `.lrc` entry (extension in any case) whose
/// stem, lower-cased, contains the audio file's lower-cased stem or is
/// contained in it; no path twice.
pub fn lrc_candidates(audio_path: &str, exact_exists: bool, entries: &[String]) -> (r: Vec<String>)
    ensures
        strings_view(r@) == spec_lrc_candidates(audio_path@, exact_exists, strings_view(entries@)),
{
    let dir = match paths::parent(audio_path) {
        Some(d) => d,
        None => {
            return Vec::new();
        },
    };
    let stem = match paths::file_stem(audio_path) {
        Some(s) => s,
        None => {
            return Vec::new();
        },
    };
    let stem_lc = chars_of(to_lowercase(stem.as_str()).as_str());
    let mut found: Vec<String> = Vec::new();
    if exact_exists {
        let mut name = chars_of(stem.as_str());
        let mut ext = chars_of(".lrc");
        name.append(&mut ext);
        let file = string_of(name.as_slice());
        found.push(paths::join(dir.as_str(), file.as_str()));
    }
    let ghost es = strings_view(entries@);
    let ghost init = strings_view(found@);
    assert(init =~= (if exact_exists {
        seq![paths::path_join(dir@, stem@ + ".lrc"@)]
    } else {
        Seq::<Seq<char>>::empty()
    }));
    assert(es.subrange(0, es.len() as int) =~= es);
    let mut i: usize = 0;
    while i < entries.len()
        invariant
            i <= entries@.len(),
            es == strings_view(entries@),
            gather(es, stem_lc@, init) == gather(es.subrange(i as int, es.len() as int), stem_lc@, strings_view(found@)),
        decreases entries@.len() - i,
    {
        let ghost before = strings_view(found@);
        let e = entries[i].as_str();
        if is_candidate(e, &stem_lc) && !holds(&found, e) {
            found.push(entries[i].clone());
            assert(strings_view(found@) =~= before.push(e@));
        }
        assert(es.subrange(i as int, es.len() as int).drop_first() =~= es.subrange(i + 1, es.len() as int));
        assert(es.subrange(i as int, es.len() as int)[0] == entries@[i as int]@);
        i = i + 1;
    }
    assert(es.subrange(i as int, es.len() as int) =~= Seq::<Seq<char>>::empty());
    found
}

/// No two of the paths are equal as paths.
pub open spec fn no_equal_paths(s: Seq<Seq<char>>) -> bool {
    forall|i: int, j: int| 0 <= i < j < s.len() ==> !paths::path_equal(#[trigger] s[i], #[trigger] s[j])
}

proof fn lemma_gather_distinct(entries: Seq<Seq<char>>, stem_lc: Seq<char>, found: Seq<Seq<char>>)
    requires
        no_equal_paths(found),
    ensures
        no_equal_paths(gather(entries, stem_lc, found)),
    decreases entries.len(),
{
    if entries.len() > 0 {
        let p = entries[0];
        if lrc_candidate(p, stem_lc) && !holds_path(found, p) {
            let next = found.push(p);
            assert forall|i: int, j: int| 0 <= i < j < next.len() implies !paths::path_equal(
                #[trigger] next[i],
                #[trigger] next[j],
            ) by {
                if j == found.len() {
                    assert(next[i] == found[i]);
                    assert(!paths::path_equal(found[i], p));
                } else {
                    assert(next[i] == found[i] && next[j] == found[j]);
                }
            }
            lemma_gather_distinct(entries.drop_first(), stem_lc, next);
        } else {
            lemma_gather_distinct(entries.drop_first(), stem_lc, found);
        }
    }
}

/// The LRC files found for an audio file hold no path twice: no two are
/// equal as paths, so no two are the same text.
pub proof fn lemma_lrc_candidates_distinct(audio: Seq<char>, exact_exists: bool, entries: Seq<Seq<char>>)
    ensures
        no_equal_paths(spec_lrc_candidates(audio, exact_exists, entries)),
        forall|i: int, j: int|
            0 <= i < j < spec_lrc_candidates(audio, exact_exists, entries).len() ==> #[trigger] spec_lrc_candidates(
                audio,
                exact_exists,
                entries,
            )[i] != #[trigger] spec_lrc_candidates(audio, exact_exists, entries)[j],
{
    match paths::path_parent(audio) {
        None => {},
        Some(dir) => match paths::path_file_stem(audio) {
            None => {},
            Some(stem) => {
                let init = if exact_exists {
                    seq![paths::path_join(dir, stem + ".lrc"@)]
                } else {
                    Seq::empty()
                };
                lemma_gather_distinct(entries, lowercase(stem), init);
            },
        },
    }
    let r = spec_lrc_candidates(audio, exact_exists, entries);
    assert forall|i: int, j: int| 0 <= i < j < r.len() implies #[trigger] r[i] != #[trigger] r[j] by {
        assert(!paths::path_equal(r[i], r[j]));
    }
}

/// Every path of `r` from index `start` on is one of `entries` and a
/// candidate for the lower-cased stem `stem_lc`.
pub open spec fn only_candidates(
    r: Seq<Seq<char>>,
    start: int,
    entries: Seq<Seq<char>>,
    stem_lc: Seq<char>,
) -> bool {
    forall|k: int|
        start <= k < r.len() ==> lrc_candidate(#[trigger] r[k], stem_lc) && entries.contains(r[k])
}

/// Every candidate among `entries` is, as a path, in `r`.
pub open spec fn all_candidates(r: Seq<Seq<char>>, entries: Seq<Seq<char>>, stem_lc: Seq<char>) -> bool {
    forall|j: int|
        0 <= j < entries.len() && lrc_candidate(#[trigger] entries[j], stem_lc) ==> holds_path(
            r,
            entries[j],
        )
}

proof fn lemma_gather_found(entries: Seq<Seq<char>>, stem_lc: Seq<char>, found: Seq<Seq<char>>)
    ensures
        gather(entries, stem_lc, found).len() >= found.len(),
        forall|i: int| 0 <= i < found.len() ==> #[trigger] gather(entries, stem_lc, found)[i] == found[i],
        only_candidates(gather(entries, stem_lc, found), found.len() as int, entries, stem_lc),
        all_candidates(gather(entries, stem_lc, found), entries, stem_lc),
    decreases entries.len(),
{
    if entries.len() > 0 {
        let p = entries[0];
        let rest = entries.drop_first();
        let next = if lrc_candidate(p, stem_lc) && !holds_path(found, p) {
            found.push(p)
        } else {
            found
        };
        lemma_gather_found(rest, stem_lc, next);
        let g = gather(entries, stem_lc, found);
        assert(g == gather(rest, stem_lc, next));
        assert forall|i: int| 0 <= i < found.len() implies #[trigger] g[i] == found[i] by {
            assert(g[i] == next[i]);
        }
        assert forall|k: int| found.len() <= k < g.len() implies lrc_candidate(#[trigger] g[k], stem_lc)
            && entries.contains(g[k]) by {
            if k < next.len() {
                assert(next.len() == found.len() + 1);
                assert(g[k] == next[k]);
                assert(entries[0] == g[k]);
            } else {
                assert(rest.contains(g[k]));
                let j = choose|j: int| 0 <= j < rest.len() && rest[j] == g[k];
                assert(entries[j + 1] == g[k]);
            }
        }
        assert forall|j: int| 0 <= j < entries.len() && lrc_candidate(#[trigger] entries[j], stem_lc)
            implies holds_path(g, entries[j]) by {
            if j == 0 {
                if holds_path(found, p) {
                    let i = choose|i: int| 0 <= i < found.len() && paths::path_equal(found[i], p);
                    assert(g[i] == found[i]);
                } else {
                    let i = found.len() as int;
                    assert(g[i] == next[i]);
                    assert(paths::path_equal(g[i], p));
                }
            } else {
                assert(entries[j] == rest[j - 1]);
            }
        }
    }
}

/// The whole of what the search finds for an audio file, given whether
/// `{dir}/{stem}.lrc` exists and the entries of its directory: nothing for
/// a path without a directory or a file stem; otherwise that exact file
/// first when it exists, after it only entries of the directory that are
/// `.lrc` files (extension in any case) whose lower-cased stem contains the
/// audio file's lower-cased stem or is contained in it, every such entry
/// found, and no path twice.
pub proof fn lemma_lrc_candidates_found(audio: Seq<char>, exact_exists: bool, entries: Seq<Seq<char>>)
    ensures
        no_equal_paths(spec_lrc_candidates(audio, exact_exists, entries)),
        match (paths::path_parent(audio), paths::path_file_stem(audio)) {
            (Some(dir), Some(stem)) => {
                &&& exact_exists ==> spec_lrc_candidates(audio, exact_exists, entries).len() >= 1
                    && spec_lrc_candidates(audio, exact_exists, entries)[0] == paths::path_join(
                    dir,
                    stem + ".lrc"@,
                )
                &&& only_candidates(
                    spec_lrc_candidates(audio, exact_exists, entries),
                    if exact_exists {
                        1int
                    } else {
                        0int
                    },
                    entries,
                    lowercase(stem),
                )
                &&& all_candidates(
                    spec_lrc_candidates(audio, exact_exists, entries),
                    entries,
                    lowercase(stem),
                )
            },
            _ => spec_lrc_candidates(audio, exact_exists, entries).len() == 0,
        },
{
    lemma_lrc_candidates_distinct(audio, exact_exists, entries);
    match paths::path_parent(audio) {
        None => {},
        Some(dir) => match paths::path_file_stem(audio) {
            None => {},
            Some(stem) => {
                let init = if exact_exists {
                    seq![paths::path_join(dir, stem + ".lrc"@)]
                } else {
                    Seq::empty()
                };
                lemma_gather_found(entries, lowercase(stem), init);
                if exact_exists {
                    assert(gather(entries, lowercase(stem), init)[0] == init[0]);
                }
            },
        },
    }
}

/// The extension of `e` is `lrc` in any ASCII case.
pub open spec fn lrc_extension_any_case(e: Seq<char>) -> bool {
    paths::path_extension(e) matches Some(x) && x.len() == 3 && ascii_lower(x[0]) == 'l'
        && ascii_lower(x[1]) == 'r' && ascii_lower(x[2]) == 'c'
}

/// The lower-cased stems of the entry and of the audio file, one inside the
/// other, whichever way round.
pub open spec fn stems_overlap(entry: Seq<char>, audio_stem: Seq<char>) -> bool {
    let a = lowercase(stem_or_empty(entry));
    let b = lowercase(audio_stem);
    has_infix(a, b) || has_infix(b, a)
}

/// Which entries of the directory are found, by name: an `.lrc` entry (any
/// case of the extension) is found exactly when its lower-cased stem holds
/// the audio file's lower-cased stem or is held in it, so `song.lrc` is
/// found for `Song (Live).mp3` and `Song (Live).LRC` for `song.mp3`; every
/// path after the exact file is such an entry.
pub proof fn lemma_lrc_candidates_by_stem(audio: Seq<char>, exact_exists: bool, entries: Seq<Seq<char>>)
    ensures
        match (paths::path_parent(audio), paths::path_file_stem(audio)) {
            (Some(dir), Some(stem)) => {
                &&& forall|j: int|
                    0 <= j < entries.len() && lrc_extension_any_case(#[trigger] entries[j])
                        && stems_overlap(entries[j], stem) ==> holds_path(
                        spec_lrc_candidates(audio, exact_exists, entries),
                        entries[j],
                    )
                &&& forall|k: int|
                    (if exact_exists {
                        1int
                    } else {
                        0int
                    }) <= k < spec_lrc_candidates(audio, exact_exists, entries).len()
                        ==> lrc_extension_any_case(
                        #[trigger] spec_lrc_candidates(audio, exact_exists, entries)[k],
                    ) && stems_overlap(spec_lrc_candidates(audio, exact_exists, entries)[k], stem)
                        && entries.contains(spec_lrc_candidates(audio, exact_exists, entries)[k])
            },
            _ => true,
        },
{
    lemma_lrc_candidates_found(audio, exact_exists, entries);
    match (paths::path_parent(audio), paths::path_file_stem(audio)) {
        (Some(dir), Some(stem)) => {
            let r = spec_lrc_candidates(audio, exact_exists, entries);
            let first = if exact_exists {
                1int
            } else {
                0int
            };
            assert forall|j: int|
                0 <= j < entries.len() && lrc_extension_any_case(#[trigger] entries[j])
                    && stems_overlap(entries[j], stem) implies holds_path(r, entries[j]) by {
                assert(lrc_candidate(entries[j], lowercase(stem)));
            }
            assert forall|k: int| first <= k < r.len() implies lrc_extension_any_case(#[trigger] r[k])
                && stems_overlap(r[k], stem) && entries.contains(r[k]) by {
                assert(lrc_candidate(r[k], lowercase(stem)));
            }
        },
        _ => {},
    }
}

} // verus!
