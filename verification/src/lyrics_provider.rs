//! Online lyrics: the provider registry and its API token, the failover
//! decisions of a search, and the OpenAPI 52VMY provider's keys and response
//! parsing. The requests themselves are sent by the caller.
use vstd::prelude::*;

use crate::lyrics_parser::{lemma_split_next, spec_parse_lrc, split_lines, try_parse_lrc, LrcFile, Outcome};
use crate::paths::opt_view;
use crate::text::{
    chars_of, contains_at, dec, find_char, find_in, find_str, find_str_in, has_infix,
    lemma_dec_digits, lemma_find_char_at, lemma_parse_dec, lit, parse_u32,
    parse_u32_in, push_dec, starts_with, starts_with_at, string_of, trim, trim_bounds, trimmed,
};

verus! {

/// OpenAPI 52VMY lyrics endpoint host.
pub const OPENAPI_BASE_URL: &'static str = "http://openapi.52vmy.cn";

/// Search result from an online lyrics provider.
#[derive(Debug, Clone)]
pub struct LyricSearchResult {
    pub id: String,
    pub title: String,
    pub artist: String,
    pub album: Option<String>,
    pub duration_ms: Option<u64>,
    pub source: String,
}

pub ghost struct ResultView {
    pub id: Seq<char>,
    pub title: Seq<char>,
    pub artist: Seq<char>,
    pub album: Option<Seq<char>>,
    pub duration_ms: Option<u64>,
    pub source: Seq<char>,
}

impl View for LyricSearchResult {
    type V = ResultView;

    open spec fn view(&self) -> ResultView {
        ResultView {
            id: self.id@,
            title: self.title@,
            artist: self.artist@,
            album: opt_view(self.album),
            duration_ms: self.duration_ms,
            source: self.source@,
        }
    }
}

pub open spec fn results_view(v: Seq<LyricSearchResult>) -> Seq<ResultView> {
    v.map_values(|r: LyricSearchResult| r@)
}

pub open spec fn string_views(v: Seq<String>) -> Seq<Seq<char>> {
    v.map_values(|s: String| s@)
}

// ── outside: serde_json ──────────────────────────────────────────────────

/// The strings of the text read as a JSON array of strings, `None` when it
/// is not one.
pub uninterp spec fn json_strings(text: Seq<char>) -> Option<Seq<Seq<char>>>;

/// `serde_json::from_str::<Vec<String>>`. The contract names the result.
#[verifier::external_body]
fn parse_json_strings(text: &str) -> (r: Option<Vec<String>>)
    ensures
        match r {
            Some(v) => json_strings(text@) == Some(string_views(v@)),
            None => json_strings(text@) is None,
        },
{
    serde_json::from_str::<Vec<String>>(text).ok()
}

/// The items of the array under `key` when the text reads as a JSON value
/// with such a member, each as its string (`None` for an item that is not a
/// string); `None` otherwise.
pub uninterp spec fn json_member_array(text: Seq<char>, key: Seq<char>) -> Option<
    Seq<Option<Seq<char>>>,
>;

pub open spec fn opt_strings_view(v: Seq<Option<String>>) -> Seq<Option<Seq<char>>> {
    v.map_values(|o: Option<String>| opt_view(o))
}

/// `serde_json::from_str::<Value>`, then `Value::get(key)` and
/// `Value::as_array`, each item taken by `Value::as_str`. The contract names
/// the result.
#[verifier::external_body]
fn parse_json_member_array(text: &str, key: &str) -> (r: Option<Vec<Option<String>>>)
    ensures
        match r {
            Some(v) => json_member_array(text@, key@) == Some(opt_strings_view(v@)),
            None => json_member_array(text@, key@) is None,
        },
{
    match serde_json::from_str::<serde_json::Value>(text) {
        Ok(value) => match value.get(key).and_then(|v| v.as_array()) {
            Some(items) => Some(items.iter().map(|v| v.as_str().map(|s| s.to_owned())).collect()),
            None => None,
        },
        Err(_) => None,
    }
}

// ── registry ─────────────────────────────────────────────────────────────

/// Registry of lyrics providers, by name, in the order they are asked, and
/// the API token.
pub struct LyricsProviderRegistry {
    providers: Vec<String>,
    token: Option<String>,
}

pub ghost struct RegistryView {
    pub providers: Seq<Seq<char>>,
    pub token: Option<Seq<char>>,
}

impl View for LyricsProviderRegistry {
    type V = RegistryView;

    closed spec fn view(&self) -> RegistryView {
        RegistryView { providers: string_views(self.providers@), token: opt_view(self.token) }
    }
}

/// The token kept for a token as entered: trimmed, none when blank.
pub open spec fn kept_token(t: Seq<char>) -> Option<Seq<char>> {
    if trim(t).len() == 0 {
        None
    } else {
        Some(trim(t))
    }
}

/// A token entered is read back trimmed, and a blank one leaves no token;
/// a token is then configured exactly when the one entered was not blank,
/// and entering the token read back keeps it as it is.
pub proof fn lemma_token_set_get(t: Seq<char>)
    ensures
        kept_token(t) matches Some(k) ==> k == trim(t),
        (kept_token(t) matches Some(k) && k.len() > 0) <==> trim(t).len() > 0,
        kept_token(t) matches Some(k) ==> kept_token(k) == Some(k),
{
    crate::text::lemma_trim_shape(t);
}

/// The error of a request made without a token.
pub open spec fn no_token_message() -> Seq<char> {
    "请先在设置中填写 API Token"@
}

impl LyricsProviderRegistry {
    pub fn new() -> (r: Self)
        ensures
            r@ == (RegistryView { providers: Seq::empty(), token: None }),
    {
        let r = LyricsProviderRegistry { providers: Vec::new(), token: None };
        assert(string_views(r.providers@) =~= Seq::<Seq<char>>::empty());
        r
    }

    /// A registry with the OpenAPI 52VMY provider.
    pub fn with_defaults() -> (r: Self)
        ensures
            r@ == (RegistryView { providers: seq![OPENAPI_BASE_URL@], token: None }),
    {
        let mut reg = Self::new();
        reg.register(OPENAPI_BASE_URL.to_owned());
        assert(reg@.providers =~= seq![OPENAPI_BASE_URL@]);
        reg
    }

    /// Add a provider, by name, after the others.
    pub fn register(&mut self, name: String)
        ensures
            final(self)@ == (RegistryView {
                providers: old(self)@.providers.push(name@),
                token: old(self)@.token,
            }),
    {
        self.providers.push(name);
        assert(string_views(self.providers@) =~= string_views(old(self).providers@).push(
            self.providers@.last()@,
        ));
    }

    /// Set the API token; a blank one clears it.
    pub fn set_token(&mut self, token: String)
        ensures
            final(self)@ == (RegistryView {
                providers: old(self)@.providers,
                token: kept_token(token@),
            }),
    {
        let v = chars_of(token.as_str());
        let t = trimmed(&v, 0, v.len());
        assert(v@.subrange(0, v@.len() as int) =~= v@);
        self.token = if t.len() == 0 {
            None
        } else {
            Some(string_of(t.as_slice()))
        };
    }

    /// The token, if any.
    pub fn get_token(&self) -> (r: Option<&str>)
        ensures
            match r {
                Some(t) => self@.token == Some(t@),
                None => self@.token is None,
            },
    {
        match &self.token {
            Some(t) => Some(t.as_str()),
            None => None,
        }
    }

    /// Whether a (non-empty) token has been configured.
    pub fn has_token(&self) -> (b: bool)
        ensures
            b == (self@.token matches Some(t) && t.len() > 0),
    {
        match &self.token {
            Some(t) => t.as_str().unicode_len() > 0,
            None => false,
        }
    }

    /// The token a search or fetch is made with, or the error it fails with
    /// when there is none.
    pub fn request_token(&self) -> (r: Result<String, String>)
        ensures
            match r {
                Ok(t) => self@.token == Some(t@),
                Err(e) => self@.token is None && e@ == no_token_message(),
            },
    {
        match &self.token {
            Some(t) => Ok(t.clone()),
            None => Err("请先在设置中填写 API Token".to_owned()),
        }
    }

    /// The first provider with the given name, which a fetch goes to.
    pub fn provider_index(&self, source: &str) -> (r: Option<usize>)
        ensures
            match r {
                Some(i) => i < self@.providers.len() && self@.providers[i as int] == source@
                    && forall|j: int| 0 <= j < i ==> self@.providers[j] != source@,
                None => forall|j: int| 0 <= j < self@.providers.len() ==> self@.providers[j] != source@,
            },
    {
        let mut i: usize = 0;
        while i < self.providers.len()
            invariant
                i <= self.providers@.len(),
                forall|j: int| 0 <= j < i ==> self@.providers[j] != source@,
            decreases self.providers@.len() - i,
        {
            if crate::text::str_eq(self.providers[i].as_str(), source) {
                return Some(i);
            }
            i = i + 1;
        }
        None
    }
}

/// What a failover search does with one provider's answer (`None` for an
/// error): a non-empty list ends the search with its first `limit` results;
/// an empty list or an error moves on to the next provider (`None`).
pub fn failover_step(answer: Option<Vec<LyricSearchResult>>, limit: usize) -> (r: Option<
    Vec<LyricSearchResult>,
>)
    ensures
        match answer {
            Some(items) => if items@.len() > 0 {
                r matches Some(x) && results_view(x@) == results_view(items@).take(
                    if limit < items@.len() {
                        limit as int
                    } else {
                        items@.len() as int
                    },
                )
            } else {
                r is None
            },
            None => r is None,
        },
{
    match answer {
        Some(mut items) => {
            if items.len() == 0 {
                None
            } else {
                let ghost before = items@;
                if limit < items.len() {
                    items.truncate(limit);
                }
                assert(results_view(items@) =~= results_view(before).take(
                    if limit < before.len() {
                        limit as int
                    } else {
                        before.len() as int
                    },
                ));
                Some(items)
            }
        },
        None => None,
    }
}

// ── OpenAPI 52VMY ────────────────────────────────────────────────────────

pub open spec fn key_prefix() -> Seq<char> {
    seq!['o', 'p', 'e', 'n', 'a', 'p', 'i', ':']
}

/// `openapi:{n}:{keyword}`.
pub open spec fn spec_composite_key(n: u32, keyword: Seq<char>) -> Seq<char> {
    key_prefix() + dec(n as nat) + seq![':'] + keyword
}

/// The index and keyword of a key `openapi:{n}:{keyword}`; the index runs
/// to the first `:` after the prefix.
pub open spec fn spec_parse_key(key: Seq<char>) -> Option<(u32, Seq<char>)> {
    if starts_with(key, key_prefix()) {
        let rest = key.subrange(8, key.len() as int);
        match find_char(rest, ':') {
            None => None,
            Some(c) => match parse_u32(rest.subrange(0, c)) {
                None => None,
                Some(n) => Some((n, rest.subrange(c + 1, rest.len() as int))),
            },
        }
    } else {
        None
    }
}




/// A key read back gives the index and keyword it was made from.
pub proof fn lemma_key_roundtrip(n: u32, keyword: Seq<char>)
    ensures
        spec_parse_key(spec_composite_key(n, keyword)) == Some((n, keyword)),
{
    let key = spec_composite_key(n, keyword);
    let d = dec(n as nat);
    lemma_dec_digits(n as nat);
    lemma_parse_dec(n as nat);
    assert(key.subrange(0, 8) =~= key_prefix());
    let rest = key.subrange(8, key.len() as int);
    assert(rest =~= d + seq![':'] + keyword);
    assert forall|j: int| 0 <= j < d.len() implies rest[j] != ':' by {
        assert(rest[j] == d[j]);
        assert(crate::text::is_digit(d[j]));
    }
    lemma_find_char_at(rest, ':', d.len() as int);
    assert(rest.subrange(0, d.len() as int) =~= d);
    assert(rest.subrange(d.len() as int + 1, rest.len() as int) =~= keyword);
}

pub open spec fn dash() -> Seq<char> {
    seq![' ', '-', ' ']
}

/// `artist - title` split at the first ` - ` into the trimmed title and
/// artist; a line without ` - ` is all title.
pub open spec fn spec_title_artist(line: Seq<char>) -> (Seq<char>, Seq<char>) {
    match find_str(line, dash()) {
        Some(pos) => (trim(line.subrange(pos + 3, line.len() as int)), trim(line.subrange(0, pos))),
        None => (line, Seq::empty()),
    }
}

fn title_artist_in(v: &Vec<char>, lo: usize, hi: usize) -> (r: (Vec<char>, Vec<char>))
    requires
        lo <= hi <= v.len(),
    ensures
        r.0@ == spec_title_artist(v@.subrange(lo as int, hi as int)).0,
        r.1@ == spec_title_artist(v@.subrange(lo as int, hi as int)).1,
{
    let ghost line = v@.subrange(lo as int, hi as int);
    let mut d: Vec<char> = Vec::new();
    d.push(' ');
    d.push('-');
    d.push(' ');
    assert(d@ =~= dash());
    match find_str_in(v, lo, hi, &d) {
        Some(pos) => {
            proof {
                crate::text::lemma_find_str(line, dash());
            }
            assert(v@.subrange(pos + 3, hi as int) =~= line.subrange(pos - lo + 3, line.len() as int));
            assert(v@.subrange(lo as int, pos as int) =~= line.subrange(0, pos - lo));
            (trimmed(v, pos + 3, hi), trimmed(v, lo, pos))
        },
        None => (crate::text::slice_vec(v, lo, hi), Vec::new()),
    }
}


/// The error a response body stands for: an empty body, or one of the
/// API's error codes anywhere in it, checked in this order.
pub open spec fn spec_api_error(body: Seq<char>) -> Option<Seq<char>> {
    let t = trim(body);
    if t.len() == 0 {
        Some("服务器返回空响应"@)
    } else if has_infix(t, "110"@) {
        Some("缺少认证Token"@)
    } else if has_infix(t, "120"@) {
        Some("无效的认证Token，请检查Token是否正确"@)
    } else if has_infix(t, "160"@) {
        Some("API点数不足，请充值"@)
    } else if has_infix(t, "300"@) {
        Some("请求IP不在Token白名单内"@)
    } else if has_infix(t, "400"@) {
        Some("接口维护中，请稍后重试"@)
    } else {
        None
    }
}


/// The search result for the `n`-th entry `line` of a list of lyrics for
/// `keyword`: the line's title (the whole line when it has none) and artist.
pub open spec fn spec_entry(n: u32, line: Seq<char>, keyword: Seq<char>) -> ResultView {
    let ta = spec_title_artist(line);
    ResultView {
        id: spec_composite_key(n, keyword),
        title: if ta.0.len() == 0 {
            line
        } else {
            ta.0
        },
        artist: ta.1,
        album: None,
        duration_ms: None,
        source: OPENAPI_BASE_URL@,
    }
}

fn make_entry(n: u32, line: &str, keyword: &str) -> (r: LyricSearchResult)
    ensures
        r@ == spec_entry(n, line@, keyword@),
{
    let (title, artist) = OpenApiProvider::parse_title_artist(line);
    let title = if title.as_str().unicode_len() == 0 {
        line.to_owned()
    } else {
        title
    };
    LyricSearchResult {
        id: OpenApiProvider::composite_key(n, keyword),
        title,
        artist,
        album: None,
        duration_ms: None,
        source: OPENAPI_BASE_URL.to_owned(),
    }
}

/// The entries of a JSON `data` array from position `start` on: each string
/// item is an entry numbered by its position (from 1); other items are
/// skipped but keep their number.
pub open spec fn data_entries(items: Seq<Option<Seq<char>>>, start: int, keyword: Seq<char>) -> Seq<
    ResultView,
>
    decreases items.len() - start,
{
    if start >= items.len() || start < 0 {
        Seq::empty()
    } else {
        match items[start] {
            Some(line) => seq![spec_entry((start + 1) as u32, line, keyword)] + data_entries(
                items,
                start + 1,
                keyword,
            ),
            None => data_entries(items, start + 1, keyword),
        }
    }
}

/// The lines that are not blank, in order.
pub open spec fn nonblank(ls: Seq<Seq<char>>) -> Seq<Seq<char>>
    decreases ls.len(),
{
    if ls.len() == 0 {
        Seq::empty()
    } else if trim(ls[0]).len() > 0 {
        seq![ls[0]] + nonblank(ls.drop_first())
    } else {
        nonblank(ls.drop_first())
    }
}

/// The search results in a list response: a JSON array of strings, else a
/// JSON object's `data` array, else plain text with one entry per non-blank
/// line; entries are numbered from 1.
pub open spec fn spec_parse_list(body: Seq<char>, keyword: Seq<char>) -> Seq<ResultView> {
    let t = trim(body);
    match json_strings(t) {
        Some(arr) => Seq::new(arr.len(), |i: int| spec_entry((i + 1) as u32, arr[i], keyword)),
        None => match json_member_array(t, "data"@) {
            Some(items) => data_entries(items, 0, keyword),
            None => {
                let ls = nonblank(split_lines(t));
                Seq::new(ls.len(), |i: int| spec_entry((i + 1) as u32, trim(ls[i]), keyword))
            },
        },
    }
}


/// The lyrics service at `OPENAPI_BASE_URL`: a search lists the versions
/// of the lyrics of a keyword, a fetch asks for one of them by its index.
#[derive(Debug, Clone, Copy)]
pub struct OpenApiProvider;

impl OpenApiProvider {
    /// The name under which the service is registered: its address.
    pub fn name(&self) -> (s: &'static str)
        ensures
            s@ == OPENAPI_BASE_URL@,
    {
        OPENAPI_BASE_URL
    }

    /// The address of the lyrics endpoint.
    pub fn lrc_url() -> (s: String)
        ensures
            s@ == OPENAPI_BASE_URL@ + "/api/music/kg/lrc"@,
    {
        let mut v = lit(OPENAPI_BASE_URL);
        let mut w = lit("/api/music/kg/lrc");
        v.append(&mut w);
        string_of(v.as_slice())
    }

    /// The search result id for the `n`-th version of the lyrics of `keyword`.
    pub fn composite_key(n: u32, keyword: &str) -> (s: String)
        ensures
            s@ == spec_composite_key(n, keyword@),
    {
        let mut v = lit("openapi:");
        proof {
            reveal_strlit("openapi:");
            assert("openapi:"@ =~= key_prefix());
        }
        push_dec(&mut v, n as u64);
        v.push(':');
        let mut k = chars_of(keyword);
        v.append(&mut k);
        string_of(v.as_slice())
    }

    /// The index and keyword of a search result id; `None` for an id of
    /// another form.
    pub fn parse_key(composite_key: &str) -> (r: Option<(u32, String)>)
        ensures
            match r {
                Some((n, k)) => spec_parse_key(composite_key@) == Some((n, k@)),
                None => spec_parse_key(composite_key@) is None,
            },
    {
        let v = chars_of(composite_key);
        let p = lit("openapi:");
        proof {
            reveal_strlit("openapi:");
            assert("openapi:"@ =~= key_prefix());
        }
        assert(v@.subrange(0, v@.len() as int) =~= v@);
        if !starts_with_at(&v, 0, v.len(), &p) {
            return None;
        }
        let n_len = v.len();
        let ghost rest = v@.subrange(8, n_len as int);
        let c = match find_in(&v, 8, n_len, ':') {
            Some(c) => c,
            None => {
                return None;
            },
        };
        assert(v@.subrange(8, c as int) =~= rest.subrange(0, c - 8));
        let n = match parse_u32_in(&v, 8, c) {
            Some(n) => n,
            None => {
                return None;
            },
        };
        let w = crate::text::slice_vec(&v, c + 1, n_len);
        assert(w@ =~= rest.subrange(c - 8 + 1, rest.len() as int));
        Some((n, string_of(w.as_slice())))
    }

    /// Parse `"artist - title"` from a text line into `(title, artist)`.
    pub fn parse_title_artist(line: &str) -> (r: (String, String))
        ensures
            r.0@ == spec_title_artist(line@).0,
            r.1@ == spec_title_artist(line@).1,
    {
        let v = chars_of(line);
        assert(v@.subrange(0, v@.len() as int) =~= v@);
        let (t, a) = title_artist_in(&v, 0, v.len());
        (string_of(t.as_slice()), string_of(a.as_slice()))
    }

    /// Check whether a response body looks like an error from the API.
    pub fn check_api_error(body: &str) -> (r: Result<(), &'static str>)
        ensures
            match r {
                Ok(()) => spec_api_error(body@) is None,
                Err(e) => spec_api_error(body@) == Some(e@),
            },
    {
        let v = chars_of(body);
        let (a, b) = trim_bounds(&v, 0, v.len());
        assert(v@.subrange(0, v@.len() as int) =~= v@);
        if a == b {
            return Err("服务器返回空响应");
        }
        if contains_at(&v, a, b, &lit("110")) {
            return Err("缺少认证Token");
        }
        if contains_at(&v, a, b, &lit("120")) {
            return Err("无效的认证Token，请检查Token是否正确");
        }
        if contains_at(&v, a, b, &lit("160")) {
            return Err("API点数不足，请充值");
        }
        if contains_at(&v, a, b, &lit("300")) {
            return Err("请求IP不在Token白名单内");
        }
        if contains_at(&v, a, b, &lit("400")) {
            return Err("接口维护中，请稍后重试");
        }
        Ok(())
    }

    /// The results of a response that is a JSON array of strings, given
    /// the strings: one per string, numbered from 1.
    pub fn entries_from_array(arr: &[String], keyword: &str) -> (r: Vec<LyricSearchResult>)
        ensures
            results_view(r@) == Seq::new(
                arr@.len(),
                |i: int| spec_entry((i + 1) as u32, string_views(arr@)[i], keyword@),
            ),
    {
        let mut out: Vec<LyricSearchResult> = Vec::new();
        let mut i: usize = 0;
        while i < arr.len()
            invariant
                i <= arr@.len(),
                results_view(out@) =~= Seq::new(
                    i as nat,
                    |j: int| spec_entry((j + 1) as u32, string_views(arr@)[j], keyword@),
                ),
            decreases arr@.len() - i,
        {
            let e = make_entry((i + 1) as u32, arr[i].as_str(), keyword);
            let ghost before = results_view(out@);
            out.push(e);
            assert(results_view(out@) =~= before.push(e@));
            i = i + 1;
        }
        out
    }

    /// The results of a response whose `data` member is an array, given its
    /// items (each as its string, `None` for one that is not a string): one
    /// per string item, numbered by the item's place from 1.
    pub fn entries_from_data(items: &[Option<String>], keyword: &str) -> (r: Vec<LyricSearchResult>)
        ensures
            results_view(r@) == data_entries(opt_strings_view(items@), 0, keyword@),
    {
        let ghost iv = opt_strings_view(items@);
        let mut out: Vec<LyricSearchResult> = Vec::new();
        let mut i: usize = 0;
        assert(results_view(out@) + data_entries(iv, 0, keyword@) =~= data_entries(iv, 0, keyword@));
        while i < items.len()
            invariant
                i <= items@.len(),
                iv == opt_strings_view(items@),
                results_view(out@) + data_entries(iv, i as int, keyword@) == data_entries(
                    iv,
                    0,
                    keyword@,
                ),
            decreases items@.len() - i,
        {
            let ghost before = results_view(out@);
            match &items[i] {
                Some(line) => {
                    let e = make_entry((i + 1) as u32, line.as_str(), keyword);
                    out.push(e);
                    assert(results_view(out@) =~= before.push(e@));
                    assert(before + data_entries(iv, i as int, keyword@) =~= results_view(out@)
                        + data_entries(iv, i + 1, keyword@));
                },
                None => {},
            }
            i = i + 1;
        }
        assert(data_entries(iv, i as int, keyword@) =~= Seq::<ResultView>::empty());
        assert(results_view(out@) + Seq::<ResultView>::empty() =~= results_view(out@));
        out
    }

    /// Parse the list response (the request without `n`) into search results.
    pub fn parse_list_response(body: &str, keyword: &str) -> (r: Vec<LyricSearchResult>)
        ensures
            results_view(r@) == spec_parse_list(body@, keyword@),
    {
        let v = chars_of(body);
        assert(v@.subrange(0, v@.len() as int) =~= v@);
        let tv = trimmed(&v, 0, v.len());
        let t = string_of(tv.as_slice());
        let mut out: Vec<LyricSearchResult> = Vec::new();
        if let Some(arr) = parse_json_strings(t.as_str()) {
            return Self::entries_from_array(arr.as_slice(), keyword);
        }
        let key = "data";
        proof {
            reveal_strlit("data");
        }
        if let Some(items) = parse_json_member_array(t.as_str(), key) {
            return Self::entries_from_data(items.as_slice(), keyword);
        }
        // plain text, one entry per non-blank line
        let n = tv.len();
        let mut p: usize = 0;
        let ghost all = nonblank(split_lines(tv@));
        assert(tv@.subrange(0, n as int) =~= tv@);
        loop
            invariant
                p <= n == tv@.len(),
                all == nonblank(split_lines(tv@)),
                t@ == tv@,
                tv@ == trim(body@),
                json_strings(t@) is None,
                json_member_array(t@, "data"@) is None,
                all == nonblank(split_lines(tv@)),
                out@.len() <= all.len(),
                out@.len() <= p,
                all.subrange(out@.len() as int, all.len() as int) == nonblank(
                    split_lines(tv@.subrange(p as int, n as int)),
                ),
                results_view(out@) =~= Seq::new(
                    out@.len(),
                    |j: int| spec_entry((j + 1) as u32, trim(all[j]), keyword@),
                ),
            decreases n - p,
        {
            let ghost rest = tv@.subrange(p as int, n as int);
            proof {
                lemma_split_next(rest);
            }
            let e = match find_in(&tv, p, n, '\n') {
                Some(e) => e,
                None => n,
            };
            let ghost seg = tv@.subrange(p as int, e as int);
            let ghost k = out@.len();
            let ghost tail = if e < n {
                tv@.subrange(e + 1, n as int)
            } else {
                Seq::<char>::empty()
            };
            proof {
                if e < n {
                    assert(rest.subrange(0, e - p) =~= seg);
                    assert(rest.subrange(e - p + 1, rest.len() as int) =~= tail);
                    assert(split_lines(rest) == seq![seg] + split_lines(tail));
                } else {
                    assert(rest =~= seg);
                    assert(split_lines(rest) == seq![seg]);
                    lemma_split_next(Seq::<char>::empty());
                }
                let ls = split_lines(rest);
                assert(ls[0] == seg);
                assert(ls.drop_first() =~= if e < n {
                    split_lines(tail)
                } else {
                    Seq::<Seq<char>>::empty()
                });
            }
            let (a, b) = trim_bounds(&tv, p, e);
            if a < b {
                let line = crate::text::slice_vec(&tv, a, b);
                let ls = string_of(line.as_slice());
                proof {
                    crate::text::lemma_trim_shape(seg);
                }
                let en = make_entry((out.len() + 1) as u32, ls.as_str(), keyword);
                let ghost before = results_view(out@);
                out.push(en);
                proof {
                    let ls = split_lines(rest);
                    assert(trim(ls[0]).len() > 0);
                    assert(nonblank(ls) == seq![ls[0]] + nonblank(ls.drop_first()));
                    assert(all.subrange(k as int, all.len() as int)[0] == seg);
                    assert(all[k as int] == seg);
                    assert(results_view(out@) =~= before.push(en@));
                }
            }
            proof {
                let ls = split_lines(rest);
                let k2 = out@.len();
                let big = all.subrange(k as int, all.len() as int);
                if a < b {
                    assert(nonblank(ls) == seq![ls[0]] + nonblank(ls.drop_first()));
                    assert(k2 == k + 1);
                    assert((seq![ls[0]] + nonblank(ls.drop_first())).drop_first() =~= nonblank(
                        ls.drop_first(),
                    ));
                    assert(all.subrange(k2 as int, all.len() as int) =~= big.drop_first());
                } else {
                    assert(trim(ls[0]).len() == 0);
                    assert(nonblank(ls) == nonblank(ls.drop_first()));
                }
                assert(all.subrange(k2 as int, all.len() as int) =~= nonblank(ls.drop_first()));
            }
            if e == n {
                proof {
                    assert(nonblank(Seq::<Seq<char>>::empty()) =~= Seq::<Seq<char>>::empty());
                    assert(out@.len() == all.len());
                    assert(tv@ == trim(body@));
                    let sp = spec_parse_list(body@, keyword@);
                    assert(sp == Seq::new(
                        all.len(),
                        |i: int| spec_entry((i + 1) as u32, trim(all[i]), keyword@),
                    ));
                    assert(results_view(out@) =~= sp);
                }
                return out;
            }
            p = e + 1;
        }
    }

    /// The index and keyword a fetch asks the service for; a key of another
    /// form is refused.
    pub fn fetch_request(composite_key: &str) -> (r: Result<(u32, String), String>)
        ensures
            match spec_parse_key(composite_key@) {
                Some((n, k)) => r matches Ok((m, w)) && m == n && w@ == k,
                None => r matches Err(e) && e@ == "Invalid lyrics key: "@ + composite_key@,
            },
    {
        match Self::parse_key(composite_key) {
            Some(v) => Ok(v),
            None => {
                let mut m = lit("Invalid lyrics key: ");
                let mut k = chars_of(composite_key);
                m.append(&mut k);
                Err(string_of(m.as_slice()))
            },
        }
    }

    /// What a search makes of a successful response body: the API's error,
    /// or the list of versions.
    pub fn search_result(body: &str, keyword: &str) -> (r: Result<Vec<LyricSearchResult>, String>)
        ensures
            match spec_api_error(body@) {
                Some(e) => r matches Err(x) && x@ == e,
                None => r matches Ok(v) && results_view(v@) == spec_parse_list(body@, keyword@),
            },
    {
        match Self::check_api_error(body) {
            Err(e) => Err(e.to_owned()),
            Ok(()) => Ok(Self::parse_list_response(body, keyword)),
        }
    }

    /// What a fetch makes of a successful response body: the API's error,
    /// no lyrics when the text holds no timed line, else the lyrics. `None`
    /// exactly where reading the text would panic.
    pub fn fetch_result(body: &str) -> (r: Option<Result<Option<LrcFile>, String>>)
        ensures
            match spec_api_error(body@) {
                Some(e) => r matches Some(Err(x)) && x@ == e,
                None => match spec_parse_lrc(body@) {
                    Outcome::Panics => r is None,
                    Outcome::Done(f) => if f.lines.len() == 0 {
                        r matches Some(Ok(None))
                    } else {
                        r matches Some(Ok(Some(l))) && l@ == f
                    },
                },
            },
    {
        match Self::check_api_error(body) {
            Err(e) => Some(Err(e.to_owned())),
            Ok(()) => match try_parse_lrc(body) {
                None => None,
                Some(lrc) => if lrc.lines.len() == 0 {
                    Some(Ok(None))
                } else {
                    Some(Ok(Some(lrc)))
                },
            },
        }
    }
}

} // verus!
