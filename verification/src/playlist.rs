//! Playlist analysis: turning the `yt-dlp --flat-playlist --dump-json`
//! output (one JSON object per line) into a `PlaylistInfo`.
use vstd::prelude::*;
use crate::text::{append_chars, is_ws, str_chars, string_from_chars};

verus! {

/// One entry of a playlist.
#[derive(Clone, Debug)]
pub struct MediaItem {
    pub id: String,
    pub title: String,
    pub url: String,
    pub duration: Option<u64>,
    pub thumbnail: Option<String>,
    /// Position in the playlist, starting at 1.
    pub index: usize,
}

pub struct MediaItemView {
    pub id: Seq<char>,
    pub title: Seq<char>,
    pub url: Seq<char>,
    pub duration: Option<u64>,
    pub thumbnail: Option<Seq<char>>,
    pub index: usize,
}

pub open spec fn opt_view(o: Option<String>) -> Option<Seq<char>> {
    match o {
        Some(s) => Some(s@),
        None => None,
    }
}

impl View for MediaItem {
    type V = MediaItemView;

    open spec fn view(&self) -> MediaItemView {
        MediaItemView {
            id: self.id@,
            title: self.title@,
            url: self.url@,
            duration: self.duration,
            thumbnail: opt_view(self.thumbnail),
            index: self.index,
        }
    }
}

pub open spec fn items_view(items: Seq<MediaItem>) -> Seq<MediaItemView> {
    items.map_values(|m: MediaItem| m@)
}

/// A playlist as analyzed.
#[derive(Clone, Debug)]
pub struct PlaylistInfo {
    pub source_playlist_id: String,
    pub url: String,
    pub title: String,
    pub items: Vec<MediaItem>,
}

pub struct PlaylistView {
    pub source_playlist_id: Seq<char>,
    pub url: Seq<char>,
    pub title: Seq<char>,
    pub items: Seq<MediaItemView>,
}

impl View for PlaylistInfo {
    type V = PlaylistView;

    open spec fn view(&self) -> PlaylistView {
        PlaylistView {
            source_playlist_id: self.source_playlist_id@,
            url: self.url@,
            title: self.title@,
            items: items_view(self.items@),
        }
    }
}

/// The fields of one JSON line that the analysis reads.
pub struct EntryFields {
    pub id: Option<String>,
    pub title: Option<String>,
    /// Seconds, as the integer part of the JSON number.
    pub duration: Option<u64>,
    pub thumbnail: Option<String>,
    pub playlist_title: Option<String>,
    pub playlist_id: Option<String>,
}

pub struct EntryView {
    pub id: Option<Seq<char>>,
    pub title: Option<Seq<char>>,
    pub duration: Option<u64>,
    pub thumbnail: Option<Seq<char>>,
    pub playlist_title: Option<Seq<char>>,
    pub playlist_id: Option<Seq<char>>,
}

impl View for EntryFields {
    type V = EntryView;

    open spec fn view(&self) -> EntryView {
        EntryView {
            id: opt_view(self.id),
            title: opt_view(self.title),
            duration: self.duration,
            thumbnail: opt_view(self.thumbnail),
            playlist_title: opt_view(self.playlist_title),
            playlist_id: opt_view(self.playlist_id),
        }
    }
}

/// What `serde_json` reads from one line of text: `None` when the line is not
/// JSON, otherwise the string fields `id`, `title`, `thumbnail`,
/// `playlist_title`, `playlist_id` and the numeric field `duration` (each
/// `None` when absent or of another type).
pub uninterp spec fn json_entry(line: Seq<char>) -> Option<EntryView>;

/// Parses one line with `serde_json::from_str::<serde_json::Value>` and reads
/// the fields the analysis needs with `Value`'s indexing, `as_str` and
/// `as_f64` (the duration is cut to an integer with `as u64`). The contract
/// only names the result: the JSON grammar is serde_json's.
#[verifier::external_body]
fn parse_entry_json(line: &str) -> (r: Option<EntryFields>)
    ensures
        match r {
            Some(e) => json_entry(line@) == Some(e@),
            None => json_entry(line@) is None,
        },
{
    let v: serde_json::Value = serde_json::from_str(line).ok()?;
    let text = |key: &str| v[key].as_str().map(String::from);
    let duration = match v["duration"].as_f64() {
        Some(d) => Some(d as u64),
        None => None,
    };
    Some(EntryFields {
        id: text("id"),
        title: text("title"),
        duration,
        thumbnail: text("thumbnail"),
        playlist_title: text("playlist_title"),
        playlist_id: text("playlist_id"),
    })
}

/// `c` without one trailing `\r`.
pub open spec fn strip_cr(c: Seq<char>) -> Seq<char> {
    if c.len() > 0 && c.last() == '\r' {
        c.drop_last()
    } else {
        c
    }
}

/// Lines completed so far and the unfinished one, after reading `s`.
pub open spec fn fold_lines(s: Seq<char>) -> (Seq<Seq<char>>, Seq<char>)
    decreases s.len(),
{
    if s.len() == 0 {
        (Seq::empty(), Seq::empty())
    } else {
        let (done, cur) = fold_lines(s.drop_last());
        if s.last() == '\n' {
            (done.push(strip_cr(cur)), Seq::empty())
        } else {
            (done, cur.push(s.last()))
        }
    }
}

/// `str::lines`: split at `\n`, drop a `\r` before it, and no empty line
/// after a final `\n`.
pub open spec fn lines(s: Seq<char>) -> Seq<Seq<char>> {
    let (done, cur) = fold_lines(s);
    if cur.len() > 0 {
        done.push(cur)
    } else {
        done
    }
}

/// Only whitespace (what `line.trim().is_empty()` tests).
pub open spec fn is_blank(l: Seq<char>) -> bool {
    forall|i: int| 0 <= i < l.len() ==> is_ws(#[trigger] l[i])
}

pub open spec fn nonblank(ls: Seq<Seq<char>>) -> Seq<Seq<char>>
    decreases ls.len(),
{
    if ls.len() == 0 {
        Seq::empty()
    } else if is_blank(ls.last()) {
        nonblank(ls.drop_last())
    } else {
        nonblank(ls.drop_last()).push(ls.last())
    }
}

pub open spec fn parse_all(ls: Seq<Seq<char>>) -> Seq<Option<EntryView>> {
    ls.map_values(|l: Seq<char>| json_entry(l))
}

/// The parsed non-blank lines of the output.
pub open spec fn entries(out: Seq<char>) -> Seq<Option<EntryView>> {
    parse_all(nonblank(lines(out)))
}

pub open spec fn watch_url_prefix() -> Seq<char> {
    "https://www.youtube.com/watch?v="@
}

pub open spec fn or_empty(o: Option<Seq<char>>) -> Seq<char> {
    match o {
        Some(s) => s,
        None => Seq::empty(),
    }
}

pub open spec fn or_default(o: Option<Seq<char>>, d: Seq<char>) -> Seq<char> {
    match o {
        Some(s) => s,
        None => d,
    }
}

/// The item made of the entry at position `i` (0-based) among the non-blank lines.
pub open spec fn item_of(e: EntryView, i: int) -> MediaItemView {
    MediaItemView {
        id: or_empty(e.id),
        title: or_default(e.title, "Untitled"@),
        url: watch_url_prefix() + or_empty(e.id),
        duration: e.duration,
        thumbnail: e.thumbnail,
        index: (i + 1) as usize,
    }
}

/// The first `Some` of the sequence.
pub open spec fn first_some(s: Seq<Option<Seq<char>>>) -> Option<Seq<char>>
    decreases s.len(),
{
    if s.len() == 0 {
        None
    } else {
        let r = first_some(s.drop_last());
        if r is Some {
            r
        } else {
            s.last()
        }
    }
}

pub open spec fn playlist_titles(es: Seq<EntryView>) -> Seq<Option<Seq<char>>> {
    es.map_values(|e: EntryView| e.playlist_title)
}

pub open spec fn playlist_ids(es: Seq<EntryView>) -> Seq<Option<Seq<char>>> {
    es.map_values(|e: EntryView| e.playlist_id)
}

pub open spec fn entries_view(v: Seq<EntryFields>) -> Seq<EntryView> {
    v.map_values(|e: EntryFields| e@)
}

/// Why an analysis produced no playlist.
#[derive(Clone, Copy, Debug, PartialEq, Eq, Structural)]
pub enum AnalyzeError {
    /// A non-blank line was not JSON.
    InvalidJson,
    /// The output held no entries.
    NoItems,
}

impl AnalyzeError {
    /// The message the application shows.
    pub fn message(&self) -> (r: String)
        ensures
            r@ == (match self {
                AnalyzeError::InvalidJson => "parsing yt-dlp json line"@,
                AnalyzeError::NoItems => "no items found for this URL"@,
            }),
    {
        proof {
            broadcast use vstd::string::group_string_axioms;
        }
        match self {
            AnalyzeError::InvalidJson => "parsing yt-dlp json line".to_string(),
            AnalyzeError::NoItems => "no items found for this URL".to_string(),
        }
    }
}

/// The playlist made of the parsed entries, in order: entry `i` becomes item
/// `i + 1`; the first `playlist_title` and `playlist_id` name the playlist
/// (else `Playlist` and the URL); no entries is an error.
pub open spec fn playlist_from_entries_spec(url: Seq<char>, es: Seq<EntryView>) -> Result<PlaylistView, AnalyzeError> {
    if es.len() == 0 {
        Err(AnalyzeError::NoItems)
    } else {
        Ok(
            PlaylistView {
                source_playlist_id: or_default(first_some(playlist_ids(es)), url),
                url,
                title: or_default(first_some(playlist_titles(es)), "Playlist"@),
                items: Seq::new(es.len(), |i: int| item_of(es[i], i)),
            },
        )
    }
}

/// The playlist described by `out`, the standard output of
/// `yt-dlp --flat-playlist --dump-json <url>`: an error if a non-blank line
/// is not JSON.
pub open spec fn analyze_spec(url: Seq<char>, out: Seq<char>) -> Result<PlaylistView, AnalyzeError> {
    let es = entries(out);
    if exists|i: int| 0 <= i < es.len() && #[trigger] es[i] is None {
        Err(AnalyzeError::InvalidJson)
    } else {
        playlist_from_entries_spec(url, es.map_values(|e: Option<EntryView>| e.unwrap()))
    }
}

pub open spec fn strings_view(v: Seq<String>) -> Seq<Seq<char>> {
    v.map_values(|s: String| s@)
}

/// `str::lines`.
pub fn split_lines(s: &str) -> (r: Vec<String>)
    ensures
        strings_view(r@) == lines(s@),
{
    let chars = str_chars(s);
    let mut done: Vec<String> = Vec::new();
    let mut cur: Vec<char> = Vec::new();
    let mut i: usize = 0;
    while i < chars.len()
        invariant
            i <= chars.len(),
            chars@ == s@,
            (strings_view(done@), cur@) == fold_lines(chars@.take(i as int)),
        decreases chars.len() - i,
    {
        let c = chars[i];
        let ghost prefix = chars@.take(i as int);
        assert(chars@.take(i + 1).drop_last() =~= prefix);
        if c == '\n' {
            let n = cur.len();
            let line = if n > 0 && cur[n - 1] == '\r' {
                string_from_chars(&crate::text::copy_range(&cur, 0, n - 1))
            } else {
                string_from_chars(&cur)
            };
            proof {
                if n > 0 && cur@[n - 1] == '\r' {
                    assert(cur@.subrange(0, n - 1) =~= cur@.drop_last());
                }
            }
            done.push(line);
            assert(strings_view(done@) =~= fold_lines(prefix).0.push(strip_cr(fold_lines(prefix).1)));
            cur = Vec::new();
        } else {
            cur.push(c);
        }
        i = i + 1;
    }
    assert(chars@.take(chars.len() as int) =~= chars@);
    if cur.len() > 0 {
        let line = string_from_chars(&cur);
        done.push(line);
        assert(strings_view(done@) =~= fold_lines(s@).0.push(fold_lines(s@).1));
    }
    done
}

fn is_blank_chars(v: &Vec<char>) -> (r: bool)
    ensures
        r == is_blank(v@),
{
    let mut i: usize = 0;
    while i < v.len()
        invariant
            i <= v.len(),
            forall|j: int| 0 <= j < i ==> is_ws(#[trigger] v@[j]),
        decreases v.len() - i,
    {
        if !crate::text::char_is_whitespace(v[i]) {
            return false;
        }
        i = i + 1;
    }
    true
}

fn clone_opt(o: &Option<String>) -> (r: Option<String>)
    ensures
        r == *o,
{
    match o {
        Some(s) => Some(s.clone()),
        None => None,
    }
}

/// Builds the playlist from its parsed entries.
pub fn playlist_from_entries(url: &str, entries: &Vec<EntryFields>) -> (r: Result<PlaylistInfo, AnalyzeError>)
    ensures
        match r {
            Ok(p) => playlist_from_entries_spec(url@, entries_view(entries@)) == Ok::<
                PlaylistView,
                AnalyzeError,
            >(p@),
            Err(e) => playlist_from_entries_spec(url@, entries_view(entries@)) == Err::<
                PlaylistView,
                AnalyzeError,
            >(e),
        },
{
    let ghost es = entries_view(entries@);
    let mut items: Vec<MediaItem> = Vec::new();
    let mut playlist_title: Option<String> = None;
    let mut source_playlist_id: Option<String> = None;
    let prefix = str_chars("https://www.youtube.com/watch?v=");
    let mut k: usize = 0;
    while k < entries.len()
        invariant
            k <= entries.len(),
            es == entries_view(entries@),
            prefix@ == watch_url_prefix(),
            items@.len() == k,
            forall|i: int| 0 <= i < k ==> #[trigger] items@[i]@ == item_of(es[i], i),
            opt_view(playlist_title) == first_some(playlist_titles(es.take(k as int))),
            opt_view(source_playlist_id) == first_some(playlist_ids(es.take(k as int))),
        decreases entries.len() - k,
    {
        let e = &entries[k];
        let ghost ev = e@;
        assert(es[k as int] == ev);
        let id: String = match &e.id {
            Some(s) => s.clone(),
            None => String::new(),
        };
        let title: String = match &e.title {
            Some(s) => s.clone(),
            None => {
                proof {
                    broadcast use vstd::string::group_string_axioms;
                }
                "Untitled".to_string()
            },
        };
        let mut url_chars = crate::text::copy_range(&prefix, 0, prefix.len());
        let idc = str_chars(id.as_str());
        append_chars(&mut url_chars, &idc);
        let item_url = string_from_chars(&url_chars);
        assert(prefix@.subrange(0, prefix.len() as int) =~= prefix@);
        if playlist_title.is_none() {
            playlist_title = clone_opt(&e.playlist_title);
        }
        if source_playlist_id.is_none() {
            source_playlist_id = clone_opt(&e.playlist_id);
        }
        let item = MediaItem {
            id,
            title,
            url: item_url,
            duration: e.duration,
            thumbnail: clone_opt(&e.thumbnail),
            index: k + 1,
        };
        assert(item@ == item_of(ev, k as int));
        items.push(item);
        proof {
            assert(es.take(k + 1).drop_last() =~= es.take(k as int));
            assert(playlist_titles(es.take(k + 1)).drop_last() =~= playlist_titles(es.take(k as int)));
            assert(playlist_ids(es.take(k + 1)).drop_last() =~= playlist_ids(es.take(k as int)));
        }
        k = k + 1;
    }
    assert(es.take(entries.len() as int) =~= es);
    if items.len() == 0 {
        return Err(AnalyzeError::NoItems);
    }
    proof {
        broadcast use vstd::string::group_string_axioms;
    }
    let spid: String = match source_playlist_id {
        Some(s) => s,
        None => url.to_string(),
    };
    let title: String = match playlist_title {
        Some(s) => s,
        None => "Playlist".to_string(),
    };
    let p = PlaylistInfo { source_playlist_id: spid, url: url.to_string(), title, items };
    assert(items_view(p.items@) =~= Seq::new(es.len(), |i: int| item_of(es[i], i)));
    Ok(p)
}

/// Builds the playlist from the analysis output: every non-blank line must
/// be JSON and is one entry.
pub fn parse_playlist_output(url: &str, out: &str) -> (r: Result<PlaylistInfo, AnalyzeError>)
    ensures
        match r {
            Ok(p) => analyze_spec(url@, out@) == Ok::<PlaylistView, AnalyzeError>(p@),
            Err(e) => analyze_spec(url@, out@) == Err::<PlaylistView, AnalyzeError>(e),
        },
{
    let all = split_lines(out);
    let ghost ls = lines(out@);
    let mut parsed: Vec<EntryFields> = Vec::new();
    let ghost mut kept: Seq<Seq<char>> = Seq::empty();
    let mut k: usize = 0;
    assert(ls.take(0) =~= Seq::<Seq<char>>::empty());
    while k < all.len()
        invariant
            k <= all.len(),
            strings_view(all@) == ls,
            ls == lines(out@),
            kept == nonblank(ls.take(k as int)),
            parsed@.len() == kept.len(),
            forall|i: int| 0 <= i < kept.len() ==> json_entry(#[trigger] kept[i]) == Some(parsed@[i]@),
        decreases all.len() - k,
    {
        let line = &all[k];
        let lc = str_chars(line.as_str());
        assert(ls.take(k + 1).drop_last() =~= ls.take(k as int));
        assert(ls.take(k + 1).last() == ls[k as int]);
        assert(strings_view(all@)[k as int] == all@[k as int]@);
        assert(lc@ == ls[k as int]);
        if !is_blank_chars(&lc) {
            match parse_entry_json(line.as_str()) {
                Some(e) => {
                    parsed.push(e);
                    proof {
                        kept = kept.push(ls[k as int]);
                    }
                },
                None => {
                    proof {
                        let kept2 = kept.push(ls[k as int]);
                        assert(kept2 == nonblank(ls.take(k + 1)));
                        lemma_nonblank_prefix_extends(ls, k as int + 1, all.len() as int);
                        assert(ls.take(all.len() as int) =~= ls);
                        lemma_map_prefix_none(kept2, nonblank(ls), kept.len() as int);
                    }
                    return Err(AnalyzeError::InvalidJson);
                },
            }
        }
        k = k + 1;
    }
    proof {
        assert(ls.take(all.len() as int) =~= ls);
        let es = entries(out@);
        assert(es.len() == parsed@.len());
        assert forall|i: int| 0 <= i < es.len() implies !(#[trigger] es[i] is None) by {
            assert(es[i] == json_entry(kept[i]));
        }
        assert(es.map_values(|e: Option<EntryView>| e.unwrap()) =~= entries_view(parsed@)) by {
            assert forall|i: int| 0 <= i < es.len() implies es.map_values(
                |e: Option<EntryView>| e.unwrap(),
            )[i] == entries_view(parsed@)[i] by {
                assert(es[i] == json_entry(kept[i]));
            }
        }
    }
    playlist_from_entries(url, &parsed)
}

proof fn lemma_nonblank_prefix_extends(ls: Seq<Seq<char>>, k: int, n: int)
    requires
        0 <= k <= n <= ls.len(),
    ensures
        nonblank(ls.take(k)).len() <= nonblank(ls.take(n)).len(),
        forall|i: int|
            0 <= i < nonblank(ls.take(k)).len() ==> #[trigger] nonblank(ls.take(n))[i]
                == nonblank(ls.take(k))[i],
    decreases n - k,
{
    if k < n {
        lemma_nonblank_prefix_extends(ls, k, n - 1);
        assert(ls.take(n).drop_last() =~= ls.take(n - 1));
    }
}

proof fn lemma_map_prefix_none(a: Seq<Seq<char>>, b: Seq<Seq<char>>, i: int)
    requires
        0 <= i < a.len() <= b.len(),
        forall|j: int| 0 <= j < a.len() ==> #[trigger] b[j] == a[j],
        json_entry(a[i]) is None,
    ensures
        exists|j: int|
            0 <= j < b.len() && #[trigger] parse_all(b)[j] is None,
{
    assert(parse_all(b)[i] is None);
}

/// `yt-dlp --flat-playlist --dump-json --no-warnings <url>`: one JSON line
/// per entry, without downloading.
pub open spec fn analyze_args_spec() -> Seq<crate::worker::ArgView> {
    seq![
        crate::worker::ArgView::Text("--flat-playlist"@),
        crate::worker::ArgView::Text("--dump-json"@),
        crate::worker::ArgView::Text("--no-warnings"@),
        crate::worker::ArgView::Url,
    ]
}

pub fn analyze_args() -> (r: Vec<crate::worker::CommandArg>)
    ensures
        crate::worker::args_view(r@) == analyze_args_spec(),
{
    let r = vec![
        crate::worker::CommandArg::Text("--flat-playlist"),
        crate::worker::CommandArg::Text("--dump-json"),
        crate::worker::CommandArg::Text("--no-warnings"),
        crate::worker::CommandArg::Url,
    ];
    assert(crate::worker::args_view(r@) =~= analyze_args_spec());
    r
}

/// The error reported when the analysis run exits unsuccessfully.
pub fn analyze_failed_message(stderr_text: &str) -> (r: String)
    ensures
        r@ == "yt-dlp analyze failed: "@ + stderr_text@,
{
    let mut v = str_chars("yt-dlp analyze failed: ");
    append_chars(&mut v, &str_chars(stderr_text));
    string_from_chars(&v)
}

/// Items are numbered 1, 2, ... in output order, each links to its video,
/// and the playlist is never empty.
pub proof fn lemma_items_are_numbered(url: Seq<char>, es: Seq<EntryView>)
    requires
        es.len() <= usize::MAX,
    ensures
        playlist_from_entries_spec(url, es) matches Ok(p) ==> {
            &&& p.items.len() == es.len() >= 1
            &&& forall|i: int|
                0 <= i < p.items.len() ==> (#[trigger] p.items[i]).index == i + 1 && p.items[i].url
                    == watch_url_prefix() + p.items[i].id
        },
{
}

/// Each item carries its entry's fields: the id (empty when missing), the
/// title (`Untitled` when missing), the duration and thumbnail as read, and
/// the link to the video; the playlist keeps the URL it was asked for.
pub proof fn lemma_items_carry_their_entries(url: Seq<char>, es: Seq<EntryView>)
    requires
        es.len() <= usize::MAX,
    ensures
        playlist_from_entries_spec(url, es) matches Ok(p) ==> {
            &&& p.url == url
            &&& forall|i: int|
                0 <= i < es.len() ==> {
                    &&& (#[trigger] p.items[i]).duration == es[i].duration
                    &&& p.items[i].thumbnail == es[i].thumbnail
                    &&& p.items[i].id == (match es[i].id {
                        Some(id) => id,
                        None => Seq::<char>::empty(),
                    })
                    &&& p.items[i].title == (match es[i].title {
                        Some(t) => t,
                        None => "Untitled"@,
                    })
                    &&& p.items[i].url == "https://www.youtube.com/watch?v="@ + p.items[i].id
                }
        },
        (playlist_from_entries_spec(url, es) is Err) <==> es.len() == 0,
{
}

/// `first_some` gives the value of the earliest `Some`, and `None` when
/// there is none.
proof fn lemma_first_some_is_earliest(s: Seq<Option<Seq<char>>>)
    ensures
        forall|k: int|
            0 <= k < s.len() && #[trigger] s[k] is Some && (forall|j: int| 0 <= j < k ==> s[j] is None)
                ==> first_some(s) == s[k],
        (forall|j: int| 0 <= j < s.len() ==> s[j] is None) ==> first_some(s) is None,
    decreases s.len(),
{
    if s.len() > 0 {
        let p = s.drop_last();
        lemma_first_some_is_earliest(p);
        assert forall|k: int|
            0 <= k < s.len() && #[trigger] s[k] is Some && (forall|j: int| 0 <= j < k ==> s[j] is None)
                implies first_some(s) == s[k] by {
            if k < s.len() - 1 {
                assert(p[k] == s[k]);
                assert forall|j: int| 0 <= j < k implies p[j] is None by {
                    assert(p[j] == s[j]);
                }
            } else {
                assert forall|j: int| 0 <= j < p.len() implies p[j] is None by {
                    assert(p[j] == s[j]);
                }
            }
        }
        if forall|j: int| 0 <= j < s.len() ==> s[j] is None {
            assert forall|j: int| 0 <= j < p.len() implies p[j] is None by {
                assert(p[j] == s[j]);
            }
            assert(s[s.len() - 1] is None);
        }
    }
}

/// The playlist is named by the earliest entry that gives a playlist title,
/// and identified by the earliest entry that gives a playlist id; with no
/// title it is called `Playlist`, and with no id its URL stands for the id.
pub proof fn lemma_playlist_named_by_earliest_entry(url: Seq<char>, es: Seq<EntryView>)
    requires
        es.len() <= usize::MAX,
    ensures
        playlist_from_entries_spec(url, es) matches Ok(p) ==> {
            &&& forall|k: int|
                0 <= k < es.len() && (#[trigger] es[k].playlist_title is Some) && (forall|j: int|
                    0 <= j < k ==> es[j].playlist_title is None) ==> p.title == es[k].playlist_title->Some_0
            &&& (forall|j: int| 0 <= j < es.len() ==> es[j].playlist_title is None) ==> p.title
                == "Playlist"@
            &&& forall|k: int|
                0 <= k < es.len() && (#[trigger] es[k].playlist_id is Some) && (forall|j: int|
                    0 <= j < k ==> es[j].playlist_id is None) ==> p.source_playlist_id
                    == es[k].playlist_id->Some_0
            &&& (forall|j: int| 0 <= j < es.len() ==> es[j].playlist_id is None) ==> p.source_playlist_id
                == url
        },
{
    let ts = playlist_titles(es);
    let is = playlist_ids(es);
    lemma_first_some_is_earliest(ts);
    lemma_first_some_is_earliest(is);
    assert forall|k: int|
        0 <= k < es.len() && (#[trigger] es[k].playlist_title is Some) && (forall|j: int|
            0 <= j < k ==> es[j].playlist_title is None) implies first_some(ts) == es[k].playlist_title by {
        assert(ts[k] == es[k].playlist_title);
        assert forall|j: int| 0 <= j < k implies ts[j] is None by {
            assert(ts[j] == es[j].playlist_title);
        }
    }
    assert forall|k: int|
        0 <= k < es.len() && (#[trigger] es[k].playlist_id is Some) && (forall|j: int|
            0 <= j < k ==> es[j].playlist_id is None) implies first_some(is) == es[k].playlist_id by {
        assert(is[k] == es[k].playlist_id);
        assert forall|j: int| 0 <= j < k implies is[j] is None by {
            assert(is[j] == es[j].playlist_id);
        }
    }
    if forall|j: int| 0 <= j < es.len() ==> es[j].playlist_title is None {
        assert forall|j: int| 0 <= j < ts.len() implies ts[j] is None by {
            assert(ts[j] == es[j].playlist_title);
        }
    }
    if forall|j: int| 0 <= j < es.len() ==> es[j].playlist_id is None {
        assert forall|j: int| 0 <= j < is.len() implies is[j] is None by {
            assert(is[j] == es[j].playlist_id);
        }
    }
}

/// The non-blank lines are kept, and only they: each kept line is a
/// non-blank line of the input and each non-blank line of the input is kept.
proof fn lemma_nonblank_keeps_exactly(ls: Seq<Seq<char>>)
    ensures
        forall|k: int|
            0 <= k < nonblank(ls).len() ==> exists|i: int|
                0 <= i < ls.len() && #[trigger] nonblank(ls)[k] == ls[i] && !is_blank(ls[i]),
        forall|i: int|
            0 <= i < ls.len() && !is_blank(#[trigger] ls[i]) ==> exists|k: int|
                0 <= k < nonblank(ls).len() && nonblank(ls)[k] == ls[i],
    decreases ls.len(),
{
    if ls.len() > 0 {
        let p = ls.drop_last();
        lemma_nonblank_keeps_exactly(p);
        let n = nonblank(ls);
        let m = nonblank(p);
        assert forall|k: int| 0 <= k < n.len() implies exists|i: int|
            0 <= i < ls.len() && #[trigger] n[k] == ls[i] && !is_blank(ls[i]) by {
            if k < m.len() {
                assert(n[k] == m[k]);
                let i = choose|i: int| 0 <= i < p.len() && #[trigger] m[k] == p[i] && !is_blank(p[i]);
                assert(ls[i] == p[i]);
            } else {
                assert(n[k] == ls.last());
                assert(n[k] == ls[ls.len() - 1]);
            }
        }
        assert forall|i: int| 0 <= i < ls.len() && !is_blank(#[trigger] ls[i]) implies exists|k: int|
            0 <= k < n.len() && n[k] == ls[i] by {
            if i < ls.len() - 1 {
                assert(p[i] == ls[i]);
                let k = choose|k: int| 0 <= k < m.len() && m[k] == p[i];
                assert(n[k] == m[k]);
            } else {
                assert(n[m.len() as int] == ls.last());
            }
        }
    }
}

/// Blank lines of the analysis output are skipped, and every other line
/// must be JSON: the analysis fails as invalid exactly when some non-blank
/// line is not JSON, and finds no items exactly when, short of that, every
/// line is blank.
pub proof fn lemma_analysis_reads_nonblank_lines(url: Seq<char>, out: Seq<char>)
    ensures
        analyze_spec(url, out) == Err::<PlaylistView, AnalyzeError>(AnalyzeError::InvalidJson) <==> exists|i: int|
            0 <= i < lines(out).len() && !is_blank(#[trigger] lines(out)[i]) && json_entry(lines(out)[i])
                is None,
        analyze_spec(url, out) == Err::<PlaylistView, AnalyzeError>(AnalyzeError::NoItems) <==> forall|i: int|
            0 <= i < lines(out).len() ==> is_blank(#[trigger] lines(out)[i]),
{
    let ls = lines(out);
    let n = nonblank(ls);
    let es = entries(out);
    lemma_nonblank_keeps_exactly(ls);
    if exists|i: int| 0 <= i < ls.len() && !is_blank(#[trigger] ls[i]) && json_entry(ls[i]) is None {
        let i = choose|i: int| 0 <= i < ls.len() && !is_blank(#[trigger] ls[i]) && json_entry(ls[i]) is None;
        let k = choose|k: int| 0 <= k < n.len() && n[k] == ls[i];
        assert(es[k] is None);
    }
    if exists|k: int| 0 <= k < es.len() && #[trigger] es[k] is None {
        let k = choose|k: int| 0 <= k < es.len() && #[trigger] es[k] is None;
        let i = choose|i: int| 0 <= i < ls.len() && #[trigger] n[k] == ls[i] && !is_blank(ls[i]);
        assert(json_entry(ls[i]) is None);
    }
    if forall|i: int| 0 <= i < ls.len() ==> is_blank(#[trigger] ls[i]) {
        if n.len() > 0 {
            let i = choose|i: int| 0 <= i < ls.len() && #[trigger] n[0] == ls[i] && !is_blank(ls[i]);
        }
    } else {
        let i = choose|i: int| 0 <= i < ls.len() && !is_blank(#[trigger] ls[i]);
        let k = choose|k: int| 0 <= k < n.len() && n[k] == ls[i];
    }
}

/// A successful analysis has one item per non-blank line, in order, each
/// carrying the duration read from its line.
pub proof fn lemma_analysis_items_follow_lines(url: Seq<char>, out: Seq<char>)
    ensures
        analyze_spec(url, out) matches Ok(p) ==> {
            &&& p.items.len() == nonblank(lines(out)).len()
            &&& forall|k: int|
                0 <= k < p.items.len() ==> (json_entry(nonblank(lines(out))[k]) matches Some(e) && (
                #[trigger] p.items[k]).duration == e.duration)
        },
{
    let es = entries(out);
    if analyze_spec(url, out) is Ok {
        let fs = es.map_values(|e: Option<EntryView>| e.unwrap());
        let p = playlist_from_entries_spec(url, fs).unwrap();
        assert forall|k: int| 0 <= k < p.items.len() implies (json_entry(nonblank(lines(out))[k]) matches Some(e)
            && (#[trigger] p.items[k]).duration == e.duration) by {
            assert(es[k] == json_entry(nonblank(lines(out))[k]));
            assert(!(es[k] is None));
            assert(fs[k] == es[k].unwrap());
            assert(p.items[k] == item_of(fs[k], k));
        }
    }
}

} // verus!
