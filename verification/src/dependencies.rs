//! The checks behind fetching yt-dlp and ffmpeg on first launch: finding the
//! release assets, verifying the downloaded executable against the published
//! SHA-256 sums, and picking the executables out of the ffmpeg archive.
use vstd::prelude::*;
use sha2::Digest;
use crate::playlist::{lines, opt_view, split_lines, strings_view};
use crate::text::{
    append_chars, copy_range, ends_with, is_ws, skip_ws_forward, str_chars, str_eq,
    string_from_chars, trim_start_ws, char_is_whitespace, chars_eq,
};

verus! {

/// The two fields of a release asset that are read.
pub struct AssetFields {
    pub name: Option<String>,
    pub browser_download_url: Option<String>,
}

pub struct AssetView {
    pub name: Option<Seq<char>>,
    pub browser_download_url: Option<Seq<char>>,
}

impl View for AssetFields {
    type V = AssetView;

    open spec fn view(&self) -> AssetView {
        AssetView { name: opt_view(self.name), browser_download_url: opt_view(self.browser_download_url) }
    }
}

pub open spec fn assets_view(v: Seq<AssetFields>) -> Seq<AssetView> {
    v.map_values(|a: AssetFields| a@)
}

/// The download URL of the first asset called `name` (`None` when there is
/// no such asset or it has no URL).
pub open spec fn find_asset_url_spec(assets: Seq<AssetView>, name: Seq<char>) -> Option<Seq<char>>
    decreases assets.len(),
{
    if assets.len() == 0 {
        None
    } else if assets[0].name == Some(name) {
        assets[0].browser_download_url
    } else {
        find_asset_url_spec(assets.drop_first(), name)
    }
}

pub fn find_asset_url(assets: &Vec<AssetFields>, name: &str) -> (r: Option<String>)
    ensures
        opt_view(r) == find_asset_url_spec(assets_view(assets@), name@),
{
    let ghost all = assets_view(assets@);
    let mut i: usize = 0;
    assert(all.skip(0) =~= all);
    while i < assets.len()
        invariant
            i <= assets.len(),
            all == assets_view(assets@),
            find_asset_url_spec(all, name@) == find_asset_url_spec(all.skip(i as int), name@),
        decreases assets.len() - i,
    {
        assert(all.skip(i as int)[0] == assets@[i as int]@);
        assert(all.skip(i as int).drop_first() =~= all.skip(i + 1));
        let matches = match &assets[i].name {
            Some(n) => str_eq(n.as_str(), name),
            None => false,
        };
        if matches {
            return assets[i].browser_download_url.clone();
        }
        i = i + 1;
    }
    None
}

/// The first line of `ls` that ends with `f`.
pub open spec fn find_line(ls: Seq<Seq<char>>, f: Seq<char>) -> Option<Seq<char>>
    decreases ls.len(),
{
    if ls.len() == 0 {
        None
    } else if ends_with(ls[0], f) {
        Some(ls[0])
    } else {
        find_line(ls.drop_first(), f)
    }
}

/// The characters of `t` before its first whitespace.
pub open spec fn take_until_ws(t: Seq<char>) -> Seq<char>
    decreases t.len(),
{
    if t.len() == 0 || is_ws(t[0]) {
        Seq::empty()
    } else {
        seq![t[0]] + take_until_ws(t.drop_first())
    }
}

/// `split_whitespace().next()`.
pub open spec fn first_word(l: Seq<char>) -> Option<Seq<char>> {
    let t = trim_start_ws(l);
    if t.len() == 0 {
        None
    } else {
        Some(take_until_ws(t))
    }
}

/// The checksum listed for `file` in a `SHA2-256SUMS` text: the first word of
/// the first line ending with the file name.
pub open spec fn expected_checksum_spec(sums: Seq<char>, file: Seq<char>) -> Option<Seq<char>> {
    match find_line(lines(sums), file) {
        Some(l) => first_word(l),
        None => None,
    }
}

proof fn lemma_take_until_ws(t: Seq<char>, k: int)
    requires
        0 <= k <= t.len(),
        forall|j: int| 0 <= j < k ==> !is_ws(#[trigger] t[j]),
        k == t.len() || is_ws(t[k]),
    ensures
        take_until_ws(t) == t.take(k),
    decreases k,
{
    if k == 0 {
        assert(t.take(0) =~= Seq::<char>::empty());
    } else {
        let u = t.drop_first();
        assert forall|j: int| 0 <= j < k - 1 implies !is_ws(#[trigger] u[j]) by {
            assert(u[j] == t[j + 1]);
        }
        if k < t.len() {
            assert(u[k - 1] == t[k]);
        }
        lemma_take_until_ws(u, k - 1);
        assert(seq![t[0]] + u.take(k - 1) =~= t.take(k));
    }
}

fn first_word_chars(v: &Vec<char>) -> (r: Option<Vec<char>>)
    ensures
        match r {
            Some(w) => first_word(v@) == Some(w@),
            None => first_word(v@) is None,
        },
{
    let a = skip_ws_forward(v, 0, v.len());
    proof {
        crate::text::lemma_trim_start_ws_skip(v@, a as int);
    }
    if a == v.len() {
        return None;
    }
    let mut b = a;
    while b < v.len() && !char_is_whitespace(v[b])
        invariant
            a <= b <= v.len(),
            forall|j: int| a <= j < b ==> !is_ws(#[trigger] v@[j]),
        decreases v.len() - b,
    {
        b = b + 1;
    }
    proof {
        let t = v@.subrange(a as int, v.len() as int);
        assert forall|j: int| 0 <= j < b - a implies !is_ws(#[trigger] t[j]) by {
            assert(t[j] == v@[a + j]);
        }
        if b < v.len() {
            assert(t[b - a] == v@[b as int]);
        }
        lemma_take_until_ws(t, b - a);
        assert(t.take(b - a) =~= v@.subrange(a as int, b as int));
    }
    Some(copy_range(v, a, b))
}

fn ends_with_chars(a: &Vec<char>, b: &Vec<char>) -> (r: bool)
    ensures
        r == ends_with(a@, b@),
{
    if b.len() > a.len() {
        return false;
    }
    let tail = copy_range(a, a.len() - b.len(), a.len());
    chars_eq(&tail, b)
}

pub fn expected_checksum(sums_text: &str, file: &str) -> (r: Option<String>)
    ensures
        opt_view(r) == expected_checksum_spec(sums_text@, file@),
{
    let ls = split_lines(sums_text);
    let ghost all = lines(sums_text@);
    let f = str_chars(file);
    let mut i: usize = 0;
    assert(all.skip(0) =~= all);
    while i < ls.len()
        invariant
            i <= ls.len(),
            strings_view(ls@) == all,
            all == lines(sums_text@),
            f@ == file@,
            find_line(all, f@) == find_line(all.skip(i as int), f@),
        decreases ls.len() - i,
    {
        assert(all.skip(i as int)[0] == ls@[i as int]@);
        assert(all.skip(i as int).drop_first() =~= all.skip(i + 1));
        let l = str_chars(ls[i].as_str());
        if ends_with_chars(&l, &f) {
            assert(l@ == all.skip(i as int)[0]);
            assert(find_line(all.skip(i as int), f@) == Some(l@));
            return match first_word_chars(&l) {
                Some(w) => Some(string_from_chars(&w)),
                None => None,
            };
        }
        i = i + 1;
    }
    None
}

/// SHA-256 of `data` (the 32-byte digest).
pub uninterp spec fn sha256(data: Seq<u8>) -> Seq<u8>;

/// `sha2::Sha256` over `data`: new, update, finalize. The contract names the
/// digest and its length; the hash function itself is sha2's.
#[verifier::external_body]
fn sha256_digest(data: &[u8]) -> (r: Vec<u8>)
    ensures
        r@ == sha256(data@),
        r@.len() == 32,
{
    let mut hasher = sha2::Sha256::new();
    hasher.update(data);
    hasher.finalize().to_vec()
}

pub open spec fn hex_digit(d: nat) -> char {
    if d < 10 {
        crate::text::digit_char(d)
    } else if d == 10 {
        'a'
    } else if d == 11 {
        'b'
    } else if d == 12 {
        'c'
    } else if d == 13 {
        'd'
    } else if d == 14 {
        'e'
    } else {
        'f'
    }
}

/// Two lower-case hex digits per byte (`{:x}` of a digest).
pub open spec fn lower_hex(b: Seq<u8>) -> Seq<char>
    decreases b.len(),
{
    if b.len() == 0 {
        Seq::empty()
    } else {
        lower_hex(b.drop_last()) + seq![hex_digit((b.last() / 16) as nat), hex_digit((b.last() % 16) as nat)]
    }
}

fn hex_char(d: u8) -> (c: char)
    requires
        d < 16,
    ensures
        c == hex_digit(d as nat),
{
    if d == 0 { '0' } else if d == 1 { '1' } else if d == 2 { '2' } else if d == 3 { '3' }
    else if d == 4 { '4' } else if d == 5 { '5' } else if d == 6 { '6' } else if d == 7 { '7' }
    else if d == 8 { '8' } else if d == 9 { '9' } else if d == 10 { 'a' } else if d == 11 { 'b' }
    else if d == 12 { 'c' } else if d == 13 { 'd' } else if d == 14 { 'e' } else { 'f' }
}

pub fn to_lower_hex(b: &Vec<u8>) -> (r: Vec<char>)
    ensures
        r@ == lower_hex(b@),
{
    let mut r: Vec<char> = Vec::new();
    let mut i: usize = 0;
    while i < b.len()
        invariant
            i <= b.len(),
            r@ == lower_hex(b@.take(i as int)),
        decreases b.len() - i,
    {
        let x = b[i];
        r.push(hex_char(x / 16));
        r.push(hex_char(x % 16));
        assert(b@.take(i + 1).drop_last() =~= b@.take(i as int));
        i = i + 1;
    }
    assert(b@.take(b.len() as int) =~= b@);
    r
}

/// Why a downloaded yt-dlp was rejected.
pub enum ChecksumError {
    /// The release publishes no `SHA2-256SUMS` file to verify against.
    NoSums,
    /// The sums file lists no checksum for `yt-dlp.exe`.
    Missing,
    /// The download's digest differs from the listed one.
    Mismatch { expected: String, actual: String },
}

pub open spec fn ytdlp_exe() -> Seq<char> {
    "yt-dlp.exe"@
}

/// Judges a download by its digest: accepted exactly when the lower-case hex
/// digest equals the listed checksum.
pub fn compare_digest(digest: &Vec<u8>, expected: String) -> (r: Result<(), ChecksumError>)
    ensures
        lower_hex(digest@) == expected@ ==> r is Ok,
        lower_hex(digest@) != expected@ ==> (r matches Err(ChecksumError::Mismatch { expected: e, actual })
            && e == expected && actual@ == lower_hex(digest@)),
{
    let actual = to_lower_hex(digest);
    let e = str_chars(expected.as_str());
    if chars_eq(&actual, &e) {
        Ok(())
    } else {
        Err(ChecksumError::Mismatch { expected, actual: string_from_chars(&actual) })
    }
}

/// A download is accepted only when the release's sums file lists a checksum
/// for `yt-dlp.exe` equal to the lower-case hex SHA-256 of the download.
pub fn verify_ytdlp_download(data: &[u8], sums_text: Option<&str>) -> (r: Result<(), ChecksumError>)
    ensures
        match sums_text {
            None => r is Err && r->Err_0 is NoSums,
            Some(text) => match expected_checksum_spec(text@, ytdlp_exe()) {
                None => r is Err && r->Err_0 is Missing,
                Some(e) => if lower_hex(sha256(data@)) == e {
                    r is Ok
                } else {
                    r matches Err(ChecksumError::Mismatch { expected, actual }) && expected@ == e
                        && actual@ == lower_hex(sha256(data@))
                },
            },
        },
{
    match sums_text {
        None => Err(ChecksumError::NoSums),
        Some(text) => match expected_checksum(text, "yt-dlp.exe") {
            None => Err(ChecksumError::Missing),
            Some(expected) => {
                let digest = sha256_digest(data);
                compare_digest(&digest, expected)
            },
        },
    }
}

impl ChecksumError {
    /// The message the application shows.
    pub fn message(&self) -> (r: String)
        ensures
            r@ == (match self {
                ChecksumError::NoSums => "yt-dlp release has no SHA2-256SUMS to verify against"@,
                ChecksumError::Missing => "yt-dlp.exe checksum not present in SHA2-256SUMS"@,
                ChecksumError::Mismatch { expected, actual } => "yt-dlp.exe checksum mismatch: expected "@
                    + expected@ + ", got "@ + actual@,
            }),
    {
        match self {
            ChecksumError::NoSums => string_from_chars(
                &str_chars("yt-dlp release has no SHA2-256SUMS to verify against"),
            ),
            ChecksumError::Missing => string_from_chars(
                &str_chars("yt-dlp.exe checksum not present in SHA2-256SUMS"),
            ),
            ChecksumError::Mismatch { expected, actual } => {
                let mut v = str_chars("yt-dlp.exe checksum mismatch: expected ");
                append_chars(&mut v, &str_chars(expected.as_str()));
                append_chars(&mut v, &str_chars(", got "));
                append_chars(&mut v, &str_chars(actual.as_str()));
                string_from_chars(&v)
            },
        }
    }
}

/// The last position in `names[..n]` whose name ends with `suffix`.
pub open spec fn last_match(names: Seq<Seq<char>>, suffix: Seq<char>, n: nat) -> Option<int>
    decreases n,
{
    if n == 0 {
        None
    } else if ends_with(names[n - 1], suffix) {
        Some(n - 1)
    } else {
        last_match(names, suffix, (n - 1) as nat)
    }
}

pub open spec fn opt_usize_view(o: Option<usize>) -> Option<int> {
    match o {
        Some(i) => Some(i as int),
        None => None,
    }
}

/// The archive entries to extract: the last entry ending in
/// `bin/ffmpeg.exe` and the last ending in `bin/ffprobe.exe`.
pub fn select_archive_entries(names: &Vec<String>) -> (r: (Option<usize>, Option<usize>))
    ensures
        opt_usize_view(r.0) == last_match(strings_view(names@), "bin/ffmpeg.exe"@, names@.len()),
        opt_usize_view(r.1) == last_match(strings_view(names@), "bin/ffprobe.exe"@, names@.len()),
{
    let ffmpeg = str_chars("bin/ffmpeg.exe");
    let ffprobe = str_chars("bin/ffprobe.exe");
    let mut a: Option<usize> = None;
    let mut b: Option<usize> = None;
    let mut i: usize = 0;
    while i < names.len()
        invariant
            i <= names.len(),
            ffmpeg@ == "bin/ffmpeg.exe"@,
            ffprobe@ == "bin/ffprobe.exe"@,
            opt_usize_view(a) == last_match(strings_view(names@), ffmpeg@, i as nat),
            opt_usize_view(b) == last_match(strings_view(names@), ffprobe@, i as nat),
        decreases names.len() - i,
    {
        let n = str_chars(names[i].as_str());
        assert(strings_view(names@)[i as int] == n@);
        if ends_with_chars(&n, &ffmpeg) {
            a = Some(i);
        }
        if ends_with_chars(&n, &ffprobe) {
            b = Some(i);
        }
        i = i + 1;
    }
    (a, b)
}

/// The asset URL found for `name` is that of the earliest asset called
/// `name`; there is none when no asset has that name.
pub proof fn lemma_asset_found_is_earliest(assets: Seq<AssetView>, name: Seq<char>)
    ensures
        forall|k: int|
            0 <= k < assets.len() && #[trigger] assets[k].name == Some(name) && (forall|j: int|
                0 <= j < k ==> assets[j].name != Some(name)) ==> find_asset_url_spec(assets, name)
                == assets[k].browser_download_url,
        (forall|j: int| 0 <= j < assets.len() ==> assets[j].name != Some(name)) ==> find_asset_url_spec(
            assets,
            name,
        ) is None,
    decreases assets.len(),
{
    if assets.len() > 0 {
        let rest = assets.drop_first();
        lemma_asset_found_is_earliest(rest, name);
        assert forall|k: int|
            0 <= k < assets.len() && #[trigger] assets[k].name == Some(name) && (forall|j: int|
                0 <= j < k ==> assets[j].name != Some(name)) implies find_asset_url_spec(assets, name)
                == assets[k].browser_download_url by {
            if k > 0 {
                assert(assets[0].name != Some(name));
                assert(rest[k - 1] == assets[k]);
                assert forall|j: int| 0 <= j < k - 1 implies rest[j].name != Some(name) by {
                    assert(rest[j] == assets[j + 1]);
                }
            }
        }
        if forall|j: int| 0 <= j < assets.len() ==> assets[j].name != Some(name) {
            assert(assets[0].name != Some(name));
            assert forall|j: int| 0 <= j < rest.len() implies rest[j].name != Some(name) by {
                assert(rest[j] == assets[j + 1]);
            }
        }
    }
}

/// The line found for `f` is the earliest line that ends with `f`.
proof fn lemma_found_line_is_earliest(ls: Seq<Seq<char>>, f: Seq<char>)
    ensures
        forall|k: int|
            0 <= k < ls.len() && ends_with(#[trigger] ls[k], f) && (forall|j: int|
                0 <= j < k ==> !ends_with(ls[j], f)) ==> find_line(ls, f) == Some(ls[k]),
        (forall|j: int| 0 <= j < ls.len() ==> !ends_with(ls[j], f)) ==> find_line(ls, f) is None,
    decreases ls.len(),
{
    if ls.len() > 0 {
        let rest = ls.drop_first();
        lemma_found_line_is_earliest(rest, f);
        assert forall|k: int|
            0 <= k < ls.len() && ends_with(#[trigger] ls[k], f) && (forall|j: int|
                0 <= j < k ==> !ends_with(ls[j], f)) implies find_line(ls, f) == Some(ls[k]) by {
            if k > 0 {
                assert(!ends_with(ls[0], f));
                assert(rest[k - 1] == ls[k]);
                assert forall|j: int| 0 <= j < k - 1 implies !ends_with(rest[j], f) by {
                    assert(rest[j] == ls[j + 1]);
                }
            }
        }
        if forall|j: int| 0 <= j < ls.len() ==> !ends_with(ls[j], f) {
            assert(!ends_with(ls[0], f));
            assert forall|j: int| 0 <= j < rest.len() implies !ends_with(rest[j], f) by {
                assert(rest[j] == ls[j + 1]);
            }
        }
    }
}

/// The checksum listed for a file comes from the earliest line of the sums
/// text that ends with the file's name: it is that line's first word, made
/// of no whitespace and standing after only whitespace; no such line, or
/// one of whitespace alone, lists no checksum.
pub proof fn lemma_checksum_from_earliest_line(sums: Seq<char>, file: Seq<char>)
    ensures
        forall|k: int|
            0 <= k < lines(sums).len() && ends_with(#[trigger] lines(sums)[k], file) && (forall|j: int|
                0 <= j < k ==> !ends_with(lines(sums)[j], file)) ==> expected_checksum_spec(sums, file)
                == first_word(lines(sums)[k]),
        (forall|j: int| 0 <= j < lines(sums).len() ==> !ends_with(lines(sums)[j], file))
            ==> expected_checksum_spec(sums, file) is None,
{
    lemma_found_line_is_earliest(lines(sums), file);
}

/// The position of the first non-whitespace character at or after `i`
/// (the length when there is none), given only whitespace before `i`.
proof fn first_non_ws_from(l: Seq<char>, i: int) -> (k: int)
    requires
        0 <= i <= l.len(),
        forall|j: int| 0 <= j < i ==> is_ws(#[trigger] l[j]),
    ensures
        i <= k <= l.len(),
        forall|j: int| 0 <= j < k ==> is_ws(#[trigger] l[j]),
        k == l.len() || !is_ws(l[k]),
    decreases l.len() - i,
{
    if i == l.len() || !is_ws(l[i]) {
        i
    } else {
        first_non_ws_from(l, i + 1)
    }
}

/// The position of the first whitespace character at or after `i` (the
/// length when there is none), given no whitespace before `i`.
proof fn first_ws_from(l: Seq<char>, i: int) -> (k: int)
    requires
        0 <= i <= l.len(),
        forall|j: int| 0 <= j < i ==> !is_ws(#[trigger] l[j]),
    ensures
        i <= k <= l.len(),
        forall|j: int| 0 <= j < k ==> !is_ws(#[trigger] l[j]),
        k == l.len() || is_ws(l[k]),
    decreases l.len() - i,
{
    if i == l.len() || is_ws(l[i]) {
        i
    } else {
        first_ws_from(l, i + 1)
    }
}

/// The first word of a line: `None` exactly when the line is whitespace
/// alone; otherwise a non-empty run of non-whitespace characters, standing
/// at the returned position after only whitespace, that ends the line or
/// stands before whitespace.
pub proof fn lemma_first_word_shape(l: Seq<char>) -> (a: int)
    ensures
        first_word(l) is None <==> (forall|i: int| 0 <= i < l.len() ==> is_ws(#[trigger] l[i])),
        first_word(l) matches Some(w) ==> {
            &&& 0 <= a && a + w.len() <= l.len() && w.len() >= 1
            &&& l.subrange(a, a + w.len()) == w
            &&& forall|i: int| 0 <= i < a ==> is_ws(#[trigger] l[i])
            &&& forall|i: int| 0 <= i < w.len() ==> !is_ws(#[trigger] w[i])
            &&& a + w.len() == l.len() || is_ws(l[a + w.len()])
        },
{
    let k = first_non_ws_from(l, 0);
    crate::text::lemma_trim_start_ws_skip(l, k);
    let t = trim_start_ws(l);
    if k < l.len() {
        let e = first_ws_from(t, 0);
        lemma_take_until_ws(t, e);
        let w = t.take(e);
        assert(t[0] == l[k]);
        assert(l.subrange(k, k + w.len()) =~= w);
        assert forall|i: int| 0 <= i < w.len() implies !is_ws(#[trigger] w[i]) by {
            assert(w[i] == t[i]);
        }
        if k + w.len() < l.len() {
            assert(t[e] == l[k + e]);
        }
    }
    k
}

/// The entry picked among the first `n` names for `suffix` is the last one
/// that ends with it: nothing after it does; none is picked exactly when no
/// name does.
pub proof fn lemma_picked_entry_is_last(names: Seq<Seq<char>>, suffix: Seq<char>, n: nat)
    requires
        n <= names.len(),
    ensures
        last_match(names, suffix, n) matches Some(i) ==> {
            &&& 0 <= i < n
            &&& ends_with(names[i], suffix)
            &&& forall|j: int| i < j < n ==> !ends_with(#[trigger] names[j], suffix)
        },
        last_match(names, suffix, n) is None <==> (forall|j: int|
            0 <= j < n ==> !ends_with(#[trigger] names[j], suffix)),
    decreases n,
{
    if n > 0 {
        lemma_picked_entry_is_last(names, suffix, (n - 1) as nat);
    }
}

} // verus!
