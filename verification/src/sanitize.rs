//! Windows-path-safe cleanup for a single path component built by the app
//! (the playlist-title folder segment).
use vstd::prelude::*;
use crate::text::{
    append_chars, char_is_control, char_is_whitespace, copy_range, is_control, is_ws,
    lemma_trim_start_ws_skip, skip_ws_forward, str_chars, string_from_chars, trim_start_ws,
};

verus! {

/// Characters Windows refuses in a file name.
pub open spec fn is_illegal(c: char) -> bool {
    ||| c == '<'
    ||| c == '>'
    ||| c == ':'
    ||| c == '"'
    ||| c == '/'
    ||| c == '\\'
    ||| c == '|'
    ||| c == '?'
    ||| c == '*'
}

/// Illegal and control characters become `_`; everything else is kept.
pub open spec fn clean_char(c: char) -> char {
    if is_illegal(c) || is_control(c) {
        '_'
    } else {
        c
    }
}

pub open spec fn cleaned(s: Seq<char>) -> Seq<char> {
    s.map_values(|c: char| clean_char(c))
}

/// Characters Windows strips from the end of a name.
pub open spec fn is_end_junk(c: char) -> bool {
    is_ws(c) || c == '.'
}

/// `s` without its trailing dots and whitespace, however they alternate.
pub open spec fn strip_end(s: Seq<char>) -> Seq<char>
    decreases s.len(),
{
    if s.len() > 0 && is_end_junk(s.last()) {
        strip_end(s.drop_last())
    } else {
        s
    }
}

/// The cleaned text without leading whitespace or trailing dots and
/// whitespace.
pub open spec fn trimmed(s: Seq<char>) -> Seq<char> {
    strip_end(trim_start_ws(cleaned(s)))
}

pub open spec fn untitled() -> Seq<char> {
    seq!['U', 'n', 't', 'i', 't', 'l', 'e', 'd']
}

/// Longest component the sanitizer keeps, in characters.
pub open spec fn max_component_chars() -> nat {
    150
}

/// The first 150 characters (all of them if there are fewer).
pub open spec fn truncated(b: Seq<char>) -> Seq<char> {
    if b.len() <= max_component_chars() {
        b
    } else {
        b.take(max_component_chars() as int)
    }
}

/// The trimmed text cut to 150 characters and trimmed again at its end, or
/// `Untitled` when nothing is left.
pub open spec fn named(s: Seq<char>) -> Seq<char> {
    let t = strip_end(truncated(trimmed(s)));
    if t.len() == 0 {
        untitled()
    } else {
        t
    }
}

/// The part of a name before its first `.` (the whole name if it has none).
pub open spec fn stem(s: Seq<char>) -> Seq<char>
    decreases s.len(),
{
    if s.len() == 0 || s[0] == '.' {
        Seq::empty()
    } else {
        seq![s[0]] + stem(s.drop_first())
    }
}

/// `char::to_ascii_lowercase`, as a code point.
pub open spec fn ascii_lower(c: char) -> u32 {
    let u = c as u32;
    if 0x41 <= u <= 0x5a {
        (u + 0x20) as u32
    } else {
        u
    }
}

/// `str::eq_ignore_ascii_case`.
pub open spec fn eq_ignore_ascii_case(a: Seq<char>, b: Seq<char>) -> bool {
    &&& a.len() == b.len()
    &&& forall|i: int| 0 <= i < a.len() ==> ascii_lower(#[trigger] a[i]) == ascii_lower(b[i])
}

/// `t` is one of the device names CON, PRN, AUX, NUL, COM1..COM9, LPT1..LPT9,
/// ignoring ASCII case.
pub open spec fn is_reserved_stem(t: Seq<char>) -> bool {
    ||| eq_ignore_ascii_case(t, seq!['C', 'O', 'N'])
    ||| eq_ignore_ascii_case(t, seq!['P', 'R', 'N'])
    ||| eq_ignore_ascii_case(t, seq!['A', 'U', 'X'])
    ||| eq_ignore_ascii_case(t, seq!['N', 'U', 'L'])
    ||| (t.len() == 4 && eq_ignore_ascii_case(t.take(3), seq!['C', 'O', 'M']) && '1' <= t[3]
        <= '9')
    ||| (t.len() == 4 && eq_ignore_ascii_case(t.take(3), seq!['L', 'P', 'T']) && '1' <= t[3]
        <= '9')
}

/// Windows treats the name as a device whatever its extension.
pub open spec fn is_reserved_name(name: Seq<char>) -> bool {
    is_reserved_stem(stem(name))
}

/// The component `sanitize_component` makes of `s`.
pub open spec fn sanitized(s: Seq<char>) -> Seq<char> {
    let t = named(s);
    if is_reserved_name(t) {
        seq!['_'] + t
    } else {
        t
    }
}

proof fn lemma_strip_end_take(s: Seq<char>, k: int)
    requires
        0 <= k <= s.len(),
        forall|j: int| k <= j < s.len() ==> is_end_junk(#[trigger] s[j]),
        k == 0 || !is_end_junk(s[k - 1]),
    ensures
        strip_end(s) == s.subrange(0, k),
    decreases s.len() - k,
{
    if k == s.len() {
        assert(s.subrange(0, k) =~= s);
    } else {
        let t = s.drop_last();
        assert forall|j: int| k <= j < t.len() implies is_end_junk(#[trigger] t[j]) by {
            assert(t[j] == s[j]);
        }
        if k > 0 {
            assert(t[k - 1] == s[k - 1]);
        }
        lemma_strip_end_take(t, k);
        assert(t.subrange(0, k) =~= s.subrange(0, k));
    }
}

/// Bound of what `strip_end` leaves of `v[lo..hi]`.
fn strip_end_bound(v: &Vec<char>, lo: usize, hi: usize) -> (k: usize)
    requires
        lo <= hi <= v.len(),
    ensures
        lo <= k <= hi,
        v@.subrange(lo as int, k as int) == strip_end(v@.subrange(lo as int, hi as int)),
{
    let mut k = hi;
    while k > lo && (char_is_whitespace(v[k - 1]) || v[k - 1] == '.')
        invariant
            lo <= k <= hi <= v.len(),
            forall|j: int| k <= j < hi ==> is_end_junk(#[trigger] v@[j]),
        decreases k - lo,
    {
        k = k - 1;
    }
    proof {
        let s = v@.subrange(lo as int, hi as int);
        assert forall|j: int| k - lo <= j < s.len() implies is_end_junk(#[trigger] s[j]) by {
            assert(s[j] == v@[lo + j]);
        }
        if k > lo {
            assert(s[k - lo - 1] == v@[k - 1]);
        }
        lemma_strip_end_take(s, k - lo);
        assert(s.subrange(0, k - lo) =~= v@.subrange(lo as int, k as int));
    }
    k
}

proof fn lemma_stem_take(s: Seq<char>, k: int)
    requires
        0 <= k <= s.len(),
        forall|j: int| 0 <= j < k ==> #[trigger] s[j] != '.',
        k == s.len() || s[k] == '.',
    ensures
        stem(s) == s.take(k),
    decreases k,
{
    if k == 0 {
        assert(s.take(0) =~= Seq::<char>::empty());
    } else {
        let t = s.drop_first();
        assert forall|j: int| 0 <= j < k - 1 implies #[trigger] t[j] != '.' by {
            assert(t[j] == s[j + 1]);
        }
        if k < s.len() {
            assert(t[k - 1] == s[k]);
        }
        lemma_stem_take(t, k - 1);
        assert(seq![s[0]] + t.take(k - 1) =~= s.take(k));
    }
}

fn ascii_lower_code(c: char) -> (r: u32)
    ensures
        r == ascii_lower(c),
{
    let u = c as u32;
    if 0x41 <= u && u <= 0x5a {
        u + 0x20
    } else {
        u
    }
}

/// `v[lo..lo + 3]` equals `a b c` ignoring ASCII case.
fn eq_ignore_case3(v: &Vec<char>, lo: usize, a: char, b: char, c: char) -> (r: bool)
    requires
        lo + 3 <= v.len(),
    ensures
        r == eq_ignore_ascii_case(v@.subrange(lo as int, lo + 3), seq![a, b, c]),
{
    let r = ascii_lower_code(v[lo]) == ascii_lower_code(a) && ascii_lower_code(v[lo + 1])
        == ascii_lower_code(b) && ascii_lower_code(v[lo + 2]) == ascii_lower_code(c);
    proof {
        let t = v@.subrange(lo as int, lo + 3);
        let w = seq![a, b, c];
        assert(t[0] == v@[lo as int] && t[1] == v@[lo + 1] && t[2] == v@[lo + 2]);
        if r {
            assert forall|i: int| 0 <= i < t.len() implies ascii_lower(#[trigger] t[i])
                == ascii_lower(w[i]) by {
                if i == 0 {
                } else if i == 1 {
                } else {
                }
            }
        } else {
            if eq_ignore_ascii_case(t, w) {
                assert(ascii_lower(t[0]) == ascii_lower(w[0]));
                assert(ascii_lower(t[1]) == ascii_lower(w[1]));
                assert(ascii_lower(t[2]) == ascii_lower(w[2]));
            }
        }
    }
    r
}

/// Is `t` (a whole stem) a reserved device name?
fn is_reserved_stem_chars(t: &Vec<char>) -> (r: bool)
    ensures
        r == is_reserved_stem(t@),
{
    let n = t.len();
    if n == 3 {
        assert(t@.subrange(0, 3) =~= t@);
        eq_ignore_case3(t, 0, 'C', 'O', 'N') || eq_ignore_case3(t, 0, 'P', 'R', 'N')
            || eq_ignore_case3(t, 0, 'A', 'U', 'X') || eq_ignore_case3(t, 0, 'N', 'U', 'L')
    } else if n == 4 {
        assert(t@.subrange(0, 3) =~= t@.take(3));
        let d = t[3];
        let digit = '1' <= d && d <= '9';
        let r = digit && (eq_ignore_case3(t, 0, 'C', 'O', 'M') || eq_ignore_case3(
            t,
            0,
            'L',
            'P',
            'T',
        ));
        r
    } else {
        false
    }
}

/// Whether Windows treats `name` as a reserved device (`CON`, `NUL.txt`, ...).
pub fn is_reserved_device_name(name: &str) -> (r: bool)
    ensures
        r == is_reserved_name(name@),
{
    let v = str_chars(name);
    is_reserved_name_chars(&v)
}

fn is_reserved_name_chars(v: &Vec<char>) -> (r: bool)
    ensures
        r == is_reserved_name(v@),
{
    let mut k: usize = 0;
    while k < v.len() && v[k] != '.'
        invariant
            k <= v.len(),
            forall|j: int| 0 <= j < k ==> #[trigger] v@[j] != '.',
        decreases v.len() - k,
    {
        k = k + 1;
    }
    proof {
        lemma_stem_take(v@, k as int);
    }
    let s = copy_range(v, 0, k);
    assert(s@ =~= v@.take(k as int));
    is_reserved_stem_chars(&s)
}

fn clean_chars(v: &Vec<char>) -> (r: Vec<char>)
    ensures
        r@ == cleaned(v@),
{
    let mut r: Vec<char> = Vec::new();
    let mut i: usize = 0;
    while i < v.len()
        invariant
            i <= v.len(),
            r@ == cleaned(v@.take(i as int)),
        decreases v.len() - i,
    {
        let c = v[i];
        let bad = c == '<' || c == '>' || c == ':' || c == '"' || c == '/' || c == '\\' || c
            == '|' || c == '?' || c == '*' || char_is_control(c);
        if bad {
            r.push('_');
        } else {
            r.push(c);
        }
        assert(v@.take(i + 1) =~= v@.take(i as int).push(c));
        assert(cleaned(v@.take(i + 1)) =~= cleaned(v@.take(i as int)).push(clean_char(c)));
        i = i + 1;
    }
    assert(v@.take(v.len() as int) =~= v@);
    r
}

/// Cleans one path component: illegal and control characters become `_`,
/// leading whitespace goes, trailing dots and whitespace go until neither
/// ends the name, at most 150 characters are kept (and the end trimmed again
/// after the cut), an empty result becomes `Untitled`, and a reserved device
/// name gets a leading `_`.
pub fn sanitize_component(input: &str) -> (out: String)
    ensures
        out@ == sanitized(input@),
{
    let chars = str_chars(input);
    let cl = clean_chars(&chars);
    let n = cl.len();
    let a = skip_ws_forward(&cl, 0, n);
    proof {
        lemma_trim_start_ws_skip(cl@, a as int);
    }
    let b = strip_end_bound(&cl, a, n);
    assert(cl@.subrange(a as int, b as int) == trimmed(input@));
    let c = if b - a <= 150 {
        b
    } else {
        a + 150
    };
    assert(cl@.subrange(a as int, c as int) =~= truncated(trimmed(input@)));
    let d = strip_end_bound(&cl, a, c);
    let t: Vec<char> = if d == a {
        vec!['U', 'n', 't', 'i', 't', 'l', 'e', 'd']
    } else {
        copy_range(&cl, a, d)
    };
    assert(t@ =~= named(input@));
    let out_chars: Vec<char> = if is_reserved_name_chars(&t) {
        let mut p: Vec<char> = vec!['_'];
        append_chars(&mut p, &t);
        p
    } else {
        t
    };
    assert(out_chars@ =~= sanitized(input@));
    string_from_chars(&out_chars)
}

/// No character Windows refuses, and no control character.
pub open spec fn safe_chars(s: Seq<char>) -> bool {
    forall|i: int| 0 <= i < s.len() ==> !is_illegal(#[trigger] s[i]) && !is_control(s[i])
}

proof fn lemma_trim_start_keeps_safe(s: Seq<char>)
    requires
        safe_chars(s),
    ensures
        safe_chars(trim_start_ws(s)),
    decreases s.len(),
{
    if s.len() > 0 && is_ws(s[0]) {
        let t = s.drop_first();
        assert forall|i: int| 0 <= i < t.len() implies !is_illegal(#[trigger] t[i]) && !is_control(
            t[i],
        ) by {
            assert(t[i] == s[i + 1]);
        }
        lemma_trim_start_keeps_safe(t);
    }
}

proof fn lemma_strip_end_prefix(u: Seq<char>)
    ensures
        strip_end(u).len() <= u.len(),
        forall|i: int| 0 <= i < strip_end(u).len() ==> #[trigger] strip_end(u)[i] == u[i],
        strip_end(u).len() > 0 ==> !is_end_junk(strip_end(u).last()),
    decreases u.len(),
{
    if u.len() > 0 && is_end_junk(u.last()) {
        let v = u.drop_last();
        lemma_strip_end_prefix(v);
        assert forall|i: int| 0 <= i < strip_end(u).len() implies #[trigger] strip_end(u)[i]
            == u[i] by {
            assert(strip_end(v)[i] == v[i]);
        }
    }
}

proof fn lemma_trim_start_ws_first(t: Seq<char>)
    ensures
        trim_start_ws(t).len() > 0 ==> !is_ws(trim_start_ws(t)[0]),
    decreases t.len(),
{
    if t.len() > 0 && is_ws(t[0]) {
        lemma_trim_start_ws_first(t.drop_first());
    }
}

proof fn lemma_cleaned_safe(s: Seq<char>)
    ensures
        safe_chars(cleaned(s)),
        cleaned(s).len() == s.len(),
{
    assert forall|i: int| 0 <= i < cleaned(s).len() implies !is_illegal(#[trigger] cleaned(s)[i])
        && !is_control(cleaned(s)[i]) by {
        assert(cleaned(s)[i] == clean_char(s[i]));
    }
}

proof fn lemma_stem_of_escaped(t: Seq<char>)
    ensures
        stem(seq!['_'] + t) == seq!['_'] + stem(t),
        !is_reserved_name(seq!['_'] + t),
{
    let u = seq!['_'] + t;
    assert(u.drop_first() =~= t);
    let st = stem(u);
    assert(st[0] == '_');
    assert(ascii_lower('_') != ascii_lower('C'));
    assert(ascii_lower('_') != ascii_lower('P'));
    assert(ascii_lower('_') != ascii_lower('A'));
    assert(ascii_lower('_') != ascii_lower('N'));
    assert(ascii_lower('_') != ascii_lower('L'));
    if st.len() == 4 {
        assert(st.take(3)[0] == '_');
    }
}

/// The name before any escaping: a non-empty prefix of the cleaned text
/// (after its leading whitespace), or `Untitled`; it neither starts with
/// whitespace nor ends with a dot or whitespace.
proof fn lemma_named_shape(s: Seq<char>)
    ensures
        1 <= named(s).len() <= max_component_chars(),
        safe_chars(named(s)),
        !is_ws(named(s)[0]),
        !is_end_junk(named(s).last()),
{
    lemma_cleaned_safe(s);
    let c0 = trim_start_ws(cleaned(s));
    lemma_trim_start_keeps_safe(cleaned(s));
    lemma_trim_start_ws_first(cleaned(s));
    let y = strip_end(c0);
    lemma_strip_end_prefix(c0);
    let t = truncated(y);
    let z = strip_end(t);
    lemma_strip_end_prefix(t);
    if z.len() == 0 {
        assert(named(s) == untitled());
    } else {
        assert(named(s) == z);
        assert(z[0] == t[0] && t[0] == y[0] && y[0] == c0[0]);
        assert forall|i: int| 0 <= i < z.len() implies !is_illegal(#[trigger] z[i]) && !is_control(
            z[i],
        ) by {
            assert(z[i] == t[i] && t[i] == y[i] && y[i] == c0[i]);
        }
    }
}

/// Whatever the input, the component is non-empty, at most 151 characters
/// long (150 plus an escaping `_`), holds no character Windows refuses in a
/// file name (so no `/` or `\` can add path segments) and no control
/// character, is never a reserved device name, never starts with whitespace,
/// and never ends with a dot or whitespace, so it is never `.` or `..` and
/// Windows has nothing to strip from it.
pub proof fn lemma_sanitized_is_safe(s: Seq<char>)
    ensures
        1 <= sanitized(s).len() <= max_component_chars() + 1,
        safe_chars(sanitized(s)),
        !is_reserved_name(sanitized(s)),
        !is_ws(sanitized(s)[0]),
        !is_ws(sanitized(s).last()),
        sanitized(s).last() != '.',
        sanitized(s) != seq!['.'],
        sanitized(s) != seq!['.', '.'],
{
    lemma_named_shape(s);
    let t = named(s);
    if is_reserved_name(t) {
        let u = seq!['_'] + t;
        assert forall|i: int| 0 <= i < u.len() implies !is_illegal(#[trigger] u[i]) && !is_control(
            u[i],
        ) by {
            if i > 0 {
                assert(u[i] == t[i - 1]);
            }
        }
        assert(u.last() == t.last());
        lemma_stem_of_escaped(t);
    }
    let out = sanitized(s);
    assert(out.last() != '.');
    if out == seq!['.'] || out == seq!['.', '.'] {
        assert(out.last() == '.');
    }
}

/// One of `< > : " / \\ | ? *`, or a control character (`U+0000`-`U+001F`,
/// `U+007F`-`U+009F`).
pub open spec fn refused_char(c: char) -> bool {
    ||| c == '<' || c == '>' || c == ':' || c == '"' || c == '/' || c == '\\' || c == '|'
        || c == '?' || c == '*'
    ||| (c as u32) <= 0x1f
    ||| 0x7f <= (c as u32) <= 0x9f
}

/// Cleaning replaces exactly the refused characters by `_` and keeps every
/// other character where it was.
pub proof fn lemma_cleaning_keeps_legal_chars(s: Seq<char>)
    ensures
        cleaned(s).len() == s.len(),
        forall|i: int| 0 <= i < s.len() && refused_char(s[i]) ==> #[trigger] cleaned(s)[i] == '_',
        forall|i: int| 0 <= i < s.len() && !refused_char(s[i]) ==> #[trigger] cleaned(s)[i] == s[i],
{
}

/// A name that is already fit for Windows (no refused character, no leading
/// whitespace, no trailing dot or whitespace, at most 150 characters) is
/// kept as it is, with a `_` in front only when it is a reserved device name.
pub proof fn lemma_fit_names_are_kept(s: Seq<char>)
    requires
        1 <= s.len() <= 150,
        forall|i: int| 0 <= i < s.len() ==> !refused_char(#[trigger] s[i]),
        !is_ws(s[0]),
        !is_ws(s.last()),
        s.last() != '.',
    ensures
        sanitized(s) == (if is_reserved_name(s) {
            seq!['_'] + s
        } else {
            s
        }),
{
    lemma_cleaning_keeps_legal_chars(s);
    assert(cleaned(s) =~= s);
    assert(trim_start_ws(s) == s);
    assert(strip_end(s) == s);
    assert(trimmed(s) == s);
    assert(truncated(s) == s);
    assert(named(s) == s);
}

proof fn lemma_strip_end_stops_at(u: Seq<char>, k: int)
    requires
        0 <= k < u.len(),
        !is_end_junk(u[k]),
    ensures
        strip_end(u).len() > k,
    decreases u.len(),
{
    if is_end_junk(u.last()) {
        let v = u.drop_last();
        assert(v[k] == u[k]);
        lemma_strip_end_stops_at(v, k);
    }
}

/// A longer name that is otherwise fit for Windows keeps its first 150
/// characters, as they are, when the 150th is neither a dot nor whitespace
/// (with a `_` in front only when those make a reserved device name).
pub proof fn lemma_long_names_keep_their_start(s: Seq<char>)
    requires
        s.len() > 150,
        forall|i: int| 0 <= i < s.len() ==> !refused_char(#[trigger] s[i]),
        !is_ws(s[0]),
        !is_ws(s[149]),
        s[149] != '.',
    ensures
        sanitized(s) == (if is_reserved_name(s.take(150)) {
            seq!['_'] + s.take(150)
        } else {
            s.take(150)
        }),
{
    lemma_cleaning_keeps_legal_chars(s);
    assert(cleaned(s) =~= s);
    lemma_trim_start_ws_skip(s, 0);
    assert(s.subrange(0, s.len() as int) =~= s);
    assert(trim_start_ws(s) == s);
    let y = strip_end(s);
    lemma_strip_end_prefix(s);
    lemma_strip_end_stops_at(s, 149);
    assert(trimmed(s) == y);
    let t = s.take(150);
    assert(truncated(y) =~= t);
    lemma_strip_end_take(t, 150);
    assert(t.subrange(0, 150) =~= t);
    assert(named(s) == t);
}

} // verus!
