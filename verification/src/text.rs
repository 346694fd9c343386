//! Character classes and small text operations over `Seq<char>`, shared by
//! the sanitizer and the output parsers.
use vstd::prelude::*;

verus! {

/// Unicode `White_Space`: the characters `char::is_whitespace` accepts.
pub open spec fn is_ws(c: char) -> bool {
    let u = c as u32;
    ||| 0x09 <= u <= 0x0d
    ||| u == 0x20
    ||| u == 0x85
    ||| u == 0xa0
    ||| u == 0x1680
    ||| 0x2000 <= u <= 0x200a
    ||| u == 0x2028
    ||| u == 0x2029
    ||| u == 0x202f
    ||| u == 0x205f
    ||| u == 0x3000
}

/// Unicode general category `Cc`: the characters `char::is_control` accepts.
pub open spec fn is_control(c: char) -> bool {
    let u = c as u32;
    u <= 0x1f || (0x7f <= u <= 0x9f)
}

/// `char::is_whitespace`.
pub fn char_is_whitespace(c: char) -> (b: bool)
    ensures
        b == is_ws(c),
{
    let u = c as u32;
    (0x09 <= u && u <= 0x0d) || u == 0x20 || u == 0x85 || u == 0xa0 || u == 0x1680 || (0x2000 <= u
        && u <= 0x200a) || u == 0x2028 || u == 0x2029 || u == 0x202f || u == 0x205f || u == 0x3000
}

/// `char::is_control`.
pub fn char_is_control(c: char) -> (b: bool)
    ensures
        b == is_control(c),
{
    let u = c as u32;
    u <= 0x1f || (0x7f <= u && u <= 0x9f)
}

/// What `str::trim_start` leaves.
pub open spec fn trim_start_ws(s: Seq<char>) -> Seq<char>
    decreases s.len(),
{
    if s.len() > 0 && is_ws(s[0]) {
        trim_start_ws(s.drop_first())
    } else {
        s
    }
}

/// What `str::trim_end` leaves.
pub open spec fn trim_end_ws(s: Seq<char>) -> Seq<char>
    decreases s.len(),
{
    if s.len() > 0 && is_ws(s.last()) {
        trim_end_ws(s.drop_last())
    } else {
        s
    }
}

/// What `str::trim` leaves.
pub open spec fn trim_ws(s: Seq<char>) -> Seq<char> {
    trim_end_ws(trim_start_ws(s))
}

/// `a` ends with `b`.
pub open spec fn ends_with(a: Seq<char>, b: Seq<char>) -> bool {
    b.len() <= a.len() && a.subrange(a.len() - b.len(), a.len() as int) == b
}

pub proof fn lemma_trim_start_ws_skip(s: Seq<char>, k: int)
    requires
        0 <= k <= s.len(),
        forall|j: int| 0 <= j < k ==> is_ws(#[trigger] s[j]),
        k == s.len() || !is_ws(s[k]),
    ensures
        trim_start_ws(s) == s.subrange(k, s.len() as int),
    decreases k,
{
    if k == 0 {
        assert(s.subrange(0, s.len() as int) =~= s);
    } else {
        let t = s.drop_first();
        assert forall|j: int| 0 <= j < k - 1 implies is_ws(#[trigger] t[j]) by {
            assert(t[j] == s[j + 1]);
        }
        if k - 1 < t.len() {
            assert(t[k - 1] == s[k]);
        }
        lemma_trim_start_ws_skip(t, k - 1);
        assert(t.subrange(k - 1, t.len() as int) =~= s.subrange(k, s.len() as int));
    }
}

pub proof fn lemma_trim_end_ws_take(s: Seq<char>, k: int)
    requires
        0 <= k <= s.len(),
        forall|j: int| k <= j < s.len() ==> is_ws(#[trigger] s[j]),
        k == 0 || !is_ws(s[k - 1]),
    ensures
        trim_end_ws(s) == s.subrange(0, k),
    decreases s.len() - k,
{
    if k == s.len() {
        assert(s.subrange(0, k) =~= s);
    } else {
        let t = s.drop_last();
        assert forall|j: int| k <= j < t.len() implies is_ws(#[trigger] t[j]) by {
            assert(t[j] == s[j]);
        }
        if k > 0 {
            assert(t[k - 1] == s[k - 1]);
        }
        lemma_trim_end_ws_take(t, k);
        assert(t.subrange(0, k) =~= s.subrange(0, k));
    }
}

/// Index of the first character at or after `lo` (and before `hi`) that is not
/// whitespace, or `hi`.
pub fn skip_ws_forward(v: &Vec<char>, lo: usize, hi: usize) -> (k: usize)
    requires
        lo <= hi <= v.len(),
    ensures
        lo <= k <= hi,
        forall|j: int| lo <= j < k ==> is_ws(#[trigger] v@[j]),
        k == hi || !is_ws(v@[k as int]),
{
    let mut k = lo;
    while k < hi && char_is_whitespace(v[k])
        invariant
            lo <= k <= hi <= v.len(),
            forall|j: int| lo <= j < k ==> is_ws(#[trigger] v@[j]),
        decreases hi - k,
    {
        k = k + 1;
    }
    k
}

/// Index just past the last character before `hi` (and at or after `lo`) that
/// is not whitespace, or `lo`.
pub fn skip_ws_backward(v: &Vec<char>, lo: usize, hi: usize) -> (k: usize)
    requires
        lo <= hi <= v.len(),
    ensures
        lo <= k <= hi,
        forall|j: int| k <= j < hi ==> is_ws(#[trigger] v@[j]),
        k == lo || !is_ws(v@[k - 1]),
{
    let mut k = hi;
    while k > lo && char_is_whitespace(v[k - 1])
        invariant
            lo <= k <= hi <= v.len(),
            forall|j: int| k <= j < hi ==> is_ws(#[trigger] v@[j]),
        decreases k - lo,
    {
        k = k - 1;
    }
    k
}

/// Bounds of what `str::trim` leaves of `v[lo..hi]`.
pub fn trim_bounds(v: &Vec<char>, lo: usize, hi: usize) -> (r: (usize, usize))
    requires
        lo <= hi <= v.len(),
    ensures
        lo <= r.0 <= r.1 <= hi,
        v@.subrange(r.0 as int, r.1 as int) == trim_ws(v@.subrange(lo as int, hi as int)),
{
    let a = skip_ws_forward(v, lo, hi);
    let b = skip_ws_backward(v, a, hi);
    proof {
        let s = v@.subrange(lo as int, hi as int);
        assert forall|j: int| 0 <= j < a - lo implies is_ws(#[trigger] s[j]) by {
            assert(s[j] == v@[lo + j]);
        }
        if a < hi {
            assert(s[a - lo] == v@[a as int]);
        }
        lemma_trim_start_ws_skip(s, a - lo);
        let t = s.subrange(a - lo, s.len() as int);
        assert(t =~= v@.subrange(a as int, hi as int));
        assert forall|j: int| b - a <= j < t.len() implies is_ws(#[trigger] t[j]) by {
            assert(t[j] == v@[a + j]);
        }
        if b > a {
            assert(t[b - a - 1] == v@[b - 1]);
        }
        lemma_trim_end_ws_take(t, b - a);
        assert(t.subrange(0, b - a) =~= v@.subrange(a as int, b as int));
    }
    (a, b)
}

/// The decimal digit for `d < 10`.
pub open spec fn digit_char(d: nat) -> char {
    if d == 0 { '0' } else if d == 1 { '1' } else if d == 2 { '2' } else if d == 3 { '3' }
    else if d == 4 { '4' } else if d == 5 { '5' } else if d == 6 { '6' } else if d == 7 { '7' }
    else if d == 8 { '8' } else { '9' }
}

/// Decimal digits of `n`, most significant first, no leading zeros.
pub open spec fn decimal_nat(n: nat) -> Seq<char>
    decreases n,
{
    if n < 10 {
        seq![digit_char(n)]
    } else {
        decimal_nat(n / 10).push(digit_char(n % 10))
    }
}

/// How `Display` writes an integer: a `-` for negatives, then the digits.
pub open spec fn decimal(n: int) -> Seq<char> {
    if n < 0 {
        seq!['-'] + decimal_nat((-n) as nat)
    } else {
        decimal_nat(n as nat)
    }
}

fn digit(d: u64) -> (c: char)
    requires
        d < 10,
    ensures
        c == digit_char(d as nat),
{
    if d == 0 { '0' } else if d == 1 { '1' } else if d == 2 { '2' } else if d == 3 { '3' }
    else if d == 4 { '4' } else if d == 5 { '5' } else if d == 6 { '6' } else if d == 7 { '7' }
    else if d == 8 { '8' } else { '9' }
}

/// Appends the decimal form of `n`.
pub fn push_decimal_u64(out: &mut Vec<char>, n: u64)
    ensures
        final(out)@ == old(out)@ + decimal_nat(n as nat),
    decreases n,
{
    let ghost start = out@;
    if n >= 10 {
        push_decimal_u64(out, n / 10);
    }
    out.push(digit(n % 10));
    proof {
        if n >= 10 {
            assert(out@ =~= start + decimal_nat((n / 10) as nat).push(digit_char((n % 10) as nat)));
        } else {
            assert(out@ =~= start + seq![digit_char(n as nat)]);
        }
    }
}

/// Appends the decimal form of `n`.
pub fn push_decimal(out: &mut Vec<char>, n: i64)
    ensures
        final(out)@ == old(out)@ + decimal(n as int),
{
    if n < 0 {
        let ghost start = out@;
        out.push('-');
        let m: u64 = if n == i64::MIN {
            9223372036854775808u64
        } else {
            (-n) as u64
        };
        push_decimal_u64(out, m);
        assert(out@ =~= start + (seq!['-'] + decimal_nat((-n) as nat)));
    } else {
        push_decimal_u64(out, n as u64);
    }
}

/// `a` starts with `b`.
pub open spec fn starts_with(a: Seq<char>, b: Seq<char>) -> bool {
    b.len() <= a.len() && a.take(b.len() as int) == b
}

pub fn starts_with_chars(a: &Vec<char>, b: &Vec<char>) -> (r: bool)
    ensures
        r == starts_with(a@, b@),
{
    if b.len() > a.len() {
        return false;
    }
    let mut i: usize = 0;
    while i < b.len()
        invariant
            i <= b.len() <= a.len(),
            forall|j: int| 0 <= j < i ==> a@[j] == b@[j],
        decreases b.len() - i,
    {
        if a[i] != b[i] {
            assert(a@.take(b.len() as int)[i as int] != b@[i as int]);
            return false;
        }
        i = i + 1;
    }
    assert(a@.take(b.len() as int) =~= b@);
    true
}

/// Character-wise equality of two vectors.
pub fn chars_eq(a: &Vec<char>, b: &Vec<char>) -> (r: bool)
    ensures
        r == (a@ == b@),
{
    if a.len() != b.len() {
        return false;
    }
    let mut i: usize = 0;
    while i < a.len()
        invariant
            i <= a.len() == b.len(),
            forall|j: int| 0 <= j < i ==> a@[j] == b@[j],
        decreases a.len() - i,
    {
        if a[i] != b[i] {
            return false;
        }
        i = i + 1;
    }
    assert(a@ =~= b@);
    true
}

/// `a == b` on string slices.
pub fn str_eq(a: &str, b: &str) -> (r: bool)
    ensures
        r == (a@ == b@),
{
    chars_eq(&str_chars(a), &str_chars(b))
}

/// The characters of a string slice.
pub fn str_chars(s: &str) -> (v: Vec<char>)
    ensures
        v@ == s@,
{
    let mut v: Vec<char> = Vec::new();
    for c in it: s.chars()
        invariant
            v@ == it.seq().take(it.index() as int),
            it.seq() == s@,
    {
        v.push(c);
    }
    v
}

/// `v[lo..hi]` as a new vector.
pub fn copy_range(v: &Vec<char>, lo: usize, hi: usize) -> (r: Vec<char>)
    requires
        lo <= hi <= v.len(),
    ensures
        r@ == v@.subrange(lo as int, hi as int),
{
    let mut r: Vec<char> = Vec::new();
    let mut i = lo;
    while i < hi
        invariant
            lo <= i <= hi <= v.len(),
            r@ == v@.subrange(lo as int, i as int),
        decreases hi - i,
    {
        r.push(v[i]);
        i = i + 1;
    }
    r
}

/// Appends all of `b` to `a`.
pub fn append_chars(a: &mut Vec<char>, b: &Vec<char>)
    ensures
        final(a)@ == old(a)@ + b@,
{
    let mut i: usize = 0;
    while i < b.len()
        invariant
            i <= b.len(),
            a@ == old(a)@ + b@.subrange(0, i as int),
        decreases b.len() - i,
    {
        a.push(b[i]);
        i = i + 1;
        assert(b@.subrange(0, i as int) =~= b@.subrange(0, i - 1).push(b@[i - 1]));
    }
    assert(b@.subrange(0, b.len() as int) =~= b@);
}

/// Builds an owned string from characters (`String: FromIterator<char>`).
#[verifier::external_body]
pub fn string_from_chars(v: &Vec<char>) -> (s: String)
    ensures
        s@ == v@,
{
    v.iter().collect()
}

/// `str::trim` on a string slice.
pub fn trim_str(s: &str) -> (r: Vec<char>)
    ensures
        r@ == trim_ws(s@),
{
    let v = str_chars(s);
    let (a, b) = trim_bounds(&v, 0, v.len());
    assert(v@.subrange(0, v.len() as int) =~= v@);
    copy_range(&v, a, b)
}

/// The number that decimal digits spell, most significant first.
pub open spec fn digits_value(s: Seq<char>) -> int
    decreases s.len(),
{
    if s.len() == 0 {
        0
    } else {
        10 * digits_value(s.drop_last()) + ((s.last() as u32) as int - ('0' as u32) as int)
    }
}

pub open spec fn is_digit(c: char) -> bool {
    '0' <= c && c <= '9'
}

/// A negative number is written as `-` followed by the form of its
/// magnitude; a number that is not negative is written with digits alone.
pub proof fn lemma_decimal_sign(n: int)
    ensures
        n < 0 ==> decimal(n) == seq!['-'] + decimal(-n),
        n >= 0 ==> decimal(n) == decimal_nat(n as nat) && is_digit(decimal(n)[0]),
{
    if n >= 0 {
        lemma_decimal_reads_back(n as nat);
    }
}

proof fn lemma_digit_char_value(d: nat)
    requires
        d < 10,
    ensures
        is_digit(digit_char(d)),
        (digit_char(d) as u32) as int - ('0' as u32) as int == d,
{
}

/// The decimal form of a number is made of digits only, starts with a zero
/// only for zero itself, and reads back as that number.
pub proof fn lemma_decimal_reads_back(n: nat)
    ensures
        decimal_nat(n).len() >= 1,
        forall|i: int| 0 <= i < decimal_nat(n).len() ==> is_digit(#[trigger] decimal_nat(n)[i]),
        decimal_nat(n)[0] == '0' ==> n == 0,
        digits_value(decimal_nat(n)) == n,
    decreases n,
{
    if n < 10 {
        lemma_digit_char_value(n);
        assert(decimal_nat(n).drop_last() =~= Seq::<char>::empty());
        assert(decimal_nat(n)[0] == digit_char(n));
        assert(decimal_nat(n)[0] == '0' ==> n == 0);
        assert(digits_value(Seq::<char>::empty()) == 0);
        assert(digits_value(decimal_nat(n)) == 10 * digits_value(Seq::<char>::empty()) + n);
    } else {
        let p = decimal_nat(n / 10);
        lemma_decimal_reads_back(n / 10);
        lemma_digit_char_value(n % 10);
        let s = p.push(digit_char(n % 10));
        assert(s.drop_last() =~= p);
        assert(n == 10 * (n / 10) + n % 10);
        assert(s[0] == p[0]);
        assert(decimal_nat(n) == s);
        assert(n / 10 > 0);
        assert(decimal_nat(n)[0] == '0' ==> n == 0);
        assert(s.last() == digit_char(n % 10));
        assert(digits_value(s) == 10 * digits_value(p) + n % 10);
        assert forall|i: int| 0 <= i < s.len() implies is_digit(#[trigger] s[i]) by {
            if i < p.len() {
                assert(s[i] == p[i]);
            }
        }
    }
}

} // verus!
