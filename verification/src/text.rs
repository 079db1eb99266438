//! Text primitives shared by every parser of the hub: character classes,
//! whitespace splitting and trimming, substring replacement, decimal numbers
//! and UUID text, each with its mathematical definition over `Seq<char>`.
use vstd::prelude::*;
use vstd::string::*;
use vstd::utf8::*;

verus! {

// ---------------------------------------------------------------------------
// Character classes
// ---------------------------------------------------------------------------

/// The Unicode `White_Space` property, which `char::is_whitespace` tests.
pub open spec fn is_ws(c: char) -> bool {
    ||| c == ' '
    ||| ('\t' <= c && c <= '\r')
    ||| c == '\u{85}'
    ||| c == '\u{a0}'
    ||| c == '\u{1680}'
    ||| ('\u{2000}' <= c && c <= '\u{200a}')
    ||| c == '\u{2028}'
    ||| c == '\u{2029}'
    ||| c == '\u{202f}'
    ||| c == '\u{205f}'
    ||| c == '\u{3000}'
}

/// Whether `c` is whitespace in the sense of `char::is_whitespace`.
pub fn is_whitespace(c: char) -> (r: bool)
    ensures
        r == is_ws(c),
{
    c == ' ' || ('\t' <= c && c <= '\r') || c == '\u{85}' || c == '\u{a0}' || c == '\u{1680}'
        || ('\u{2000}' <= c && c <= '\u{200a}') || c == '\u{2028}' || c == '\u{2029}' || c
        == '\u{202f}' || c == '\u{205f}' || c == '\u{3000}'
}

/// An ASCII decimal digit.
pub open spec fn is_digit(c: char) -> bool {
    '0' <= c && c <= '9'
}

/// The value of an ASCII decimal digit.
pub open spec fn digit_value(c: char) -> nat {
    (c as int - '0' as int) as nat
}

/// The character of a decimal digit `d < 10`.
pub open spec fn digit_char(d: nat) -> char {
    (d + '0' as nat) as char
}

/// ASCII lowercasing of one character: `A`..`Z` become `a`..`z`.
pub open spec fn ascii_lower(c: char) -> char {
    if 'A' <= c && c <= 'Z' {
        ((c as int) + 32) as char
    } else {
        c
    }
}

/// ASCII lowercasing of a whole sequence.
pub open spec fn ascii_lowercase(s: Seq<char>) -> Seq<char> {
    s.map_values(|c: char| ascii_lower(c))
}

// ---------------------------------------------------------------------------
// Outside functions of std
// ---------------------------------------------------------------------------

/// What `str::to_lowercase` returns for the characters `s`: their Unicode
/// lowercase mapping (which takes context into account, as for a final
/// capital sigma).
pub uninterp spec fn lowercase_of(s: Seq<char>) -> Seq<char>;

/// Calls `str::to_lowercase`. Its result is named `lowercase_of`; on ASCII
/// text, where the Unicode lowercase mapping is the ASCII one, the result is
/// stated in full.
#[verifier::external_body]
pub(crate) fn to_lowercase(s: &str) -> (r: String)
    ensures
        r@ == lowercase_of(s@),
        is_ascii_chars(s@) ==> r@ == ascii_lowercase(s@),
{
    s.to_lowercase()
}

/// Calls `String::push`, which appends one character.
#[verifier::external_body]
pub(crate) fn push_char(s: &mut String, c: char)
    ensures
        final(s)@ == old(s)@.push(c),
{
    s.push(c)
}

/// Calls `std::str::from_utf8`, which succeeds exactly on valid UTF-8 and then
/// gives the decoded characters.
#[verifier::external_body]
pub(crate) fn utf8_decode(bytes: &[u8]) -> (r: Option<String>)
    ensures
        r is Some <==> valid_utf8(bytes@),
        r matches Some(s) ==> s@ == decode_utf8(bytes@),
{
    match std::str::from_utf8(bytes) {
        Ok(s) => Some(s.to_string()),
        Err(_) => None,
    }
}

/// What `String::from_utf8_lossy` returns for the bytes `b`.
pub uninterp spec fn utf8_lossy_of(b: Seq<u8>) -> Seq<char>;

/// Calls `String::from_utf8_lossy`. Its result is named `utf8_lossy_of`; on
/// valid UTF-8 nothing is replaced, so the result is the decoded text.
#[verifier::external_body]
pub(crate) fn utf8_lossy(bytes: &[u8]) -> (r: String)
    ensures
        r@ == utf8_lossy_of(bytes@),
        valid_utf8(bytes@) ==> r@ == decode_utf8(bytes@),
{
    String::from_utf8_lossy(bytes).into_owned()
}

// ---------------------------------------------------------------------------
// Moving between `str`, `String` and character vectors
// ---------------------------------------------------------------------------

/// The characters of `s`.
pub fn chars_of(s: &str) -> (r: Vec<char>)
    ensures
        r@ == s@,
{
    let n = s.unicode_len();
    let mut r: Vec<char> = Vec::new();
    let mut i: usize = 0;
    while i < n
        invariant
            n == s@.len(),
            i <= n,
            r@ == s@.subrange(0, i as int),
        decreases n - i,
    {
        r.push(s.get_char(i));
        i = i + 1;
    }
    r
}

/// A `String` holding the characters `cs`.
pub fn string_of(cs: &[char]) -> (r: String)
    ensures
        r@ == cs@,
{
    let mut r = String::new();
    let mut i: usize = 0;
    while i < cs.len()
        invariant
            i <= cs@.len(),
            r@ == cs@.subrange(0, i as int),
        decreases cs@.len() - i,
    {
        push_char(&mut r, cs[i]);
        i = i + 1;
    }
    r
}

/// A `String` holding the characters of `s`.
pub fn string_from(s: &str) -> (r: String)
    ensures
        r@ == s@,
{
    s.to_owned()
}

/// Whether two texts hold the same characters.
pub fn str_eq(a: &str, b: &str) -> (r: bool)
    ensures
        r == (a@ == b@),
{
    let n = a.unicode_len();
    let m = b.unicode_len();
    if n != m {
        return false;
    }
    let mut i: usize = 0;
    while i < n
        invariant
            n == a@.len(),
            m == b@.len(),
            n == m,
            i <= n,
            a@.subrange(0, i as int) == b@.subrange(0, i as int),
        decreases n - i,
    {
        if a.get_char(i) != b.get_char(i) {
            assert(a@[i as int] != b@[i as int]);
            return false;
        }
        assert(a@.subrange(0, i + 1) == a@.subrange(0, i as int).push(a@[i as int]));
        assert(b@.subrange(0, i + 1) == b@.subrange(0, i as int).push(b@[i as int]));
        i = i + 1;
    }
    assert(a@ == a@.subrange(0, n as int));
    assert(b@ == b@.subrange(0, n as int));
    true
}



// ---------------------------------------------------------------------------
// Splitting and trimming
// ---------------------------------------------------------------------------

/// The words of `s`: its maximal runs of non-whitespace characters, in order,
/// where `cur` is a word already begun before `s`. This is what
/// `str::split_whitespace` yields.
pub open spec fn words_from(s: Seq<char>, cur: Seq<char>) -> Seq<Seq<char>>
    decreases s.len(),
{
    if s.len() == 0 {
        if cur.len() == 0 {
            seq![]
        } else {
            seq![cur]
        }
    } else if is_ws(s[0]) {
        (if cur.len() == 0 {
            Seq::<Seq<char>>::empty()
        } else {
            seq![cur]
        }) + words_from(s.drop_first(), seq![])
    } else {
        words_from(s.drop_first(), cur.push(s[0]))
    }
}

/// The whitespace-separated words of `s`.
pub open spec fn words(s: Seq<char>) -> Seq<Seq<char>> {
    words_from(s, seq![])
}

/// The character sequences of a sequence of `String`s.
pub open spec fn views(v: Seq<String>) -> Seq<Seq<char>> {
    v.map_values(|w: String| w@)
}

/// The whitespace-separated words of `s`, as `str::split_whitespace` gives
/// them.
pub fn split_whitespace(s: &str) -> (r: Vec<String>)
    ensures
        views(r@) == words(s@),
{
    let cs = chars_of(s);
    let n = cs.len();
    let mut out: Vec<String> = Vec::new();
    let mut cur: Vec<char> = Vec::new();
    let mut i: usize = 0;
    assert(cs@.subrange(0, n as int) == cs@);
    while i < n
        invariant
            n == cs@.len(),
            cs@ == s@,
            i <= n,
            views(out@) + words_from(cs@.subrange(i as int, n as int), cur@) == words(s@),
        decreases n - i,
    {
        let ghost rest = cs@.subrange(i as int, n as int);
        assert(rest.drop_first() == cs@.subrange(i + 1, n as int));
        let c = cs[i];
        if is_whitespace(c) {
            if cur.len() > 0 {
                let w = string_of(&cur);
                let ghost before = out@;
                out.push(w);
                assert(views(out@) == views(before) + seq![cur@]);
                assert(views(before) + seq![cur@] + words_from(rest.drop_first(), seq![])
                    == views(before) + (seq![cur@] + words_from(rest.drop_first(), seq![])));
                cur = Vec::new();
            } else {
                assert(Seq::<Seq<char>>::empty() + words_from(rest.drop_first(), seq![])
                    == words_from(rest.drop_first(), seq![]));
                cur = Vec::new();
                assert(cur@ == Seq::<char>::empty());
            }
        } else {
            cur.push(c);
        }
        i = i + 1;
    }
    if cur.len() > 0 {
        let w = string_of(&cur);
        let ghost before = out@;
        out.push(w);
        assert(views(out@) == views(before) + seq![cur@]);
    } else {
        assert(views(out@) + Seq::<Seq<char>>::empty() == views(out@));
    }
    out
}

/// `s` without its trailing whitespace, as `str::trim_end` gives it.
pub open spec fn trim_end_ws(s: Seq<char>) -> Seq<char>
    decreases s.len(),
{
    if s.len() > 0 && is_ws(s.last()) {
        trim_end_ws(s.drop_last())
    } else {
        s
    }
}

/// `s` without its leading whitespace, as `str::trim_start` gives it.
pub open spec fn trim_start_ws(s: Seq<char>) -> Seq<char>
    decreases s.len(),
{
    if s.len() > 0 && is_ws(s[0]) {
        trim_start_ws(s.drop_first())
    } else {
        s
    }
}

/// `s` without leading or trailing whitespace, as `str::trim` gives it.
pub open spec fn trim_ws(s: Seq<char>) -> Seq<char> {
    trim_start_ws(trim_end_ws(s))
}

/// `s` without its trailing copies of `c`, as `str::trim_end_matches(c)`
/// gives it.
pub open spec fn trim_end_char(s: Seq<char>, c: char) -> Seq<char>
    decreases s.len(),
{
    if s.len() > 0 && s.last() == c {
        trim_end_char(s.drop_last(), c)
    } else {
        s
    }
}

/// The characters of `s` from `lo` up to `hi`.
pub fn chars_between(s: &[char], lo: usize, hi: usize) -> (r: Vec<char>)
    requires
        lo <= hi <= s@.len(),
    ensures
        r@ == s@.subrange(lo as int, hi as int),
{
    let mut r: Vec<char> = Vec::new();
    let mut i = lo;
    while i < hi
        invariant
            lo <= i <= hi <= s@.len(),
            r@ == s@.subrange(lo as int, i as int),
        decreases hi - i,
    {
        r.push(s[i]);
        i = i + 1;
    }
    r
}

/// `s` without trailing whitespace.
pub fn trim_end(s: &[char]) -> (r: Vec<char>)
    ensures
        r@ == trim_end_ws(s@),
{
    let mut hi = s.len();
    assert(s@.subrange(0, s@.len() as int) == s@);
    while hi > 0 && is_whitespace(s[hi - 1])
        invariant
            hi <= s@.len(),
            trim_end_ws(s@.subrange(0, hi as int)) == trim_end_ws(s@),
        decreases hi,
    {
        assert(s@.subrange(0, hi as int).drop_last() == s@.subrange(0, hi - 1));
        hi = hi - 1;
    }
    assert(s@.subrange(0, s@.len() as int) == s@);
    chars_between(s, 0, hi)
}

/// `s` without leading whitespace.
pub fn trim_start(s: &[char]) -> (r: Vec<char>)
    ensures
        r@ == trim_start_ws(s@),
{
    let mut lo: usize = 0;
    assert(s@.subrange(0, s@.len() as int) == s@);
    while lo < s.len() && is_whitespace(s[lo])
        invariant
            lo <= s@.len(),
            trim_start_ws(s@.subrange(lo as int, s@.len() as int)) == trim_start_ws(s@),
        decreases s@.len() - lo,
    {
        assert(s@.subrange(lo as int, s@.len() as int).drop_first() == s@.subrange(
            lo + 1,
            s@.len() as int,
        ));
        lo = lo + 1;
    }
    assert(s@.subrange(0, s@.len() as int) == s@);
    chars_between(s, lo, s.len())
}

/// `s` without leading or trailing whitespace.
pub fn trim(s: &[char]) -> (r: Vec<char>)
    ensures
        r@ == trim_ws(s@),
{
    let e = trim_end(s);
    trim_start(&e)
}

/// `s` without its trailing NUL characters.
pub fn trim_end_nul(s: &[char]) -> (r: Vec<char>)
    ensures
        r@ == trim_end_char(s@, '\0'),
{
    let mut hi = s.len();
    assert(s@.subrange(0, s@.len() as int) == s@);
    while hi > 0 && s[hi - 1] == '\0'
        invariant
            hi <= s@.len(),
            trim_end_char(s@.subrange(0, hi as int), '\0') == trim_end_char(s@, '\0'),
        decreases hi,
    {
        assert(s@.subrange(0, hi as int).drop_last() == s@.subrange(0, hi - 1));
        hi = hi - 1;
    }
    assert(s@.subrange(0, s@.len() as int) == s@);
    chars_between(s, 0, hi)
}

// ---------------------------------------------------------------------------
// Replacement
// ---------------------------------------------------------------------------

/// `s` with every non-overlapping occurrence of the non-empty `pat`, taken from
/// the left, replaced by `rep`: what `str::replace` gives.
pub open spec fn replace_all(s: Seq<char>, pat: Seq<char>, rep: Seq<char>) -> Seq<char>
    decreases s.len(),
{
    if s.len() == 0 {
        seq![]
    } else if pat.len() > 0 && pat.len() <= s.len() && s.subrange(0, pat.len() as int) == pat {
        rep + replace_all(s.subrange(pat.len() as int, s.len() as int), pat, rep)
    } else {
        seq![s[0]] + replace_all(s.drop_first(), pat, rep)
    }
}

/// Whether `pat` occurs in `s` at position `at`.
fn occurs_at(s: &[char], pat: &[char], at: usize) -> (r: bool)
    requires
        at <= s@.len(),
    ensures
        r == (pat@.len() <= s@.len() - at && s@.subrange(at as int, at + pat@.len()) == pat@),
{
    if pat.len() > s.len() - at {
        return false;
    }
    let slen = s.len();
    let mut j: usize = 0;
    while j < pat.len()
        invariant
            slen == s@.len(),
            pat@.len() <= s@.len() - at,
            at <= s@.len(),
            j <= pat@.len(),
            s@.subrange(at as int, at + j) == pat@.subrange(0, j as int),
        decreases pat@.len() - j,
    {
        if s[at + j] != pat[j] {
            assert(s@.subrange(at as int, at + pat@.len())[j as int] != pat@[j as int]);
            return false;
        }
        assert(s@.subrange(at as int, at + j + 1) == s@.subrange(at as int, at + j).push(
            s@[at + j],
        ));
        assert(pat@.subrange(0, j + 1) == pat@.subrange(0, j as int).push(pat@[j as int]));
        j = j + 1;
    }
    assert(pat@.subrange(0, pat@.len() as int) == pat@);
    true
}

/// `s` with every occurrence of `pat` replaced by `rep`.
pub fn replace(s: &[char], pat: &[char], rep: &[char]) -> (r: Vec<char>)
    requires
        pat@.len() > 0,
    ensures
        r@ == replace_all(s@, pat@, rep@),
{
    let n = s.len();
    let mut out: Vec<char> = Vec::new();
    let mut i: usize = 0;
    assert(s@.subrange(0, n as int) == s@);
    while i < n
        invariant
            n == s@.len(),
            pat@.len() > 0,
            i <= n,
            out@ + replace_all(s@.subrange(i as int, n as int), pat@, rep@) == replace_all(
                s@,
                pat@,
                rep@,
            ),
        decreases n - i,
    {
        let ghost rest = s@.subrange(i as int, n as int);
        if occurs_at(s, pat, i) {
            assert(rest.subrange(0, pat@.len() as int) == s@.subrange(i as int, i + pat@.len()));
            assert(rest.subrange(pat@.len() as int, rest.len() as int) == s@.subrange(
                i + pat@.len(),
                n as int,
            ));
            let ghost before = out@;
            let mut k: usize = 0;
            while k < rep.len()
                invariant
                    k <= rep@.len(),
                    out@ == before + rep@.subrange(0, k as int),
                decreases rep@.len() - k,
            {
                out.push(rep[k]);
                k = k + 1;
            }
            assert(rep@.subrange(0, rep@.len() as int) == rep@);
            assert(before + (rep@ + replace_all(s@.subrange(i + pat@.len(), n as int), pat@, rep@))
                == out@ + replace_all(s@.subrange(i + pat@.len(), n as int), pat@, rep@));
            i = i + pat.len();
        } else {
            assert(pat@.len() > rest.len() || !(rest.subrange(0, pat@.len() as int) == pat@)) by {
                if pat@.len() <= rest.len() {
                    assert(rest.subrange(0, pat@.len() as int) == s@.subrange(
                        i as int,
                        i + pat@.len(),
                    ));
                }
            }
            assert(rest.drop_first() == s@.subrange(i + 1, n as int));
            let ghost before = out@;
            out.push(s[i]);
            assert(before + (seq![s@[i as int]] + replace_all(rest.drop_first(), pat@, rep@))
                == out@ + replace_all(rest.drop_first(), pat@, rep@));
            i = i + 1;
        }
    }
    assert(s@.subrange(n as int, n as int) == Seq::<char>::empty());
    out
}


// ---------------------------------------------------------------------------
// Decimal numbers
// ---------------------------------------------------------------------------

/// Whether every character of `s` is a decimal digit.
pub open spec fn all_digits(s: Seq<char>) -> bool {
    forall|i: int| 0 <= i < s.len() ==> is_digit(#[trigger] s[i])
}

/// The number written by the decimal digits `ds`, most significant first.
pub open spec fn digits_value(ds: Seq<char>) -> nat
    decreases ds.len(),
{
    if ds.len() == 0 {
        0
    } else {
        digits_value(ds.drop_last()) * 10 + digit_value(ds.last())
    }
}

/// The number that `s` writes in decimal, as the standard library reads an
/// unsigned integer: an optional `+`, then one or more ASCII digits.
pub open spec fn decimal_of(s: Seq<char>) -> Option<nat> {
    let body = if s.len() > 0 && s[0] == '+' {
        s.drop_first()
    } else {
        s
    };
    if body.len() > 0 && all_digits(body) {
        Some(digits_value(body))
    } else {
        None
    }
}

/// What `str::parse` gives for an unsigned integer type whose largest value
/// is `max`: the number when it is written correctly and fits.
pub open spec fn parse_unsigned(s: Seq<char>, max: nat) -> Option<nat> {
    match decimal_of(s) {
        Some(v) => if v <= max {
            Some(v)
        } else {
            None
        },
        None => None,
    }
}

/// A longer run of digits writes at least as large a number as its prefix.
proof fn lemma_digits_value_prefix(ds: Seq<char>, k: int)
    requires
        0 <= k <= ds.len(),
    ensures
        digits_value(ds.subrange(0, k)) <= digits_value(ds),
    decreases ds.len(),
{
    if k < ds.len() {
        assert(ds.drop_last().subrange(0, k) == ds.subrange(0, k));
        lemma_digits_value_prefix(ds.drop_last(), k);
    } else {
        assert(ds.subrange(0, k) == ds);
    }
}

/// Reads the unsigned decimal number in `s` when it is at most `max`.
pub fn parse_decimal(s: &[char], max: u128) -> (r: Option<u128>)
    ensures
        match parse_unsigned(s@, max as nat) {
            Some(v) => r == Some(v as u128),
            None => r is None,
        },
{
    let n = s.len();
    let start: usize = if n > 0 && s[0] == '+' {
        1
    } else {
        0
    };
    let ghost body = if s@.len() > 0 && s@[0] == '+' {
        s@.drop_first()
    } else {
        s@
    };
    assert(body == s@.subrange(start as int, n as int));
    if start == n {
        return None;
    }
    let mut i = start;
    while i < n
        invariant
            start <= i <= n,
            n == s@.len(),
            body == s@.subrange(start as int, n as int),
            body == (if s@.len() > 0 && s@[0] == '+' {
                s@.drop_first()
            } else {
                s@
            }),
            all_digits(s@.subrange(start as int, i as int)),
        decreases n - i,
    {
        if !('0' <= s[i] && s[i] <= '9') {
            assert(body[i - start] == s@[i as int]);
            assert(!is_digit(body[i - start]));
            assert(!all_digits(body));
            assert(decimal_of(s@) is None);
            return None;
        }
        assert(s@.subrange(start as int, i + 1) == s@.subrange(start as int, i as int).push(
            s@[i as int],
        ));
        i = i + 1;
    }
    assert(all_digits(body));
    let mut acc: u128 = 0;
    let mut i = start;
    assert(s@.subrange(start as int, start as int) == Seq::<char>::empty());
    while i < n
        invariant
            start <= i <= n,
            start < n,
            n == s@.len(),
            body == s@.subrange(start as int, n as int),
            body == (if s@.len() > 0 && s@[0] == '+' {
                s@.drop_first()
            } else {
                s@
            }),
            all_digits(body),
            acc as nat == digits_value(s@.subrange(start as int, i as int)),
            acc <= max,
        decreases n - i,
    {
        let ghost pre = s@.subrange(start as int, i + 1);
        assert(pre.drop_last() == s@.subrange(start as int, i as int));
        assert(pre == body.subrange(0, i + 1 - start));
        assert(is_digit(body[i - start]));
        let c = s[i];
        let d: u128 = ((c as u32) - ('0' as u32)) as u128;
        assert(d == digit_value(pre.last()));
        assert(digits_value(pre) == acc * 10 + d);
        proof {
            lemma_digits_value_prefix(body, i + 1 - start);
        }
        assert(digits_value(body) >= acc * 10 + d);
        assert(decimal_of(s@) == Some(digits_value(body)));
        match acc.checked_mul(10) {
            None => {
                assert(acc * 10 > u128::MAX);
                return None;
            },
            Some(m) => match m.checked_add(d) {
                None => {
                    assert(m + d > u128::MAX);
                    return None;
                },
                Some(v) => {
                    if v > max {
                        return None;
                    }
                    acc = v;
                },
            },
        }
        i = i + 1;
    }
    assert(s@.subrange(start as int, n as int) == body);
    Some(acc)
}

/// Reads a `usize` written in decimal, as `str::parse::<usize>` does.
pub fn parse_usize(s: &str) -> (r: Option<usize>)
    ensures
        match parse_unsigned(s@, usize::MAX as nat) {
            Some(v) => r == Some(v as usize),
            None => r is None,
        },
{
    let cs = chars_of(s);
    match parse_decimal(&cs, usize::MAX as u128) {
        Some(v) => Some(v as usize),
        None => None,
    }
}

/// The decimal text of `n`, as `to_string` writes an unsigned integer.
pub open spec fn decimal_text(n: nat) -> Seq<char>
    decreases n,
{
    if n < 10 {
        seq![digit_char(n)]
    } else {
        decimal_text(n / 10).push(digit_char(n % 10))
    }
}

/// The character of the digit `d`.
fn digit(d: u128) -> (c: char)
    requires
        d < 10,
    ensures
        c == digit_char(d as nat),
{
    ((d as u8) + 48u8) as char
}

/// The decimal digits of `n`.
pub fn decimal_chars(n: u128) -> (r: Vec<char>)
    ensures
        r@ == decimal_text(n as nat),
    decreases n,
{
    if n < 10 {
        let mut v: Vec<char> = Vec::new();
        v.push(digit(n));
        v
    } else {
        let mut v = decimal_chars(n / 10);
        v.push(digit(n % 10));
        v
    }
}

/// The decimal text of `n`, as `usize::to_string` writes it.
pub fn usize_text(n: usize) -> (r: String)
    ensures
        r@ == decimal_text(n as nat),
{
    let v = decimal_chars(n as u128);
    string_of(&v)
}

// ---------------------------------------------------------------------------
// UUID text
// ---------------------------------------------------------------------------

/// The character of the hexadecimal digit `d < 16`, in lower case.
pub open spec fn hex_char(d: nat) -> char {
    if d < 10 {
        digit_char(d)
    } else {
        (d - 10 + 'a' as nat) as char
    }
}

/// The `count` lowest hexadecimal digits of `n`, most significant first.
pub open spec fn hex_digits(n: nat, count: nat) -> Seq<char>
    decreases count,
{
    if count == 0 {
        seq![]
    } else {
        hex_digits(n / 16, (count - 1) as nat).push(hex_char(n % 16))
    }
}

proof fn lemma_hex_digits_len(n: nat, count: nat)
    ensures
        hex_digits(n, count).len() == count,
    decreases count,
{
    if count > 0 {
        lemma_hex_digits_len(n / 16, (count - 1) as nat);
    }
}

/// The hyphenated lower-case text of a UUID, as a UUID is displayed:
/// 8, 4, 4, 4 and 12 hexadecimal digits separated by `-`.
pub open spec fn uuid_text(u: u128) -> Seq<char> {
    let h = hex_digits(u as nat, 32);
    h.subrange(0, 8) + seq!['-'] + h.subrange(8, 12) + seq!['-'] + h.subrange(12, 16) + seq![
        '-',
    ] + h.subrange(16, 20) + seq!['-'] + h.subrange(20, 32)
}

fn hex_digit(d: u128) -> (c: char)
    requires
        d < 16,
    ensures
        c == hex_char(d as nat),
{
    if d < 10 {
        digit(d)
    } else {
        ((d as u8) - 10u8 + 97u8) as char
    }
}

fn hex_digits_of(n: u128, count: usize) -> (r: Vec<char>)
    ensures
        r@ == hex_digits(n as nat, count as nat),
    decreases count,
{
    if count == 0 {
        Vec::new()
    } else {
        let mut v = hex_digits_of(n / 16, count - 1);
        v.push(hex_digit(n % 16));
        v
    }
}

/// The hyphenated text of the UUID whose 128-bit value is `u`.
pub fn uuid_string(u: u128) -> (r: String)
    ensures
        r@ == uuid_text(u),
{
    let h = hex_digits_of(u, 32);
    proof {
        lemma_hex_digits_len(u as nat, 32);
    }
    let mut out: Vec<char> = Vec::new();
    let mut i: usize = 0;
    while i < 32
        invariant
            h@ == hex_digits(u as nat, 32),
            h@.len() == 32,
            i <= 32,
            out@ == (if i <= 8 {
                h@.subrange(0, i as int)
            } else if i <= 12 {
                h@.subrange(0, 8) + seq!['-'] + h@.subrange(8, i as int)
            } else if i <= 16 {
                h@.subrange(0, 8) + seq!['-'] + h@.subrange(8, 12) + seq!['-'] + h@.subrange(
                    12,
                    i as int,
                )
            } else if i <= 20 {
                h@.subrange(0, 8) + seq!['-'] + h@.subrange(8, 12) + seq!['-'] + h@.subrange(
                    12,
                    16,
                ) + seq!['-'] + h@.subrange(16, i as int)
            } else {
                h@.subrange(0, 8) + seq!['-'] + h@.subrange(8, 12) + seq!['-'] + h@.subrange(
                    12,
                    16,
                ) + seq!['-'] + h@.subrange(16, 20) + seq!['-'] + h@.subrange(20, i as int)
            }),
        decreases 32 - i,
    {
        if i == 8 || i == 12 || i == 16 || i == 20 {
            out.push('-');
        }
        out.push(h[i]);
        i = i + 1;
    }
    string_of(&out)
}


// ---------------------------------------------------------------------------
// Laws
// ---------------------------------------------------------------------------

/// The decimal text of a number is a run of digits that writes that number.
proof fn lemma_decimal_text_digits(n: nat)
    ensures
        decimal_text(n).len() > 0,
        all_digits(decimal_text(n)),
        digits_value(decimal_text(n)) == n,
    decreases n,
{
    if n < 10 {
        let t = decimal_text(n);
        assert(t.drop_last() =~= Seq::<char>::empty());
        assert(digits_value(t.drop_last()) == 0);
        assert(t.last() == digit_char(n));
        assert(digit_value(digit_char(n)) == n);
        assert(digits_value(t) == digits_value(t.drop_last()) * 10 + digit_value(t.last()));
    } else {
        lemma_decimal_text_digits(n / 10);
        let t = decimal_text(n);
        assert(t.drop_last() == decimal_text(n / 10));
        assert(digit_value(digit_char(n % 10)) == n % 10);
        assert(n == (n / 10) * 10 + n % 10) by {
            vstd::arithmetic::div_mod::lemma_fundamental_div_mod(n as int, 10);
        }
        assert forall|i: int| 0 <= i < t.len() implies is_digit(#[trigger] t[i]) by {
            if i < t.len() - 1 {
                assert(t[i] == decimal_text(n / 10)[i]);
            }
        }
    }
}

/// Reading back what `to_string` writes gives the number again: the decimal
/// text of any `n` up to a type's largest value parses to `n`.
pub proof fn lemma_decimal_round_trip(n: nat, max: nat)
    requires
        n <= max,
    ensures
        parse_unsigned(decimal_text(n), max) == Some(n),
{
    lemma_decimal_text_digits(n);
    let t = decimal_text(n);
    assert(is_digit(t[0]));
    assert(t[0] != '+');
}

/// The text of every UUID is 36 characters long: 32 hexadecimal digits and
/// four hyphens.
pub proof fn lemma_uuid_text_len(u: u128)
    ensures
        uuid_text(u).len() == 36,
{
    lemma_hex_digits_len(u as nat, 32);
}

/// A lower-case hexadecimal digit: `0`..`9` or `a`..`f`.
pub open spec fn is_lower_hex(c: char) -> bool {
    ('0' <= c && c <= '9') || ('a' <= c && c <= 'f')
}

/// The value of a hexadecimal digit character.
pub open spec fn hex_value(c: char) -> int {
    if '0' <= c && c <= '9' {
        c as int - '0' as int
    } else {
        c as int - 'a' as int + 10
    }
}

/// The number that the hexadecimal digits `s` write, most significant first.
pub open spec fn hex_number(s: Seq<char>) -> int
    decreases s.len(),
{
    if s.len() == 0 {
        0
    } else {
        hex_number(s.drop_last()) * 16 + hex_value(s.last())
    }
}

/// Sixteen to the power `k`.
pub open spec fn pow16(k: nat) -> nat
    decreases k,
{
    if k == 0 {
        1
    } else {
        16 * pow16((k - 1) as nat)
    }
}

/// The `count` hexadecimal digits written for `n` are lower-case digits that
/// read back as `n` modulo `16^count`.
proof fn lemma_hex_digits_read_back(n: nat, count: nat)
    ensures
        hex_digits(n, count).len() == count,
        forall|i: int| 0 <= i < count ==> is_lower_hex(#[trigger] hex_digits(n, count)[i]),
        hex_number(hex_digits(n, count)) == n % pow16(count),
        pow16(count) > 0,
    decreases count,
{
    if count == 0 {
        assert(n % 1 == 0);
    } else {
        let c1 = (count - 1) as nat;
        lemma_hex_digits_read_back(n / 16, c1);
        let h = hex_digits(n, count);
        let d = n % 16;
        assert(h.drop_last() == hex_digits(n / 16, c1));
        assert(h.last() == hex_char(d));
        assert(is_lower_hex(hex_char(d)) && hex_value(hex_char(d)) == d);
        assert forall|i: int| 0 <= i < count implies is_lower_hex(#[trigger] h[i]) by {
            if i < c1 {
                assert(h[i] == hex_digits(n / 16, c1)[i]);
            }
        }
        vstd::arithmetic::div_mod::lemma_breakdown(n as int, 16, pow16(c1) as int);
        assert(hex_number(h) == hex_number(hex_digits(n / 16, c1)) * 16 + d);
        assert(16 * ((n / 16) % pow16(c1)) == ((n / 16) % pow16(c1)) * 16);
    }
}

/// The text of a UUID reads back as the UUID: 36 characters with a hyphen
/// at positions 8, 13, 18 and 23, lower-case hexadecimal digits everywhere
/// else, and those 32 digits, taken in order, write the UUID's 128-bit value.
pub proof fn lemma_uuid_text_read_back(u: u128)
    ensures
        uuid_text(u).len() == 36,
        uuid_text(u)[8] == '-' && uuid_text(u)[13] == '-' && uuid_text(u)[18] == '-'
            && uuid_text(u)[23] == '-',
        forall|i: int|
            0 <= i < 36 && i != 8 && i != 13 && i != 18 && i != 23 ==> is_lower_hex(
                #[trigger] uuid_text(u)[i],
            ),
        hex_number(
            uuid_text(u).subrange(0, 8) + uuid_text(u).subrange(9, 13) + uuid_text(u).subrange(
                14,
                18,
            ) + uuid_text(u).subrange(19, 23) + uuid_text(u).subrange(24, 36),
        ) == u,
{
    let h = hex_digits(u as nat, 32);
    let t = uuid_text(u);
    lemma_hex_digits_read_back(u as nat, 32);
    assert(pow16(32) == 0x1_0000_0000_0000_0000_0000_0000_0000_0000) by {
        reveal_with_fuel(pow16, 33);
    }
    vstd::arithmetic::div_mod::lemma_small_mod(u as nat, pow16(32));
    assert(t.len() == 36);
    assert(t.subrange(0, 8) =~= h.subrange(0, 8));
    assert(t.subrange(9, 13) =~= h.subrange(8, 12));
    assert(t.subrange(14, 18) =~= h.subrange(12, 16));
    assert(t.subrange(19, 23) =~= h.subrange(16, 20));
    assert(t.subrange(24, 36) =~= h.subrange(20, 32));
    assert(t.subrange(0, 8) + t.subrange(9, 13) + t.subrange(14, 18) + t.subrange(19, 23)
        + t.subrange(24, 36) =~= h);
    assert forall|i: int|
        0 <= i < 36 && i != 8 && i != 13 && i != 18 && i != 23 implies is_lower_hex(
            #[trigger] t[i],
        ) by {
        if i < 8 {
            assert(t[i] == h[i]);
        } else if i < 13 {
            assert(t[i] == h[i - 1]);
        } else if i < 18 {
            assert(t[i] == h[i - 2]);
        } else if i < 23 {
            assert(t[i] == h[i - 3]);
        } else {
            assert(t[i] == h[i - 4]);
        }
    }
}


proof fn lemma_words_from_nonempty(s: Seq<char>, cur: Seq<char>)
    ensures
        forall|i: int| 0 <= i < words_from(s, cur).len() ==> #[trigger] words_from(s, cur)[i].len() > 0,
    decreases s.len(),
{
    if s.len() > 0 {
        if is_ws(s[0]) {
            lemma_words_from_nonempty(s.drop_first(), seq![]);
            let head = if cur.len() == 0 {
                Seq::<Seq<char>>::empty()
            } else {
                seq![cur]
            };
            let w = words_from(s, cur);
            assert(w == head + words_from(s.drop_first(), seq![]));
            assert forall|i: int| 0 <= i < w.len() implies #[trigger] w[i].len() > 0 by {
                if i >= head.len() {
                    assert(w[i] == words_from(s.drop_first(), seq![])[i - head.len()]);
                } else {
                    assert(w[i] == cur);
                }
            }
        } else {
            lemma_words_from_nonempty(s.drop_first(), cur.push(s[0]));
            assert(words_from(s, cur) == words_from(s.drop_first(), cur.push(s[0])));
        }
    } else {
        if cur.len() > 0 {
            assert(words_from(s, cur) == seq![cur]);
        } else {
            assert(words_from(s, cur).len() == 0);
        }
    }
}

/// No word of a text is empty.
pub proof fn lemma_words_nonempty(s: Seq<char>)
    ensures
        forall|i: int| 0 <= i < words(s).len() ==> #[trigger] words(s)[i].len() > 0,
{
    lemma_words_from_nonempty(s, seq![]);
}

/// Replacing a single character by nothing removes exactly that character:
/// the other characters stay, in order.
pub proof fn lemma_replace_char_removes(s: Seq<char>, c: char)
    ensures
        replace_all(s, seq![c], Seq::<char>::empty()) == s.filter(|x: char| x != c),
    decreases s.len(),
{
    let pred = |x: char| x != c;
    if s.len() > 0 {
        let rest = s.drop_first();
        lemma_replace_char_removes(rest, c);
        assert(s =~= seq![s[0]] + rest);
        Seq::filter_distributes_over_add(seq![s[0]], rest, pred);
        reveal_with_fuel(Seq::filter, 2);
        assert(seq![s[0]].drop_last() =~= Seq::<char>::empty());
        if s[0] == c {
            assert(s.subrange(0, 1) =~= seq![c]);
            assert(s.subrange(1, s.len() as int) =~= rest);
            assert(seq![s[0]].filter(pred) =~= Seq::<char>::empty());
        } else {
            assert(s.subrange(0, 1) != seq![c]) by {
                assert(s.subrange(0, 1)[0] != seq![c][0]);
            }
            assert(seq![s[0]].filter(pred) =~= seq![s[0]]);
        }
    } else {
        reveal_with_fuel(Seq::filter, 1);
    }
}

/// The decimal text of a number is never empty.
pub proof fn lemma_decimal_text_nonempty(n: nat)
    ensures
        decimal_text(n).len() > 0,
{
    lemma_decimal_text_digits(n);
}


/// The whitespace characters are exactly those of Unicode's `White_Space`
/// property: U+0009 to U+000D, U+0020, U+0085, U+00A0, U+1680, U+2000 to
/// U+200A, U+2028, U+2029, U+202F, U+205F and U+3000.
pub proof fn lemma_whitespace_chars(c: char)
    ensures
        is_ws(c) <==> (9 <= c as u32 <= 13 || c as u32 == 32 || c as u32 == 0x85 || c as u32
            == 0xa0 || c as u32 == 0x1680 || (0x2000 <= c as u32 <= 0x200a) || c as u32 == 0x2028
            || c as u32 == 0x2029 || c as u32 == 0x202f || c as u32 == 0x205f || c as u32
            == 0x3000),
{
}

/// Trimming whitespace from the end keeps a prefix of the text, removes
/// only whitespace, and stops at the last character that is not whitespace.
pub proof fn lemma_trim_end_ws(s: Seq<char>)
    ensures
        trim_end_ws(s).len() <= s.len(),
        trim_end_ws(s) == s.subrange(0, trim_end_ws(s).len() as int),
        forall|i: int| trim_end_ws(s).len() <= i < s.len() ==> is_ws(#[trigger] s[i]),
        trim_end_ws(s).len() == 0 || !is_ws(trim_end_ws(s).last()),
    decreases s.len(),
{
    if s.len() > 0 && is_ws(s.last()) {
        lemma_trim_end_ws(s.drop_last());
        let r = trim_end_ws(s.drop_last());
        assert(s.drop_last().subrange(0, r.len() as int) =~= s.subrange(0, r.len() as int));
        assert forall|i: int| r.len() <= i < s.len() implies is_ws(#[trigger] s[i]) by {
            if i < s.len() - 1 {
                assert(s.drop_last()[i] == s[i]);
            }
        }
    } else {
        assert(s.subrange(0, s.len() as int) == s);
    }
}

/// Trimming whitespace from the start keeps a suffix of the text, removes
/// only whitespace, and stops at the first character that is not
/// whitespace.
pub proof fn lemma_trim_start_ws(s: Seq<char>)
    ensures
        trim_start_ws(s).len() <= s.len(),
        trim_start_ws(s) == s.subrange(s.len() - trim_start_ws(s).len(), s.len() as int),
        forall|i: int| 0 <= i < s.len() - trim_start_ws(s).len() ==> is_ws(#[trigger] s[i]),
        trim_start_ws(s).len() == 0 || !is_ws(trim_start_ws(s)[0]),
    decreases s.len(),
{
    if s.len() > 0 && is_ws(s[0]) {
        lemma_trim_start_ws(s.drop_first());
        let r = trim_start_ws(s.drop_first());
        assert(s.drop_first().subrange(s.len() - 1 - r.len(), s.len() - 1) =~= s.subrange(
            s.len() - r.len(),
            s.len() as int,
        ));
        assert forall|i: int| 0 <= i < s.len() - r.len() implies is_ws(#[trigger] s[i]) by {
            if i > 0 {
                assert(s.drop_first()[i - 1] == s[i]);
            }
        }
    } else {
        assert(s.subrange(0, s.len() as int) == s);
    }
}

/// Trimming a character from the end keeps a prefix of the text, removes
/// only that character, and stops at the last other character.
pub proof fn lemma_trim_end_char(s: Seq<char>, c: char)
    ensures
        trim_end_char(s, c).len() <= s.len(),
        trim_end_char(s, c) == s.subrange(0, trim_end_char(s, c).len() as int),
        forall|i: int| trim_end_char(s, c).len() <= i < s.len() ==> #[trigger] s[i] == c,
        trim_end_char(s, c).len() == 0 || trim_end_char(s, c).last() != c,
    decreases s.len(),
{
    if s.len() > 0 && s.last() == c {
        lemma_trim_end_char(s.drop_last(), c);
        let r = trim_end_char(s.drop_last(), c);
        assert(s.drop_last().subrange(0, r.len() as int) =~= s.subrange(0, r.len() as int));
        assert forall|i: int| r.len() <= i < s.len() implies #[trigger] s[i] == c by {
            if i < s.len() - 1 {
                assert(s.drop_last()[i] == s[i]);
            }
        }
    } else {
        assert(s.subrange(0, s.len() as int) == s);
    }
}


proof fn lemma_words_from_split(s1: Seq<char>, c: char, s2: Seq<char>, cur: Seq<char>)
    requires
        is_ws(c),
    ensures
        words_from(s1 + seq![c] + s2, cur) == words_from(s1, cur) + words_from(s2, seq![]),
    decreases s1.len(),
{
    let whole = s1 + seq![c] + s2;
    if s1.len() == 0 {
        assert(whole =~= seq![c] + s2);
        assert(whole.drop_first() =~= s2);
        assert(whole[0] == c);
        if cur.len() == 0 {
            assert(words_from(s1, cur) =~= Seq::<Seq<char>>::empty());
        }
    } else {
        assert(whole[0] == s1[0]);
        assert(whole.drop_first() =~= s1.drop_first() + seq![c] + s2);
        if is_ws(s1[0]) {
            lemma_words_from_split(s1.drop_first(), c, s2, seq![]);
            let head = if cur.len() == 0 {
                Seq::<Seq<char>>::empty()
            } else {
                seq![cur]
            };
            assert(head + (words_from(s1.drop_first(), seq![]) + words_from(s2, seq![])) =~= (head
                + words_from(s1.drop_first(), seq![])) + words_from(s2, seq![]));
        } else {
            lemma_words_from_split(s1.drop_first(), c, s2, cur.push(s1[0]));
        }
    }
}

proof fn lemma_words_from_unbroken(s: Seq<char>, cur: Seq<char>)
    requires
        forall|i: int| 0 <= i < s.len() ==> !is_ws(#[trigger] s[i]),
    ensures
        words_from(s, cur) == (if cur.len() + s.len() == 0 {
            Seq::<Seq<char>>::empty()
        } else {
            seq![cur + s]
        }),
    decreases s.len(),
{
    if s.len() == 0 {
        assert(cur + s =~= cur);
    } else {
        assert(!is_ws(s[0]));
        assert forall|i: int| 0 <= i < s.drop_first().len() implies !is_ws(
            #[trigger] s.drop_first()[i],
        ) by {
            assert(s.drop_first()[i] == s[i + 1]);
        }
        lemma_words_from_unbroken(s.drop_first(), cur.push(s[0]));
        assert(cur.push(s[0]) + s.drop_first() =~= cur + s);
    }
}

/// Splitting at whitespace: a text without whitespace is one word (or none
/// if it is empty), and a whitespace character splits a text into the words
/// before it followed by the words after it. These determine the words of
/// every text.
pub proof fn lemma_words_split(s1: Seq<char>, c: char, s2: Seq<char>)
    ensures
        is_ws(c) ==> words(s1 + seq![c] + s2) == words(s1) + words(s2),
        (forall|i: int| 0 <= i < s1.len() ==> !is_ws(#[trigger] s1[i])) ==> words(s1) == (if s1.len()
            == 0 {
            Seq::<Seq<char>>::empty()
        } else {
            seq![s1]
        }),
{
    if is_ws(c) {
        lemma_words_from_split(s1, c, s2, seq![]);
    }
    if forall|i: int| 0 <= i < s1.len() ==> !is_ws(#[trigger] s1[i]) {
        lemma_words_from_unbroken(s1, seq![]);
        assert(Seq::<char>::empty() + s1 =~= s1);
    }
}

} // verus!
