//! Character-level text handling shared by the parsers and the command helpers:
//! whitespace, trimming, line and field splitting, substring tests, and decimal
//! rendering, each stated over `Seq<char>` and proved.

use vstd::prelude::*;

verus! {

// ---------------------------------------------------------------------------------------
// Conversions between `str`/`String` and character vectors
// ---------------------------------------------------------------------------------------

/// The characters of `s`, in order.
pub fn chars_of(s: &str) -> (out: Vec<char>)
    ensures
        out@ == s@,
{
    let mut out: Vec<char> = Vec::new();
    for c in it: s.chars()
        invariant
            it.seq() == s@,
            out@ == it.seq().take(it.index()),
    {
        out.push(c);
    }
    out
}

/// `String: FromIterator<char>` (std): collecting characters yields the string made of
/// exactly those characters, in order.
#[verifier::external_body]
pub(crate) fn string_of(cs: &[char]) -> (s: String)
    ensures
        s@ == cs@,
{
    cs.iter().collect()
}

/// The characters `v[lo..hi]`, as a new vector.
pub fn copy_range(v: &Vec<char>, lo: usize, hi: usize) -> (out: Vec<char>)
    requires
        lo <= hi <= v.len(),
    ensures
        out@ == v@.subrange(lo as int, hi as int),
{
    let mut out: Vec<char> = Vec::new();
    let mut i = lo;
    while i < hi
        invariant
            lo <= i <= hi <= v.len(),
            out@ == v@.subrange(lo as int, i as int),
        decreases hi - i,
    {
        out.push(v[i]);
        i = i + 1;
    }
    out
}

/// The string made of the characters `v[lo..hi]`.
pub fn string_of_range(v: &Vec<char>, lo: usize, hi: usize) -> (s: String)
    requires
        lo <= hi <= v.len(),
    ensures
        s@ == v@.subrange(lo as int, hi as int),
{
    let cs = copy_range(v, lo, hi);
    string_of(cs.as_slice())
}

/// Appends the characters of `s` to `out`.
pub fn push_str(out: &mut Vec<char>, s: &str)
    ensures
        final(out)@ == old(out)@ + s@,
{
    let cs = chars_of(s);
    push_chars(out, &cs);
}

/// Appends the characters of `cs` to `out`.
pub fn push_chars(out: &mut Vec<char>, cs: &Vec<char>)
    ensures
        final(out)@ == old(out)@ + cs@,
{
    let ghost start = out@;
    let mut i: usize = 0;
    while i < cs.len()
        invariant
            i <= cs.len(),
            out@ == start + cs@.take(i as int),
        decreases cs.len() - i,
    {
        out.push(cs[i]);
        i = i + 1;
        assert(out@ == start + cs@.take(i as int));
    }
    assert(cs@.take(cs.len() as int) == cs@);
}

/// Whether two character sequences are equal.
pub fn chars_eq(a: &Vec<char>, b: &Vec<char>) -> (r: bool)
    ensures
        r == (a@ == b@),
{
    if a.len() != b.len() {
        return false;
    }
    let mut i: usize = 0;
    while i < a.len()
        invariant
            a.len() == b.len(),
            i <= a.len(),
            forall|k: int| 0 <= k < i ==> a@[k] == b@[k],
        decreases a.len() - i,
    {
        if a[i] != b[i] {
            return false;
        }
        i = i + 1;
    }
    assert(a@ == b@);
    true
}

/// Whether two strings hold the same characters.
pub fn str_eq(a: &str, b: &str) -> (r: bool)
    ensures
        r == (a@ == b@),
{
    let x = chars_of(a);
    let y = chars_of(b);
    chars_eq(&x, &y)
}

// ---------------------------------------------------------------------------------------
// Whitespace and trimming
// ---------------------------------------------------------------------------------------

/// The Unicode `White_Space` property, which is what `char::is_whitespace` tests:
/// U+0009..U+000D, U+0020, U+0085, U+00A0, U+1680, U+2000..U+200A, U+2028, U+2029,
/// U+202F, U+205F and U+3000.
pub open spec fn is_ws(c: char) -> bool {
    let u = c as u32;
    ||| 0x9 <= u <= 0xd
    ||| u == 0x20
    ||| u == 0x85
    ||| u == 0xa0
    ||| u == 0x1680
    ||| 0x2000 <= u <= 0x200a
    ||| u == 0x2028
    ||| u == 0x2029
    ||| u == 0x202f
    ||| u == 0x205f
    ||| u == 0x3000
}

/// `char::is_whitespace`.
pub fn is_whitespace(c: char) -> (b: bool)
    ensures
        b == is_ws(c),
{
    let u = c as u32;
    (0x9 <= u && u <= 0xd) || u == 0x20 || u == 0x85 || u == 0xa0 || u == 0x1680 || (0x2000
        <= u && u <= 0x200a) || u == 0x2028 || u == 0x2029 || u == 0x202f || u == 0x205f || u
        == 0x3000
}

/// `s` without its leading whitespace.
pub open spec fn trim_start(s: Seq<char>) -> Seq<char>
    decreases s.len(),
{
    if s.len() > 0 && is_ws(s[0]) {
        trim_start(s.drop_first())
    } else {
        s
    }
}

/// `s` without its trailing whitespace.
pub open spec fn trim_end(s: Seq<char>) -> Seq<char>
    decreases s.len(),
{
    if s.len() > 0 && is_ws(s.last()) {
        trim_end(s.drop_last())
    } else {
        s
    }
}

/// `str::trim`: `s` without leading and trailing whitespace.
pub open spec fn trimmed(s: Seq<char>) -> Seq<char> {
    trim_end(trim_start(s))
}

/// The bounds of `trim(v[lo..hi])` inside `v`.
pub fn trim_range(v: &Vec<char>, lo: usize, hi: usize) -> (r: (usize, usize))
    requires
        lo <= hi <= v.len(),
    ensures
        lo <= r.0 <= r.1 <= hi,
        v@.subrange(r.0 as int, r.1 as int) == trimmed(v@.subrange(lo as int, hi as int)),
{
    let mut i = lo;
    while i < hi && is_whitespace(v[i])
        invariant
            lo <= i <= hi <= v.len(),
            trim_start(v@.subrange(lo as int, hi as int)) == trim_start(
                v@.subrange(i as int, hi as int),
            ),
        decreases hi - i,
    {
        assert(v@.subrange(i as int, hi as int).drop_first() == v@.subrange(
            i + 1,
            hi as int,
        ));
        i = i + 1;
    }
    assert(trim_start(v@.subrange(i as int, hi as int)) == v@.subrange(i as int, hi as int));
    let mut j = hi;
    while j > i && is_whitespace(v[j - 1])
        invariant
            lo <= i <= j <= hi <= v.len(),
            trim_end(v@.subrange(i as int, hi as int)) == trim_end(
                v@.subrange(i as int, j as int),
            ),
        decreases j - i,
    {
        assert(v@.subrange(i as int, j as int).drop_last() == v@.subrange(i as int, j - 1));
        j = j - 1;
    }
    (i, j)
}

/// `str::trim` on a vector of characters.
pub fn trim_chars(v: &Vec<char>) -> (out: Vec<char>)
    ensures
        out@ == trimmed(v@),
{
    let (a, b) = trim_range(v, 0, v.len());
    assert(v@.subrange(0, v.len() as int) == v@);
    copy_range(v, a, b)
}

/// `str::trim`.
pub fn trim(s: &str) -> (out: String)
    ensures
        out@ == trimmed(s@),
{
    let v = chars_of(s);
    let t = trim_chars(&v);
    string_of(t.as_slice())
}


// ---------------------------------------------------------------------------------------
// Splitting into fields and lines
// ---------------------------------------------------------------------------------------

/// Index of the first `c` in `s`, if any.
pub open spec fn first_index_of(s: Seq<char>, c: char) -> Option<int>
    decreases s.len(),
{
    if s.len() == 0 {
        None
    } else if s[0] == c {
        Some(0)
    } else {
        match first_index_of(s.drop_first(), c) {
            Some(i) => Some(i + 1),
            None => None,
        }
    }
}

/// `first_index_of` is the least index holding `c`.
pub proof fn lemma_first_index_of(s: Seq<char>, c: char)
    ensures
        match first_index_of(s, c) {
            Some(i) => 0 <= i < s.len() && s[i] == c && forall|k: int| 0 <= k < i ==> s[k] != c,
            None => forall|k: int| 0 <= k < s.len() ==> s[k] != c,
        },
    decreases s.len(),
{
    if s.len() > 0 && s[0] != c {
        lemma_first_index_of(s.drop_first(), c);
        assert forall|k: int| 1 <= k < s.len() implies s[k] == s.drop_first()[k - 1] by {}
    }
}

/// The first index holding `c` determines `first_index_of`.
proof fn lemma_first_index_at(s: Seq<char>, c: char, i: int)
    requires
        0 <= i < s.len(),
        s[i] == c,
        forall|k: int| 0 <= k < i ==> s[k] != c,
    ensures
        first_index_of(s, c) == Some(i),
{
    lemma_first_index_of(s, c);
}

/// Without `c` in `s`, `first_index_of` is `None`.
proof fn lemma_first_index_none(s: Seq<char>, c: char)
    requires
        forall|k: int| 0 <= k < s.len() ==> s[k] != c,
    ensures
        first_index_of(s, c) is None,
{
    lemma_first_index_of(s, c);
}

/// `str::split(sep)`: the pieces between separators; there is always at least one piece.
pub open spec fn split_on(s: Seq<char>, sep: char) -> Seq<Seq<char>>
    decreases s.len(),
{
    match first_index_of(s, sep) {
        Some(i) => if 0 <= i < s.len() {
            seq![s.take(i)] + split_on(s.skip(i + 1), sep)
        } else {
            seq![s]
        },
        None => seq![s],
    }
}

/// The characters that a list of index ranges covers in `s`.
pub open spec fn pieces(s: Seq<char>, ranges: Seq<(usize, usize)>) -> Seq<Seq<char>> {
    ranges.map_values(|r: (usize, usize)| s.subrange(r.0 as int, r.1 as int))
}

/// Every range lies inside `lo..hi`.
pub open spec fn ranges_within(ranges: Seq<(usize, usize)>, lo: int, hi: int) -> bool {
    forall|k: int| 0 <= k < ranges.len() ==> lo <= #[trigger] ranges[k].0 <= ranges[k].1 <= hi
}

/// `str::split(sep)` over `v[lo..hi]`, as index ranges into `v`.
pub fn split_ranges(v: &Vec<char>, lo: usize, hi: usize, sep: char) -> (out: Vec<(usize, usize)>)
    requires
        lo <= hi <= v.len(),
    ensures
        ranges_within(out@, lo as int, hi as int),
        pieces(v@, out@) == split_on(v@.subrange(lo as int, hi as int), sep),
{
    let mut out: Vec<(usize, usize)> = Vec::new();
    let mut start = lo;
    let mut i = lo;
    while i < hi
        invariant
            lo <= start <= i <= hi <= v.len(),
            forall|k: int| start <= k < i ==> v@[k] != sep,
            ranges_within(out@, lo as int, hi as int),
            pieces(v@, out@) + split_on(v@.subrange(start as int, hi as int), sep) == split_on(
                v@.subrange(lo as int, hi as int),
                sep,
            ),
        decreases hi - i,
    {
        if v[i] == sep {
            let ghost rest = v@.subrange(start as int, hi as int);
            proof {
                lemma_first_index_at(rest, sep, i - start);
                assert(rest.take(i - start) == v@.subrange(start as int, i as int));
                assert(rest.skip(i - start + 1) == v@.subrange(i + 1, hi as int));
            }
            let ghost before = pieces(v@, out@);
            out.push((start, i));
            assert(pieces(v@, out@) == before.push(v@.subrange(start as int, i as int)));
            start = i + 1;
        }
        i = i + 1;
    }
    let ghost rest = v@.subrange(start as int, hi as int);
    proof {
        lemma_first_index_none(rest, sep);
    }
    let ghost before = pieces(v@, out@);
    out.push((start, hi));
    assert(pieces(v@, out@) == before.push(rest));
    out
}

/// A line without the carriage return that ended it, if it has one.
pub open spec fn strip_cr(s: Seq<char>) -> Seq<char> {
    if s.len() > 0 && s.last() == '\r' {
        s.drop_last()
    } else {
        s
    }
}

/// `str::lines`: the text split at `\n` or `\r\n`; a final line ending is optional, a bare
/// `\r` is kept, and an empty text has no lines.
pub open spec fn lines_of(s: Seq<char>) -> Seq<Seq<char>>
    decreases s.len(),
{
    if s.len() == 0 {
        seq![]
    } else {
        match first_index_of(s, '\n') {
            Some(i) => if 0 <= i < s.len() {
                seq![strip_cr(s.take(i))] + lines_of(s.skip(i + 1))
            } else {
                seq![s]
            },
            None => seq![s],
        }
    }
}

/// `str::lines` over `v`, as index ranges into `v`.
pub fn line_ranges(v: &Vec<char>) -> (out: Vec<(usize, usize)>)
    ensures
        ranges_within(out@, 0, v@.len() as int),
        pieces(v@, out@) == lines_of(v@),
{
    let mut out: Vec<(usize, usize)> = Vec::new();
    let n = v.len();
    let mut start: usize = 0;
    let mut i: usize = 0;
    assert(v@.subrange(0, n as int) == v@);
    while i < n
        invariant
            n == v.len(),
            start <= i <= n,
            forall|k: int| start <= k < i ==> v@[k] != '\n',
            ranges_within(out@, 0, n as int),
            pieces(v@, out@) + lines_of(v@.subrange(start as int, n as int)) == lines_of(v@),
        decreases n - i,
    {
        if v[i] == '\n' {
            let ghost rest = v@.subrange(start as int, n as int);
            let end = if i > start && v[i - 1] == '\r' {
                i - 1
            } else {
                i
            };
            proof {
                lemma_first_index_at(rest, '\n', i - start);
                assert(rest.take(i - start) == v@.subrange(start as int, i as int));
                assert(rest.skip(i - start + 1) == v@.subrange(i + 1, n as int));
                if end < i {
                    assert(v@.subrange(start as int, i as int).drop_last() == v@.subrange(
                        start as int,
                        end as int,
                    ));
                }
                assert(strip_cr(v@.subrange(start as int, i as int)) == v@.subrange(
                    start as int,
                    end as int,
                ));
            }
            let ghost before = pieces(v@, out@);
            out.push((start, end));
            assert(pieces(v@, out@) == before.push(v@.subrange(start as int, end as int)));
            start = i + 1;
        }
        i = i + 1;
    }
    let ghost rest = v@.subrange(start as int, n as int);
    if start < n {
        proof {
            lemma_first_index_none(rest, '\n');
        }
        let ghost before = pieces(v@, out@);
        out.push((start, n));
        assert(pieces(v@, out@) == before.push(rest));
    } else {
        assert(pieces(v@, out@) + lines_of(rest) == pieces(v@, out@));
    }
    out
}

// ---------------------------------------------------------------------------------------
// Prefix, suffix and substring tests
// ---------------------------------------------------------------------------------------

/// `str::starts_with`.
pub open spec fn has_prefix(s: Seq<char>, p: Seq<char>) -> bool {
    p.len() <= s.len() && s.take(p.len() as int) == p
}

/// `str::ends_with`.
pub open spec fn has_suffix(s: Seq<char>, p: Seq<char>) -> bool {
    p.len() <= s.len() && s.skip(s.len() - p.len()) == p
}

/// `str::contains` with a string pattern.
pub open spec fn has_substring(s: Seq<char>, t: Seq<char>) -> bool {
    exists|i: int| 0 <= i && i + t.len() <= s.len() && #[trigger] s.subrange(i, i + t.len()) == t
}

/// Whether `v[at..at + t.len()]` equals `t`.
pub fn matches_at(v: &Vec<char>, at: usize, t: &Vec<char>) -> (r: bool)
    requires
        at + t.len() <= v.len(),
    ensures
        r == (v@.subrange(at as int, at + t.len()) == t@),
{
    let mut k: usize = 0;
    while k < t.len()
        invariant
            at + t.len() <= v.len(),
            k <= t.len(),
            forall|j: int| 0 <= j < k ==> v@[at + j] == t@[j],
        decreases t.len() - k,
    {
        if v[at + k] != t[k] {
            assert(v@.subrange(at as int, at + t.len())[k as int] != t@[k as int]);
            return false;
        }
        k = k + 1;
    }
    assert(v@.subrange(at as int, at + t.len()) == t@);
    true
}

/// Whether `v` starts with `p`.
pub fn chars_start_with(v: &Vec<char>, p: &Vec<char>) -> (r: bool)
    ensures
        r == has_prefix(v@, p@),
{
    if p.len() > v.len() {
        return false;
    }
    assert(v@.take(p.len() as int) == v@.subrange(0, p.len() as int));
    matches_at(v, 0, p)
}

/// Whether `v` ends with `p`.
pub fn chars_end_with(v: &Vec<char>, p: &Vec<char>) -> (r: bool)
    ensures
        r == has_suffix(v@, p@),
{
    if p.len() > v.len() {
        return false;
    }
    let at = v.len() - p.len();
    assert(v@.skip(at as int) == v@.subrange(at as int, at + p.len()));
    matches_at(v, at, p)
}

/// Whether `t` occurs in `v[lo..hi]`.
pub fn contains_in_range(v: &Vec<char>, lo: usize, hi: usize, t: &Vec<char>) -> (r: bool)
    requires
        lo <= hi <= v.len(),
    ensures
        r == has_substring(v@.subrange(lo as int, hi as int), t@),
{
    let ghost s = v@.subrange(lo as int, hi as int);
    if t.len() > hi - lo {
        return false;
    }
    let last = hi - t.len();
    let mut i = lo;
    while i < last
        invariant
            lo <= i <= last,
            last + t.len() == hi <= v.len(),
            s == v@.subrange(lo as int, hi as int),
            forall|j: int| 0 <= j < i - lo ==> #[trigger] s.subrange(j, j + t.len()) != t@,
        decreases last - i,
    {
        let m = matches_at(v, i, t);
        assert(s.subrange(i - lo, i - lo + t.len()) == v@.subrange(i as int, i + t.len()));
        if m {
            return true;
        }
        i = i + 1;
    }
    let m = matches_at(v, last, t);
    assert(s.subrange(last - lo, last - lo + t.len()) == v@.subrange(last as int, hi as int));
    m
}

/// `str::contains` with a string pattern.
pub fn contains_str(s: &str, t: &str) -> (r: bool)
    ensures
        r == has_substring(s@, t@),
{
    let v = chars_of(s);
    let w = chars_of(t);
    assert(v@.subrange(0, v.len() as int) == v@);
    contains_in_range(&v, 0, v.len(), &w)
}

/// `str::starts_with` with a string pattern.
pub fn starts_with_str(s: &str, p: &str) -> (r: bool)
    ensures
        r == has_prefix(s@, p@),
{
    let v = chars_of(s);
    let w = chars_of(p);
    chars_start_with(&v, &w)
}

/// `str::ends_with` with a string pattern.
pub fn ends_with_str(s: &str, p: &str) -> (r: bool)
    ensures
        r == has_suffix(s@, p@),
{
    let v = chars_of(s);
    let w = chars_of(p);
    chars_end_with(&v, &w)
}


// ---------------------------------------------------------------------------------------
// Case conversion (std, Unicode tables)
// ---------------------------------------------------------------------------------------

/// What `str::to_lowercase` returns for a string: its Unicode lowercase mapping.
pub uninterp spec fn lowercase(s: Seq<char>) -> Seq<char>;

/// What `str::to_uppercase` returns for a string: its Unicode uppercase mapping.
pub uninterp spec fn uppercase(s: Seq<char>) -> Seq<char>;

/// Every character is ASCII.
pub open spec fn all_ascii(s: Seq<char>) -> bool {
    forall|k: int| 0 <= k < s.len() ==> (#[trigger] s[k] as u32) < 128
}

/// The ASCII lowercase of a character: 'A'..='Z' become 'a'..='z', others stay.
pub open spec fn ascii_lower(c: char) -> char {
    let u = c as u32;
    if 65 <= u <= 90 {
        (u + 32) as char
    } else {
        c
    }
}

/// The ASCII uppercase of a character: 'a'..='z' become 'A'..='Z', others stay.
pub open spec fn ascii_upper(c: char) -> char {
    let u = c as u32;
    if 97 <= u <= 122 {
        (u - 32) as char
    } else {
        c
    }
}

/// The lowercase form of a text: the ASCII map on all-ASCII text, else the Unicode
/// lowercase mapping.
pub open spec fn case_lower(s: Seq<char>) -> Seq<char> {
    if all_ascii(s) {
        s.map_values(|c: char| ascii_lower(c))
    } else {
        lowercase(s)
    }
}

/// The uppercase form of a text: the ASCII map on all-ASCII text, else the Unicode
/// uppercase mapping.
pub open spec fn case_upper(s: Seq<char>) -> Seq<char> {
    if all_ascii(s) {
        s.map_values(|c: char| ascii_upper(c))
    } else {
        uppercase(s)
    }
}

/// `str::to_lowercase` (std). Claimed: the result is the Unicode lowercase mapping of the
/// argument and depends on nothing else; it is empty exactly when the argument is; and on
/// an all-ASCII argument it maps 'A'..='Z' to 'a'..='z' character by character and keeps
/// every other character (the Unicode mapping restricted to ASCII). What the mapping does
/// to other characters is left unsaid.
#[verifier::external_body]
pub(crate) fn to_lowercase(s: &str) -> (r: String)
    ensures
        !all_ascii(s@) ==> r@ == lowercase(s@),
        r@ == case_lower(s@),
        s@.len() == 0 <==> r@.len() == 0,
{
    s.to_lowercase()
}

/// `str::to_uppercase` (std). Claimed: the result is the Unicode uppercase mapping of the
/// argument and depends on nothing else; it is empty exactly when the argument is; and on
/// an all-ASCII argument it maps 'a'..='z' to 'A'..='Z' character by character and keeps
/// every other character (the Unicode mapping restricted to ASCII). What the mapping does
/// to other characters is left unsaid.
#[verifier::external_body]
pub(crate) fn to_uppercase(s: &str) -> (r: String)
    ensures
        !all_ascii(s@) ==> r@ == uppercase(s@),
        r@ == case_upper(s@),
        s@.len() == 0 <==> r@.len() == 0,
{
    s.to_uppercase()
}

// ---------------------------------------------------------------------------------------
// Decimal rendering (what `{}` and `{:0w}` print for integers)
// ---------------------------------------------------------------------------------------

/// The ASCII digit for `d` (0..=9).
pub open spec fn digit(d: int) -> char {
    (d + 48) as char
}

/// The decimal digits of `n`, most significant first, without leading zeros.
pub open spec fn decimal(n: nat) -> Seq<char>
    decreases n,
{
    if n < 10 {
        seq![digit(n as int)]
    } else {
        decimal(n / 10).push(digit((n % 10) as int))
    }
}

/// `{}` of an integer: a minus sign for negatives, then the digits of the magnitude.
pub open spec fn signed_decimal(v: int) -> Seq<char> {
    if v < 0 {
        seq!['-'] + decimal((-v) as nat)
    } else {
        decimal(v as nat)
    }
}

/// `{:0w}` of an integer: the sign, then zeros, then the digits, at least `width` in all.
pub open spec fn zero_padded(v: int, width: nat) -> Seq<char> {
    let sign: Seq<char> = if v < 0 { seq!['-'] } else { seq![] };
    let digits = if v < 0 { decimal((-v) as nat) } else { decimal(v as nat) };
    let fill = width - sign.len() - digits.len();
    sign + Seq::new(if fill > 0 { fill as nat } else { 0 }, |k: int| '0') + digits
}

/// The decimal rendering has at least one digit, and one or two below 10 and 100.
pub proof fn lemma_decimal_len(n: nat)
    ensures
        1 <= decimal(n).len(),
        n < 10 ==> decimal(n).len() == 1,
        n < 100 ==> decimal(n).len() <= 2,
    decreases n,
{
    if n >= 10 {
        lemma_decimal_len(n / 10);
    }
}

/// The ASCII digit for `d`.
fn digit_char(d: u64) -> (c: char)
    requires
        d < 10,
    ensures
        c == digit(d as int),
{
    let b: u8 = (d as u8) + 48;
    b as char
}

/// Appends `decimal(n)` to `out`.
pub fn push_decimal(out: &mut Vec<char>, n: u64)
    ensures
        final(out)@ == old(out)@ + decimal(n as nat),
    decreases n,
{
    if n < 10 {
        out.push(digit_char(n));
    } else {
        push_decimal(out, n / 10);
        let ghost mid = out@;
        out.push(digit_char(n % 10));
        assert(out@ == mid.push(digit((n % 10) as int)));
    }
}

/// Appends `signed_decimal(v)` to `out`.
pub fn push_signed_decimal(out: &mut Vec<char>, v: i64)
    ensures
        final(out)@ == old(out)@ + signed_decimal(v as int),
{
    if v < 0 {
        let ghost start = out@;
        out.push('-');
        let mag: u64 = ((-(v + 1)) as u64) + 1;
        push_decimal(out, mag);
        assert(out@ == start + (seq!['-'] + decimal(mag as nat)));
    } else {
        push_decimal(out, v as u64);
    }
}

/// Appends `zero_padded(v, width)` to `out`.
pub fn push_zero_padded(out: &mut Vec<char>, v: i64, width: usize)
    ensures
        final(out)@ == old(out)@ + zero_padded(v as int, width as nat),
{
    let ghost start = out@;
    let mag: u64 = if v < 0 {
        ((-(v + 1)) as u64) + 1
    } else {
        v as u64
    };
    let mut digits: Vec<char> = Vec::new();
    push_decimal(&mut digits, mag);
    proof {
        lemma_decimal_len(mag as nat);
    }
    let sign_len: usize = if v < 0 {
        1
    } else {
        0
    };
    if v < 0 {
        out.push('-');
    }
    let ghost after_sign = out@;
    let mut k: usize = 0;
    let fill: usize = if width > sign_len && width - sign_len > digits.len() {
        width - sign_len - digits.len()
    } else {
        0
    };
    while k < fill
        invariant
            k <= fill,
            out@ == after_sign + Seq::new(k as nat, |j: int| '0'),
        decreases fill - k,
    {
        out.push('0');
        k = k + 1;
        assert(out@ == after_sign + Seq::new(k as nat, |j: int| '0'));
    }
    push_chars(out, &digits);
    let ghost sign: Seq<char> = if v < 0 { seq!['-'] } else { seq![] };
    assert(after_sign == start + sign);
    assert(out@ == start + zero_padded(v as int, width as nat));
}

} // verus!
