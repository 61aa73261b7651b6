//! Character-level building blocks shared by the text formats: whitespace
//! trimming, line splitting, UTF-8 handling and decimal numbers.
use vstd::prelude::*;
use vstd::utf8::*;

verus! {

// ─────────────────────────────────────────────────────────────────────────
// Whitespace
// ─────────────────────────────────────────────────────────────────────────

/// The Unicode `White_Space` property, the set that `char::is_whitespace`
/// and `str::trim` use.
pub open spec fn is_ws(c: char) -> bool {
    let u = c as u32;
    ||| u == 0x20
    ||| 0x09 <= u <= 0x0d
    ||| u == 0x85
    ||| u == 0xa0
    ||| u == 0x1680
    ||| 0x2000 <= u <= 0x200a
    ||| u == 0x2028
    ||| u == 0x2029
    ||| u == 0x202f
    ||| u == 0x205f
    ||| u == 0x3000
}

/// Whether `c` is Unicode whitespace.
pub fn is_whitespace(c: char) -> (b: bool)
    ensures
        b == is_ws(c),
{
    let u = c as u32;
    u == 0x20 || (0x09 <= u && u <= 0x0d) || u == 0x85 || u == 0xa0 || u == 0x1680 || (0x2000
        <= u && u <= 0x200a) || u == 0x2028 || u == 0x2029 || u == 0x202f || u == 0x205f || u
        == 0x3000
}

/// `s` without its leading whitespace.
pub open spec fn trim_start(s: Seq<char>) -> Seq<char>
    decreases s.len(),
{
    if s.len() > 0 && is_ws(s[0]) {
        trim_start(s.drop_first())
    } else {
        s
    }
}

/// `s` without its trailing whitespace.
pub open spec fn trim_end(s: Seq<char>) -> Seq<char>
    decreases s.len(),
{
    if s.len() > 0 && is_ws(s.last()) {
        trim_end(s.drop_last())
    } else {
        s
    }
}

/// `s` without leading and trailing whitespace.
pub open spec fn trim(s: Seq<char>) -> Seq<char> {
    trim_end(trim_start(s))
}

/// A sequence that neither starts nor ends with whitespace is its own trim.
pub proof fn lemma_trim_no_ws(s: Seq<char>)
    requires
        s.len() > 0 ==> !is_ws(s[0]) && !is_ws(s.last()),
    ensures
        trim_start(s) == s,
        trim_end(s) == s,
        trim(s) == s,
{
}

/// The start of `s[lo..hi]` once its leading whitespace is skipped.
pub fn skip_ws_start(s: &[char], lo: usize, hi: usize) -> (a: usize)
    requires
        lo <= hi <= s@.len(),
    ensures
        lo <= a <= hi,
        s@.subrange(a as int, hi as int) == trim_start(s@.subrange(lo as int, hi as int)),
{
    let mut i = lo;
    while i < hi && is_whitespace(s[i])
        invariant
            lo <= i <= hi,
            hi <= s@.len(),
            trim_start(s@.subrange(i as int, hi as int)) == trim_start(
                s@.subrange(lo as int, hi as int),
            ),
        decreases hi - i,
    {
        assert(s@.subrange(i as int, hi as int).drop_first() =~= s@.subrange(i + 1, hi as int));
        i += 1;
    }
    i
}

/// The end of `s[lo..hi]` once its trailing whitespace is dropped.
pub fn skip_ws_end(s: &[char], lo: usize, hi: usize) -> (b: usize)
    requires
        lo <= hi <= s@.len(),
    ensures
        lo <= b <= hi,
        s@.subrange(lo as int, b as int) == trim_end(s@.subrange(lo as int, hi as int)),
{
    let mut j = hi;
    while j > lo && is_whitespace(s[j - 1])
        invariant
            lo <= j <= hi,
            hi <= s@.len(),
            trim_end(s@.subrange(lo as int, j as int)) == trim_end(
                s@.subrange(lo as int, hi as int),
            ),
        decreases j - lo,
    {
        assert(s@.subrange(lo as int, j as int).drop_last() =~= s@.subrange(lo as int, j - 1));
        j -= 1;
    }
    j
}

/// The bounds of `s[lo..hi]` with whitespace trimmed on both ends.
pub fn trim_bounds(s: &[char], lo: usize, hi: usize) -> (r: (usize, usize))
    requires
        lo <= hi <= s@.len(),
    ensures
        lo <= r.0 <= r.1 <= hi,
        s@.subrange(r.0 as int, r.1 as int) == trim(s@.subrange(lo as int, hi as int)),
{
    let a = skip_ws_start(s, lo, hi);
    let b = skip_ws_end(s, a, hi);
    (a, b)
}

// ─────────────────────────────────────────────────────────────────────────
// Strings and characters
// ─────────────────────────────────────────────────────────────────────────

/// The characters of a string slice, in order.
pub fn chars_of(s: &str) -> (res: Vec<char>)
    ensures
        res@ == s@,
{
    let mut res: Vec<char> = Vec::new();
    for c in it: s.chars()
        invariant
            res@ == it.seq().take(it.index() as int),
            it.seq() == s@,
    {
        res.push(c);
    }
    res
}

/// Appends one character to a `String` (`String::push`).
#[verifier::external_body]
fn string_push(s: &mut String, c: char)
    ensures
        final(s)@ == old(s)@.push(c),
{
    s.push(c);
}

/// A `String` holding the characters `cs[lo..hi]`.
pub fn string_from(cs: &[char], lo: usize, hi: usize) -> (res: String)
    requires
        lo <= hi <= cs@.len(),
    ensures
        res@ == cs@.subrange(lo as int, hi as int),
{
    let mut res = String::new();
    let mut i = lo;
    while i < hi
        invariant
            lo <= i <= hi,
            hi <= cs@.len(),
            res@ == cs@.subrange(lo as int, i as int),
        decreases hi - i,
    {
        string_push(&mut res, cs[i]);
        assert(cs@.subrange(lo as int, i + 1) =~= cs@.subrange(lo as int, i as int).push(cs@[i as int]));
        i += 1;
    }
    res
}

/// A `String` holding all of `cs`.
pub fn string_of(cs: &[char]) -> (res: String)
    ensures
        res@ == cs@,
{
    let r = string_from(cs, 0, cs.len());
    assert(cs@.subrange(0, cs@.len() as int) =~= cs@);
    r
}

/// Whether `s[lo..hi]` is exactly `lit`.
pub fn range_eq(s: &[char], lo: usize, hi: usize, lit: &[char]) -> (b: bool)
    requires
        lo <= hi <= s@.len(),
    ensures
        b == (s@.subrange(lo as int, hi as int) == lit@),
{
    if hi - lo != lit.len() {
        assert(s@.subrange(lo as int, hi as int).len() != lit@.len());
        return false;
    }
    let mut k: usize = 0;
    while k < lit.len()
        invariant
            k <= lit@.len(),
            hi - lo == lit@.len(),
            lo <= hi <= s@.len(),
            forall|m: int| 0 <= m < k ==> s@[lo + m] == lit@[m],
        decreases lit@.len() - k,
    {
        if s[lo + k] != lit[k] {
            assert(s@.subrange(lo as int, hi as int)[k as int] != lit@[k as int]);
            return false;
        }
        k += 1;
    }
    assert(s@.subrange(lo as int, hi as int) =~= lit@);
    true
}

/// Whether two character sequences are equal.
pub fn chars_eq(a: &[char], b: &[char]) -> (r: bool)
    ensures
        r == (a@ == b@),
{
    let r = range_eq(a, 0, a.len(), b);
    assert(a@.subrange(0, a@.len() as int) =~= a@);
    r
}

/// Appends the characters of `s` to `out`.
pub fn push_str_chars(out: &mut Vec<char>, s: &str)
    ensures
        final(out)@ == old(out)@ + s@,
{
    let mut cs = chars_of(s);
    out.append(&mut cs);
}

/// Appends `cs[lo..hi]` to `out`.
pub fn push_range(out: &mut Vec<char>, cs: &[char], lo: usize, hi: usize)
    requires
        lo <= hi <= cs@.len(),
    ensures
        final(out)@ == old(out)@ + cs@.subrange(lo as int, hi as int),
{
    let mut i = lo;
    while i < hi
        invariant
            lo <= i <= hi,
            hi <= cs@.len(),
            out@ == old(out)@ + cs@.subrange(lo as int, i as int),
        decreases hi - i,
    {
        out.push(cs[i]);
        assert(cs@.subrange(lo as int, i + 1) =~= cs@.subrange(lo as int, i as int).push(cs@[i as int]));
        assert(out@ =~= old(out)@ + cs@.subrange(lo as int, i + 1));
        i += 1;
    }
}

// ─────────────────────────────────────────────────────────────────────────
// Searching and splitting
// ─────────────────────────────────────────────────────────────────────────

/// The first position at or after `i` where `s` holds `c`, or -1.
pub open spec fn index_from(s: Seq<char>, c: char, i: int) -> int
    decreases s.len() - i,
{
    if i >= s.len() {
        -1
    } else if s[i] == c {
        i
    } else {
        index_from(s, c, i + 1)
    }
}

/// The last position before `j` where `s` holds `c`, or -1.
pub open spec fn rindex_before(s: Seq<char>, c: char, j: int) -> int
    decreases j,
{
    if j <= 0 {
        -1
    } else if s[j - 1] == c {
        j - 1
    } else {
        rindex_before(s, c, j - 1)
    }
}

/// The first position of `c` in `s` (`str::find`).
pub fn find_first(s: &[char], c: char) -> (r: Option<usize>)
    ensures
        match r {
            Some(k) => index_from(s@, c, 0) == k && k < s@.len() && s@[k as int] == c,
            None => index_from(s@, c, 0) == -1,
        },
{
    let mut i: usize = 0;
    while i < s.len()
        invariant
            i <= s@.len(),
            index_from(s@, c, 0) == index_from(s@, c, i as int),
        decreases s@.len() - i,
    {
        if s[i] == c {
            return Some(i);
        }
        i += 1;
    }
    None
}

/// The last position of `c` in `s` (`str::rfind`).
pub fn find_last(s: &[char], c: char) -> (r: Option<usize>)
    ensures
        match r {
            Some(k) => rindex_before(s@, c, s@.len() as int) == k && k < s@.len() && s@[k as int]
                == c,
            None => rindex_before(s@, c, s@.len() as int) == -1,
        },
{
    let mut j: usize = s.len();
    while j > 0
        invariant
            j <= s@.len(),
            rindex_before(s@, c, s@.len() as int) == rindex_before(s@, c, j as int),
        decreases j,
    {
        if s[j - 1] == c {
            return Some(j - 1);
        }
        j -= 1;
    }
    None
}

/// `s` without any trailing `c` (`str::trim_end_matches`).
pub open spec fn trim_end_char(s: Seq<char>, c: char) -> Seq<char>
    decreases s.len(),
{
    if s.len() > 0 && s.last() == c {
        trim_end_char(s.drop_last(), c)
    } else {
        s
    }
}

/// The pieces of `s[start..]` between separators `c`, scanning from `i`.
pub open spec fn split_scan(s: Seq<char>, c: char, start: int, i: int) -> Seq<Seq<char>>
    decreases s.len() - i,
{
    if i >= s.len() {
        seq![s.subrange(start, s.len() as int)]
    } else if s[i] == c {
        seq![s.subrange(start, i)] + split_scan(s, c, i + 1, i + 1)
    } else {
        split_scan(s, c, start, i + 1)
    }
}

/// The pieces of `s` between separators `c` (`str::split`): never empty.
pub open spec fn split_on(s: Seq<char>, c: char) -> Seq<Seq<char>> {
    split_scan(s, c, 0, 0)
}

/// The views of a sequence of character vectors.
pub open spec fn chars_views(v: Seq<Vec<char>>) -> Seq<Seq<char>> {
    v.map_values(|x: Vec<char>| x@)
}

/// A copy of `s[lo..hi]`.
pub fn copy_chars(s: &[char], lo: usize, hi: usize) -> (res: Vec<char>)
    requires
        lo <= hi <= s@.len(),
    ensures
        res@ == s@.subrange(lo as int, hi as int),
{
    let mut res: Vec<char> = Vec::new();
    push_range(&mut res, s, lo, hi);
    assert(Seq::<char>::empty() + s@.subrange(lo as int, hi as int) =~= s@.subrange(
        lo as int,
        hi as int,
    ));
    res
}

/// The end of `s[..hi]` once trailing `c` are dropped.
pub fn trim_end_char_bound(s: &[char], hi: usize, c: char) -> (b: usize)
    requires
        hi <= s@.len(),
    ensures
        b <= hi,
        s@.subrange(0, b as int) == trim_end_char(s@.subrange(0, hi as int), c),
{
    let mut j = hi;
    while j > 0 && s[j - 1] == c
        invariant
            j <= hi <= s@.len(),
            trim_end_char(s@.subrange(0, j as int), c) == trim_end_char(
                s@.subrange(0, hi as int),
                c,
            ),
        decreases j,
    {
        assert(s@.subrange(0, j as int).drop_last() =~= s@.subrange(0, j - 1));
        j -= 1;
    }
    j
}

/// Splits `s` at every `c`.
pub fn split_chars(s: &[char], c: char) -> (res: Vec<Vec<char>>)
    ensures
        chars_views(res@) == split_on(s@, c),
{
    let mut res: Vec<Vec<char>> = Vec::new();
    let mut start: usize = 0;
    let mut i: usize = 0;
    while i < s.len()
        invariant
            start <= i <= s@.len(),
            chars_views(res@) + split_scan(s@, c, start as int, i as int) == split_on(s@, c),
        decreases s@.len() - i,
    {
        if s[i] == c {
            let piece = copy_chars(s, start, i);
            proof {
                assert(chars_views(res@.push(piece)) =~= chars_views(res@).push(piece@));
                assert(chars_views(res@).push(piece@) + split_scan(s@, c, i + 1, i + 1)
                    =~= chars_views(res@) + (seq![piece@] + split_scan(s@, c, i + 1, i + 1)));
            }
            res.push(piece);
            start = i + 1;
        }
        i += 1;
    }
    let piece = copy_chars(s, start, s.len());
    proof {
        assert(chars_views(res@.push(piece)) =~= chars_views(res@).push(piece@));
        assert(chars_views(res@).push(piece@) =~= chars_views(res@) + seq![piece@]);
    }
    res.push(piece);
    res
}

// ─────────────────────────────────────────────────────────────────────────
// Decimal numbers
// ─────────────────────────────────────────────────────────────────────────

/// The ASCII digit for `d`, for `0 <= d <= 9`.
pub open spec fn digit_char(d: int) -> char {
    (48 + d) as char
}

/// The decimal representation of `n`, without sign or leading zeros, as
/// `{}` formats an unsigned integer.
pub open spec fn decimal(n: nat) -> Seq<char>
    decreases n,
{
    if n < 10 {
        seq![digit_char(n as int)]
    } else {
        decimal(n / 10).push(digit_char((n % 10) as int))
    }
}

/// Appends the decimal representation of `n` to `out`.
pub fn push_decimal(out: &mut Vec<char>, n: u64)
    ensures
        final(out)@ == old(out)@ + decimal(n as nat),
    decreases n,
{
    if n >= 10 {
        push_decimal(out, n / 10);
    }
    let d = (n % 10) as u8;
    let c = (48u8 + d) as char;
    assert(c == digit_char((n % 10) as int));
    out.push(c);
    assert(out@ =~= old(out)@ + decimal(n as nat));
}

/// Whether `c` is an ASCII digit.
pub open spec fn is_digit(c: char) -> bool {
    48 <= (c as u32) <= 57
}

/// The value of the ASCII digit `c`.
pub open spec fn digit_value(c: char) -> int {
    (c as u32) as int - 48
}

/// The value of a sequence of decimal digits, most significant first.
pub open spec fn digits_value(s: Seq<char>) -> int
    decreases s.len(),
{
    if s.len() == 0 {
        0
    } else {
        digits_value(s.drop_last()) * 10 + digit_value(s.last())
    }
}

/// Whether every character of `s` is an ASCII digit.
pub open spec fn all_digits(s: Seq<char>) -> bool {
    forall|i: int| 0 <= i < s.len() ==> is_digit(#[trigger] s[i])
}

/// What `str::parse::<u64>` gives for `s`: an optional `+`, then one or more
/// ASCII digits whose value fits in a `u64`.
pub open spec fn parse_u64_value(s: Seq<char>) -> Option<u64> {
    let d = if s.len() > 0 && s[0] == '+' {
        s.drop_first()
    } else {
        s
    };
    if d.len() > 0 && all_digits(d) && digits_value(d) <= u64::MAX {
        Some(digits_value(d) as u64)
    } else {
        None
    }
}

/// The value of digits is never negative.
pub proof fn lemma_digits_value_nonneg(s: Seq<char>)
    requires
        all_digits(s),
    ensures
        digits_value(s) >= 0,
    decreases s.len(),
{
    if s.len() > 0 {
        assert(is_digit(s[s.len() - 1]));
        lemma_digits_value_nonneg(s.drop_last());
    }
}

/// Dropping trailing digits never raises the value.
pub proof fn lemma_digits_value_prefix(s: Seq<char>, j: int)
    requires
        all_digits(s),
        0 <= j <= s.len(),
    ensures
        digits_value(s.take(j)) <= digits_value(s),
    decreases s.len(),
{
    if j < s.len() {
        assert(is_digit(s[s.len() - 1]));
        assert(all_digits(s.drop_last()));
        lemma_digits_value_prefix(s.drop_last(), j);
        assert(s.drop_last().take(j) =~= s.take(j));
        lemma_digits_value_nonneg(s.drop_last());
    } else {
        assert(s.take(j) =~= s);
    }
}

/// Parses `s[lo..hi]` as `str::parse::<u64>` does.
pub fn parse_u64_range(s: &[char], lo: usize, hi: usize) -> (res: Option<u64>)
    requires
        lo <= hi <= s@.len(),
    ensures
        res == parse_u64_value(s@.subrange(lo as int, hi as int)),
{
    let ghost t = s@.subrange(lo as int, hi as int);
    let mut start = lo;
    if lo < hi && s[lo] == '+' {
        start = lo + 1;
    }
    let ghost d = s@.subrange(start as int, hi as int);
    assert(d == (if t.len() > 0 && t[0] == '+' { t.drop_first() } else { t }));
    if start == hi {
        return None;
    }
    let mut v: u64 = 0;
    let mut k = start;
    assert(s@.subrange(start as int, start as int) =~= Seq::<char>::empty());
    while k < hi
        invariant
            start <= k <= hi,
            hi <= s@.len(),
            d == s@.subrange(start as int, hi as int),
            t == s@.subrange(lo as int, hi as int),
            d == (if t.len() > 0 && t[0] == '+' { t.drop_first() } else { t }),
            d.len() > 0,
            all_digits(s@.subrange(start as int, k as int)),
            v as int == digits_value(s@.subrange(start as int, k as int)),
        decreases hi - k,
    {
        let c = s[k];
        let ghost pre = s@.subrange(start as int, k as int);
        let ghost next = s@.subrange(start as int, k + 1);
        assert(next.drop_last() =~= pre);
        assert(next.last() == c);
        assert(d[k - start] == c);
        let cu = c as u32;
        if !(48 <= cu && cu <= 57) {
            assert(!is_digit(d[k - start]));
            return None;
        }
        let dig = (cu - 48) as u64;
        if v > (u64::MAX - dig) / 10 {
            proof {
                assert(v * 10 + dig > u64::MAX) by (nonlinear_arith)
                    requires
                        v > (u64::MAX - dig) / 10,
                        dig <= 9,
                ;
                assert(digits_value(next) == v * 10 + dig);
                if all_digits(d) {
                    assert(d.take(k + 1 - start) =~= next);
                    lemma_digits_value_prefix(d, k + 1 - start);
                }
            }
            return None;
        }
        assert(v * 10 + dig <= u64::MAX) by (nonlinear_arith)
            requires
                v <= (u64::MAX - dig) / 10,
                dig <= 9,
        ;
        v = v * 10 + dig;
        k += 1;
        assert(all_digits(next));
    }
    Some(v)
}

/// The decimal representation of `n` is all digits, starts with a digit, and has value `n`.
pub proof fn lemma_decimal(n: nat)
    ensures
        decimal(n).len() > 0,
        all_digits(decimal(n)),
        digits_value(decimal(n)) == n,
    decreases n,
{
    lemma_digit_char((n % 10) as int);
    if n >= 10 {
        lemma_decimal(n / 10);
        assert(decimal(n).drop_last() =~= decimal(n / 10));
        assert(decimal(n).last() == digit_char((n % 10) as int));
        assert(digits_value(decimal(n)) == digits_value(decimal(n / 10)) * 10 + (n % 10) as int);
        assert((n / 10) * 10 + n % 10 == n) by (nonlinear_arith);
    } else {
        assert(decimal(n).drop_last() =~= Seq::<char>::empty());
        assert(digits_value(Seq::<char>::empty()) == 0);
        assert(decimal(n).last() == digit_char(n as int));
        assert(digits_value(decimal(n)) == n);
    }
    assert(digits_value(decimal(n)) == n);
}

/// The digit character for `d` is a digit of value `d`.
pub proof fn lemma_digit_char(d: int)
    requires
        0 <= d <= 9,
    ensures
        is_digit(digit_char(d)),
        digit_value(digit_char(d)) == d,
{
    assert(((48 + d) as char) as u32 == 48 + d);
}

/// Parsing the decimal representation of a `u64` gives it back.
pub proof fn lemma_parse_decimal(n: u64)
    ensures
        parse_u64_value(decimal(n as nat)) == Some(n),
{
    lemma_decimal(n as nat);
    assert(is_digit(decimal(n as nat)[0]));
}

// ─────────────────────────────────────────────────────────────────────────
// Lines
// ─────────────────────────────────────────────────────────────────────────

/// `l` without one trailing carriage return.
pub open spec fn strip_cr(l: Seq<u8>) -> Seq<u8> {
    if l.len() > 0 && l.last() == 13u8 {
        l.drop_last()
    } else {
        l
    }
}

/// The lines of `data[start..]`, scanning from position `i` (`start <= i`):
/// each line ends at a line feed, which is dropped together with one carriage
/// return before it; a last line without a line feed is kept whole.
pub open spec fn lines_scan(data: Seq<u8>, start: int, i: int) -> Seq<Seq<u8>>
    decreases data.len() - i,
{
    if i >= data.len() {
        if start < data.len() {
            seq![data.subrange(start, data.len() as int)]
        } else {
            seq![]
        }
    } else if data[i] == 10u8 {
        seq![strip_cr(data.subrange(start, i))] + lines_scan(data, i + 1, i + 1)
    } else {
        lines_scan(data, start, i + 1)
    }
}

/// The lines of `data`, as `BufRead::lines` yields them (before UTF-8 decoding).
pub open spec fn lines_of(data: Seq<u8>) -> Seq<Seq<u8>> {
    lines_scan(data, 0, 0)
}

/// The views of a sequence of byte vectors.
pub open spec fn bytes_views(v: Seq<Vec<u8>>) -> Seq<Seq<u8>> {
    v.map_values(|x: Vec<u8>| x@)
}

/// A copy of `data[lo..hi]`.
pub fn copy_bytes(data: &[u8], lo: usize, hi: usize) -> (res: Vec<u8>)
    requires
        lo <= hi <= data@.len(),
    ensures
        res@ == data@.subrange(lo as int, hi as int),
{
    let mut res: Vec<u8> = Vec::new();
    let mut i = lo;
    while i < hi
        invariant
            lo <= i <= hi,
            hi <= data@.len(),
            res@ == data@.subrange(lo as int, i as int),
        decreases hi - i,
    {
        res.push(data[i]);
        assert(data@.subrange(lo as int, i + 1) =~= data@.subrange(lo as int, i as int).push(
            data@[i as int],
        ));
        i += 1;
    }
    res
}

/// Splits `data` into its lines.
pub fn split_lines(data: &[u8]) -> (res: Vec<Vec<u8>>)
    ensures
        bytes_views(res@) == lines_of(data@),
{
    let mut res: Vec<Vec<u8>> = Vec::new();
    let mut start: usize = 0;
    let mut i: usize = 0;
    while i < data.len()
        invariant
            start <= i <= data@.len(),
            bytes_views(res@) + lines_scan(data@, start as int, i as int) == lines_of(data@),
        decreases data@.len() - i,
    {
        if data[i] == 10u8 {
            let mut hi = i;
            if hi > start && data[hi - 1] == 13u8 {
                hi = hi - 1;
            }
            let line = copy_bytes(data, start, hi);
            proof {
                let l = data@.subrange(start as int, i as int);
                assert(line@ == strip_cr(l)) by {
                    if l.len() > 0 && l.last() == 13u8 {
                        assert(l.drop_last() =~= data@.subrange(start as int, hi as int));
                    }
                }
                assert(bytes_views(res@.push(line)) =~= bytes_views(res@).push(line@));
                assert(lines_scan(data@, start as int, i as int) == seq![strip_cr(l)]
                    + lines_scan(data@, i + 1, i + 1));
                assert(bytes_views(res@).push(line@) + lines_scan(data@, i + 1, i + 1)
                    =~= bytes_views(res@) + (seq![strip_cr(l)] + lines_scan(data@, i + 1, i + 1)));
            }
            res.push(line);
            start = i + 1;
        }
        i += 1;
    }
    if start < data.len() {
        let line = copy_bytes(data, start, data.len());
        proof {
            assert(bytes_views(res@.push(line)) =~= bytes_views(res@).push(line@));
            assert(bytes_views(res@).push(line@) =~= bytes_views(res@) + seq![line@]);
        }
        res.push(line);
    } else {
        assert(bytes_views(res@) + seq![] =~= bytes_views(res@));
    }
    res
}

// ─────────────────────────────────────────────────────────────────────────
// UTF-8
// ─────────────────────────────────────────────────────────────────────────

/// The characters that a line's bytes hold, or `None` where they are not valid UTF-8.
pub open spec fn line_chars(b: Seq<u8>) -> Option<Seq<char>> {
    if valid_utf8(b) {
        Some(decode_utf8(b))
    } else {
        None
    }
}

/// The lines of `data` as characters; `None` stands for a line that is not valid UTF-8.
pub open spec fn text_lines(data: Seq<u8>) -> Seq<Option<Seq<char>>> {
    lines_of(data).map_values(|l: Seq<u8>| line_chars(l))
}

/// `std::str::from_utf8`: the string whose bytes are `b`, where `b` is valid UTF-8.
#[verifier::external_body]
fn str_from_utf8<'a>(b: &'a [u8]) -> (res: Option<&'a str>)
    ensures
        res is Some <==> valid_utf8(b@),
        res matches Some(s) ==> s@ == decode_utf8(b@),
{
    std::str::from_utf8(b).ok()
}

/// The characters of one line, or `None` where its bytes are not valid UTF-8.
pub fn decode_line(b: &[u8]) -> (res: Option<Vec<char>>)
    ensures
        match res {
            Some(v) => line_chars(b@) == Some(v@),
            None => line_chars(b@) is None,
        },
{
    match str_from_utf8(b) {
        Some(s) => Some(chars_of(s)),
        None => None,
    }
}

/// What `String::from_utf8_lossy` gives for input that is not valid UTF-8:
/// each invalid sequence becomes U+FFFD.
pub uninterp spec fn utf8_lossy(b: Seq<u8>) -> Seq<char>;

/// The text that lossy decoding gives: valid UTF-8 decoded as it stands.
pub open spec fn lossy_decode(b: Seq<u8>) -> Seq<char> {
    if valid_utf8(b) {
        decode_utf8(b)
    } else {
        utf8_lossy(b)
    }
}

/// `String::from_utf8_lossy(b).into_owned()`: valid UTF-8 is decoded as it
/// stands (as its documentation states); what it makes of invalid input is
/// left to the name `utf8_lossy`.
#[verifier::external_body]
pub(crate) fn string_from_utf8_lossy(b: &[u8]) -> (res: String)
    ensures
        res@ == (if valid_utf8(b@) {
            decode_utf8(b@)
        } else {
            utf8_lossy(b@)
        }),
{
    String::from_utf8_lossy(b).into_owned()
}

/// Appends the UTF-8 encoding of `c` to `out`.
pub fn push_char_utf8(out: &mut Vec<u8>, c: char)
    ensures
        final(out)@ == old(out)@ + encode_scalar(c as u32),
{
    let u = c as u32;
    proof {
        char_is_scalar(c);
    }
    if u <= 0x7f {
        out.push((u & 0x7f) as u8);
        assert(final(out)@ =~= old(out)@ + encode_scalar(u));
    } else if u <= 0x7ff {
        out.push(0xc0u8 | ((u >> 6u32) & 0x1f) as u8);
        out.push(0x80u8 | (u & 0x3f) as u8);
        assert(final(out)@ =~= old(out)@ + encode_scalar(u));
    } else if u <= 0xffff {
        out.push(0xe0u8 | ((u >> 12u32) & 0x0f) as u8);
        out.push(0x80u8 | ((u >> 6u32) & 0x3f) as u8);
        out.push(0x80u8 | (u & 0x3f) as u8);
        assert(final(out)@ =~= old(out)@ + encode_scalar(u));
    } else {
        out.push(0xf0u8 | ((u >> 18u32) & 0x7) as u8);
        out.push(0x80u8 | ((u >> 12u32) & 0x3f) as u8);
        out.push(0x80u8 | ((u >> 6u32) & 0x3f) as u8);
        out.push(0x80u8 | (u & 0x3f) as u8);
        assert(final(out)@ =~= old(out)@ + encode_scalar(u));
    }
}

/// The UTF-8 encoding of a concatenation is the concatenation of the encodings.
pub proof fn lemma_encode_utf8_concat(a: Seq<char>, b: Seq<char>)
    ensures
        encode_utf8(a + b) == encode_utf8(a) + encode_utf8(b),
    decreases a.len(),
{
    if a.len() == 0 {
        assert(a + b =~= b);
        assert(encode_utf8(a) + encode_utf8(b) =~= encode_utf8(b));
    } else {
        lemma_encode_utf8_concat(a.drop_first(), b);
        assert((a + b).drop_first() =~= a.drop_first() + b);
        assert((a + b)[0] == a[0]);
        assert(encode_utf8(a + b) == encode_scalar(a[0] as u32) + encode_utf8(a.drop_first() + b));
        assert(encode_utf8(a + b) =~= encode_utf8(a) + encode_utf8(b));
    }
}

/// Appends the UTF-8 encoding of `text` to `out`.
pub fn push_utf8(out: &mut Vec<u8>, text: &[char])
    ensures
        final(out)@ == old(out)@ + encode_utf8(text@),
{
    let mut i: usize = 0;
    while i < text.len()
        invariant
            i <= text@.len(),
            out@ == old(out)@ + encode_utf8(text@.take(i as int)),
        decreases text@.len() - i,
    {
        let c = text[i];
        proof {
            lemma_encode_utf8_concat(text@.take(i as int), seq![c]);
            assert(text@.take(i + 1) =~= text@.take(i as int) + seq![c]);
            assert(seq![c].drop_first() =~= Seq::<char>::empty());
            assert(encode_utf8(seq![c]) =~= encode_scalar(c as u32) + encode_utf8(Seq::<char>::empty()));
        }
        push_char_utf8(out, c);
        assert(out@ =~= old(out)@ + encode_utf8(text@.take(i + 1)));
        i += 1;
    }
    assert(text@.take(text@.len() as int) =~= text@);
}

// ─────────────────────────────────────────────────────────────────────────
// Lines that read back
// ─────────────────────────────────────────────────────────────────────────

/// Lines joined into one text, each followed by a line feed.
pub open spec fn joined_lines(ls: Seq<Seq<char>>) -> Seq<char>
    decreases ls.len(),
{
    if ls.len() == 0 {
        seq![]
    } else {
        ls[0] + seq!['\n'] + joined_lines(ls.drop_first())
    }
}

/// Whether `s` never holds `c`.
pub open spec fn free_of(s: Seq<char>, c: char) -> bool {
    forall|i: int| 0 <= i < s.len() ==> #[trigger] s[i] != c
}

/// A line that the line splitter gives back unchanged: it holds no line
/// feed and does not end with a carriage return.
pub open spec fn plain_line(l: Seq<char>) -> bool {
    &&& free_of(l, '\n')
    &&& !(l.len() > 0 && l.last() == '\r')
}

/// Whether every character of `s` is an upper-case ASCII letter or `_`.
pub open spec fn upper_word(s: Seq<char>) -> bool {
    forall|i: int| 0 <= i < s.len() ==> (65 <= (#[trigger] s[i] as u32) <= 90 || s[i] as u32 == 95)
}

/// A concatenation is free of what both parts are free of.
pub proof fn lemma_free_concat(a: Seq<char>, b: Seq<char>, c: char)
    requires
        free_of(a, c),
        free_of(b, c),
    ensures
        free_of(a + b, c),
{
    assert forall|i: int| 0 <= i < (a + b).len() implies #[trigger] (a + b)[i] != c by {
        if i < a.len() {
            assert((a + b)[i] == a[i]);
        } else {
            assert((a + b)[i] == b[i - a.len()]);
        }
    }
}

/// Digits are free of every non-digit.
pub proof fn lemma_digits_free(s: Seq<char>, c: char)
    requires
        all_digits(s),
        !is_digit(c),
    ensures
        free_of(s, c),
{
    assert forall|i: int| 0 <= i < s.len() implies #[trigger] s[i] != c by {
        assert(is_digit(s[i]));
    }
}

/// Upper-case words are free of every other character.
pub proof fn lemma_upper_free(s: Seq<char>, c: char)
    requires
        upper_word(s),
        !(65 <= (c as u32) <= 90 || c as u32 == 95),
    ensures
        free_of(s, c),
{
    assert forall|i: int| 0 <= i < s.len() implies #[trigger] s[i] != c by {
        assert(65 <= (s[i] as u32) <= 90 || s[i] as u32 == 95);
    }
}

/// The bytes of one scalar: the ASCII byte itself, or bytes that are all at least 0x80.
pub proof fn lemma_scalar_bytes(c: char)
    ensures
        encode_scalar(c as u32).len() > 0,
        (c as u32) < 0x80 ==> encode_scalar(c as u32) == seq![(c as u32) as u8],
        (c as u32) >= 0x80 ==> forall|j: int|
            0 <= j < encode_scalar(c as u32).len() ==> #[trigger] encode_scalar(c as u32)[j]
                >= 0x80,
{
    char_is_scalar(c);
    let u = c as u32;
    if u < 0x80 {
        assert((u & 0x7f) as u8 == u as u8) by (bit_vector)
            requires
                u < 0x80,
        ;
        assert(encode_scalar(u) =~= seq![u as u8]);
    } else if has_width_2_encoding(u) {
        assert(leading_byte_width_2(u) >= 0x80) by (bit_vector);
        assert(last_continuation_byte(u) >= 0x80) by (bit_vector);
    } else if has_width_3_encoding(u) {
        assert(leading_byte_width_3(u) >= 0x80) by (bit_vector);
        assert(second_last_continuation_byte(u) >= 0x80) by (bit_vector);
        assert(last_continuation_byte(u) >= 0x80) by (bit_vector);
    } else {
        assert(leading_byte_width_4(u) >= 0x80) by (bit_vector);
        assert(third_last_continuation_byte(u) >= 0x80) by (bit_vector);
        assert(second_last_continuation_byte(u) >= 0x80) by (bit_vector);
        assert(last_continuation_byte(u) >= 0x80) by (bit_vector);
    }
}

/// The encoding of one character is the encoding of its scalar.
pub proof fn lemma_encode_single(c: char)
    ensures
        encode_utf8(seq![c]) == encode_scalar(c as u32),
{
    assert(seq![c][0] == c);
    assert(seq![c].drop_first() =~= Seq::<char>::empty());
    assert(encode_utf8(Seq::<char>::empty()) == Seq::<u8>::empty());
    assert(encode_utf8(seq![c]) =~= encode_scalar(c as u32));
}

/// Different characters have different codes.
pub proof fn lemma_char_code(a: char, b: char)
    ensures
        (a as u32 == b as u32) <==> a == b,
{
    char_u32_cast(a, a as u32);
    char_u32_cast(b, b as u32);
}

/// An ASCII byte occurs in the encoding of `l` only where `l` holds that character.
pub proof fn lemma_encode_no_byte(l: Seq<char>, b: u8)
    requires
        b < 0x80,
        forall|i: int| 0 <= i < l.len() ==> (#[trigger] l[i] as u32) != b as u32,
    ensures
        forall|j: int| 0 <= j < encode_utf8(l).len() ==> #[trigger] encode_utf8(l)[j] != b,
    decreases l.len(),
{
    if l.len() > 0 {
        lemma_scalar_bytes(l[0]);
        assert(l[0] as u32 != b as u32);
        assert forall|i: int| 0 <= i < l.drop_first().len() implies (
        #[trigger] l.drop_first()[i] as u32) != b as u32 by {
            assert(l.drop_first()[i] == l[i + 1]);
        }
        lemma_encode_no_byte(l.drop_first(), b);
        let e = encode_scalar(l[0] as u32);
        assert forall|j: int| 0 <= j < encode_utf8(l).len() implies #[trigger] encode_utf8(l)[j]
            != b by {
            if j < e.len() {
                assert(encode_utf8(l)[j] == e[j]);
            } else {
                assert(encode_utf8(l)[j] == encode_utf8(l.drop_first())[j - e.len()]);
            }
        }
    }
}

/// The encoding of a non-empty `l` ends in an ASCII byte only where `l` ends in that character.
pub proof fn lemma_encode_last(l: Seq<char>, b: u8)
    requires
        l.len() > 0,
        b < 0x80,
        (l.last() as u32) != b as u32,
    ensures
        encode_utf8(l).len() > 0,
        encode_utf8(l).last() != b,
{
    lemma_encode_utf8_concat(l.drop_last(), seq![l.last()]);
    assert(l.drop_last() + seq![l.last()] =~= l);
    lemma_encode_single(l.last());
    lemma_scalar_bytes(l.last());
    let e = encode_scalar(l.last() as u32);
    assert(encode_utf8(l).last() == e.last());
}

/// Scanning for a line feed passes over bytes that are not one.
proof fn lemma_lines_scan_skip(d: Seq<u8>, start: int, i: int, n: int)
    requires
        0 <= start <= i <= n <= d.len(),
        forall|j: int| i <= j < n ==> #[trigger] d[j] != 10u8,
    ensures
        lines_scan(d, start, i) == lines_scan(d, start, n),
    decreases n - i,
{
    if i < n {
        lemma_lines_scan_skip(d, start, i + 1, n);
    }
}

/// Scanning behind a prefix is scanning the rest.
proof fn lemma_lines_scan_shift(p: Seq<u8>, r: Seq<u8>, a: int, b: int)
    requires
        0 <= a <= b <= r.len(),
    ensures
        lines_scan(p + r, p.len() + a, p.len() + b) == lines_scan(r, a, b),
    decreases r.len() - b,
{
    let d = p + r;
    if b < r.len() {
        assert(d[p.len() + b] == r[b]);
        if r[b] == 10u8 {
            lemma_lines_scan_shift(p, r, b + 1, b + 1);
            assert(d.subrange(p.len() + a, p.len() + b) =~= r.subrange(a, b));
        } else {
            lemma_lines_scan_shift(p, r, a, b + 1);
        }
    } else {
        assert(d.subrange(p.len() + a, d.len() as int) =~= r.subrange(a, r.len() as int));
    }
}

/// A line ended by a line feed is the first line.
proof fn lemma_lines_first(x: Seq<u8>, r: Seq<u8>)
    requires
        forall|j: int| 0 <= j < x.len() ==> #[trigger] x[j] != 10u8,
        !(x.len() > 0 && x.last() == 13u8),
    ensures
        lines_of(x + seq![10u8] + r) == seq![x] + lines_of(r),
{
    let d = x + seq![10u8] + r;
    let n = x.len() as int;
    assert forall|j: int| 0 <= j < n implies #[trigger] d[j] != 10u8 by {
        assert(d[j] == x[j]);
    }
    lemma_lines_scan_skip(d, 0, 0, n);
    assert(d[n] == 10u8);
    assert(d.subrange(0, n) =~= x);
    lemma_lines_scan_shift(x + seq![10u8], r, 0, 0);
    assert(x + seq![10u8] + r =~= (x + seq![10u8]) + r);
}

/// Lines joined with line feeds and encoded as UTF-8 read back as the lines.
pub proof fn lemma_text_lines_joined(ls: Seq<Seq<char>>)
    requires
        forall|i: int| 0 <= i < ls.len() ==> plain_line(#[trigger] ls[i]),
    ensures
        text_lines(encode_utf8(joined_lines(ls))) == ls.map_values(|l: Seq<char>| Some(l)),
    decreases ls.len(),
{
    if ls.len() == 0 {
        assert(encode_utf8(joined_lines(ls)) =~= Seq::<u8>::empty());
        assert(text_lines(Seq::<u8>::empty()) =~= Seq::<Option<Seq<char>>>::empty());
        assert(ls.map_values(|l: Seq<char>| Some(l)) =~= Seq::<Option<Seq<char>>>::empty());
    } else {
        let l = ls[0];
        let rest = ls.drop_first();
        assert(plain_line(l));
        assert forall|i: int| 0 <= i < rest.len() implies plain_line(#[trigger] rest[i]) by {
            assert(rest[i] == ls[i + 1]);
        }
        lemma_text_lines_joined(rest);
        let x = encode_utf8(l);
        let r = encode_utf8(joined_lines(rest));
        lemma_encode_utf8_concat(l + seq!['\n'], joined_lines(rest));
        lemma_encode_utf8_concat(l, seq!['\n']);
        lemma_scalar_bytes('\n');
        lemma_encode_single('\n');
        assert('\n' as u32 == 10u32);
        assert(encode_utf8(seq!['\n']) =~= seq![10u8]);
        assert(encode_utf8(joined_lines(ls)) =~= x + seq![10u8] + r);
        assert forall|i: int| 0 <= i < l.len() implies (#[trigger] l[i] as u32) != 10u32 by {
            assert(l[i] != '\n');
            lemma_char_code(l[i], '\n');
        }
        lemma_encode_no_byte(l, 10u8);
        if l.len() > 0 {
            lemma_char_code(l.last(), '\r');
            lemma_encode_last(l, 13u8);
        }
        lemma_lines_first(x, r);
        encode_utf8_valid_utf8(l);
        encode_utf8_decode_utf8(l);
        assert(line_chars(x) == Some(l));
        assert(text_lines(encode_utf8(joined_lines(ls))) =~= seq![Some(l)] + text_lines(r));
        assert(ls.map_values(|l: Seq<char>| Some(l)) =~= seq![Some(l)] + rest.map_values(
            |l: Seq<char>| Some(l),
        ));
    }
}

// ─────────────────────────────────────────────────────────────────────────
// Pieces that read back
// ─────────────────────────────────────────────────────────────────────────

/// Searching passes over positions that do not hold the character.
pub proof fn lemma_index_from(s: Seq<char>, c: char, i: int, k: int)
    requires
        0 <= i <= k < s.len(),
        forall|j: int| i <= j < k ==> #[trigger] s[j] != c,
        s[k] == c,
    ensures
        index_from(s, c, i) == k,
    decreases k - i,
{
    if i < k {
        lemma_index_from(s, c, i + 1, k);
    }
}

/// Splitting passes over positions that do not hold the separator.
proof fn lemma_split_scan_skip(s: Seq<char>, c: char, start: int, i: int, n: int)
    requires
        0 <= start <= i <= n <= s.len(),
        forall|j: int| i <= j < n ==> #[trigger] s[j] != c,
    ensures
        split_scan(s, c, start, i) == split_scan(s, c, start, n),
    decreases n - i,
{
    if i < n {
        lemma_split_scan_skip(s, c, start, i + 1, n);
    }
}

/// Splitting behind a prefix is splitting the rest.
proof fn lemma_split_scan_shift(p: Seq<char>, r: Seq<char>, c: char, a: int, b: int)
    requires
        0 <= a <= b <= r.len(),
    ensures
        split_scan(p + r, c, p.len() + a, p.len() + b) == split_scan(r, c, a, b),
    decreases r.len() - b,
{
    let d = p + r;
    if b < r.len() {
        assert(d[p.len() + b] == r[b]);
        if r[b] == c {
            lemma_split_scan_shift(p, r, c, b + 1, b + 1);
            assert(d.subrange(p.len() + a, p.len() + b) =~= r.subrange(a, b));
        } else {
            lemma_split_scan_shift(p, r, c, a, b + 1);
        }
    } else {
        assert(d.subrange(p.len() + a, d.len() as int) =~= r.subrange(a, r.len() as int));
    }
}

/// A piece without the separator splits into itself.
pub proof fn lemma_split_single(x: Seq<char>, c: char)
    requires
        forall|j: int| 0 <= j < x.len() ==> #[trigger] x[j] != c,
    ensures
        split_on(x, c) == seq![x],
{
    lemma_split_scan_skip(x, c, 0, 0, x.len() as int);
    assert(x.subrange(0, x.len() as int) =~= x);
}

/// A piece without the separator, then the separator: the first piece.
pub proof fn lemma_split_first(x: Seq<char>, c: char, r: Seq<char>)
    requires
        forall|j: int| 0 <= j < x.len() ==> #[trigger] x[j] != c,
    ensures
        split_on(x + seq![c] + r, c) == seq![x] + split_on(r, c),
{
    let d = x + seq![c] + r;
    let n = x.len() as int;
    assert forall|j: int| 0 <= j < n implies #[trigger] d[j] != c by {
        assert(d[j] == x[j]);
    }
    lemma_split_scan_skip(d, c, 0, 0, n);
    assert(d[n] == c);
    assert(d.subrange(0, n) =~= x);
    lemma_split_scan_shift(x + seq![c], r, c, 0, 0);
    assert(x + seq![c] + r =~= (x + seq![c]) + r);
}

} // verus!
