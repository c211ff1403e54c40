use vstd::prelude::*;
use vstd::string::*;

verus! {

/// Size of the buffer that holds one request line.
pub const REQUEST_LEN: usize = 65535;

/// Bytes read as text: every byte becomes the char with the same code point.
pub open spec fn latin1(bytes: Seq<u8>) -> Seq<char> {
    bytes.map_values(|b: u8| b as char)
}

/// First index at or after `i` whose byte is `a` or `b`; the length of `buf` when there is none.
pub open spec fn first_of(buf: Seq<u8>, a: u8, b: u8, i: int) -> int
    decreases buf.len() - i,
{
    if 0 <= i < buf.len() {
        if buf[i] == a || buf[i] == b {
            i
        } else {
            first_of(buf, a, b, i + 1)
        }
    } else {
        buf.len() as int
    }
}

/// Number of bytes of `needle`, from its `k`-th on, that `buf` repeats from `at + k` on.
pub open spec fn match_from(buf: Seq<u8>, needle: Seq<u8>, at: int, k: int) -> int
    decreases needle.len() - k,
{
    if 0 <= k < needle.len() && 0 <= at + k < buf.len() && buf[at + k] == needle[k] {
        match_from(buf, needle, at, k + 1)
    } else {
        k
    }
}

/// `buf` holds the `j`-th byte of `needle` at `at + j`.
pub open spec fn repeats_at(buf: Seq<u8>, needle: Seq<u8>, at: int, j: int) -> bool {
    0 <= at + j < buf.len() && 0 <= j < needle.len() && buf[at + j] == needle[j]
}

/// Where the scan for `needle` stops: the first byte that is NUL or the first byte of `needle`.
pub open spec fn scan_stop(buf: Seq<u8>, needle: Seq<u8>) -> int {
    first_of(buf, 0, needle[0], 0)
}

/// Where the field value starts: right behind `needle`, when the scan stopped on the first
/// byte of `needle` and the whole of `needle` follows from there.
pub open spec fn field_start(buf: Seq<u8>, needle: Seq<u8>) -> Option<int> {
    if needle.len() == 0 {
        None
    } else {
        let f = scan_stop(buf, needle);
        if f < buf.len() && buf[f] != 0 && match_from(buf, needle, f, 0) == needle.len() {
            Some(f + needle.len())
        } else {
            None
        }
    }
}

/// Where a field value that starts at `i` ends: at the first `byte` or newline.
pub open spec fn field_end(buf: Seq<u8>, byte: u8, i: int) -> int {
    first_of(buf, byte, 10u8, i)
}

/// The text that `substr` extracts.
pub open spec fn substr_spec(buf: Seq<u8>, needle: Seq<u8>, byte: u8) -> Seq<char> {
    match field_start(buf, needle) {
        Some(i) => latin1(buf.subrange(i, field_end(buf, byte, i))),
        None => Seq::empty(),
    }
}

/// `substr` reads only inside the buffer: the scan meets a stop, a partial match ends inside
/// the buffer, and a full match is followed by `byte` or a newline inside the buffer.
pub open spec fn substr_ok(buf: Seq<u8>, needle: Seq<u8>, byte: u8) -> bool {
    needle.len() == 0 || {
        let f = scan_stop(buf, needle);
        &&& f < buf.len()
        &&& buf[f] != 0 ==> {
            let m = match_from(buf, needle, f, 0);
            if m == needle.len() {
                field_end(buf, byte, f + m) < buf.len()
            } else {
                f + m < buf.len()
            }
        }
    }
}

/// `first_of` lies between `i` and the end, skips only bytes that are neither `a` nor `b`, and
/// stops on one that is.
pub proof fn lemma_first_of(buf: Seq<u8>, a: u8, b: u8, i: int)
    requires
        0 <= i <= buf.len(),
    ensures
        i <= first_of(buf, a, b, i) <= buf.len(),
        forall|k: int| i <= k < first_of(buf, a, b, i) ==> buf[k] != a && buf[k] != b,
        first_of(buf, a, b, i) < buf.len() ==> (buf[first_of(buf, a, b, i)] == a || buf[first_of(
            buf,
            a,
            b,
            i,
        )] == b),
    decreases buf.len() - i,
{
    if i < buf.len() && !(buf[i] == a || buf[i] == b) {
        lemma_first_of(buf, a, b, i + 1);
    }
}

/// `match_from` counts bytes that `buf` repeats, and stops at the first it does not.
pub proof fn lemma_match_from(buf: Seq<u8>, needle: Seq<u8>, at: int, k: int)
    requires
        0 <= k <= needle.len(),
        0 <= at,
    ensures
        k <= match_from(buf, needle, at, k) <= needle.len(),
        forall|j: int|
            k <= j < match_from(buf, needle, at, k) ==> #[trigger] repeats_at(buf, needle, at, j),
        match_from(buf, needle, at, k) < needle.len() ==> (at + match_from(buf, needle, at, k)
            >= buf.len() || buf[at + match_from(buf, needle, at, k)] != needle[match_from(
            buf,
            needle,
            at,
            k,
        )]),
    decreases needle.len() - k,
{
    if k < needle.len() && at + k < buf.len() && buf[at + k] == needle[k] {
        lemma_match_from(buf, needle, at, k + 1);
        assert(repeats_at(buf, needle, at, k));
    }
}

/// First index at or after `from` holding `a` or `b`.
fn first_index(buf: &[u8; REQUEST_LEN], a: u8, b: u8, from: usize) -> (r: usize)
    requires
        from <= REQUEST_LEN,
        first_of(buf@, a, b, from as int) < REQUEST_LEN,
    ensures
        r == first_of(buf@, a, b, from as int),
{
    let mut i = from;
    while buf[i] != a && buf[i] != b
        invariant
            buf@.len() == REQUEST_LEN,
            from <= i <= REQUEST_LEN,
            first_of(buf@, a, b, i as int) == first_of(buf@, a, b, from as int),
            first_of(buf@, a, b, from as int) < REQUEST_LEN,
        decreases REQUEST_LEN - i,
    {
        i = i + 1;
    }
    i
}

/// How many bytes of `needle` the buffer repeats from `at` on.
fn matched_len(buf: &[u8; REQUEST_LEN], needle: &[u8], at: usize) -> (m: usize)
    requires
        at < REQUEST_LEN,
        match_from(buf@, needle@, at as int, 0) == needle@.len() || at + match_from(
            buf@,
            needle@,
            at as int,
            0,
        ) < REQUEST_LEN,
    ensures
        m == match_from(buf@, needle@, at as int, 0),
{
    proof {
        lemma_match_from(buf@, needle@, at as int, 0);
    }
    let mut x: usize = 0;
    while x < needle.len() && buf[at + x] == needle[x]
        invariant
            buf@.len() == REQUEST_LEN,
            at < REQUEST_LEN,
            x <= match_from(buf@, needle@, at as int, 0) <= needle@.len(),
            match_from(buf@, needle@, at as int, x as int) == match_from(
                buf@,
                needle@,
                at as int,
                0,
            ),
            match_from(buf@, needle@, at as int, 0) == needle@.len() || at + match_from(
                buf@,
                needle@,
                at as int,
                0,
            ) < REQUEST_LEN,
            forall|j: int|
                0 <= j < match_from(buf@, needle@, at as int, 0) ==> #[trigger] repeats_at(
                    buf@,
                    needle@,
                    at as int,
                    j,
                ),
            match_from(buf@, needle@, at as int, 0) < needle@.len() ==> (at + match_from(
                buf@,
                needle@,
                at as int,
                0,
            ) >= buf@.len() || buf@[at + match_from(buf@, needle@, at as int, 0)]
                != needle@[match_from(buf@, needle@, at as int, 0)]),
        decreases needle@.len() - x,
    {
        x = x + 1;
    }
    x
}

/// The bytes `from..to` of the buffer as text.
fn latin1_text(buf: &[u8; REQUEST_LEN], from: usize, to: usize) -> (s: String)
    requires
        from <= to <= REQUEST_LEN,
    ensures
        s@ == latin1(buf@.subrange(from as int, to as int)),
{
    let mut s = String::new();
    let mut y = from;
    while y < to
        invariant
            buf@.len() == REQUEST_LEN,
            from <= y <= to <= REQUEST_LEN,
            s@ == latin1(buf@.subrange(from as int, y as int)),
        decreases to - y,
    {
        let c = buf[y] as char;
        push_char(&mut s, c);
        y = y + 1;
        assert(latin1(buf@.subrange(from as int, y as int)) =~= latin1(
            buf@.subrange(from as int, (y - 1) as int),
        ).push(c));
    }
    s
}

/// `String::push` from std: appends one char.
#[verifier::external_body]
pub(crate) fn push_char(s: &mut String, c: char)
    ensures
        final(s)@ == old(s)@.push(c),
{
    s.push(c);
}

/// The span `start..end` of the field value that follows `needle`, if `needle` is found.
fn field_span(buf: &[u8; REQUEST_LEN], needle: &[u8], byte: u8) -> (r: Option<(usize, usize)>)
    requires
        substr_ok(buf@, needle@, byte),
    ensures
        match r {
            Some((i, e)) => i <= e <= REQUEST_LEN && field_start(buf@, needle@) == Some(i as int) && e == field_end(
                buf@,
                byte,
                i as int,
            ),
            None => field_start(buf@, needle@) is None,
        },
{
    if needle.len() == 0 {
        return None;
    }
    let f = first_index(buf, 0, needle[0], 0);
    if buf[f] == 0 {
        return None;
    }
    let m = matched_len(buf, needle, f);
    if m != needle.len() {
        return None;
    }
    let i = f + m;
    proof {
        lemma_first_of(buf@, byte, 10u8, i as int);
    }
    let e = first_index(buf, byte, 10u8, i);
    Some((i, e))
}

/// The text that follows `needle` in the request line, up to `byte` or the end of the line;
/// empty when the scan does not find `needle` where it first stops.
///
/// The scan stops at the first byte that is NUL or equal to the first byte of `needle`, and
/// tries `needle` only there.
pub fn substr(buf: [u8; REQUEST_LEN], needle: &str, byte: u8) -> (request: String)
    requires
        substr_ok(buf@, needle.spec_bytes(), byte),
    ensures
        request@ == substr_spec(buf@, needle.spec_bytes(), byte),
{
    let srch = needle.as_bytes();
    match field_span(&buf, srch, byte) {
        Some((i, end)) => latin1_text(&buf, i, end),
        None => String::new(),
    }
}


/// Chars with the Unicode `White_Space` property, the set that `str::trim` removes.
pub open spec fn is_white_space(c: char) -> bool {
    let u = c as u32;
    ||| 9 <= u <= 13
    ||| u == 32
    ||| u == 0x85
    ||| u == 0xa0
    ||| u == 0x1680
    ||| 0x2000 <= u <= 0x200a
    ||| u == 0x2028
    ||| u == 0x2029
    ||| u == 0x202f
    ||| u == 0x205f
    ||| u == 0x3000
}

/// Whether byte `b`, read as a char, is white space.
fn is_space_byte(b: u8) -> (r: bool)
    ensures
        r == is_white_space(b as char),
{
    (9 <= b && b <= 13) || b == 32 || b == 0x85 || b == 0xa0
}


/// `s` without its leading white space.
pub open spec fn trim_start(s: Seq<char>) -> Seq<char>
    decreases s.len(),
{
    if s.len() > 0 && is_white_space(s[0]) {
        trim_start(s.drop_first())
    } else {
        s
    }
}

/// `s` without its trailing white space.
pub open spec fn trim_end(s: Seq<char>) -> Seq<char>
    decreases s.len(),
{
    if s.len() > 0 && is_white_space(s.last()) {
        trim_end(s.drop_last())
    } else {
        s
    }
}

/// `s` without leading and trailing white space, as `str::trim` returns it.
pub open spec fn trim(s: Seq<char>) -> Seq<char> {
    trim_end(trim_start(s))
}

/// An ASCII decimal digit.
pub open spec fn is_digit(c: char) -> bool {
    48 <= c as u32 <= 57
}

/// The value of a decimal digit.
pub open spec fn digit_value(c: char) -> nat {
    (c as u32 - 48) as nat
}

/// Every char is a decimal digit.
pub open spec fn all_digits(s: Seq<char>) -> bool {
    forall|k: int| 0 <= k < s.len() ==> #[trigger] is_digit(s[k])
}

/// The number that the decimal digits `s` write.
pub open spec fn digits_value(s: Seq<char>) -> nat
    decreases s.len(),
{
    if s.len() == 0 {
        0
    } else {
        digits_value(s.drop_last()) * 10 + digit_value(s.last())
    }
}

/// The digits of `s`, behind the optional leading `+`.
pub open spec fn unsigned_digits(s: Seq<char>) -> Seq<char> {
    if s.len() > 0 && s[0] == '+' {
        s.drop_first()
    } else {
        s
    }
}

/// What `s.parse::<usize>()` gives: an optional `+` and at least one decimal digit, whose
/// value fits in `usize`; `None` for anything else.
pub open spec fn parse_usize(s: Seq<char>) -> Option<usize> {
    let d = unsigned_digits(s);
    if d.len() > 0 && all_digits(d) && digits_value(d) <= usize::MAX {
        Some(digits_value(d) as usize)
    } else {
        None
    }
}

/// A prefix of digits writes no more than the whole.
pub proof fn lemma_digits_value_prefix(s: Seq<char>, k: int)
    requires
        0 <= k <= s.len(),
    ensures
        digits_value(s.take(k)) <= digits_value(s),
    decreases s.len(),
{
    if k == s.len() {
        assert(s.take(k) =~= s);
    } else {
        lemma_digits_value_prefix(s.drop_last(), k);
        assert(s.drop_last().take(k) =~= s.take(k));
    }
}

/// The trimmed part `a..b` of the span `from..to`.
fn trim_span(buf: &[u8; REQUEST_LEN], from: usize, to: usize) -> (r: (usize, usize))
    requires
        from <= to <= REQUEST_LEN,
    ensures
        from <= r.0 <= r.1 <= to,
        latin1(buf@.subrange(r.0 as int, r.1 as int)) == trim(
            latin1(buf@.subrange(from as int, to as int)),
        ),
{
    let mut a = from;
    while a < to && is_space_byte(buf[a])
        invariant
            buf@.len() == REQUEST_LEN,
            from <= a <= to <= REQUEST_LEN,
            trim_start(latin1(buf@.subrange(from as int, to as int))) == trim_start(
                latin1(buf@.subrange(a as int, to as int)),
            ),
        decreases to - a,
    {
        assert(latin1(buf@.subrange(a as int, to as int)).drop_first() =~= latin1(
            buf@.subrange(a + 1, to as int),
        ));
        a = a + 1;
    }
    let mut b = to;
    while b > a && is_space_byte(buf[b - 1])
        invariant
            buf@.len() == REQUEST_LEN,
            from <= a <= b <= to <= REQUEST_LEN,
            trim_start(latin1(buf@.subrange(from as int, to as int))) == latin1(
                buf@.subrange(a as int, to as int),
            ),
            trim_end(latin1(buf@.subrange(a as int, to as int))) == trim_end(
                latin1(buf@.subrange(a as int, b as int)),
            ),
        decreases b - a,
    {
        assert(latin1(buf@.subrange(a as int, b as int)).drop_last() =~= latin1(
            buf@.subrange(a as int, b - 1),
        ));
        b = b - 1;
    }
    (a, b)
}

/// `s.parse::<usize>()` for the text `a..b` of the buffer.
fn parse_span(buf: &[u8; REQUEST_LEN], a: usize, b: usize) -> (r: Option<usize>)
    requires
        a <= b <= REQUEST_LEN,
    ensures
        r == parse_usize(latin1(buf@.subrange(a as int, b as int))),
{
    let ghost s = latin1(buf@.subrange(a as int, b as int));
    let mut start = a;
    if start < b && buf[start] == 43 {
        start = start + 1;
        assert(s.drop_first() =~= latin1(buf@.subrange(start as int, b as int)));
    }
    let ghost d = latin1(buf@.subrange(start as int, b as int));
    assert(unsigned_digits(s) == d);
    if start == b {
        return None;
    }
    let mut v: usize = 0;
    let mut i = start;
    while i < b
        invariant
            buf@.len() == REQUEST_LEN,
            start <= i <= b <= REQUEST_LEN,
            d == latin1(buf@.subrange(start as int, b as int)),
            d.len() > 0,
            unsigned_digits(s) == d,
            s == latin1(buf@.subrange(a as int, b as int)),
            all_digits(d.take(i - start)),
            v == digits_value(d.take(i - start)),
        decreases b - i,
    {
        let c = buf[i];
        let ghost k: int = i - start;
        assert(d[k] == c as char);
        if c < 48 || c > 57 {
            assert(!is_digit(d[k]));
            assert(!all_digits(d));
            return None;
        }
        assert(d.take(k + 1).drop_last() =~= d.take(k));
        assert(digits_value(d.take(k + 1)) == v * 10 + (c - 48));
        let next = match v.checked_mul(10) {
            Some(t) => t.checked_add((c - 48) as usize),
            None => None,
        };
        match next {
            Some(n) => {
                v = n;
            },
            None => {
                proof {
                    if all_digits(d) {
                        lemma_digits_value_prefix(d, k + 1);
                        assert(digits_value(d) > usize::MAX);
                    }
                }
                return None;
            },
        }
        i = i + 1;
        assert(all_digits(d.take(i - start))) by {
            assert forall|j: int| 0 <= j < d.take(i - start).len() implies #[trigger] is_digit(
                d.take(i - start)[j],
            ) by {
                if j < k {
                    assert(d.take(i - start)[j] == d.take(k)[j]);
                }
            }
        }
    }
    assert(d.take(b - start) =~= d);
    Some(v)
}

/// The decimal digit `d` as a char.
pub open spec fn digit_char(d: nat) -> char {
    ((d + 48) as u8) as char
}

/// `n` written in decimal, as `format!("{}", n)` writes it.
pub open spec fn decimal(n: nat) -> Seq<char>
    decreases n,
{
    if n < 10 {
        seq![digit_char(n)]
    } else {
        decimal(n / 10).push(digit_char(n % 10))
    }
}

/// Appends `n` in decimal to `s`.
pub fn push_decimal(s: &mut String, n: usize)
    ensures
        final(s)@ == old(s)@ + decimal(n as nat),
    decreases n,
{
    if n >= 10 {
        push_decimal(s, n / 10);
    }
    let d = (n % 10) as u8;
    push_char(s, (d + 48) as char);
    assert(final(s)@ =~= old(s)@ + decimal(n as nat));
}


/// A completed request line as the reader hands it on: `len` bytes that end in a newline,
/// then NUL bytes up to the end of the buffer.
pub open spec fn is_line(buf: Seq<u8>, len: int) -> bool {
    &&& 1 <= len < buf.len()
    &&& buf[len - 1] == 10
    &&& forall|k: int| len <= k < buf.len() ==> #[trigger] buf[k] == 0
}

/// A field name that the scan can look for: not empty, no NUL byte, not ending in a newline.
pub open spec fn plain_needle(needle: Seq<u8>) -> bool {
    &&& needle.len() > 0
    &&& forall|k: int| 0 <= k < needle.len() ==> #[trigger] needle[k] != 0
    &&& needle.last() != 10
}

/// `first_of` is the first index at or after `i` that holds `a` or `b`.
pub proof fn lemma_first_of_is(buf: Seq<u8>, a: u8, b: u8, i: int, j: int)
    requires
        0 <= i <= j < buf.len(),
        buf[j] == a || buf[j] == b,
        forall|k: int| i <= k < j ==> buf[k] != a && buf[k] != b,
    ensures
        first_of(buf, a, b, i) == j,
{
    lemma_first_of(buf, a, b, i);
}

/// A needle that `buf` repeats in full at `at` is matched in full.
pub proof fn lemma_match_full(buf: Seq<u8>, needle: Seq<u8>, at: int, k: int)
    requires
        0 <= at,
        0 <= k <= needle.len(),
        forall|j: int| k <= j < needle.len() ==> #[trigger] repeats_at(buf, needle, at, j),
    ensures
        match_from(buf, needle, at, k) == needle.len(),
    decreases needle.len() - k,
{
    if k < needle.len() {
        assert(repeats_at(buf, needle, at, k));
        lemma_match_full(buf, needle, at, k + 1);
    }
}

/// On a completed line, `substr` reads only inside the buffer for every plain field name.
pub proof fn lemma_line_substr_ok(buf: Seq<u8>, len: int, needle: Seq<u8>, byte: u8)
    requires
        is_line(buf, len),
        plain_needle(needle),
    ensures
        substr_ok(buf, needle, byte),
{
    let f = scan_stop(buf, needle);
    lemma_first_of(buf, 0, needle[0], 0);
    assert(buf[len] == 0);
    assert(f <= len);
    if buf[f] != 0 {
        let m = match_from(buf, needle, f, 0);
        lemma_match_from(buf, needle, f, 0);
        if m > 0 {
            assert(repeats_at(buf, needle, f, m - 1));
            assert(needle[m - 1] != 0);
            assert(f + m - 1 < len);
        }
        assert(f + m <= len);
        if m == needle.len() {
            if f + m == len {
                assert(repeats_at(buf, needle, f, m - 1));
                assert(false);
            }
            lemma_first_of(buf, byte, 10u8, f + m);
            assert(first_of(buf, byte, 10u8, f + m) <= len - 1);
        }
    }
}

/// A line that starts with a field name yields exactly the value behind it: the bytes up to
/// the first `byte` or newline.
pub proof fn lemma_field_at_line_start(buf: Seq<u8>, needle: Seq<u8>, value: Seq<u8>, byte: u8)
    requires
        needle.len() > 0,
        needle[0] != 0,
        needle.len() + value.len() < buf.len(),
        buf.subrange(0, needle.len() as int) == needle,
        buf.subrange(needle.len() as int, (needle.len() + value.len()) as int) == value,
        forall|k: int| 0 <= k < value.len() ==> #[trigger] value[k] != byte && value[k] != 10,
        buf[(needle.len() + value.len()) as int] == byte || buf[(needle.len() + value.len()) as int] == 10,
    ensures
        substr_ok(buf, needle, byte),
        substr_spec(buf, needle, byte) == latin1(value),
{
    let nl = needle.len() as int;
    let vl = value.len() as int;
    assert(buf[0] == needle[0]);
    lemma_first_of_is(buf, 0, needle[0], 0, 0);
    assert forall|j: int| 0 <= j < nl implies #[trigger] repeats_at(buf, needle, 0, j) by {
        assert(buf.subrange(0, nl)[j] == buf[j]);
    }
    lemma_match_full(buf, needle, 0, 0);
    assert forall|k: int| nl <= k < nl + vl implies buf[k] != byte && buf[k] != 10 by {
        assert(buf.subrange(nl, nl + vl)[k - nl] == buf[k]);
        assert(value[k - nl] != byte && value[k - nl] != 10);
    }
    lemma_first_of_is(buf, byte, 10u8, nl, nl + vl);
}

/// The text that `substr` extracts never holds its terminator byte or a newline.
pub proof fn lemma_substr_stops_at_terminator(buf: Seq<u8>, needle: Seq<u8>, byte: u8, k: int)
    requires
        0 <= k < substr_spec(buf, needle, byte).len(),
    ensures
        substr_spec(buf, needle, byte)[k] != byte as char,
        substr_spec(buf, needle, byte)[k] != '\n',
{
    let f = scan_stop(buf, needle);
    lemma_first_of(buf, 0, needle[0], 0);
    lemma_match_from(buf, needle, f, 0);
    assert(repeats_at(buf, needle, f, needle.len() - 1));
    let i = f + needle.len();
    lemma_first_of(buf, byte, 10u8, i);
    assert(buf.subrange(i, field_end(buf, byte, i))[k] == buf[i + k]);
}


/// Whether the text of a numeric field is usable: empty, or a number once trimmed.
pub open spec fn number_field_ok(buf: Seq<u8>, needle: Seq<u8>, byte: u8) -> bool {
    let t = substr_spec(buf, needle, byte);
    t.len() == 0 || parse_usize(trim(t)) is Some
}

/// The number in a numeric field: 0 when its text is empty, else its trimmed text parsed.
pub open spec fn number_field(buf: Seq<u8>, needle: Seq<u8>, byte: u8) -> usize {
    let t = substr_spec(buf, needle, byte);
    if t.len() == 0 {
        0
    } else {
        parse_usize(trim(t))->Some_0
    }
}

/// The number in the field behind `needle`, or `None` when its text is there but is no number.
pub fn parse_number_field(buf: &[u8; REQUEST_LEN], needle: &[u8], byte: u8) -> (r: Option<usize>)
    requires
        substr_ok(buf@, needle@, byte),
    ensures
        r is Some <==> number_field_ok(buf@, needle@, byte),
        r is Some ==> r->Some_0 == number_field(buf@, needle@, byte),
{
    match field_span(buf, needle, byte) {
        None => Some(0),
        Some((i, e)) => {
            if i == e {
                Some(0)
            } else {
                let (a, b) = trim_span(buf, i, e);
                parse_span(buf, a, b)
            }
        },
    }
}

/// The text before the first NUL byte.
pub open spec fn text_before_nul(buf: Seq<u8>) -> Seq<char> {
    latin1(buf.take(first_of(buf, 0, 0, 0)))
}

/// The buffer holds a NUL byte.
pub open spec fn has_nul(buf: Seq<u8>) -> bool {
    first_of(buf, 0, 0, 0) < buf.len()
}

/// All bytes before the first NUL, as text.
pub fn copy_until_nul(buf: &[u8; REQUEST_LEN]) -> (s: String)
    requires
        has_nul(buf@),
    ensures
        s@ == text_before_nul(buf@),
{
    let end = first_index(buf, 0, 0, 0);
    proof {
        lemma_first_of(buf@, 0, 0, 0);
    }
    let s = latin1_text(buf, 0, end);
    assert(buf@.subrange(0, end as int) =~= buf@.take(end as int));
    s
}

/// On a completed line there is a NUL byte.
pub proof fn lemma_line_has_nul(buf: Seq<u8>, len: int)
    requires
        is_line(buf, len),
    ensures
        has_nul(buf),
{
    lemma_first_of(buf, 0, 0, 0);
    assert(buf[len] == 0);
}


/// `decimal(n)` is a non-empty run of digits that writes `n`.
pub proof fn lemma_decimal_digits(n: nat)
    ensures
        decimal(n).len() > 0,
        all_digits(decimal(n)),
        digits_value(decimal(n)) == n,
    decreases n,
{
    let c = digit_char(n % 10);
    assert(is_digit(c));
    assert(digit_value(c) == n % 10);
    if n < 10 {
        assert(decimal(n).drop_last() =~= Seq::<char>::empty());
        assert(digits_value(Seq::<char>::empty()) == 0);
        assert(decimal(n).last() == c);
        assert(digits_value(decimal(n)) == digit_value(c));
    } else {
        lemma_decimal_digits(n / 10);
        assert(decimal(n).drop_last() =~= decimal(n / 10));
        assert(decimal(n).last() == c);
        assert(digits_value(decimal(n)) == digits_value(decimal(n / 10)) * 10 + digit_value(c));
        assert((n / 10) * 10 + n % 10 == n) by (nonlinear_arith);
        assert forall|k: int| 0 <= k < decimal(n).len() implies #[trigger] is_digit(decimal(n)[k]) by {
            if k < decimal(n).len() - 1 {
                assert(decimal(n)[k] == decimal(n / 10)[k]);
            }
        }
    }
}

/// A number written in decimal parses back to itself, and trimming leaves it as it is.
pub proof fn lemma_decimal_parses(n: usize)
    ensures
        trim(decimal(n as nat)) == decimal(n as nat),
        parse_usize(decimal(n as nat)) == Some(n),
{
    let d = decimal(n as nat);
    lemma_decimal_digits(n as nat);
    assert(is_digit(d[0]));
    assert(is_digit(d.last()));
    assert(trim_start(d) == d);
    assert(trim_end(d) == d);
    assert(unsigned_digits(d) == d);
}

} // verus!

verus! {

/// Each byte reads as the char of the same code point.
pub proof fn lemma_latin1(bytes: Seq<u8>, k: int)
    requires
        0 <= k < bytes.len(),
    ensures
        latin1(bytes).len() == bytes.len(),
        latin1(bytes)[k] as u32 == bytes[k] as u32,
{
}

/// The white space of Latin-1 text is exactly the bytes 9 to 13, 32, 0x85 and 0xa0.
pub proof fn lemma_latin1_white_space(b: u8)
    ensures
        is_white_space(b as char) <==> (9 <= b <= 13 || b == 32 || b == 0x85 || b == 0xa0),
{
}

/// The scan tries only its first candidate: when the first byte that is NUL or the first byte
/// of `needle` holds that first byte but `needle` differs there at its `j`-th byte (or runs
/// off the buffer), nothing is extracted, even if `needle` appears later.
pub proof fn lemma_only_first_candidate(buf: Seq<u8>, needle: Seq<u8>, byte: u8, p: int, j: int)
    requires
        needle.len() > 0,
        0 <= p < buf.len(),
        buf[p] == needle[0],
        buf[p] != 0,
        forall|k: int| 0 <= k < p ==> buf[k] != 0 && buf[k] != needle[0],
        0 <= j < needle.len(),
        p + j >= buf.len() || buf[p + j] != needle[j],
    ensures
        substr_spec(buf, needle, byte) == Seq::<char>::empty(),
{
    lemma_first_of_is(buf, 0, needle[0], 0, p);
    lemma_match_from(buf, needle, p, 0);
    if match_from(buf, needle, p, 0) == needle.len() {
        assert(repeats_at(buf, needle, p, j));
    }
}

/// A NUL byte ahead of every occurrence of the first byte of `needle` ends the scan: nothing
/// is extracted.
pub proof fn lemma_nul_ends_scan(buf: Seq<u8>, needle: Seq<u8>, byte: u8, z: int)
    requires
        needle.len() > 0,
        0 <= z < buf.len(),
        buf[z] == 0,
        forall|k: int| 0 <= k < z ==> buf[k] != needle[0],
    ensures
        substr_spec(buf, needle, byte) == Seq::<char>::empty(),
{
    lemma_first_of(buf, 0, needle[0], 0);
}

/// The text before the first NUL is the bytes before it, each read as a char.
pub proof fn lemma_text_before_nul(buf: Seq<u8>, z: int)
    requires
        0 <= z < buf.len(),
        buf[z] == 0,
        forall|k: int| 0 <= k < z ==> buf[k] != 0,
    ensures
        has_nul(buf),
        text_before_nul(buf) == latin1(buf.take(z)),
        text_before_nul(buf).len() == z,
{
    lemma_first_of_is(buf, 0, 0, 0, z);
}

/// Leading white space is dropped one char at a time.
proof fn lemma_trim_start_prefix(w: Seq<char>, core: Seq<char>)
    requires
        forall|k: int| 0 <= k < w.len() ==> #[trigger] is_white_space(w[k]),
        core.len() > 0 ==> !is_white_space(core[0]),
    ensures
        trim_start(w + core) == core,
    decreases w.len(),
{
    if w.len() == 0 {
        assert(w + core =~= core);
    } else {
        assert((w + core).drop_first() =~= w.drop_first() + core);
        assert(is_white_space(w[0]));
        lemma_trim_start_prefix(w.drop_first(), core);
    }
}

/// Trailing white space is dropped one char at a time.
proof fn lemma_trim_end_suffix(core: Seq<char>, w: Seq<char>)
    requires
        forall|k: int| 0 <= k < w.len() ==> #[trigger] is_white_space(w[k]),
        core.len() > 0 ==> !is_white_space(core.last()),
    ensures
        trim_end(core + w) == core,
    decreases w.len(),
{
    if w.len() == 0 {
        assert(core + w =~= core);
    } else {
        assert((core + w).drop_last() =~= core + w.drop_last());
        assert(is_white_space(w[w.len() - 1]));
        lemma_trim_end_suffix(core, w.drop_last());
    }
}

/// Trimming removes exactly the white space around the text: white space, then a text that
/// neither starts nor ends with white space, then white space, trims to that text.
pub proof fn lemma_trim_removes_surrounding_space(w1: Seq<char>, core: Seq<char>, w2: Seq<char>)
    requires
        forall|k: int| 0 <= k < w1.len() ==> #[trigger] is_white_space(w1[k]),
        forall|k: int| 0 <= k < w2.len() ==> #[trigger] is_white_space(w2[k]),
        core.len() > 0 ==> !is_white_space(core[0]) && !is_white_space(core.last()),
        core.len() == 0 ==> w2.len() == 0,
    ensures
        trim(w1 + core + w2) == core,
{
    if core.len() > 0 {
        assert((core + w2)[0] == core[0]);
        lemma_trim_start_prefix(w1, core + w2);
        assert(w1 + core + w2 =~= w1 + (core + w2));
        lemma_trim_end_suffix(core, w2);
    } else {
        assert(w1 + core + w2 =~= w1 + core);
        lemma_trim_start_prefix(w1, core);
    }
}

/// Parsing refuses the empty text and a lone `+`, refuses any text with a char that is not a
/// digit behind the optional `+`, and reads an optional `+` as nothing.
pub proof fn lemma_parse_usize_rules(s: Seq<char>, k: int)
    ensures
        parse_usize(Seq::<char>::empty()) is None,
        parse_usize(seq!['+']) is None,
        (s.len() > 0 && s[0] != '+') ==> parse_usize(seq!['+'] + s) == parse_usize(s),
        (0 <= k < s.len() && !is_digit(s[k]) && (k > 0 || s[0] != '+')) ==> parse_usize(s) is None,
{
    assert((seq!['+'] + s).drop_first() =~= s);
    assert(seq!['+'].drop_first() =~= Seq::<char>::empty());
    if 0 <= k < s.len() && !is_digit(s[k]) && (k > 0 || s[0] != '+') {
        if s[0] == '+' {
            assert(s.drop_first()[k - 1] == s[k]);
        }
    }
}

/// A number above 0 is written without a leading zero.
pub proof fn lemma_decimal_no_leading_zero(n: nat)
    requires
        n > 0,
    ensures
        decimal(n)[0] != '0',
    decreases n,
{
    if n >= 10 {
        lemma_decimal_no_leading_zero(n / 10);
        lemma_decimal_digits(n / 10);
        assert(decimal(n)[0] == decimal(n / 10)[0]);
    } else {
        assert(digit_char(n) as u32 == n + 48);
    }
}

/// A numeric field that gives no text counts as 0; one that gives text counts as that text,
/// trimmed, read as a number.
pub proof fn lemma_number_field(buf: Seq<u8>, needle: Seq<u8>, byte: u8)
    ensures
        substr_spec(buf, needle, byte).len() == 0 ==> number_field_ok(buf, needle, byte)
            && number_field(buf, needle, byte) == 0,
        substr_spec(buf, needle, byte).len() > 0 ==> (number_field_ok(buf, needle, byte)
            <==> parse_usize(trim(substr_spec(buf, needle, byte))) is Some),
        substr_spec(buf, needle, byte).len() > 0 && number_field_ok(buf, needle, byte)
            ==> Some(number_field(buf, needle, byte)) == parse_usize(
            trim(substr_spec(buf, needle, byte)),
        ),
{
}

} // verus!
