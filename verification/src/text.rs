//! The text operations the game's parsers and layout use, each stated over the
//! characters of the text and matching the standard library's documented behaviour.
use vstd::prelude::*;
use vstd::string::StringSliceAdditionalSpecFns;

verus! {

/// The Unicode `White_Space` property, which `char::is_whitespace` and `str::trim` use.
pub open spec fn is_whitespace(c: char) -> bool {
    let u = c as u32;
    ||| 9 <= u <= 13
    ||| u == 32
    ||| u == 0x85
    ||| u == 0xa0
    ||| u == 0x1680
    ||| 0x2000 <= u <= 0x200a
    ||| u == 0x2028
    ||| u == 0x2029
    ||| u == 0x202f
    ||| u == 0x205f
    ||| u == 0x3000
}

pub open spec fn trim_start_spec(s: Seq<char>) -> Seq<char>
    decreases s.len(),
{
    if s.len() > 0 && is_whitespace(s[0]) {
        trim_start_spec(s.drop_first())
    } else {
        s
    }
}

pub open spec fn trim_end_spec(s: Seq<char>) -> Seq<char>
    decreases s.len(),
{
    if s.len() > 0 && is_whitespace(s.last()) {
        trim_end_spec(s.drop_last())
    } else {
        s
    }
}

/// `s` without leading and trailing whitespace.
pub open spec fn trim_spec(s: Seq<char>) -> Seq<char> {
    trim_end_spec(trim_start_spec(s))
}

/// Index of the first `c` in `s`, or -1.
pub open spec fn find_char(s: Seq<char>, c: char) -> int
    decreases s.len(),
{
    if s.len() == 0 {
        -1
    } else if s[0] == c {
        0
    } else {
        let r = find_char(s.drop_first(), c);
        if r < 0 {
            -1
        } else {
            r + 1
        }
    }
}

/// The pieces of `s` between occurrences of `c` (always at least one piece).
pub open spec fn split_spec(s: Seq<char>, c: char) -> Seq<Seq<char>>
    decreases s.len(),
{
    let i = find_char(s, c);
    if i < 0 || i >= s.len() {
        seq![s]
    } else {
        seq![s.take(i)] + split_spec(s.skip(i + 1), c)
    }
}

/// The text before and after the first `c`, if there is one.
pub open spec fn split_once_spec(s: Seq<char>, c: char) -> Option<(Seq<char>, Seq<char>)> {
    let i = find_char(s, c);
    if i < 0 {
        None
    } else {
        Some((s.take(i), s.skip(i + 1)))
    }
}

/// A line without its `\n` terminator and, when it had one, the `\r` before it.
pub open spec fn strip_line_end(line: Seq<char>) -> Seq<char> {
    if line.len() > 0 && line.last() == '\r' {
        line.drop_last()
    } else {
        line
    }
}

/// The lines of `s`: split at `\n` (a `\r` right before it is dropped too); a final
/// line terminator does not start another line.
pub open spec fn lines_spec(s: Seq<char>) -> Seq<Seq<char>>
    decreases s.len(),
{
    let i = find_char(s, '\n');
    if s.len() == 0 {
        seq![]
    } else if i < 0 || i >= s.len() {
        seq![s]
    } else {
        seq![strip_line_end(s.take(i))] + lines_spec(s.skip(i + 1))
    }
}

pub open spec fn is_digit(c: char) -> bool {
    '0' <= c <= '9'
}

pub open spec fn digit_value(c: char) -> nat {
    (c as u32 - '0' as u32) as nat
}

/// The number written by the decimal digits `s`.
pub open spec fn digits_value(s: Seq<char>) -> nat
    decreases s.len(),
{
    if s.len() == 0 {
        0
    } else {
        digits_value(s.drop_last()) * 10 + digit_value(s.last())
    }
}

/// The digits of an unsigned integer literal as `str::parse` reads it: an optional `+`
/// followed by one or more decimal digits.
pub open spec fn unsigned_digits(s: Seq<char>) -> Option<Seq<char>> {
    let d = if s.len() > 0 && s[0] == '+' {
        s.drop_first()
    } else {
        s
    };
    if d.len() > 0 && all_digits(d) {
        Some(d)
    } else {
        None
    }
}

/// Every character of `d` is a decimal digit.
pub open spec fn all_digits(d: Seq<char>) -> bool {
    forall|i: int| 0 <= i < d.len() ==> #[trigger] is_digit(d[i])
}

/// What `str::parse` gives for an unsigned integer type whose largest value is `max`.
pub open spec fn parse_unsigned(s: Seq<char>, max: nat) -> Option<nat> {
    match unsigned_digits(s) {
        Some(d) => if digits_value(d) <= max {
            Some(digits_value(d))
        } else {
            None
        },
        None => None,
    }
}

pub open spec fn digit_char(d: nat) -> char {
    (('0' as u32) + d) as char
}

/// The decimal representation of `n`, without sign or leading zeros.
pub open spec fn decimal(n: nat) -> Seq<char>
    decreases n,
{
    if n < 10 {
        seq![digit_char(n)]
    } else {
        decimal(n / 10).push(digit_char(n % 10))
    }
}

/// `s` repeated `n` times.
pub open spec fn repeat_spec(s: Seq<char>, n: nat) -> Seq<char>
    decreases n,
{
    if n == 0 {
        seq![]
    } else {
        repeat_spec(s, (n - 1) as nat) + s
    }
}

/// Every character of `s` is ASCII.
pub open spec fn ascii_text(s: Seq<char>) -> bool {
    forall|i: int| 0 <= i < s.len() ==> (#[trigger] s[i] as u32) < 0x80
}

/// `c` with `A`..`Z` turned into `a`..`z`.
pub open spec fn ascii_lower(c: char) -> char {
    if 'A' <= c <= 'Z' {
        ((c as u32) + 32) as char
    } else {
        c
    }
}

/// What `str::to_lowercase` returns for a text (full Unicode case mapping).
pub uninterp spec fn lowercase(s: Seq<char>) -> Seq<char>;

/// A text takes at most four bytes per character in UTF-8.
pub proof fn lemma_utf8_len_at_most_4x(s: Seq<char>)
    ensures
        vstd::utf8::encode_utf8(s).len() <= 4 * s.len(),
    decreases s.len(),
{
    if s.len() > 0 {
        lemma_utf8_len_at_most_4x(s.drop_first());
        assert(vstd::utf8::encode_scalar(s[0] as u32).len() <= 4);
    }
}

/// The number of bytes of the UTF-8 encoding of `s`.
pub open spec fn utf8_len(s: Seq<char>) -> nat {
    vstd::utf8::encode_utf8(s).len()
}

/// The UTF-8 encoding of a concatenation is the concatenation of the encodings.
pub proof fn lemma_utf8_concat(a: Seq<char>, b: Seq<char>)
    ensures
        vstd::utf8::encode_utf8(a + b) == vstd::utf8::encode_utf8(a) + vstd::utf8::encode_utf8(b),
    decreases a.len(),
{
    if a.len() == 0 {
        assert(a + b =~= b);
        assert(vstd::utf8::encode_utf8(a) =~= Seq::<u8>::empty());
        assert(vstd::utf8::encode_utf8(a + b) =~= vstd::utf8::encode_utf8(a) + vstd::utf8::encode_utf8(b));
    } else {
        lemma_utf8_concat(a.drop_first(), b);
        assert((a + b).drop_first() =~= a.drop_first() + b);
        assert((a + b)[0] == a[0]);
        assert(vstd::utf8::encode_utf8(a + b) =~= vstd::utf8::encode_utf8(a) + vstd::utf8::encode_utf8(b));
    }
}

/// Appending a character adds its width, between one and four bytes.
pub proof fn lemma_utf8_len_push(s: Seq<char>, c: char)
    ensures
        utf8_len(s.push(c)) == utf8_len(s) + vstd::utf8::encode_scalar(c as u32).len(),
        1 <= vstd::utf8::encode_scalar(c as u32).len() <= 4,
{
    lemma_utf8_concat(s, seq![c]);
    assert(s.push(c) =~= s + seq![c]);
    assert(seq![c].drop_first() =~= Seq::<char>::empty());
    assert(vstd::utf8::encode_utf8(seq![c]) =~= vstd::utf8::encode_scalar(c as u32) + vstd::utf8::encode_utf8(
        Seq::<char>::empty(),
    ));
}

/// The number of bytes of `c` in UTF-8.
pub fn char_utf8_width(c: char) -> (w: usize)
    ensures
        w == vstd::utf8::encode_scalar(c as u32).len(),
{
    let v = c as u32;
    if v <= 0x7f {
        1
    } else if v <= 0x7ff {
        2
    } else if v <= 0xffff {
        3
    } else {
        4
    }
}

/// The number of characters of `s` whose encoding takes exactly `m` bytes, if there is
/// such a prefix.
pub open spec fn chars_in_bytes(s: Seq<char>, m: int) -> Option<int> {
    if exists|k: int| 0 <= k <= s.len() && #[trigger] utf8_len(s.take(k)) == m {
        Some(choose|k: int| 0 <= k <= s.len() && #[trigger] utf8_len(s.take(k)) == m)
    } else {
        None
    }
}

/// Longer prefixes take more bytes.
pub proof fn lemma_utf8_prefix_strict(s: Seq<char>, i: int, j: int)
    requires
        0 <= i < j <= s.len(),
    ensures
        utf8_len(s.take(i)) < utf8_len(s.take(j)),
    decreases j - i,
{
    assert(s.take(j) =~= s.take(j - 1).push(s[j - 1]));
    lemma_utf8_len_push(s.take(j - 1), s[j - 1]);
    if i < j - 1 {
        lemma_utf8_prefix_strict(s, i, j - 1);
    }
}

/// `&s[m..]`: the text after its first `m` bytes, which must end on a character.
pub fn skip_bytes(s: &str, m: usize) -> (r: &str)
    requires
        chars_in_bytes(s@, m as int) is Some,
    ensures
        r@ == s@.skip(chars_in_bytes(s@, m as int)->0),
{
    let ghost k0 = chars_in_bytes(s@, m as int)->0;
    let n = s.unicode_len();
    let mut k: usize = 0;
    let mut acc: usize = 0;
    while acc < m
        invariant
            n == s@.len(),
            0 <= k0 <= n,
            utf8_len(s@.take(k0)) == m,
            k <= k0,
            acc == utf8_len(s@.take(k as int)),
            acc <= m,
        decreases m - acc,
    {
        proof {
            assert(k < k0);
            lemma_utf8_prefix_strict(s@, k as int, k0);
            assert(s@.take(k + 1) =~= s@.take(k as int).push(s@[k as int]));
            lemma_utf8_len_push(s@.take(k as int), s@[k as int]);
            if k + 1 < k0 {
                lemma_utf8_prefix_strict(s@, k + 1, k0);
            }
        }
        let c = s.get_char(k);
        acc = acc + char_utf8_width(c);
        k += 1;
    }
    proof {
        if k < k0 {
            lemma_utf8_prefix_strict(s@, k as int, k0);
        }
    }
    s.substring_char(k, n)
}

/// Whether `s` takes at most `limit` bytes in UTF-8.
pub fn utf8_len_at_most(s: &str, limit: usize) -> (b: bool)
    ensures
        b == (utf8_len(s@) <= limit),
{
    let n = s.unicode_len();
    let mut k: usize = 0;
    let mut acc: usize = 0;
    while k < n
        invariant
            n == s@.len(),
            k <= n,
            acc == utf8_len(s@.take(k as int)),
            acc <= limit,
        decreases n - k,
    {
        let w = char_utf8_width(s.get_char(k));
        proof {
            assert(s@.take(k + 1) =~= s@.take(k as int).push(s@[k as int]));
            lemma_utf8_len_push(s@.take(k as int), s@[k as int]);
        }
        if w > limit - acc {
            proof {
                assert(s@.take(n as int) =~= s@);
                if k + 1 < n {
                    lemma_utf8_prefix_strict(s@, k + 1, n as int);
                }
            }
            return false;
        }
        acc = acc + w;
        k += 1;
    }
    proof {
        assert(s@.take(n as int) =~= s@);
    }
    true
}

/// Whether the first `m` bytes of `s` end between two characters (or at its end).
pub fn ends_on_char(s: &str, m: usize) -> (b: bool)
    ensures
        b == (chars_in_bytes(s@, m as int) is Some),
{
    let n = s.unicode_len();
    let mut k: usize = 0;
    let mut acc: usize = 0;
    while k < n && acc < m
        invariant
            n == s@.len(),
            k <= n,
            acc == utf8_len(s@.take(k as int)),
            acc <= m,
            forall|j: int| 0 <= j < k ==> #[trigger] utf8_len(s@.take(j)) < m,
        decreases n - k,
    {
        let w = char_utf8_width(s.get_char(k));
        proof {
            assert(s@.take(k + 1) =~= s@.take(k as int).push(s@[k as int]));
            lemma_utf8_len_push(s@.take(k as int), s@[k as int]);
        }
        if w > m - acc {
            proof {
                assert forall|j: int| 0 <= j <= s@.len() implies #[trigger] utf8_len(s@.take(j)) != m by {
                    if j > k + 1 {
                        lemma_utf8_prefix_strict(s@, k + 1, j);
                    }
                }
            }
            return false;
        }
        acc = acc + w;
        k += 1;
    }
    if acc == m {
        proof {
            assert(0 <= k <= s@.len() && utf8_len(s@.take(k as int)) == m);
        }
        true
    } else {
        proof {
            assert(k == n);
            assert forall|j: int| 0 <= j <= s@.len() implies #[trigger] utf8_len(s@.take(j)) != m by {
                if j < k {
                    lemma_utf8_prefix_strict(s@, j, k as int);
                }
            }
        }
        false
    }
}

/// Whether `c` has the Unicode `White_Space` property.
pub fn is_whitespace_char(c: char) -> (b: bool)
    ensures
        b == is_whitespace(c),
{
    let u = c as u32;
    (9 <= u && u <= 13) || u == 32 || u == 0x85 || u == 0xa0 || u == 0x1680 || (0x2000 <= u && u <= 0x200a)
        || u == 0x2028 || u == 0x2029 || u == 0x202f || u == 0x205f || u == 0x3000
}

proof fn lemma_trim_start(s: Seq<char>, a: int)
    requires
        0 <= a <= s.len(),
        forall|j: int| 0 <= j < a ==> is_whitespace(#[trigger] s[j]),
        a < s.len() ==> !is_whitespace(s[a]),
    ensures
        trim_start_spec(s) == s.skip(a),
    decreases a,
{
    if a == 0 {
        assert(s.skip(0) =~= s);
    } else {
        assert(is_whitespace(s[0]));
        let t = s.drop_first();
        assert forall|j: int| 0 <= j < a - 1 implies is_whitespace(#[trigger] t[j]) by {
            assert(t[j] == s[j + 1]);
        }
        lemma_trim_start(t, a - 1);
        assert(t.skip(a - 1) =~= s.skip(a));
    }
}

proof fn lemma_trim_end(s: Seq<char>, b: int)
    requires
        0 <= b <= s.len(),
        forall|j: int| b <= j < s.len() ==> is_whitespace(#[trigger] s[j]),
        b > 0 ==> !is_whitespace(s[b - 1]),
    ensures
        trim_end_spec(s) == s.take(b),
    decreases s.len() - b,
{
    if b == s.len() {
        assert(s.take(b) =~= s);
    } else {
        assert(is_whitespace(s.last()));
        let t = s.drop_last();
        assert forall|j: int| b <= j < t.len() implies is_whitespace(#[trigger] t[j]) by {
            assert(t[j] == s[j]);
        }
        lemma_trim_end(t, b);
        assert(t.take(b) =~= s.take(b));
    }
}

/// `s` without leading and trailing `White_Space` characters (as `str::trim`).
pub fn trim(s: &str) -> (r: &str)
    ensures
        r@ == trim_spec(s@),
{
    let n = s.unicode_len();
    let mut a: usize = 0;
    while a < n && is_whitespace_char(s.get_char(a))
        invariant
            n == s@.len(),
            a <= n,
            forall|j: int| 0 <= j < a ==> is_whitespace(#[trigger] s@[j]),
        decreases n - a,
    {
        a += 1;
    }
    proof {
        lemma_trim_start(s@, a as int);
    }
    let ghost t = s@.skip(a as int);
    let mut b: usize = n;
    while b > a && is_whitespace_char(s.get_char(b - 1))
        invariant
            n == s@.len(),
            a <= b <= n,
            t == s@.skip(a as int),
            forall|j: int| b <= j < n ==> is_whitespace(#[trigger] s@[j]),
        decreases b,
    {
        b -= 1;
    }
    proof {
        assert forall|j: int| b - a <= j < t.len() implies is_whitespace(#[trigger] t[j]) by {
            assert(t[j] == s@[j + a]);
        }
        if b > a {
            assert(t[b - a - 1] == s@[b - 1]);
        }
        lemma_trim_end(t, b - a);
    }
    let r = s.substring_char(a, b);
    proof {
        assert(r@ =~= t.take(b - a));
    }
    r
}

/// The lines of `s` (as `str::lines`, collected).
pub fn lines(s: &str) -> (r: Vec<&str>)
    ensures
        r@.map_values(|l: &str| l@) == lines_spec(s@),
{
    let n = s.unicode_len();
    let mut out: Vec<&str> = Vec::new();
    let mut start: usize = 0;
    let mut i: usize = 0;
    proof {
        assert(s@.skip(0) =~= s@);
    }
    while i < n
        invariant
            n == s@.len(),
            start <= i <= n,
            forall|j: int| start <= j < i ==> s@[j] != '\n',
            out@.map_values(|l: &str| l@) + lines_spec(s@.skip(start as int)) == lines_spec(s@),
        decreases n - i,
    {
        if s.get_char(i) == '\n' {
            let ghost rest = s@.skip(start as int);
            let ghost before = out@.map_values(|l: &str| l@);
            proof {
                lemma_find_char(rest, '\n', i - start);
                assert(rest.skip(i - start + 1) =~= s@.skip(i + 1));
            }
            let end = if i > start && s.get_char(i - 1) == '\r' {
                i - 1
            } else {
                i
            };
            let line = s.substring_char(start, end);
            proof {
                assert(line@ =~= strip_line_end(rest.take(i - start)));
            }
            out.push(line);
            start = i + 1;
            proof {
                assert(out@.map_values(|l: &str| l@) =~= before.push(line@));
                assert(out@.map_values(|l: &str| l@) + lines_spec(s@.skip(start as int)) =~= before + lines_spec(
                    rest,
                ));
            }
        }
        i += 1;
    }
    let ghost rest = s@.skip(start as int);
    let ghost before = out@.map_values(|l: &str| l@);
    proof {
        lemma_find_char(rest, '\n', rest.len() as int);
    }
    if start < n {
        let last = s.substring_char(start, n);
        proof {
            assert(last@ =~= rest);
        }
        out.push(last);
        proof {
            assert(out@.map_values(|l: &str| l@) =~= before.push(last@));
            assert(out@.map_values(|l: &str| l@) =~= before + lines_spec(rest));
        }
    } else {
        proof {
            assert(before + lines_spec(rest) =~= before);
        }
    }
    out
}

/// The pieces of `s` between occurrences of `c` (as `str::split` with a character
/// pattern, collected).
pub fn split(s: &str, c: char) -> (r: Vec<&str>)
    ensures
        r@.map_values(|p: &str| p@) == split_spec(s@, c),
{
    let n = s.unicode_len();
    let mut pieces: Vec<&str> = Vec::new();
    let mut start: usize = 0;
    let mut i: usize = 0;
    proof {
        assert(s@.skip(0) =~= s@);
    }
    while i < n
        invariant
            n == s@.len(),
            start <= i <= n,
            forall|j: int| start <= j < i ==> s@[j] != c,
            pieces@.map_values(|p: &str| p@) + split_spec(s@.skip(start as int), c) == split_spec(s@, c),
        decreases n - i,
    {
        if s.get_char(i) == c {
            let ghost rest = s@.skip(start as int);
            let ghost before = pieces@.map_values(|p: &str| p@);
            proof {
                lemma_find_char(rest, c, i - start);
                assert(rest.skip(i - start + 1) =~= s@.skip(i + 1));
            }
            let piece = s.substring_char(start, i);
            proof {
                assert(piece@ =~= rest.take(i - start));
            }
            pieces.push(piece);
            start = i + 1;
            proof {
                assert(pieces@.map_values(|p: &str| p@) =~= before.push(piece@));
                assert(pieces@.map_values(|p: &str| p@) + split_spec(s@.skip(start as int), c) =~= before
                    + split_spec(rest, c));
            }
        }
        i += 1;
    }
    let ghost rest = s@.skip(start as int);
    let ghost before = pieces@.map_values(|p: &str| p@);
    proof {
        lemma_find_char(rest, c, rest.len() as int);
    }
    let last = s.substring_char(start, n);
    proof {
        assert(last@ =~= rest);
    }
    pieces.push(last);
    proof {
        assert(pieces@.map_values(|p: &str| p@) =~= before.push(last@));
        assert(pieces@.map_values(|p: &str| p@) =~= before + split_spec(rest, c));
    }
    pieces
}

/// Where `c` first occurs in `s` when no earlier character is `c`.
proof fn lemma_find_char(s: Seq<char>, c: char, i: int)
    requires
        0 <= i <= s.len(),
        forall|j: int| 0 <= j < i ==> s[j] != c,
        i < s.len() ==> s[i] == c,
    ensures
        find_char(s, c) == if i < s.len() {
            i
        } else {
            -1
        },
    decreases i,
{
    if i > 0 {
        lemma_find_char(s.drop_first(), c, i - 1);
    }
}

/// The text before and after the first `c` in `s`, if there is one (as `str::split_once`
/// with a character pattern).
pub fn split_once(s: &str, c: char) -> (r: Option<(&str, &str)>)
    ensures
        match r {
            Some((a, b)) => split_once_spec(s@, c) == Some((a@, b@)),
            None => split_once_spec(s@, c) is None,
        },
{
    let n = s.unicode_len();
    let mut i: usize = 0;
    while i < n
        invariant
            n == s@.len(),
            i <= n,
            forall|j: int| 0 <= j < i ==> s@[j] != c,
        decreases n - i,
    {
        if s.get_char(i) == c {
            proof {
                lemma_find_char(s@, c, i as int);
            }
            let before = s.substring_char(0, i);
            let after = s.substring_char(i + 1, n);
            proof {
                assert(before@ =~= s@.take(i as int));
                assert(after@ =~= s@.skip(i + 1));
            }
            return Some((before, after));
        }
        i += 1;
    }
    proof {
        lemma_find_char(s@, c, n as int);
    }
    None
}

/// `s` without its first character when that is `c` (as `str::strip_prefix` with a
/// character pattern).
pub fn strip_prefix(s: &str, c: char) -> (r: Option<&str>)
    ensures
        match r {
            Some(rest) => s@.len() > 0 && s@[0] == c && rest@ == s@.drop_first(),
            None => !(s@.len() > 0 && s@[0] == c),
        },
{
    let n = s.unicode_len();
    if n > 0 && s.get_char(0) == c {
        let rest = s.substring_char(1, n);
        assert(rest@ =~= s@.drop_first());
        Some(rest)
    } else {
        None
    }
}

/// Whether `s` starts with `c` (as `str::starts_with` with a character pattern).
pub fn starts_with(s: &str, c: char) -> (b: bool)
    ensures
        b == (s@.len() > 0 && s@[0] == c),
{
    s.unicode_len() > 0 && s.get_char(0) == c
}

/// A text whose digit part holds a non-digit is no unsigned literal.
proof fn lemma_unsigned_digits_none(s: Seq<char>, d: Seq<char>)
    requires
        d == (if s.len() > 0 && s[0] == '+' {
            s.drop_first()
        } else {
            s
        }),
        !all_digits(d),
    ensures
        unsigned_digits(s) is None,
{
}

/// A longer all-digit prefix is worth at least as much.
proof fn lemma_digits_value_prefix(d: Seq<char>, k: int)
    requires
        0 <= k <= d.len(),
    ensures
        digits_value(d.take(k)) <= digits_value(d),
    decreases d.len() - k,
{
    if k < d.len() {
        lemma_digits_value_prefix(d.drop_last(), k);
        assert(d.drop_last().take(k) =~= d.take(k));
        assert(digits_value(d.drop_last()) <= digits_value(d.drop_last()) * 10) by (nonlinear_arith);
    } else {
        assert(d.take(k) =~= d);
    }
}

/// What `str::parse` gives for an unsigned integer type whose largest value is `max`.
pub fn parse_unsigned_upto(s: &str, max: u64) -> (r: Option<u64>)
    ensures
        match parse_unsigned(s@, max as nat) {
            Some(v) => r == Some(v as u64),
            None => r is None,
        },
{
    let n = s.unicode_len();
    let start: usize = if n > 0 && s.get_char(0) == '+' {
        1
    } else {
        0
    };
    let ghost d = if n > 0 && s@[0] == '+' {
        s@.drop_first()
    } else {
        s@
    };
    proof {
        assert(d =~= s@.skip(start as int));
    }
    if start == n {
        return None;
    }
    let mut value: u64 = 0;
    let mut i: usize = start;
    while i < n
        invariant
            n == s@.len(),
            start < n,
            start <= i <= n,
            d == s@.skip(start as int),
            d == (if s@.len() > 0 && s@[0] == '+' {
                s@.drop_first()
            } else {
                s@
            }),
            d.len() > 0,
            forall|j: int| 0 <= j < i - start ==> #[trigger] is_digit(d[j]),
            value as nat == digits_value(d.take(i - start)),
            value <= max,
        decreases n - i,
    {
        let c = s.get_char(i);
        proof {
            assert(d[i - start] == c);
        }
        if !('0' <= c && c <= '9') {
            proof {
                assert(!is_digit(d[i - start]));
                assert(!all_digits(d));
                lemma_unsigned_digits_none(s@, d);
            }
            return None;
        }
        let digit = (c as u32 - '0' as u32) as u64;
        proof {
            assert(d.take(i - start + 1).drop_last() =~= d.take(i - start));
            assert(d.take(i - start + 1).last() == c);
        }
        if digit > max || value > (max - digit) / 10 {
            proof {
                assert(digits_value(d.take(i - start + 1)) == value * 10 + digit);
                assert(value * 10 + digit > max) by (nonlinear_arith)
                    requires
                        digit > max || value > (max - digit) / 10,
                        digit <= 9,
                ;
                if all_digits(d) {
                    lemma_digits_value_prefix(d, i - start + 1);
                    assert(unsigned_digits(s@) == Some(d));
                } else {
                    lemma_unsigned_digits_none(s@, d);
                }
            }
            return None;
        }
        assert(value * 10 + digit <= max) by (nonlinear_arith)
            requires
                value <= (max - digit) / 10,
                digit <= max,
        ;
        value = value * 10 + digit;
        i += 1;
    }
    proof {
        assert(d.take(n - start) =~= d);
    }
    Some(value)
}

/// `str::parse::<u8>`, its error dropped.
pub fn parse_u8(s: &str) -> (r: Option<u8>)
    ensures
        match r {
            Some(v) => parse_unsigned(s@, 255) == Some(v as nat),
            None => parse_unsigned(s@, 255) is None,
        },
{
    match parse_unsigned_upto(s, 255) {
        Some(v) => Some(v as u8),
        None => None,
    }
}

/// `str::parse::<u64>`, its error dropped.
pub fn parse_u64(s: &str) -> (r: Option<u64>)
    ensures
        match r {
            Some(v) => parse_unsigned(s@, u64::MAX as nat) == Some(v as nat),
            None => parse_unsigned(s@, u64::MAX as nat) is None,
        },
{
    parse_unsigned_upto(s, u64::MAX)
}

/// `str::parse::<usize>`, its error dropped.
pub fn parse_usize(s: &str) -> (r: Option<usize>)
    ensures
        match r {
            Some(v) => parse_unsigned(s@, usize::MAX as nat) == Some(v as nat),
            None => parse_unsigned(s@, usize::MAX as nat) is None,
        },
{
    match parse_unsigned_upto(s, usize::MAX as u64) {
        Some(v) => Some(v as usize),
        None => None,
    }
}

/// `str::to_lowercase`: its result is named `lowercase` (the full Unicode mapping); on
/// an ASCII text it is the text with `A`..`Z` turned into `a`..`z`, as Unicode lower-cases
/// those letters and leaves every other ASCII character alone.
#[verifier::external_body]
pub(crate) fn to_lowercase(s: &str) -> (r: String)
    ensures
        r@ == lowercase(s@),
        ascii_text(s@) ==> r@ == s@.map_values(|c: char| ascii_lower(c)),
{
    s.to_lowercase()
}

/// The decimal digit `d`.
fn digit(d: u8) -> (c: char)
    requires
        d < 10,
    ensures
        c == digit_char(d as nat),
{
    let c = match d {
        0 => '0',
        1 => '1',
        2 => '2',
        3 => '3',
        4 => '4',
        5 => '5',
        6 => '6',
        7 => '7',
        8 => '8',
        _ => '9',
    };
    assert(c == digit_char(d as nat));
    c
}

/// The decimal digits of `n` (as `ToString::to_string` on an unsigned integer).
pub fn u64_to_string(n: u64) -> (r: String)
    ensures
        r@ == decimal(n as nat),
    decreases n,
{
    if n < 10 {
        let mut r = String::new();
        push_char(&mut r, digit(n as u8));
        assert(r@ =~= decimal(n as nat));
        r
    } else {
        let mut r = u64_to_string(n / 10);
        push_char(&mut r, digit((n % 10) as u8));
        r
    }
}

/// The decimal digits of `n`.
pub fn usize_to_string(n: usize) -> (r: String)
    ensures
        r@ == decimal(n as nat),
{
    u64_to_string(n as u64)
}

/// The decimal digits of `n`.
pub fn u32_to_string(n: u32) -> (r: String)
    ensures
        r@ == decimal(n as nat),
{
    u64_to_string(n as u64)
}

/// `String::push`.
#[verifier::external_body]
pub(crate) fn push_char(s: &mut String, c: char)
    ensures
        final(s)@ == old(s)@.push(c),
{
    s.push(c)
}

/// `s` repeated `n` times (as `str::repeat`).
pub fn repeat(s: &str, n: usize) -> (r: String)
    ensures
        r@ == repeat_spec(s@, n as nat),
{
    let mut r = String::new();
    let mut i: usize = 0;
    while i < n
        invariant
            i <= n,
            r@ == repeat_spec(s@, i as nat),
        decreases n - i,
    {
        r.append(s);
        i += 1;
    }
    r
}

} // verus!
