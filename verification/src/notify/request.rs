//! Parsing of notify HTTP requests: pure functions from bytes or text to the
//! parsed result. The security checks of the endpoint (Host allow-list,
//! header and body limits) are made here.

use vstd::prelude::*;

use crate::text::{
    decimal_text, digit_char,
    ascii_lower, ascii_lower_seq, chars_of, find_char, index_of, lemma_index_of, lemma_index_of_at, lower_char,
    lower_eq, trim, trim_bounds,
};

verus! {

/// `needle` occurs in `haystack` at offset `i`.
pub open spec fn occurs_at<T>(haystack: Seq<T>, needle: Seq<T>, i: int) -> bool {
    0 <= i && i + needle.len() <= haystack.len() && haystack.subrange(i, i + needle.len())
        == needle
}

/// The first offset at or after `i` where `needle` occurs.
pub open spec fn first_match_from<T>(haystack: Seq<T>, needle: Seq<T>, i: int) -> Option<int>
    decreases haystack.len() + 1 - i,
{
    if i < 0 || i + needle.len() > haystack.len() {
        None
    } else if occurs_at(haystack, needle, i) {
        Some(i)
    } else {
        first_match_from(haystack, needle, i + 1)
    }
}

/// The first offset where a non-empty `needle` occurs in `haystack`.
pub open spec fn first_match<T>(haystack: Seq<T>, needle: Seq<T>) -> Option<int> {
    if needle.len() == 0 {
        None
    } else {
        first_match_from(haystack, needle, 0)
    }
}

/// `first_match_from` is the least occurrence at or after `i`.
pub proof fn lemma_first_match_from<T>(haystack: Seq<T>, needle: Seq<T>, i: int)
    requires
        0 <= i,
    ensures
        first_match_from(haystack, needle, i) matches Some(k) ==> i <= k && occurs_at(
            haystack,
            needle,
            k,
        ) && forall|j: int| i <= j < k ==> !occurs_at(haystack, needle, j),
        first_match_from(haystack, needle, i) is None ==> forall|j: int|
            i <= j ==> !occurs_at(haystack, needle, j),
    decreases haystack.len() + 1 - i,
{
    if i + needle.len() <= haystack.len() && !occurs_at(haystack, needle, i) {
        lemma_first_match_from(haystack, needle, i + 1);
    }
}

/// Offset of the first occurrence of `needle` in `haystack`; `None` when it
/// does not occur or is empty.
pub fn find_subslice(haystack: &[u8], needle: &[u8]) -> (r: Option<usize>)
    ensures
        r matches Some(i) ==> first_match(haystack@, needle@) == Some(i as int),
        r is None ==> first_match(haystack@, needle@) is None,
        r matches Some(i) ==> needle@.len() > 0 && occurs_at(haystack@, needle@, i as int)
            && forall|j: int| 0 <= j < i ==> !occurs_at(haystack@, needle@, j),
        r is None ==> needle@.len() == 0 || forall|j: int| !occurs_at(haystack@, needle@, j),
{
    proof {
        lemma_first_match_from(haystack@, needle@, 0);
    }
    let n = needle.len();
    let h = haystack.len();
    if n == 0 {
        return None;
    }
    if h < n {
        return None;
    }
    let mut i: usize = 0;
    while i <= h - n
        invariant
            n == needle@.len(),
            h == haystack@.len(),
            0 < n <= h,
            i <= h - n + 1,
            first_match_from(haystack@, needle@, 0) == first_match_from(haystack@, needle@, i as int),
        decreases h - n + 1 - i,
    {
        let mut k: usize = 0;
        while k < n && haystack[i + k] == needle[k]
            invariant
                n == needle@.len(),
                h == haystack@.len(),
                i + n <= h,
                k <= n,
                forall|m: int| 0 <= m < k ==> haystack@[i + m] == needle@[m],
            decreases n - k,
        {
            k = k + 1;
        }
        if k == n {
            proof {
                assert(haystack@.subrange(i as int, i + n) =~= needle@);
                assert(first_match_from(haystack@, needle@, i as int) == Some(i as int));
                lemma_first_match_from(haystack@, needle@, 0);
            }
            return Some(i);
        }
        proof {
            if occurs_at(haystack@, needle@, i as int) {
                assert(haystack@.subrange(i as int, i + n)[k as int] == haystack@[i + k]);
            }
        }
        i = i + 1;
    }
    None
}

/// The first offset at or after `lo` where the non-empty `pat` occurs in `cs`.
pub fn find_chars(cs: &Vec<char>, lo: usize, pat: &Vec<char>) -> (r: Option<usize>)
    requires
        lo <= cs@.len(),
        pat@.len() > 0,
    ensures
        r matches Some(i) ==> first_match_from(cs@, pat@, lo as int) == Some(i as int),
        r is None ==> first_match_from(cs@, pat@, lo as int) is None,
{
    let n = pat.len();
    let h = cs.len();
    if h < n {
        return None;
    }
    let mut i: usize = lo;
    while i <= h - n
        invariant
            n == pat@.len(),
            h == cs@.len(),
            0 < n <= h,
            lo <= i,
            i <= h - n + 1 || i == lo,
            first_match_from(cs@, pat@, lo as int) == first_match_from(cs@, pat@, i as int),
        decreases h + 1 - i,
    {
        let mut k: usize = 0;
        while k < n && cs[i + k] == pat[k]
            invariant
                n == pat@.len(),
                h == cs@.len(),
                i + n <= h,
                k <= n,
                forall|m: int| 0 <= m < k ==> cs@[i + m] == pat@[m],
            decreases n - k,
        {
            k = k + 1;
        }
        if k == n {
            proof {
                assert(cs@.subrange(i as int, i + n) =~= pat@);
            }
            return Some(i);
        }
        proof {
            if occurs_at(cs@, pat@, i as int) {
                assert(cs@.subrange(i as int, i + n)[k as int] == cs@[i + k]);
            }
        }
        i = i + 1;
    }
    None
}

/// The value a header line gives for the (lower-cased) field name `want`:
/// the line must hold a `:`; the text before the first `:`, trimmed and
/// lower-cased, must be `want`; the value is the rest, trimmed.
pub open spec fn line_value(line: Seq<char>, want: Seq<char>) -> Option<Seq<char>> {
    match index_of(line, ':') {
        None => None,
        Some(c) => if ascii_lower_seq(trim(line.subrange(0, c))) == want {
            Some(trim(line.subrange(c + 1, line.len() as int)))
        } else {
            None
        },
    }
}

/// The value of the first line of `text` (lines split at `\n`) that gives
/// one for `want`.
pub open spec fn header_lookup(text: Seq<char>, want: Seq<char>) -> Option<Seq<char>>
    decreases text.len(),
{
    match index_of(text, '\n') {
        None => line_value(text, want),
        Some(k) => match line_value(text.subrange(0, k), want) {
            Some(v) => Some(v),
            None => {
                proof {
                    lemma_index_of(text, '\n');
                }
                header_lookup(text.subrange(k + 1, text.len() as int), want)
            },
        },
    }
}

/// The value of header `name` (compared without regard to ASCII case) in
/// `headers`, which may start with the request line.
pub open spec fn header_of(headers: Seq<char>, name: Seq<char>) -> Option<Seq<char>> {
    header_lookup(headers, ascii_lower_seq(name))
}

/// Header lines are read in order and the first that names the field wins:
/// for a first line (without a line break) followed by the rest, the value
/// is that line's when it gives one, else the rest's. A line without a `:`
/// (such as the request line) gives none.
pub proof fn lemma_header_first_line_wins(line: Seq<char>, rest: Seq<char>, name: Seq<char>)
    requires
        forall|k: int| 0 <= k < line.len() ==> line[k] != '\n',
    ensures
        header_of(line + seq!['\n'] + rest, name) == match line_value(
            line,
            ascii_lower_seq(name),
        ) {
            Some(v) => Some(v),
            None => header_of(rest, name),
        },
        (forall|k: int| 0 <= k < line.len() ==> line[k] != ':') ==> line_value(
            line,
            ascii_lower_seq(name),
        ) is None,
{
    let t = line + seq!['\n'] + rest;
    assert forall|k: int| 0 <= k < line.len() implies t[k] != '\n' by {
        assert(t[k] == line[k]);
    }
    lemma_index_of_at(t, '\n', line.len() as int);
    assert(t.subrange(0, line.len() as int) =~= line);
    assert(t.subrange(line.len() + 1int, t.len() as int) =~= rest);
    if forall|k: int| 0 <= k < line.len() ==> line[k] != ':' {
        lemma_index_of_at(line, ':', line.len() as int);
    }
}

/// The value of a header in `cs[lo..hi]` if that line gives one.
fn line_value_exec(cs: &Vec<char>, lo: usize, hi: usize, want: &Vec<char>) -> (r: Option<(usize, usize)>)
    requires
        lo <= hi <= cs@.len(),
    ensures
        match line_value(cs@.subrange(lo as int, hi as int), want@) {
            Some(v) => r matches Some(p) && p.0 <= p.1 <= cs@.len() && v == cs@.subrange(
                p.0 as int,
                p.1 as int,
            ),
            None => r is None,
        },
{
    let ghost line = cs@.subrange(lo as int, hi as int);
    match find_char(cs, lo, hi, ':') {
        None => None,
        Some(c) => {
            proof {
                assert(index_of(line, ':') == Some((c - lo) as int));
                assert(line.subrange(0, c - lo) =~= cs@.subrange(lo as int, c as int));
                assert(line.subrange(c - lo + 1, line.len() as int) =~= cs@.subrange(
                    c + 1,
                    hi as int,
                ));
            }
            let (ka, kb) = trim_bounds(cs, lo, c);
            if lower_eq(cs, ka, kb, want) {
                let (va, vb) = trim_bounds(cs, c + 1, hi);
                Some((va, vb))
            } else {
                None
            }
        },
    }
}

fn lower_all(cs: &Vec<char>) -> (r: Vec<char>)
    ensures
        r@ == ascii_lower_seq(cs@),
{
    let mut r: Vec<char> = Vec::new();
    let mut i: usize = 0;
    while i < cs.len()
        invariant
            i <= cs@.len(),
            r@ =~= ascii_lower_seq(cs@.subrange(0, i as int)),
        decreases cs.len() - i,
    {
        r.push(lower_char(cs[i]));
        i = i + 1;
    }
    proof {
        assert(cs@.subrange(0, cs@.len() as int) =~= cs@);
    }
    r
}

/// The value of header field `name` (ASCII case-insensitive), trimmed; the
/// first line that names it wins. Lines without a `:` (the request line)
/// never match.
pub fn header_value<'a>(headers: &'a str, name: &str) -> (r: Option<&'a str>)
    ensures
        match header_of(headers@, name@) {
            Some(v) => r matches Some(s) && s@ == v,
            None => r is None,
        },
{
    let cs = chars_of(headers);
    let nc = chars_of(name);
    let want = lower_all(&nc);
    let n = cs.len();
    let mut pos: usize = 0;
    proof {
        assert(cs@.subrange(0, n as int) =~= cs@);
    }
    while pos <= n
        invariant
            n == cs@.len(),
            cs@ == headers@,
            want@ == ascii_lower_seq(name@),
            pos <= n,
            header_of(headers@, name@) == header_lookup(cs@.subrange(pos as int, n as int), want@),
        decreases n - pos,
    {
        let ghost rest = cs@.subrange(pos as int, n as int);
        match find_char(&cs, pos, n, '\n') {
            None => {
                return match line_value_exec(&cs, pos, n, &want) {
                    Some((a, b)) => Some(headers.substring_char(a, b)),
                    None => None,
                };
            },
            Some(k) => {
                proof {
                    assert(index_of(rest, '\n') == Some((k - pos) as int));
                    assert(rest.subrange(0, k - pos) =~= cs@.subrange(pos as int, k as int));
                    assert(rest.subrange(k - pos + 1, rest.len() as int) =~= cs@.subrange(
                        k + 1,
                        n as int,
                    ));
                }
                match line_value_exec(&cs, pos, k, &want) {
                    Some((a, b)) => {
                        return Some(headers.substring_char(a, b));
                    },
                    None => {},
                }
                pos = k + 1;
            },
        }
    }
    None
}

/// The value of a decimal digit.
pub open spec fn digit_value(c: char) -> int {
    c as int - '0' as int
}

pub open spec fn is_digit(c: char) -> bool {
    '0' <= c && c <= '9'
}

/// The number written by the decimal digits `d`.
pub open spec fn decimal(d: Seq<char>) -> int
    decreases d.len(),
{
    if d.len() == 0 {
        0
    } else {
        decimal(d.drop_last()) * 10 + digit_value(d.last())
    }
}

/// The digits of a number text: the text without one leading `+`.
pub open spec fn digits_part(s: Seq<char>) -> Seq<char> {
    if s.len() > 0 && s[0] == '+' {
        s.drop_first()
    } else {
        s
    }
}

pub open spec fn all_digits(d: Seq<char>) -> bool {
    forall|i: int| 0 <= i < d.len() ==> is_digit(#[trigger] d[i])
}

/// How `str::parse::<usize>` reads `s`: an optional `+`, then one or more
/// decimal digits, of value at most `usize::MAX`.
pub open spec fn parse_usize(s: Seq<char>) -> Option<usize> {
    let d = digits_part(s);
    if d.len() > 0 && all_digits(d) && decimal(d) <= usize::MAX {
        Some(decimal(d) as usize)
    } else {
        None
    }
}

proof fn lemma_decimal_grows(d: Seq<char>, i: int, j: int)
    requires
        0 <= i <= j <= d.len(),
        forall|k: int| 0 <= k < d.len() ==> is_digit(#[trigger] d[k]),
    ensures
        decimal(d.subrange(0, i)) <= decimal(d.subrange(0, j)),
    decreases j - i,
{
    if i < j {
        lemma_decimal_grows(d, i, j - 1);
        assert(d.subrange(0, j).drop_last() =~= d.subrange(0, j - 1));
        assert(is_digit(d[j - 1]));
        assert(decimal(d.subrange(0, j - 1)) >= 0) by {
            lemma_decimal_nonneg(d.subrange(0, j - 1));
        }
    }
}

proof fn lemma_decimal_nonneg(d: Seq<char>)
    requires
        forall|k: int| 0 <= k < d.len() ==> is_digit(#[trigger] d[k]),
    ensures
        decimal(d) >= 0,
    decreases d.len(),
{
    if d.len() > 0 {
        lemma_decimal_nonneg(d.drop_last());
        assert(is_digit(d.last()));
    }
}

/// A digit prefix whose value already exceeds `usize::MAX` cannot parse.
proof fn lemma_overflow_parses_none(d: Seq<char>, j: int)
    requires
        0 <= j <= d.len(),
        decimal(d.subrange(0, j)) > usize::MAX,
    ensures
        !(all_digits(d) && decimal(d) <= usize::MAX),
{
    if all_digits(d) {
        lemma_decimal_grows(d, j, d.len() as int);
        assert(d.subrange(0, d.len() as int) =~= d);
    }
}

/// Reads a `usize` the way `str::parse::<usize>` does.
pub fn parse_usize_str(s: &str) -> (r: Option<usize>)
    ensures
        r == parse_usize(s@),
{
    let cs = chars_of(s);
    let start: usize = if cs.len() > 0 && cs[0] == '+' {
        1
    } else {
        0
    };
    let ghost d = digits_part(s@);
    proof {
        assert(d =~= cs@.subrange(start as int, cs@.len() as int));
    }
    if start == cs.len() {
        assert(d.len() == 0);
        return None;
    }
    let mut acc: usize = 0;
    let mut i: usize = start;
    while i < cs.len()
        invariant
            start <= i <= cs@.len(),
            start < cs@.len(),
            d == cs@.subrange(start as int, cs@.len() as int),
            d == digits_part(s@),
            forall|k: int| 0 <= k < i - start ==> is_digit(#[trigger] d[k]),
            acc == decimal(d.subrange(0, i - start)),
        decreases cs.len() - i,
    {
        let c = cs[i];
        assert(d[i - start] == c);
        if !('0' <= c && c <= '9') {
            assert(!is_digit(d[i - start]));
            assert(!all_digits(d));
            return None;
        }
        let dv: usize = ((c as u32) - ('0' as u32)) as usize;
        proof {
            assert(d.subrange(0, i - start + 1).drop_last() =~= d.subrange(0, i - start));
        }
        match acc.checked_mul(10) {
            None => {
                proof {
                    lemma_overflow_parses_none(d, (i - start + 1) as int);
                }
                return None;
            },
            Some(t) => match t.checked_add(dv) {
                None => {
                    proof {
                        lemma_overflow_parses_none(d, (i - start + 1) as int);
                    }
                    return None;
                },
                Some(v) => {
                    acc = v;
                },
            },
        }
        i = i + 1;
    }
    proof {
        assert(d.subrange(0, d.len() as int) =~= d);
    }
    Some(acc)
}


/// Reading back a number's decimal rendering gives the number: the text is
/// all digits, without a leading zero unless it is `0`, and a `usize` comes
/// back as itself.
pub proof fn lemma_decimal_text_reads_back(n: nat)
    ensures
        decimal_text(n).len() > 0,
        all_digits(decimal_text(n)),
        decimal(decimal_text(n)) == n,
        decimal_text(n).len() > 1 ==> decimal_text(n)[0] != '0',
        n <= usize::MAX ==> parse_usize(decimal_text(n)) == Some(n as usize),
    decreases n,
{
    let t = decimal_text(n);
    if n >= 10 {
        lemma_decimal_text_reads_back(n / 10);
        let p = decimal_text(n / 10);
        assert(t.drop_last() =~= p);
        assert forall|i: int| 0 <= i < t.len() implies is_digit(#[trigger] t[i]) by {
            if i < p.len() {
                assert(t[i] == p[i]);
            }
        }
        assert(t[0] == p[0]);
        if n / 10 < 10 {
            assert(p[0] == digit_char(n / 10));
            assert(digit_char(n / 10) as int == 48 + n / 10);
        } else {
            lemma_decimal_text_reads_back(n / 100);
            assert(n / 10 / 10 == n / 100);
            assert(p.len() > 1);
        }
        assert((n / 10) * 10 + n % 10 == n);
        assert(t.last() == digit_char(n % 10));
        assert(digit_value(digit_char(n % 10)) == n % 10);
        assert(decimal(t) == decimal(p) * 10 + digit_value(t.last()));
    } else {
        assert(t.drop_last() =~= Seq::<char>::empty());
        assert(digit_value(digit_char(n)) == n);
        assert(decimal(t) == decimal(t.drop_last()) * 10 + digit_value(t.last()));
    }
    assert(t[0] != '+');
    assert(digits_part(t) == t);
}

/// `Content-Length` of a request: absent or unreadable gives `None`.
pub open spec fn content_length_of(headers: Seq<char>) -> Option<usize> {
    match header_of(headers, "content-length"@) {
        Some(v) => parse_usize(v),
        None => None,
    }
}

/// The declared body length; `None` when the header is absent or not a
/// valid `usize` (callers read `None` as zero).
pub fn content_length(headers: &str) -> (r: Option<usize>)
    ensures
        r == content_length_of(headers@),
{
    match header_value(headers, "content-length") {
        Some(v) => parse_usize_str(v),
        None => None,
    }
}

/// The host name part of a (trimmed) `Host` value: inside `[...]` for an
/// IPv6 literal (`None` without the closing `]`), otherwise before the
/// first `:`. The port is not part of it.
pub open spec fn host_name(h: Seq<char>) -> Option<Seq<char>> {
    if h.len() > 0 && h[0] == '[' {
        let rest = h.drop_first();
        match index_of(rest, ']') {
            Some(k) => Some(rest.subrange(0, k)),
            None => None,
        }
    } else {
        match index_of(h, ':') {
            Some(k) => Some(h.subrange(0, k)),
            None => Some(h),
        }
    }
}

/// A loopback host name, compared without regard to ASCII case.
pub open spec fn is_loopback_name(n: Seq<char>) -> bool {
    let l = ascii_lower_seq(n);
    l == "127.0.0.1"@ || l == "localhost"@ || l == "::1"@
}

/// The `Host` check of the notify endpoint: a host must be present,
/// non-blank, and name the loopback interface (any port).
pub open spec fn host_allowed(host: Option<Seq<char>>) -> bool {
    match host {
        None => false,
        Some(h) => {
            let t = trim(h);
            t.len() > 0 && match host_name(t) {
                Some(n) => is_loopback_name(n),
                None => false,
            }
        },
    }
}

/// Whether the `Host` header points at this machine's loopback address.
///
/// This guards against DNS rebinding and cross-site requests from a
/// browser: any page can send a simple request to 127.0.0.1, so the Host
/// must be checked. A missing Host (mandatory in HTTP/1.1) is refused; the
/// port is not compared; `[::1]:8756` is split as an IPv6 literal.
pub fn is_allowed_host(host: Option<&str>) -> (b: bool)
    ensures
        b == host_allowed(match host {
            Some(h) => Some(h@),
            None => None,
        }),
{
    let h = match host {
        Some(h) => h,
        None => return false,
    };
    let cs = chars_of(h);
    let (a, b) = trim_bounds(&cs, 0, cs.len());
    proof {
        assert(cs@.subrange(0, cs@.len() as int) =~= cs@);
    }
    if a == b {
        return false;
    }
    let ghost t = cs@.subrange(a as int, b as int);
    let (na, nb) = if cs[a] == '[' {
        match find_char(&cs, a + 1, b, ']') {
            Some(k) => {
                proof {
                    assert(t.drop_first() =~= cs@.subrange(a + 1, b as int));
                    assert(t.drop_first().subrange(0, k - a - 1) =~= cs@.subrange(a + 1, k as int));
                }
                (a + 1, k)
            },
            None => {
                proof {
                    assert(t.drop_first() =~= cs@.subrange(a + 1, b as int));
                }
                return false;
            },
        }
    } else {
        match find_char(&cs, a, b, ':') {
            Some(k) => {
                proof {
                    assert(t.subrange(0, k - a) =~= cs@.subrange(a as int, k as int));
                }
                (a, k)
            },
            None => (a, b),
        }
    };
    let v1 = chars_of("127.0.0.1");
    let v2 = chars_of("localhost");
    let v3 = chars_of("::1");
    lower_eq(&cs, na, nb, &v1) || lower_eq(&cs, na, nb, &v2) || lower_eq(&cs, na, nb, &v3)
}

} // verus!
