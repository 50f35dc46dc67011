//! Character-level text operations on cell contents: trimming, searching for a
//! separator, splitting on it, and writing integers as decimal numerals.
use vstd::prelude::*;
use vstd::string::*;

verus! {

/// The characters with the Unicode `White_Space` property, which is what
/// `char::is_whitespace` (and so `str::trim`) removes.
pub open spec fn is_ws(c: char) -> bool {
    ('\u{9}' <= c && c <= '\u{d}') || c == ' ' || c == '\u{85}' || c == '\u{a0}' || c
        == '\u{1680}' || ('\u{2000}' <= c && c <= '\u{200a}') || c == '\u{2028}' || c
        == '\u{2029}' || c == '\u{202f}' || c == '\u{205f}' || c == '\u{3000}'
}

/// `s` without its leading whitespace.
pub open spec fn trim_start(s: Seq<char>) -> Seq<char>
    decreases s.len(),
{
    if s.len() > 0 && is_ws(s[0]) {
        trim_start(s.drop_first())
    } else {
        s
    }
}

/// `s` without its trailing whitespace.
pub open spec fn trim_end(s: Seq<char>) -> Seq<char>
    decreases s.len(),
{
    if s.len() > 0 && is_ws(s.last()) {
        trim_end(s.drop_last())
    } else {
        s
    }
}

/// `s` without leading and trailing whitespace.
pub open spec fn trim(s: Seq<char>) -> Seq<char> {
    trim_end(trim_start(s))
}

/// `sep` occurs in `s` at position `i`.
pub open spec fn occurs_at(s: Seq<char>, sep: Seq<char>, i: int) -> bool {
    0 <= i && i + sep.len() <= s.len() && s.subrange(i, i + sep.len()) == sep
}

/// `sep` occurs somewhere in `s`.
pub open spec fn contains(s: Seq<char>, sep: Seq<char>) -> bool {
    exists|i: int| occurs_at(s, sep, i)
}

/// The pieces of `s[start..]` between non-overlapping occurrences of `sep`,
/// scanning from `i` on, leftmost occurrence first; the current piece began
/// at `start`.
pub open spec fn split_from(s: Seq<char>, sep: Seq<char>, start: int, i: int) -> Seq<Seq<char>>
    decreases s.len() - i,
{
    if i >= s.len() || start > i || start < 0 {
        seq![s.subrange(start, s.len() as int)]
    } else if sep.len() > 0 && occurs_at(s, sep, i) {
        seq![s.subrange(start, i)] + split_from(s, sep, i + sep.len(), i + sep.len())
    } else {
        split_from(s, sep, start, i + 1)
    }
}

/// The pieces of `s` between non-overlapping occurrences of `sep`, as
/// `str::split` gives them.
pub open spec fn split(s: Seq<char>, sep: Seq<char>) -> Seq<Seq<char>> {
    split_from(s, sep, 0, 0)
}

/// Each piece of `split(s, sep)`, trimmed.
pub open spec fn split_trimmed(s: Seq<char>, sep: Seq<char>) -> Seq<Seq<char>> {
    split(s, sep).map_values(|p: Seq<char>| trim(p))
}

/// The decimal digits, in order.
pub open spec fn digit(d: nat) -> Seq<char> {
    "0123456789"@.subrange(d as int, d as int + 1)
}

/// The decimal numeral of `n`, without leading zeros.
pub open spec fn decimal_nat(n: nat) -> Seq<char>
    decreases n,
{
    if n < 10 {
        digit(n)
    } else {
        decimal_nat(n / 10) + digit(n % 10)
    }
}

/// The decimal numeral of `n`, with a `-` before a negative one.
pub open spec fn decimal(n: int) -> Seq<char> {
    if n < 0 {
        seq!['-'] + decimal_nat((-n) as nat)
    } else {
        decimal_nat(n as nat)
    }
}

/// The views of a sequence of strings.
pub open spec fn views(v: Seq<String>) -> Seq<Seq<char>> {
    v.map_values(|x: String| x@)
}

/// Whether `c` is a whitespace character.
pub fn is_whitespace(c: char) -> (r: bool)
    ensures
        r == is_ws(c),
{
    ('\u{9}' <= c && c <= '\u{d}') || c == ' ' || c == '\u{85}' || c == '\u{a0}' || c
        == '\u{1680}' || ('\u{2000}' <= c && c <= '\u{200a}') || c == '\u{2028}' || c
        == '\u{2029}' || c == '\u{202f}' || c == '\u{205f}' || c == '\u{3000}'
}

proof fn lemma_trim_start_skip(s: Seq<char>, i: int)
    requires
        0 <= i <= s.len(),
        forall|k: int| 0 <= k < i ==> is_ws(#[trigger] s[k]),
    ensures
        trim_start(s) == trim_start(s.subrange(i, s.len() as int)),
    decreases i,
{
    if i > 0 {
        assert(s.drop_first() == s.subrange(1, s.len() as int));
        let t = s.drop_first();
        assert forall|k: int| 0 <= k < i - 1 implies is_ws(#[trigger] t[k]) by {
            assert(t[k] == s[k + 1]);
        }
        assert(is_ws(s[0]));
        assert(trim_start(s) == trim_start(t));
        lemma_trim_start_skip(t, i - 1);
        assert(t.subrange(i - 1, t.len() as int) == s.subrange(i, s.len() as int));
    } else {
        assert(s.subrange(0, s.len() as int) == s);
    }
}

proof fn lemma_trim_end_skip(s: Seq<char>, j: int)
    requires
        0 <= j <= s.len(),
        forall|k: int| j <= k < s.len() ==> is_ws(#[trigger] s[k]),
    ensures
        trim_end(s) == trim_end(s.subrange(0, j)),
    decreases s.len() - j,
{
    if j < s.len() {
        let t = s.drop_last();
        assert(t == s.subrange(0, s.len() - 1));
        assert forall|k: int| j <= k < t.len() implies is_ws(#[trigger] t[k]) by {
            assert(t[k] == s[k]);
        }
        assert(is_ws(s[s.len() - 1]));
        assert(trim_end(s) == trim_end(t));
        lemma_trim_end_skip(t, j);
        assert(t.subrange(0, j) == s.subrange(0, j));
    } else {
        assert(s.subrange(0, j) == s);
    }
}

/// `s` without leading and trailing whitespace.
pub fn trim_str(s: &str) -> (r: String)
    ensures
        r@ == trim(s@),
{
    let n = s.unicode_len();
    let mut i: usize = 0;
    while i < n && is_whitespace(s.get_char(i))
        invariant
            n == s@.len(),
            0 <= i <= n,
            forall|k: int| 0 <= k < i ==> is_ws(#[trigger] s@[k]),
        decreases n - i,
    {
        i = i + 1;
    }
    let mut j: usize = n;
    while j > i && is_whitespace(s.get_char(j - 1))
        invariant
            n == s@.len(),
            0 <= i <= j <= n,
            forall|k: int| j <= k < n ==> is_ws(#[trigger] s@[k]),
        decreases j,
    {
        j = j - 1;
    }
    proof {
        lemma_trim_start_skip(s@, i as int);
        let t = s@.subrange(i as int, n as int);
        if i < n {
            assert(t[0] == s@[i as int]);
        }
        assert(trim_start(s@) == t);
        assert forall|k: int| j - i <= k < t.len() implies is_ws(#[trigger] t[k]) by {
            assert(t[k] == s@[k + i]);
        }
        lemma_trim_end_skip(t, j - i);
        let u = t.subrange(0, j - i);
        assert(u == s@.subrange(i as int, j as int));
        if j > i {
            assert(u.last() == s@[j - 1]);
        }
        assert(trim_end(u) == u);
    }
    String::from_str(s.substring_char(i, j))
}

/// Whether `sep` occurs in `s` at position `i`.
fn occurs_at_exec(s: &str, sep: &str, i: usize) -> (r: bool)
    requires
        s@.len() <= usize::MAX,
    ensures
        r == occurs_at(s@, sep@, i as int),
{
    let n = s.unicode_len();
    let m = sep.unicode_len();
    if m > n || i > n - m {
        return false;
    }
    let mut k: usize = 0;
    while k < m
        invariant
            n == s@.len(),
            m == sep@.len(),
            i + m <= n,
            0 <= k <= m,
            forall|q: int| 0 <= q < k ==> s@[i + q] == sep@[q],
        decreases m - k,
    {
        if s.get_char(i + k) != sep.get_char(k) {
            proof {
                assert(s@.subrange(i as int, i + m)[k as int] != sep@[k as int]);
            }
            return false;
        }
        k = k + 1;
    }
    assert(s@.subrange(i as int, i + m) == sep@);
    true
}

/// Whether `sep` occurs anywhere in `s`.
pub fn contains_str(s: &str, sep: &str) -> (r: bool)
    ensures
        r == contains(s@, sep@),
{
    let n = s.unicode_len();
    let mut i: usize = 0;
    while i < n
        invariant
            n == s@.len(),
            0 <= i <= n,
            forall|q: int| 0 <= q < i ==> !occurs_at(s@, sep@, q),
        decreases n - i,
    {
        if occurs_at_exec(s, sep, i) {
            return true;
        }
        i = i + 1;
    }
    if occurs_at_exec(s, sep, n) {
        return true;
    }
    assert forall|q: int| !occurs_at(s@, sep@, q) by {
        if 0 <= q && q < n {
            assert(q < i);
        }
    }
    false
}

/// The pieces of `s` between non-overlapping occurrences of a non-empty
/// `sep`, each trimmed.
pub fn split_trim_str(s: &str, sep: &str) -> (r: Vec<String>)
    requires
        sep@.len() > 0,
    ensures
        views(r@) == split_trimmed(s@, sep@),
{
    let n = s.unicode_len();
    let m = sep.unicode_len();
    let mut out: Vec<String> = Vec::new();
    let mut start: usize = 0;
    let mut i: usize = 0;
    while i < n
        invariant
            n == s@.len(),
            m == sep@.len(),
            m > 0,
            0 <= start <= i <= n,
            views(out@) + split_from(s@, sep@, start as int, i as int).map_values(
                |p: Seq<char>| trim(p),
            ) == split_trimmed(s@, sep@),
        decreases n - i,
    {
        if occurs_at_exec(s, sep, i) {
            let piece = trim_str(s.substring_char(start, i));
            proof {
                let rest = split_from(s@, sep@, (i + m) as int, (i + m) as int);
                let f = |p: Seq<char>| trim(p);
                assert(split_from(s@, sep@, start as int, i as int) == seq![
                    s@.subrange(start as int, i as int),
                ] + rest);
                assert((seq![s@.subrange(start as int, i as int)] + rest).map_values(f)
                    == seq![piece@] + rest.map_values(f));
                assert(views(out@.push(piece)) == views(out@) + seq![piece@]);
            }
            out.push(piece);
            i = i + m;
            start = i;
        } else {
            i = i + 1;
        }
    }
    let piece = trim_str(s.substring_char(start, n));
    proof {
        assert(split_from(s@, sep@, start as int, i as int) == seq![
            s@.subrange(start as int, n as int),
        ]);
        assert(seq![s@.subrange(start as int, n as int)].map_values(|p: Seq<char>| trim(p))
            == seq![piece@]);
        assert(views(out@.push(piece)) == views(out@) + seq![piece@]);
    }
    out.push(piece);
    out
}

/// Appends the decimal numeral of `n` to `s`.
fn push_decimal(s: &mut String, n: u64)
    ensures
        final(s)@ == old(s)@ + decimal_nat(n as nat),
    decreases n,
{
    if n >= 10 {
        push_decimal(s, n / 10);
    }
    let d = (n % 10) as usize;
    let digits = "0123456789";
    proof {
        reveal_strlit("0123456789");
    }
    s.append(digits.substring_char(d, d + 1));
    proof {
        if n >= 10 {
            assert(old(s)@ + decimal_nat(n as nat) == old(s)@ + decimal_nat((n / 10) as nat)
                + digit((n % 10) as nat));
        }
    }
}

/// The decimal numeral of `n`, as `i64::to_string` writes it.
pub fn decimal_string(n: i64) -> (r: String)
    ensures
        r@ == decimal(n as int),
{
    if n < 0 {
        let mut s = String::from_str("-");
        proof {
            reveal_strlit("-");
        }
        let mag: u64 = (-(n as i128)) as u64;
        push_decimal(&mut s, mag);
        assert(s@ == seq!['-'] + decimal_nat(mag as nat));
        s
    } else {
        let mut s = String::new();
        push_decimal(&mut s, n as u64);
        assert(s@ == decimal_nat(n as nat));
        s
    }
}

} // verus!
