//! Character-sequence utilities shared by the log parser and the state machine.

use vstd::prelude::*;

verus! {

/// The characters of `s`, in order.
pub fn chars_of(s: &str) -> (v: Vec<char>)
    ensures
        v@ == s@,
{
    let mut v: Vec<char> = Vec::new();
    for c in it: s.chars()
        invariant
            v@ == it.seq().take(it.index() as int),
    {
        v.push(c);
    }
    v
}

/// Appends one character to a string.
///
/// Trusted: calls `String::push`, which std documents as appending the given
/// `char` to the end of the string.
#[verifier::external_body]
pub(crate) fn push_char(s: &mut String, c: char)
    ensures
        final(s)@ == old(s)@.push(c),
{
    s.push(c);
}

/// The concatenation of `a` and `b` as a new string.
pub fn concat(a: &str, b: &str) -> (s: String)
    ensures
        s@ == a@ + b@,
{
    let mut s = String::new();
    let av = chars_of(a);
    let bv = chars_of(b);
    let n = av.len();
    for i in 0..n
        invariant
            n == av@.len(),
            s@ == av@.take(i as int),
    {
        push_char(&mut s, av[i]);
        assert(av@.take(i + 1) == av@.take(i as int).push(av@[i as int]));
    }
    assert(av@.take(n as int) == av@);
    let m = bv.len();
    for j in 0..m
        invariant
            n == av@.len(),
            m == bv@.len(),
            av@ == a@,
            s@ == av@ + bv@.take(j as int),
    {
        push_char(&mut s, bv[j]);
        assert(bv@.take(j + 1) == bv@.take(j as int).push(bv@[j as int]));
        assert(av@ + bv@.take(j + 1) == (av@ + bv@.take(j as int)).push(bv@[j as int]));
    }
    assert(bv@.take(m as int) == bv@);
    s
}

/// Whether `s` and `t` hold the same characters.
pub fn same_chars(s: &Vec<char>, t: &str) -> (b: bool)
    ensures
        b == (s@ == t@),
{
    let tv = chars_of(t);
    if s.len() != tv.len() {
        return false;
    }
    let n = s.len();
    for i in 0..n
        invariant
            n == s@.len(),
            n == tv@.len(),
            tv@ == t@,
            forall|k: int| 0 <= k < i ==> s@[k] == tv@[k],
    {
        if s[i] != tv[i] {
            assert(s@[i as int] != tv@[i as int]);
            return false;
        }
    }
    assert(s@ == tv@);
    true
}

// ---------------------------------------------------------------------------
// Prefixes and substrings
// ---------------------------------------------------------------------------

/// `p` is a prefix of `s`.
pub open spec fn has_prefix(s: Seq<char>, p: Seq<char>) -> bool {
    p.len() <= s.len() && s.subrange(0, p.len() as int) == p
}

/// `n` occurs in `h` as a contiguous run of characters.
pub open spec fn has_infix(h: Seq<char>, n: Seq<char>) -> bool {
    exists|i: int| 0 <= i && i + n.len() <= h.len() && #[trigger] h.subrange(i, i + n.len()) == n
}

/// Whether the characters `s[lo..hi]` begin with `p`.
pub fn range_has_prefix(s: &Vec<char>, lo: usize, hi: usize, p: &str) -> (b: bool)
    requires
        lo <= hi <= s@.len(),
    ensures
        b == has_prefix(s@.subrange(lo as int, hi as int), p@),
{
    let pv = chars_of(p);
    let m = pv.len();
    if m > hi - lo {
        return false;
    }
    for k in 0..m
        invariant
            m == pv@.len(),
            pv@ == p@,
            lo + m <= hi <= s@.len(),
            forall|j: int| 0 <= j < k ==> s@[lo + j] == pv@[j],
    {
        if s[lo + k] != pv[k] {
            let ghost sub = s@.subrange(lo as int, hi as int).subrange(0, m as int);
            assert(sub[k as int] == s@[lo + k]);
            assert(sub[k as int] != pv@[k as int]);
            assert(sub[k as int] != p@[k as int]);
            return false;
        }
    }
    assert(s@.subrange(lo as int, hi as int).subrange(0, m as int) == pv@);
    true
}

/// Whether `n` occurs in `h`.
pub fn contains_chars(h: &Vec<char>, n: &Vec<char>) -> (b: bool)
    ensures
        b == has_infix(h@, n@),
{
    let hl = h.len();
    let nl = n.len();
    if nl > hl {
        assert(!has_infix(h@, n@));
        return false;
    }
    if nl == 0 {
        assert(h@.subrange(0, 0 + n@.len() as int) == n@);
        return true;
    }
    let last = hl - nl;
    let mut i: usize = 0;
    while i <= last
        invariant
            hl == h@.len(),
            nl == n@.len(),
            last == hl - nl,
            nl >= 1,
            i <= last + 1,
            forall|j: int| 0 <= j < i ==> #[trigger] h@.subrange(j, j + nl) != n@,
        decreases last + 1 - i,
    {
        let mut k: usize = 0;
        let mut matched = true;
        while k < nl
            invariant
                hl == h@.len(),
                nl == n@.len(),
                i + nl <= hl,
                k <= nl,
                matched ==> forall|j: int| 0 <= j < k ==> h@[i + j] == n@[j],
                !matched ==> h@.subrange(i as int, i + nl) != n@,
            decreases nl - k,
        {
            if matched && h[i + k] != n[k] {
                assert(h@.subrange(i as int, i + nl)[k as int] != n@[k as int]);
                matched = false;
            }
            k = k + 1;
        }
        if matched {
            assert(h@.subrange(i as int, i + nl) == n@);
            return true;
        }
        i = i + 1;
    }
    assert forall|j: int| 0 <= j && j + n@.len() <= h@.len() implies #[trigger] h@.subrange(j, j + n@.len()) != n@ by {
    }
    false
}

// ---------------------------------------------------------------------------
// White space and trimming
// ---------------------------------------------------------------------------

/// The characters with the Unicode `White_Space` property, which is what
/// `char::is_whitespace` and `str::trim` go by.
pub open spec fn is_white_space(c: char) -> bool {
    let u = c as u32;
    ||| 0x09 <= u <= 0x0D
    ||| u == 0x20
    ||| u == 0x85
    ||| u == 0xA0
    ||| u == 0x1680
    ||| 0x2000 <= u <= 0x200A
    ||| u == 0x2028
    ||| u == 0x2029
    ||| u == 0x202F
    ||| u == 0x205F
    ||| u == 0x3000
}

/// Executable form of [`is_white_space`].
pub fn char_is_white_space(c: char) -> (b: bool)
    ensures
        b == is_white_space(c),
{
    let u = c as u32;
    (0x09 <= u && u <= 0x0D) || u == 0x20 || u == 0x85 || u == 0xA0 || u == 0x1680 || (0x2000
        <= u && u <= 0x200A) || u == 0x2028 || u == 0x2029 || u == 0x202F || u == 0x205F || u
        == 0x3000
}

/// `s` without its leading white space.
pub open spec fn trim_start(s: Seq<char>) -> Seq<char>
    decreases s.len(),
{
    if s.len() > 0 && is_white_space(s[0]) {
        trim_start(s.drop_first())
    } else {
        s
    }
}

/// `s` without its trailing white space.
pub open spec fn trim_end(s: Seq<char>) -> Seq<char>
    decreases s.len(),
{
    if s.len() > 0 && is_white_space(s.last()) {
        trim_end(s.drop_last())
    } else {
        s
    }
}

/// `s` without leading and trailing white space, as `str::trim` gives it.
pub open spec fn trim(s: Seq<char>) -> Seq<char> {
    trim_end(trim_start(s))
}

/// The bounds `(lo, hi)` of the trimmed part of `s`.
pub fn trim_bounds(s: &Vec<char>) -> (r: (usize, usize))
    ensures
        r.0 <= r.1 <= s@.len(),
        s@.subrange(r.0 as int, r.1 as int) == trim(s@),
{
    let n = s.len();
    let mut lo: usize = 0;
    assert(s@.subrange(0, n as int) == s@);
    while lo < n && char_is_white_space(s[lo])
        invariant
            n == s@.len(),
            lo <= n,
            trim_start(s@) == trim_start(s@.subrange(lo as int, n as int)),
        decreases n - lo,
    {
        assert(s@.subrange(lo as int, n as int).drop_first() == s@.subrange(lo + 1, n as int));
        lo = lo + 1;
    }
    let mut hi: usize = n;
    assert(trim_start(s@) == s@.subrange(lo as int, n as int));
    while hi > lo && char_is_white_space(s[hi - 1])
        invariant
            n == s@.len(),
            lo <= hi <= n,
            trim(s@) == trim_end(s@.subrange(lo as int, hi as int)),
        decreases hi - lo,
    {
        assert(s@.subrange(lo as int, hi as int).drop_last() == s@.subrange(lo as int, hi - 1));
        hi = hi - 1;
    }
    (lo, hi)
}

// ---------------------------------------------------------------------------
// Escape sequences
// ---------------------------------------------------------------------------

/// The escape character that opens a terminal control sequence.
pub open spec fn esc() -> char {
    '\u{1b}'
}

/// What is left of `s` once every escape sequence is dropped: an escape
/// character opens a sequence, which runs up to and including the next `m`
/// (or to the end of the text). `in_seq` says whether such a sequence is open
/// at the start of `s`.
pub open spec fn strip_from(s: Seq<char>, in_seq: bool) -> Seq<char>
    decreases s.len(),
{
    if s.len() == 0 {
        Seq::empty()
    } else if in_seq {
        strip_from(s.drop_first(), s[0] != 'm')
    } else if s[0] == esc() {
        strip_from(s.drop_first(), true)
    } else {
        seq![s[0]] + strip_from(s.drop_first(), false)
    }
}

/// `s` with its colour and style escape sequences removed.
pub open spec fn stripped(s: Seq<char>) -> Seq<char> {
    strip_from(s, false)
}

/// `s` holds no escape character.
pub open spec fn escape_free(s: Seq<char>) -> bool {
    forall|k: int| 0 <= k < s.len() ==> s[k] != esc()
}

/// Removes terminal escape sequences (colours, styles) from `s`: each escape
/// character and everything after it up to and including the next `m` go.
pub fn strip_ansi(s: &str) -> (r: String)
    ensures
        r@ == stripped(s@),
{
    let v = chars_of(s);
    let n = v.len();
    let mut out = String::new();
    let mut in_seq = false;
    assert(v@.skip(0) == v@);
    for i in 0..n
        invariant
            n == v@.len(),
            v@ == s@,
            out@ + strip_from(v@.skip(i as int), in_seq) == stripped(s@),
    {
        let c = v[i];
        let ghost rest = v@.skip(i as int);
        let ghost before = out@;
        assert(rest[0] == c);
        assert(rest.drop_first() == v@.skip(i + 1));
        if in_seq {
            if c == 'm' {
                in_seq = false;
            }
        } else if c == '\u{1b}' {
            in_seq = true;
        } else {
            push_char(&mut out, c);
            assert(before + (seq![c] + strip_from(v@.skip(i + 1), false)) == out@ + strip_from(
                v@.skip(i + 1),
                false,
            ));
        }
    }
    assert(v@.skip(n as int) == Seq::<char>::empty());
    out
}

/// Nothing that [`strip_from`] leaves holds an escape character.
pub proof fn lemma_strip_leaves_no_escape(s: Seq<char>, in_seq: bool)
    ensures
        escape_free(strip_from(s, in_seq)),
    decreases s.len(),
{
    if s.len() > 0 {
        if in_seq {
            lemma_strip_leaves_no_escape(s.drop_first(), s[0] != 'm');
        } else if s[0] == esc() {
            lemma_strip_leaves_no_escape(s.drop_first(), true);
        } else {
            lemma_strip_leaves_no_escape(s.drop_first(), false);
            let r = strip_from(s.drop_first(), false);
            assert forall|k: int| 0 <= k < (seq![s[0]] + r).len() implies (seq![s[0]] + r)[k]
                != esc() by {
                if k > 0 {
                    assert((seq![s[0]] + r)[k] == r[k - 1]);
                }
            }
        }
    }
}

/// Text with no escape character is left as it is.
pub proof fn lemma_strip_keeps_plain_text(s: Seq<char>)
    requires
        escape_free(s),
    ensures
        stripped(s) == s,
    decreases s.len(),
{
    if s.len() > 0 {
        let t = s.drop_first();
        assert(escape_free(t)) by {
            assert forall|k: int| 0 <= k < t.len() implies t[k] != esc() by {
                assert(t[k] == s[k + 1]);
            }
        }
        lemma_strip_keeps_plain_text(t);
        assert(seq![s[0]] + t == s);
    }
}

/// Removing escape sequences leaves no escape character behind.
pub proof fn law_stripped_text_is_escape_free(s: Seq<char>)
    ensures
        escape_free(stripped(s)),
{
    lemma_strip_leaves_no_escape(s, false);
}

/// Removing escape sequences twice gives what removing them once gives.
pub proof fn law_strip_is_idempotent(s: Seq<char>)
    ensures
        stripped(stripped(s)) == stripped(s),
{
    lemma_strip_leaves_no_escape(s, false);
    lemma_strip_keeps_plain_text(stripped(s));
}

/// `a` can be had from `b` by deleting characters: its characters occur in
/// `b` in the same order.
pub open spec fn is_subsequence(a: Seq<char>, b: Seq<char>) -> bool
    decreases b.len(),
{
    if a.len() == 0 {
        true
    } else if b.len() == 0 {
        false
    } else {
        is_subsequence(a, b.drop_first()) || (a[0] == b[0] && is_subsequence(
            a.drop_first(),
            b.drop_first(),
        ))
    }
}

/// A subsequence is never longer than what it was taken from.
pub proof fn lemma_subsequence_len(a: Seq<char>, b: Seq<char>)
    requires
        is_subsequence(a, b),
    ensures
        a.len() <= b.len(),
    decreases b.len(),
{
    if a.len() > 0 && b.len() > 0 {
        if is_subsequence(a, b.drop_first()) {
            lemma_subsequence_len(a, b.drop_first());
        } else {
            lemma_subsequence_len(a.drop_first(), b.drop_first());
        }
    }
}

/// What [`strip_from`] leaves is a subsequence of its input.
proof fn lemma_strip_is_subsequence(s: Seq<char>, in_seq: bool)
    ensures
        is_subsequence(strip_from(s, in_seq), s),
    decreases s.len(),
{
    if s.len() > 0 {
        let rest = s.drop_first();
        if in_seq || s[0] == esc() {
            let next = if in_seq { s[0] != 'm' } else { true };
            lemma_strip_is_subsequence(rest, next);
            assert(strip_from(s, in_seq) == strip_from(rest, next));
        } else {
            lemma_strip_is_subsequence(rest, false);
            let r = seq![s[0]] + strip_from(rest, false);
            assert(r.drop_first() == strip_from(rest, false));
        }
    }
}

/// Removing escape sequences only deletes characters: the result is a
/// subsequence of the text, and so no longer than it.
pub proof fn law_stripped_text_is_a_subsequence(s: Seq<char>)
    ensures
        is_subsequence(stripped(s), s),
        stripped(s).len() <= s.len(),
{
    lemma_strip_is_subsequence(s, false);
    lemma_subsequence_len(stripped(s), s);
}

// ---------------------------------------------------------------------------
// Lower case
// ---------------------------------------------------------------------------

/// What `str::to_lowercase` gives for the characters `s`: their Unicode
/// lower case, where a character's mapping may depend on its neighbours (a
/// capital sigma at the end of a word).
pub uninterp spec fn lowercase(s: Seq<char>) -> Seq<char>;

/// Lower-cases `s`.
///
/// Trusted: calls `str::to_lowercase`. Its result is named by [`lowercase`];
/// nothing more of the Unicode mapping is stated.
#[verifier::external_body]
pub(crate) fn to_lowercase(s: &str) -> (r: String)
    ensures
        r@ == lowercase(s@),
{
    s.to_lowercase()
}

// ---------------------------------------------------------------------------
// Decimal numbers
// ---------------------------------------------------------------------------

/// `c` is one of the ASCII digits `0`..`9`.
pub open spec fn is_digit(c: char) -> bool {
    '0' <= c && c <= '9'
}

/// Every character of `d` is an ASCII digit.
pub open spec fn all_digits(d: Seq<char>) -> bool {
    forall|k: int| 0 <= k < d.len() ==> is_digit(#[trigger] d[k])
}

/// The number that the decimal digits `d` write.
pub open spec fn digits_value(d: Seq<char>) -> int
    decreases d.len(),
{
    if d.len() == 0 {
        0
    } else {
        digits_value(d.drop_last()) * 10 + (d.last() as int - '0' as int)
    }
}

/// What `str::parse::<usize>` gives for `s`: an optional `+`, then at least
/// one ASCII digit and nothing else, naming a number that fits in `usize`.
pub open spec fn parse_usize_spec(s: Seq<char>) -> Option<usize> {
    let d = if s.len() > 0 && s[0] == '+' {
        s.drop_first()
    } else {
        s
    };
    if d.len() > 0 && all_digits(d) && digits_value(d) <= usize::MAX {
        Some(digits_value(d) as usize)
    } else {
        None
    }
}

/// A number written with digits is not negative.
pub proof fn lemma_digits_value_nonneg(d: Seq<char>)
    requires
        all_digits(d),
    ensures
        digits_value(d) >= 0,
    decreases d.len(),
{
    if d.len() > 0 {
        assert(all_digits(d.drop_last())) by {
            assert forall|k: int| 0 <= k < d.drop_last().len() implies is_digit(
                #[trigger] d.drop_last()[k],
            ) by {
                assert(d.drop_last()[k] == d[k]);
            }
        }
        lemma_digits_value_nonneg(d.drop_last());
        assert(is_digit(d[d.len() - 1]));
    }
}

/// A prefix of a run of digits names a number no larger than the whole run.
pub proof fn lemma_digits_prefix_le(d: Seq<char>, j: int)
    requires
        all_digits(d),
        0 <= j <= d.len(),
    ensures
        digits_value(d.take(j)) <= digits_value(d),
    decreases d.len(),
{
    if j < d.len() {
        let e = d.drop_last();
        assert(all_digits(e)) by {
            assert forall|k: int| 0 <= k < e.len() implies is_digit(#[trigger] e[k]) by {
                assert(e[k] == d[k]);
            }
        }
        lemma_digits_prefix_le(e, j);
        assert(e.take(j) == d.take(j));
        lemma_digits_value_nonneg(e);
        assert(is_digit(d[d.len() - 1]));
    } else {
        assert(d.take(j) == d);
    }
}

/// Parses `s` as `str::parse::<usize>` does.
pub fn parse_usize(s: &Vec<char>) -> (r: Option<usize>)
    ensures
        r == parse_usize_spec(s@),
{
    let n = s.len();
    let start: usize = if n > 0 && s[0] == '+' {
        1
    } else {
        0
    };
    let ghost d = if s@.len() > 0 && s@[0] == '+' {
        s@.drop_first()
    } else {
        s@
    };
    assert(d == s@.subrange(start as int, n as int));
    if start == n {
        return None;
    }
    let mut acc: usize = 0;
    let mut i: usize = start;
    assert(d.take(0) == Seq::<char>::empty());
    while i < n
        invariant
            start <= i <= n,
            n == s@.len(),
            start < n,
            d == s@.subrange(start as int, n as int),
            d == (if s@.len() > 0 && s@[0] == '+' {
                s@.drop_first()
            } else {
                s@
            }),
            all_digits(d.take(i - start)),
            acc as int == digits_value(d.take(i - start)),
        decreases n - i,
    {
        let c = s[i];
        assert(d[i - start] == c);
        if !('0' <= c && c <= '9') {
            assert(!is_digit(d[i - start]));
            return None;
        }
        let dv = (c as u32 - '0' as u32) as usize;
        assert(d.take(i - start + 1).drop_last() == d.take(i - start));
        assert(d.take(i - start + 1).last() == c);
        assert(all_digits(d.take(i - start + 1))) by {
            assert forall|k: int| 0 <= k < d.take(i - start + 1).len() implies is_digit(
                #[trigger] d.take(i - start + 1)[k],
            ) by {
                if k < i - start {
                    assert(d.take(i - start + 1)[k] == d.take(i - start)[k]);
                }
            }
        }
        match acc.checked_mul(10) {
            None => {
                proof {
                    if all_digits(d) {
                        lemma_digits_prefix_le(d, i - start + 1);
                        lemma_digits_value_nonneg(d.take(i - start));
                    }
                }
                return None;
            },
            Some(m) => match m.checked_add(dv) {
                None => {
                    proof {
                        if all_digits(d) {
                            lemma_digits_prefix_le(d, i - start + 1);
                        }
                    }
                    return None;
                },
                Some(v) => {
                    acc = v;
                },
            },
        }
        i = i + 1;
    }
    assert(d.take(n - start) == d);
    Some(acc)
}

/// The first `k` characters of `s` (all of them when `s` is shorter).
pub fn prefix_chars(s: &str, k: usize) -> (r: String)
    ensures
        r@ == s@.take(if k < s@.len() { k as int } else { s@.len() as int }),
{
    let v = chars_of(s);
    let n = if k < v.len() {
        k
    } else {
        v.len()
    };
    let mut r = String::new();
    for i in 0..n
        invariant
            n <= v@.len(),
            v@ == s@,
            r@ == v@.take(i as int),
    {
        push_char(&mut r, v[i]);
        assert(v@.take(i + 1) == v@.take(i as int).push(v@[i as int]));
    }
    r
}

} // verus!
