use vstd::prelude::*;

verus! {

// ---------------------------------------------------------------------------
// Characters
// ---------------------------------------------------------------------------

/// The Unicode `White_Space` property, which `char::is_whitespace`, `str::trim`
/// and `str::split_whitespace` use.
pub open spec fn is_ws(c: char) -> bool {
    ||| ('\u{9}' <= c && c <= '\u{d}')
    ||| c == ' '
    ||| c == '\u{85}'
    ||| c == '\u{a0}'
    ||| c == '\u{1680}'
    ||| ('\u{2000}' <= c && c <= '\u{200a}')
    ||| c == '\u{2028}'
    ||| c == '\u{2029}'
    ||| c == '\u{202f}'
    ||| c == '\u{205f}'
    ||| c == '\u{3000}'
}

/// `char::is_whitespace`.
pub fn is_whitespace(c: char) -> (b: bool)
    ensures
        b == is_ws(c),
{
    ('\u{9}' <= c && c <= '\u{d}') || c == ' ' || c == '\u{85}' || c == '\u{a0}' || c == '\u{1680}'
        || ('\u{2000}' <= c && c <= '\u{200a}') || c == '\u{2028}' || c == '\u{2029}' || c
        == '\u{202f}' || c == '\u{205f}' || c == '\u{3000}'
}

/// White space, and with `punct` also `,` and `:`.
pub open spec fn trim_pred(punct: bool) -> spec_fn(char) -> bool {
    |c: char| is_ws(c) || (punct && (c == ',' || c == ':'))
}

pub open spec fn ws_pred() -> spec_fn(char) -> bool {
    trim_pred(false)
}

pub open spec fn non_ws_pred() -> spec_fn(char) -> bool {
    |c: char| !is_ws(c)
}

pub open spec fn not_char_pred(x: char) -> spec_fn(char) -> bool {
    |c: char| c != x
}

// ---------------------------------------------------------------------------
// Runs of characters
// ---------------------------------------------------------------------------

/// Length of the longest prefix of `s` whose characters all satisfy `p`.
pub open spec fn run_len(s: Seq<char>, p: spec_fn(char) -> bool) -> nat
    decreases s.len(),
{
    if s.len() == 0 || !p(s[0]) {
        0
    } else {
        1 + run_len(s.drop_first(), p)
    }
}

/// Length of the longest suffix of `s` whose characters all satisfy `p`.
pub open spec fn rrun_len(s: Seq<char>, p: spec_fn(char) -> bool) -> nat
    decreases s.len(),
{
    if s.len() == 0 || !p(s.last()) {
        0
    } else {
        1 + rrun_len(s.drop_last(), p)
    }
}

pub proof fn lemma_run_len(s: Seq<char>, p: spec_fn(char) -> bool)
    ensures
        run_len(s, p) <= s.len(),
        forall|i: int| 0 <= i < run_len(s, p) ==> #[trigger] p(s[i]),
        run_len(s, p) < s.len() ==> !p(s[run_len(s, p) as int]),
    decreases s.len(),
{
    if s.len() > 0 && p(s[0]) {
        lemma_run_len(s.drop_first(), p);
        assert forall|i: int| 0 <= i < run_len(s, p) implies #[trigger] p(s[i]) by {
            if i > 0 {
                assert(s[i] == s.drop_first()[i - 1]);
            }
        }
    }
}

/// A prefix length that is all-`p` and stops at a non-`p` character is the run length.
pub proof fn lemma_run_len_unique(s: Seq<char>, p: spec_fn(char) -> bool, k: int)
    requires
        0 <= k <= s.len(),
        forall|i: int| 0 <= i < k ==> #[trigger] p(s[i]),
        k < s.len() ==> !p(s[k]),
    ensures
        run_len(s, p) == k,
    decreases s.len(),
{
    if s.len() > 0 && p(s[0]) {
        assert(k > 0);
        assert forall|i: int| 0 <= i < k - 1 implies #[trigger] p(s.drop_first()[i]) by {
            assert(p(s[i + 1]));
        }
        lemma_run_len_unique(s.drop_first(), p, k - 1);
    }
}

pub proof fn lemma_rrun_len(s: Seq<char>, p: spec_fn(char) -> bool)
    ensures
        rrun_len(s, p) <= s.len(),
        forall|i: int| s.len() - rrun_len(s, p) <= i < s.len() ==> #[trigger] p(s[i]),
        rrun_len(s, p) < s.len() ==> !p(s[s.len() - rrun_len(s, p) - 1]),
    decreases s.len(),
{
    if s.len() > 0 && p(s.last()) {
        lemma_rrun_len(s.drop_last(), p);
        assert forall|i: int| s.len() - rrun_len(s, p) <= i < s.len() implies #[trigger] p(s[i]) by {
            if i < s.len() - 1 {
                assert(s[i] == s.drop_last()[i]);
            }
        }
    }
}

pub proof fn lemma_rrun_len_unique(s: Seq<char>, p: spec_fn(char) -> bool, k: int)
    requires
        0 <= k <= s.len(),
        forall|i: int| s.len() - k <= i < s.len() ==> #[trigger] p(s[i]),
        k < s.len() ==> !p(s[s.len() - k - 1]),
    ensures
        rrun_len(s, p) == k,
    decreases s.len(),
{
    if s.len() > 0 && p(s.last()) {
        assert(k > 0);
        let t = s.drop_last();
        assert forall|i: int| t.len() - (k - 1) <= i < t.len() implies #[trigger] p(t[i]) by {
            assert(p(s[i]));
        }
        if k - 1 < t.len() {
            assert(t[t.len() - (k - 1) - 1] == s[s.len() - k - 1]);
        }
        lemma_rrun_len_unique(t, p, k - 1);
    }
}

/// `str::trim_start`: drop leading white space.
pub open spec fn trim_start(s: Seq<char>) -> Seq<char> {
    s.skip(run_len(s, ws_pred()) as int)
}

/// `str::trim_matches(p)`: drop the leading and the trailing characters that satisfy `p`.
pub open spec fn trim_with(s: Seq<char>, p: spec_fn(char) -> bool) -> Seq<char> {
    let t = s.skip(run_len(s, p) as int);
    t.take(t.len() - rrun_len(t, p))
}

/// `str::trim`: drop leading and trailing white space.
pub open spec fn trim(s: Seq<char>) -> Seq<char> {
    trim_with(s, ws_pred())
}

// ---------------------------------------------------------------------------
// Conversions between strings and character vectors
// ---------------------------------------------------------------------------

/// Appends one character to a string.
/// Wraps `String::push`, which std documents as appending the given char to the end of the string.
#[verifier::external_body]
pub(crate) fn push_char(s: &mut String, c: char)
    ensures
        final(s)@ == old(s)@.push(c),
{
    s.push(c);
}

/// The characters of a string slice, in order.
pub fn chars_of(s: &str) -> (v: Vec<char>)
    ensures
        v@ == s@,
{
    let mut v: Vec<char> = Vec::new();
    for c in it: s.chars()
        invariant
            it.seq() == s@,
            v@ == it.seq().take(it.index() as int),
    {
        v.push(c);
    }
    v
}

/// Appends the characters `v[lo..hi]` to `out`.
pub fn push_range(out: &mut String, v: &Vec<char>, lo: usize, hi: usize)
    requires
        lo <= hi <= v.len(),
    ensures
        final(out)@ == old(out)@ + v@.subrange(lo as int, hi as int),
{
    let mut i = lo;
    while i < hi
        invariant
            lo <= i <= hi <= v.len(),
            out@ == old(out)@ + v@.subrange(lo as int, i as int),
        decreases hi - i,
    {
        push_char(out, v[i]);
        assert(v@.subrange(lo as int, i + 1) == v@.subrange(lo as int, i as int).push(v@[i as int]));
        i += 1;
    }
}

/// A new string holding the characters `v[lo..hi]`.
pub fn string_of_range(v: &Vec<char>, lo: usize, hi: usize) -> (s: String)
    requires
        lo <= hi <= v.len(),
    ensures
        s@ == v@.subrange(lo as int, hi as int),
{
    let mut s = String::new();
    push_range(&mut s, v, lo, hi);
    s
}

/// Appends a string slice.
pub fn push_str(out: &mut String, s: &str)
    ensures
        final(out)@ == old(out)@ + s@,
{
    out.append(s);
}

// ---------------------------------------------------------------------------
// Trimming
// ---------------------------------------------------------------------------

/// Bounds `(lo, hi)` of `trim_with(v[from..to], trim_pred(punct))` inside `v`.
pub fn trim_bounds_with(v: &Vec<char>, from: usize, to: usize, punct: bool) -> (r: (usize, usize))
    requires
        from <= to <= v.len(),
    ensures
        from <= r.0 <= r.1 <= to,
        v@.subrange(r.0 as int, r.1 as int) == trim_with(
            v@.subrange(from as int, to as int),
            trim_pred(punct),
        ),
{
    let ghost p = trim_pred(punct);
    let ghost s = v@.subrange(from as int, to as int);
    let mut lo = from;
    while lo < to && (is_whitespace(v[lo]) || (punct && (v[lo] == ',' || v[lo] == ':')))
        invariant
            from <= lo <= to <= v.len(),
            s == v@.subrange(from as int, to as int),
            p == trim_pred(punct),
            forall|i: int| from <= i < lo ==> #[trigger] p(v@[i]),
        decreases to - lo,
    {
        lo += 1;
    }
    proof {
        assert forall|i: int| 0 <= i < lo - from implies #[trigger] p(s[i]) by {
            assert(s[i] == v@[from + i]);
        }
        lemma_run_len_unique(s, p, lo - from);
    }
    let ghost t = s.skip(run_len(s, p) as int);
    assert(t == v@.subrange(lo as int, to as int));
    let mut hi = to;
    while hi > lo && (is_whitespace(v[hi - 1]) || (punct && (v[hi - 1] == ',' || v[hi - 1] == ':')))
        invariant
            from <= lo <= hi <= to <= v.len(),
            p == trim_pred(punct),
            forall|i: int| hi <= i < to ==> #[trigger] p(v@[i]),
        decreases hi - lo,
    {
        hi -= 1;
    }
    proof {
        assert forall|i: int| t.len() - (to - hi) <= i < t.len() implies #[trigger] p(t[i]) by {
            assert(t[i] == v@[lo + i]);
        }
        if to - hi < t.len() {
            assert(t[t.len() - (to - hi) - 1] == v@[hi - 1]);
        }
        lemma_rrun_len_unique(t, p, to - hi);
        assert(t.take(t.len() - rrun_len(t, p)) == v@.subrange(lo as int, hi as int));
    }
    (lo, hi)
}

/// Bounds `(lo, hi)` of `trim(v[from..to])` inside `v`.
pub fn trim_bounds(v: &Vec<char>, from: usize, to: usize) -> (r: (usize, usize))
    requires
        from <= to <= v.len(),
    ensures
        from <= r.0 <= r.1 <= to,
        v@.subrange(r.0 as int, r.1 as int) == trim(v@.subrange(from as int, to as int)),
{
    trim_bounds_with(v, from, to, false)
}

// ---------------------------------------------------------------------------
// Lines and words
// ---------------------------------------------------------------------------

/// Drops one trailing carriage return.
pub open spec fn strip_cr(line: Seq<char>) -> Seq<char> {
    if line.len() > 0 && line.last() == '\r' {
        line.drop_last()
    } else {
        line
    }
}

/// `str::lines`: the text split at `\n`, each line without its `\n` and without a `\r`
/// that stood right before that `\n`; a final line ending adds no empty line.
pub open spec fn lines(s: Seq<char>) -> Seq<Seq<char>>
    decreases s.len(),
{
    if s.len() == 0 {
        seq![]
    } else {
        let k = run_len(s, not_char_pred('\n'));
        if k >= s.len() {
            seq![s]
        } else {
            seq![strip_cr(s.take(k as int))] + lines(s.skip(k + 1 as int))
        }
    }
}

/// `str::split_whitespace`: the maximal runs of non-white-space characters, in order.
pub open spec fn words(s: Seq<char>) -> Seq<Seq<char>>
    decreases s.len(),
{
    let t = trim_start(s);
    if t.len() == 0 {
        seq![]
    } else {
        let k = run_len(t, non_ws_pred());
        if 0 < k <= t.len() && t.len() <= s.len() {
            seq![t.take(k as int)] + words(t.skip(k as int))
        } else {
            seq![]
        }
    }
}

pub proof fn lemma_words_unfold(s: Seq<char>)
    ensures
        trim_start(s).len() > 0 ==> {
            let t = trim_start(s);
            let k = run_len(t, non_ws_pred());
            &&& 0 < k <= t.len()
            &&& words(s) == seq![t.take(k as int)] + words(t.skip(k as int))
        },
        trim_start(s).len() == 0 ==> words(s) == Seq::<Seq<char>>::empty(),
{
    lemma_run_len(s, ws_pred());
    let t = trim_start(s);
    if t.len() > 0 {
        lemma_run_len(t, non_ws_pred());
        assert(t[0] == s[run_len(s, ws_pred()) as int]);
        assert(non_ws_pred()(t[0]));
    }
}

/// The pieces `v[r.0..r.1]` named by a list of ranges.
pub open spec fn range_views(v: Seq<char>, rs: Seq<(usize, usize)>) -> Seq<Seq<char>> {
    Seq::new(rs.len(), |i: int| v.subrange(rs[i].0 as int, rs[i].1 as int))
}

pub open spec fn ranges_ok(n: int, rs: Seq<(usize, usize)>) -> bool {
    forall|i: int| 0 <= i < rs.len() ==> #[trigger] rs[i].0 <= rs[i].1 <= n
}

/// Ranges of `lines(v[from..to])` inside `v`.
pub fn line_ranges(v: &Vec<char>, from: usize, to: usize) -> (rs: Vec<(usize, usize)>)
    requires
        from <= to <= v.len(),
    ensures
        ranges_ok(v.len() as int, rs@),
        range_views(v@, rs@) == lines(v@.subrange(from as int, to as int)),
{
    let mut rs: Vec<(usize, usize)> = Vec::new();
    let mut start = from;
    let mut i = from;
    while i < to
        invariant
            from <= start <= i <= to <= v.len(),
            ranges_ok(v.len() as int, rs@),
            forall|j: int| start <= j < i ==> #[trigger] v@[j] != '\n',
            lines(v@.subrange(from as int, to as int)) == range_views(v@, rs@) + lines(
                v@.subrange(start as int, to as int),
            ),
        decreases to - i,
    {
        if v[i] == '\n' {
            let ghost t = v@.subrange(start as int, to as int);
            proof {
                assert forall|j: int| 0 <= j < i - start implies #[trigger] not_char_pred('\n')(
                    t[j],
                ) by {
                    assert(t[j] == v@[start + j]);
                }
                assert(t[i - start] == v@[i as int]);
                lemma_run_len_unique(t, not_char_pred('\n'), i - start);
                assert(t.take(i - start) == v@.subrange(start as int, i as int));
                assert(t.skip(i - start + 1) == v@.subrange(i + 1, to as int));
            }
            let mut hi = i;
            if hi > start && v[hi - 1] == '\r' {
                hi = hi - 1;
                assert(v@.subrange(start as int, hi as int) == v@.subrange(
                    start as int,
                    i as int,
                ).drop_last());
            }
            let ghost old_rs = rs@;
            rs.push((start, hi));
            proof {
                assert(range_views(v@, rs@) == range_views(v@, old_rs).push(
                    v@.subrange(start as int, hi as int),
                ));
                assert(lines(t) == seq![strip_cr(t.take(i - start))] + lines(
                    t.skip(i - start + 1),
                ));
            }
            start = i + 1;
        }
        i += 1;
    }
    if start < to {
        let ghost t = v@.subrange(start as int, to as int);
        proof {
            assert forall|j: int| 0 <= j < t.len() implies #[trigger] not_char_pred('\n')(t[j]) by {
                assert(t[j] == v@[start + j]);
            }
            lemma_run_len_unique(t, not_char_pred('\n'), t.len() as int);
        }
        let ghost old_rs = rs@;
        rs.push((start, to));
        assert(range_views(v@, rs@) == range_views(v@, old_rs).push(t));
    } else {
        assert(v@.subrange(start as int, to as int).len() == 0);
    }
    rs
}

/// Ranges of `words(v[from..to])` inside `v`.
pub fn word_ranges(v: &Vec<char>, from: usize, to: usize) -> (rs: Vec<(usize, usize)>)
    requires
        from <= to <= v.len(),
    ensures
        ranges_ok(v.len() as int, rs@),
        range_views(v@, rs@) == words(v@.subrange(from as int, to as int)),
{
    let mut rs: Vec<(usize, usize)> = Vec::new();
    let mut i = from;
    while i < to
        invariant
            from <= i <= to <= v.len(),
            ranges_ok(v.len() as int, rs@),
            words(v@.subrange(from as int, to as int)) == range_views(v@, rs@) + words(
                v@.subrange(i as int, to as int),
            ),
        decreases to - i,
    {
        let ghost s = v@.subrange(i as int, to as int);
        let mut j = i;
        while j < to && is_whitespace(v[j])
            invariant
                i <= j <= to <= v.len(),
                forall|m: int| i <= m < j ==> is_ws(#[trigger] v@[m]),
            decreases to - j,
        {
            j += 1;
        }
        proof {
            assert forall|m: int| 0 <= m < j - i implies #[trigger] ws_pred()(s[m]) by {
                assert(s[m] == v@[i + m]);
            }
            if j < to {
                assert(s[j - i] == v@[j as int]);
            }
            lemma_run_len_unique(s, ws_pred(), j - i);
            assert(trim_start(s) == v@.subrange(j as int, to as int));
            lemma_words_unfold(s);
        }
        if j == to {
            i = j;
        } else {
            let mut m = j;
            while m < to && !is_whitespace(v[m])
                invariant
                    j <= m <= to <= v.len(),
                    forall|q: int| j <= q < m ==> !is_ws(#[trigger] v@[q]),
                decreases to - m,
            {
                m += 1;
            }
            let ghost t = v@.subrange(j as int, to as int);
            proof {
                assert forall|q: int| 0 <= q < m - j implies #[trigger] non_ws_pred()(t[q]) by {
                    assert(t[q] == v@[j + q]);
                }
                if m < to {
                    assert(t[m - j] == v@[m as int]);
                }
                lemma_run_len_unique(t, non_ws_pred(), m - j);
                assert(t.take(m - j) == v@.subrange(j as int, m as int));
                assert(t.skip(m - j) == v@.subrange(m as int, to as int));
            }
            let ghost old_rs = rs@;
            rs.push((j, m));
            assert(range_views(v@, rs@) == range_views(v@, old_rs).push(
                v@.subrange(j as int, m as int),
            ));
            i = m;
        }
    }
    proof {
        let e = v@.subrange(i as int, to as int);
        assert(e.len() == 0);
        lemma_run_len(e, ws_pred());
        lemma_words_unfold(e);
    }
    rs
}

// ---------------------------------------------------------------------------
// Decimal numbers
// ---------------------------------------------------------------------------

pub open spec fn digit_char(d: nat) -> char {
    if d == 0 {
        '0'
    } else if d == 1 {
        '1'
    } else if d == 2 {
        '2'
    } else if d == 3 {
        '3'
    } else if d == 4 {
        '4'
    } else if d == 5 {
        '5'
    } else if d == 6 {
        '6'
    } else if d == 7 {
        '7'
    } else if d == 8 {
        '8'
    } else {
        '9'
    }
}

/// The decimal digits of `n`, as `Display` writes an unsigned integer.
pub open spec fn dec(n: nat) -> Seq<char>
    decreases n,
{
    if n < 10 {
        seq![digit_char(n)]
    } else {
        dec(n / 10).push(digit_char(n % 10))
    }
}

/// `Display` of a signed integer: a minus sign, then the digits of the magnitude.
pub open spec fn dec_signed(n: int) -> Seq<char> {
    if n < 0 {
        seq!['-'] + dec((-n) as nat)
    } else {
        dec(n as nat)
    }
}

fn digit(d: u128) -> (c: char)
    requires
        d < 10,
    ensures
        c == digit_char(d as nat),
{
    if d == 0 {
        '0'
    } else if d == 1 {
        '1'
    } else if d == 2 {
        '2'
    } else if d == 3 {
        '3'
    } else if d == 4 {
        '4'
    } else if d == 5 {
        '5'
    } else if d == 6 {
        '6'
    } else if d == 7 {
        '7'
    } else if d == 8 {
        '8'
    } else {
        '9'
    }
}

/// Appends the decimal digits of `n`.
pub fn push_dec(out: &mut String, n: u128)
    ensures
        final(out)@ == old(out)@ + dec(n as nat),
    decreases n,
{
    if n >= 10 {
        push_dec(out, n / 10);
    }
    push_char(out, digit(n % 10));
}

/// Appends a signed integer in decimal.
pub fn push_dec_signed(out: &mut String, n: i128)
    ensures
        final(out)@ == old(out)@ + dec_signed(n as int),
{
    if n < 0 {
        push_char(out, '-');
        let m: u128 = if n == i128::MIN {
            0x8000_0000_0000_0000_0000_0000_0000_0000u128
        } else {
            (-n) as u128
        };
        push_dec(out, m);
    } else {
        push_dec(out, n as u128);
    }
}

// ---------------------------------------------------------------------------
// Lexicographic order
// ---------------------------------------------------------------------------

/// Length of the longest common prefix of `a` and `b`.
pub open spec fn lcp(a: Seq<char>, b: Seq<char>) -> nat
    decreases a.len(),
{
    if a.len() == 0 || b.len() == 0 || a[0] != b[0] {
        0
    } else {
        1 + lcp(a.drop_first(), b.drop_first())
    }
}

/// The order of `String`'s `Ord`: bytewise on UTF-8, which is the order of the
/// code points compared one after another, a proper prefix coming first.
pub open spec fn seq_lt(a: Seq<char>, b: Seq<char>) -> bool {
    let k = lcp(a, b);
    ||| (k == a.len() && k < b.len())
    ||| (k < a.len() && k < b.len() && a[k as int] < b[k as int])
}

pub proof fn lemma_lcp(a: Seq<char>, b: Seq<char>)
    ensures
        lcp(a, b) <= a.len(),
        lcp(a, b) <= b.len(),
        forall|j: int| 0 <= j < lcp(a, b) ==> a[j] == b[j],
        lcp(a, b) < a.len() && lcp(a, b) < b.len() ==> a[lcp(a, b) as int] != b[lcp(a, b) as int],
    decreases a.len(),
{
    if a.len() > 0 && b.len() > 0 && a[0] == b[0] {
        lemma_lcp(a.drop_first(), b.drop_first());
        assert forall|j: int| 0 <= j < lcp(a, b) implies a[j] == b[j] by {
            if j > 0 {
                assert(a[j] == a.drop_first()[j - 1]);
                assert(b[j] == b.drop_first()[j - 1]);
            }
        }
    }
}

pub proof fn lemma_lcp_unique(a: Seq<char>, b: Seq<char>, k: int)
    requires
        0 <= k <= a.len(),
        k <= b.len(),
        forall|j: int| 0 <= j < k ==> a[j] == b[j],
        k < a.len() && k < b.len() ==> a[k] != b[k],
    ensures
        lcp(a, b) == k,
    decreases a.len(),
{
    if a.len() > 0 && b.len() > 0 && a[0] == b[0] {
        assert(k > 0);
        assert forall|j: int| 0 <= j < k - 1 implies a.drop_first()[j] == b.drop_first()[j] by {
            assert(a[j + 1] == b[j + 1]);
        }
        lemma_lcp_unique(a.drop_first(), b.drop_first(), k - 1);
    }
}

pub proof fn lemma_seq_lt_irreflexive(a: Seq<char>)
    ensures
        !seq_lt(a, a),
{
    lemma_lcp_unique(a, a, a.len() as int);
}

pub proof fn lemma_seq_lt_total(a: Seq<char>, b: Seq<char>)
    ensures
        a != b ==> seq_lt(a, b) || seq_lt(b, a),
{
    lemma_lcp(a, b);
    let k = lcp(a, b);
    assert forall|j: int| 0 <= j < k implies b[j] == a[j] by {}
    lemma_lcp_unique(b, a, k as int);
    if k == a.len() && k == b.len() {
        assert(a =~= b);
    }
}

pub proof fn lemma_seq_lt_transitive(a: Seq<char>, b: Seq<char>, c: Seq<char>)
    requires
        seq_lt(a, b),
        seq_lt(b, c),
    ensures
        seq_lt(a, c),
{
    lemma_lcp(a, b);
    lemma_lcp(b, c);
    let k1 = lcp(a, b);
    let k2 = lcp(b, c);
    let k: int = if k1 < k2 { k1 as int } else { k2 as int };
    assert forall|j: int| 0 <= j < k implies a[j] == c[j] by {
        assert(a[j] == b[j]);
        assert(b[j] == c[j]);
    }
    lemma_lcp_unique(a, c, k);
}

/// Whether `a < b` in the order of `String`.
pub fn chars_lt(a: &Vec<char>, b: &Vec<char>) -> (r: bool)
    ensures
        r == seq_lt(a@, b@),
{
    let mut k: usize = 0;
    while k < a.len() && k < b.len() && a[k] == b[k]
        invariant
            k <= a.len(),
            k <= b.len(),
            forall|j: int| 0 <= j < k ==> a@[j] == b@[j],
        decreases a.len() - k,
    {
        k += 1;
    }
    proof {
        lemma_lcp_unique(a@, b@, k as int);
    }
    if k == a.len() {
        k < b.len()
    } else if k == b.len() {
        false
    } else {
        a[k] < b[k]
    }
}

/// Whether `a < b` in the order of `String`.
pub fn string_lt(a: &String, b: &String) -> (r: bool)
    ensures
        r == seq_lt(a@, b@),
{
    let x = chars_of(a.as_str());
    let y = chars_of(b.as_str());
    chars_lt(&x, &y)
}

/// Strictly increasing in the order of `String`: sorted, no element twice.
pub open spec fn strictly_sorted(s: Seq<Seq<char>>) -> bool {
    forall|i: int, j: int| 0 <= i < j < s.len() ==> seq_lt(#[trigger] s[i], #[trigger] s[j])
}

/// Inserts `x` into a strictly sorted list unless it is there already.
pub fn insert_sorted_unique(list: &mut Vec<String>, x: String)
    requires
        strictly_sorted(old(list).deep_view()),
    ensures
        strictly_sorted(final(list).deep_view()),
        final(list).deep_view().to_set() == old(list).deep_view().to_set().insert(x@),
{
    let ghost s = list.deep_view();
    let mut k: usize = 0;
    while k < list.len() && string_lt(&list[k], &x)
        invariant
            k <= list.len(),
            list.deep_view() == s,
            forall|i: int| 0 <= i < k ==> seq_lt(#[trigger] s[i], x@),
        decreases list.len() - k,
    {
        k += 1;
    }
    if k < list.len() && list[k] == x {
        assert(s.to_set().contains(x@)) by {
            assert(s[k as int] == x@);
        }
        assert(s.to_set().insert(x@) =~= s.to_set());
        return;
    }
    proof {
        if k < s.len() {
            assert(s[k as int] != x@);
            lemma_seq_lt_total(s[k as int], x@);
        }
    }
    list.insert(k, x);
    proof {
        let t = list.deep_view();
        assert(t =~= s.insert(k as int, x@));
        assert forall|i: int, j: int| 0 <= i < j < t.len() implies seq_lt(
            #[trigger] t[i],
            #[trigger] t[j],
        ) by {
            if j == k {
                assert(seq_lt(s[i], x@));
            } else if i == k {
                if j - 1 > k {
                    lemma_seq_lt_transitive(x@, s[k as int], s[j - 1]);
                }
            } else if i < k && j > k {
                if i < k {
                    assert(seq_lt(s[i], x@));
                }
                lemma_seq_lt_transitive(s[i], x@, s[k as int]);
                if j - 1 > k {
                    lemma_seq_lt_transitive(s[i], s[k as int], s[j - 1]);
                }
            }
        }
        assert forall|y: Seq<char>| t.to_set().contains(y) <==> s.to_set().insert(x@).contains(y) by {
            if t.to_set().contains(y) {
                let i = choose|i: int| 0 <= i < t.len() && t[i] == y;
                if i < k {
                    assert(s[i] == y);
                } else if i > k {
                    assert(s[i - 1] == y);
                }
            }
            if s.to_set().contains(y) {
                let i = choose|i: int| 0 <= i < s.len() && s[i] == y;
                if i < k {
                    assert(t[i] == y);
                } else {
                    assert(t[i + 1] == y);
                }
            }
            if y == x@ {
                assert(t[k as int] == y);
            }
        }
        assert(t.to_set() =~= s.to_set().insert(x@));
    }
}

/// The distinct strings of `items`, sorted: what collecting into a `BTreeSet`, or a
/// `sort` followed by `dedup`, gives.
pub fn sorted_unique(items: &Vec<String>) -> (r: Vec<String>)
    ensures
        strictly_sorted(r.deep_view()),
        r.deep_view().to_set() == items.deep_view().to_set(),
{
    let mut r: Vec<String> = Vec::new();
    let mut i: usize = 0;
    while i < items.len()
        invariant
            i <= items.len(),
            strictly_sorted(r.deep_view()),
            r.deep_view().to_set() == items.deep_view().take(i as int).to_set(),
        decreases items.len() - i,
    {
        let x = items[i].clone();
        insert_sorted_unique(&mut r, x);
        proof {
            let d = items.deep_view();
            assert(d.take(i + 1) =~= d.take(i as int) + seq![d[i as int]]);
            Seq::<Seq<char>>::lemma_to_set_insert_commutes(d.take(i as int), d[i as int]);
        }
        i += 1;
    }
    assert(items.deep_view().take(items.len() as int) == items.deep_view());
    r
}

// ---------------------------------------------------------------------------
// Joining
// ---------------------------------------------------------------------------

/// `[String]::join(sep)`.
pub open spec fn join(list: Seq<Seq<char>>, sep: Seq<char>) -> Seq<char>
    decreases list.len(),
{
    if list.len() == 0 {
        seq![]
    } else if list.len() == 1 {
        list[0]
    } else {
        join(list.drop_last(), sep) + sep + list.last()
    }
}

/// Appends the strings of `list`, with `sep` between each two.
pub fn push_joined(out: &mut String, list: &Vec<String>, sep: &str)
    ensures
        final(out)@ == old(out)@ + join(list.deep_view(), sep@),
{
    let ghost d = list.deep_view();
    let mut i: usize = 0;
    while i < list.len()
        invariant
            i <= list.len(),
            d == list.deep_view(),
            out@ == old(out)@ + join(d.take(i as int), sep@),
        decreases list.len() - i,
    {
        proof {
            assert(d.take(i + 1).drop_last() == d.take(i as int));
            assert(d.take(i + 1).last() == list[i as int]@);
        }
        if i > 0 {
            push_str(out, sep);
        } else {
            assert(join(d.take(0), sep@) == Seq::<char>::empty());
        }
        push_str(out, list[i].as_str());
        i += 1;
    }
    assert(d.take(list.len() as int) == d);
}

// ---------------------------------------------------------------------------
// Searching
// ---------------------------------------------------------------------------

pub open spec fn matches_at(s: Seq<char>, pat: Seq<char>, i: int) -> bool {
    0 <= i && i + pat.len() <= s.len() && s.subrange(i, i + pat.len()) == pat
}

pub open spec fn is_first_match(s: Seq<char>, pat: Seq<char>, i: int) -> bool {
    matches_at(s, pat, i) && forall|j: int| 0 <= j < i ==> !matches_at(s, pat, j)
}

/// `str::find`: where the leftmost occurrence of `pat` starts.
pub open spec fn find(s: Seq<char>, pat: Seq<char>) -> Option<int> {
    if exists|i: int| is_first_match(s, pat, i) {
        Some(choose|i: int| is_first_match(s, pat, i))
    } else {
        None
    }
}

/// `str::split_once`: the text before and after the leftmost occurrence of `pat`.
pub open spec fn split_once(s: Seq<char>, pat: Seq<char>) -> Option<(Seq<char>, Seq<char>)> {
    match find(s, pat) {
        Some(i) => Some((s.take(i), s.skip(i + pat.len()))),
        None => None,
    }
}

/// `str::contains`.
pub open spec fn contains(s: Seq<char>, pat: Seq<char>) -> bool {
    find(s, pat) is Some
}

pub proof fn lemma_first_match_unique(s: Seq<char>, pat: Seq<char>, i: int)
    requires
        is_first_match(s, pat, i),
    ensures
        find(s, pat) == Some(i),
{
    let j = choose|j: int| is_first_match(s, pat, j);
    assert(is_first_match(s, pat, j));
    if j < i {
        assert(!matches_at(s, pat, j));
    } else if i < j {
        assert(!matches_at(s, pat, i));
    }
}

/// Whether `v[lo..hi]` equals `pat`.
pub fn chars_eq_at(v: &Vec<char>, lo: usize, hi: usize, pat: &Vec<char>) -> (r: bool)
    requires
        lo <= hi <= v.len(),
    ensures
        r == (v@.subrange(lo as int, hi as int) == pat@),
{
    if hi - lo != pat.len() {
        assert(v@.subrange(lo as int, hi as int).len() != pat@.len());
        return false;
    }
    let mut k: usize = 0;
    while k < pat.len()
        invariant
            lo <= hi <= v.len(),
            hi - lo == pat.len(),
            k <= pat.len(),
            forall|j: int| 0 <= j < k ==> v@[lo + j] == pat@[j],
        decreases pat.len() - k,
    {
        if v[lo + k] != pat[k] {
            assert(v@.subrange(lo as int, hi as int)[k as int] != pat@[k as int]);
            return false;
        }
        k += 1;
    }
    assert(v@.subrange(lo as int, hi as int) =~= pat@);
    true
}

/// Leftmost occurrence of `pat` in `v[from..to]`, as an index into `v`.
pub fn find_in(v: &Vec<char>, from: usize, to: usize, pat: &Vec<char>) -> (r: Option<usize>)
    requires
        from <= to <= v.len(),
    ensures
        match r {
            Some(i) => from <= i && i + pat.len() <= to && find(
                v@.subrange(from as int, to as int),
                pat@,
            ) == Some(i - from),
            None => find(v@.subrange(from as int, to as int), pat@) is None,
        },
{
    let ghost s = v@.subrange(from as int, to as int);
    if pat.len() > to - from {
        assert forall|i: int| !#[trigger] matches_at(s, pat@, i) by {}
        return None;
    }
    if pat.len() == 0 {
        assert(s.subrange(0, 0) =~= pat@);
        proof {
            lemma_first_match_unique(s, pat@, 0);
        }
        return Some(from);
    }
    let last = to - pat.len();
    let mut i = from;
    while i <= last
        invariant
            from <= i <= last + 1,
            last + pat.len() == to,
            to <= v.len(),
            pat.len() > 0,
            pat.len() <= to - from,
            s == v@.subrange(from as int, to as int),
            forall|j: int| 0 <= j < i - from ==> !#[trigger] matches_at(s, pat@, j),
        decreases to - i,
    {
        let hit = chars_eq_at(v, i, i + pat.len(), pat);
        proof {
            assert(s.subrange(i - from, i - from + pat.len()) == v@.subrange(
                i as int,
                i + pat.len(),
            ));
        }
        if hit {
            proof {
                lemma_first_match_unique(s, pat@, i - from);
            }
            return Some(i);
        }
        i += 1;
    }
    assert forall|j: int| !#[trigger] is_first_match(s, pat@, j) by {
        if 0 <= j < i - from {
        } else {
            assert(!matches_at(s, pat@, j));
        }
    }
    None
}

/// Whether `pat` is a prefix of `v[from..to]`.
pub fn starts_with_at(v: &Vec<char>, from: usize, to: usize, pat: &Vec<char>) -> (r: bool)
    requires
        from <= to <= v.len(),
    ensures
        r == pat@.is_prefix_of(v@.subrange(from as int, to as int)),
{
    if pat.len() > to - from {
        return false;
    }
    let r = chars_eq_at(v, from, from + pat.len(), pat);
    assert(v@.subrange(from as int, to as int).subrange(0, pat.len() as int) == v@.subrange(
        from as int,
        from + pat.len(),
    ));
    proof {
        if r {
            assert forall|j: int| 0 <= j < pat.len() implies pat@[j] == v@.subrange(
                from as int,
                to as int,
            )[j] by {
                assert(v@.subrange(from as int, from + pat.len())[j] == v@[from + j]);
            }
        } else {
            if pat@.is_prefix_of(v@.subrange(from as int, to as int)) {
                assert(v@.subrange(from as int, from + pat.len()) =~= pat@);
            }
        }
    }
    r
}

// ---------------------------------------------------------------------------
// ASCII case
// ---------------------------------------------------------------------------

/// `char::to_ascii_lowercase`.
pub open spec fn ascii_lower(c: char) -> char {
    if 'A' <= c && c <= 'Z' {
        ((c as u32) + 32) as char
    } else {
        c
    }
}

pub open spec fn ascii_lower_seq(s: Seq<char>) -> Seq<char> {
    s.map_values(|c: char| ascii_lower(c))
}

/// `char::to_ascii_lowercase`.
pub fn to_ascii_lower(c: char) -> (r: char)
    ensures
        r == ascii_lower(c),
{
    if 'A' <= c && c <= 'Z' {
        let x: u8 = (c as u32 + 32) as u8;
        x as char
    } else {
        c
    }
}

/// `v[lo..hi]` with ASCII letters lowered.
pub fn ascii_lower_range(v: &Vec<char>, lo: usize, hi: usize) -> (r: Vec<char>)
    requires
        lo <= hi <= v.len(),
    ensures
        r@ == ascii_lower_seq(v@.subrange(lo as int, hi as int)),
{
    let mut r: Vec<char> = Vec::new();
    let mut i = lo;
    while i < hi
        invariant
            lo <= i <= hi <= v.len(),
            r@ == ascii_lower_seq(v@.subrange(lo as int, i as int)),
        decreases hi - i,
    {
        r.push(to_ascii_lower(v[i]));
        assert(ascii_lower_seq(v@.subrange(lo as int, i + 1)) =~= ascii_lower_seq(
            v@.subrange(lo as int, i as int),
        ).push(ascii_lower(v@[i as int])));
        i += 1;
    }
    r
}

} // verus!
