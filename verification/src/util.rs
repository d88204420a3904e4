//! Text utilities: display width, truncation, wrapping, fuzzy matching,
//! fenced code block extraction and file name cleaning.
use vstd::prelude::*;

verus! {

// ---------------------------------------------------------------------------
// Characters and strings
// ---------------------------------------------------------------------------

/// The characters of `s`, in order.
pub(crate) fn chars_of(s: &str) -> (r: Vec<char>)
    ensures
        r@ == s@,
{
    let mut out: Vec<char> = Vec::new();
    for c in it: s.chars()
        invariant
            out@.len() == it.index(),
            forall|i: int| 0 <= i < it.index() ==> out@[i] == it.seq()[i],
    {
        out.push(c);
    }
    proof {
        vstd::string::axiom_spec_iter(s);
        assert(out@ =~= s@);
    }
    out
}

/// `String::push`: appends `c` to the string, as std documents.
#[verifier::external_body]
fn push_char(s: &mut String, c: char)
    ensures
        final(s)@ == old(s)@.push(c),
{
    s.push(c)
}

/// The string made of the characters `cs`, in order.
pub(crate) fn string_of(cs: &[char]) -> (r: String)
    ensures
        r@ == cs@,
{
    let mut out = String::new();
    let mut i: usize = 0;
    while i < cs.len()
        invariant
            0 <= i <= cs@.len(),
            out@ == cs@.take(i as int),
        decreases cs@.len() - i,
    {
        push_char(&mut out, cs[i]);
        assert(cs@.take(i + 1) =~= cs@.take(i as int).push(cs@[i as int]));
        i = i + 1;
    }
    assert(cs@.take(cs@.len() as int) =~= cs@);
    out
}

/// Whether two string slices hold the same characters.
pub(crate) fn str_eq(a: &str, b: &str) -> (r: bool)
    ensures
        r == (a@ == b@),
{
    let x = chars_of(a);
    let y = chars_of(b);
    if x.len() != y.len() {
        return false;
    }
    let mut i: usize = 0;
    while i < x.len()
        invariant
            0 <= i <= x@.len(),
            x@.len() == y@.len(),
            x@ == a@,
            y@ == b@,
            forall|k: int| 0 <= k < i ==> x@[k] == y@[k],
        decreases x@.len() - i,
    {
        if x[i] != y[i] {
            return false;
        }
        i = i + 1;
    }
    assert(x@ =~= y@);
    true
}

/// The Unicode `White_Space` property, which `char::is_whitespace` tests.
pub open spec fn is_ws(c: char) -> bool {
    let u: u32 = c as u32;
    ||| 0x09 <= u <= 0x0d
    ||| u == 0x20
    ||| u == 0x85
    ||| u == 0xa0
    ||| u == 0x1680
    ||| 0x2000 <= u <= 0x200a
    ||| u == 0x2028
    ||| u == 0x2029
    ||| u == 0x202f
    ||| u == 0x205f
    ||| u == 0x3000
}

/// Whether `c` is white space (as `char::is_whitespace`).
pub fn is_whitespace(c: char) -> (b: bool)
    ensures
        b == is_ws(c),
{
    let u: u32 = c as u32;
    (0x09 <= u && u <= 0x0d) || u == 0x20 || u == 0x85 || u == 0xa0 || u == 0x1680 || (0x2000
        <= u && u <= 0x200a) || u == 0x2028 || u == 0x2029 || u == 0x202f || u == 0x205f || u
        == 0x3000
}

/// Number of characters left after removing trailing white space.
pub open spec fn trim_end_len(s: Seq<char>) -> nat
    decreases s.len(),
{
    if s.len() > 0 && is_ws(s.last()) {
        trim_end_len(s.drop_last())
    } else {
        s.len()
    }
}

/// Number of leading white space characters.
pub open spec fn trim_start_len(s: Seq<char>) -> nat
    decreases s.len(),
{
    if s.len() > 0 && is_ws(s[0]) {
        1 + trim_start_len(s.drop_first())
    } else {
        0
    }
}

/// `s` without trailing white space (as `str::trim_end`).
pub open spec fn trim_end(s: Seq<char>) -> Seq<char> {
    s.take(trim_end_len(s) as int)
}

/// `s` without leading white space (as `str::trim_start`).
pub open spec fn trim_start(s: Seq<char>) -> Seq<char> {
    s.skip(trim_start_len(s) as int)
}

/// `s` without leading and trailing white space (as `str::trim`).
pub open spec fn trim(s: Seq<char>) -> Seq<char> {
    trim_end(trim_start(s))
}

proof fn lemma_trim_end_len_bound(s: Seq<char>)
    ensures
        trim_end_len(s) <= s.len(),
    decreases s.len(),
{
    if s.len() > 0 && is_ws(s.last()) {
        lemma_trim_end_len_bound(s.drop_last());
    }
}

proof fn lemma_trim_start_len_bound(s: Seq<char>)
    ensures
        trim_start_len(s) <= s.len(),
    decreases s.len(),
{
    if s.len() > 0 && is_ws(s[0]) {
        lemma_trim_start_len_bound(s.drop_first());
    }
}

/// The end of `cs[lo..hi]` once trailing white space is removed.
pub(crate) fn trim_end_index(cs: &[char], lo: usize, hi: usize) -> (e: usize)
    requires
        lo <= hi <= cs@.len(),
    ensures
        lo <= e <= hi,
        e - lo == trim_end_len(cs@.subrange(lo as int, hi as int)),
{
    let mut j: usize = hi;
    while j > lo && is_whitespace(cs[j - 1])
        invariant
            lo <= j <= hi <= cs@.len(),
            trim_end_len(cs@.subrange(lo as int, hi as int)) == trim_end_len(
                cs@.subrange(lo as int, j as int),
            ),
        decreases j,
    {
        assert(cs@.subrange(lo as int, j as int).drop_last() =~= cs@.subrange(
            lo as int,
            j - 1,
        ));
        j = j - 1;
    }
    proof {
        let t = cs@.subrange(lo as int, j as int);
        if j > lo {
            assert(t.last() == cs@[j - 1]);
        }
        assert(t.len() == j - lo);
    }
    j
}

/// The start of `cs[lo..hi]` once leading white space is removed.
pub(crate) fn trim_start_index(cs: &[char], lo: usize, hi: usize) -> (b: usize)
    requires
        lo <= hi <= cs@.len(),
    ensures
        lo <= b <= hi,
        b - lo == trim_start_len(cs@.subrange(lo as int, hi as int)),
{
    let mut j: usize = lo;
    while j < hi && is_whitespace(cs[j])
        invariant
            lo <= j <= hi <= cs@.len(),
            trim_start_len(cs@.subrange(lo as int, hi as int)) == (j - lo) + trim_start_len(
                cs@.subrange(j as int, hi as int),
            ),
        decreases hi - j,
    {
        assert(cs@.subrange(j as int, hi as int).drop_first() =~= cs@.subrange(
            j + 1,
            hi as int,
        ));
        assert(cs@.subrange(j as int, hi as int)[0] == cs@[j as int]);
        j = j + 1;
    }
    proof {
        let t = cs@.subrange(j as int, hi as int);
        if j < hi {
            assert(t[0] == cs@[j as int]);
        }
    }
    j
}

/// Trims `cs[lo..hi]` on both sides, returning the remaining range.
pub(crate) fn trim_range(cs: &[char], lo: usize, hi: usize) -> (r: (usize, usize))
    requires
        lo <= hi <= cs@.len(),
    ensures
        lo <= r.0 <= r.1 <= hi,
        cs@.subrange(r.0 as int, r.1 as int) == trim(cs@.subrange(lo as int, hi as int)),
{
    let b = trim_start_index(cs, lo, hi);
    let e = trim_end_index(cs, b, hi);
    proof {
        let t = cs@.subrange(lo as int, hi as int);
        assert(trim_start(t) =~= cs@.subrange(b as int, hi as int));
        assert(trim(t) =~= cs@.subrange(b as int, hi as int).take(e - b));
        assert(cs@.subrange(b as int, hi as int).take(e - b) =~= cs@.subrange(b as int, e as int));
    }
    (b, e)
}

/// The string `s` without leading and trailing white space.
pub fn trim_string(s: &str) -> (r: String)
    ensures
        r@ == trim(s@),
{
    let cs = chars_of(s);
    let (b, e) = trim_range(cs.as_slice(), 0, cs.len());
    proof {
        assert(cs@.subrange(0, cs@.len() as int) =~= cs@);
    }
    let out = slice_of(cs.as_slice(), b, e);
    string_of(out.as_slice())
}

/// A copy of `cs[lo..hi]`.
pub(crate) fn slice_of(cs: &[char], lo: usize, hi: usize) -> (r: Vec<char>)
    requires
        lo <= hi <= cs@.len(),
    ensures
        r@ == cs@.subrange(lo as int, hi as int),
{
    let mut r: Vec<char> = Vec::new();
    let mut i: usize = lo;
    while i < hi
        invariant
            lo <= i <= hi <= cs@.len(),
            r@ == cs@.subrange(lo as int, i as int),
        decreases hi - i,
    {
        r.push(cs[i]);
        i = i + 1;
        assert(r@ =~= cs@.subrange(lo as int, i as int));
    }
    r
}

/// Appends all of `src` to `dst`.
pub(crate) fn push_all(dst: &mut Vec<char>, src: &[char])
    ensures
        final(dst)@ == old(dst)@ + src@,
{
    let mut i: usize = 0;
    while i < src.len()
        invariant
            0 <= i <= src@.len(),
            dst@ == old(dst)@ + src@.take(i as int),
        decreases src@.len() - i,
    {
        dst.push(src[i]);
        i = i + 1;
        assert(dst@ =~= old(dst)@ + src@.take(i as int));
    }
    assert(src@.take(src@.len() as int) =~= src@);
}

/// Whether the two character slices are equal.
pub(crate) fn chars_eq(a: &[char], b: &[char]) -> (r: bool)
    ensures
        r == (a@ == b@),
{
    if a.len() != b.len() {
        return false;
    }
    let mut i: usize = 0;
    while i < a.len()
        invariant
            a@.len() == b@.len(),
            0 <= i <= a@.len(),
            forall|k: int| 0 <= k < i ==> a@[k] == b@[k],
        decreases a@.len() - i,
    {
        if a[i] != b[i] {
            return false;
        }
        i = i + 1;
    }
    assert(a@ =~= b@);
    true
}

/// Whether `p` is a prefix of `s`.
pub open spec fn is_prefix(p: Seq<char>, s: Seq<char>) -> bool {
    p.len() <= s.len() && s.take(p.len() as int) == p
}

/// Whether `cs[at..]` starts with `p`.
pub(crate) fn starts_with_at(cs: &[char], at: usize, p: &[char]) -> (r: bool)
    requires
        at <= cs@.len(),
    ensures
        r == is_prefix(p@, cs@.skip(at as int)),
{
    let n = cs.len();
    if p.len() > n - at {
        return false;
    }
    let mut i: usize = 0;
    while i < p.len()
        invariant
            n == cs@.len(),
            0 <= i <= p@.len(),
            at + p@.len() <= cs@.len(),
            forall|k: int| 0 <= k < i ==> cs@[at + k] == p@[k],
        decreases p@.len() - i,
    {
        if cs[at + i] != p[i] {
            assert(cs@.skip(at as int).take(p@.len() as int)[i as int] == cs@[at + i]);
            return false;
        }
        i = i + 1;
    }
    assert(cs@.skip(at as int).take(p@.len() as int) =~= p@);
    true
}

// ---------------------------------------------------------------------------
// Display width
// ---------------------------------------------------------------------------

/// What `unicode_width::UnicodeWidthChar::width` returns for `c`.
pub uninterp spec fn spec_char_width(c: char) -> Option<usize>;

/// What `unicode_width::UnicodeWidthStr::width` returns for a string.
pub uninterp spec fn spec_str_width(s: Seq<char>) -> usize;

/// `unicode_width::UnicodeWidthChar::width`: the column width of `c`, `None`
/// for a control character. Its source gives every printable ASCII character
/// one column, the C0 and C1 control ranges `None`, and no width above 3; the
/// table behind the other characters is not restated here.
#[verifier::external_body]
fn char_width(c: char) -> (w: Option<usize>)
    ensures
        w == spec_char_width(c),
        w matches Some(x) ==> x <= 3,
        (0x20 <= c as u32 && c as u32 <= 0x7e) ==> w == Some(1usize),
        (c as u32) < 0x20 || (0x7f <= c as u32 && (c as u32) < 0xa0) ==> w is None,
{
    unicode_width::UnicodeWidthChar::width(c)
}

/// `unicode_width::UnicodeWidthStr::width`: the column width of `s`. Grapheme
/// rules (emoji sequences, variation selectors) make it differ from the sum of
/// the characters' widths, so it is only named here.
#[verifier::external_body]
fn str_width(s: &str) -> (w: usize)
    ensures
        w == spec_str_width(s@),
{
    unicode_width::UnicodeWidthStr::width(s)
}

/// Columns taken by `c`, a control character counting as zero.
pub open spec fn cols(c: char) -> nat {
    match spec_char_width(c) {
        Some(w) => w as nat,
        None => 0,
    }
}

/// Sum of the columns of the characters of `s`.
pub open spec fn cols_sum(s: Seq<char>) -> nat
    decreases s.len(),
{
    if s.len() == 0 {
        0
    } else {
        cols_sum(s.drop_last()) + cols(s.last())
    }
}

/// The columns of `c`, zero for a control character.
pub(crate) fn char_cols(c: char) -> (w: usize)
    ensures
        w == cols(c),
        w <= 3,
{
    match char_width(c) {
        Some(w) => w,
        None => 0,
    }
}

/// Display width of a string (CJK and emoji take two columns).
pub fn display_width(s: &str) -> (w: usize)
    ensures
        w == spec_str_width(s@),
{
    str_width(s)
}

// ---------------------------------------------------------------------------
// Truncation
// ---------------------------------------------------------------------------

/// How many leading characters of `s` fit, one after the other, into `budget` columns.
pub open spec fn fit_len(s: Seq<char>, budget: int) -> nat
    decreases s.len(),
{
    if s.len() == 0 || cols(s[0]) > budget {
        0
    } else {
        1 + fit_len(s.drop_first(), budget - cols(s[0]))
    }
}

/// The result of `truncate_by_width`.
pub open spec fn truncated(s: Seq<char>, max: nat) -> Seq<char> {
    if max == 0 {
        Seq::empty()
    } else if spec_str_width(s) <= max {
        s
    } else {
        s.take(fit_len(s, max - 1) as int).push('\u{2026}')
    }
}

proof fn lemma_fit_len_bound(s: Seq<char>, budget: int)
    ensures
        fit_len(s, budget) <= s.len(),
    decreases s.len(),
{
    if s.len() > 0 && cols(s[0]) <= budget {
        lemma_fit_len_bound(s.drop_first(), budget - cols(s[0]));
    }
}

proof fn lemma_cols_sum_cons(c: char, t: Seq<char>)
    ensures
        cols_sum(seq![c] + t) == cols(c) + cols_sum(t),
    decreases t.len(),
{
    let u = seq![c] + t;
    if t.len() == 0 {
        assert(u =~= seq![c]);
        assert(u.drop_last() =~= Seq::<char>::empty());
        assert(cols_sum(Seq::<char>::empty()) == 0);
        assert(cols_sum(u) == cols_sum(u.drop_last()) + cols(u.last()));
        assert(u.last() == c);
    } else {
        lemma_cols_sum_cons(c, t.drop_last());
        assert(u.drop_last() =~= seq![c] + t.drop_last());
        assert(u.last() == t.last());
        assert(cols_sum(u) == cols_sum(u.drop_last()) + cols(u.last()));
        assert(cols_sum(t) == cols_sum(t.drop_last()) + cols(t.last()));
    }
}

proof fn lemma_fit_len_fits(s: Seq<char>, budget: int)
    requires
        budget >= 0,
    ensures
        fit_len(s, budget) <= s.len(),
        cols_sum(s.take(fit_len(s, budget) as int)) <= budget,
        fit_len(s, budget) < s.len() ==> cols_sum(s.take(fit_len(s, budget) + 1int)) > budget,
    decreases s.len(),
{
    lemma_fit_len_bound(s, budget);
    let n = fit_len(s, budget) as int;
    if s.len() == 0 {
        assert(s.take(0) =~= Seq::<char>::empty());
    } else if cols(s[0]) > budget {
        assert(s.take(0) =~= Seq::<char>::empty());
        assert(s.take(1) =~= seq![s[0]] + Seq::<char>::empty());
        lemma_cols_sum_cons(s[0], Seq::<char>::empty());
    } else {
        let t = s.drop_first();
        let b2 = budget - cols(s[0]);
        lemma_fit_len_fits(t, b2);
        assert(s.take(n) =~= seq![s[0]] + t.take(n - 1));
        lemma_cols_sum_cons(s[0], t.take(n - 1));
        if n < s.len() {
            assert(s.take(n + 1) =~= seq![s[0]] + t.take(n));
            lemma_cols_sum_cons(s[0], t.take(n));
        }
    }
}

/// What `truncate_by_width` gives: nothing for no columns; the text itself
/// when its width fits; otherwise the longest prefix that fits in one column
/// less (every longer prefix takes more), followed by `…`.
pub proof fn lemma_truncated_longest_fit(s: Seq<char>, max: nat)
    ensures
        max == 0 ==> truncated(s, max) == Seq::<char>::empty(),
        max > 0 && spec_str_width(s) <= max ==> truncated(s, max) == s,
        max > 0 && spec_str_width(s) > max ==> ({
            let n = fit_len(s, max - 1);
            &&& n <= s.len()
            &&& truncated(s, max) == s.take(n as int).push('\u{2026}')
            &&& cols_sum(s.take(n as int)) <= max - 1
            &&& forall|j: int| n < j <= s.len() ==> cols_sum(#[trigger] s.take(j)) > max - 1
        }),
{
    if max > 0 && spec_str_width(s) > max {
        let b = max - 1;
        lemma_fit_len_fits(s, b);
        let n = fit_len(s, b) as int;
        assert forall|j: int| n < j <= s.len() implies cols_sum(#[trigger] s.take(j)) > max - 1 by {
            lemma_cols_sum_prefix(s.take(j), n + 1);
            assert(s.take(j).take(n + 1) =~= s.take(n + 1));
        }
    }
}

/// Truncates `s` to `max` display columns; a shortened string ends in `…`.
pub fn truncate_by_width(s: &str, max: usize) -> (r: String)
    ensures
        r@ == truncated(s@, max as nat),
{
    if max == 0 {
        let e: Vec<char> = Vec::new();
        assert(e@ =~= Seq::<char>::empty());
        return string_of(e.as_slice());
    }
    if display_width(s) <= max {
        return string_of(chars_of(s).as_slice());
    }
    let cs = chars_of(s);
    let budget = max - 1;
    let mut out: Vec<char> = Vec::new();
    let mut w: usize = 0;
    let mut i: usize = 0;
    assert(cs@.skip(0) =~= cs@);
    while i < cs.len()
        invariant
            budget == max - 1,
            0 <= i <= cs@.len(),
            w <= budget,
            out@ == cs@.take(i as int),
            fit_len(cs@, budget as int) == i + fit_len(cs@.skip(i as int), budget - w),
        ensures
            out@ == cs@.take(i as int),
            fit_len(cs@, budget as int) == i,
        decreases cs@.len() - i,
    {
        let cw = char_cols(cs[i]);
        assert(cs@.skip(i as int)[0] == cs@[i as int]);
        if cw > budget - w {
            assert(fit_len(cs@.skip(i as int), budget - w) == 0);
            break;
        }
        assert(cs@.skip(i as int).drop_first() =~= cs@.skip(i + 1));
        out.push(cs[i]);
        w = w + cw;
        i = i + 1;
        assert(out@ =~= cs@.take(i as int));
    }
    out.push('\u{2026}');
    string_of(out.as_slice())
}


// ---------------------------------------------------------------------------
// Splitting
// ---------------------------------------------------------------------------

/// The pieces of `s` between the occurrences of `sep` (as `str::split` with a
/// `char` pattern); there is always at least one piece.
pub open spec fn split_char(s: Seq<char>, sep: char) -> Seq<Seq<char>>
    decreases s.len(),
{
    if s.len() == 0 {
        seq![Seq::empty()]
    } else {
        let prev = split_char(s.drop_last(), sep);
        if s.last() == sep {
            prev.push(Seq::empty())
        } else {
            prev.update(prev.len() - 1, prev.last().push(s.last()))
        }
    }
}

pub proof fn lemma_split_char_nonempty(s: Seq<char>, sep: char)
    ensures
        split_char(s, sep).len() >= 1,
    decreases s.len(),
{
    if s.len() > 0 {
        lemma_split_char_nonempty(s.drop_last(), sep);
    }
}

/// The pieces of `cs` between the occurrences of `sep`.
pub(crate) fn split_chars(cs: &[char], sep: char) -> (r: Vec<Vec<char>>)
    ensures
        r@.len() == split_char(cs@, sep).len(),
        forall|k: int| 0 <= k < r@.len() ==> #[trigger] r@[k]@ == split_char(cs@, sep)[k],
{
    let mut out: Vec<Vec<char>> = Vec::new();
    let mut cur: Vec<char> = Vec::new();
    let mut i: usize = 0;
    while i < cs.len()
        invariant
            0 <= i <= cs@.len(),
            out@.len() + 1 == split_char(cs@.take(i as int), sep).len(),
            forall|k: int| 0 <= k < out@.len() ==> #[trigger] out@[k]@ == split_char(cs@.take(i as int), sep)[k],
            cur@ == split_char(cs@.take(i as int), sep).last(),
        decreases cs@.len() - i,
    {
        proof {
            lemma_split_char_nonempty(cs@.take(i as int), sep);
            assert(cs@.take(i + 1).drop_last() =~= cs@.take(i as int));
            assert(cs@.take(i + 1).last() == cs@[i as int]);
        }
        if cs[i] == sep {
            out.push(cur);
            cur = Vec::new();
        } else {
            cur.push(cs[i]);
        }
        i = i + 1;
        proof {
            let t = split_char(cs@.take(i as int), sep);
            assert(forall|k: int| 0 <= k < out@.len() ==> #[trigger] out@[k]@ == t[k]);
        }
    }
    out.push(cur);
    assert(cs@.take(cs@.len() as int) =~= cs@);
    proof {
        lemma_split_char_nonempty(cs@, sep);
    }
    out
}

// ---------------------------------------------------------------------------
// Wrapping
// ---------------------------------------------------------------------------

/// The state of the greedy line breaker after some characters.
pub struct WrapAcc {
    pub segs: Seq<(Seq<char>, int, int)>,
    pub cur: Seq<char>,
    pub cur_w: int,
    pub start: int,
}

/// The greedy line breaker run over all of `line`: a character goes to a new
/// segment when it would take the current, non-empty-width segment past `width`.
pub open spec fn wrap_acc(line: Seq<char>, width: int) -> WrapAcc
    decreases line.len(),
{
    if line.len() == 0 {
        WrapAcc { segs: Seq::empty(), cur: Seq::empty(), cur_w: 0, start: 0 }
    } else {
        let prev = wrap_acc(line.drop_last(), width);
        let ch = line.last();
        let pos = line.len() - 1;
        let cw = cols(ch) as int;
        if prev.cur_w + cw > width && prev.cur_w > 0 {
            WrapAcc {
                segs: prev.segs.push((prev.cur, prev.start, pos)),
                cur: seq![ch],
                cur_w: cw,
                start: pos,
            }
        } else {
            WrapAcc {
                segs: prev.segs,
                cur: prev.cur.push(ch),
                cur_w: prev.cur_w + cw,
                start: prev.start,
            }
        }
    }
}

/// The segments of `wrap_segments`: text, index of its first character,
/// index after its last character.
pub open spec fn wrapped(line: Seq<char>, width: int) -> Seq<(Seq<char>, int, int)> {
    let w = if width < 1 {
        1
    } else {
        width
    };
    let a = wrap_acc(line, w);
    a.segs.push((a.cur, a.start, line.len() as int))
}

pub open spec fn seg_view(t: (Vec<char>, usize, usize)) -> (Seq<char>, int, int) {
    (t.0@, t.1 as int, t.2 as int)
}

pub open spec fn seg_string_view(t: (String, usize, usize)) -> (Seq<char>, int, int) {
    (t.0@, t.1 as int, t.2 as int)
}

proof fn lemma_wrap_acc_bounds(line: Seq<char>, width: int)
    requires
        width >= 1,
        forall|k: int| 0 <= k < line.len() ==> cols(#[trigger] line[k]) <= 3,
    ensures
        wrap_acc(line, width).cur_w >= 0,
        wrap_acc(line, width).cur_w <= width || wrap_acc(line, width).cur_w <= 3,
    decreases line.len(),
{
    if line.len() > 0 {
        lemma_wrap_acc_bounds(line.drop_last(), width);
    }
}

/// Greedy wrapping of the characters `line` into segments of at most `width` columns.
pub(crate) fn wrap_chars(line: &[char], width: usize) -> (r: Vec<(Vec<char>, usize, usize)>)
    ensures
        r@.map_values(|t: (Vec<char>, usize, usize)| seg_view(t)) == wrapped(line@, width as int),
{
    let width = if width < 1 {
        1
    } else {
        width
    };
    let mut out: Vec<(Vec<char>, usize, usize)> = Vec::new();
    let mut cur: Vec<char> = Vec::new();
    let mut cur_w: usize = 0;
    let mut start: usize = 0;
    let mut i: usize = 0;
    while i < line.len()
        invariant
            width >= 1,
            0 <= i <= line@.len(),
            forall|k: int| 0 <= k < i ==> cols(#[trigger] line@[k]) <= 3,
            ({
                let a = wrap_acc(line@.take(i as int), width as int);
                &&& out@.map_values(|t: (Vec<char>, usize, usize)| seg_view(t)) == a.segs
                &&& cur@ == a.cur
                &&& cur_w == a.cur_w
                &&& start == a.start
            }),
        decreases line@.len() - i,
    {
        let ch = line[i];
        let cw = char_cols(ch);
        proof {
            let t = line@.take(i + 1);
            assert(t.drop_last() =~= line@.take(i as int));
            assert(t.last() == ch);
            assert forall|k: int| 0 <= k < i implies cols(#[trigger] line@.take(i as int)[k]) <= 3 by {
                assert(line@.take(i as int)[k] == line@[k]);
            }
            lemma_wrap_acc_bounds(line@.take(i as int), width as int);
        }
        let exceed = if cur_w > width {
            true
        } else {
            cw > width - cur_w
        };
        if exceed && cur_w > 0 {
            let ghost old_out = out@;
            let ghost done = cur@;
            out.push((cur, start, i));
            cur = Vec::new();
            proof {
                assert(out@.map_values(|t: (Vec<char>, usize, usize)| seg_view(t)) =~= old_out.map_values(
                    |t: (Vec<char>, usize, usize)| seg_view(t),
                ).push((done, start as int, i as int)));
            }
            start = i;
            cur_w = 0;
        }
        cur.push(ch);
        cur_w = cur_w + cw;
        i = i + 1;
    }
    assert(line@.take(line@.len() as int) =~= line@);
    let ghost old_out = out@;
    out.push((cur, start, i));
    proof {
        assert(out@.map_values(|t: (Vec<char>, usize, usize)| seg_view(t)) =~= old_out.map_values(
            |t: (Vec<char>, usize, usize)| seg_view(t),
        ).push(seg_view((cur, start, i))));
    }
    out
}

/// Breaks one line into segments of at most `width` display columns (at
/// least one column). Each segment comes with the character indices, in
/// `line`, of its first character and of the character after its last; a
/// character wider than `width` gets a segment of its own.
pub fn wrap_segments(line: &str, width: usize) -> (r: Vec<(String, usize, usize)>)
    ensures
        r@.map_values(|t: (String, usize, usize)| seg_string_view(t)) == wrapped(line@, width as int),
{
    let cs = chars_of(line);
    let segs = wrap_chars(cs.as_slice(), width);
    let mut out: Vec<(String, usize, usize)> = Vec::new();
    let mut k: usize = 0;
    while k < segs.len()
        invariant
            0 <= k <= segs@.len(),
            out@.len() == k,
            forall|j: int| 0 <= j < k ==> #[trigger] seg_string_view(out@[j]) == seg_view(segs@[j]),
        decreases segs@.len() - k,
    {
        let s = string_of(segs[k].0.as_slice());
        out.push((s, segs[k].1, segs[k].2));
        k = k + 1;
    }
    proof {
        let a = out@.map_values(|t: (String, usize, usize)| seg_string_view(t));
        let b = segs@.map_values(|t: (Vec<char>, usize, usize)| seg_view(t));
        assert(a.len() == b.len());
        assert forall|j: int| 0 <= j < a.len() implies a[j] == b[j] by {
            assert(seg_string_view(out@[j]) == seg_view(segs@[j]));
        }
        assert(a =~= b);
    }
    out
}

/// The lines of `wrap_text` that come from one piece of the text.
pub open spec fn wrap_piece(piece: Seq<char>, width: int) -> Seq<Seq<char>> {
    wrapped(piece, width).map_values(|t: (Seq<char>, int, int)| trim_end(t.0))
}

/// The lines of `wrap_text` for the pieces `pieces`, in order.
pub open spec fn wrap_pieces(pieces: Seq<Seq<char>>, width: int) -> Seq<Seq<char>>
    decreases pieces.len(),
{
    if pieces.len() == 0 {
        Seq::empty()
    } else {
        wrap_pieces(pieces.drop_last(), width) + wrap_piece(pieces.last(), width)
    }
}

/// The result of `wrap_text`.
pub open spec fn wrapped_text(text: Seq<char>, width: int) -> Seq<Seq<char>> {
    let lines = wrap_pieces(split_char(text, '\n'), width);
    if lines.len() == 0 {
        seq![Seq::empty()]
    } else {
        lines
    }
}

/// Wraps multi-line text into display lines of at most `width` columns; each
/// line loses its trailing white space.
pub fn wrap_text(text: &str, width: usize) -> (r: Vec<String>)
    ensures
        r@.map_values(|s: String| s@) == wrapped_text(text@, width as int),
{
    let cs = chars_of(text);
    let pieces = split_chars(cs.as_slice(), '\n');
    let ghost ps = split_char(text@, '\n');
    let mut out: Vec<String> = Vec::new();
    let mut p: usize = 0;
    while p < pieces.len()
        invariant
            0 <= p <= pieces@.len(),
            pieces@.len() == ps.len(),
            ps == split_char(text@, '\n'),
            forall|k: int| 0 <= k < pieces@.len() ==> #[trigger] pieces@[k]@ == ps[k],
            out@.map_values(|s: String| s@) == wrap_pieces(ps.take(p as int), width as int),
        decreases pieces@.len() - p,
    {
        let segs = wrap_chars(pieces[p].as_slice(), width);
        let ghost before = out@.map_values(|s: String| s@);
        let ghost wp = wrap_piece(ps[p as int], width as int);
        proof {
            assert(segs@.map_values(|t: (Vec<char>, usize, usize)| seg_view(t)).len() == segs@.len());
        }
        let mut k: usize = 0;
        while k < segs.len()
            invariant
                0 <= k <= segs@.len(),
                segs@.map_values(|t: (Vec<char>, usize, usize)| seg_view(t)) == wrapped(ps[p as int], width as int),
                wp == wrap_piece(ps[p as int], width as int),
                out@.map_values(|s: String| s@) == before + wp.take(k as int),
            decreases segs@.len() - k,
        {
            let seg = &segs[k].0;
            let e = trim_end_index(seg.as_slice(), 0, seg.len());
            let t = slice_of(seg.as_slice(), 0, e);
            let ghost old_out = out@;
            out.push(string_of(t.as_slice()));
            proof {
                assert(seg@.subrange(0, seg@.len() as int) =~= seg@);
                assert(segs@.map_values(|t: (Vec<char>, usize, usize)| seg_view(t))[k as int] == seg_view(segs@[k as int]));
                assert(wp[k as int] == trim_end(seg@));
                assert(out@.map_values(|s: String| s@) =~= old_out.map_values(|s: String| s@).push(t@));
                assert(wp.take(k + 1) =~= wp.take(k as int).push(wp[k as int]));
            }
            k = k + 1;
        }
        proof {
            assert(wp.take(segs@.len() as int) =~= wp);
            assert(ps.take(p + 1).drop_last() =~= ps.take(p as int));
            assert(ps.take(p + 1).last() == ps[p as int]);
        }
        p = p + 1;
    }
    assert(ps.take(ps.len() as int) =~= ps);
    if out.len() == 0 {
        let e: Vec<char> = Vec::new();
        out.push(string_of(e.as_slice()));
        assert(out@.map_values(|s: String| s@) =~= seq![Seq::<char>::empty()]);
    }
    out
}


/// The wrapped lines of a text, as `wrap_text` gives them.
pub open spec fn wrapped_lines(text: Seq<char>, width: int) -> Seq<Seq<char>> {
    wrapped_text(text, width)
}

/// The texts of segments, one after the other.
pub open spec fn seg_concat(segs: Seq<(Seq<char>, int, int)>) -> Seq<char>
    decreases segs.len(),
{
    if segs.len() == 0 {
        Seq::empty()
    } else {
        seg_concat(segs.drop_last()) + segs.last().0
    }
}

/// A display line fits in `width` columns, or holds one character wider
/// than that (after characters that take no column).
pub open spec fn fits_or_single(l: Seq<char>, width: int) -> bool {
    cols_sum(l) <= width || cols_sum(l.drop_last()) == 0
}

proof fn lemma_cols_sum_push(s: Seq<char>, c: char)
    ensures
        cols_sum(s.push(c)) == cols_sum(s) + cols(c),
{
    assert(s.push(c).drop_last() =~= s);
}

proof fn lemma_cols_sum_prefix(s: Seq<char>, i: int)
    requires
        0 <= i <= s.len(),
    ensures
        cols_sum(s.take(i)) <= cols_sum(s),
    decreases s.len(),
{
    if i < s.len() {
        assert(s.drop_last().take(i) =~= s.take(i));
        lemma_cols_sum_prefix(s.drop_last(), i);
    } else {
        assert(s.take(i) =~= s);
    }
}

proof fn lemma_wrap_acc_laws(line: Seq<char>, width: int)
    requires
        width >= 1,
    ensures
        seg_concat(wrap_acc(line, width).segs) + wrap_acc(line, width).cur == line,
        wrap_acc(line, width).cur_w == cols_sum(wrap_acc(line, width).cur),
        fits_or_single(wrap_acc(line, width).cur, width),
        forall|k: int|
            0 <= k < wrap_acc(line, width).segs.len() ==> fits_or_single(
                #[trigger] wrap_acc(line, width).segs[k].0,
                width,
            ),
    decreases line.len(),
{
    let a = wrap_acc(line, width);
    if line.len() == 0 {
        assert(seg_concat(a.segs) + a.cur =~= line);
    } else {
        let prev = wrap_acc(line.drop_last(), width);
        lemma_wrap_acc_laws(line.drop_last(), width);
        let ch = line.last();
        let cw = cols(ch) as int;
        assert(line =~= line.drop_last().push(ch));
        if prev.cur_w + cw > width && prev.cur_w > 0 {
            let seg = (prev.cur, prev.start, line.len() - 1);
            assert(a.segs == prev.segs.push(seg));
            assert(a.segs.drop_last() =~= prev.segs);
            assert(seg_concat(a.segs) == seg_concat(prev.segs) + prev.cur);
            assert(seg_concat(a.segs) + a.cur =~= line);
            lemma_cols_sum_push(Seq::empty(), ch);
            assert(seq![ch] =~= Seq::<char>::empty().push(ch));
            assert(a.cur.drop_last() =~= Seq::<char>::empty());
            assert forall|k: int| 0 <= k < a.segs.len() implies fits_or_single(#[trigger] a.segs[k].0, width) by {
                if k < prev.segs.len() {
                    assert(a.segs[k] == prev.segs[k]);
                }
            }
        } else {
            assert(a.segs == prev.segs);
            assert(seg_concat(a.segs) + a.cur =~= line);
            lemma_cols_sum_push(prev.cur, ch);
            assert(a.cur.drop_last() =~= prev.cur);
        }
    }
}

/// The segments of `wrap_segments` give the line back, one after the other,
/// and each fits in the width (at least one column), unless it holds a single
/// character wider than that.
pub proof fn lemma_wrapped_keeps_text_and_fits(line: Seq<char>, width: int)
    ensures
        seg_concat(wrapped(line, width)) == line,
        forall|k: int|
            0 <= k < wrapped(line, width).len() ==> fits_or_single(
                #[trigger] wrapped(line, width)[k].0,
                if width < 1 { 1 } else { width },
            ),
{
    let w = if width < 1 { 1 } else { width };
    let a = wrap_acc(line, w);
    lemma_wrap_acc_laws(line, w);
    let r = wrapped(line, width);
    assert(r.drop_last() =~= a.segs);
    assert forall|k: int| 0 <= k < r.len() implies fits_or_single(#[trigger] r[k].0, w) by {
        if k < a.segs.len() {
            assert(r[k] == a.segs[k]);
        }
    }
}

/// A closed segment of `line`: its range, its characters, and why it was
/// closed (it has columns, and the next character would take it past `width`).
pub open spec fn seg_closed(line: Seq<char>, seg: (Seq<char>, int, int), width: int) -> bool {
    &&& 0 <= seg.1 <= seg.2 < line.len()
    &&& seg.0 == line.subrange(seg.1, seg.2)
    &&& cols_sum(seg.0) > 0
    &&& cols_sum(seg.0) + cols(line[seg.2]) > width
}

/// The shape of the line breaker's state after `line`.
pub open spec fn acc_shaped(line: Seq<char>, a: WrapAcc, width: int) -> bool {
    &&& 0 <= a.start <= line.len()
    &&& a.cur == line.subrange(a.start, line.len() as int)
    &&& a.segs.len() == 0 ==> a.start == 0
    &&& a.segs.len() > 0 ==> a.segs[0].1 == 0 && a.segs.last().2 == a.start
    &&& forall|k: int| 0 <= k < a.segs.len() - 1 ==> #[trigger] a.segs[k].2 == a.segs[k + 1].1
    &&& forall|k: int| 0 <= k < a.segs.len() ==> seg_closed(line, #[trigger] a.segs[k], width)
}

proof fn lemma_seg_closed_extend(lp: Seq<char>, ch: char, seg: (Seq<char>, int, int), width: int)
    requires
        seg_closed(lp, seg, width),
    ensures
        seg_closed(lp.push(ch), seg, width),
{
    assert(lp.subrange(seg.1, seg.2) =~= lp.push(ch).subrange(seg.1, seg.2));
    assert(lp.push(ch)[seg.2] == lp[seg.2]);
}

#[verifier::spinoff_prover]
#[verifier::rlimit(30)]
proof fn lemma_wrap_acc_shape(line: Seq<char>, width: int)
    requires
        width >= 1,
    ensures
        acc_shaped(line, wrap_acc(line, width), width),
    decreases line.len(),
{
    let a = wrap_acc(line, width);
    if line.len() == 0 {
        assert(a.cur =~= line.subrange(0, 0));
    } else {
        let lp = line.drop_last();
        let prev = wrap_acc(lp, width);
        lemma_wrap_acc_shape(lp, width);
        lemma_wrap_acc_laws(lp, width);
        let n = line.len() as int;
        let ch = line.last();
        let cw = cols(ch) as int;
        assert(line =~= lp.push(ch));
        assert forall|k: int| 0 <= k < prev.segs.len() implies seg_closed(line, #[trigger] prev.segs[k], width) by {
            lemma_seg_closed_extend(lp, ch, prev.segs[k], width);
        }
        if prev.cur_w + cw > width && prev.cur_w > 0 {
            let seg = (prev.cur, prev.start, n - 1);
            assert(a.segs == prev.segs.push(seg));
            assert(prev.cur =~= line.subrange(prev.start, n - 1));
            assert(line[n - 1] == ch);
            assert(seg_closed(line, seg, width));
            assert(a.cur =~= line.subrange(n - 1, n));
            assert forall|k: int| 0 <= k < a.segs.len() - 1 implies #[trigger] a.segs[k].2 == a.segs[k + 1].1 by {
                if k < prev.segs.len() - 1 {
                    assert(a.segs[k] == prev.segs[k]);
                    assert(a.segs[k + 1] == prev.segs[k + 1]);
                } else {
                    assert(a.segs[k] == prev.segs.last());
                }
            }
            assert forall|k: int| 0 <= k < a.segs.len() implies seg_closed(line, #[trigger] a.segs[k], width) by {
                if k < prev.segs.len() {
                    assert(a.segs[k] == prev.segs[k]);
                }
            }
        } else {
            assert(a.segs == prev.segs);
            assert(a.cur =~= line.subrange(prev.start, n));
        }
    }
}

/// The segments of `wrap_segments` cover the line one after the other: the
/// first starts at 0, each ends where the next starts, the last ends at the
/// line's end, and each holds the characters of its range. The breaking is
/// greedy: a segment is closed only when it has columns and the next
/// character would take it past the width (at least one column).
pub proof fn lemma_wrapped_shape(line: Seq<char>, width: int)
    ensures
        ({
            let r = wrapped(line, width);
            let w = if width < 1 { 1 } else { width };
            &&& r.len() > 0
            &&& r[0].1 == 0
            &&& r.last().2 == line.len()
            &&& forall|k: int| 0 <= k < r.len() ==> (#[trigger] r[k]).0 == line.subrange(r[k].1, r[k].2)
            &&& forall|k: int| 0 <= k < r.len() - 1 ==> {
                &&& #[trigger] r[k].2 == r[k + 1].1
                &&& cols_sum(r[k].0) > 0
                &&& cols_sum(r[k].0) + cols(line[r[k].2]) > w
            }
        }),
{
    let w = if width < 1 { 1 } else { width };
    let a = wrap_acc(line, w);
    lemma_wrap_acc_shape(line, w);
    let r = wrapped(line, width);
    assert(r == a.segs.push((a.cur, a.start, line.len() as int)));
    assert forall|k: int| 0 <= k < r.len() implies (#[trigger] r[k]).0 == line.subrange(r[k].1, r[k].2) by {
        if k < a.segs.len() {
            assert(r[k] == a.segs[k]);
            assert(seg_closed(line, a.segs[k], w));
        }
    }
    assert forall|k: int| 0 <= k < r.len() - 1 implies {
        &&& #[trigger] r[k].2 == r[k + 1].1
        &&& cols_sum(r[k].0) > 0
        &&& cols_sum(r[k].0) + cols(line[r[k].2]) > w
    } by {
        assert(r[k] == a.segs[k]);
        assert(seg_closed(line, a.segs[k], w));
        if k < a.segs.len() - 1 {
            assert(r[k + 1] == a.segs[k + 1]);
        }
    }
}

proof fn lemma_trim_end_fits(l: Seq<char>, width: int)
    requires
        width >= 1,
        fits_or_single(l, width),
    ensures
        fits_or_single(trim_end(l), width),
{
    lemma_trim_end_len_bound(l);
    let n = trim_end_len(l) as int;
    lemma_cols_sum_prefix(l, n);
    if n < l.len() {
        assert(l.drop_last().take(n) =~= l.take(n));
        lemma_cols_sum_prefix(l.drop_last(), n);
    } else {
        assert(l.take(n) =~= l);
    }
}

proof fn lemma_wrap_pieces_fit(pieces: Seq<Seq<char>>, width: int)
    ensures
        forall|k: int|
            0 <= k < wrap_pieces(pieces, width).len() ==> fits_or_single(
                #[trigger] wrap_pieces(pieces, width)[k],
                if width < 1 { 1 } else { width },
            ),
    decreases pieces.len(),
{
    let w = if width < 1 { 1 } else { width };
    if pieces.len() > 0 {
        lemma_wrap_pieces_fit(pieces.drop_last(), width);
        let prev = wrap_pieces(pieces.drop_last(), width);
        let segs = wrapped(pieces.last(), width);
        let add = wrap_piece(pieces.last(), width);
        lemma_wrapped_keeps_text_and_fits(pieces.last(), width);
        let all = wrap_pieces(pieces, width);
        assert forall|k: int| 0 <= k < all.len() implies fits_or_single(#[trigger] all[k], w) by {
            if k < prev.len() {
                assert(all[k] == prev[k]);
            } else {
                let j = k - prev.len();
                assert(all[k] == add[j]);
                assert(add[j] == trim_end(segs[j].0));
                assert(fits_or_single(segs[j].0, w));
                lemma_trim_end_fits(segs[j].0, w);
            }
        }
    }
}

/// Every line of `wrap_text` fits in the width (at least one column),
/// unless it holds a single character wider than that.
pub proof fn lemma_wrapped_text_fits(text: Seq<char>, width: int)
    ensures
        forall|k: int|
            0 <= k < wrapped_text(text, width).len() ==> fits_or_single(
                #[trigger] wrapped_text(text, width)[k],
                if width < 1 { 1 } else { width },
            ),
{
    lemma_wrap_pieces_fit(split_char(text, '\n'), width);
    let w = if width < 1 { 1 } else { width };
    assert(cols_sum(Seq::<char>::empty()) == 0);
    assert(fits_or_single(Seq::<char>::empty(), w));
}

/// Wraps a text into display lines of at most `width` columns (as
/// `wrap_text`), for texts of any length.
pub fn wrap_lines(text: &str, width: usize) -> (r: Vec<String>)
    ensures
        r@.map_values(|s: String| s@) == wrapped_lines(text@, width as int),
{
    wrap_text(text, width)
}

// ---------------------------------------------------------------------------
// Fuzzy matching
// ---------------------------------------------------------------------------

/// What `str::to_lowercase` returns for a string (Unicode case mapping,
/// context-dependent for the Greek final sigma).
pub uninterp spec fn spec_lowercase(s: Seq<char>) -> Seq<char>;

/// Whether every character of `s` is ASCII.
pub open spec fn is_ascii_text(s: Seq<char>) -> bool {
    forall|k: int| 0 <= k < s.len() ==> (#[trigger] s[k] as u32) < 128
}

/// The ASCII lowercase of a character: `A`-`Z` become `a`-`z`, the others stay.
pub open spec fn ascii_lower_char(c: char) -> char {
    if 'A' <= c && c <= 'Z' {
        ((c as u32) + 32) as char
    } else {
        c
    }
}

/// The ASCII lowercase of a text, character by character.
pub open spec fn ascii_lower(s: Seq<char>) -> Seq<char> {
    s.map_values(|c: char| ascii_lower_char(c))
}

/// The lowercase form of a text: for ASCII text its ASCII lowercase, else
/// what `str::to_lowercase` gives.
pub open spec fn lowered(s: Seq<char>) -> Seq<char> {
    if is_ascii_text(s) {
        ascii_lower(s)
    } else {
        spec_lowercase(s)
    }
}

/// `str::to_lowercase`: the Unicode lowercase form of `s`. On ASCII text it
/// maps `A`-`Z` to `a`-`z` and leaves every other character as it is, as
/// std documents (Unicode's lowercase mapping of ASCII).
#[verifier::external_body]
pub(crate) fn str_to_lowercase(s: &str) -> (r: String)
    ensures
        r@ == spec_lowercase(s@),
        is_ascii_text(s@) ==> r@ == ascii_lower(s@),
{
    s.to_lowercase()
}

/// The greedy subsequence match of `needle` in `hay`, scoring 3 for a
/// character matched right after the previous match and 1 otherwise; `prev`
/// tells whether the character just before `hay` was matched. `None` when
/// `needle` is not a subsequence of `hay`.
pub open spec fn fuzzy_spec(hay: Seq<char>, needle: Seq<char>, prev: bool) -> Option<int>
    decreases hay.len(),
{
    if needle.len() == 0 {
        Some(0)
    } else if hay.len() == 0 {
        None
    } else if hay[0] == needle[0] {
        match fuzzy_spec(hay.drop_first(), needle.drop_first(), true) {
            Some(s) => Some(
                s + if prev {
                    3int
                } else {
                    1int
                },
            ),
            None => None,
        }
    } else {
        fuzzy_spec(hay.drop_first(), needle, false)
    }
}

/// Whether `needle` occurs in `hay` as a subsequence.
pub open spec fn is_subsequence(needle: Seq<char>, hay: Seq<char>) -> bool
    decreases hay.len(),
{
    if needle.len() == 0 {
        true
    } else if hay.len() == 0 {
        false
    } else if hay[0] == needle[0] {
        is_subsequence(needle.drop_first(), hay.drop_first())
    } else {
        is_subsequence(needle, hay.drop_first())
    }
}

/// The longest lowered needle that `fuzzy_score` scores without overflow.
pub open spec fn fuzzy_needle_bound() -> int {
    700_000_000
}

/// The score of `fuzzy_spec` as an `i32`.
pub open spec fn fuzzy_i32(hay: Seq<char>, needle: Seq<char>) -> Option<i32> {
    match fuzzy_spec(hay, needle, false) {
        Some(s) => Some(s as i32),
        None => None,
    }
}

proof fn lemma_fuzzy_bound(hay: Seq<char>, needle: Seq<char>, prev: bool)
    ensures
        fuzzy_spec(hay, needle, prev) matches Some(s) ==> 0 <= s <= 3 * needle.len(),
    decreases hay.len(),
{
    if needle.len() > 0 && hay.len() > 0 {
        if hay[0] == needle[0] {
            lemma_fuzzy_bound(hay.drop_first(), needle.drop_first(), true);
        } else {
            lemma_fuzzy_bound(hay.drop_first(), needle, false);
        }
    }
}

proof fn lemma_fuzzy_range(hay: Seq<char>, needle: Seq<char>, prev: bool)
    requires
        needle.len() > 0,
    ensures
        fuzzy_spec(hay, needle, prev) matches Some(s) ==> needle.len() <= s <= 3 * needle.len() - if prev {
            0int
        } else {
            2int
        },
    decreases hay.len(),
{
    if hay.len() > 0 {
        if hay[0] == needle[0] {
            if needle.len() > 1 {
                lemma_fuzzy_range(hay.drop_first(), needle.drop_first(), true);
            }
        } else {
            lemma_fuzzy_range(hay.drop_first(), needle, false);
        }
    }
}

/// A fuzzy score lies between the lowered needle's length (every character
/// matched apart) and three times it less two (all matched in one run).
pub proof fn lemma_fuzzy_score_range(hay: Seq<char>, needle: Seq<char>)
    requires
        needle.len() > 0,
        lowered(needle).len() > 0,
    ensures
        fuzzy_result(hay, needle) matches Some(s) ==> lowered(needle).len() <= s <= 3 * lowered(
            needle,
        ).len() - 2,
{
    let n = lowered(needle);
    if n.len() <= fuzzy_needle_bound() {
        lemma_fuzzy_range(lowered(hay), n, false);
        if let Some(s) = fuzzy_spec(lowered(hay), n, false) {
            assert(s <= 3 * 700_000_000);
            assert(s as i32 == s);
        }
    }
}

/// The fuzzy score of `needle` in `hay`, both already lowered.
pub fn fuzzy_score_chars(hay: &[char], needle: &[char]) -> (r: Option<i32>)
    requires
        needle@.len() <= fuzzy_needle_bound(),
    ensures
        r == fuzzy_i32(hay@, needle@),
{
    let ghost h = hay@;
    let ghost n = needle@;
    let mut score: i32 = 0;
    let mut prev = false;
    let mut hi: usize = 0;
    let mut ni: usize = 0;
    assert(h.skip(0) =~= h);
    assert(n.skip(0) =~= n);
    while ni < needle.len()
        invariant
            h == hay@,
            n == needle@,
            n.len() <= fuzzy_needle_bound(),
            0 <= hi <= h.len(),
            0 <= ni <= n.len(),
            0 <= score <= 3 * ni,
            fuzzy_spec(h, n, false) == match fuzzy_spec(h.skip(hi as int), n.skip(ni as int), prev) {
                Some(s) => Some(s + score),
                None => None::<int>,
            },
        decreases n.len() - ni,
    {
        let c = needle[ni];
        let mut found = false;
        while hi < hay.len()
            invariant_except_break
                !found,
            invariant
                h == hay@,
                n == needle@,
                0 <= hi <= h.len(),
                0 <= ni < n.len(),
                c == n[ni as int],
                fuzzy_spec(h, n, false) == match fuzzy_spec(h.skip(hi as int), n.skip(ni as int), prev) {
                    Some(s) => Some(s + score),
                    None => None::<int>,
                },
            ensures
                0 <= hi <= h.len(),
                found ==> hi < h.len() && h[hi as int] == c,
                !found ==> hi == h.len(),
                fuzzy_spec(h, n, false) == match fuzzy_spec(h.skip(hi as int), n.skip(ni as int), prev) {
                    Some(s) => Some(s + score),
                    None => None::<int>,
                },
            decreases h.len() - hi,
        {
            assert(h.skip(hi as int)[0] == h[hi as int]);
            assert(n.skip(ni as int)[0] == n[ni as int]);
            if hay[hi] == c {
                found = true;
                break;
            }
            assert(h.skip(hi as int).drop_first() =~= h.skip(hi + 1));
            hi = hi + 1;
            prev = false;
        }
        if !found {
            assert(h.skip(hi as int).len() == 0);
            return None;
        }
        let hay_len = hay.len();
        assert(hi < hay_len);
        proof {
            assert(h.skip(hi as int)[0] == h[hi as int]);
            assert(n.skip(ni as int)[0] == n[ni as int]);
            assert(h.skip(hi as int).drop_first() =~= h.skip(hi + 1));
            assert(n.skip(ni as int).drop_first() =~= n.skip(ni + 1));
        }
        let inc: i32 = if prev {
            3
        } else {
            1
        };
        score = score + inc;
        prev = true;
        hi = hi + 1;
        ni = ni + 1;
    }
    assert(n.skip(ni as int).len() == 0);
    Some(score)
}

/// The result of `fuzzy_score`.
pub open spec fn fuzzy_result(hay: Seq<char>, needle: Seq<char>) -> Option<i32> {
    if needle.len() == 0 {
        Some(0i32)
    } else if lowered(needle).len() > fuzzy_needle_bound() {
        None
    } else {
        fuzzy_i32(lowered(hay), lowered(needle))
    }
}

/// Case-insensitive subsequence match of `needle` in `hay`: `None` when the
/// needle does not occur, else a score that is higher for consecutive matches.
/// A lowered needle longer than `fuzzy_needle_bound()` yields `None`, as its
/// score could not be held in an `i32`.
pub fn fuzzy_score(hay: &str, needle: &str) -> (r: Option<i32>)
    ensures
        needle@.len() == 0 ==> r == Some(0i32),
        needle@.len() != 0 && lowered(needle@).len() <= fuzzy_needle_bound() ==> r
            == fuzzy_i32(lowered(hay@), lowered(needle@)),
        needle@.len() != 0 && lowered(needle@).len() > fuzzy_needle_bound() ==> r is None,
        r == fuzzy_result(hay@, needle@),
{
    if needle.is_empty() {
        return Some(0);
    }
    let h = chars_of(str_to_lowercase(hay).as_str());
    let n = chars_of(str_to_lowercase(needle).as_str());
    if n.len() > 700_000_000 {
        return None;
    }
    fuzzy_score_chars(h.as_slice(), n.as_slice())
}

/// A successful match is exactly a subsequence occurrence.
pub proof fn lemma_fuzzy_some_iff_subsequence(hay: Seq<char>, needle: Seq<char>, prev: bool)
    ensures
        fuzzy_spec(hay, needle, prev) is Some <==> is_subsequence(needle, hay),
    decreases hay.len(),
{
    if needle.len() > 0 && hay.len() > 0 {
        if hay[0] == needle[0] {
            lemma_fuzzy_some_iff_subsequence(hay.drop_first(), needle.drop_first(), true);
        } else {
            lemma_fuzzy_some_iff_subsequence(hay.drop_first(), needle, false);
        }
    }
}

// ---------------------------------------------------------------------------
// Lines and fenced code blocks
// ---------------------------------------------------------------------------

/// `l` without one trailing carriage return.
pub open spec fn strip_cr(l: Seq<char>) -> Seq<char> {
    if l.len() > 0 && l.last() == '\r' {
        l.drop_last()
    } else {
        l
    }
}

/// The lines of `s` as `str::lines` gives them: split at `\n`, a `\r` before
/// the `\n` dropped, no empty line after a final `\n`.
pub open spec fn std_lines(s: Seq<char>) -> Seq<Seq<char>> {
    let p = split_char(s, '\n');
    let head = p.drop_last().map_values(|l: Seq<char>| strip_cr(l));
    if p.last().len() == 0 {
        head
    } else {
        head.push(p.last())
    }
}

/// The lines of the characters `cs` (as `str::lines`).
pub(crate) fn lines_of(cs: &[char]) -> (r: Vec<Vec<char>>)
    ensures
        r@.len() == std_lines(cs@).len(),
        forall|k: int| 0 <= k < r@.len() ==> #[trigger] r@[k]@ == std_lines(cs@)[k],
{
    let parts = split_chars(cs, '\n');
    let ghost p = split_char(cs@, '\n');
    proof {
        lemma_split_char_nonempty(cs@, '\n');
    }
    let mut out: Vec<Vec<char>> = Vec::new();
    let mut k: usize = 0;
    let last = parts.len() - 1;
    while k < last
        invariant
            last + 1 == parts@.len(),
            parts@.len() == p.len(),
            forall|j: int| 0 <= j < parts@.len() ==> #[trigger] parts@[j]@ == p[j],
            0 <= k <= last,
            out@.len() == k,
            forall|j: int| 0 <= j < k ==> #[trigger] out@[j]@ == strip_cr(p[j]),
        decreases last - k,
    {
        let l = &parts[k];
        let n = l.len();
        let v = if n > 0 && l[n - 1] == '\r' {
            slice_of(l.as_slice(), 0, n - 1)
        } else {
            slice_of(l.as_slice(), 0, n)
        };
        proof {
            assert(l@.subrange(0, n as int) =~= l@);
            if n > 0 {
                assert(l@.subrange(0, n - 1) =~= l@.drop_last());
            }
        }
        out.push(v);
        k = k + 1;
    }
    if parts[last].len() > 0 {
        let v = slice_of(parts[last].as_slice(), 0, parts[last].len());
        assert(parts[last as int]@.subrange(0, parts[last as int]@.len() as int) =~= parts[last as int]@);
        out.push(v);
    }
    proof {
        let head = p.drop_last().map_values(|l: Seq<char>| strip_cr(l));
        assert(head.len() == last);
        assert forall|j: int| 0 <= j < last implies #[trigger] head[j] == strip_cr(p[j]) by {}
    }
    out
}

/// How many leading characters of `s` are backticks or tildes.
pub open spec fn fence_run(s: Seq<char>) -> nat
    decreases s.len(),
{
    if s.len() > 0 && (s[0] == '`' || s[0] == '~') {
        1 + fence_run(s.drop_first())
    } else {
        0
    }
}

/// Whether `t` opens with three backticks or three tildes.
pub open spec fn is_fence_line(t: Seq<char>) -> bool {
    t.len() >= 3 && ((t[0] == '`' && t[1] == '`' && t[2] == '`') || (t[0] == '~' && t[1] == '~'
        && t[2] == '~'))
}

/// The scanner state of `extract_last_code_block`.
pub struct FenceAcc {
    pub blocks: Seq<Seq<char>>,
    pub in_block: bool,
    pub cur: Seq<char>,
    pub fence_len: nat,
}

/// One line through the scanner: a fence line opens a block, closes it when
/// it is at least as long as the opening fence, and is content otherwise.
pub open spec fn fence_step(a: FenceAcc, line: Seq<char>) -> FenceAcc {
    let t = trim_start(line);
    if is_fence_line(t) {
        let fl = fence_run(t);
        if !a.in_block {
            FenceAcc { blocks: a.blocks, in_block: true, cur: Seq::empty(), fence_len: fl }
        } else if fl >= a.fence_len {
            FenceAcc { blocks: a.blocks.push(a.cur), in_block: false, cur: Seq::empty(), fence_len: 3 }
        } else {
            FenceAcc { cur: a.cur + line.push('\n'), ..a }
        }
    } else if a.in_block {
        FenceAcc { cur: a.cur + line.push('\n'), ..a }
    } else {
        a
    }
}

/// The scanner run over `lines`.
pub open spec fn fence_scan(lines: Seq<Seq<char>>) -> FenceAcc
    decreases lines.len(),
{
    if lines.len() == 0 {
        FenceAcc { blocks: Seq::empty(), in_block: false, cur: Seq::empty(), fence_len: 3 }
    } else {
        fence_step(fence_scan(lines.drop_last()), lines.last())
    }
}

/// White space put before `l` is skipped with the white space of `l`.
proof fn lemma_trim_start_ws_prefix(p: Seq<char>, l: Seq<char>)
    requires
        forall|i: int| 0 <= i < p.len() ==> is_ws(#[trigger] p[i]),
    ensures
        trim_start_len(p + l) == p.len() + trim_start_len(l),
        trim_start(p + l) == trim_start(l),
    decreases p.len(),
{
    if p.len() > 0 {
        assert((p + l)[0] == p[0]);
        assert((p + l).drop_first() =~= p.drop_first() + l);
        lemma_trim_start_ws_prefix(p.drop_first(), l);
    }
    lemma_trim_start_len_bound(l);
    assert((p + l).skip((p.len() + trim_start_len(l)) as int) =~= l.skip(trim_start_len(l) as int));
}

/// Each of `lines` with `p` put before it.
pub open spec fn prefixed(p: Seq<char>, lines: Seq<Seq<char>>) -> Seq<Seq<char>> {
    lines.map_values(|l: Seq<char>| p + l)
}

/// `s` with `p` put at the start of each of its lines (after each `\n`,
/// and at the very start).
pub open spec fn indent_lines(p: Seq<char>, s: Seq<char>) -> Seq<char>
    decreases s.len(),
{
    if s.len() == 0 {
        p
    } else if s.last() == '\n' {
        indent_lines(p, s.drop_last()).push('\n') + p
    } else {
        indent_lines(p, s.drop_last()).push(s.last())
    }
}

/// Fences are recognised after leading white space: putting the same white
/// space before every line changes neither which lines open and close code
/// blocks nor how many blocks are found, nor whether one is left open.
pub proof fn lemma_fences_ignore_indent(lines: Seq<Seq<char>>, p: Seq<char>)
    requires
        forall|i: int| 0 <= i < p.len() ==> is_ws(#[trigger] p[i]),
    ensures
        ({
            let a = fence_scan(lines);
            let b = fence_scan(prefixed(p, lines));
            &&& b.blocks.len() == a.blocks.len()
            &&& b.in_block == a.in_block
            &&& b.fence_len == a.fence_len
        }),
    decreases lines.len(),
{
    let ind = prefixed(p, lines);
    if lines.len() > 0 {
        assert(ind.drop_last() =~= prefixed(p, lines.drop_last()));
        lemma_fences_ignore_indent(lines.drop_last(), p);
        lemma_trim_start_ws_prefix(p, lines.last());
        assert(ind.last() == p + lines.last());
    }
}

/// Text without a separator added at the end of `a` goes onto its last piece.
proof fn lemma_split_append_plain(a: Seq<char>, b: Seq<char>, sep: char)
    requires
        forall|i: int| 0 <= i < b.len() ==> #[trigger] b[i] != sep,
    ensures
        split_char(a + b, sep) == split_char(a, sep).update(
            split_char(a, sep).len() - 1,
            split_char(a, sep).last() + b,
        ),
    decreases b.len(),
{
    lemma_split_char_nonempty(a, sep);
    let sa = split_char(a, sep);
    if b.len() == 0 {
        assert(a + b =~= a);
        assert(sa.last() + b =~= sa.last());
        assert(sa.update(sa.len() - 1, sa.last() + b) =~= sa);
    } else {
        assert((a + b).drop_last() =~= a + b.drop_last());
        assert((a + b).last() == b.last());
        lemma_split_append_plain(a, b.drop_last(), sep);
        assert((sa.last() + b.drop_last()).push(b.last()) =~= sa.last() + b);
        let prev = sa.update(sa.len() - 1, sa.last() + b.drop_last());
        assert(prev.update(prev.len() - 1, prev.last().push(b.last())) =~= sa.update(
            sa.len() - 1,
            sa.last() + b,
        ));
    }
}

/// The pieces of an indented text are the pieces of the text, indented.
proof fn lemma_split_indent_lines(p: Seq<char>, s: Seq<char>)
    requires
        forall|i: int| 0 <= i < p.len() ==> #[trigger] p[i] != '\n',
    ensures
        split_char(indent_lines(p, s), '\n') == prefixed(p, split_char(s, '\n')),
    decreases s.len(),
{
    if s.len() == 0 {
        lemma_split_append_plain(Seq::empty(), p, '\n');
        assert(Seq::<char>::empty() + p =~= p);
        assert(Seq::<char>::empty() + p =~= p + Seq::<char>::empty());
        assert(seq![Seq::<char>::empty()].update(0, Seq::<char>::empty() + p) =~= prefixed(
            p,
            seq![Seq::<char>::empty()],
        ));
    } else {
        let x = indent_lines(p, s.drop_last());
        lemma_split_indent_lines(p, s.drop_last());
        lemma_split_char_nonempty(s.drop_last(), '\n');
        lemma_split_char_nonempty(x, '\n');
        let prev = split_char(s.drop_last(), '\n');
        if s.last() == '\n' {
            let xn = x.push('\n');
            assert(xn.drop_last() =~= x);
            lemma_split_append_plain(xn, p, '\n');
            let sx = split_char(xn, '\n');
            assert(sx =~= split_char(x, '\n').push(Seq::empty()));
            assert(Seq::<char>::empty() + p =~= p + Seq::<char>::empty());
            assert(sx.update(sx.len() - 1, sx.last() + p) =~= prefixed(p, prev.push(Seq::empty())));
        } else {
            let c = s.last();
            assert(x.push(c).drop_last() =~= x);
            assert((p + prev.last()).push(c) =~= p + prev.last().push(c));
            assert(prefixed(p, prev).update(prev.len() - 1, prefixed(p, prev).last().push(c)) =~= prefixed(
                p,
                prev.update(prev.len() - 1, prev.last().push(c)),
            ));
        }
    }
}

/// The lines of a text with spaces put before each line: its lines with the
/// spaces before each, and, where the text ends with a line break, one more
/// line of the spaces alone.
proof fn lemma_std_lines_indent(p: Seq<char>, s: Seq<char>)
    requires
        p.len() > 0,
        forall|i: int| 0 <= i < p.len() ==> #[trigger] p[i] == ' ',
    ensures
        split_char(s, '\n').last().len() == 0 ==> std_lines(indent_lines(p, s)) == prefixed(p, std_lines(s)).push(p),
        split_char(s, '\n').last().len() > 0 ==> std_lines(indent_lines(p, s)) == prefixed(p, std_lines(s)),
{
    lemma_split_indent_lines(p, s);
    lemma_split_char_nonempty(s, '\n');
    let parts = split_char(s, '\n');
    let ip = prefixed(p, parts);
    assert forall|l: Seq<char>| strip_cr(p + l) == p + strip_cr(l) by {
        if l.len() > 0 {
            assert((p + l).last() == l.last());
            assert((p + l).drop_last() =~= p + l.drop_last());
        } else {
            assert(p + l =~= p);
            assert((p + l).last() == ' ');
        }
    }
    let head = parts.drop_last().map_values(|l: Seq<char>| strip_cr(l));
    let ihead = ip.drop_last().map_values(|l: Seq<char>| strip_cr(l));
    assert(ihead =~= prefixed(p, head));
    assert(ip.last() == p + parts.last());
    if parts.last().len() == 0 {
        assert(p + parts.last() =~= p);
    } else {
        assert(prefixed(p, head.push(parts.last())) =~= prefixed(p, head).push(p + parts.last()));
    }
}

/// A line of spaces alone opens, closes and counts no code block.
proof fn lemma_blank_line_no_fence(a: FenceAcc, p: Seq<char>)
    requires
        forall|i: int| 0 <= i < p.len() ==> #[trigger] p[i] == ' ',
    ensures
        fence_step(a, p).blocks == a.blocks,
        fence_step(a, p).in_block == a.in_block,
        fence_step(a, p).fence_len == a.fence_len,
{
    lemma_trim_start_ws_prefix(p, Seq::empty());
    assert(p + Seq::<char>::empty() =~= p);
    assert(trim_start_len(Seq::<char>::empty()) == 0);
    assert(trim_start(Seq::<char>::empty()) =~= Seq::<char>::empty());
}

/// Whether a reply has a fenced code block does not change when the same
/// spaces are put at the start of each of its lines: fences are recognised
/// after leading white space, as inside list items.
pub proof fn lemma_code_block_found_ignores_indent(s: Seq<char>, p: Seq<char>)
    requires
        forall|i: int| 0 <= i < p.len() ==> #[trigger] p[i] == ' ',
    ensures
        last_code_block(indent_lines(p, s)) is Some <==> last_code_block(s) is Some,
        fence_scan(std_lines(indent_lines(p, s))).blocks.len() == fence_scan(std_lines(s)).blocks.len(),
{
    assert forall|i: int| 0 <= i < p.len() implies is_ws(#[trigger] p[i]) by {
        assert(p[i] == ' ');
    }
    if p.len() == 0 {
        assert(p =~= Seq::<char>::empty());
        lemma_indent_lines_empty(s);
    } else {
        lemma_std_lines_indent(p, s);
        lemma_fences_ignore_indent(std_lines(s), p);
        let l = prefixed(p, std_lines(s));
        lemma_split_char_nonempty(s, '\n');
        if split_char(s, '\n').last().len() == 0 {
            assert(l.push(p).drop_last() =~= l);
            lemma_blank_line_no_fence(fence_scan(l), p);
        }
    }
}

/// Putting nothing before each line leaves a text as it is.
proof fn lemma_indent_lines_empty(s: Seq<char>)
    ensures
        indent_lines(Seq::empty(), s) == s,
    decreases s.len(),
{
    if s.len() > 0 {
        lemma_indent_lines_empty(s.drop_last());
        if s.last() == '\n' {
            assert(s.drop_last().push('\n') + Seq::<char>::empty() =~= s);
        } else {
            assert(s.drop_last().push(s.last()) =~= s);
        }
    }
}

/// The result of `extract_last_code_block`.
pub open spec fn last_code_block(text: Seq<char>) -> Option<Seq<char>> {
    let b = fence_scan(std_lines(text)).blocks;
    if b.len() == 0 {
        None
    } else {
        Some(trim_end(b.last()))
    }
}

/// Number of leading backticks and tildes of `cs[lo..]`.
fn fence_run_at(cs: &[char], lo: usize) -> (n: usize)
    requires
        lo <= cs@.len(),
    ensures
        n == fence_run(cs@.skip(lo as int)),
        lo + n <= cs@.len(),
{
    let mut j: usize = lo;
    while j < cs.len() && (cs[j] == '`' || cs[j] == '~')
        invariant
            lo <= j <= cs@.len(),
            fence_run(cs@.skip(lo as int)) == (j - lo) + fence_run(cs@.skip(j as int)),
        decreases cs@.len() - j,
    {
        assert(cs@.skip(j as int)[0] == cs@[j as int]);
        assert(cs@.skip(j as int).drop_first() =~= cs@.skip(j + 1));
        j = j + 1;
    }
    if j < cs.len() {
        assert(cs@.skip(j as int)[0] == cs@[j as int]);
    }
    j - lo
}

/// The content of the last fenced code block (``` or ~~~) of `text`,
/// without trailing white space; `None` when no block is closed.
#[verifier::spinoff_prover]
#[verifier::rlimit(40)]
pub fn extract_last_code_block(text: &str) -> (r: Option<String>)
    ensures
        match last_code_block(text@) {
            Some(b) => r matches Some(s) && s@ == b,
            None => r is None,
        },
{
    let cs = chars_of(text);
    let lines = lines_of(cs.as_slice());
    let ghost ls = std_lines(text@);
    let mut blocks: Vec<Vec<char>> = Vec::new();
    let mut in_block = false;
    let mut cur: Vec<char> = Vec::new();
    let mut fence_len: usize = 3;
    let mut k: usize = 0;
    while k < lines.len()
        invariant
            lines@.len() == ls.len(),
            forall|j: int| 0 <= j < lines@.len() ==> #[trigger] lines@[j]@ == ls[j],
            0 <= k <= lines@.len(),
            ({
                let a = fence_scan(ls.take(k as int));
                &&& blocks@.len() == a.blocks.len()
                &&& forall|j: int| 0 <= j < blocks@.len() ==> #[trigger] blocks@[j]@ == a.blocks[j]
                &&& in_block == a.in_block
                &&& cur@ == a.cur
                &&& fence_len == a.fence_len
            }),
        decreases lines@.len() - k,
    {
        let line = &lines[k];
        proof {
            assert(ls.take(k + 1).drop_last() =~= ls.take(k as int));
            assert(ls.take(k + 1).last() == ls[k as int]);
        }
        let b = trim_start_index(line.as_slice(), 0, line.len());
        proof {
            assert(line@.subrange(0, line@.len() as int) =~= line@);
            assert(line@.subrange(b as int, line@.len() as int) =~= line@.skip(b as int));
        }
        let n = line.len();
        let is_fence = n - b >= 3 && ((line[b] == '`' && line[b + 1] == '`' && line[b + 2] == '`')
            || (line[b] == '~' && line[b + 1] == '~' && line[b + 2] == '~'));
        let ghost a = fence_scan(ls.take(k as int));
        if is_fence {
            let fl = fence_run_at(line.as_slice(), b);
            if !in_block {
                in_block = true;
                fence_len = fl;
                cur = Vec::new();
            } else if fl >= fence_len {
                in_block = false;
                fence_len = 3;
                blocks.push(cur);
                cur = Vec::new();
            } else {
                push_all(&mut cur, line.as_slice());
                cur.push('\n');
            }
        } else if in_block {
            push_all(&mut cur, line.as_slice());
            cur.push('\n');
        }
        proof {
            let t = trim_start(ls[k as int]);
            assert(t =~= line@.skip(b as int));
            assert(is_fence == is_fence_line(t));
            let a2 = fence_scan(ls.take(k + 1));
            assert(a2 == fence_step(a, ls[k as int]));
            assert(cur@ == a2.cur) by {
                if !is_fence && in_block {
                    assert(a.cur + line@.push('\n') =~= cur@);
                }
                if is_fence && a.in_block {
                    assert(a.cur + line@.push('\n') =~= a.cur + line@.push('\n'));
                }
            }
        }
        k = k + 1;
    }
    assert(ls.take(ls.len() as int) =~= ls);
    if blocks.len() == 0 {
        return None;
    }
    let last = &blocks[blocks.len() - 1];
    let e = trim_end_index(last.as_slice(), 0, last.len());
    proof {
        assert(last@.subrange(0, last@.len() as int) =~= last@);
    }
    let v = slice_of(last.as_slice(), 0, e);
    Some(string_of(v.as_slice()))
}

// ---------------------------------------------------------------------------
// File names, proxies, time
// ---------------------------------------------------------------------------

/// A path-unsafe character, replaced by a space in file names.
pub open spec fn is_path_unsafe(c: char) -> bool {
    c == '/' || c == '\\' || c == ':' || c == '*' || c == '?' || c == '"' || c == '<' || c == '>'
        || c == '|'
}

/// The result of `sanitize_filename`.
pub open spec fn sanitized(s: Seq<char>) -> Seq<char> {
    let cleaned = s.map_values(|c: char| if is_path_unsafe(c) { ' ' } else { c });
    trim(cleaned).map_values(|c: char| if c == ' ' { '-' } else { c })
}

proof fn lemma_trim_start_first(s: Seq<char>)
    ensures
        trim_start_len(s) <= s.len(),
        trim_start_len(s) < s.len() ==> !is_ws(s[trim_start_len(s) as int]),
    decreases s.len(),
{
    if s.len() > 0 && is_ws(s[0]) {
        lemma_trim_start_first(s.drop_first());
        let a = trim_start_len(s.drop_first());
        if a < s.len() - 1 {
            assert(s[a + 1int] == s.drop_first()[a as int]);
        }
    }
}

proof fn lemma_trim_end_last(s: Seq<char>)
    ensures
        trim_end_len(s) <= s.len(),
        trim_end_len(s) > 0 ==> !is_ws(s[trim_end_len(s) - 1]),
    decreases s.len(),
{
    if s.len() > 0 && is_ws(s.last()) {
        lemma_trim_end_last(s.drop_last());
    }
}

/// The trimmed text is a stretch of the text, and neither starts nor ends
/// with white space.
proof fn lemma_trim_shape(s: Seq<char>)
    ensures
        trim(s) == s.subrange(
            trim_start_len(s) as int,
            (trim_start_len(s) + trim_end_len(trim_start(s))) as int,
        ),
        trim_start_len(s) + trim_end_len(trim_start(s)) <= s.len(),
        trim(s).len() > 0 ==> !is_ws(trim(s)[0]) && !is_ws(trim(s).last()),
{
    lemma_trim_start_first(s);
    let a = trim_start_len(s) as int;
    let t = trim_start(s);
    lemma_trim_end_last(t);
    let e = trim_end_len(t) as int;
    assert(trim(s) =~= s.subrange(a, a + e));
    if e > 0 {
        assert(trim(s)[0] == s[a]);
        assert(trim(s).last() == t[e - 1]);
    }
}

/// A text that neither starts nor ends with white space is its own trim.
pub(crate) proof fn lemma_trim_untouched(s: Seq<char>)
    requires
        s.len() > 0 ==> !is_ws(s[0]) && !is_ws(s.last()),
    ensures
        trim(s) == s,
{
    assert(trim_start(s) =~= s);
    assert(s.take(s.len() as int) =~= s);
}

/// What `sanitize_filename` gives is safe and settled: it holds no
/// path-unsafe character and no space, neither starts nor ends with white
/// space, and sanitizing it again changes nothing.
pub proof fn lemma_sanitized_is_safe(s: Seq<char>)
    ensures
        forall|k: int| 0 <= k < sanitized(s).len() ==> !is_path_unsafe(#[trigger] sanitized(s)[k]) && sanitized(s)[k] != ' ',
        sanitized(s).len() > 0 ==> !is_ws(sanitized(s)[0]) && !is_ws(sanitized(s).last()),
        sanitized(sanitized(s)) == sanitized(s),
{
    let cleaned = s.map_values(|c: char| if is_path_unsafe(c) { ' ' } else { c });
    let t = trim(cleaned);
    let r = sanitized(s);
    lemma_trim_shape(cleaned);
    let a = trim_start_len(cleaned) as int;
    assert forall|k: int| 0 <= k < r.len() implies !is_path_unsafe(#[trigger] r[k]) && r[k] != ' ' by {
        assert(t[k] == cleaned[a + k]);
    }
    if r.len() > 0 {
        assert(r[0] == if t[0] == ' ' { '-' } else { t[0] });
        assert(r.last() == if t.last() == ' ' { '-' } else { t.last() });
    }
    let c2 = r.map_values(|c: char| if is_path_unsafe(c) { ' ' } else { c });
    assert(c2 =~= r);
    lemma_trim_untouched(r);
    assert(r.map_values(|c: char| if c == ' ' { '-' } else { c }) =~= r);
}

/// Makes `s` safe as a file name: path-unsafe characters become spaces, the
/// ends are trimmed, and the remaining spaces become `-`.
pub fn sanitize_filename(s: &str) -> (r: String)
    ensures
        r@ == sanitized(s@),
{
    let cs = chars_of(s);
    let mut cleaned: Vec<char> = Vec::new();
    let mut i: usize = 0;
    while i < cs.len()
        invariant
            0 <= i <= cs@.len(),
            cleaned@ == cs@.take(i as int).map_values(|c: char| if is_path_unsafe(c) { ' ' } else { c }),
        decreases cs@.len() - i,
    {
        let c = cs[i];
        let d = if c == '/' || c == '\\' || c == ':' || c == '*' || c == '?' || c == '"' || c == '<'
            || c == '>' || c == '|' {
            ' '
        } else {
            c
        };
        cleaned.push(d);
        i = i + 1;
        assert(cleaned@ =~= cs@.take(i as int).map_values(|c: char| if is_path_unsafe(c) { ' ' } else { c }));
    }
    assert(cs@.take(cs@.len() as int) =~= cs@);
    let (b, e) = trim_range(cleaned.as_slice(), 0, cleaned.len());
    assert(cleaned@.subrange(0, cleaned@.len() as int) =~= cleaned@);
    let mut out: Vec<char> = Vec::new();
    let mut j: usize = b;
    while j < e
        invariant
            b <= j <= e <= cleaned@.len(),
            out@ == cleaned@.subrange(b as int, j as int).map_values(|c: char| if c == ' ' { '-' } else { c }),
        decreases e - j,
    {
        let c = cleaned[j];
        out.push(if c == ' ' { '-' } else { c });
        j = j + 1;
        assert(out@ =~= cleaned@.subrange(b as int, j as int).map_values(|c: char| if c == ' ' { '-' } else { c }));
    }
    string_of(out.as_slice())
}

/// Whether `pat` occurs in `s`.
pub open spec fn contains_seq(s: Seq<char>, pat: Seq<char>) -> bool {
    exists|i: int| 0 <= i <= s.len() && #[trigger] is_prefix(pat, s.skip(i))
}

/// Whether `pat` occurs in `cs`.
pub(crate) fn contains_chars(cs: &[char], pat: &[char]) -> (r: bool)
    ensures
        r == contains_seq(cs@, pat@),
{
    let mut i: usize = 0;
    while i < cs.len()
        invariant
            0 <= i <= cs@.len(),
            forall|j: int| 0 <= j < i ==> !#[trigger] is_prefix(pat@, cs@.skip(j)),
        decreases cs@.len() - i,
    {
        if starts_with_at(cs, i, pat) {
            return true;
        }
        i = i + 1;
    }
    starts_with_at(cs, i, pat)
}

/// The result of `normalize_proxy`.
pub open spec fn normalized_proxy(addr: Seq<char>) -> Seq<char> {
    if contains_seq(addr, "://"@) {
        addr
    } else {
        "http://"@ + addr
    }
}

/// Gives a proxy address a scheme: one without `://` gets `http://` in front.
pub fn normalize_proxy(addr: &str) -> (r: String)
    ensures
        r@ == normalized_proxy(addr@),
{
    let cs = chars_of(addr);
    let sep = chars_of("://");
    if contains_chars(cs.as_slice(), sep.as_slice()) {
        return string_of(cs.as_slice());
    }
    let mut out = chars_of("http://");
    push_all(&mut out, cs.as_slice());
    string_of(out.as_slice())
}

/// Seconds since the Unix epoch by the system clock (std `SystemTime::now`
/// and `duration_since(UNIX_EPOCH)`); `None` when the clock is before the
/// epoch. The value depends on the clock, so nothing is said of it.
#[verifier::external_body]
fn unix_secs() -> (r: Option<u64>) {
    std::time::SystemTime::now().duration_since(std::time::UNIX_EPOCH).ok().map(|d| d.as_secs())
}

/// The timestamp for a reading of the clock: its seconds since the epoch,
/// held at `i64::MAX` past that; 0 when the clock was before the epoch.
pub fn secs_or_zero(clock: Option<u64>) -> (r: i64)
    ensures
        r == match clock {
            Some(s) => if s <= i64::MAX { s as int } else { i64::MAX as int },
            None => 0int,
        },
        r >= 0,
{
    match clock {
        Some(s) => if s <= 9223372036854775807u64 { s as i64 } else { 9223372036854775807i64 },
        None => 0,
    }
}

/// Current Unix timestamp in seconds, 0 when the clock is before the epoch.
pub fn now_secs() -> (r: i64)
    ensures
        r >= 0,
{
    secs_or_zero(unix_secs())
}


// ---------------------------------------------------------------------------
// Words
// ---------------------------------------------------------------------------

/// Number of leading characters of `s` that are not white space.
pub open spec fn word_len(s: Seq<char>) -> nat
    decreases s.len(),
{
    if s.len() > 0 && !is_ws(s[0]) {
        1 + word_len(s.drop_first())
    } else {
        0
    }
}

/// The first white-space-separated word of `s` and what follows it (as the
/// first step of `str::split_whitespace`).
pub open spec fn next_word(s: Seq<char>) -> Option<(Seq<char>, Seq<char>)> {
    let t = trim_start(s);
    if t.len() == 0 {
        None
    } else {
        Some((t.take(word_len(t) as int), t.skip(word_len(t) as int)))
    }
}

proof fn lemma_word_len_bound(s: Seq<char>)
    ensures
        word_len(s) <= s.len(),
    decreases s.len(),
{
    if s.len() > 0 && !is_ws(s[0]) {
        lemma_word_len_bound(s.drop_first());
    }
}

/// The range of the first word of `cs[lo..]`, if any.
pub(crate) fn next_word_at(cs: &[char], lo: usize) -> (r: Option<(usize, usize)>)
    requires
        lo <= cs@.len(),
    ensures
        match next_word(cs@.skip(lo as int)) {
            None => r is None,
            Some((w, rest)) => r matches Some((a, b)) && lo <= a <= b <= cs@.len() && w
                == cs@.subrange(a as int, b as int) && rest == cs@.skip(b as int),
        },
{
    let n = cs.len();
    let a = trim_start_index(cs, lo, n);
    proof {
        assert(cs@.subrange(lo as int, n as int) =~= cs@.skip(lo as int));
        assert(trim_start(cs@.skip(lo as int)) =~= cs@.skip(a as int));
    }
    if a == n {
        return None;
    }
    let mut b: usize = a;
    while b < n && !is_whitespace(cs[b])
        invariant
            n == cs@.len(),
            a <= b <= n,
            word_len(cs@.skip(a as int)) == (b - a) + word_len(cs@.skip(b as int)),
        decreases n - b,
    {
        assert(cs@.skip(b as int)[0] == cs@[b as int]);
        assert(cs@.skip(b as int).drop_first() =~= cs@.skip(b + 1));
        b = b + 1;
    }
    if b < n {
        assert(cs@.skip(b as int)[0] == cs@[b as int]);
    }
    proof {
        let t = cs@.skip(a as int);
        assert(t.take(b - a) =~= cs@.subrange(a as int, b as int));
        assert(t.skip(b - a) =~= cs@.skip(b as int));
    }
    Some((a, b))
}

/// Number of leading `c` characters of `s`.
pub open spec fn lead_count(s: Seq<char>, c: char) -> nat
    decreases s.len(),
{
    if s.len() > 0 && s[0] == c {
        1 + lead_count(s.drop_first(), c)
    } else {
        0
    }
}

/// `s` without its leading `c` characters (as `str::trim_start_matches`).
pub open spec fn strip_lead(s: Seq<char>, c: char) -> Seq<char> {
    s.skip(lead_count(s, c) as int)
}

/// The index past the leading `c` characters of `cs[lo..hi]`.
pub(crate) fn strip_lead_index(cs: &[char], lo: usize, hi: usize, c: char) -> (b: usize)
    requires
        lo <= hi <= cs@.len(),
    ensures
        lo <= b <= hi,
        b - lo == lead_count(cs@.subrange(lo as int, hi as int), c),
{
    let mut j: usize = lo;
    while j < hi && cs[j] == c
        invariant
            lo <= j <= hi <= cs@.len(),
            lead_count(cs@.subrange(lo as int, hi as int), c) == (j - lo) + lead_count(
                cs@.subrange(j as int, hi as int),
                c,
            ),
        decreases hi - j,
    {
        assert(cs@.subrange(j as int, hi as int)[0] == cs@[j as int]);
        assert(cs@.subrange(j as int, hi as int).drop_first() =~= cs@.subrange(j + 1, hi as int));
        j = j + 1;
    }
    if j < hi {
        assert(cs@.subrange(j as int, hi as int)[0] == cs@[j as int]);
    }
    j
}

} // verus!
