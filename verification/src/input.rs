//! The multi-line input box: editing, cursor movement and history.
use vstd::prelude::*;

use crate::util::{
    chars_of, lemma_split_char_nonempty, push_all, slice_of, split_char, split_chars, string_of,
};

verus! {

/// The multi-line input box.
pub struct InputState {
    pub lines: Vec<String>,
    /// Cursor line.
    pub cy: usize,
    /// Cursor column, in characters.
    pub cx: usize,
    /// Sent messages, oldest first.
    pub history: Vec<String>,
    /// The history entry shown, if any.
    pub hist_idx: Option<usize>,
}

/// The content of the input box.
pub struct InputView {
    pub lines: Seq<Seq<char>>,
    pub cy: int,
    pub cx: int,
    pub history: Seq<Seq<char>>,
    pub hist: Option<int>,
}

/// The text of each string.
pub open spec fn texts(v: Seq<String>) -> Seq<Seq<char>> {
    v.map_values(|s: String| s@)
}

impl View for InputState {
    type V = InputView;

    open spec fn view(&self) -> InputView {
        InputView {
            lines: texts(self.lines@),
            cy: self.cy as int,
            cx: self.cx as int,
            history: texts(self.history@),
            hist: match self.hist_idx {
                Some(i) => Some(i as int),
                None => None,
            },
        }
    }
}

/// The smaller of `x` and `n`.
pub open spec fn clamp(x: int, n: int) -> int {
    if x < n {
        x
    } else {
        n
    }
}

/// `s` with `t` inserted before index `k`.
pub open spec fn insert_at(s: Seq<char>, k: int, t: Seq<char>) -> Seq<char> {
    s.take(k) + t + s.skip(k)
}

/// `parts` joined with `\n`.
pub open spec fn join_lines(parts: Seq<Seq<char>>) -> Seq<char>
    decreases parts.len(),
{
    if parts.len() == 0 {
        Seq::empty()
    } else if parts.len() == 1 {
        parts[0]
    } else {
        join_lines(parts.drop_last()) + seq!['\n'] + parts.last()
    }
}

/// `s` with every `\r\n` and every other `\r` turned into `\n`.
pub open spec fn normalize_newlines(s: Seq<char>) -> Seq<char>
    decreases s.len(),
{
    if s.len() == 0 {
        Seq::empty()
    } else if s[0] == '\r' && s.len() >= 2 && s[1] == '\n' {
        seq!['\n'] + normalize_newlines(s.skip(2))
    } else if s[0] == '\r' {
        seq!['\n'] + normalize_newlines(s.drop_first())
    } else {
        seq![s[0]] + normalize_newlines(s.drop_first())
    }
}

/// The cursor is on a line and within it, and the history entry exists.
pub open spec fn input_wf(v: InputView) -> bool {
    &&& v.lines.len() >= 1
    &&& 0 <= v.cy < v.lines.len()
    &&& 0 <= v.cx <= v.lines[v.cy].len()
    &&& v.hist matches Some(i) ==> 0 <= i < v.history.len()
}

/// The content after `set_text(text)`.
pub open spec fn with_text(v: InputView, text: Seq<char>) -> InputView {
    let ls = split_char(text, '\n');
    InputView { lines: ls, cy: ls.len() - 1, cx: ls.last().len() as int, ..v }
}

/// The content after `reset()`.
pub open spec fn emptied(v: InputView) -> InputView {
    InputView { lines: seq![Seq::empty()], cy: 0, cx: 0, hist: None, ..v }
}

/// The content after `insert_text(text)` (the text already normalized): it
/// goes in at the cursor, and the cursor goes to the end of the inserted
/// text. With line breaks, the cursor line is split around it: the first
/// part joins the text before the cursor, the last part the text after it,
/// the parts between become lines of their own, and the lines after the
/// cursor line stay after them.
pub open spec fn with_pasted(v: InputView, t: Seq<char>) -> InputView {
    let line = v.lines[v.cy];
    let k = clamp(v.cx, line.len() as int);
    let parts = split_char(t, '\n');
    if parts.len() == 1 {
        InputView {
            lines: v.lines.update(v.cy, insert_at(line, k, t)),
            cx: v.cx + t.len(),
            ..v
        }
    } else {
        let first = line.take(k) + parts[0];
        let mid = parts.skip(1);
        let lines0 = v.lines.take(v.cy).push(first) + mid;
        let last = lines0.len() - 1;
        let lines = lines0.update(last, lines0[last] + line.skip(k)) + v.lines.skip(v.cy + 1);
        InputView { lines: lines, cy: last, cx: lines0[last].len() as int, ..v }
    }
}

/// The content after a line break at the cursor.
pub open spec fn after_newline(v: InputView) -> InputView {
    let line = v.lines[v.cy];
    let k = clamp(v.cx, line.len() as int);
    InputView { lines: v.lines.update(v.cy, line.take(k)).insert(v.cy + 1, line.skip(k)), cy: v.cy + 1, cx: 0, ..v }
}

/// The content after typing `c` at the cursor.
pub open spec fn after_char(v: InputView, c: char) -> InputView {
    InputView {
        lines: v.lines.update(v.cy, insert_at(v.lines[v.cy], clamp(v.cx, v.lines[v.cy].len() as int), seq![c])),
        cx: v.cx + 1,
        ..v
    }
}

/// The content after Backspace.
pub open spec fn after_backspace(v: InputView) -> InputView {
    if v.cx > 0 {
        InputView { lines: v.lines.update(v.cy, v.lines[v.cy].remove(v.cx - 1)), cx: v.cx - 1, ..v }
    } else if v.cy > 0 {
        InputView {
            lines: v.lines.update(v.cy - 1, v.lines[v.cy - 1] + v.lines[v.cy]).remove(v.cy),
            cy: v.cy - 1,
            cx: v.lines[v.cy - 1].len() as int,
            ..v
        }
    } else {
        v
    }
}

/// The content after Delete: the character after the one at the cursor
/// goes; on the last character of a line nothing changes (there is none
/// after it); at the end of a line the next line joins it.
pub open spec fn after_delete(v: InputView) -> InputView {
    if v.cx + 1 < v.lines[v.cy].len() {
        InputView { lines: v.lines.update(v.cy, v.lines[v.cy].remove(v.cx + 1)), ..v }
    } else if v.cx < v.lines[v.cy].len() {
        v
    } else if v.cy + 1 < v.lines.len() {
        InputView { lines: v.lines.update(v.cy, v.lines[v.cy] + v.lines[v.cy + 1]).remove(v.cy + 1), ..v }
    } else {
        v
    }
}

/// The content after the left arrow.
pub open spec fn after_left(v: InputView) -> InputView {
    if v.cx > 0 {
        InputView { cx: v.cx - 1, ..v }
    } else if v.cy > 0 {
        InputView { cy: v.cy - 1, cx: v.lines[v.cy - 1].len() as int, ..v }
    } else {
        v
    }
}

/// The content after the right arrow.
pub open spec fn after_right(v: InputView) -> InputView {
    if v.cx < v.lines[v.cy].len() {
        InputView { cx: v.cx + 1, ..v }
    } else if v.cy + 1 < v.lines.len() {
        InputView { cy: v.cy + 1, cx: 0, ..v }
    } else {
        v
    }
}

/// The content after End.
pub open spec fn after_end(v: InputView) -> InputView {
    InputView { cx: v.lines[v.cy].len() as int, ..v }
}

/// The content after the up arrow.
pub open spec fn after_up(v: InputView) -> InputView {
    if v.cy > 0 {
        InputView { cy: v.cy - 1, cx: clamp(v.cx, v.lines[v.cy - 1].len() as int), ..v }
    } else {
        history_back(v)
    }
}

/// The content after the down arrow.
pub open spec fn after_down(v: InputView) -> InputView {
    if v.cy + 1 < v.lines.len() {
        InputView { cy: v.cy + 1, cx: clamp(v.cx, v.lines[v.cy + 1].len() as int), ..v }
    } else {
        history_forward(v)
    }
}

/// The position in characters matching a cursor column (as the byte offset
/// of the `cx`-th character, or the end of the line).
fn char_pos(line: &String, cx: usize) -> (r: (Vec<char>, usize))
    ensures
        r.0@ == line@,
        r.1 == clamp(cx as int, line@.len() as int),
{
    let cs = chars_of(line.as_str());
    let k = if cx < cs.len() {
        cx
    } else {
        cs.len()
    };
    (cs, k)
}

/// `cs` with `t` inserted before `k`.
fn inserted(cs: &[char], k: usize, t: &[char]) -> (r: String)
    requires
        k <= cs@.len(),
    ensures
        r@ == insert_at(cs@, k as int, t@),
{
    let mut out = slice_of(cs, 0, k);
    push_all(&mut out, t);
    let tail = slice_of(cs, k, cs.len());
    push_all(&mut out, tail.as_slice());
    proof {
        assert(cs@.subrange(0, k as int) =~= cs@.take(k as int));
        assert(cs@.subrange(k as int, cs@.len() as int) =~= cs@.skip(k as int));
    }
    string_of(out.as_slice())
}

/// The text with `\r\n` and `\r` turned into `\n`.
fn normalized(cs: &[char]) -> (r: Vec<char>)
    ensures
        r@ == normalize_newlines(cs@),
{
    let mut out: Vec<char> = Vec::new();
    let mut i: usize = 0;
    let n = cs.len();
    assert(cs@.skip(0) =~= cs@);
    while i < n
        invariant
            n == cs@.len(),
            0 <= i <= n,
            normalize_newlines(cs@) == out@ + normalize_newlines(cs@.skip(i as int)),
        decreases n - i,
    {
        let ghost s = cs@.skip(i as int);
        assert(s[0] == cs@[i as int]);
        if cs[i] == '\r' && i + 1 < n && cs[i + 1] == '\n' {
            assert(s[1] == cs@[i + 1]);
            assert(s.skip(2) =~= cs@.skip(i + 2));
            out.push('\n');
            i = i + 2;
        } else {
            assert(s.drop_first() =~= cs@.skip(i + 1));
            out.push(if cs[i] == '\r' { '\n' } else { cs[i] });
            i = i + 1;
        }
        assert(normalize_newlines(cs@) =~= out@ + normalize_newlines(cs@.skip(i as int)));
    }
    assert(cs@.skip(n as int) =~= Seq::<char>::empty());
    assert(out@ + Seq::<char>::empty() =~= out@);
    out
}

/// The characters of `text` with `\r\n` and `\r` turned into `\n`.
pub(crate) fn normalized_chars(text: &str) -> (r: Vec<char>)
    ensures
        r@ == normalize_newlines(text@),
{
    normalized(chars_of(text).as_slice())
}

proof fn lemma_texts_push(v: Seq<String>, s: String)
    ensures
        texts(v.push(s)) == texts(v).push(s@),
{
    assert(texts(v.push(s)) =~= texts(v).push(s@));
}

impl InputState {
    /// An empty input box: one empty line, no history.
    pub fn new() -> (r: InputState)
        ensures
            r@.lines == seq![Seq::<char>::empty()],
            r@.cy == 0,
            r@.cx == 0,
            r@.history.len() == 0,
            r@.hist is None,
    {
        let mut lines: Vec<String> = Vec::new();
        lines.push(String::new());
        let r = InputState { lines, cy: 0, cx: 0, history: Vec::new(), hist_idx: None };
        assert(r@.lines =~= seq![Seq::<char>::empty()]);
        r
    }

    /// Whether every line is empty.
    pub fn is_empty(&self) -> (r: bool)
        ensures
            r == forall|k: int| 0 <= k < self@.lines.len() ==> #[trigger] self@.lines[k].len() == 0,
    {
        let mut i: usize = 0;
        while i < self.lines.len()
            invariant
                0 <= i <= self.lines@.len(),
                forall|k: int| 0 <= k < i ==> #[trigger] self@.lines[k].len() == 0,
            decreases self.lines@.len() - i,
        {
            if !self.lines[i].as_str().is_empty() {
                assert(self@.lines[i as int].len() != 0);
                return false;
            }
            i = i + 1;
        }
        true
    }

    /// Inserts `c` at the cursor (at the end of the line when the cursor is past it).
    pub fn insert_char(&mut self, c: char)
        requires
            old(self).cy < old(self).lines@.len(),
            old(self).cx < usize::MAX,
        ensures
            input_wf(old(self)@) ==> input_wf(final(self)@),
            final(self)@ == after_char(old(self)@, c),
    {
        let (cs, k) = char_pos(&self.lines[self.cy], self.cx);
        let one = vec![c];
        assert(one@ =~= seq![c]);
        let s = inserted(cs.as_slice(), k, one.as_slice());
        let ghost old_lines = self.lines@;
        self.lines.set(self.cy, s);
        self.cx = self.cx + 1;
        assert(self@.lines =~= texts(old_lines).update(self.cy as int, s@));
    }

    /// Splits the cursor line at the cursor; the cursor goes to the start of the new line.
    pub fn newline(&mut self)
        requires
            old(self).cy < old(self).lines@.len(),
        ensures
            input_wf(old(self)@) ==> input_wf(final(self)@),
            final(self)@ == after_newline(old(self)@),
    {
        let (cs, k) = char_pos(&self.lines[self.cy], self.cx);
        let head = string_of(slice_of(cs.as_slice(), 0, k).as_slice());
        let rest = string_of(slice_of(cs.as_slice(), k, cs.len()).as_slice());
        let ghost old_lines = self.lines@;
        let cy = self.cy;
        let n = self.lines.len();
        assert(cy < n);
        self.lines.set(cy, head);
        self.lines.insert(cy + 1, rest);
        self.cy = cy + 1;
        self.cx = 0;
        proof {
            assert(cs@.subrange(0, k as int) =~= cs@.take(k as int));
            assert(cs@.subrange(k as int, cs@.len() as int) =~= cs@.skip(k as int));
            assert(self@.lines =~= texts(old_lines).update(cy as int, head@).insert(cy + 1, rest@));
        }
    }

    /// Deletes the character before the cursor; at the start of a line,
    /// joins the line to the previous one.
    pub fn backspace(&mut self)
        requires
            old(self).cy < old(self).lines@.len(),
            old(self).cx > 0 ==> old(self).cx <= old(self)@.lines[old(self)@.cy].len(),
        ensures
            input_wf(old(self)@) ==> input_wf(final(self)@),
            final(self)@ == after_backspace(old(self)@),
    {
        if self.cx > 0 {
            let cs = chars_of(self.lines[self.cy].as_str());
            let k = self.cx - 1;
            let mut out = slice_of(cs.as_slice(), 0, k);
            push_all(&mut out, slice_of(cs.as_slice(), k + 1, cs.len()).as_slice());
            let ghost old_lines = self.lines@;
            self.lines.set(self.cy, string_of(out.as_slice()));
            self.cx = k;
            proof {
                assert(out@ =~= cs@.remove(k as int));
                assert(self@.lines =~= texts(old_lines).update(self.cy as int, cs@.remove(k as int)));
            }
        } else if self.cy > 0 {
            let ghost v = self@;
            let cur = self.lines.remove(self.cy);
            self.cy = self.cy - 1;
            let mut prev = chars_of(self.lines[self.cy].as_str());
            self.cx = prev.len();
            push_all(&mut prev, chars_of(cur.as_str()).as_slice());
            let ghost mid = self.lines@;
            self.lines.set(self.cy, string_of(prev.as_slice()));
            proof {
                assert(texts(mid) =~= v.lines.remove(v.cy));
                assert(self@.lines =~= v.lines.update(v.cy - 1, v.lines[v.cy - 1] + v.lines[v.cy]).remove(v.cy));
            }
        }
    }

    /// Deletes the character after the one at the cursor (nothing on the
    /// last character of a line); at the end of a line, joins the next line
    /// to it.
    pub fn delete(&mut self)
        requires
            old(self).cy < old(self).lines@.len(),
        ensures
            input_wf(old(self)@) ==> input_wf(final(self)@),
            final(self)@ == after_delete(old(self)@),
    {
        let cs = chars_of(self.lines[self.cy].as_str());
        if self.cx < cs.len() && cs.len() - self.cx > 1 {
            let k = self.cx + 1;
            let mut out = slice_of(cs.as_slice(), 0, k);
            push_all(&mut out, slice_of(cs.as_slice(), k + 1, cs.len()).as_slice());
            let ghost old_lines = self.lines@;
            self.lines.set(self.cy, string_of(out.as_slice()));
            proof {
                assert(out@ =~= cs@.remove(k as int));
                assert(self@.lines =~= texts(old_lines).update(self.cy as int, cs@.remove(k as int)));
            }
        } else if self.cx < cs.len() {
        } else if self.lines.len() - self.cy > 1 {
            let ghost v = self@;
            let next = self.lines.remove(self.cy + 1);
            let mut cur = cs;
            push_all(&mut cur, chars_of(next.as_str()).as_slice());
            let ghost mid = self.lines@;
            self.lines.set(self.cy, string_of(cur.as_slice()));
            proof {
                assert(texts(mid) =~= v.lines.remove(v.cy + 1));
                assert(self@.lines =~= v.lines.update(v.cy, v.lines[v.cy] + v.lines[v.cy + 1]).remove(v.cy + 1));
            }
        }
    }

    /// Pastes `text` at the cursor, keeping its line breaks (`\r\n` and `\r`
    /// become `\n`).
    pub fn insert_text(&mut self, text: &str)
        requires
            old(self).cy < old(self).lines@.len(),
            old(self).cx + normalize_newlines(text@).len() <= usize::MAX,
        ensures
            input_wf(old(self)@) ==> input_wf(final(self)@),
            final(self)@ == with_pasted(old(self)@, normalize_newlines(text@)),
    {
        let t = normalized(chars_of(text).as_slice());
        let parts = split_chars(t.as_slice(), '\n');
        let ghost v = self@;
        let ghost ps = split_char(t@, '\n');
        proof {
            lemma_split_char_nonempty(t@, '\n');
            lemma_split_len_one(t@);
        }
        let (cs, k) = char_pos(&self.lines[self.cy], self.cx);
        if parts.len() == 1 {
            let s = inserted(cs.as_slice(), k, t.as_slice());
            let ghost old_lines = self.lines@;
            self.lines.set(self.cy, s);
            self.cx = self.cx + t.len();
            assert(self@.lines =~= texts(old_lines).update(self.cy as int, s@));
            return;
        }
        let mut lines: Vec<String> = Vec::new();
        let mut i: usize = 0;
        while i < self.cy
            invariant
                self@ == v,
                v.cy < v.lines.len(),
                0 <= i <= v.cy,
                texts(lines@) == v.lines.take(i as int),
            decreases v.cy - i,
        {
            let ghost before = lines@;
            lines.push(self.lines[i].clone());
            proof {
                lemma_texts_push(before, self.lines@[i as int]);
                assert(v.lines.take(i + 1) =~= v.lines.take(i as int).push(v.lines[i as int]));
            }
            i = i + 1;
        }
        let mut first = slice_of(cs.as_slice(), 0, k);
        push_all(&mut first, parts[0].as_slice());
        let ghost before = lines@;
        let fs = string_of(first.as_slice());
        let ghost fv = fs@;
        lines.push(fs);
        proof {
            assert(texts(lines@) =~= texts(before).push(fv));
            assert(cs@.subrange(0, k as int) =~= cs@.take(k as int));
        }
        let mut j: usize = 1;
        while j < parts.len()
            invariant
                1 <= j <= parts@.len(),
                parts@.len() == ps.len(),
                forall|q: int| 0 <= q < parts@.len() ==> #[trigger] parts@[q]@ == ps[q],
                texts(lines@) == v.lines.take(v.cy).push(cs@.take(k as int) + ps[0]) + ps.skip(1).take(j - 1),
            decreases parts@.len() - j,
        {
            let ghost before = lines@;
            let ps_j = string_of(parts[j].as_slice());
            let ghost pv = ps_j@;
            lines.push(ps_j);
            proof {
                assert(texts(lines@) =~= texts(before).push(pv));
                assert(ps.skip(1).take(j as int) =~= ps.skip(1).take(j - 1).push(ps[j as int]));
            }
            j = j + 1;
        }
        assert(ps.skip(1).take(ps.len() - 1) =~= ps.skip(1));
        let last = lines.len() - 1;
        let mut l = chars_of(lines[last].as_str());
        let end = l.len();
        push_all(&mut l, slice_of(cs.as_slice(), k, cs.len()).as_slice());
        let ghost before = lines@;
        lines.set(last, string_of(l.as_slice()));
        proof {
            assert(cs@.subrange(k as int, cs@.len() as int) =~= cs@.skip(k as int));
            assert(texts(lines@) =~= texts(before).update(last as int, l@));
        }
        let ghost head = texts(lines@);
        let mut i: usize = self.cy + 1;
        while i < self.lines.len()
            invariant
                self@ == v,
                v.cy < v.lines.len(),
                v.cy + 1 <= i <= v.lines.len(),
                texts(lines@) == head + v.lines.subrange(v.cy + 1, i as int),
            decreases v.lines.len() - i,
        {
            let ghost b = lines@;
            lines.push(self.lines[i].clone());
            proof {
                lemma_texts_push(b, self.lines@[i as int]);
                assert(v.lines.subrange(v.cy + 1, i + 1) =~= v.lines.subrange(v.cy + 1, i as int).push(
                    v.lines[i as int],
                ));
            }
            i = i + 1;
        }
        assert(v.lines.subrange(v.cy + 1, v.lines.len() as int) =~= v.lines.skip(v.cy + 1));
        self.cy = last;
        self.cx = end;
        self.lines = lines;
    }

    /// Moves the cursor one character left, to the end of the previous line at a line start.
    pub fn left(&mut self)
        requires
            old(self).cx == 0 && old(self).cy > 0 ==> old(self).cy <= old(self).lines@.len(),
        ensures
            input_wf(old(self)@) ==> input_wf(final(self)@),
            final(self)@ == after_left(old(self)@),
    {
        if self.cx > 0 {
            self.cx = self.cx - 1;
        } else if self.cy > 0 {
            self.cy = self.cy - 1;
            self.cx = chars_of(self.lines[self.cy].as_str()).len();
        }
    }

    /// Moves the cursor one character right, to the start of the next line at a line end.
    pub fn right(&mut self)
        requires
            old(self).cy < old(self).lines@.len(),
        ensures
            input_wf(old(self)@) ==> input_wf(final(self)@),
            final(self)@ == after_right(old(self)@),
    {
        let n = chars_of(self.lines[self.cy].as_str()).len();
        if self.cx < n {
            self.cx = self.cx + 1;
        } else if self.lines.len() - self.cy > 1 {
            self.cy = self.cy + 1;
            self.cx = 0;
        }
    }

    /// Moves the cursor to the start of the line.
    pub fn home(&mut self)
        ensures
            input_wf(old(self)@) ==> input_wf(final(self)@),
            final(self)@ == (InputView { cx: 0, ..old(self)@ }),
    {
        self.cx = 0;
    }

    /// Moves the cursor to the end of the line.
    pub fn end(&mut self)
        requires
            old(self).cy < old(self).lines@.len(),
        ensures
            input_wf(old(self)@) ==> input_wf(final(self)@),
            final(self)@ == after_end(old(self)@),
    {
        self.cx = chars_of(self.lines[self.cy].as_str()).len();
    }

    /// Moves the cursor up a line; on the first line, shows the previous history entry.
    pub fn up(&mut self)
        requires
            old(self).cy <= old(self).lines@.len(),
            old(self).hist_idx matches Some(i) ==> i <= old(self).history@.len(),
        ensures
            input_wf(old(self)@) ==> input_wf(final(self)@),
            final(self)@ == after_up(old(self)@),
    {
        if self.cy > 0 {
            self.cy = self.cy - 1;
            let n = chars_of(self.lines[self.cy].as_str()).len();
            self.cx = if self.cx < n {
                self.cx
            } else {
                n
            };
        } else {
            self.history_prev();
        }
    }

    /// Moves the cursor down a line; on the last line, shows the next history
    /// entry, or an empty box after the newest one.
    pub fn down(&mut self)
        requires
            old(self).hist_idx matches Some(i) ==> i < old(self).history@.len(),
        ensures
            input_wf(old(self)@) ==> input_wf(final(self)@),
            final(self)@ == after_down(old(self)@),
    {
        if self.cy < self.lines.len() && self.lines.len() - self.cy > 1 {
            self.cy = self.cy + 1;
            let n = chars_of(self.lines[self.cy].as_str()).len();
            self.cx = if self.cx < n {
                self.cx
            } else {
                n
            };
        } else {
            self.history_next();
        }
    }

    fn history_prev(&mut self)
        requires
            old(self).hist_idx matches Some(i) ==> i <= old(self).history@.len(),
        ensures
            final(self)@ == history_back(old(self)@),
    {
        if self.history.len() == 0 {
            return;
        }
        let idx = match self.hist_idx {
            None => self.history.len() - 1,
            Some(i) => if i > 0 {
                i - 1
            } else {
                0
            },
        };
        self.hist_idx = Some(idx);
        self.load_history(idx);
    }

    fn history_next(&mut self)
        requires
            old(self).hist_idx matches Some(i) ==> i < old(self).history@.len(),
        ensures
            final(self)@ == history_forward(old(self)@),
    {
        if let Some(i) = self.hist_idx {
            if self.history.len() - i > 1 {
                self.hist_idx = Some(i + 1);
                self.load_history(i + 1);
            } else {
                self.hist_idx = None;
                self.reset();
            }
        }
    }

    fn load_history(&mut self, idx: usize)
        requires
            idx < old(self).history@.len(),
        ensures
            final(self)@ == with_text(old(self)@, old(self)@.history[idx as int]),
    {
        let text = self.history[idx].clone();
        self.set_text(text.as_str());
    }

    /// Replaces the content with `text`; the cursor goes to its end.
    pub fn set_text(&mut self, text: &str)
        ensures
            input_wf(old(self)@) ==> input_wf(final(self)@),
            final(self)@ == with_text(old(self)@, text@),
    {
        let parts = split_chars(chars_of(text).as_slice(), '\n');
        let ghost ps = split_char(text@, '\n');
        proof {
            lemma_split_char_nonempty(text@, '\n');
        }
        let mut lines: Vec<String> = Vec::new();
        let mut i: usize = 0;
        while i < parts.len()
            invariant
                0 <= i <= parts@.len(),
                parts@.len() == ps.len(),
                forall|q: int| 0 <= q < parts@.len() ==> #[trigger] parts@[q]@ == ps[q],
                texts(lines@) == ps.take(i as int),
            decreases parts@.len() - i,
        {
            let ghost before = lines@;
            let pi = string_of(parts[i].as_slice());
            let ghost pv = pi@;
            lines.push(pi);
            proof {
                assert(texts(lines@) =~= texts(before).push(pv));
                assert(ps.take(i + 1) =~= ps.take(i as int).push(ps[i as int]));
            }
            i = i + 1;
        }
        assert(ps.take(ps.len() as int) =~= ps);
        let last = lines.len() - 1;
        self.cx = chars_of(lines[last].as_str()).len();
        self.cy = last;
        self.lines = lines;
    }

    /// Takes the whole text (lines joined with `\n`) and empties the box.
    pub fn take(&mut self) -> (r: String)
        ensures
            input_wf(old(self)@) ==> input_wf(final(self)@),
            r@ == join_lines(old(self)@.lines),
            final(self)@ == emptied(old(self)@),
    {
        let mut out: Vec<char> = Vec::new();
        let ghost ls = self@.lines;
        let mut i: usize = 0;
        while i < self.lines.len()
            invariant
                ls == self@.lines,
                0 <= i <= ls.len(),
                out@ == join_lines(ls.take(i as int)),
            decreases ls.len() - i,
        {
            let ghost before = out@;
            if i > 0 {
                out.push('\n');
            }
            push_all(&mut out, chars_of(self.lines[i].as_str()).as_slice());
            proof {
                let t = ls.take(i + 1);
                assert(t.drop_last() =~= ls.take(i as int));
                assert(t.last() == ls[i as int]);
                if i == 0 {
                    assert(out@ =~= t[0]);
                } else {
                    assert(out@ =~= before + seq!['\n'] + ls[i as int]);
                }
            }
            i = i + 1;
        }
        assert(ls.take(ls.len() as int) =~= ls);
        self.reset();
        string_of(out.as_slice())
    }

    /// Empties the box and leaves the history entry.
    pub fn reset(&mut self)
        ensures
            input_wf(old(self)@) ==> input_wf(final(self)@),
            final(self)@ == emptied(old(self)@),
    {
        let mut lines: Vec<String> = Vec::new();
        lines.push(String::new());
        self.lines = lines;
        self.cx = 0;
        self.cy = 0;
        self.hist_idx = None;
        assert(self@.lines =~= seq![Seq::<char>::empty()]);
    }
}

/// The content after moving back in the history.
pub open spec fn history_back(v: InputView) -> InputView {
    if v.history.len() == 0 {
        v
    } else {
        let idx = match v.hist {
            None => v.history.len() - 1,
            Some(i) => if i > 0 {
                i - 1
            } else {
                0
            },
        };
        with_text(InputView { hist: Some(idx), ..v }, v.history[idx])
    }
}

/// The content after moving forward in the history.
pub open spec fn history_forward(v: InputView) -> InputView {
    match v.hist {
        None => v,
        Some(i) => if i + 1 < v.history.len() {
            with_text(InputView { hist: Some(i + 1), ..v }, v.history[i + 1])
        } else {
            emptied(v)
        },
    }
}

proof fn lemma_split_len_one(t: Seq<char>)
    ensures
        split_char(t, '\n').len() == 1 ==> split_char(t, '\n')[0] == t,
    decreases t.len(),
{
    if t.len() > 0 {
        lemma_split_len_one(t.drop_last());
        lemma_split_char_nonempty(t.drop_last(), '\n');
    }
}


/// Joining the `\n`-separated pieces of a text gives the text back.
pub proof fn lemma_join_split(t: Seq<char>)
    ensures
        join_lines(split_char(t, '\n')) == t,
    decreases t.len(),
{
    if t.len() > 0 {
        let prev = split_char(t.drop_last(), '\n');
        lemma_join_split(t.drop_last());
        lemma_split_char_nonempty(t.drop_last(), '\n');
        let c = t.last();
        if c == '\n' {
            let ps = prev.push(Seq::empty());
            assert(ps.drop_last() =~= prev);
            assert(join_lines(ps) =~= t.drop_last() + seq!['\n'] + Seq::<char>::empty());
            assert(t.drop_last() + seq!['\n'] + Seq::<char>::empty() =~= t);
        } else {
            let ps = prev.update(prev.len() - 1, prev.last().push(c));
            if prev.len() == 1 {
                assert(join_lines(prev) == prev[0]);
                assert(join_lines(ps) == ps[0]);
                assert(ps[0] =~= t);
            } else {
                assert(ps.drop_last() =~= prev.drop_last());
                assert(join_lines(prev) == join_lines(prev.drop_last()) + seq!['\n'] + prev.last());
                assert(join_lines(ps) == join_lines(prev.drop_last()) + seq!['\n'] + prev.last().push(c));
                assert(join_lines(ps) =~= join_lines(prev).push(c));
                assert(t.drop_last().push(c) =~= t);
            }
        }
    }
}

/// Backspace right after typing a character takes the box back to where it
/// was: the same lines, cursor and history.
pub proof fn lemma_backspace_undoes_char(v: InputView, c: char)
    requires
        input_wf(v),
    ensures
        after_backspace(after_char(v, c)) == v,
{
    let line = v.lines[v.cy];
    let typed = insert_at(line, v.cx, seq![c]);
    assert(typed.remove(v.cx) =~= line);
    assert(v.lines.update(v.cy, typed).update(v.cy, line) =~= v.lines);
}

/// Backspace right after breaking a line joins it again: the box is back to
/// where it was.
pub proof fn lemma_backspace_undoes_newline(v: InputView)
    requires
        input_wf(v),
    ensures
        after_backspace(after_newline(v)) == v,
{
    let line = v.lines[v.cy];
    let k = v.cx;
    let split = v.lines.update(v.cy, line.take(k)).insert(v.cy + 1, line.skip(k));
    assert(split[v.cy] == line.take(k));
    assert(split[v.cy + 1] == line.skip(k));
    assert(line.take(k) + line.skip(k) =~= line);
    assert(split.update(v.cy, line.take(k) + line.skip(k)).remove(v.cy + 1) =~= v.lines);
}

/// The left arrow undoes the right arrow wherever the right arrow moves:
/// everywhere but at the end of the last line. In particular, at the end of
/// a line that is not the last, the right arrow goes to column 0 of the next
/// line, and the right arrow never stays put there.
pub proof fn lemma_left_undoes_right(v: InputView)
    requires
        input_wf(v),
        !(v.cy == v.lines.len() - 1 && v.cx == v.lines[v.cy].len()),
    ensures
        after_right(v) != v,
        after_left(after_right(v)) == v,
        v.cx == v.lines[v.cy].len() ==> after_right(v).cy == v.cy + 1 && after_right(v).cx == 0,
{
}

/// The right arrow undoes the left arrow wherever the left arrow moves:
/// everywhere but at the start of the first line.
pub proof fn lemma_right_undoes_left(v: InputView)
    requires
        input_wf(v),
        !(v.cy == 0 && v.cx == 0),
    ensures
        after_left(v) != v,
        after_right(after_left(v)) == v,
{
}

/// Taking the text of the box after `set_text(t)` gives `t` back.
pub proof fn lemma_set_text_then_take(v: InputView, t: Seq<char>)
    ensures
        join_lines(with_text(v, t).lines) == t,
{
    lemma_join_split(t);
}

/// Pasting into an empty box and taking the text gives the pasted text,
/// with its line breaks made `\n`.
pub proof fn lemma_paste_into_empty_then_take(v: InputView, t: Seq<char>)
    requires
        v.lines == seq![Seq::<char>::empty()],
        v.cy == 0,
        v.cx == 0,
    ensures
        join_lines(with_pasted(v, normalize_newlines(t)).lines) == normalize_newlines(t),
{
    let n = normalize_newlines(t);
    let parts = split_char(n, '\n');
    lemma_join_split(n);
    lemma_split_char_nonempty(n, '\n');
    lemma_split_len_one(n);
    let line = v.lines[0];
    assert(line.len() == 0);
    if parts.len() == 1 {
        assert(insert_at(line, 0, n) =~= n);
        assert(v.lines.update(0, insert_at(line, 0, n)) =~= seq![n]);
    } else {
        let first = line.take(0) + parts[0];
        assert(first =~= parts[0]);
        let lines0 = v.lines.take(0).push(first) + parts.skip(1);
        assert(lines0 =~= parts);
        let last = lines0.len() - 1;
        assert(lines0[last] + line.skip(0) =~= lines0[last]);
        assert(lines0.update(last, lines0[last] + line.skip(0)) =~= parts);
    }
}

} // verus!
