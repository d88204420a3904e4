//! Reassembly of a bracketed paste from a stream of key presses (terminals
//! that split `ESC [200~ ... ESC [201~` into single keys).
use vstd::prelude::*;

use crate::util::string_of;

verus! {

/// A key press, as far as the paste reassembly tells keys apart.
#[derive(Debug, Clone, Copy, PartialEq, Eq, Structural)]
pub enum Key {
    Char(char),
    Esc,
    Enter,
    Other,
}

/// The collector of a paste in progress.
pub struct PasteCollect {
    buf: Vec<char>,
    esc: bool,
    /// -1: no end marker under way; 0..4: characters of `201~` matched after `ESC [`.
    probe: i32,
    /// The end marker has been seen.
    pub done: bool,
}

/// The state of the collector.
pub struct PasteView {
    pub buf: Seq<char>,
    pub esc: bool,
    pub probe: int,
    pub done: bool,
}

/// The characters of the end marker after `ESC [`.
pub open spec fn end_marker() -> Seq<char> {
    seq!['2', '0', '1', '~']
}

/// The collector after the key `k` (the marker probe still open): a failed
/// probe keeps `ESC [` as content; a doubled ESC is an ESC of the content;
/// Enter is a line break.
pub open spec fn paste_key(v: PasteView, k: Key) -> PasteView {
    if 0 <= v.probe < 4 && (k matches Key::Char(c) && c == end_marker()[v.probe]) {
        PasteView { probe: v.probe + 1, done: v.done || v.probe + 1 == 4, ..v }
    } else {
        let v = if v.probe >= 0 {
            PasteView { buf: v.buf.push('\u{1b}').push('['), esc: false, probe: -1, ..v }
        } else {
            v
        };
        match k {
            Key::Esc => if v.esc {
                PasteView { buf: v.buf.push('\u{1b}'), esc: false, ..v }
            } else {
                PasteView { esc: true, ..v }
            },
            Key::Char(c) => if c == '[' && v.esc {
                PasteView { probe: 0, esc: false, ..v }
            } else {
                PasteView { buf: v.buf.push(c), esc: false, ..v }
            },
            Key::Enter => PasteView { buf: v.buf.push('\n'), esc: false, ..v },
            Key::Other => v,
        }
    }
}

/// The collector after the keys `ks`.
pub open spec fn paste_keys(v: PasteView, ks: Seq<Key>) -> PasteView
    decreases ks.len(),
{
    if ks.len() == 0 {
        v
    } else {
        paste_key(paste_keys(v, ks.drop_last()), ks.last())
    }
}

impl PasteCollect {
    /// The state of the collector.
    pub closed spec fn view_of(&self) -> PasteView {
        PasteView { buf: self.buf@, esc: self.esc, probe: self.probe as int, done: self.done }
    }

    /// Whether the end marker has been seen.
    pub fn is_done(&self) -> (r: bool)
        ensures
            r == self.view_of().done,
    {
        self.done
    }

    /// An empty collector.
    pub fn new() -> (p: PasteCollect)
        ensures
            p.view_of() == (PasteView { buf: Seq::empty(), esc: false, probe: -1, done: false }),
    {
        PasteCollect { buf: Vec::new(), esc: false, probe: -1, done: false }
    }

    /// Feeds one key press.
    pub fn feed(&mut self, key: Key)
        requires
            old(self).view_of().probe < 4,
        ensures
            final(self).view_of() == paste_key(old(self).view_of(), key),
            final(self).view_of().probe < 4 || final(self).view_of().done,
    {
        if self.probe >= 0 && self.probe < 4 {
            if let Key::Char(c) = key {
                let expect = if self.probe == 0 {
                    '2'
                } else if self.probe == 1 {
                    '0'
                } else if self.probe == 2 {
                    '1'
                } else {
                    '~'
                };
                if c == expect {
                    self.probe = self.probe + 1;
                    if self.probe == 4 {
                        self.done = true;
                    }
                    return;
                }
            }
        }
        if self.probe >= 0 {
            self.buf.push('\u{1b}');
            self.buf.push('[');
            self.esc = false;
            self.probe = -1;
        }
        match key {
            Key::Esc => {
                if self.esc {
                    self.buf.push('\u{1b}');
                    self.esc = false;
                } else {
                    self.esc = true;
                }
            },
            Key::Char(c) => {
                if c == '[' && self.esc {
                    self.probe = 0;
                    self.esc = false;
                } else {
                    self.buf.push(c);
                    self.esc = false;
                }
            },
            Key::Enter => {
                self.buf.push('\n');
                self.esc = false;
            },
            Key::Other => {},
        }
    }

    /// The pasted text.
    pub fn finish(self) -> (r: String)
        ensures
            r@ == self.view_of().buf,
    {
        string_of(self.buf.as_slice())
    }
}

/// The key presses a terminal sends for text content: a line break is
/// Enter, any other character itself (no ESC in the content).
pub open spec fn content_keys(t: Seq<char>) -> Seq<Key>
    decreases t.len(),
{
    if t.len() == 0 {
        Seq::empty()
    } else {
        content_keys(t.drop_last()).push(content_key(t.last()))
    }
}

/// The key press for a character of pasted text.
pub open spec fn content_key(c: char) -> Key {
    if c == '\n' {
        Key::Enter
    } else {
        Key::Char(c)
    }
}

proof fn lemma_content_keys_len(t: Seq<char>)
    ensures
        content_keys(t).len() == t.len(),
    decreases t.len(),
{
    if t.len() > 0 {
        lemma_content_keys_len(t.drop_last());
    }
}

/// The key presses of the end marker `ESC [201~`.
pub open spec fn end_keys() -> Seq<Key> {
    seq![Key::Esc, Key::Char('['), Key::Char('2'), Key::Char('0'), Key::Char('1'), Key::Char('~')]
}

/// Content keys leave no ESC or marker state pending and add their text.
proof fn lemma_content_keys(t: Seq<char>)
    requires
        forall|i: int| 0 <= i < t.len() ==> t[i] != '\u{1b}',
    ensures
        paste_keys(PasteView { buf: Seq::empty(), esc: false, probe: -1, done: false }, content_keys(t))
            == (PasteView { buf: t, esc: false, probe: -1, done: false }),
    decreases t.len(),
{
    let init = PasteView { buf: Seq::empty(), esc: false, probe: -1, done: false };
    if t.len() > 0 {
        assert forall|i: int| 0 <= i < t.drop_last().len() implies t.drop_last()[i] != '\u{1b}' by {
            assert(t.drop_last()[i] == t[i]);
        }
        lemma_content_keys(t.drop_last());
        lemma_content_keys_len(t.drop_last());
        assert(content_keys(t).drop_last() =~= content_keys(t.drop_last()));
        assert(t.drop_last().push(t.last()) =~= t);
        let prev = paste_keys(init, content_keys(t.drop_last()));
        assert(paste_keys(init, content_keys(t)) == paste_key(prev, content_key(t.last())));
        assert(t.last() != '\u{1b}');
    } else {
        assert(t =~= Seq::<char>::empty());
    }
}

/// A paste of text without ESC, followed by the end marker, is complete and
/// gives the text back.
pub proof fn lemma_paste_roundtrip(t: Seq<char>)
    requires
        forall|i: int| 0 <= i < t.len() ==> t[i] != '\u{1b}',
    ensures
        paste_keys(
            PasteView { buf: Seq::empty(), esc: false, probe: -1, done: false },
            content_keys(t) + end_keys(),
        ).done,
        paste_keys(
            PasteView { buf: Seq::empty(), esc: false, probe: -1, done: false },
            content_keys(t) + end_keys(),
        ).buf == t,
{
    let init = PasteView { buf: Seq::empty(), esc: false, probe: -1, done: false };
    lemma_content_keys(t);
    lemma_content_keys_len(t);
    let ks = content_keys(t) + end_keys();
    let c = content_keys(t);
    let n: int = c.len() as int;
    assert(ks.take(n) =~= c);
    assert(ks.take(n + 6) =~= ks);
    assert(ks.take(n + 1).drop_last() =~= ks.take(n));
    assert(ks.take(n + 2).drop_last() =~= ks.take(n + 1));
    assert(ks.take(n + 3).drop_last() =~= ks.take(n + 2));
    assert(ks.take(n + 4).drop_last() =~= ks.take(n + 3));
    assert(ks.take(n + 5).drop_last() =~= ks.take(n + 4));
    assert(ks.take(n + 6).drop_last() =~= ks.take(n + 5));
    assert(ks.take(n + 1).last() == Key::Esc);
    assert(ks.take(n + 2).last() == Key::Char('['));
    assert(ks.take(n + 3).last() == Key::Char('2'));
    assert(ks.take(n + 4).last() == Key::Char('0'));
    assert(ks.take(n + 5).last() == Key::Char('1'));
    assert(ks.take(n + 6).last() == Key::Char('~'));
    let s1 = paste_keys(init, ks.take(n + 1));
    assert(s1 == PasteView { buf: t, esc: true, probe: -1, done: false });
    let s2 = paste_keys(init, ks.take(n + 2));
    assert(s2 == PasteView { buf: t, esc: false, probe: 0, done: false });
    let s3 = paste_keys(init, ks.take(n + 3));
    assert(s3.probe == 1 && s3.buf == t && !s3.done);
    let s4 = paste_keys(init, ks.take(n + 4));
    assert(s4.probe == 2 && s4.buf == t && !s4.done);
    let s5 = paste_keys(init, ks.take(n + 5));
    assert(s5.probe == 3 && s5.buf == t && !s5.done);
    let s6 = paste_keys(init, ks.take(n + 6));
    assert(s6.probe == 4 && s6.buf == t && s6.done);
}

} // verus!
