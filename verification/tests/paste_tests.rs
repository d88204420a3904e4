use tuai::paste::{Key, PasteCollect};

fn feed_end_marker(p: &mut PasteCollect) {
    p.feed(Key::Esc);
    for c in ['[', '2', '0', '1', '~'] {
        p.feed(Key::Char(c));
    }
}

#[test]
fn paste_reassembly_multiline() {
    let mut p = PasteCollect::new();
    for k in [Key::Char('a'), Key::Enter, Key::Char('b'), Key::Enter, Key::Char('c')] {
        p.feed(k);
    }
    assert!(!p.done);
    feed_end_marker(&mut p);
    assert!(p.done);
    assert_eq!(p.finish(), "a\nb\nc");
}

#[test]
fn paste_reassembly_escaped_esc() {
    let mut p = PasteCollect::new();
    p.feed(Key::Esc);
    p.feed(Key::Esc);
    p.feed(Key::Char('x'));
    assert!(!p.done);
    feed_end_marker(&mut p);
    assert!(p.done);
    assert_eq!(p.finish(), "\x1bx");
}

#[test]
fn paste_reassembly_content_looks_like_end_marker() {
    let mut p = PasteCollect::new();
    for c in ['[', '2', '0', '1', '~'] {
        p.feed(Key::Char(c));
    }
    assert!(!p.done);
    feed_end_marker(&mut p);
    assert!(p.done);
    assert_eq!(p.finish(), "[201~");
}

#[test]
fn paste_failed_end_marker_keeps_escape_and_bracket() {
    let mut p = PasteCollect::new();
    p.feed(Key::Esc);
    p.feed(Key::Char('['));
    p.feed(Key::Char('2'));
    p.feed(Key::Char('x'));
    assert!(!p.done);
    feed_end_marker(&mut p);
    assert_eq!(p.finish(), "\x1b[x");
}

#[test]
fn paste_other_keys_are_ignored() {
    let mut p = PasteCollect::new();
    p.feed(Key::Char('a'));
    p.feed(Key::Other);
    p.feed(Key::Char('b'));
    feed_end_marker(&mut p);
    assert_eq!(p.finish(), "ab");
}

#[test]
fn collector_reports_when_done() {
    let mut p = tuai::paste::PasteCollect::new();
    assert!(!p.is_done());
    for k in [tuai::paste::Key::Char('x'), tuai::paste::Key::Esc, tuai::paste::Key::Char('['), tuai::paste::Key::Char('2'), tuai::paste::Key::Char('0'), tuai::paste::Key::Char('1'), tuai::paste::Key::Char('~')] {
        p.feed(k);
    }
    assert!(p.is_done());
    assert_eq!(p.finish(), "x");
}
