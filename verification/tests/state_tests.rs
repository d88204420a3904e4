use tuai::input::InputState;
use tuai::state::{Focus, FormPurpose, FormState, PaletteState};

#[test]
fn palette_wrap_navigation() {
    let p = PaletteState::models(vec!["a".into(), "b".into(), "c".into()], Vec::new());
    let mut p = p;
    p.selected = p.visible.len() - 1;
    p.move_down();
    assert_eq!(p.selected, 0);
    p.move_up();
    assert_eq!(p.selected, p.visible.len() - 1);
}

#[test]
fn palette_models_favorites_first() {
    let p = PaletteState::models(
        vec!["m1".into(), "m2".into()],
        vec!["fav".into(), "m1".into()],
    );
    assert_eq!(p.items[0].label, "fav");
    assert!(p.items[0].starred);
    assert_eq!(p.items.iter().filter(|i| i.label == "m1").count(), 1);
}

#[test]
fn input_insert_text_single() {
    let mut i = InputState::new();
    i.set_text("abc");
    i.cx = 1;
    i.insert_text("XY");
    assert_eq!(i.take(), "aXYbc");
}

#[test]
fn input_insert_text_multiline() {
    let mut i = InputState::new();
    i.insert_char('a');
    i.insert_char('b');
    i.insert_text("x\ny\nz");
    assert_eq!(i.take(), "abx\ny\nz");
}

#[test]
fn input_insert_text_crlf() {
    let mut i = InputState::new();
    i.insert_text("a\r\nb");
    assert_eq!(i.take(), "a\nb");
}

#[test]
fn palette_filters_by_hint() {
    let mut p = PaletteState::commands();
    p.filter = "model".into();
    p.refilter();
    assert!(p.visible.iter().any(|i| i.hint == "/model"));
    p.filter = "zzzz".into();
    p.refilter();
    assert!(p.visible.is_empty());
    assert_eq!(p.selected, 0);
}

#[test]
fn palette_keeps_selected_entry_when_still_visible() {
    let mut p = PaletteState::models(vec!["alpha".into(), "beta".into(), "gamma".into()], Vec::new());
    p.selected = 2;
    p.filter = "a".into();
    p.refilter();
    // alpha, beta, gamma all contain 'a'; gamma stays selected
    assert_eq!(p.visible[p.selected].label, "gamma");
    p.filter = "al".into();
    p.refilter();
    assert_eq!(p.selected, 0);
}

#[test]
fn palette_providers_uses_action() {
    let p = PaletteState::providers(tuai::commands::Action::SwitchProvider, vec!["x".into()]);
    assert_eq!(p.items[0].action, tuai::commands::Action::SwitchProvider("x".into()));
}

#[test]
fn input_editing_and_history() {
    let mut i = InputState::new();
    for c in "hello".chars() {
        i.insert_char(c);
    }
    i.left();
    i.left();
    i.newline();
    assert_eq!(i.lines, vec!["hel".to_string(), "lo".to_string()]);
    i.backspace();
    assert_eq!(i.lines, vec!["hello".to_string()]);
    assert_eq!(i.cx, 3);
    i.home();
    i.delete();
    assert_eq!(i.lines, vec!["hllo".to_string()]);
    i.end();
    assert_eq!(i.cx, 4);
    i.history.push("first".into());
    i.history.push("second".into());
    i.up();
    assert_eq!(i.lines, vec!["second".to_string()]);
    i.up();
    assert_eq!(i.lines, vec!["first".to_string()]);
    i.down();
    assert_eq!(i.lines, vec!["second".to_string()]);
    i.down();
    assert!(i.is_empty());
    assert_eq!(i.hist_idx, None);
}

#[test]
fn input_paste_multiline_keeps_following_lines() {
    let mut i = InputState::new();
    i.set_text("ab\ncd");
    i.cy = 0;
    i.cx = 1;
    i.insert_text("X\nYZ");
    assert_eq!(i.lines, vec!["aX".to_string(), "YZb".to_string(), "cd".to_string()]);
    // the cursor ends right after the pasted text
    assert_eq!((i.cy, i.cx), (1, 2));
}

#[test]
fn set_text_then_take_roundtrip() {
    let mut i = InputState::new();
    i.set_text("one\n\ntwo");
    assert_eq!(i.take(), "one\n\ntwo");
    assert!(i.is_empty());
}

#[test]
fn focus_cycles() {
    assert_eq!(Focus::Input.next(), Focus::Chat);
    assert_eq!(Focus::Input.next().next().next(), Focus::Input);
}

#[test]
fn form_editing() {
    let mut f = FormState::simple("t", FormPurpose::ProviderAdd, "l", "ab");
    f.insert_char('c');
    assert_eq!(f.fields[0].value, "abc");
    f.insert_text("d\r\ne");
    assert_eq!(f.fields[0].value, "abcd\ne");
    f.backspace();
    assert_eq!(f.value(0), "abcd");
    let mut p = FormState::provider(FormPurpose::ProviderAdd, "n", "u", "k", "m");
    assert_eq!(p.title, "添加提供商");
    assert!(p.fields[2].secret);
    p.next_field();
    p.next_field();
    p.next_field();
    p.next_field();
    assert_eq!(p.idx, 0);
}

#[test]
fn backspace_undoes_typing_and_line_breaks() {
    let mut i = InputState::new();
    i.set_text("ab\n你好");
    i.cy = 1;
    i.cx = 1;
    i.insert_char('x');
    assert_eq!(i.lines, vec!["ab".to_string(), "你x好".to_string()]);
    i.backspace();
    assert_eq!(i.lines, vec!["ab".to_string(), "你好".to_string()]);
    assert_eq!((i.cy, i.cx), (1, 1));
    i.newline();
    assert_eq!(i.lines, vec!["ab".to_string(), "你".to_string(), "好".to_string()]);
    i.backspace();
    assert_eq!(i.lines, vec!["ab".to_string(), "你好".to_string()]);
    assert_eq!((i.cy, i.cx), (1, 1));
}

#[test]
fn empty_filter_shows_every_command_in_order() {
    let p = PaletteState::commands();
    let shown: Vec<&str> = p.visible.iter().map(|i| i.hint.as_str()).collect();
    let all: Vec<&str> = p.items.iter().map(|i| i.hint.as_str()).collect();
    assert_eq!(shown, all);
    assert_eq!(shown.len(), tuai::commands::all().len());
}

#[test]
fn delete_on_the_last_character_changes_nothing() {
    let mut i = InputState::new();
    i.set_text("abc\nde");
    i.cy = 0;
    i.cx = 2;
    i.delete();
    assert_eq!(i.lines, vec!["abc".to_string(), "de".to_string()]);
    i.cx = 0;
    i.delete();
    assert_eq!(i.lines, vec!["ac".to_string(), "de".to_string()]);
    i.cx = 2;
    i.delete();
    assert_eq!(i.lines, vec!["acde".to_string()]);
}

#[test]
fn palette_matches_hint_and_label() {
    // The label case looks for a command that still exists: `/new` (新建) was
    // removed from the command table, and `parse_slash("/new")` is `None`.
    // the slash form (hint) matches
    let mut p = PaletteState::commands();
    p.filter = "model".into();
    p.refilter();
    assert!(p.visible.iter().any(|i| i.hint == "/model"));
    // the Chinese description (label) matches
    let mut p = PaletteState::commands();
    p.filter = "模型".into();
    p.refilter();
    assert!(p.visible.iter().any(|i| i.hint == "/model"));
}

#[test]
fn refiltering_twice_and_form_backspace() {
    let mut p = PaletteState::models(vec!["alpha".into(), "beta".into(), "gamma".into()], Vec::new());
    p.selected = 2;
    p.filter = "a".into();
    p.refilter();
    let (vis, sel): (Vec<String>, usize) = (p.visible.iter().map(|i| i.label.clone()).collect(), p.selected);
    p.refilter();
    assert_eq!(p.visible.iter().map(|i| i.label.clone()).collect::<Vec<_>>(), vis);
    assert_eq!(p.selected, sel);
    let mut f = FormState::simple("t", FormPurpose::RenameSession { session_id: 1 }, "l", "ab");
    f.fields[0].cx = 1;
    f.insert_char('x');
    assert_eq!(f.fields[0].value, "axb");
    f.backspace();
    assert_eq!((f.fields[0].value.as_str(), f.fields[0].cx), ("ab", 1));
}
