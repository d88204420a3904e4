use tuai::highlight::Highlighter;
use tuai::markdown::render;
use tuai::style::{Color, Line, Theme};

fn joined(lines: &[Line]) -> String {
    lines
        .iter()
        .flat_map(|l| l.spans.iter().map(|s| s.content.clone()))
        .collect()
}

fn line_text(l: &Line) -> String {
    l.spans.iter().map(|s| s.content.clone()).collect()
}

#[test]
fn renders_plain_text() {
    let theme = Theme::default();
    let lines = render("你好，世界", 40, &theme, None);
    assert!(!lines.is_empty());
    assert!(joined(&lines).contains("你好，世界"));
}

#[test]
fn renders_code_block() {
    let theme = Theme::default();
    let hl = Highlighter::new();
    let lines = render("```rust\nfn main() {}\n```", 40, &theme, hl.as_ref());
    let text = joined(&lines);
    assert!(text.contains("rust"));
    assert!(text.contains("fn main() {}"));
    assert!(text.contains('╰'));
}

#[test]
fn renders_list() {
    let theme = Theme::default();
    let lines = render("- a\n- b", 40, &theme, None);
    let text = joined(&lines);
    assert!(text.contains("• a"));
    assert!(text.contains("• b"));
}

#[test]
fn renders_heading() {
    let theme = Theme::default();
    let lines = render("# 标题", 40, &theme, None);
    assert!(joined(&lines).contains("◆ 标题"));
}

#[test]
fn renders_ordered_list_numbers() {
    let theme = Theme::default();
    let lines = render("3. x\n4. y", 40, &theme, None);
    let texts: Vec<String> = lines.iter().map(line_text).collect();
    assert!(texts.contains(&"3. x".to_string()));
    assert!(texts.contains(&"4. y".to_string()));
}

#[test]
fn renders_code_block_frame_without_highlighter() {
    let theme = Theme::default();
    let lines = render("```\nabc\n```", 10, &theme, None);
    let texts: Vec<String> = lines.iter().map(line_text).collect();
    // width 10: "╭─ code " takes 8 columns, then a rule to the edge
    assert!(texts.contains(&"╭─ code ──╮".to_string()));
    assert!(texts.contains(&"│ abc".to_string()));
    assert!(texts.contains(&"╰────────╯".to_string()));
}

#[test]
fn renders_narrow_width_as_eight() {
    let theme = Theme::default();
    let lines = render("---", 1, &theme, None);
    // a rule is width - 2 columns, with the width raised to 8
    assert_eq!(line_text(&lines[0]), "──────");
}

#[test]
fn renders_inline_code_with_padding() {
    let theme = Theme::default();
    let lines = render("a `b` c", 40, &theme, None);
    assert_eq!(line_text(&lines[0]), "a  b  c");
    let code = &lines[0].spans[1];
    assert_eq!(code.content, " b ");
    assert_eq!(code.style.bg, Some(Color::Rgb(46, 52, 64)));
}

#[test]
fn renders_table_columns() {
    let theme = Theme::default();
    let lines = render("| a | bb |\n|---|---|\n| x | y |", 40, &theme, None);
    let texts: Vec<String> = lines.iter().map(line_text).collect();
    assert_eq!(texts[0], "│  a  │  bb  │");
    assert_eq!(texts[1], "+─────+──────");
    assert_eq!(texts[2], "│ x  │ y   │");
}

#[test]
fn renders_quote_with_bar() {
    let theme = Theme::default();
    let lines = render("> q", 40, &theme, None);
    assert_eq!(line_text(&lines[0]), "│ q");
    assert_eq!(lines[0].spans[0].style.fg, Some(theme.quote));
}

#[test]
fn highlighted_code_is_split_into_coloured_pieces() {
    let theme = Theme::default();
    let hl = Highlighter::new();
    assert!(hl.is_some());
    let lines = render("```RUST\nfn main() {}\n```", 40, &theme, hl.as_ref());
    let code = lines
        .iter()
        .find(|l| line_text(l) == "│ fn main() {}")
        .expect("the code line");
    assert!(code.spans.len() > 2);
    assert_eq!(code.spans[0].content, "│ ");
    assert_eq!(code.spans[0].style.fg, Some(theme.code));
    assert!(code.spans[1..].iter().all(|s| matches!(s.style.fg, Some(Color::Rgb(..)))));
    let plain = render("```RUST\nfn main() {}\n```", 40, &theme, None);
    let plain_code = plain.iter().find(|l| line_text(l) == "│ fn main() {}").unwrap();
    assert_eq!(plain_code.spans.len(), 2);
}
