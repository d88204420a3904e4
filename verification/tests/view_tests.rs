use tuai::chat::{chat_lines, chat_offset};
use tuai::model::{Message, Role};
use tuai::models::{models_from_reply, sort_texts};
use tuai::proxy::{pick_proxy, proxy_var_names, system_proxy_from_registry};
use tuai::state::{Focus, FormPurpose, FormState, PaletteKind, PaletteState};
use tuai::style::{Color, Line, Theme};
use tuai::view::{
    activity, context_hint, form_layout, help_lines, input_cursor, input_height, input_hint, input_lines,
    input_title, notice_line, palette_lines, palette_title, palette_window, session_label, sidebar_entry,
    sidebar_highlight,
};

fn line_text(l: &Line) -> String {
    l.spans.iter().map(|s| s.content.clone()).collect()
}

fn texts(lines: &[Line]) -> Vec<String> {
    lines.iter().map(line_text).collect()
}

fn strings(v: &[&str]) -> Vec<String> {
    v.iter().map(|s| s.to_string()).collect()
}

fn message(role: Role, content: &str) -> Message {
    Message { id: 0, session_id: 1, role, content: content.to_string(), reasoning: None, created_at: 0 }
}

#[test]
fn empty_chat_shows_the_placeholder() {
    let theme = Theme::default();
    let (lines, ranges) = chat_lines(&Vec::new(), None, 40, false, None, &theme, None);
    assert_eq!(texts(&lines), vec!["（暂无消息）发送第一条消息开始对话 · ? 查看帮助".to_string()]);
    assert_eq!(lines[0].spans[0].style.fg, Some(theme.faint));
    assert!(ranges.is_empty());
}

#[test]
fn chat_lines_label_messages_and_record_their_ranges() {
    let theme = Theme::default();
    let mut answer = message(Role::Assistant, "hi");
    answer.reasoning = Some("why".to_string());
    let ms = vec![message(Role::User, "hello"), answer];
    let (lines, ranges) = chat_lines(&ms, None, 40, true, Some(0), &theme, None);
    assert_eq!(
        texts(&lines),
        strings(&["❯ 你", "  hello", "", "❯ AI", "┄ 思考过程", "  why", "hi", "", ""])
    );
    assert_eq!(ranges, vec![(0, 3), (3, 9)]);
    assert_eq!(lines[0].spans[0].style.bg, Some(Color::Rgb(46, 52, 64)));
    assert_eq!(lines[3].spans[0].style.bg, None);
    let (unfocused, _) = chat_lines(&ms, None, 40, false, Some(0), &theme, None);
    assert_eq!(unfocused[0].spans[0].style.bg, None);
}

#[test]
fn the_reply_under_way_follows_the_messages() {
    let theme = Theme::default();
    let (lines, ranges) = chat_lines(&Vec::new(), Some(("", "")), 40, false, None, &theme, None);
    assert_eq!(texts(&lines), strings(&["❯ AI", "…", "", "▍ 生成中…", ""]));
    assert!(ranges.is_empty());
    assert_eq!(chat_offset(None, 100, 20), 80);
    assert_eq!(chat_offset(Some(30), 100, 20), 30);
    assert_eq!(chat_offset(Some(95), 100, 20), 80);
    assert_eq!(chat_offset(None, 5, 20), 0);
}

#[test]
fn input_box_grows_with_its_text() {
    assert_eq!(input_height(&vec![String::new()], 20), 3);
    assert_eq!(input_height(&strings(&["hello"]), 20), 4);
    assert_eq!(input_height(&strings(&["a", "b"]), 20), 5);
    assert_eq!(input_height(&vec!["a".repeat(100)], 12), 8);
    assert_eq!(input_cursor(&strings(&["abc", "你好"]), 1, 1, 10), Some((2, 1)));
    assert_eq!(input_cursor(&strings(&["abcdefghijkl"]), 0, 12, 5), Some((2, 2)));
    assert_eq!(input_cursor(&strings(&["abc"]), 3, 0, 10), Some((0, 0)));
    let lines = input_lines(&strings(&["", "abcdef"]), 4);
    assert_eq!(texts(&lines), strings(&["", "abcd", "ef"]));
    assert!(lines[0].spans.is_empty());
}

#[test]
fn status_texts() {
    assert_eq!(context_hint(true, Focus::Input), " Esc 停止生成 ");
    assert_eq!(context_hint(false, Focus::Chat), " j/k 选消息 · e 编辑 · dd 删除 · c 复制代码 ");
    assert_eq!(activity(true, true, 3), Some("⟳ 生成中".to_string()));
    assert_eq!(activity(false, true, 3), Some("⟳ 拉取模型".to_string()));
    assert_eq!(activity(false, false, 12), Some("⏳ 队列 12".to_string()));
    assert_eq!(activity(false, false, 0), None);
    assert_eq!(session_label("p", "m", true), " p · ★ m");
    assert_eq!(session_label("p", "m", false), " p · m");
    assert_eq!(sidebar_entry("标题很长很长", true, 8), "● 标…");
    assert_eq!(sidebar_entry("ab", false, 20), "○ ab");
    assert_eq!(sidebar_highlight(7, 3), Some(2));
    assert_eq!(sidebar_highlight(1, 3), Some(1));
    assert_eq!(sidebar_highlight(0, 0), None);
    assert_eq!(input_title(false), " 输入 ");
    assert_eq!(input_hint(true), "生成中… 可继续输入，完成后自动发送");
    assert_eq!(palette_title(PaletteKind::Models), " 选择模型 ");
}

#[test]
fn notices_and_help() {
    let theme = Theme::default();
    let ok = notice_line("done", false, 20, &theme);
    assert_eq!(line_text(&ok), "✔ done");
    assert_eq!(ok.spans[1].style.fg, Some(theme.accent));
    let err = notice_line("你好世界", true, 8, &theme);
    assert_eq!(line_text(&err), "✖ 你…");
    assert_eq!(err.spans[0].style.fg, Some(theme.error));
    let help = help_lines(&theme);
    assert_eq!(help.len(), 15);
    assert_eq!(help[0].spans[0].content, format!("Tab{}", " ".repeat(17)));
    assert_eq!(help[0].spans[1].content, "切换焦点：输入 ↔ 消息 ↔ 侧栏");
    assert_eq!(line_text(&help[14]), "按 Esc 或 ? 关闭");
}

#[test]
fn palette_window_keeps_the_selection_in_view() {
    assert_eq!(palette_window(5, 10, 4), 3);
    assert_eq!(palette_window(9, 10, 4), 6);
    assert_eq!(palette_window(1, 3, 4), 0);
    let theme = Theme::default();
    let p = PaletteState::models(strings(&["a", "b"]), strings(&["f"]));
    let lines = palette_lines(&p, PaletteKind::Models, 10, &theme);
    assert_eq!(
        texts(&lines),
        strings(&["  ❯ ", "", "▸ ★ f", "    a", "    b", "", " ↑↓ 导航（含搜索栏）· f 收藏模型 · Enter 选择 "])
    );
    let empty = PaletteState::models(Vec::new(), Vec::new());
    let lines = palette_lines(&empty, PaletteKind::Commands, 10, &theme);
    assert_eq!(texts(&lines), strings(&["  ❯ ", "", "（无匹配）"]));
}

#[test]
fn forms_lay_out_fields_and_cursor() {
    let theme = Theme::default();
    let f = FormState::simple("重命名", FormPurpose::RenameSession { session_id: 1 }, "标题", "abc");
    let (lines, cursor) = form_layout(&f, 30, 10, &theme);
    assert_eq!(texts(&lines), strings(&["▸ 标题 abc", "", " Enter 提交 · Esc 取消"]));
    assert_eq!(cursor, (10, 0));
    let secret = FormState::provider(FormPurpose::ProviderAdd, "n", "u", "key", "m");
    let (lines, cursor) = form_layout(&secret, 40, 10, &theme);
    assert_eq!(line_text(&lines[2]), "  API Key（留空 = 不变） ***");
    assert_eq!(cursor, (8, 0));
}

#[test]
fn model_lists_come_sorted() {
    assert_eq!(sort_texts(strings(&["b", "a", "c", "a"])), strings(&["a", "a", "b", "c"]));
    let body = r#"{"data":[{"id":"qwen-max"},{"id":"deepseek-chat"},{"object":"model"},{"id":"llama3"}]}"#;
    assert_eq!(models_from_reply(true, "200 OK", body), Ok(strings(&["deepseek-chat", "llama3", "qwen-max"])));
    assert_eq!(models_from_reply(true, "200 OK", "{}"), Ok(Vec::new()));
    assert_eq!(
        models_from_reply(false, "401 Unauthorized", r#"{"error":{"message":"bad key"}}"#),
        Err("HTTP 401 Unauthorized: bad key".to_string())
    );
    assert_eq!(models_from_reply(false, "500", "oops"), Err("HTTP 500: oops".to_string()));
    let err = models_from_reply(true, "200 OK", "not json").unwrap_err();
    assert!(err.starts_with("解析模型列表失败: "));
    assert!(err.len() > "解析模型列表失败: ".len());
}

#[test]
fn proxies_are_forced_then_from_variables_then_from_the_system() {
    assert_eq!(
        proxy_var_names(),
        vec!["HTTPS_PROXY", "https_proxy", "HTTP_PROXY", "http_proxy", "ALL_PROXY", "all_proxy"]
    );
    let vars = vec![None, Some("  ".to_string()), Some(" 10.0.0.1:8080 ".to_string()), None, None, None];
    assert_eq!(pick_proxy(Some(" http://forced:1 "), &vars, Some("sys:2")), Some("http://forced:1".to_string()));
    assert_eq!(pick_proxy(Some("  "), &vars, Some("sys:2")), Some("http://10.0.0.1:8080".to_string()));
    assert_eq!(pick_proxy(None, &vec![None; 6], Some("socks5://sys:2")), Some("socks5://sys:2".to_string()));
    assert_eq!(pick_proxy(None, &vec![None; 6], None), None);
    let server = "\r\nHKEY_CURRENT_USER\\Software\r\n    ProxyServer    REG_SZ    127.0.0.1:7890\r\n";
    assert_eq!(system_proxy_from_registry("    ProxyEnable    REG_DWORD    0x1", server), Some("127.0.0.1:7890".to_string()));
    assert_eq!(system_proxy_from_registry("    ProxyEnable    REG_DWORD    0x0", server), None);
    let per_protocol = "    ProxyServer    REG_SZ    http=h:1;https=s:2\n";
    assert_eq!(system_proxy_from_registry("0x1", per_protocol), Some("h:1".to_string()));
    assert_eq!(system_proxy_from_registry("0x1", "nothing here"), None);
}

#[test]
fn dialogs_are_centred() {
    assert_eq!(tuai::layout::centered(70, 50, (0, 0, 100, 40)), (15, 10, 70, 20));
    assert_eq!(tuai::layout::centered(60, 60, (10, 5, 50, 20)), (20, 9, 30, 12));
    assert_eq!(tuai::layout::centered(100, 100, (3, 4, 30, 12)), (3, 4, 30, 12));
}
