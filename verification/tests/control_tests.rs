use tuai::commands::Action;
use tuai::config::{Config, Provider};
use tuai::control::{
    auto_title, chat_key, classify_submission, export_file_name, finish_generation, models_outcome,
    plan_form, plan_generation, plan_models_fetch, provider_add_form, rename_sessions_provider,
    reselect_after_delete, route_key, sidebar_key, tab_focus, ChatKey, FormOutcome, FormPlan,
    InputOutcome, KeyCode, KeyPress, KeyRoute, MarkerState, ModelsOutcome, PaletteOutcome, SidebarKey,
    Submission,
};
use tuai::input::InputState;
use tuai::model::{Message, Role, Session};
use tuai::state::{Focus, FormPurpose, FormState, PaletteKind, PaletteState};

fn key(code: KeyCode) -> KeyPress {
    KeyPress { code, ctrl: false, alt: false, shift: false }
}

fn ctrl(c: char) -> KeyPress {
    KeyPress { code: KeyCode::Char(c), ctrl: true, alt: false, shift: false }
}

fn provider(name: &str, base: &str, key: &str) -> Provider {
    Provider {
        name: name.to_string(),
        base_url: base.to_string(),
        api_key: key.to_string(),
        default_model: format!("{name}-model"),
    }
}

fn session(id: i64, provider: &str) -> Session {
    Session {
        id,
        title: "t".to_string(),
        provider: provider.to_string(),
        model: "m".to_string(),
        system_prompt: None,
        created_at: 0,
        updated_at: 0,
    }
}

fn message(id: i64, role: Role, content: &str) -> Message {
    Message {
        id,
        session_id: 1,
        role,
        content: content.to_string(),
        reasoning: None,
        created_at: 0,
    }
}

#[test]
fn ctrl_keys_route_first() {
    assert_eq!(route_key(ctrl('c'), true, false, false, Focus::Input, false), KeyRoute::ArmQuit);
    assert_eq!(route_key(ctrl('c'), false, false, false, Focus::Input, true), KeyRoute::Quit);
    assert_eq!(route_key(ctrl('d'), false, true, false, Focus::Chat, false), KeyRoute::Quit);
    assert_eq!(route_key(ctrl('v'), false, false, false, Focus::Input, false), KeyRoute::PasteClipboard);
    assert_eq!(route_key(ctrl('r'), false, false, false, Focus::Input, false), KeyRoute::Regenerate);
    assert_eq!(route_key(ctrl('x'), false, false, false, Focus::Input, false), KeyRoute::Ignore);
}

#[test]
fn modal_layers_take_keys_before_focus() {
    let k = key(KeyCode::Char('a'));
    assert_eq!(route_key(k, true, true, true, Focus::Chat, false), KeyRoute::Form);
    assert_eq!(route_key(k, false, true, true, Focus::Chat, false), KeyRoute::Palette);
    assert_eq!(route_key(k, false, false, true, Focus::Chat, false), KeyRoute::Ignore);
    assert_eq!(route_key(key(KeyCode::Char('q')), false, false, true, Focus::Chat, false), KeyRoute::CloseHelp);
    assert_eq!(route_key(key(KeyCode::Tab), false, false, false, Focus::Chat, false), KeyRoute::CycleFocus);
    assert_eq!(route_key(key(KeyCode::Esc), false, false, false, Focus::Chat, false), KeyRoute::Escape);
    assert_eq!(route_key(k, false, false, false, Focus::Sidebar, false), KeyRoute::Sidebar);
}

#[test]
fn tab_selects_in_the_new_area() {
    assert_eq!(tab_focus(Focus::Input, Some(2), 5), (Focus::Chat, None, Some(Some(4))));
    assert_eq!(tab_focus(Focus::Input, Some(2), 0), (Focus::Chat, None, Some(None)));
    assert_eq!(tab_focus(Focus::Chat, None, 5), (Focus::Sidebar, Some(0), None));
    assert_eq!(tab_focus(Focus::Sidebar, Some(1), 5), (Focus::Input, None, None));
}

#[test]
fn input_keys_open_palette_and_help_only_when_empty() {
    let mut i = InputState::new();
    assert_eq!(i.on_key(key(KeyCode::Char('/'))), InputOutcome::OpenPalette);
    assert_eq!(i.on_key(key(KeyCode::Char('?'))), InputOutcome::ShowHelp);
    assert!(i.is_empty());
    assert_eq!(i.on_key(key(KeyCode::Char('a'))), InputOutcome::Handled);
    assert_eq!(i.on_key(key(KeyCode::Char('/'))), InputOutcome::Handled);
    let shift_enter = KeyPress { code: KeyCode::Enter, ctrl: false, alt: false, shift: true };
    assert_eq!(i.on_key(shift_enter), InputOutcome::Handled);
    assert_eq!(i.on_key(key(KeyCode::Char('b'))), InputOutcome::Handled);
    assert_eq!(i.on_key(key(KeyCode::Enter)), InputOutcome::Submit);
    assert_eq!(i.lines, vec!["a/".to_string(), "b".to_string()]);
    let alt_x = KeyPress { code: KeyCode::Char('x'), ctrl: false, alt: true, shift: false };
    assert_eq!(i.on_key(alt_x), InputOutcome::Handled);
    assert_eq!(i.take(), "a/\nb");
}

#[test]
fn submissions_are_commands_or_messages() {
    assert_eq!(classify_submission("/model"), Submission::Command(Action::SelectModel));
    assert_eq!(
        classify_submission("/nope  "),
        Submission::Unknown("未知命令 /nope（? 查看帮助）".to_string())
    );
    assert_eq!(classify_submission("/model\nhi"), Submission::Message("/model\nhi".to_string()));
    assert_eq!(classify_submission("hello"), Submission::Message("hello".to_string()));
}

#[test]
fn chat_keys_wrap_and_confirm_delete() {
    assert_eq!(chat_key(KeyCode::Char('j'), None, 3, false), (ChatKey::Select(Some(0)), false));
    assert_eq!(chat_key(KeyCode::Down, Some(2), 3, false), (ChatKey::Select(Some(0)), false));
    assert_eq!(chat_key(KeyCode::Up, Some(0), 3, false), (ChatKey::Select(Some(2)), false));
    assert_eq!(chat_key(KeyCode::Char('k'), None, 0, false), (ChatKey::Select(None), false));
    assert_eq!(chat_key(KeyCode::Char('G'), None, 3, false), (ChatKey::SelectLast(2), false));
    assert_eq!(chat_key(KeyCode::Char('g'), None, 0, false), (ChatKey::Nothing, false));
    assert_eq!(chat_key(KeyCode::Char('d'), Some(1), 3, false), (ChatKey::ArmDelete, true));
    assert_eq!(chat_key(KeyCode::Char('d'), Some(1), 3, true), (ChatKey::Delete, false));
    assert_eq!(chat_key(KeyCode::Char('x'), Some(1), 3, true), (ChatKey::Nothing, false));
}

#[test]
fn sidebar_keys_wrap_and_confirm_delete() {
    assert_eq!(sidebar_key(KeyCode::Char('j'), 2, 3, false), (SidebarKey::Move(0), false));
    assert_eq!(sidebar_key(KeyCode::Up, 0, 3, false), (SidebarKey::Move(2), false));
    assert_eq!(sidebar_key(KeyCode::Down, 0, 0, false), (SidebarKey::Nothing, false));
    assert_eq!(sidebar_key(KeyCode::Enter, 1, 3, false), (SidebarKey::Open(1), false));
    assert_eq!(sidebar_key(KeyCode::Char('r'), 5, 3, false), (SidebarKey::Nothing, false));
    assert_eq!(sidebar_key(KeyCode::Char('d'), 0, 3, false), (SidebarKey::ArmDelete, true));
    assert_eq!(sidebar_key(KeyCode::Char('d'), 0, 3, true), (SidebarKey::Delete, false));
}

#[test]
fn palette_keys_filter_and_choose() {
    let mut p = PaletteState::models(vec!["alpha".into(), "beta".into()], Vec::new());
    assert_eq!(p.on_key(key(KeyCode::Char('b')), PaletteKind::Models), PaletteOutcome::Stay);
    assert_eq!(p.filter, "b");
    assert_eq!(p.visible.len(), 1);
    assert_eq!(
        p.on_key(key(KeyCode::Enter), PaletteKind::Models),
        PaletteOutcome::Run(Action::SetModel("beta".to_string()))
    );
    assert_eq!(p.on_key(key(KeyCode::Char('f')), PaletteKind::Models), PaletteOutcome::ToggleFavorite);
    assert_eq!(p.on_key(key(KeyCode::Backspace), PaletteKind::Models), PaletteOutcome::Stay);
    assert_eq!(p.visible.len(), 2);
    assert_eq!(p.on_key(key(KeyCode::Esc), PaletteKind::Models), PaletteOutcome::Close);
    let mut q = PaletteState::providers(Action::SwitchProvider, vec!["x".into()]);
    assert_eq!(
        q.on_key(key(KeyCode::Enter), PaletteKind::ProvidersEdit),
        PaletteOutcome::EditProvider("x".to_string())
    );
    assert_eq!(
        q.on_key(key(KeyCode::Enter), PaletteKind::ProvidersDelete),
        PaletteOutcome::Run(Action::RemoveProvider("x".to_string()))
    );
}

#[test]
fn palette_paste_and_star() {
    let mut p = PaletteState::models(vec!["ab".into(), "cd".into()], Vec::new());
    p.paste("c\r\nd");
    assert_eq!(p.filter, "cd");
    assert_eq!(p.visible.len(), 1);
    p.set_starred("cd", true);
    assert!(p.visible[0].starred);
    assert!(p.items.iter().any(|i| i.label == "cd" && i.starred));
    assert!(p.items.iter().any(|i| i.label == "ab" && !i.starred));
}

#[test]
fn form_keys_edit_and_submit() {
    let mut f = provider_add_form();
    assert_eq!(f.on_key(key(KeyCode::Char('n'))), FormOutcome::Stay);
    assert_eq!(f.fields[0].value, "n");
    assert_eq!(f.on_key(key(KeyCode::Tab)), FormOutcome::Stay);
    assert_eq!(f.idx, 1);
    assert_eq!(f.on_key(key(KeyCode::Left)), FormOutcome::Stay);
    assert_eq!(f.fields[1].cx, "https://api.example.com/v1".chars().count() - 1);
    assert_eq!(f.on_key(key(KeyCode::Right)), FormOutcome::Stay);
    assert_eq!(f.on_key(key(KeyCode::Right)), FormOutcome::Stay);
    assert_eq!(f.fields[1].cx, "https://api.example.com/v1".chars().count());
    let shift_enter = KeyPress { code: KeyCode::Enter, ctrl: false, alt: false, shift: true };
    // several fields: Shift+Enter submits
    assert_eq!(f.on_key(shift_enter), FormOutcome::Submit);
    assert_eq!(f.on_key(key(KeyCode::Esc)), FormOutcome::Close);
    let mut g = FormState::simple("t", FormPurpose::SystemPrompt { session_id: 1 }, "l", "a");
    assert_eq!(g.on_key(shift_enter), FormOutcome::Stay);
    assert_eq!(g.fields[0].value, "a\n");
}

#[test]
fn form_plans() {
    let mut config = Config::default();
    let add = FormState::provider(FormPurpose::ProviderAdd, " x ", "", "k", "");
    assert_eq!(plan_form(&add, &config), FormPlan::Invalid("名称与 Base URL 不能为空".to_string()));
    let add = FormState::provider(FormPurpose::ProviderAdd, " x ", " http://h/v1 ", " k ", "");
    assert_eq!(
        plan_form(&add, &config),
        FormPlan::AddProvider {
            name: "x".into(),
            base_url: "http://h/v1".into(),
            api_key: "k".into(),
            model: "".into()
        }
    );
    config.providers.push(provider("x", "http://h/v1", "k"));
    assert_eq!(plan_form(&add, &config), FormPlan::Invalid("提供商 x 已存在".to_string()));
    let rename = FormState::simple("r", FormPurpose::RenameSession { session_id: 7 }, "l", "  ");
    assert_eq!(plan_form(&rename, &config), FormPlan::Invalid("标题不能为空".to_string()));
    let prompt = FormState::simple("p", FormPurpose::SystemPrompt { session_id: 7 }, "l", "  ");
    assert_eq!(plan_form(&prompt, &config), FormPlan::SystemPrompt { session_id: 7, prompt: None });
    let edit = FormState::simple(
        "e",
        FormPurpose::EditMessage { message_id: 3, regenerate: true },
        "l",
        " new ",
    );
    assert_eq!(
        plan_form(&edit, &config),
        FormPlan::EditMessage { message_id: 3, regenerate: true, content: "new".into() }
    );
}

#[test]
fn generation_plans_check_provider_and_key() {
    let mut config = Config::default();
    let s = session(1, "p");
    let msgs = vec![message(1, Role::User, "hi"), message(2, Role::System, "s"), message(3, Role::Assistant, "yo")];
    match plan_generation(&config, &s, &msgs, None, None) {
        Err(m) => assert_eq!(m, "提供商 \"p\" 不存在 · /provider use 切换"),
        Ok(_) => panic!("a missing provider must be refused"),
    }
    config.providers.push(provider("p", "https://api.x/v1", " "));
    match plan_generation(&config, &s, &msgs, None, None) {
        Err(m) => assert_eq!(m, "提供商 \"p\" 的 API Key 为空 · /provider edit 填写或 /provider use 切换"),
        Ok(_) => panic!("a provider without a key must be refused"),
    }
    config.system_prompt = Some("be brief".into());
    match plan_generation(&config, &s, &msgs, Some(" env-key "), None) {
        Ok(req) => {
            assert_eq!(req.provider.api_key, "env-key");
            assert_eq!(req.model, "m");
            assert_eq!(req.system, Some("be brief".to_string()));
            assert_eq!(req.history.len(), 2);
            assert_eq!(req.history[1].role, "assistant");
        }
        Err(m) => panic!("unexpected refusal: {m}"),
    }
    config.providers[0].base_url = "http://localhost:11434/v1".into();
    assert!(plan_models_fetch(&config, &s, None, None).is_ok());
}

#[test]
fn finishing_a_reply() {
    let f = finish_generation("abc", "", None);
    assert_eq!(f.save, Some(("abc".to_string(), None)));
    assert!(f.notice.is_none());
    assert!(f.send_next);
    let f = finish_generation("abc", "why", Some("boom"));
    assert_eq!(f.save, Some(("abc".to_string(), Some("why".to_string()))));
    assert_eq!(f.notice, Some("boom （已保留部分内容）".to_string()));
    assert!(!f.send_next);
    let f = finish_generation("", "", Some("boom"));
    assert!(f.save.is_none());
    assert_eq!(f.notice, Some("boom ".to_string()));
}

#[test]
fn model_lists_open_the_palette() {
    match models_outcome(Ok(vec!["a".into()]), Vec::new()) {
        ModelsOutcome::Open(p) => assert_eq!(p.items.len(), 1),
        _ => panic!("expected the palette"),
    }
    match models_outcome(Ok(Vec::new()), Vec::new()) {
        ModelsOutcome::Notice(n) => assert_eq!(n, "提供商未返回任何模型"),
        _ => panic!("expected a notice"),
    }
    match models_outcome(Err("x".into()), Vec::new()) {
        ModelsOutcome::Notice(n) => assert_eq!(n, "拉取模型失败: x"),
        _ => panic!("expected a notice"),
    }
    match models_outcome(Err("x".into()), vec!["f".into()]) {
        ModelsOutcome::OpenWithNotice(p, n) => {
            assert_eq!(p.items.len(), 1);
            assert!(p.items[0].starred);
            assert_eq!(n, "拉取失败: x（仅显示收藏）");
        }
        _ => panic!("expected the favourites"),
    }
}

#[test]
fn session_rules() {
    assert_eq!(auto_title("新会话", "你好世界，这是第一条消息，比较长的一句话"), Some("你好世界，这是第一条消…".to_string()));
    assert_eq!(auto_title("别的", "hi"), None);
    let ss = vec![session(5, "a"), session(9, "b"), session(3, "a")];
    assert_eq!(reselect_after_delete(&ss, Some(3), 0), 2);
    assert_eq!(reselect_after_delete(&ss, Some(42), 7), 2);
    assert_eq!(reselect_after_delete(&ss, None, 1), 1);
    let mut ss = ss;
    rename_sessions_provider(&mut ss, "a", "z");
    assert_eq!(ss.iter().map(|s| s.provider.as_str()).collect::<Vec<_>>(), vec!["z", "b", "z"]);
    assert_eq!(export_file_name("a/b: c", 12), "a-b--c-12.md");
}

#[test]
fn start_marker_typed_fast_starts_a_paste() {
    let mut m = MarkerState::new();
    let s = m.on_key(KeyCode::Esc, false);
    assert!(s.consumed && !s.fire_esc);
    for c in ['[', '2', '0', '0'] {
        let s = m.on_key(KeyCode::Char(c), true);
        assert!(s.consumed && !s.start_paste);
    }
    let s = m.on_key(KeyCode::Char('~'), true);
    assert!(s.consumed && s.start_paste && !s.fire_esc);
}

#[test]
fn broken_marker_replays_and_fires_escape() {
    let mut m = MarkerState::new();
    m.on_key(KeyCode::Esc, false);
    m.on_key(KeyCode::Char('['), true);
    let s = m.on_key(KeyCode::Char('x'), true);
    assert!(!s.consumed && s.fire_esc);
    assert_eq!(s.replay, vec!['[']);
    let mut m = MarkerState::new();
    m.on_key(KeyCode::Esc, false);
    let s = m.on_timeout();
    assert!(s.fire_esc && s.replay.is_empty());
    let s = m.on_key(KeyCode::Char('a'), true);
    assert!(!s.consumed && !s.fire_esc);
}

#[test]
fn queued_messages_go_out_in_order() {
    let mut o = tuai::control::Outbox::new();
    assert_eq!(o.submit("a".to_string(), false), tuai::control::SendStep::Dispatch);
    assert!(o.queued.is_empty());
    assert_eq!(o.submit("b".to_string(), true), tuai::control::SendStep::Queued);
    assert_eq!(o.submit("c".to_string(), true), tuai::control::SendStep::Queued);
    assert_eq!(o.next(), Some("b".to_string()));
    assert_eq!(o.next(), Some("c".to_string()));
    assert_eq!(o.next(), None);
}

#[test]
fn regeneration_and_provider_lists_are_planned() {
    let ms = vec![message(1, Role::User, "q"), message(2, Role::Assistant, "a")];
    assert_eq!(tuai::control::plan_regenerate(true, &ms), Err("正在生成中".to_string()));
    assert_eq!(tuai::control::plan_regenerate(false, &ms), Ok(0));
    assert_eq!(
        tuai::control::plan_regenerate(false, &vec![message(2, Role::Assistant, "a")]),
        Err("没有可重新生成的消息".to_string())
    );
    let mut c = Config::default();
    assert_eq!(tuai::control::provider_names(&c), Err("暂无提供商，请先 /provider add 添加".to_string()));
    let f = tuai::control::first_run_form(&c).unwrap();
    assert_eq!(f.purpose, FormPurpose::ProviderAdd);
    assert!(f.fields.iter().all(|x| x.value.is_empty()));
    c.providers.push(provider("a", "u", "k"));
    c.providers.push(provider("b", "u", "k"));
    assert_eq!(tuai::control::provider_names(&c), Ok(vec!["a".to_string(), "b".to_string()]));
    assert!(tuai::control::first_run_form(&c).is_none());
}

#[test]
fn timing_rules() {
    assert!(tuai::control::ctrlc_recent(1499));
    assert!(!tuai::control::ctrlc_recent(1500));
    assert!(tuai::control::toast_expired(3000));
    assert!(!tuai::control::toast_expired(2999));
    assert!(tuai::control::marker_recent(299));
    assert!(!tuai::control::marker_recent(300));
    assert!(tuai::control::marker_timed_out(121));
    assert!(!tuai::control::marker_timed_out(120));
}
