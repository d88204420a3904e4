use tuai::app::{
    base_is_local, chat_history, clamp_selection, copy_source, effective_system_prompt, export_markdown,
    last_user_index, new_session_provider_model, next_message, pick_default_provider, prev_message,
    provider_has_credentials, scroll_down, scroll_to_sel, scroll_up, sidebar_down, sidebar_up, trimmed_or_none,
};
use tuai::config::{Config, Provider};
use tuai::model::{Message, Role, Session};
use tuai::state::{FormPurpose, FormState};

fn provider(name: &str, base: &str, key: &str) -> Provider {
    Provider {
        name: name.to_string(),
        base_url: base.to_string(),
        api_key: key.to_string(),
        default_model: format!("{name}-model"),
    }
}

fn config(default: &str, providers: Vec<Provider>) -> Config {
    let mut c = Config::default();
    c.default_provider = default.to_string();
    c.providers = providers;
    c
}

fn message(role: Role, content: &str) -> Message {
    Message { id: 0, session_id: 1, role, content: content.to_string(), reasoning: None, created_at: 0 }
}

#[test]
fn local_servers_need_no_key() {
    assert!(base_is_local("http://localhost:11434/v1"));
    assert!(base_is_local("http://127.0.0.1:8000/v1"));
    assert!(!base_is_local("https://api.deepseek.com/v1"));
    assert!(provider_has_credentials(&provider("a", "https://x/v1", " k ")));
    assert!(!provider_has_credentials(&provider("a", "https://x/v1", "   ")));
    assert!(provider_has_credentials(&provider("a", "http://localhost/v1", "")));
}

#[test]
fn new_sessions_pick_a_usable_provider() {
    let c = config("a", vec![provider("a", "https://a/v1", ""), provider("b", "https://b/v1", "kb")]);
    assert_eq!(pick_default_provider(&c, false), "b");
    assert_eq!(pick_default_provider(&c, true), "a");
    let none = config("a", vec![provider("a", "https://a/v1", "")]);
    assert_eq!(pick_default_provider(&none, false), "a");
    assert_eq!(new_session_provider_model(&c, false), ("b".to_string(), "b-model".to_string()));
    let mut last = c;
    last.last_provider = Some("a".to_string());
    last.last_model = Some("custom".to_string());
    assert_eq!(new_session_provider_model(&last, false), ("a".to_string(), "custom".to_string()));
    last.last_model = Some(String::new());
    assert_eq!(new_session_provider_model(&last, false), ("a".to_string(), "a-model".to_string()));
    last.last_provider = Some("gone".to_string());
    assert_eq!(new_session_provider_model(&last, false), ("b".to_string(), "b-model".to_string()));
    let empty = config("x", Vec::new());
    assert_eq!(new_session_provider_model(&empty, false), ("x".to_string(), String::new()));
}

#[test]
fn requests_carry_history_without_system_messages() {
    let ms = vec![message(Role::System, "s"), message(Role::User, "q"), message(Role::Assistant, "a")];
    let h = chat_history(&ms);
    let pairs: Vec<(&str, &str)> = h.iter().map(|m| (m.role.as_str(), m.content.as_str())).collect();
    assert_eq!(pairs, vec![("user", "q"), ("assistant", "a")]);
    assert_eq!(effective_system_prompt(&Some("  ".to_string()), &Some("global".to_string())), Some("global".to_string()));
    assert_eq!(effective_system_prompt(&Some("mine".to_string()), &Some("global".to_string())), Some("mine".to_string()));
    assert_eq!(effective_system_prompt(&None, &Some(" ".to_string())), None);
}

#[test]
fn scrolling_follows_and_leaves_the_bottom() {
    // 100 lines in a view of 20: the bottom offset is 80.
    assert_eq!(scroll_up(None, 100, 20, 3), Some(77));
    assert_eq!(scroll_up(Some(2), 100, 20, 3), Some(0));
    assert_eq!(scroll_down(Some(70), 100, 20, 3), Some(73));
    assert_eq!(scroll_down(Some(78), 100, 20, 3), None);
    assert_eq!(scroll_down(None, 100, 20, 3), None);
    let ranges = vec![(0u16, 10u16), (10, 50), (50, 100)];
    assert_eq!(scroll_to_sel(None, &ranges, Some(5), 100, 20), Some(5));
    assert_eq!(scroll_to_sel(Some(0), &ranges, None, 100, 20), Some(0));
    assert_eq!(scroll_to_sel(Some(1), &ranges, Some(0), 100, 20), Some(30));
    assert_eq!(scroll_to_sel(Some(2), &ranges, Some(0), 100, 20), None);
    assert_eq!(scroll_to_sel(Some(7), &ranges, Some(0), 100, 20), None);
}

#[test]
fn selections_wrap() {
    assert_eq!(next_message(None, 3), Some(0));
    assert_eq!(next_message(Some(2), 3), Some(0));
    assert_eq!(next_message(Some(1), 0), Some(1));
    assert_eq!(prev_message(None, 3), Some(2));
    assert_eq!(prev_message(None, 0), None);
    assert_eq!(prev_message(Some(0), 3), Some(2));
    assert_eq!(prev_message(Some(2), 3), Some(1));
    assert_eq!(sidebar_down(4, 5), 0);
    assert_eq!(sidebar_down(1, 0), 1);
    assert_eq!(sidebar_up(0, 5), 4);
    assert_eq!(sidebar_up(3, 5), 2);
    assert_eq!(clamp_selection(Some(9), 4), Some(3));
    assert_eq!(clamp_selection(Some(1), 4), Some(1));
    assert_eq!(clamp_selection(Some(1), 0), None);
    assert_eq!(clamp_selection(None, 4), None);
}

#[test]
fn regeneration_and_copy_sources() {
    let ms = vec![message(Role::User, "q1"), message(Role::Assistant, "a1"), message(Role::User, "q2")];
    assert_eq!(last_user_index(&ms), Some(2));
    assert_eq!(last_user_index(&vec![message(Role::Assistant, "a")]), None);
    assert_eq!(copy_source(&ms, Some(&"gen".to_string())), "a1");
    assert_eq!(copy_source(&vec![message(Role::User, "q")], Some(&"gen".to_string())), "gen");
    assert_eq!(copy_source(&Vec::new(), None), "");
}

#[test]
fn export_writes_headings_and_quoted_reasoning() {
    let s = Session {
        id: 3,
        title: "T".to_string(),
        provider: "p".to_string(),
        model: "m".to_string(),
        system_prompt: None,
        created_at: 0,
        updated_at: 0,
    };
    let mut a = message(Role::Assistant, "ans");
    a.reasoning = Some("r1\nr2".to_string());
    let mut empty_reasoning = message(Role::System, "sys");
    empty_reasoning.reasoning = Some(String::new());
    let md = export_markdown(&s, &vec![message(Role::User, "q"), a, empty_reasoning]);
    assert_eq!(md, "# T\n\n> p · m\n\n## 你\n\nq\n\n## AI\n\n> 思考：r1\n> r2\n\nans\n\n## 系统\n\nsys\n\n");
}

#[test]
fn provider_forms_change_the_configuration() {
    let mut c = Config::default();
    assert_eq!(c.add_provider("a", "https://a/v1", "k", ""), Some(("gpt-4o-mini".to_string(), true)));
    assert_eq!(c.default_provider, "a");
    assert_eq!(c.add_provider("b", "https://b/v1", "", "bm"), Some(("bm".to_string(), false)));
    assert_eq!(c.add_provider("a", "x", "y", "z"), None);
    assert_eq!(c.providers.len(), 2);
    assert_eq!(c.default_provider, "a");

    assert_eq!(c.edit_provider("a", "a2", "https://new/v1", "", "m2"), Some(true));
    assert_eq!(c.providers[0].name, "a2");
    assert_eq!(c.providers[0].base_url, "https://new/v1");
    assert_eq!(c.providers[0].api_key, "k");
    assert_eq!(c.providers[0].default_model, "m2");
    assert_eq!(c.default_provider, "a2");
    assert_eq!(c.edit_provider("b", "b", "u", "nk", ""), Some(false));
    assert_eq!(c.providers[1].api_key, "nk");
    assert_eq!(c.providers[1].default_model, "bm");
    assert_eq!(c.edit_provider("zz", "n", "u", "", ""), None);

    c.remember_choice("a2", "m2");
    assert_eq!(c.last_provider.as_deref(), Some("a2"));
    assert_eq!(c.last_model.as_deref(), Some("m2"));
    assert!(c.remove_provider("a2"));
    assert_eq!(c.providers.len(), 1);
    assert_eq!(c.default_provider, "b");
    assert_eq!(c.last_provider, None);
    assert_eq!(c.last_model, None);
    assert!(!c.remove_provider("a2"));
    assert!(c.remove_provider("b"));
    assert_eq!(c.default_provider, "");
}

#[test]
fn provider_form_requires_name_and_address() {
    let mut f = FormState::provider(FormPurpose::ProviderAdd, "", "", "", "");
    assert!(f.missing_required());
    f.fields[0].value = "n".to_string();
    f.fields[1].value = "  ".to_string();
    assert!(f.missing_required());
    f.fields[1].value = "https://x/v1".to_string();
    assert!(!f.missing_required());
    assert_eq!(trimmed_or_none("  hi \n"), Some("hi".to_string()));
    assert_eq!(trimmed_or_none(" \t"), None);
}

#[test]
fn favourites_and_environment_overrides() {
    let mut c = config("a", vec![provider("a", "https://a/v1", "k")]);
    assert!(!c.is_favorite("a", "m1"));
    assert!(c.toggle_favorite("a", "m1"));
    assert!(c.toggle_favorite("b", "m2"));
    assert!(c.toggle_favorite("a", "m3"));
    assert!(c.is_favorite("a", "m1"));
    assert_eq!(c.favorites_of("a"), vec!["m1".to_string(), "m3".to_string()]);
    assert!(!c.toggle_favorite("a", "m1"));
    assert_eq!(c.favorites, vec!["b/m2".to_string(), "a/m3".to_string()]);

    assert_eq!(c.provider("a").map(|p| p.api_key.as_str()), Some("k"));
    assert!(c.provider("z").is_none());
    let p = c.effective_provider("a", Some(" env-key "), Some(" http://proxy/v1// ")).unwrap();
    assert_eq!(p.api_key, "env-key");
    assert_eq!(p.base_url, "http://proxy/v1");
    let q = c.effective_provider("a", Some("  "), None).unwrap();
    assert_eq!(q.api_key, "k");
    assert_eq!(q.base_url, "https://a/v1");
    assert!(c.effective_provider("z", None, None).is_none());
}

#[test]
fn starred_models_are_listed_and_unstarring_restores() {
    let mut c = Config::default();
    c.toggle_favorite("p", "m0");
    let before = c.favorites.clone();
    assert!(c.toggle_favorite("p", "m1"));
    assert_eq!(c.favorites_of("p").last().map(|s| s.as_str()), Some("m1"));
    for m in c.favorites_of("p") {
        assert!(c.is_favorite("p", &m));
    }
    assert!(!c.toggle_favorite("p", "m1"));
    assert_eq!(c.favorites, before);
}
