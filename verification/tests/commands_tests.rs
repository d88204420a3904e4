use tuai::commands::{all, parse_slash, Action};

#[test]
fn slash_parse() {
    assert_eq!(parse_slash("/paste"), Some(Action::Paste));
    assert_eq!(parse_slash("paste"), Some(Action::Paste));
    assert_eq!(parse_slash("/provider add"), Some(Action::ProviderAdd));
    assert_eq!(parse_slash("/model"), Some(Action::SelectModel));
    assert_eq!(parse_slash("/unknown"), None);
    assert_eq!(parse_slash(""), None);
    assert_eq!(parse_slash("/new"), None);
    assert_eq!(parse_slash("/fav"), None);
}

#[test]
fn slash_parse_is_case_insensitive_and_trims() {
    assert_eq!(parse_slash("  /PROVIDER   Use  "), Some(Action::ProviderSwitch));
    assert_eq!(parse_slash("//quit"), Some(Action::Quit));
    assert_eq!(parse_slash("/provider"), None);
    assert_eq!(parse_slash("/model qwen-max"), Some(Action::SelectModel));
    assert_eq!(parse_slash("/provider add more words"), Some(Action::ProviderAdd));
    assert_eq!(parse_slash("/provider nope"), None);
}

#[test]
fn every_command_hint_parses_to_its_action() {
    for c in all() {
        assert_eq!(parse_slash(c.hint), Some(c.action.clone()));
        assert_eq!(parse_slash(&c.hint.to_uppercase()), Some(c.action.clone()));
        assert_eq!(parse_slash(&format!("  {}\t", c.hint)), Some(c.action.clone()));
        assert_eq!(parse_slash(c.hint.trim_start_matches('/')), Some(c.action.clone()));
    }
    assert_eq!(all().len(), 12);
}
