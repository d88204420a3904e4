use tuai::util::{
    display_width, extract_last_code_block, fuzzy_score, normalize_proxy, sanitize_filename,
    truncate_by_width, wrap_segments, wrap_text,
};

#[test]
fn wrap_cjk() {
    let lines = wrap_text("你好世界世界", 8);
    assert_eq!(lines, vec!["你好世界".to_string(), "世界".to_string()]);
}

#[test]
fn wrap_mixed() {
    let lines = wrap_text("abc 你好", 5);
    assert_eq!(lines, vec!["abc".to_string(), "你好".to_string()]);
}

#[test]
fn wrap_newline() {
    let lines = wrap_text("a\nb", 10);
    assert_eq!(lines, vec!["a".to_string(), "b".to_string()]);
}

#[test]
fn fuzzy_basic() {
    assert!(fuzzy_score("New Session", "ns").is_some());
    assert!(fuzzy_score("New Session", "xyz").is_none());
    assert!(fuzzy_score("abc", "abc").unwrap() > fuzzy_score("abc", "ac").unwrap());
}

#[test]
fn code_block() {
    let text = "前文\n```rust\nfn main() {}\n```\n后文\n```py\nx = 1\n```";
    assert_eq!(extract_last_code_block(text), Some("x = 1".to_string()));
    assert_eq!(extract_last_code_block("无代码"), None);
}

#[test]
fn truncate() {
    assert_eq!(truncate_by_width("你好世界", 4), "你…");
    assert_eq!(truncate_by_width("ab", 4), "ab");
}

#[test]
fn truncate_zero_width_limit_is_empty() {
    assert_eq!(truncate_by_width("abc", 0), "");
    assert_eq!(truncate_by_width("abcdef", 4), "abc…");
}

#[test]
fn wrap_segments_char_indices() {
    let segs = wrap_segments("ab你c", 3);
    assert_eq!(
        segs,
        vec![("ab".to_string(), 0, 2), ("你c".to_string(), 2, 4)]
    );
    assert_eq!(
        wrap_segments("你好", 2),
        vec![("你".to_string(), 0, 1), ("好".to_string(), 1, 2)]
    );
    assert_eq!(wrap_segments("", 5), vec![(String::new(), 0, 0)]);
}

#[test]
fn wrap_wide_char_in_narrow_width_gets_own_segment() {
    let segs = wrap_segments("你好", 1);
    assert_eq!(segs, vec![("你".to_string(), 0, 1), ("好".to_string(), 1, 2)]);
}

#[test]
fn wrap_text_trims_segment_ends_and_keeps_empty_lines() {
    assert_eq!(wrap_text("ab cd", 3), vec!["ab".to_string(), "cd".to_string()]);
    assert_eq!(wrap_text("a\n\nb", 4), vec!["a".to_string(), String::new(), "b".to_string()]);
    assert_eq!(wrap_text("", 4), vec![String::new()]);
}

#[test]
fn fuzzy_scores_exact_values() {
    assert_eq!(fuzzy_score("abc", "abc"), Some(7));
    assert_eq!(fuzzy_score("abc", "ac"), Some(2));
    assert_eq!(fuzzy_score("ABC", "b"), Some(1));
    assert_eq!(fuzzy_score("anything", ""), Some(0));
    assert_eq!(fuzzy_score("", "a"), None);
}

#[test]
fn code_block_fences() {
    assert_eq!(extract_last_code_block("~~~\nx\n~~~"), Some("x".to_string()));
    // a shorter fence inside a longer one is content
    assert_eq!(
        extract_last_code_block("````\n```\nin\n````"),
        Some("```\nin".to_string())
    );
    // an unclosed block is not returned
    assert_eq!(extract_last_code_block("```\nopen"), None);
    // \r\n line ends
    assert_eq!(extract_last_code_block("```\r\ny\r\n```\r\n"), Some("y".to_string()));
}

#[test]
fn sanitize_examples() {
    assert_eq!(sanitize_filename(" a/b:c "), "a-b-c");
    assert_eq!(sanitize_filename("你好 世界?"), "你好-世界");
    assert_eq!(sanitize_filename("plain"), "plain");
}

#[test]
fn proxy_gets_scheme() {
    assert_eq!(normalize_proxy("127.0.0.1:7890"), "http://127.0.0.1:7890");
    assert_eq!(normalize_proxy("socks5://h:1"), "socks5://h:1");
}

#[test]
fn display_width_counts_wide_chars() {
    assert_eq!(display_width("ab你"), 4);
}

#[test]
fn wrapped_lines_fit_the_width() {
    let text = "你好世界abc defg\n\nx你";
    for width in 1..8 {
        for line in wrap_text(text, width) {
            let w = display_width(&line);
            assert!(w <= width || line.chars().count() == 1, "{line:?} at {width}");
        }
    }
    let segs = wrap_segments("ab你好c", 3);
    let joined: String = segs.iter().map(|s| s.0.as_str()).collect();
    assert_eq!(joined, "ab你好c");
}

#[test]
fn clock_readings_become_timestamps() {
    assert_eq!(tuai::util::secs_or_zero(Some(1_700_000_000)), 1_700_000_000);
    assert_eq!(tuai::util::secs_or_zero(None), 0);
    assert!(tuai::util::now_secs() > 1_600_000_000);
}

#[test]
fn sanitized_names_are_settled_and_scores_in_range() {
    for s in ["a/b: c", "  x?y  ", "\t<|>\t", "ok-name", "a\tb"] {
        let once = sanitize_filename(s);
        assert_eq!(sanitize_filename(&once), once);
        assert!(!once.contains(' ') && !once.contains('/') && !once.contains(':'));
    }
    assert_eq!(fuzzy_score("abc", "abc"), Some(7));
    assert_eq!(fuzzy_score("a-b-c", "abc"), Some(3));
}

#[test]
fn truncation_keeps_the_longest_fitting_prefix_and_segments_are_contiguous() {
    assert_eq!(truncate_by_width("abcdef", 4), "abc…");
    assert_eq!(truncate_by_width("a你好", 4), "a你…");
    assert_eq!(truncate_by_width("你好世界", 5), "你好…");
    let segs = wrap_segments("ab你好cd", 3);
    assert_eq!(segs[0].1, 0);
    assert_eq!(segs.last().unwrap().2, 6);
    for w in segs.windows(2) {
        assert_eq!(w[0].2, w[1].1);
    }
}
