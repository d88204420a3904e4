use tuai::llm::{
    build_request_messages, http_failure, parse_chunk, parse_error, sse_data_line, ChatMessage,
    LlmEvent, SseDecoder,
};

#[test]
fn data_line() {
    assert_eq!(sse_data_line("data: hello"), Some("hello"));
    assert_eq!(sse_data_line("data:[DONE]"), Some("[DONE]"));
    assert_eq!(sse_data_line("event: x"), None);
    assert_eq!(sse_data_line(""), None);
}

#[test]
fn chunk_content() {
    let j = r#"{"id":"1","choices":[{"delta":{"content":"你好"}}]}"#;
    let d = parse_chunk(j).unwrap();
    assert_eq!(d.content.as_deref(), Some("你好"));
    assert_eq!(d.reasoning, None);
}

#[test]
fn chunk_reasoning() {
    let j = r#"{"choices":[{"delta":{"reasoning_content":"思考中"}}]}"#;
    let d = parse_chunk(j).unwrap();
    assert_eq!(d.reasoning.as_deref(), Some("思考中"));
}

#[test]
fn chunk_empty_delta() {
    let j = r#"{"choices":[{"delta":{"role":"assistant"}}]}"#;
    let d = parse_chunk(j).unwrap();
    assert_eq!(d.content, None);
}

#[test]
fn error_msg() {
    let j = r#"{"error":{"message":"invalid api key","type":"auth"}}"#;
    assert_eq!(parse_error(j), Some("invalid api key".to_string()));
}

#[test]
fn chunk_edge_cases() {
    assert!(parse_chunk("not json").is_none());
    assert!(parse_chunk(r#"{"choices":[]}"#).is_none());
    let d = parse_chunk(r#"{"choices":[{"delta":{"content":"","reasoning":"r"}}]}"#).unwrap();
    assert_eq!(d.content, None);
    assert_eq!(d.reasoning.as_deref(), Some("r"));
    assert_eq!(parse_error(r#"{"message":"m"}"#), Some("m".to_string()));
    assert_eq!(parse_error(r#"{"other":1}"#), None);
}

#[test]
fn decoder_stream_end_to_end() {
    let mut d = SseDecoder::new();
    let (e1, stop1) = d.feed(b"data: {\"choices\":[{\"delta\":{\"role\":\"assistant\"}}]}\n\ndata: {\"choices\":[{\"del");
    assert!(e1.is_empty());
    assert!(!stop1);
    let (e2, stop2) = d.feed("ta\":{\"content\":\"你好\"}}]}\n\ndata: [DONE]\n\n".as_bytes());
    assert_eq!(
        e2,
        vec![LlmEvent::Delta { text: "你好".into() }, LlmEvent::Done]
    );
    assert!(stop2);
}

#[test]
fn decoder_error_payload_and_endings() {
    let mut d = SseDecoder::new();
    let (e, stop) = d.feed(b"data: {\"error\":{\"message\":\"quota\"}}\r\n");
    assert_eq!(e, vec![LlmEvent::Failed { error: "quota".into() }]);
    assert!(stop);
    let d = SseDecoder::new();
    assert_eq!(
        d.finish(),
        LlmEvent::Failed { error: "流意外结束：未收到任何内容".into() }
    );
    assert_eq!(d.broken("x"), LlmEvent::Failed { error: "连接中断: x".into() });
    let mut d = SseDecoder::new();
    d.feed(b"data: {\"choices\":[{\"delta\":{\"content\":\"a\"}}]}\n");
    assert_eq!(d.finish(), LlmEvent::Done);
    assert_eq!(
        d.broken("x"),
        LlmEvent::Failed { error: "连接中断（已保留部分内容）: x".into() }
    );
}

#[test]
fn http_failure_messages() {
    assert_eq!(
        http_failure("401 Unauthorized", r#"{"error":{"message":"bad key"}}"#),
        LlmEvent::Failed { error: "HTTP 401 Unauthorized: bad key".into() }
    );
    assert_eq!(
        http_failure("500", "  oops  "),
        LlmEvent::Failed { error: "HTTP 500: oops".into() }
    );
}

#[test]
fn request_messages_put_system_first() {
    let hist = vec![ChatMessage::new("user", "hi".to_string())];
    let msgs = build_request_messages(Some("be brief".to_string()), &hist);
    assert_eq!(msgs.len(), 2);
    assert_eq!(msgs[0].role, "system");
    assert_eq!(msgs[0].content, "be brief");
    assert_eq!(msgs[1].content, "hi");
    let msgs = build_request_messages(Some("  ".to_string()), &hist);
    assert_eq!(msgs.len(), 1);
}

#[test]
fn decoder_events_do_not_depend_on_how_bytes_are_split() {
    let stream = "data: {\"choices\":[{\"delta\":{\"reasoning_content\":\"想\"}}]}\r\n\r\ndata: {\"choices\":[{\"delta\":{\"content\":\"你好\"}}]}\n\ndata: [DONE]\n\ndata: {\"choices\":[{\"delta\":{\"content\":\"late\"}}]}\n".as_bytes();
    let mut whole = SseDecoder::new();
    let (all, stop) = whole.feed(stream);
    assert!(stop);
    assert_eq!(
        all,
        vec![
            LlmEvent::Reasoning { text: "想".into() },
            LlmEvent::Delta { text: "你好".into() },
            LlmEvent::Done
        ]
    );
    for cut in 0..stream.len() {
        let mut d = SseDecoder::new();
        let (mut evs, stop1) = d.feed(&stream[..cut]);
        if !stop1 {
            let (more, stop2) = d.feed(&stream[cut..]);
            assert!(stop2);
            evs.extend(more);
        }
        assert_eq!(evs, all, "split at byte {cut}");
    }
}

#[test]
fn requests_go_to_the_endpoint_with_the_key() {
    assert_eq!(
        tuai::llm::api_url("https://api.deepseek.com/v1//", "chat/completions"),
        "https://api.deepseek.com/v1/chat/completions"
    );
    assert_eq!(tuai::llm::api_url("http://localhost:11434/v1", "models"), "http://localhost:11434/v1/models");
    assert_eq!(tuai::llm::auth_header("sk-test"), "Bearer sk-test");
    let hist = vec![ChatMessage::new("user", "hi".to_string())];
    let r = tuai::llm::chat_request("m1", Some("sys".to_string()), &hist);
    assert_eq!(r.model, "m1");
    assert!(r.stream);
    let pairs: Vec<(&str, &str)> = r.messages.iter().map(|m| (m.role.as_str(), m.content.as_str())).collect();
    assert_eq!(pairs, vec![("system", "sys"), ("user", "hi")]);
}
