use cn_codex_bridge::config::BridgeConfig;
use cn_codex_bridge::json::Json;
use cn_codex_bridge::server::{
    bearer_authorization, bridge_error_body, feed, feed_bytes, format_sse_line, is_stream_request,
    needs_dashscope_sse_header, parse_sse_data, read_sse_event, requested_model,
    split_sse_event, SseAction,
};

fn s(text: &str) -> Json {
    Json::String(text.to_string())
}

fn obj(fields: Vec<(&str, Json)>) -> Json {
    Json::Object(fields.into_iter().map(|(k, v)| (k.to_string(), v)).collect())
}

fn config(url: &str) -> BridgeConfig {
    BridgeConfig { port: 15721, upstream_url: url.to_string(), api_key: "k".to_string() }
}

#[test]
fn endpoints_drop_trailing_slashes() {
    assert_eq!(
        config("https://api.deepseek.com/v1").chat_completions_url(),
        "https://api.deepseek.com/v1/chat/completions"
    );
    assert_eq!(
        config("https://api.deepseek.com/v1///").chat_completions_url(),
        "https://api.deepseek.com/v1/chat/completions"
    );
    assert_eq!(config("https://h/v1/").models_url(), "https://h/v1/models");
    assert_eq!(config("").models_url(), "/models");
    assert_eq!(config("///").chat_completions_url(), "/chat/completions");
}

#[test]
fn sse_data_is_read_from_the_first_data_line() {
    assert_eq!(parse_sse_data("event: x\ndata:  {\"a\":1} \r\n"), Some("{\"a\":1}".to_string()));
    assert_eq!(parse_sse_data("data: [DONE]"), Some("[DONE]".to_string()));
    assert_eq!(parse_sse_data("data:    \ndata: second"), Some("second".to_string()));
    assert_eq!(parse_sse_data("data:x"), None);
    assert_eq!(parse_sse_data(": comment\nid: 1"), None);
    assert_eq!(parse_sse_data(""), None);
    assert_eq!(parse_sse_data("data: \u{3000}wide\u{3000}"), Some("wide".to_string()));
}

#[test]
fn framed_events_read_back() {
    let framed = format_sse_line("{\"type\":\"response.completed\"}");
    assert_eq!(framed, "event: response.done\ndata: {\"type\":\"response.completed\"}\n\n");
    let (event, rest) = split_sse_event(&framed).unwrap();
    assert_eq!(rest, "");
    assert_eq!(parse_sse_data(&event), Some("{\"type\":\"response.completed\"}".to_string()));
}

#[test]
fn buffer_is_cut_at_the_first_blank_line() {
    assert_eq!(
        split_sse_event("data: a\n\ndata: b\n\npartial"),
        Some(("data: a".to_string(), "data: b\n\npartial".to_string()))
    );
    assert_eq!(split_sse_event("data: a\n"), None);
    assert_eq!(split_sse_event("\n\n"), Some((String::new(), String::new())));
    let buffer = "x\ny\n\nz";
    let (event, rest) = split_sse_event(buffer).unwrap();
    assert_eq!(format!("{}\n\n{}", event, rest), buffer);
}

#[test]
fn upstream_events_are_read() {
    match read_sse_event("data: [DONE]") {
        Some(SseAction::Finish(e)) => assert_eq!(
            e,
            obj(vec![
                ("type", s("response.completed")),
                ("response", obj(vec![("status", s("completed"))])),
            ])
        ),
        _ => panic!("expected the end of the stream"),
    }
    match read_sse_event("data: {\"choices\":[]}") {
        Some(SseAction::Chunk(text)) => assert_eq!(text, "{\"choices\":[]}"),
        _ => panic!("expected a chunk"),
    }
    assert!(read_sse_event("event: ping").is_none());
}

#[test]
fn handler_decisions() {
    assert_eq!(requested_model(&obj(vec![("model", s("qwen-plus"))])), "qwen-plus");
    assert_eq!(requested_model(&obj(vec![])), "deepseek-chat");
    assert!(is_stream_request(&obj(vec![])));
    assert!(!is_stream_request(&obj(vec![("stream", Json::Bool(false))])));
    assert!(needs_dashscope_sse_header("https://dashscope.aliyuncs.com/v1", true));
    assert!(!needs_dashscope_sse_header("https://dashscope.aliyuncs.com/v1", false));
    assert!(!needs_dashscope_sse_header("https://api.deepseek.com/v1", true));
    assert_eq!(bearer_authorization("sk-1"), "Bearer sk-1");
    assert_eq!(
        bridge_error_body("Upstream error: x"),
        obj(vec![(
            "error",
            obj(vec![("message", s("Upstream error: x")), ("type", s("bridge_error"))]),
        )])
    );
}

#[test]
fn feed_reads_complete_events_and_keeps_the_tail() {
    let mut buffer = String::from("data: {\"a\"");
    let actions = feed(&mut buffer, ":1}\n\n: ping\n\ndata: {\"b\":2}\n\ndata: par");
    assert_eq!(actions.len(), 2);
    assert!(matches!(&actions[0], SseAction::Chunk(t) if t == "{\"a\":1}"));
    assert!(matches!(&actions[1], SseAction::Chunk(t) if t == "{\"b\":2}"));
    assert_eq!(buffer, "data: par");
    let actions = feed(&mut buffer, "tial\n\ndata: [DONE]\n\ndata: {\"c\":3}\n\n");
    assert_eq!(actions.len(), 2);
    assert!(matches!(&actions[0], SseAction::Chunk(t) if t == "partial"));
    assert!(matches!(&actions[1], SseAction::Finish(_)));
    assert_eq!(buffer, "data: {\"c\":3}\n\n");
    let mut empty = String::new();
    assert!(feed(&mut empty, "").is_empty());
}

#[test]
fn feed_bytes_decodes_each_piece_on_its_own() {
    let mut buffer = String::new();
    let actions = feed_bytes(&mut buffer, "data: {\"t\":\"中\"}\n\ndata: x".as_bytes());
    assert_eq!(actions.len(), 1);
    assert!(matches!(&actions[0], SseAction::Chunk(t) if t == "{\"t\":\"中\"}"));
    assert_eq!(buffer, "data: x");
    // a character cut across two pieces becomes replacement characters
    let bytes = "中".as_bytes();
    let mut cut = String::new();
    let _ = feed_bytes(&mut cut, &bytes[..1]);
    let _ = feed_bytes(&mut cut, &bytes[1..]);
    assert_eq!(cut, "\u{FFFD}\u{FFFD}\u{FFFD}");
}
