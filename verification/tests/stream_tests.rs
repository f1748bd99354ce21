use cn_codex_bridge::json::{Json, JsonNumber};
use cn_codex_bridge::stream::{response_id_at, uuid_short, StreamConverter};

fn s(text: &str) -> Json {
    Json::String(text.to_string())
}

fn obj(fields: Vec<(&str, Json)>) -> Json {
    Json::Object(fields.into_iter().map(|(k, v)| (k.to_string(), v)).collect())
}

fn arr(items: Vec<Json>) -> Json {
    Json::Array(items)
}

fn uint(n: u64) -> Json {
    Json::Number(JsonNumber::PosInt(n))
}

fn created(id: &str, model: &str) -> Json {
    obj(vec![
        ("type", s("response.created")),
        (
            "response",
            obj(vec![
                ("id", s(id)),
                ("object", s("response")),
                ("status", s("in_progress")),
                ("model", s(model)),
                ("output", arr(vec![])),
            ]),
        ),
    ])
}

fn text_added() -> Json {
    obj(vec![
        ("type", s("response.output_item.added")),
        ("output_index", uint(0)),
        (
            "item",
            obj(vec![("type", s("message")), ("role", s("assistant")), ("content", arr(vec![]))]),
        ),
    ])
}

fn text_delta(text: &str) -> Json {
    obj(vec![
        ("type", s("response.output_text.delta")),
        ("output_index", uint(0)),
        ("content_index", uint(0)),
        ("delta", s(text)),
    ])
}

fn completed(id: &str, status: &str) -> Json {
    obj(vec![
        ("type", s("response.completed")),
        ("response", obj(vec![("id", s(id)), ("status", s(status))])),
    ])
}

fn text_chunk(text: &str, finish: Json) -> Json {
    obj(vec![(
        "choices",
        arr(vec![obj(vec![("delta", obj(vec![("content", s(text))])), ("finish_reason", finish)])]),
    )])
}

#[test]
fn test_stream_converter() {
    let mut converter = StreamConverter::new("deepseek-chat".to_string());

    let chunk = obj(vec![(
        "choices",
        arr(vec![obj(vec![
            ("delta", obj(vec![("content", s("Hello"))])),
            ("finish_reason", Json::Null),
        ])]),
    )]);

    let events = converter.convert_chunk(&chunk);
    assert!(!events.is_empty());
    // Should have created event + text item added + text delta
    assert!(events.len() >= 2);
}

#[test]
fn text_stream_exact_events() {
    let mut c = StreamConverter::started_at("m".to_string(), 255);
    let id = "resp_br_ff";
    let e1 = c.convert_chunk(&text_chunk("Hel", Json::Null));
    assert_eq!(e1, vec![created(id, "m"), text_added(), text_delta("Hel")]);
    let e2 = c.convert_chunk(&text_chunk("lo", Json::Null));
    assert_eq!(e2, vec![text_delta("lo")]);
    let e3 = c.convert_chunk(&text_chunk("", s("stop")));
    assert_eq!(e3, vec![completed(id, "completed")]);
}

#[test]
fn finish_reason_null_text_does_not_finish() {
    let mut c = StreamConverter::started_at("m".to_string(), 1);
    let _ = c.convert_chunk(&text_chunk("a", Json::Null));
    let e = c.convert_chunk(&text_chunk("b", s("null")));
    assert_eq!(e, vec![text_delta("b")]);
}

#[test]
fn tool_call_stream_exact_events() {
    let mut c = StreamConverter::started_at("m".to_string(), 16);
    let id = "resp_br_10";
    let first = obj(vec![(
        "choices",
        arr(vec![obj(vec![(
            "delta",
            obj(vec![(
                "tool_calls",
                arr(vec![obj(vec![
                    ("index", uint(0)),
                    ("id", s("call_x")),
                    ("function", obj(vec![("name", s("read")), ("arguments", s("{\"a\""))])),
                ])]),
            )]),
        )])]),
    )]);
    let e1 = c.convert_chunk(&first);
    let delta1 = obj(vec![
        ("type", s("response.function_call_arguments.delta")),
        ("item_id", s("call_x")),
        ("delta", s("{\"a\"")),
    ]);
    assert_eq!(e1, vec![created(id, "m"), delta1]);

    let second = obj(vec![(
        "choices",
        arr(vec![obj(vec![
            (
                "delta",
                obj(vec![(
                    "tool_calls",
                    arr(vec![obj(vec![
                        ("index", uint(0)),
                        ("function", obj(vec![("arguments", s(":1}"))])),
                    ])]),
                )]),
            ),
            ("finish_reason", s("tool_calls")),
        ])]),
    )]);
    let e2 = c.convert_chunk(&second);
    let delta2 = obj(vec![
        ("type", s("response.function_call_arguments.delta")),
        ("item_id", s("call_x")),
        ("delta", s(":1}")),
    ]);
    let done = obj(vec![
        ("type", s("response.output_item.done")),
        ("output_index", uint(0)),
        (
            "item",
            obj(vec![
                ("type", s("function_call")),
                ("call_id", s("call_x")),
                ("name", s("read")),
                ("arguments", s("{\"a\":1}")),
            ]),
        ),
    ]);
    assert_eq!(e2, vec![delta2, done, completed(id, "incomplete")]);
}

#[test]
fn tool_call_without_id_gets_call_index() {
    let mut c = StreamConverter::started_at("m".to_string(), 0);
    let chunk = obj(vec![(
        "choices",
        arr(vec![obj(vec![
            (
                "delta",
                obj(vec![("tool_calls", arr(vec![obj(vec![("index", uint(12))])]))]),
            ),
            ("finish_reason", s("tool_calls")),
        ])]),
    )]);
    let e = c.convert_chunk(&chunk);
    assert_eq!(e.len(), 4);
    assert_eq!(
        e[1],
        obj(vec![
            ("type", s("response.function_call_arguments.delta")),
            ("item_id", s("call_12")),
            ("delta", s("")),
        ])
    );
    assert_eq!(
        e[2],
        obj(vec![
            ("type", s("response.output_item.done")),
            ("output_index", uint(0)),
            (
                "item",
                obj(vec![
                    ("type", s("function_call")),
                    ("call_id", s("call_12")),
                    ("name", s("")),
                    ("arguments", s("")),
                ]),
            ),
        ])
    );
}

#[test]
fn two_pending_calls_each_get_one_done_event() {
    let mut c = StreamConverter::started_at("m".to_string(), 0);
    let chunk = obj(vec![(
        "choices",
        arr(vec![obj(vec![
            (
                "delta",
                obj(vec![(
                    "tool_calls",
                    arr(vec![
                        obj(vec![("index", uint(0)), ("id", s("a"))]),
                        obj(vec![("index", uint(1)), ("id", s("b"))]),
                    ]),
                )]),
            ),
            ("finish_reason", s("tool_calls")),
        ])]),
    )]);
    let e = c.convert_chunk(&chunk);
    // created, two deltas, two done events (in either order), completed
    assert_eq!(e.len(), 6);
    let mut ids: Vec<String> = e[3..5]
        .iter()
        .map(|ev| match ev.get("item").and_then(|i| i.get("call_id")) {
            Some(Json::String(id)) => id.clone(),
            _ => panic!("no call id"),
        })
        .collect();
    ids.sort();
    assert_eq!(ids, vec!["a".to_string(), "b".to_string()]);
    assert_eq!(e[5], completed("resp_br_0", "incomplete"));
}

#[test]
fn chunk_without_choices_only_opens() {
    let mut c = StreamConverter::started_at("m".to_string(), 10);
    let e = c.convert_chunk(&obj(vec![("id", s("x"))]));
    assert_eq!(e, vec![created("resp_br_a", "m")]);
}

#[test]
fn response_ids_are_prefixed_hex() {
    assert_eq!(response_id_at(0), "resp_br_0");
    assert_eq!(response_id_at(0x18c2f5a3b10), "resp_br_18c2f5a3b10");
    let short = uuid_short();
    assert!(!short.is_empty());
    assert!(short.chars().all(|ch| ch.is_ascii_hexdigit() && !ch.is_ascii_uppercase()));
    let mut c = StreamConverter::new("m".to_string());
    let e = c.convert_chunk(&obj(vec![]));
    match e[0].get("response").and_then(|r| r.get("id")) {
        Some(Json::String(id)) => assert!(id.starts_with("resp_br_") && id.len() > 8),
        _ => panic!("no id"),
    }
}

#[test]
fn reasoning_content_becomes_reasoning_events() {
    let mut c = StreamConverter::started_at("deepseek-reasoner".to_string(), 1);
    let chunk = obj(vec![(
        "choices",
        arr(vec![obj(vec![
            ("delta", obj(vec![("reasoning_content", s("Let me think"))])),
            ("finish_reason", Json::Null),
        ])]),
    )]);
    let e = c.convert_chunk(&chunk);
    let reasoning = obj(vec![
        ("type", s("response.reasoning_text.delta")),
        ("output_index", uint(0)),
        ("content_index", uint(0)),
        ("delta", s("Let me think")),
    ]);
    assert_eq!(e, vec![created("resp_br_1", "deepseek-reasoner"), reasoning.duplicate()]);
    // the response is opened once; reasoning comes before the text of the
    // same delta
    let chunk = obj(vec![(
        "choices",
        arr(vec![obj(vec![(
            "delta",
            obj(vec![("reasoning_content", s("Let me think")), ("content", s("Hi"))]),
        )])]),
    )]);
    let e = c.convert_chunk(&chunk);
    assert_eq!(
        e,
        vec![reasoning, text_added(), text_delta("Hi")]
    );
    // once the text item is open, empty reasoning gives nothing
    let e = c.convert_chunk(&obj(vec![(
        "choices",
        arr(vec![obj(vec![("delta", obj(vec![("reasoning_content", s(""))]))])]),
    )]));
    assert_eq!(e, vec![]);
}

fn call_delta(index: u64, fields: Vec<(&str, Json)>) -> Json {
    let mut all = vec![("index", uint(index))];
    all.extend(fields);
    obj(all)
}

fn tool_chunk(deltas: Vec<Json>, finish: Json) -> Json {
    obj(vec![(
        "choices",
        arr(vec![obj(vec![
            ("delta", obj(vec![("tool_calls", arr(deltas))])),
            ("finish_reason", finish),
        ])]),
    )])
}

fn done_call(id: &str, name: &str, arguments: &str) -> Json {
    obj(vec![
        ("type", s("response.output_item.done")),
        ("output_index", uint(0)),
        (
            "item",
            obj(vec![
                ("type", s("function_call")),
                ("call_id", s(id)),
                ("name", s(name)),
                ("arguments", s(arguments)),
            ]),
        ),
    ])
}

#[test]
fn interleaved_calls_accumulate_apart() {
    let mut c = StreamConverter::started_at("m".to_string(), 2);
    let args = |piece: &str| obj(vec![("arguments", s(piece))]);
    let _ = c.convert_chunk(&tool_chunk(
        vec![
            call_delta(0, vec![("id", s("a")), ("function", obj(vec![("name", s("f")), ("arguments", s("{\"x\""))]))]),
            call_delta(1, vec![("id", s("b")), ("function", obj(vec![("name", s("g")), ("arguments", s("[1"))]))]),
        ],
        Json::Null,
    ));
    let _ = c.convert_chunk(&tool_chunk(
        vec![call_delta(1, vec![("function", args(",2]"))]), call_delta(0, vec![("function", args(":1}"))])],
        Json::Null,
    ));
    let e = c.convert_chunk(&tool_chunk(vec![], s("tool_calls")));
    assert_eq!(e.len(), 3);
    let a = done_call("a", "f", "{\"x\":1}");
    let b = done_call("b", "g", "[1,2]");
    assert!((e[0] == a && e[1] == b) || (e[0] == b && e[1] == a));
    assert_eq!(e[2], completed("resp_br_2", "incomplete"));
    // nothing is pending afterwards, and the response is not opened again
    let e = c.convert_chunk(&tool_chunk(vec![], s("stop")));
    assert_eq!(e, vec![completed("resp_br_2", "completed")]);
}

#[test]
fn text_item_opens_once_in_first_text_chunk() {
    let mut c = StreamConverter::started_at("m".to_string(), 3);
    let mut all: Vec<Json> = Vec::new();
    let e0 = c.convert_chunk(&text_chunk("", Json::Null));
    assert_eq!(e0, vec![created("resp_br_3", "m")]);
    all.extend(e0);
    let e1 = c.convert_chunk(&text_chunk("He", Json::Null));
    assert_eq!(e1, vec![text_added(), text_delta("He")]);
    all.extend(e1);
    let e2 = c.convert_chunk(&text_chunk("llo", Json::Null));
    assert_eq!(e2, vec![text_delta("llo")]);
    all.extend(e2);
    let e3 = c.convert_chunk(&text_chunk("!", s("stop")));
    all.extend(e3);
    assert_eq!(all.iter().filter(|ev| **ev == text_added()).count(), 1);
    assert_eq!(all.iter().filter(|ev| **ev == created("resp_br_3", "m")).count(), 1);
    // every created and completed event carries the converter's own id
    for ev in &all {
        match ev.get("type") {
            Some(Json::String(t)) if t == "response.created" => assert_eq!(*ev, created("resp_br_3", "m")),
            Some(Json::String(t)) if t == "response.completed" => {
                assert_eq!(*ev, completed("resp_br_3", "completed"))
            }
            _ => {}
        }
    }
}

#[test]
fn created_once_after_role_only_first_chunk() {
    let mut c = StreamConverter::started_at("m".to_string(), 4);
    let first = obj(vec![(
        "choices",
        arr(vec![obj(vec![("delta", obj(vec![("role", s("assistant")), ("content", s(""))]))])]),
    )]);
    assert_eq!(c.convert_chunk(&first), vec![created("resp_br_4", "m")]);
    assert_eq!(c.convert_chunk(&obj(vec![])), vec![]);
    assert_eq!(c.convert_chunk(&text_chunk("Hi", Json::Null)), vec![text_added(), text_delta("Hi")]);
}
