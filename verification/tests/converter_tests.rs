use cn_codex_bridge::converter::{
    chat_to_responses_response, responses_to_chat_request, ConverterError,
};
use cn_codex_bridge::json::{Json, JsonNumber};

fn s(text: &str) -> Json {
    Json::String(text.to_string())
}

fn obj(fields: Vec<(&str, Json)>) -> Json {
    Json::Object(fields.into_iter().map(|(k, v)| (k.to_string(), v)).collect())
}

fn arr(items: Vec<Json>) -> Json {
    Json::Array(items)
}

fn uint(n: u64) -> Json {
    Json::Number(JsonNumber::PosInt(n))
}

fn field<'a>(v: &'a Json, key: &str) -> &'a Json {
    v.get(key).expect("member present")
}

#[test]
fn test_responses_to_chat_simple() {
    let responses = obj(vec![
        ("model", s("deepseek-chat")),
        ("instructions", s("You are a helpful assistant.")),
        (
            "input",
            arr(vec![obj(vec![
                ("type", s("message")),
                ("role", s("user")),
                ("content", s("Hello!")),
            ])]),
        ),
        ("stream", Json::Bool(true)),
    ]);

    let chat = responses_to_chat_request(&responses).unwrap();

    assert_eq!(field(&chat, "model"), &s("deepseek-chat"));
    assert_eq!(field(&chat, "stream"), &Json::Bool(true));

    let messages = field(&chat, "messages").as_array().unwrap();
    assert_eq!(messages.len(), 2); // system + user
    assert_eq!(field(&messages[0], "role"), &s("system"));
    assert_eq!(field(&messages[1], "role"), &s("user"));
}

#[test]
fn test_responses_to_chat_with_tools() {
    let responses = obj(vec![
        ("model", s("deepseek-chat")),
        (
            "input",
            arr(vec![obj(vec![
                ("type", s("message")),
                ("role", s("user")),
                ("content", s("Read the file main.rs")),
            ])]),
        ),
        (
            "tools",
            arr(vec![obj(vec![
                ("type", s("function")),
                ("name", s("read_file")),
                ("description", s("Read a file")),
                (
                    "parameters",
                    obj(vec![
                        ("type", s("object")),
                        ("properties", obj(vec![("path", obj(vec![("type", s("string"))]))])),
                    ]),
                ),
            ])]),
        ),
        ("stream", Json::Bool(true)),
    ]);

    let chat = responses_to_chat_request(&responses).unwrap();
    let tools = field(&chat, "tools").as_array().unwrap();
    assert_eq!(tools.len(), 1);
    assert_eq!(field(field(&tools[0], "function"), "name"), &s("read_file"));
}

#[test]
fn test_chat_to_responses() {
    let chat_resp = obj(vec![
        ("id", s("chatcmpl-123")),
        (
            "choices",
            arr(vec![obj(vec![
                (
                    "message",
                    obj(vec![
                        ("role", s("assistant")),
                        ("content", s("Hello! How can I help?")),
                    ]),
                ),
                ("finish_reason", s("stop")),
            ])]),
        ),
        ("usage", obj(vec![("prompt_tokens", uint(10)), ("completion_tokens", uint(5))])),
    ]);

    let resp = chat_to_responses_response(&chat_resp, "deepseek-chat").unwrap();
    assert_eq!(field(&resp, "object"), &s("response"));
    assert_eq!(field(&resp, "status"), &s("completed"));
}

#[test]
fn request_without_model_is_refused() {
    let body = obj(vec![("input", s("hi"))]);
    match responses_to_chat_request(&body) {
        Err(ConverterError::MissingField(f)) => assert_eq!(f, "model"),
        other => panic!("unexpected: {:?}", other),
    }
    // a model that is not a string is missing too
    let body = obj(vec![("model", uint(3))]);
    assert!(matches!(
        responses_to_chat_request(&body),
        Err(ConverterError::MissingField("model"))
    ));
}

#[test]
fn request_exact_shape() {
    let body = obj(vec![
        ("model", s("m")),
        ("input", s("hi")),
        ("stream", Json::Bool(false)),
        ("tool_choice", s("auto")),
        ("temperature", Json::Number(JsonNumber::Float("0.7".to_string()))),
        ("max_output_tokens", uint(100)),
    ]);
    let chat = responses_to_chat_request(&body).unwrap();
    let expected = obj(vec![
        ("model", s("m")),
        (
            "messages",
            arr(vec![obj(vec![("role", s("user")), ("content", s("hi"))])]),
        ),
        ("stream", Json::Bool(false)),
        ("tool_choice", s("auto")),
        ("temperature", Json::Number(JsonNumber::Float("0.7".to_string()))),
        ("max_tokens", uint(100)),
    ]);
    assert_eq!(chat, expected);
}

#[test]
fn request_defaults_stream_and_skips_empty_instructions() {
    let body = obj(vec![("model", s("m")), ("instructions", s(""))]);
    let chat = responses_to_chat_request(&body).unwrap();
    let expected = obj(vec![
        ("model", s("m")),
        ("messages", arr(vec![])),
        ("stream", Json::Bool(true)),
    ]);
    assert_eq!(chat, expected);
}

#[test]
fn request_converts_each_item_kind() {
    let body = obj(vec![
        ("model", s("m")),
        (
            "input",
            arr(vec![
                obj(vec![
                    ("type", s("message")),
                    ("role", s("user")),
                    (
                        "content",
                        arr(vec![
                            obj(vec![("type", s("input_text")), ("text", s("look"))]),
                            obj(vec![("type", s("input_image")), ("image_url", s("http://x/i.png"))]),
                            obj(vec![("type", s("input_image"))]),
                            obj(vec![("type", s("other")), ("text", s("extra"))]),
                            obj(vec![("type", s("other"))]),
                        ]),
                    ),
                ]),
                obj(vec![
                    ("type", s("function_call")),
                    ("call_id", s("c1")),
                    ("name", s("read")),
                ]),
                obj(vec![
                    ("type", s("function_call_output")),
                    ("call_id", s("c1")),
                    ("output", s("done")),
                ]),
                obj(vec![("type", s("reasoning"))]),
            ]),
        ),
    ]);
    let chat = responses_to_chat_request(&body).unwrap();
    let messages = field(&chat, "messages").as_array().unwrap();
    assert_eq!(messages.len(), 3);
    assert_eq!(
        messages[0],
        obj(vec![
            ("role", s("user")),
            (
                "content",
                arr(vec![
                    obj(vec![("type", s("text")), ("text", s("look"))]),
                    obj(vec![
                        ("type", s("image_url")),
                        ("image_url", obj(vec![("url", s("http://x/i.png"))])),
                    ]),
                    obj(vec![("type", s("text")), ("text", s("extra"))]),
                ]),
            ),
        ])
    );
    assert_eq!(
        messages[1],
        obj(vec![
            ("role", s("assistant")),
            ("content", Json::Null),
            (
                "tool_calls",
                arr(vec![obj(vec![
                    ("id", s("c1")),
                    ("type", s("function")),
                    ("function", obj(vec![("name", s("read")), ("arguments", s("{}"))])),
                ])]),
            ),
        ])
    );
    assert_eq!(
        messages[2],
        obj(vec![("role", s("tool")), ("tool_call_id", s("c1")), ("content", s("done"))])
    );
}

#[test]
fn single_part_content_becomes_its_text() {
    let body = obj(vec![
        ("model", s("m")),
        (
            "input",
            arr(vec![
                obj(vec![
                    ("type", s("message")),
                    (
                        "content",
                        arr(vec![obj(vec![("type", s("output_text")), ("text", s("only"))])]),
                    ),
                ]),
                obj(vec![
                    ("type", s("message")),
                    (
                        "content",
                        arr(vec![obj(vec![("type", s("input_image")), ("image_url", s("u"))])]),
                    ),
                ]),
            ]),
        ),
    ]);
    let chat = responses_to_chat_request(&body).unwrap();
    let messages = field(&chat, "messages").as_array().unwrap();
    // role defaults to "user"; one text part becomes a plain string
    assert_eq!(messages[0], obj(vec![("role", s("user")), ("content", s("only"))]));
    // one image part has no text, so it becomes the empty string
    assert_eq!(messages[1], obj(vec![("role", s("user")), ("content", s(""))]));
}

#[test]
fn tools_are_wrapped_or_passed_through() {
    let body = obj(vec![
        ("model", s("m")),
        (
            "tools",
            arr(vec![
                obj(vec![("type", s("function")), ("name", s("f"))]),
                obj(vec![("type", s("web_search"))]),
            ]),
        ),
    ]);
    let chat = responses_to_chat_request(&body).unwrap();
    let tools = field(&chat, "tools").as_array().unwrap();
    assert_eq!(
        tools[0],
        obj(vec![
            ("type", s("function")),
            (
                "function",
                obj(vec![
                    ("name", s("f")),
                    ("description", s("")),
                    ("parameters", obj(vec![])),
                ]),
            ),
        ])
    );
    assert_eq!(tools[1], obj(vec![("type", s("web_search"))]));
}

#[test]
fn reply_exact_shape_with_tool_calls() {
    let chat_resp = obj(vec![
        ("id", s("chatcmpl-chatcmpl-9")),
        (
            "choices",
            arr(vec![obj(vec![(
                "message",
                obj(vec![
                    ("content", s("")),
                    (
                        "tool_calls",
                        arr(vec![obj(vec![
                            ("id", s("call_a")),
                            (
                                "function",
                                obj(vec![("name", s("read")), ("arguments", s("{\"p\":1}"))]),
                            ),
                        ])]),
                    ),
                ]),
            )])]),
        ),
    ]);
    let resp = chat_to_responses_response(&chat_resp, "m").unwrap();
    let expected = obj(vec![
        ("id", s("resp_resp_9")),
        ("object", s("response")),
        ("model", s("m")),
        (
            "output",
            arr(vec![obj(vec![
                ("type", s("function_call")),
                ("call_id", s("call_a")),
                ("name", s("read")),
                ("arguments", s("{\"p\":1}")),
            ])]),
        ),
        ("usage", obj(vec![("input_tokens", uint(0)), ("output_tokens", uint(0))])),
        ("status", s("completed")),
    ]);
    assert_eq!(resp, expected);
}

#[test]
fn reply_text_item_and_usage() {
    let chat_resp = obj(vec![
        (
            "choices",
            arr(vec![obj(vec![("message", obj(vec![("content", s("Hi"))]))])]),
        ),
        ("usage", obj(vec![("prompt_tokens", uint(7)), ("completion_tokens", Json::Number(JsonNumber::NegInt(-1)))])),
    ]);
    let resp = chat_to_responses_response(&chat_resp, "m").unwrap();
    assert_eq!(field(&resp, "id"), &s("resp_bridge"));
    assert_eq!(
        field(&resp, "output"),
        &arr(vec![obj(vec![
            ("type", s("message")),
            ("role", s("assistant")),
            ("content", arr(vec![obj(vec![("type", s("output_text")), ("text", s("Hi"))])])),
        ])])
    );
    assert_eq!(
        field(&resp, "usage"),
        &obj(vec![("input_tokens", uint(7)), ("output_tokens", uint(0))])
    );
}

#[test]
fn reply_without_choices_is_refused() {
    let chat_resp = obj(vec![("id", s("chatcmpl-1"))]);
    match chat_to_responses_response(&chat_resp, "m") {
        Err(ConverterError::MissingField(f)) => assert_eq!(f, "choices"),
        other => panic!("unexpected: {:?}", other),
    }
}

#[test]
fn function_call_round_trip() {
    let item = obj(vec![
        ("type", s("function_call")),
        ("call_id", s("call_7")),
        ("name", s("grep")),
        ("arguments", s("{\"q\":\"x\"}")),
    ]);
    let body = obj(vec![("model", s("m")), ("input", arr(vec![item]))]);
    let chat = responses_to_chat_request(&body).unwrap();
    let message = field(&chat, "messages").as_array().unwrap()[0].duplicate();
    let reply = obj(vec![("choices", arr(vec![obj(vec![("message", message)])]))]);
    let resp = chat_to_responses_response(&reply, "m").unwrap();
    assert_eq!(
        field(&resp, "output"),
        &arr(vec![obj(vec![
            ("type", s("function_call")),
            ("call_id", s("call_7")),
            ("name", s("grep")),
            ("arguments", s("{\"q\":\"x\"}")),
        ])])
    );
}

#[test]
fn assistant_text_round_trip() {
    let item = obj(vec![
        ("type", s("message")),
        ("role", s("assistant")),
        ("content", arr(vec![obj(vec![("type", s("output_text")), ("text", s("sure"))])])),
    ]);
    let body = obj(vec![("model", s("m")), ("input", arr(vec![item]))]);
    let chat = responses_to_chat_request(&body).unwrap();
    let message = field(&chat, "messages").as_array().unwrap()[0].duplicate();
    assert_eq!(message, obj(vec![("role", s("assistant")), ("content", s("sure"))]));
    let reply = obj(vec![("choices", arr(vec![obj(vec![("message", message)])]))]);
    let resp = chat_to_responses_response(&reply, "m").unwrap();
    assert_eq!(
        field(&resp, "output"),
        &arr(vec![obj(vec![
            ("type", s("message")),
            ("role", s("assistant")),
            ("content", arr(vec![obj(vec![("type", s("output_text")), ("text", s("sure"))])])),
        ])])
    );
}

#[test]
fn invalid_format_error_carries_its_text() {
    let e = ConverterError::InvalidFormat("bad".to_string());
    assert!(matches!(e, ConverterError::InvalidFormat(ref t) if t == "bad"));
}

#[test]
fn json_error_carries_the_parser_error() {
    let parse_error = serde_json::from_str::<serde_json::Value>("{").unwrap_err();
    let e = ConverterError::JsonError(parse_error);
    assert!(matches!(e, ConverterError::JsonError(_)));
}

#[test]
fn reply_reasoning_becomes_reasoning_item() {
    let chat_resp = obj(vec![(
        "choices",
        arr(vec![obj(vec![(
            "message",
            obj(vec![("reasoning_content", s("Let me think")), ("content", s("42"))]),
        )])]),
    )]);
    let resp = chat_to_responses_response(&chat_resp, "deepseek-reasoner").unwrap();
    assert_eq!(
        field(&resp, "output"),
        &arr(vec![
            obj(vec![
                ("type", s("reasoning")),
                ("summary", arr(vec![])),
                (
                    "content",
                    arr(vec![obj(vec![("type", s("reasoning_text")), ("text", s("Let me think"))])]),
                ),
            ]),
            obj(vec![
                ("type", s("message")),
                ("role", s("assistant")),
                ("content", arr(vec![obj(vec![("type", s("output_text")), ("text", s("42"))])])),
            ]),
        ])
    );
}
