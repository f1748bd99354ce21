//! Conversion between the Responses request/reply shapes and the Chat
//! Completions request/reply shapes.
//!
//! Each exec function is proved equal to a spec function over `JsonV` that
//! says, member by member, what the converted value holds.

use vstd::prelude::*;
use crate::json::{
    Json, JsonV, JsonNumber, NumberV, models, field_models, push_item, push_field, lemma_models, new_items, new_fields,
    lookup,
};
use crate::text::{str_eq, replace_all, replaced};

verus! {

/// The outside parser's error type, carried unchanged.
#[verifier::external_type_specification]
#[verifier::external_body]
pub struct ExJsonError(serde_json::Error);

/// Why a conversion failed.
#[derive(Debug)]
pub enum ConverterError {
    /// A member that the conversion cannot do without is missing or has the
    /// wrong kind.
    MissingField(&'static str),
    /// The value is malformed in some other way.
    InvalidFormat(String),
    /// A JSON text could not be parsed.
    JsonError(serde_json::Error),
}

// ------------------------------------------------------------------
// Responses request -> Chat Completions request
// ------------------------------------------------------------------

/// A chat message with a role and a content.
pub open spec fn chat_message(role: Seq<char>, content: JsonV) -> JsonV {
    JsonV::Object(seq![("role"@, JsonV::Str(role)), ("content"@, content)])
}

/// A text content part.
pub open spec fn text_part(text: JsonV) -> JsonV {
    JsonV::Object(seq![("type"@, JsonV::Str("text"@)), ("text"@, text)])
}

/// The chat content part for one Responses content part, if it has one:
/// input and output text become text parts, an image with a URL becomes an
/// image part, and any other part with a string `text` becomes a text part.
pub open spec fn content_part(part: JsonV) -> Option<JsonV> {
    let kind = part.at("type"@).str_or(""@);
    if kind == "input_text"@ || kind == "output_text"@ {
        Some(text_part(part.at("text"@)))
    } else if kind == "input_image"@ {
        match part.at("image_url"@).as_str() {
            Some(url) => Some(
                JsonV::Object(
                    seq![
                        ("type"@, JsonV::Str("image_url"@)),
                        ("image_url"@, JsonV::Object(seq![("url"@, JsonV::Str(url))])),
                    ],
                ),
            ),
            None => None,
        }
    } else {
        match part.at("text"@).as_str() {
            Some(text) => Some(text_part(JsonV::Str(text))),
            None => None,
        }
    }
}

/// The chat content parts of a sequence of Responses content parts, in order,
/// leaving out those that have none.
pub open spec fn content_parts(parts: Seq<JsonV>) -> Seq<JsonV>
    decreases parts.len(),
{
    if parts.len() == 0 {
        Seq::empty()
    } else {
        let done = content_parts(parts.drop_last());
        match content_part(parts.last()) {
            Some(p) => done.push(p),
            None => done,
        }
    }
}

/// The chat content of a Responses message content: an array of parts that
/// gives exactly one chat part becomes that part's text (empty where it has
/// none), other arrays become the array of chat parts, and any other value
/// is kept as it is.
pub open spec fn chat_content(content: JsonV) -> JsonV {
    match content {
        JsonV::Array(parts) => {
            let converted = content_parts(parts);
            if converted.len() == 1 {
                JsonV::Str(converted[0].at("text"@).str_or(""@))
            } else {
                JsonV::Array(converted)
            }
        },
        _ => content,
    }
}

/// The entry of a chat `tool_calls` array for one function call.
pub open spec fn tool_call_entry(id: Seq<char>, name: Seq<char>, arguments: Seq<char>) -> JsonV {
    JsonV::Object(
        seq![
            ("id"@, JsonV::Str(id)),
            ("type"@, JsonV::Str("function"@)),
            (
                "function"@,
                JsonV::Object(
                    seq![("name"@, JsonV::Str(name)), ("arguments"@, JsonV::Str(arguments))],
                ),
            ),
        ],
    )
}

/// The chat message for one Responses input item, if it has one.
pub open spec fn input_item_message(item: JsonV) -> Option<JsonV> {
    let kind = item.at("type"@).str_or(""@);
    if kind == "message"@ {
        Some(chat_message(item.at("role"@).str_or("user"@), chat_content(item.at("content"@))))
    } else if kind == "function_call"@ {
        Some(
            JsonV::Object(
                seq![
                    ("role"@, JsonV::Str("assistant"@)),
                    ("content"@, JsonV::Null),
                    (
                        "tool_calls"@,
                        JsonV::Array(
                            seq![
                                tool_call_entry(
                                    item.at("call_id"@).str_or(""@),
                                    item.at("name"@).str_or(""@),
                                    item.at("arguments"@).str_or("{}"@),
                                ),
                            ],
                        ),
                    ),
                ],
            ),
        )
    } else if kind == "function_call_output"@ {
        Some(
            JsonV::Object(
                seq![
                    ("role"@, JsonV::Str("tool"@)),
                    ("tool_call_id"@, JsonV::Str(item.at("call_id"@).str_or(""@))),
                    ("content"@, JsonV::Str(item.at("output"@).str_or(""@))),
                ],
            ),
        )
    } else {
        None
    }
}

/// The chat messages of a sequence of input items, in order, leaving out the
/// items that have none.
pub open spec fn input_messages(items: Seq<JsonV>) -> Seq<JsonV>
    decreases items.len(),
{
    if items.len() == 0 {
        Seq::empty()
    } else {
        let done = input_messages(items.drop_last());
        match input_item_message(items.last()) {
            Some(m) => done.push(m),
            None => done,
        }
    }
}

/// The chat tool for one Responses tool: a function tool is wrapped in a
/// `function` member (description and parameters defaulting to `""` and
/// `{}`), any other tool passes through unchanged.
pub open spec fn chat_tool(tool: JsonV) -> JsonV {
    if tool.at("type"@).str_or(""@) == "function"@ {
        JsonV::Object(
            seq![
                ("type"@, JsonV::Str("function"@)),
                (
                    "function"@,
                    JsonV::Object(
                        seq![
                            ("name"@, tool.at("name"@)),
                            (
                                "description"@,
                                match tool.get("description"@) {
                                    Some(d) => d,
                                    None => JsonV::Str(""@),
                                },
                            ),
                            (
                                "parameters"@,
                                match tool.get("parameters"@) {
                                    Some(p) => p,
                                    None => JsonV::Object(Seq::empty()),
                                },
                            ),
                        ],
                    ),
                ),
            ],
        )
    } else {
        tool
    }
}

/// The chat tools of a sequence of Responses tools, one for one.
pub open spec fn chat_tool_list(tools: Seq<JsonV>) -> Seq<JsonV>
    decreases tools.len(),
{
    if tools.len() == 0 {
        Seq::empty()
    } else {
        chat_tool_list(tools.drop_last()).push(chat_tool(tools.last()))
    }
}

/// The chat tools of a Responses `tools` value: none unless it is an array.
pub open spec fn chat_tools(tools: JsonV) -> Seq<JsonV> {
    match tools {
        JsonV::Array(items) => chat_tool_list(items),
        _ => Seq::empty(),
    }
}

/// `fields` with the member `(key, v)` added where `value` is `Some(v)`.
pub open spec fn with_member(
    fields: Seq<(Seq<char>, JsonV)>,
    key: Seq<char>,
    value: Option<JsonV>,
) -> Seq<(Seq<char>, JsonV)> {
    match value {
        Some(v) => fields.push((key, v)),
        None => fields,
    }
}

/// The system message, if the instructions are not empty.
pub open spec fn system_messages(instructions: Seq<char>) -> Seq<JsonV> {
    if instructions.len() > 0 {
        seq![chat_message("system"@, JsonV::Str(instructions))]
    } else {
        Seq::empty()
    }
}

/// The conversation messages of a Responses `input`: an array gives the
/// messages of its items, a string gives one user message, anything else
/// gives none.
pub open spec fn conversation_messages(input: JsonV) -> Seq<JsonV> {
    match input {
        JsonV::Array(items) => input_messages(items),
        JsonV::Str(text) => seq![chat_message("user"@, JsonV::Str(text))],
        _ => Seq::empty(),
    }
}

/// The Chat Completions request for a Responses request body, or `None`
/// where the body has no string `model`.
pub open spec fn chat_request(body: JsonV) -> Option<JsonV> {
    match body.at("model"@).as_str() {
        None => None,
        Some(model) => {
            let messages = system_messages(body.at("instructions"@).str_or(""@))
                + conversation_messages(body.at("input"@));
            let stream = match body.at("stream"@).as_bool() {
                Some(b) => b,
                None => true,
            };
            let tools = chat_tools(body.at("tools"@));
            let base = seq![
                ("model"@, JsonV::Str(model)),
                ("messages"@, JsonV::Array(messages)),
                ("stream"@, JsonV::Bool(stream)),
            ];
            let with_tools = if tools.len() > 0 {
                base.push(("tools"@, JsonV::Array(tools)))
            } else {
                base
            };
            let fields = with_member(
                with_member(
                    with_member(with_tools, "tool_choice"@, body.get("tool_choice"@)),
                    "temperature"@,
                    body.get("temperature"@),
                ),
                "max_tokens"@,
                body.get("max_output_tokens"@),
            );
            Some(JsonV::Object(fields))
        },
    }
}

/// Builds an object from the given members.
fn object_of(fields: Vec<(String, Json)>) -> (r: Json)
    ensures
        r@ == JsonV::Object(field_models(fields@)),
{
    Json::Object(fields)
}

/// Builds an array from the given values.
fn array_of(items: Vec<Json>) -> (r: Json)
    ensures
        r@ == JsonV::Array(models(items@)),
{
    Json::Array(items)
}

/// A chat message with a role and a content.
fn make_chat_message(role: &str, content: Json) -> (r: Json)
    ensures
        r@ == chat_message(role@, content@),
{
    let mut f: Vec<(String, Json)> = new_fields();
    push_field(&mut f, "role", Json::from_str_slice(role));
    push_field(&mut f, "content", content);
    assert(field_models(f@) == seq![("role"@, JsonV::Str(role@)), ("content"@, content@)]);
    object_of(f)
}

/// A text content part.
fn make_text_part(text: Json) -> (r: Json)
    ensures
        r@ == text_part(text@),
{
    let mut f: Vec<(String, Json)> = new_fields();
    push_field(&mut f, "type", Json::from_str_slice("text"));
    push_field(&mut f, "text", text);
    assert(field_models(f@) == seq![("type"@, JsonV::Str("text"@)), ("text"@, text@)]);
    object_of(f)
}

/// The chat content part for one Responses content part.
fn convert_content_part(part: &Json) -> (r: Option<Json>)
    ensures
        match r {
            Some(p) => content_part(part@) == Some(p@),
            None => content_part(part@) is None,
        },
{
    let null_value = Json::Null;
    let kind = part.at("type", &null_value).str_or("");
    if str_eq(kind, "input_text") || str_eq(kind, "output_text") {
        Some(make_text_part(part.at("text", &null_value).duplicate()))
    } else if str_eq(kind, "input_image") {
        match part.at("image_url", &null_value).as_str() {
            Some(url) => {
                let mut inner: Vec<(String, Json)> = new_fields();
                push_field(&mut inner, "url", Json::from_str_slice(url));
                let mut f: Vec<(String, Json)> = new_fields();
                push_field(&mut f, "type", Json::from_str_slice("image_url"));
                push_field(&mut f, "image_url", object_of(inner));
                assert(field_models(inner@) == seq![("url"@, JsonV::Str(url@))]);
                assert(field_models(f@) == seq![
                    ("type"@, JsonV::Str("image_url"@)),
                    ("image_url"@, JsonV::Object(seq![("url"@, JsonV::Str(url@))])),
                ]);
                Some(object_of(f))
            },
            None => None,
        }
    } else {
        match part.at("text", &null_value).as_str() {
            Some(text) => Some(make_text_part(Json::from_str_slice(text))),
            None => None,
        }
    }
}

/// The chat content of a Responses message content.
fn convert_content(content: &Json) -> (r: Json)
    ensures
        r@ == chat_content(content@),
{
    match content.as_array() {
        Some(parts) => {
            let ghost m = models(parts@);
            proof {
                lemma_models(parts@);
            }
            let mut out: Vec<Json> = new_items();
            let n = parts.len();
            let mut i: usize = 0;
            while i < n
                invariant
                    n == parts@.len(),
                    m == models(parts@),
                    m.len() == n,
                    forall|j: int| 0 <= j < n ==> #[trigger] m[j] == parts@[j]@,
                    i <= n,
                    models(out@) == content_parts(m.take(i as int)),
                decreases n - i,
            {
                assert(m.take(i + 1).drop_last() =~= m.take(i as int));
                assert(m.take(i + 1).last() == parts@[i as int]@);
                match convert_content_part(&parts[i]) {
                    Some(p) => push_item(&mut out, p),
                    None => {},
                }
                i = i + 1;
            }
            assert(m.take(n as int) =~= m);
            proof {
                lemma_models(out@);
            }
            if out.len() == 1 {
                let null_value = Json::Null;
                let text = out[0].at("text", &null_value).str_or("");
                Json::from_str_slice(text)
            } else {
                array_of(out)
            }
        },
        None => {
            assert(chat_content(content@) == content@);
            content.duplicate()
        },
    }
}

/// The entry of a chat `tool_calls` array for one function call.
fn make_tool_call_entry(id: &str, name: &str, arguments: &str) -> (r: Json)
    ensures
        r@ == tool_call_entry(id@, name@, arguments@),
{
    let mut function: Vec<(String, Json)> = new_fields();
    push_field(&mut function, "name", Json::from_str_slice(name));
    push_field(&mut function, "arguments", Json::from_str_slice(arguments));
    let mut f: Vec<(String, Json)> = new_fields();
    push_field(&mut f, "id", Json::from_str_slice(id));
    push_field(&mut f, "type", Json::from_str_slice("function"));
    push_field(&mut f, "function", object_of(function));
    assert(field_models(function@) == seq![
        ("name"@, JsonV::Str(name@)),
        ("arguments"@, JsonV::Str(arguments@)),
    ]);
    assert(field_models(f@) == seq![
        ("id"@, JsonV::Str(id@)),
        ("type"@, JsonV::Str("function"@)),
        ("function"@, JsonV::Object(field_models(function@))),
    ]);
    object_of(f)
}

/// Converts a single Responses input item to a Chat Completions message.
fn convert_input_item_to_message(item: &Json) -> (r: Option<Json>)
    ensures
        match r {
            Some(m) => input_item_message(item@) == Some(m@),
            None => input_item_message(item@) is None,
        },
{
    let null_value = Json::Null;
    let kind = item.at("type", &null_value).str_or("");
    if str_eq(kind, "message") {
        let role = item.at("role", &null_value).str_or("user");
        let content = convert_content(item.at("content", &null_value));
        Some(make_chat_message(role, content))
    } else if str_eq(kind, "function_call") {
        let call_id = item.at("call_id", &null_value).str_or("");
        let name = item.at("name", &null_value).str_or("");
        let arguments = item.at("arguments", &null_value).str_or("{}");
        let mut calls: Vec<Json> = new_items();
        push_item(&mut calls, make_tool_call_entry(call_id, name, arguments));
        let mut f: Vec<(String, Json)> = new_fields();
        push_field(&mut f, "role", Json::from_str_slice("assistant"));
        push_field(&mut f, "content", Json::Null);
        push_field(&mut f, "tool_calls", array_of(calls));
        assert(models(calls@) == seq![tool_call_entry(call_id@, name@, arguments@)]);
        assert(field_models(f@) == seq![
            ("role"@, JsonV::Str("assistant"@)),
            ("content"@, JsonV::Null),
            ("tool_calls"@, JsonV::Array(models(calls@))),
        ]);
        Some(object_of(f))
    } else if str_eq(kind, "function_call_output") {
        let call_id = item.at("call_id", &null_value).str_or("");
        let output = item.at("output", &null_value).str_or("");
        let mut f: Vec<(String, Json)> = new_fields();
        push_field(&mut f, "role", Json::from_str_slice("tool"));
        push_field(&mut f, "tool_call_id", Json::from_str_slice(call_id));
        push_field(&mut f, "content", Json::from_str_slice(output));
        assert(field_models(f@) == seq![
            ("role"@, JsonV::Str("tool"@)),
            ("tool_call_id"@, JsonV::Str(call_id@)),
            ("content"@, JsonV::Str(output@)),
        ]);
        Some(object_of(f))
    } else {
        None
    }
}

/// The chat tool for one Responses tool.
fn convert_tool(tool: &Json) -> (r: Json)
    ensures
        r@ == chat_tool(tool@),
{
    let null_value = Json::Null;
    if str_eq(tool.at("type", &null_value).str_or(""), "function") {
        let description = match tool.get("description") {
            Some(d) => d.duplicate(),
            None => Json::from_str_slice(""),
        };
        let parameters = match tool.get("parameters") {
            Some(p) => p.duplicate(),
            None => object_of(new_fields()),
        };
        assert(description@ == match tool@.get("description"@) {
            Some(d) => d,
            None => JsonV::Str(""@),
        });
        assert(parameters@ == match tool@.get("parameters"@) {
            Some(p) => p,
            None => JsonV::Object(Seq::empty()),
        });
        let mut function: Vec<(String, Json)> = new_fields();
        push_field(&mut function, "name", tool.at("name", &null_value).duplicate());
        push_field(&mut function, "description", description);
        push_field(&mut function, "parameters", parameters);
        let mut f: Vec<(String, Json)> = new_fields();
        push_field(&mut f, "type", Json::from_str_slice("function"));
        push_field(&mut f, "function", object_of(function));
        assert(field_models(function@) =~= chat_tool(tool@)->Object_0[1].1->Object_0);
        assert(field_models(f@) =~= chat_tool(tool@)->Object_0);
        object_of(f)
    } else {
        tool.duplicate()
    }
}

/// Converts Responses tools to Chat Completions tools.
fn convert_tools(tools_value: &Json) -> (r: Vec<Json>)
    ensures
        models(r@) == chat_tools(tools_value@),
{
    let mut result: Vec<Json> = new_items();
    match tools_value.as_array() {
        Some(tools) => {
            let ghost m = models(tools@);
            proof {
                lemma_models(tools@);
            }
            let n = tools.len();
            let mut i: usize = 0;
            while i < n
                invariant
                    n == tools@.len(),
                    m == models(tools@),
                    m.len() == n,
                    forall|j: int| 0 <= j < n ==> #[trigger] m[j] == tools@[j]@,
                    i <= n,
                    models(result@) == chat_tool_list(m.take(i as int)),
                decreases n - i,
            {
                assert(m.take(i + 1).drop_last() =~= m.take(i as int));
                assert(m.take(i + 1).last() == tools@[i as int]@);
                push_item(&mut result, convert_tool(&tools[i]));
                i = i + 1;
            }
            assert(m.take(n as int) =~= m);
        },
        None => {},
    }
    result
}

/// Appends the member `(key, v)` where `value` is `Some(v)`.
fn push_optional_member(fields: &mut Vec<(String, Json)>, key: &str, value: Option<&Json>)
    ensures
        field_models(final(fields)@) == with_member(
            field_models(old(fields)@),
            key@,
            match value {
                Some(v) => Some(v@),
                None => None,
            },
        ),
{
    match value {
        Some(v) => push_field(fields, key, v.duplicate()),
        None => {},
    }
}

/// Converts a Responses API request body to a Chat Completions request body.
///
/// Fails exactly when the body has no string `model`.
pub fn responses_to_chat_request(responses_body: &Json) -> (r: Result<Json, ConverterError>)
    ensures
        match r {
            Ok(v) => chat_request(responses_body@) == Some(v@),
            Err(e) => {
                &&& chat_request(responses_body@) is None
                &&& e matches ConverterError::MissingField(f) && f@ == "model"@
            },
        },
{
    let null_value = Json::Null;
    let model = match responses_body.at("model", &null_value).as_str() {
        Some(m) => m,
        None => return Err(ConverterError::MissingField("model")),
    };
    let input = responses_body.at("input", &null_value);
    let instructions = responses_body.at("instructions", &null_value).str_or("");

    let mut messages: Vec<Json> = new_items();
    if !instructions.is_empty() {
        push_item(&mut messages, make_chat_message("system", Json::from_str_slice(instructions)));
    }
    let ghost sys = models(messages@);
    assert(sys == system_messages(instructions@));

    match input.as_array() {
        Some(items) => {
            let ghost m = models(items@);
            proof {
                lemma_models(items@);
            }
            let n = items.len();
            let mut i: usize = 0;
            while i < n
                invariant
                    n == items@.len(),
                    m == models(items@),
                    m.len() == n,
                    forall|j: int| 0 <= j < n ==> #[trigger] m[j] == items@[j]@,
                    i <= n,
                    models(messages@) == sys + input_messages(m.take(i as int)),
                decreases n - i,
            {
                assert(m.take(i + 1).drop_last() =~= m.take(i as int));
                assert(m.take(i + 1).last() == items@[i as int]@);
                match convert_input_item_to_message(&items[i]) {
                    Some(msg) => push_item(&mut messages, msg),
                    None => {},
                }
                i = i + 1;
            }
            assert(m.take(n as int) =~= m);
        },
        None => {
            match input.as_str() {
                Some(content) => {
                    push_item(
                        &mut messages,
                        make_chat_message("user", Json::from_str_slice(content)),
                    );
                },
                None => {},
            }
        },
    }
    assert(models(messages@) =~= system_messages(instructions@) + conversation_messages(input@));

    let tools = convert_tools(responses_body.at("tools", &null_value));
    let stream = match responses_body.at("stream", &null_value).as_bool() {
        Some(b) => b,
        None => true,
    };

    let ghost messages_model = models(messages@);
    let ghost tools_model = models(tools@);
    let mut fields: Vec<(String, Json)> = new_fields();
    push_field(&mut fields, "model", Json::from_str_slice(model));
    push_field(&mut fields, "messages", array_of(messages));
    push_field(&mut fields, "stream", Json::Bool(stream));
    assert(field_models(fields@) == seq![
        ("model"@, JsonV::Str(model@)),
        ("messages"@, JsonV::Array(messages_model)),
        ("stream"@, JsonV::Bool(stream)),
    ]);
    if tools.len() > 0 {
        proof {
            lemma_models(tools@);
        }
        push_field(&mut fields, "tools", array_of(tools));
    } else {
        proof {
            lemma_models(tools@);
        }
    }
    push_optional_member(&mut fields, "tool_choice", responses_body.get("tool_choice"));
    push_optional_member(&mut fields, "temperature", responses_body.get("temperature"));
    push_optional_member(&mut fields, "max_tokens", responses_body.get("max_output_tokens"));
    Ok(object_of(fields))
}


// ------------------------------------------------------------------
// Chat Completions reply -> Responses reply
// ------------------------------------------------------------------

/// The Responses output item for a non-empty assistant text.
pub open spec fn text_output_item(text: Seq<char>) -> JsonV {
    JsonV::Object(
        seq![
            ("type"@, JsonV::Str("message"@)),
            ("role"@, JsonV::Str("assistant"@)),
            (
                "content"@,
                JsonV::Array(
                    seq![
                        JsonV::Object(
                            seq![("type"@, JsonV::Str("output_text"@)), ("text"@, JsonV::Str(text))],
                        ),
                    ],
                ),
            ),
        ],
    )
}

/// The Responses `reasoning` output item for a non-empty reasoning text.
pub open spec fn reasoning_output_item(text: Seq<char>) -> JsonV {
    JsonV::Object(
        seq![
            ("type"@, JsonV::Str("reasoning"@)),
            ("summary"@, JsonV::Array(Seq::empty())),
            (
                "content"@,
                JsonV::Array(
                    seq![
                        JsonV::Object(
                            seq![("type"@, JsonV::Str("reasoning_text"@)), ("text"@, JsonV::Str(text))],
                        ),
                    ],
                ),
            ),
        ],
    )
}

/// The Responses `function_call` output item for one chat tool call.
pub open spec fn function_call_item(call: JsonV) -> JsonV {
    JsonV::Object(
        seq![
            ("type"@, JsonV::Str("function_call"@)),
            ("call_id"@, call.at("id"@)),
            ("name"@, call.at("function"@).at("name"@)),
            ("arguments"@, call.at("function"@).at("arguments"@)),
        ],
    )
}

/// The `function_call` output items of a sequence of chat tool calls, one for one.
pub open spec fn function_call_items(calls: Seq<JsonV>) -> Seq<JsonV>
    decreases calls.len(),
{
    if calls.len() == 0 {
        Seq::empty()
    } else {
        function_call_items(calls.drop_last()).push(function_call_item(calls.last()))
    }
}

/// The output items of one chat choice: a reasoning item for its message's
/// reasoning text, then its message text, each where it is a non-empty
/// string, then one item per tool call.
pub open spec fn choice_output(choice: JsonV) -> Seq<JsonV> {
    let message = choice.at("message"@);
    let reasoning = match message.at("reasoning_content"@).as_str() {
        Some(r) => if r.len() > 0 {
            seq![reasoning_output_item(r)]
        } else {
            Seq::empty()
        },
        None => Seq::empty(),
    };
    let text = match message.at("content"@).as_str() {
        Some(c) => if c.len() > 0 {
            seq![text_output_item(c)]
        } else {
            Seq::empty()
        },
        None => Seq::empty(),
    };
    let calls = match message.at("tool_calls"@).as_array() {
        Some(tcs) => function_call_items(tcs),
        None => Seq::empty(),
    };
    reasoning + text + calls
}

/// The output items of a sequence of chat choices, in order.
pub open spec fn choices_output(choices: Seq<JsonV>) -> Seq<JsonV>
    decreases choices.len(),
{
    if choices.len() == 0 {
        Seq::empty()
    } else {
        choices_output(choices.drop_last()) + choice_output(choices.last())
    }
}

/// A token count: the unsigned integer that `v` holds, or zero.
pub open spec fn token_count(v: JsonV) -> u64 {
    match v.as_u64() {
        Some(n) => n,
        None => 0,
    }
}

/// The Responses reply for a whole Chat Completions reply, or `None` where
/// the reply has no `choices` array.
pub open spec fn responses_reply(chat: JsonV, model: Seq<char>) -> Option<JsonV> {
    match chat.at("choices"@).as_array() {
        None => None,
        Some(choices) => {
            let id = replaced(chat.at("id"@).str_or("resp_bridge"@), "chatcmpl-"@, "resp_"@);
            let usage = chat.at("usage"@);
            Some(
                JsonV::Object(
                    seq![
                        ("id"@, JsonV::Str(id)),
                        ("object"@, JsonV::Str("response"@)),
                        ("model"@, JsonV::Str(model)),
                        ("output"@, JsonV::Array(choices_output(choices))),
                        (
                            "usage"@,
                            JsonV::Object(
                                seq![
                                    (
                                        "input_tokens"@,
                                        JsonV::Number(
                                            NumberV::PosInt(token_count(usage.at("prompt_tokens"@))),
                                        ),
                                    ),
                                    (
                                        "output_tokens"@,
                                        JsonV::Number(
                                            NumberV::PosInt(token_count(usage.at("completion_tokens"@))),
                                        ),
                                    ),
                                ],
                            ),
                        ),
                        ("status"@, JsonV::Str("completed"@)),
                    ],
                ),
            )
        },
    }
}

/// The output item for a non-empty assistant text.
fn make_text_output_item(text: &str) -> (r: Json)
    ensures
        r@ == text_output_item(text@),
{
    let mut part = new_fields();
    push_field(&mut part, "type", Json::from_str_slice("output_text"));
    push_field(&mut part, "text", Json::from_str_slice(text));
    let ghost part_model = JsonV::Object(field_models(part@));
    let mut content = new_items();
    push_item(&mut content, object_of(part));
    let ghost content_model = JsonV::Array(models(content@));
    let mut f = new_fields();
    push_field(&mut f, "type", Json::from_str_slice("message"));
    push_field(&mut f, "role", Json::from_str_slice("assistant"));
    push_field(&mut f, "content", array_of(content));
    assert(part_model->Object_0 =~= seq![
        ("type"@, JsonV::Str("output_text"@)),
        ("text"@, JsonV::Str(text@)),
    ]);
    assert(content_model->Array_0 =~= seq![part_model]);
    assert(field_models(f@) =~= text_output_item(text@)->Object_0);
    object_of(f)
}

/// The output item for a non-empty reasoning text.
fn make_reasoning_output_item(text: &str) -> (r: Json)
    ensures
        r@ == reasoning_output_item(text@),
{
    let mut part = new_fields();
    push_field(&mut part, "type", Json::from_str_slice("reasoning_text"));
    push_field(&mut part, "text", Json::from_str_slice(text));
    let ghost part_model = JsonV::Object(field_models(part@));
    let mut content = new_items();
    push_item(&mut content, object_of(part));
    let ghost content_model = JsonV::Array(models(content@));
    let mut f = new_fields();
    push_field(&mut f, "type", Json::from_str_slice("reasoning"));
    push_field(&mut f, "summary", array_of(new_items()));
    push_field(&mut f, "content", array_of(content));
    assert(part_model->Object_0 =~= seq![
        ("type"@, JsonV::Str("reasoning_text"@)),
        ("text"@, JsonV::Str(text@)),
    ]);
    assert(content_model->Array_0 =~= seq![part_model]);
    assert(field_models(f@) =~= reasoning_output_item(text@)->Object_0);
    object_of(f)
}

/// The `function_call` output item for one chat tool call.
fn make_function_call_item(call: &Json) -> (r: Json)
    ensures
        r@ == function_call_item(call@),
{
    let null_value = Json::Null;
    let function = call.at("function", &null_value);
    let mut f = new_fields();
    push_field(&mut f, "type", Json::from_str_slice("function_call"));
    push_field(&mut f, "call_id", call.at("id", &null_value).duplicate());
    push_field(&mut f, "name", function.at("name", &null_value).duplicate());
    push_field(&mut f, "arguments", function.at("arguments", &null_value).duplicate());
    assert(field_models(f@) =~= function_call_item(call@)->Object_0);
    object_of(f)
}

/// Appends the output items of one chat choice.
fn push_choice_output(output: &mut Vec<Json>, choice: &Json)
    ensures
        models(final(output)@) == models(old(output)@) + choice_output(choice@),
{
    let null_value = Json::Null;
    let message = choice.at("message", &null_value);
    let ghost reasoning_items = match message@.at("reasoning_content"@).as_str() {
        Some(r) => if r.len() > 0 {
            seq![reasoning_output_item(r)]
        } else {
            Seq::empty()
        },
        None => Seq::empty(),
    };
    match message.at("reasoning_content", &null_value).as_str() {
        Some(reasoning) => {
            if !reasoning.is_empty() {
                push_item(output, make_reasoning_output_item(reasoning));
            }
        },
        None => {},
    }
    let ghost start = models(output@);
    assert(start =~= models(old(output)@) + reasoning_items);
    let ghost text_items = match message@.at("content"@).as_str() {
        Some(c) => if c.len() > 0 {
            seq![text_output_item(c)]
        } else {
            Seq::empty()
        },
        None => Seq::empty(),
    };
    match message.at("content", &null_value).as_str() {
        Some(content) => {
            if !content.is_empty() {
                push_item(output, make_text_output_item(content));
            }
        },
        None => {},
    }
    assert(models(output@) =~= start + text_items);
    match message.at("tool_calls", &null_value).as_array() {
        Some(calls) => {
            let ghost m = models(calls@);
            proof {
                lemma_models(calls@);
            }
            let n = calls.len();
            let mut i: usize = 0;
            while i < n
                invariant
                    n == calls@.len(),
                    m == models(calls@),
                    m.len() == n,
                    forall|j: int| 0 <= j < n ==> #[trigger] m[j] == calls@[j]@,
                    i <= n,
                    models(output@) == start + text_items + function_call_items(m.take(i as int)),
                decreases n - i,
            {
                assert(m.take(i + 1).drop_last() =~= m.take(i as int));
                assert(m.take(i + 1).last() == calls@[i as int]@);
                push_item(output, make_function_call_item(&calls[i]));
                assert(models(output@) =~= start + text_items + function_call_items(
                    m.take(i + 1),
                ));
                i = i + 1;
            }
            assert(m.take(n as int) =~= m);
        },
        None => {},
    }
    assert(models(output@) =~= models(old(output)@) + choice_output(choice@));
}

/// Converts a non-streaming Chat Completions response to a Responses API
/// response for the given model.
///
/// Fails exactly when the reply has no `choices` array.
pub fn chat_to_responses_response(chat_response: &Json, model: &str) -> (r: Result<
    Json,
    ConverterError,
>)
    ensures
        match r {
            Ok(v) => responses_reply(chat_response@, model@) == Some(v@),
            Err(e) => {
                &&& responses_reply(chat_response@, model@) is None
                &&& e matches ConverterError::MissingField(f) && f@ == "choices"@
            },
        },
{
    let null_value = Json::Null;
    proof {
        reveal_strlit("chatcmpl-");
    }
    let id = replace_all(
        chat_response.at("id", &null_value).str_or("resp_bridge"),
        "chatcmpl-",
        "resp_",
    );
    let choices = match chat_response.at("choices", &null_value).as_array() {
        Some(c) => c,
        None => return Err(ConverterError::MissingField("choices")),
    };

    let mut output = new_items();
    let ghost m = models(choices@);
    proof {
        lemma_models(choices@);
    }
    let n = choices.len();
    let mut i: usize = 0;
    while i < n
        invariant
            n == choices@.len(),
            m == models(choices@),
            m.len() == n,
            forall|j: int| 0 <= j < n ==> #[trigger] m[j] == choices@[j]@,
            i <= n,
            models(output@) == choices_output(m.take(i as int)),
        decreases n - i,
    {
        assert(m.take(i + 1).drop_last() =~= m.take(i as int));
        assert(m.take(i + 1).last() == choices@[i as int]@);
        push_choice_output(&mut output, &choices[i]);
        i = i + 1;
    }
    assert(m.take(n as int) =~= m);

    let usage = chat_response.at("usage", &null_value);
    let input_tokens = match usage.at("prompt_tokens", &null_value).as_u64() {
        Some(t) => t,
        None => 0,
    };
    let output_tokens = match usage.at("completion_tokens", &null_value).as_u64() {
        Some(t) => t,
        None => 0,
    };
    let mut usage_fields = new_fields();
    push_field(&mut usage_fields, "input_tokens", Json::Number(JsonNumber::PosInt(input_tokens)));
    push_field(&mut usage_fields, "output_tokens", Json::Number(JsonNumber::PosInt(output_tokens)));
    let ghost usage_model = field_models(usage_fields@);
    let ghost output_model = models(output@);
    let mut f = new_fields();
    push_field(&mut f, "id", Json::String(id));
    push_field(&mut f, "object", Json::from_str_slice("response"));
    push_field(&mut f, "model", Json::from_str_slice(model));
    push_field(&mut f, "output", array_of(output));
    push_field(&mut f, "usage", object_of(usage_fields));
    push_field(&mut f, "status", Json::from_str_slice("completed"));
    let ghost expected = responses_reply(chat_response@, model@).unwrap();
    assert(usage_model =~= expected->Object_0[4].1->Object_0);
    assert(field_models(f@) =~= expected->Object_0);
    Ok(object_of(f))
}


// ------------------------------------------------------------------
// Laws
// ------------------------------------------------------------------

/// The keys of the objects built here are distinct texts.
proof fn lemma_key_texts()
    ensures
        "type"@ != "function_call"@,
        "role"@ != "content"@,
        "role"@ != "tool_calls"@,
        "content"@ != "tool_calls"@,
        "id"@ != "type"@,
        "id"@ != "function"@,
        "type"@ != "function"@,
        "name"@ != "arguments"@,
        "message"@ != "function_call"@,
        "role"@ != "message"@,
        "content"@ != "message"@,
        "type"@ != "text"@,
        "type"@ != "message"@,
        "output_text"@ != "input_text"@,
        "message"@ != "function_call_output"@,
        "reasoning_content"@ != "role"@,
        "reasoning_content"@ != "content"@,
        "reasoning_content"@ != "tool_calls"@,
{
    reveal_strlit("reasoning_content");
    reveal_strlit("type");
    reveal_strlit("function_call");
    reveal_strlit("function_call_output");
    reveal_strlit("role");
    reveal_strlit("content");
    reveal_strlit("tool_calls");
    reveal_strlit("id");
    reveal_strlit("function");
    reveal_strlit("name");
    reveal_strlit("arguments");
    reveal_strlit("message");
    reveal_strlit("text");
    reveal_strlit("output_text");
    reveal_strlit("input_text");
    assert("type"@[0] != "function_call"@[0]);
    assert("role"@[0] != "content"@[0]);
    assert("role"@[0] != "tool_calls"@[0]);
    assert("content"@[0] != "tool_calls"@[0]);
    assert("id"@[0] != "type"@[0]);
    assert("id"@[0] != "function"@[0]);
    assert("type"@[0] != "function"@[0]);
    assert("name"@[0] != "arguments"@[0]);
    assert("message"@[0] != "function_call"@[0]);
    assert("role"@[0] != "message"@[0]);
    assert("content"@[0] != "message"@[0]);
    assert("type"@[1] != "text"@[1]);
    assert("type"@[0] != "message"@[0]);
    assert("output_text"@[0] != "input_text"@[0]);
    assert("message"@[0] != "function_call_output"@[0]);
    assert("reasoning_content"@[1] != "role"@[1]);
    assert("reasoning_content"@[0] != "content"@[0]);
    assert("reasoning_content"@[0] != "tool_calls"@[0]);
}

/// Tools are converted one for one: an array of Responses tools gives as
/// many chat tools, the `i`-th from the `i`-th.
pub proof fn law_tools_one_for_one(tools: Seq<JsonV>)
    ensures
        chat_tools(JsonV::Array(tools)).len() == tools.len(),
        forall|i: int|
            0 <= i < tools.len() ==> #[trigger] chat_tools(JsonV::Array(tools))[i] == chat_tool(
                tools[i],
            ),
    decreases tools.len(),
{
    if tools.len() > 0 {
        law_tools_one_for_one(tools.drop_last());
        assert forall|i: int| 0 <= i < tools.len() implies #[trigger] chat_tools(
            JsonV::Array(tools),
        )[i] == chat_tool(tools[i]) by {
            if i < tools.len() - 1 {
                assert(chat_tools(JsonV::Array(tools.drop_last()))[i] == chat_tool(
                    tools.drop_last()[i],
                ));
            }
        }
    }
}

/// Instructions lead the conversation: a request with a model and
/// non-empty instructions is converted, and its first message is the
/// system message holding the instructions.
pub proof fn law_instructions_lead(body: JsonV, model: Seq<char>, instructions: Seq<char>)
    requires
        body.at("model"@) == JsonV::Str(model),
        body.at("instructions"@) == JsonV::Str(instructions),
        instructions.len() > 0,
    ensures
        chat_request(body) is Some,
        chat_request(body).unwrap().at("messages"@).as_array() is Some,
        chat_request(body).unwrap().at("messages"@).as_array().unwrap()[0] == chat_message(
            "system"@,
            JsonV::Str(instructions),
        ),
{
    reveal_strlit("model");
    reveal_strlit("messages");
    reveal_with_fuel(lookup, 2);
    assert("model"@[1] != "messages"@[1]);
    let messages = system_messages(instructions) + conversation_messages(body.at("input"@));
    let fields = chat_request(body).unwrap()->Object_0;
    assert(fields[0] == ("model"@, JsonV::Str(model)));
    assert(fields[1] == ("messages"@, JsonV::Array(messages)));
    assert(chat_request(body).unwrap().at("messages"@) == JsonV::Array(messages));
    assert(messages[0] == chat_message("system"@, JsonV::Str(instructions)));
}

/// Function calls survive the trip through the upstream provider: the chat
/// message that the request side builds from a `function_call` input item,
/// when the provider hands it back as a choice's message, is turned by the
/// reply side into one `function_call` output item with the same call id,
/// name and arguments.
pub proof fn law_function_call_round_trip(
    item: JsonV,
    call_id: Seq<char>,
    name: Seq<char>,
    arguments: Seq<char>,
)
    requires
        item.at("type"@) == JsonV::Str("function_call"@),
        item.at("call_id"@) == JsonV::Str(call_id),
        item.at("name"@) == JsonV::Str(name),
        item.at("arguments"@) == JsonV::Str(arguments),
    ensures
        input_item_message(item) is Some,
        choice_output(JsonV::Object(seq![("message"@, input_item_message(item).unwrap())]))
            == seq![
            JsonV::Object(
                seq![
                    ("type"@, JsonV::Str("function_call"@)),
                    ("call_id"@, JsonV::Str(call_id)),
                    ("name"@, JsonV::Str(name)),
                    ("arguments"@, JsonV::Str(arguments)),
                ],
            ),
        ],
{
    lemma_key_texts();
    reveal_with_fuel(lookup, 4);
    let message = input_item_message(item).unwrap();
    let entry = tool_call_entry(call_id, name, arguments);
    assert(message.at("content"@) == JsonV::Null);
    assert(message.at("reasoning_content"@) == JsonV::Null);
    assert(message.at("tool_calls"@) == JsonV::Array(seq![entry]));
    assert(entry.at("id"@) == JsonV::Str(call_id));
    assert(entry.at("function"@).at("name"@) == JsonV::Str(name));
    assert(entry.at("function"@).at("arguments"@) == JsonV::Str(arguments));
    let choice = JsonV::Object(seq![("message"@, message)]);
    assert(choice.at("message"@) == message);
    assert(seq![entry].drop_last() =~= Seq::<JsonV>::empty());
    assert(function_call_items(Seq::<JsonV>::empty()) == Seq::<JsonV>::empty());
    assert(function_call_items(seq![entry]) =~= seq![function_call_item(entry)]);
    assert(choice_output(choice) =~= Seq::<JsonV>::empty() + seq![function_call_item(entry)]);
}

/// Assistant text survives the trip through the upstream provider: an
/// assistant `message` item holding one non-empty `output_text` part becomes
/// a chat message whose content is that text, and when the provider hands
/// that message back as a choice's message, the reply side turns it into one
/// assistant `message` output item holding the same text.
pub proof fn law_assistant_text_round_trip(item: JsonV, text: Seq<char>)
    requires
        item.at("type"@) == JsonV::Str("message"@),
        item.at("role"@) == JsonV::Str("assistant"@),
        item.at("content"@) == JsonV::Array(
            seq![
                JsonV::Object(
                    seq![("type"@, JsonV::Str("output_text"@)), ("text"@, JsonV::Str(text))],
                ),
            ],
        ),
        text.len() > 0,
    ensures
        input_item_message(item) == Some(chat_message("assistant"@, JsonV::Str(text))),
        choice_output(JsonV::Object(seq![("message"@, input_item_message(item).unwrap())]))
            == seq![text_output_item(text)],
{
    lemma_key_texts();
    reveal_with_fuel(lookup, 3);
    let part = JsonV::Object(seq![("type"@, JsonV::Str("output_text"@)), ("text"@, JsonV::Str(text))]);
    assert(part.at("type"@) == JsonV::Str("output_text"@));
    assert(part.at("text"@) == JsonV::Str(text));
    assert(content_part(part) == Some(text_part(JsonV::Str(text))));
    assert(seq![part].drop_last() =~= Seq::<JsonV>::empty());
    assert(content_parts(Seq::<JsonV>::empty()) == Seq::<JsonV>::empty());
    assert(content_parts(seq![part]) =~= seq![text_part(JsonV::Str(text))]);
    assert(text_part(JsonV::Str(text)).at("text"@) == JsonV::Str(text));
    let message = chat_message("assistant"@, JsonV::Str(text));
    assert(message.at("content"@) == JsonV::Str(text));
    assert(message.at("tool_calls"@) == JsonV::Null);
    assert(message.at("reasoning_content"@) == JsonV::Null);
    let choice = JsonV::Object(seq![("message"@, message)]);
    assert(choice.at("message"@) == message);
    assert(choice_output(choice) =~= seq![text_output_item(text)] + Seq::<JsonV>::empty());
}


/// A function tool keeps its schema: the converted tool is a `function`
/// tool whose function has the tool's own name, its description (`""` only
/// where it has none) and its own `parameters` member (`{}` only where it
/// has none); any other tool passes through unchanged.
pub proof fn law_function_tool_keeps_schema(tool: JsonV)
    ensures
        tool.at("type"@) == JsonV::Str("function"@) ==> {
            let f = chat_tool(tool).at("function"@);
            &&& chat_tool(tool).at("type"@) == JsonV::Str("function"@)
            &&& f.at("name"@) == tool.at("name"@)
            &&& f.at("description"@) == match tool.get("description"@) {
                Some(d) => d,
                None => JsonV::Str(""@),
            }
            &&& (forall|p: JsonV|
                tool.get("parameters"@) == Some(p) ==> #[trigger] f.at("parameters"@) == p)
            &&& (tool.get("parameters"@) is None ==> f.at("parameters"@) == JsonV::Object(
                Seq::empty(),
            ))
        },
        tool.at("type"@) != JsonV::Str("function"@) ==> chat_tool(tool) == tool,
{
    reveal_strlit("type");
    reveal_strlit("function");
    reveal_strlit("name");
    reveal_strlit("description");
    reveal_strlit("parameters");
    reveal_strlit("");
    assert("type"@[0] != "function"@[0]);
    assert("name"@[0] != "description"@[0]);
    assert("name"@[0] != "parameters"@[0]);
    assert("description"@[0] != "parameters"@[0]);
    reveal_with_fuel(lookup, 3);
    if tool.at("type"@) == JsonV::Str("function"@) {
        assert(tool.at("type"@).str_or(""@) == "function"@);
        let fields = chat_tool(tool)->Object_0[1].1->Object_0;
        assert(fields.drop_first()[0].0 == "description"@);
        assert(fields.drop_first().drop_first()[0].0 == "parameters"@);
    } else {
        assert(""@.len() == 0 && "function"@.len() == 8);
        if tool.at("type"@).str_or(""@) == "function"@ {
            assert(tool.at("type"@) is Str);
        }
    }
}

/// The tools of a request are its own tools, converted one for one: a
/// request with a model and a non-empty `tools` array has a `tools` member
/// with as many tools, the `i`-th the conversion of the `i`-th.
pub proof fn law_request_tools(body: JsonV, tools: Seq<JsonV>)
    requires
        body.at("model"@).as_str() is Some,
        body.at("tools"@) == JsonV::Array(tools),
        tools.len() > 0,
    ensures
        chat_request(body) is Some,
        chat_request(body).unwrap().at("tools"@).as_array() is Some,
        chat_request(body).unwrap().at("tools"@).as_array().unwrap().len() == tools.len(),
        forall|i: int|
            0 <= i < tools.len() ==> #[trigger] chat_request(body).unwrap().at(
                "tools"@,
            ).as_array().unwrap()[i] == chat_tool(tools[i]),
{
    reveal_strlit("model");
    reveal_strlit("messages");
    reveal_strlit("stream");
    reveal_strlit("tools");
    assert("model"@[0] != "tools"@[0]);
    assert("messages"@[0] != "tools"@[0]);
    assert("stream"@[0] != "tools"@[0]);
    reveal_with_fuel(lookup, 5);
    law_tools_one_for_one(tools);
    let list = chat_tools(JsonV::Array(tools));
    let fields = chat_request(body).unwrap()->Object_0;
    assert(fields[3] == ("tools"@, JsonV::Array(list)));
    assert(fields.drop_first()[2] == fields[3]);
    assert(fields.drop_first().drop_first()[1] == fields[3]);
    assert(fields.drop_first().drop_first().drop_first()[0] == fields[3]);
    assert(chat_request(body).unwrap().at("tools"@) == JsonV::Array(list));
}

/// A message keeps what it says: a `message` input item whose content is
/// not an array (a string above all) becomes a chat message with the
/// item's role (`user` where it has none) and that same content.
pub proof fn law_message_content_kept(item: JsonV)
    requires
        item.at("type"@) == JsonV::Str("message"@),
        !(item.at("content"@) is Array),
    ensures
        input_item_message(item) == Some(
            JsonV::Object(
                seq![
                    ("role"@, JsonV::Str(item.at("role"@).str_or("user"@))),
                    ("content"@, item.at("content"@)),
                ],
            ),
        ),
{
    assert(item.at("type"@).str_or(""@) == "message"@);
}

/// Input items are converted one for one where each has a message: the
/// `i`-th message is that of the `i`-th item.
pub proof fn law_input_items_one_for_one(items: Seq<JsonV>)
    requires
        forall|i: int| 0 <= i < items.len() ==> #[trigger] input_item_message(items[i]) is Some,
    ensures
        input_messages(items).len() == items.len(),
        forall|i: int|
            0 <= i < items.len() ==> Some(#[trigger] input_messages(items)[i])
                == input_item_message(items[i]),
    decreases items.len(),
{
    if items.len() > 0 {
        let prefix = items.drop_last();
        assert forall|i: int| 0 <= i < prefix.len() implies #[trigger] input_item_message(
            prefix[i],
        ) is Some by {
            assert(prefix[i] == items[i]);
        }
        law_input_items_one_for_one(prefix);
        assert(input_item_message(items[items.len() - 1]) is Some);
        assert forall|i: int| 0 <= i < items.len() implies Some(
            #[trigger] input_messages(items)[i],
        ) == input_item_message(items[i]) by {
            if i < items.len() - 1 {
                assert(prefix[i] == items[i]);
                assert(input_messages(items)[i] == input_messages(prefix)[i]);
            }
        }
    }
}

proof fn lemma_function_call_items_index(calls: Seq<JsonV>)
    ensures
        function_call_items(calls).len() == calls.len(),
        forall|i: int|
            0 <= i < calls.len() ==> #[trigger] function_call_items(calls)[i] == function_call_item(
                calls[i],
            ),
    decreases calls.len(),
{
    if calls.len() > 0 {
        lemma_function_call_items_index(calls.drop_last());
        assert forall|i: int| 0 <= i < calls.len() implies #[trigger] function_call_items(calls)[i]
            == function_call_item(calls[i]) by {
            if i < calls.len() - 1 {
                assert(calls.drop_last()[i] == calls[i]);
            }
        }
    }
}

/// The items a reply choice gives, whatever else its message holds: first a
/// `reasoning` item for a non-empty reasoning text, then an assistant
/// `message` item for non-empty text content (tool calls or not), then one
/// `function_call` item per tool call, the `i`-th carrying the id, name and
/// arguments of the `i`-th call, and nothing else.
pub proof fn law_choice_items(choice: JsonV)
    ensures
        ({
            let m = choice.at("message"@);
            let out = choice_output(choice);
            let lead: int = match m.at("reasoning_content"@).as_str() {
                Some(r) => if r.len() > 0 {
                    1
                } else {
                    0
                },
                None => 0,
            };
            let text: int = match m.at("content"@).as_str() {
                Some(c) => if c.len() > 0 {
                    1
                } else {
                    0
                },
                None => 0,
            };
            let calls = match m.at("tool_calls"@).as_array() {
                Some(tcs) => tcs,
                None => Seq::empty(),
            };
            &&& out.len() == lead + text + calls.len()
            &&& forall|r: Seq<char>|
                m.at("reasoning_content"@) == JsonV::Str(r) && r.len() > 0 ==> #[trigger] out[0]
                    == JsonV::Object(
                    seq![
                        ("type"@, JsonV::Str("reasoning"@)),
                        ("summary"@, JsonV::Array(Seq::empty())),
                        (
                            "content"@,
                            JsonV::Array(
                                seq![
                                    JsonV::Object(
                                        seq![
                                            ("type"@, JsonV::Str("reasoning_text"@)),
                                            ("text"@, JsonV::Str(r)),
                                        ],
                                    ),
                                ],
                            ),
                        ),
                    ],
                )
            &&& forall|c: Seq<char>|
                m.at("content"@) == JsonV::Str(c) && c.len() > 0 ==> #[trigger] out[lead]
                    == JsonV::Object(
                    seq![
                        ("type"@, JsonV::Str("message"@)),
                        ("role"@, JsonV::Str("assistant"@)),
                        (
                            "content"@,
                            JsonV::Array(
                                seq![
                                    JsonV::Object(
                                        seq![
                                            ("type"@, JsonV::Str("output_text"@)),
                                            ("text"@, JsonV::Str(c)),
                                        ],
                                    ),
                                ],
                            ),
                        ),
                    ],
                )
            &&& forall|i: int|
                0 <= i < calls.len() ==> #[trigger] out[lead + text + i] == JsonV::Object(
                    seq![
                        ("type"@, JsonV::Str("function_call"@)),
                        ("call_id"@, calls[i].at("id"@)),
                        ("name"@, calls[i].at("function"@).at("name"@)),
                        ("arguments"@, calls[i].at("function"@).at("arguments"@)),
                    ],
                )
        }),
{
    let m = choice.at("message"@);
    let calls = match m.at("tool_calls"@).as_array() {
        Some(tcs) => tcs,
        None => Seq::<JsonV>::empty(),
    };
    lemma_function_call_items_index(calls);
    let items = match m.at("tool_calls"@).as_array() {
        Some(tcs) => function_call_items(tcs),
        None => Seq::<JsonV>::empty(),
    };
    assert(items == function_call_items(calls));
}

/// A reply with one choice has that choice's items as its output.
pub proof fn law_single_choice_reply(chat: JsonV, model: Seq<char>, choice: JsonV)
    requires
        chat.at("choices"@) == JsonV::Array(seq![choice]),
    ensures
        responses_reply(chat, model) is Some,
        responses_reply(chat, model).unwrap().at("output"@) == JsonV::Array(choice_output(choice)),
{
    reveal_strlit("id");
    reveal_strlit("object");
    reveal_strlit("model");
    reveal_strlit("output");
    assert("id"@[0] != "output"@[0]);
    assert("object"@[1] != "output"@[1]);
    assert("model"@[0] != "output"@[0]);
    reveal_with_fuel(lookup, 5);
    let cs = seq![choice];
    assert(cs.drop_last() =~= Seq::<JsonV>::empty());
    assert(choices_output(Seq::<JsonV>::empty()) == Seq::<JsonV>::empty());
    assert(choices_output(cs) =~= choice_output(choice));
    let fields = responses_reply(chat, model).unwrap()->Object_0;
    assert(fields.drop_first()[2] == fields[3]);
    assert(fields.drop_first().drop_first()[1] == fields[3]);
    assert(fields.drop_first().drop_first().drop_first()[0] == fields[3]);
}


/// A `function_call` input item becomes an assistant message with no
/// content and one tool call carrying the item's call id, name and
/// arguments (`""`, `""` and `"{}"` where it has none).
pub proof fn law_function_call_item_message(item: JsonV)
    requires
        item.at("type"@) == JsonV::Str("function_call"@),
    ensures
        input_item_message(item) == Some(
            JsonV::Object(
                seq![
                    ("role"@, JsonV::Str("assistant"@)),
                    ("content"@, JsonV::Null),
                    (
                        "tool_calls"@,
                        JsonV::Array(
                            seq![
                                JsonV::Object(
                                    seq![
                                        ("id"@, JsonV::Str(item.at("call_id"@).str_or(""@))),
                                        ("type"@, JsonV::Str("function"@)),
                                        (
                                            "function"@,
                                            JsonV::Object(
                                                seq![
                                                    (
                                                        "name"@,
                                                        JsonV::Str(item.at("name"@).str_or(""@)),
                                                    ),
                                                    (
                                                        "arguments"@,
                                                        JsonV::Str(
                                                            item.at("arguments"@).str_or("{}"@),
                                                        ),
                                                    ),
                                                ],
                                            ),
                                        ),
                                    ],
                                ),
                            ],
                        ),
                    ),
                ],
            ),
        ),
{
    lemma_key_texts();
    assert(item.at("type"@).str_or(""@) == "function_call"@);
}

/// A `function_call_output` input item becomes a tool message answering
/// the item's call id with the item's output (`""` where it has none).
pub proof fn law_function_call_output_message(item: JsonV)
    requires
        item.at("type"@) == JsonV::Str("function_call_output"@),
    ensures
        input_item_message(item) == Some(
            JsonV::Object(
                seq![
                    ("role"@, JsonV::Str("tool"@)),
                    ("tool_call_id"@, JsonV::Str(item.at("call_id"@).str_or(""@))),
                    ("content"@, JsonV::Str(item.at("output"@).str_or(""@))),
                ],
            ),
        ),
{
    lemma_key_texts();
    reveal_strlit("function_call");
    reveal_strlit("function_call_output");
    assert("function_call"@.len() != "function_call_output"@.len());
    assert(item.at("type"@).str_or(""@) == "function_call_output"@);
}

/// A text part of a Responses message: `input_text` or `output_text` with
/// a string `text`.
pub open spec fn is_text_content_part(part: JsonV) -> bool {
    &&& (part.at("type"@) == JsonV::Str("input_text"@) || part.at("type"@) == JsonV::Str(
        "output_text"@,
    ))
    &&& part.at("text"@) is Str
}

proof fn lemma_text_parts(parts: Seq<JsonV>)
    requires
        forall|i: int| 0 <= i < parts.len() ==> is_text_content_part(#[trigger] parts[i]),
    ensures
        content_parts(parts).len() == parts.len(),
        forall|i: int|
            0 <= i < parts.len() ==> #[trigger] content_parts(parts)[i] == JsonV::Object(
                seq![("type"@, JsonV::Str("text"@)), ("text"@, parts[i].at("text"@))],
            ),
    decreases parts.len(),
{
    if parts.len() > 0 {
        let prefix = parts.drop_last();
        assert forall|i: int| 0 <= i < prefix.len() implies is_text_content_part(
            #[trigger] prefix[i],
        ) by {
            assert(prefix[i] == parts[i]);
        }
        lemma_text_parts(prefix);
        let last = parts[parts.len() - 1];
        assert(is_text_content_part(last));
        assert(last.at("type"@).str_or(""@) == "input_text"@ || last.at("type"@).str_or(""@)
            == "output_text"@);
        assert(content_part(last) == Some(text_part(last.at("text"@))));
        assert forall|i: int| 0 <= i < parts.len() implies #[trigger] content_parts(parts)[i]
            == JsonV::Object(seq![("type"@, JsonV::Str("text"@)), ("text"@, parts[i].at("text"@))]) by {
            if i < parts.len() - 1 {
                assert(prefix[i] == parts[i]);
            }
        }
    }
}

/// Text parts keep their text: a message content made of text parts
/// becomes that text where there is one part, and otherwise an array of
/// chat text parts, one for one, each with the text of its part.
pub proof fn law_text_parts_content(parts: Seq<JsonV>)
    requires
        forall|i: int| 0 <= i < parts.len() ==> is_text_content_part(#[trigger] parts[i]),
    ensures
        parts.len() == 1 ==> chat_content(JsonV::Array(parts)) == parts[0].at("text"@),
        parts.len() != 1 ==> chat_content(JsonV::Array(parts)) is Array,
        parts.len() != 1 ==> chat_content(JsonV::Array(parts))->Array_0.len() == parts.len(),
        forall|i: int|
            parts.len() != 1 && 0 <= i < parts.len() ==> #[trigger] chat_content(
                JsonV::Array(parts),
            )->Array_0[i] == JsonV::Object(
                seq![("type"@, JsonV::Str("text"@)), ("text"@, parts[i].at("text"@))],
            ),
{
    lemma_key_texts();
    reveal_with_fuel(lookup, 2);
    lemma_text_parts(parts);
    if parts.len() == 1 {
        let p = content_parts(parts)[0];
        assert(p.at("text"@) == parts[0].at("text"@));
        assert(is_text_content_part(parts[0]));
    }
}


/// The members of a reply around its output: the id is the upstream id
/// with `chatcmpl-` replaced by `resp_` (`resp_bridge` where it has none),
/// the object is `response`, the model is the one asked for, the status is
/// `completed`, and the token counts are the upstream prompt and completion
/// counts (zero where missing).
pub proof fn law_reply_members(chat: JsonV, model: Seq<char>, choices: Seq<JsonV>)
    requires
        chat.at("choices"@) == JsonV::Array(choices),
    ensures
        ({
            let reply = responses_reply(chat, model).unwrap();
            let usage = chat.at("usage"@);
            &&& responses_reply(chat, model) is Some
            &&& reply.at("id"@) == JsonV::Str(
                replaced(chat.at("id"@).str_or("resp_bridge"@), "chatcmpl-"@, "resp_"@),
            )
            &&& reply.at("object"@) == JsonV::Str("response"@)
            &&& reply.at("model"@) == JsonV::Str(model)
            &&& reply.at("status"@) == JsonV::Str("completed"@)
            &&& reply.at("usage"@).at("input_tokens"@) == JsonV::Number(
                NumberV::PosInt(
                    match usage.at("prompt_tokens"@).as_u64() {
                        Some(n) => n,
                        None => 0,
                    },
                ),
            )
            &&& reply.at("usage"@).at("output_tokens"@) == JsonV::Number(
                NumberV::PosInt(
                    match usage.at("completion_tokens"@).as_u64() {
                        Some(n) => n,
                        None => 0,
                    },
                ),
            )
        }),
{
    reveal_strlit("id");
    reveal_strlit("object");
    reveal_strlit("model");
    reveal_strlit("output");
    reveal_strlit("usage");
    reveal_strlit("status");
    reveal_strlit("input_tokens");
    reveal_strlit("output_tokens");
    assert("id"@[0] != "object"@[0]);
    assert("id"@[0] != "model"@[0]);
    assert("id"@[0] != "usage"@[0]);
    assert("id"@[0] != "status"@[0]);
    assert("object"@[0] != "model"@[0]);
    assert("object"@[0] != "usage"@[0]);
    assert("object"@[0] != "status"@[0]);
    assert("model"@[0] != "usage"@[0]);
    assert("model"@[0] != "status"@[0]);
    assert("output"@[0] != "usage"@[0]);
    assert("output"@[0] != "status"@[0]);
    assert("output"@[0] != "model"@[0]);
    assert("usage"@[0] != "status"@[0]);
    assert("input_tokens"@[0] != "output_tokens"@[0]);
    reveal_with_fuel(lookup, 7);
    let fields = responses_reply(chat, model).unwrap()->Object_0;
    let f1 = fields.drop_first();
    let f2 = f1.drop_first();
    let f3 = f2.drop_first();
    let f4 = f3.drop_first();
    let f5 = f4.drop_first();
    assert(f1[0] == fields[1]);
    assert(f2[0] == fields[2]);
    assert(f3[0] == fields[3]);
    assert(f4[0] == fields[4]);
    assert(f5[0] == fields[5]);
    let u = fields[4].1->Object_0;
    assert(u.drop_first()[0] == u[1]);
}


proof fn lemma_lookup_push(fields: Seq<(Seq<char>, JsonV)>, x: (Seq<char>, JsonV), k: Seq<char>)
    ensures
        lookup(fields.push(x), k) == match lookup(fields, k) {
            Some(v) => Some(v),
            None => if x.0 == k {
                Some(x.1)
            } else {
                None
            },
        },
    decreases fields.len(),
{
    if fields.len() == 0 {
        assert(fields.push(x).drop_first() =~= Seq::<(Seq<char>, JsonV)>::empty());
        assert(lookup(Seq::<(Seq<char>, JsonV)>::empty(), k) is None);
    } else {
        assert(fields.push(x)[0] == fields[0]);
        assert(fields.push(x).drop_first() =~= fields.drop_first().push(x));
        lemma_lookup_push(fields.drop_first(), x, k);
    }
}

proof fn lemma_lookup_with_member(
    fields: Seq<(Seq<char>, JsonV)>,
    key: Seq<char>,
    value: Option<JsonV>,
    k: Seq<char>,
)
    ensures
        lookup(with_member(fields, key, value), k) == match lookup(fields, k) {
            Some(v) => Some(v),
            None => if key == k {
                value
            } else {
                None
            },
        },
{
    match value {
        Some(v) => lemma_lookup_push(fields, (key, v), k),
        None => {},
    }
}

/// What a request carries besides its messages and tools: the model asked
/// for, `stream` as given (true where it is not a boolean), and the
/// `tool_choice`, `temperature` and `max_output_tokens` members passed on
/// as they are (the last as `max_tokens`), each present exactly when given.
pub proof fn law_request_members(body: JsonV, model: Seq<char>)
    requires
        body.at("model"@) == JsonV::Str(model),
    ensures
        chat_request(body) is Some,
        chat_request(body).unwrap().get("model"@) == Some(JsonV::Str(model)),
        chat_request(body).unwrap().get("stream"@) == Some(
            JsonV::Bool(
                match body.at("stream"@).as_bool() {
                    Some(b) => b,
                    None => true,
                },
            ),
        ),
        chat_request(body).unwrap().get("tool_choice"@) == body.get("tool_choice"@),
        chat_request(body).unwrap().get("temperature"@) == body.get("temperature"@),
        chat_request(body).unwrap().get("max_tokens"@) == body.get("max_output_tokens"@),
{
    reveal_strlit("model");
    reveal_strlit("messages");
    reveal_strlit("stream");
    reveal_strlit("tools");
    reveal_strlit("tool_choice");
    reveal_strlit("temperature");
    reveal_strlit("max_tokens");
    assert("model"@[0] != "stream"@[0]);
    assert("messages"@[0] != "stream"@[0]);
    assert("model"@[1] != "messages"@[1]);
    assert("stream"@[0] != "tools"@[0]);
    assert("stream"@[0] != "tool_choice"@[0]);
    assert("stream"@[0] != "temperature"@[0]);
    assert("stream"@[0] != "max_tokens"@[0]);
    assert("model"@[0] != "tools"@[0]);
    assert("model"@[0] != "tool_choice"@[0]);
    assert("model"@[0] != "temperature"@[0]);
    assert("model"@[1] != "max_tokens"@[1]);
    assert("messages"@[0] != "tools"@[0]);
    assert("messages"@[0] != "tool_choice"@[0]);
    assert("messages"@[0] != "temperature"@[0]);
    assert("messages"@[1] != "max_tokens"@[1]);
    assert("tools"@.len() != "tool_choice"@.len());
    assert("tools"@[1] != "temperature"@[1]);
    assert("tools"@[0] != "max_tokens"@[0]);
    assert("tool_choice"@[1] != "temperature"@[1]);
    assert("tool_choice"@[0] != "max_tokens"@[0]);
    assert("temperature"@[0] != "max_tokens"@[0]);
    reveal_with_fuel(lookup, 4);
    let messages = system_messages(body.at("instructions"@).str_or(""@)) + conversation_messages(
        body.at("input"@),
    );
    let stream = match body.at("stream"@).as_bool() {
        Some(b) => b,
        None => true,
    };
    let tools = chat_tools(body.at("tools"@));
    let base = seq![
        ("model"@, JsonV::Str(model)),
        ("messages"@, JsonV::Array(messages)),
        ("stream"@, JsonV::Bool(stream)),
    ];
    let with_tools = if tools.len() > 0 {
        base.push(("tools"@, JsonV::Array(tools)))
    } else {
        base
    };
    let f1 = with_member(with_tools, "tool_choice"@, body.get("tool_choice"@));
    let f2 = with_member(f1, "temperature"@, body.get("temperature"@));
    let f3 = with_member(f2, "max_tokens"@, body.get("max_output_tokens"@));
    assert(chat_request(body) == Some(JsonV::Object(f3)));
    assert(lookup(base, "tool_choice"@) is None);
    assert(lookup(base, "temperature"@) is None);
    assert(lookup(base, "max_tokens"@) is None);
    assert(lookup(base, "model"@) == Some(JsonV::Str(model)));
    assert(lookup(base, "stream"@) == Some(JsonV::Bool(stream)));
    if tools.len() > 0 {
        lemma_lookup_push(base, ("tools"@, JsonV::Array(tools)), "tool_choice"@);
        lemma_lookup_push(base, ("tools"@, JsonV::Array(tools)), "temperature"@);
        lemma_lookup_push(base, ("tools"@, JsonV::Array(tools)), "max_tokens"@);
        lemma_lookup_push(base, ("tools"@, JsonV::Array(tools)), "model"@);
        lemma_lookup_push(base, ("tools"@, JsonV::Array(tools)), "stream"@);
    }
    let ks = seq!["model"@, "stream"@, "tool_choice"@, "temperature"@, "max_tokens"@];
    assert forall|j: int| 0 <= j < ks.len() implies {
        &&& lookup(f3, #[trigger] ks[j]) == match lookup(f2, ks[j]) {
            Some(v) => Some(v),
            None => if "max_tokens"@ == ks[j] {
                body.get("max_output_tokens"@)
            } else {
                None
            },
        }
        &&& lookup(f2, ks[j]) == match lookup(f1, ks[j]) {
            Some(v) => Some(v),
            None => if "temperature"@ == ks[j] {
                body.get("temperature"@)
            } else {
                None
            },
        }
        &&& lookup(f1, ks[j]) == match lookup(with_tools, ks[j]) {
            Some(v) => Some(v),
            None => if "tool_choice"@ == ks[j] {
                body.get("tool_choice"@)
            } else {
                None
            },
        }
    } by {
        lemma_lookup_with_member(f2, "max_tokens"@, body.get("max_output_tokens"@), ks[j]);
        lemma_lookup_with_member(f1, "temperature"@, body.get("temperature"@), ks[j]);
        lemma_lookup_with_member(with_tools, "tool_choice"@, body.get("tool_choice"@), ks[j]);
    }
    assert(ks[0] == "model"@);
    assert(ks[1] == "stream"@);
    assert(ks[2] == "tool_choice"@);
    assert(ks[3] == "temperature"@);
    assert(ks[4] == "max_tokens"@);
}


/// A string input is the user's message: a request with a model, a string
/// `input` and no instructions asks for exactly one message, from the user,
/// holding that string.
pub proof fn law_string_input_is_user_message(body: JsonV, model: Seq<char>, text: Seq<char>)
    requires
        body.at("model"@) == JsonV::Str(model),
        body.at("input"@) == JsonV::Str(text),
        body.at("instructions"@).str_or(""@).len() == 0,
    ensures
        chat_request(body) is Some,
        chat_request(body).unwrap().get("messages"@) == Some(
            JsonV::Array(
                seq![JsonV::Object(seq![("role"@, JsonV::Str("user"@)), ("content"@, JsonV::Str(text))])],
            ),
        ),
{
    reveal_strlit("model");
    reveal_strlit("messages");
    assert("model"@[1] != "messages"@[1]);
    reveal_with_fuel(lookup, 2);
    let messages = system_messages(body.at("instructions"@).str_or(""@)) + conversation_messages(
        body.at("input"@),
    );
    assert(messages =~= seq![chat_message("user"@, JsonV::Str(text))]);
    let fields = chat_request(body).unwrap()->Object_0;
    assert(fields[1] == ("messages"@, JsonV::Array(messages)));
    assert(fields.drop_first()[0] == fields[1]);
}


/// The items of several choices are those of each choice, in order: the
/// items of `a + b` are the items of `a` followed by those of `b`, and one
/// choice gives exactly its own items.
pub proof fn law_choices_output_concatenates(a: Seq<JsonV>, b: Seq<JsonV>)
    ensures
        choices_output(a + b) == choices_output(a) + choices_output(b),
        forall|c: JsonV| #[trigger] choices_output(seq![c]) == choice_output(c),
    decreases b.len(),
{
    assert forall|c: JsonV| #[trigger] choices_output(seq![c]) == choice_output(c) by {
        assert(seq![c].drop_last() =~= Seq::<JsonV>::empty());
        assert(choices_output(Seq::<JsonV>::empty()) == Seq::<JsonV>::empty());
        assert(Seq::<JsonV>::empty() + choice_output(c) =~= choice_output(c));
    }
    if b.len() == 0 {
        assert(a + b =~= a);
        assert(choices_output(a) + Seq::<JsonV>::empty() =~= choices_output(a));
    } else {
        law_choices_output_concatenates(a, b.drop_last());
        assert((a + b).drop_last() =~= a + b.drop_last());
        assert((a + b).last() == b.last());
        assert(choices_output(a) + choices_output(b.drop_last()) + choice_output(b.last())
            =~= choices_output(a) + (choices_output(b.drop_last()) + choice_output(b.last())));
    }
}

/// A reply's output is the items of its choices.
pub proof fn law_reply_output(chat: JsonV, model: Seq<char>, choices: Seq<JsonV>)
    requires
        chat.at("choices"@) == JsonV::Array(choices),
    ensures
        responses_reply(chat, model) is Some,
        responses_reply(chat, model).unwrap().at("output"@) == JsonV::Array(choices_output(choices)),
{
    reveal_strlit("id");
    reveal_strlit("object");
    reveal_strlit("model");
    reveal_strlit("output");
    assert("id"@[0] != "output"@[0]);
    assert("object"@[1] != "output"@[1]);
    assert("model"@[0] != "output"@[0]);
    reveal_with_fuel(lookup, 5);
    let fields = responses_reply(chat, model).unwrap()->Object_0;
    assert(fields.drop_first()[2] == fields[3]);
    assert(fields.drop_first().drop_first()[1] == fields[3]);
    assert(fields.drop_first().drop_first().drop_first()[0] == fields[3]);
}

} // verus!
