//! The state machine that turns streamed Chat Completions chunks into
//! Responses stream events.
//!
//! Pending tool calls are kept in a hash map keyed by the tool call's index.
//! When a choice finishes, one `output_item.done` event is emitted per
//! pending call in the order in which the map is walked; that order is not
//! fixed, so the contract of `convert_chunk` holds for some walk order of the
//! keys (each pending key exactly once), and is exact for any such order.

use vstd::prelude::*;
use std::collections::HashMap;
use vstd::std_specs::iter::IteratorSpec;
use crate::json::{
    Json, JsonV, JsonNumber, NumberV, models, field_models, push_item, push_field, lemma_models,
    new_items, new_fields,
};
use crate::text::{str_eq, digits, decimal_text, hex_text};

verus! {

broadcast use vstd::std_specs::hash::group_hash_axioms;

// ------------------------------------------------------------------
// Model
// ------------------------------------------------------------------

/// The model of a pending tool call: its id, its function name, and the
/// arguments received so far.
pub struct ToolCallV {
    pub id: Seq<char>,
    pub name: Seq<char>,
    pub arguments: Seq<char>,
}

/// The model of a stream converter.
pub struct StreamV {
    pub response_id: Seq<char>,
    pub model: Seq<char>,
    pub output_index: usize,
    pub content_index: usize,
    pub calls: Map<usize, ToolCallV>,
    /// Whether a chunk has been converted yet (and so `response.created`
    /// already emitted).
    pub started: bool,
}

/// The states a converter can be in: at most one text item has been
/// opened, and text always goes to the first content part.
pub open spec fn stream_wf(s: StreamV) -> bool {
    &&& s.output_index <= 1
    &&& s.content_index == 0
}

/// The prefix of every response id.
pub open spec fn response_id_for(millis: u128) -> Seq<char> {
    "resp_br_"@ + digits(millis as nat, 16)
}

/// A JSON number holding `n`.
pub open spec fn num(n: usize) -> JsonV {
    JsonV::Number(NumberV::PosInt(n as u64))
}

/// The `response.created` event.
pub open spec fn created_event(s: StreamV) -> JsonV {
    JsonV::Object(
        seq![
            ("type"@, JsonV::Str("response.created"@)),
            (
                "response"@,
                JsonV::Object(
                    seq![
                        ("id"@, JsonV::Str(s.response_id)),
                        ("object"@, JsonV::Str("response"@)),
                        ("status"@, JsonV::Str("in_progress"@)),
                        ("model"@, JsonV::Str(s.model)),
                        ("output"@, JsonV::Array(Seq::empty())),
                    ],
                ),
            ),
        ],
    )
}

/// The `response.output_item.added` event that opens the text item.
pub open spec fn text_item_added_event() -> JsonV {
    JsonV::Object(
        seq![
            ("type"@, JsonV::Str("response.output_item.added"@)),
            ("output_index"@, num(0)),
            (
                "item"@,
                JsonV::Object(
                    seq![
                        ("type"@, JsonV::Str("message"@)),
                        ("role"@, JsonV::Str("assistant"@)),
                        ("content"@, JsonV::Array(Seq::empty())),
                    ],
                ),
            ),
        ],
    )
}

/// The `response.output_text.delta` event for a piece of text.
pub open spec fn text_delta_event(content_index: usize, text: Seq<char>) -> JsonV {
    JsonV::Object(
        seq![
            ("type"@, JsonV::Str("response.output_text.delta"@)),
            ("output_index"@, num(0)),
            ("content_index"@, num(content_index)),
            ("delta"@, JsonV::Str(text)),
        ],
    )
}

/// The `response.reasoning_text.delta` event for a piece of reasoning.
pub open spec fn reasoning_delta_event(text: Seq<char>) -> JsonV {
    JsonV::Object(
        seq![
            ("type"@, JsonV::Str("response.reasoning_text.delta"@)),
            ("output_index"@, num(0)),
            ("content_index"@, num(0)),
            ("delta"@, JsonV::Str(text)),
        ],
    )
}

/// The `response.function_call_arguments.delta` event for a piece of the
/// arguments of the call `call_id`.
pub open spec fn arguments_delta_event(call_id: Seq<char>, delta: Seq<char>) -> JsonV {
    JsonV::Object(
        seq![
            ("type"@, JsonV::Str("response.function_call_arguments.delta"@)),
            ("item_id"@, JsonV::Str(call_id)),
            ("delta"@, JsonV::Str(delta)),
        ],
    )
}

/// The `response.output_item.done` event that completes a tool call.
pub open spec fn call_done_event(output_index: usize, call: ToolCallV) -> JsonV {
    JsonV::Object(
        seq![
            ("type"@, JsonV::Str("response.output_item.done"@)),
            ("output_index"@, num(output_index)),
            (
                "item"@,
                JsonV::Object(
                    seq![
                        ("type"@, JsonV::Str("function_call"@)),
                        ("call_id"@, JsonV::Str(call.id)),
                        ("name"@, JsonV::Str(call.name)),
                        ("arguments"@, JsonV::Str(call.arguments)),
                    ],
                ),
            ),
        ],
    )
}

/// The status a finish reason leads to: a stop for tool calls leaves the
/// response incomplete (it waits for tool output), any other is complete.
pub open spec fn finish_status(finish_reason: Seq<char>) -> Seq<char> {
    if finish_reason == "tool_calls"@ {
        "incomplete"@
    } else {
        "completed"@
    }
}

/// The `response.completed` event.
pub open spec fn completed_event(response_id: Seq<char>, finish_reason: Seq<char>) -> JsonV {
    JsonV::Object(
        seq![
            ("type"@, JsonV::Str("response.completed"@)),
            (
                "response"@,
                JsonV::Object(
                    seq![
                        ("id"@, JsonV::Str(response_id)),
                        ("status"@, JsonV::Str(finish_status(finish_reason))),
                    ],
                ),
            ),
        ],
    )
}

/// The key under which a tool-call delta is kept: its `index`, or zero.
pub open spec fn tool_key(delta: JsonV) -> usize {
    (match delta.at("index"@).as_u64() {
        Some(n) => n,
        None => 0,
    }) as usize
}

/// The piece of arguments that a tool-call delta carries (empty where none).
pub open spec fn arguments_piece(delta: JsonV) -> Seq<char> {
    delta.at("function"@).at("arguments"@).str_or(""@)
}

/// The tool call that a delta opens under `key`: its own `id` or
/// `call_<key>`, its function name or empty, and no arguments yet.
pub open spec fn opened_call(delta: JsonV, key: usize) -> ToolCallV {
    ToolCallV {
        id: match delta.at("id"@).as_str() {
            Some(id) => id,
            None => "call_"@ + digits(key as nat, 10),
        },
        name: delta.at("function"@).at("name"@).str_or(""@),
        arguments: Seq::empty(),
    }
}

/// One tool-call delta: the call under its key (opened if new) gets the
/// delta's arguments appended, and an arguments-delta event names the call.
pub open spec fn tool_delta_step(s: StreamV, delta: JsonV) -> (StreamV, JsonV) {
    let key = tool_key(delta);
    let call = if s.calls.contains_key(key) {
        s.calls[key]
    } else {
        opened_call(delta, key)
    };
    let updated = ToolCallV { arguments: call.arguments + arguments_piece(delta), ..call };
    (
        StreamV { calls: s.calls.insert(key, updated), ..s },
        arguments_delta_event(call.id, arguments_piece(delta)),
    )
}

/// A sequence of tool-call deltas, applied in order.
pub open spec fn tool_deltas_step(s: StreamV, deltas: Seq<JsonV>) -> (StreamV, Seq<JsonV>)
    decreases deltas.len(),
{
    if deltas.len() == 0 {
        (s, Seq::empty())
    } else {
        let (s1, e1) = tool_deltas_step(s, deltas.drop_last());
        let (s2, e2) = tool_delta_step(s1, deltas.last());
        (s2, e1.push(e2))
    }
}

/// The events of a choice's reasoning: a reasoning delta for non-empty
/// `reasoning_content` text, none otherwise.
pub open spec fn choice_reasoning(choice: JsonV) -> Seq<JsonV> {
    match choice.at("delta"@).at("reasoning_content"@).as_str() {
        Some(text) => if text.len() > 0 {
            seq![reasoning_delta_event(text)]
        } else {
            Seq::empty()
        },
        None => Seq::empty(),
    }
}

/// The effect of a choice's text: non-empty text opens the text item first,
/// if none is open, then gives a text delta.
pub open spec fn choice_updates_text(s: StreamV, choice: JsonV) -> (StreamV, Seq<JsonV>) {
    match choice.at("delta"@).at("content"@).as_str() {
        Some(text) => if text.len() > 0 {
            if s.output_index == 0 {
                (
                    StreamV { output_index: 1, ..s },
                    seq![text_item_added_event(), text_delta_event(s.content_index, text)],
                )
            } else {
                (s, seq![text_delta_event(s.content_index, text)])
            }
        } else {
            (s, Seq::empty())
        },
        None => (s, Seq::empty()),
    }
}

/// The effect of a choice's delta before its finish reason: non-empty
/// reasoning, then non-empty text
/// (opening the text item first, if none is open), then the tool-call deltas.
pub open spec fn choice_updates(s: StreamV, choice: JsonV) -> (StreamV, Seq<JsonV>) {
    let r = choice_reasoning(choice);
    let (s1, e1) = choice_updates_text(s, choice);
    match choice.at("delta"@).at("tool_calls"@).as_array() {
        Some(deltas) => {
            let (s2, e2) = tool_deltas_step(s1, deltas);
            (s2, r + e1 + e2)
        },
        None => (s1, r + e1),
    }
}

/// The finish reason of a choice (empty where it has none).
pub open spec fn finish_reason(choice: JsonV) -> Seq<char> {
    choice.at("finish_reason"@).str_or(""@)
}

/// Whether a choice finishes the response.
pub open spec fn finishes(choice: JsonV) -> bool {
    finish_reason(choice).len() > 0 && finish_reason(choice) != "null"@
}

/// An order in which the keys of `calls` are walked: each key exactly once.
pub open spec fn is_walk_order(calls: Map<usize, ToolCallV>, order: Seq<usize>) -> bool {
    &&& order.len() == calls.dom().len()
    &&& order.no_duplicates()
    &&& forall|i: int| 0 <= i < order.len() ==> calls.contains_key(#[trigger] order[i])
    &&& forall|k: usize| #[trigger] calls.contains_key(k) ==> order.contains(k)
}

/// The done events of the calls walked in `order`.
pub open spec fn done_events(output_index: usize, calls: Map<usize, ToolCallV>, order: Seq<usize>) -> Seq<
    JsonV,
>
    decreases order.len(),
{
    if order.len() == 0 {
        Seq::empty()
    } else {
        done_events(output_index, calls, order.drop_last()).push(
            call_done_event(output_index, calls[order.last()]),
        )
    }
}

/// One choice, with the pending calls walked in `order` if it finishes:
/// the updates, then (when it finishes) one done event per pending call and
/// the completed event, after which no call is pending.
pub open spec fn choice_step(s: StreamV, choice: JsonV, order: Seq<usize>) -> (StreamV, Seq<JsonV>) {
    let (s2, e) = choice_updates(s, choice);
    if finishes(choice) {
        (
            StreamV { calls: Map::empty(), ..s2 },
            e + done_events(s2.output_index, s2.calls, order) + seq![
                completed_event(s2.response_id, finish_reason(choice)),
            ],
        )
    } else {
        (s2, e)
    }
}

/// `order` is a walk order of the calls pending when `choice` finishes.
pub open spec fn choice_order_ok(s: StreamV, choice: JsonV, order: Seq<usize>) -> bool {
    finishes(choice) ==> is_walk_order(choice_updates(s, choice).0.calls, order)
}

/// A sequence of choices, applied in order, the `i`-th with walk order `orders[i]`.
pub open spec fn choices_step(s: StreamV, choices: Seq<JsonV>, orders: Seq<Seq<usize>>) -> (
    StreamV,
    Seq<JsonV>,
)
    decreases choices.len(),
{
    if choices.len() == 0 {
        (s, Seq::empty())
    } else {
        let (s1, e1) = choices_step(s, choices.drop_last(), orders);
        let (s2, e2) = choice_step(s1, choices.last(), orders[choices.len() - 1]);
        (s2, e1 + e2)
    }
}

/// Every walk order used by `choices_step` is a walk order of the calls then pending.
pub open spec fn choices_orders_ok(s: StreamV, choices: Seq<JsonV>, orders: Seq<Seq<usize>>) -> bool
    decreases choices.len(),
{
    if choices.len() == 0 {
        true
    } else {
        &&& choices_orders_ok(s, choices.drop_last(), orders)
        &&& choice_order_ok(
            choices_step(s, choices.drop_last(), orders).0,
            choices.last(),
            orders[choices.len() - 1],
        )
    }
}

/// Applying one more choice extends the step by that choice's step; the
/// orders of the earlier choices are not consulted for it.
proof fn lemma_choices_step_extend(
    s: StreamV,
    choices: Seq<JsonV>,
    orders: Seq<Seq<usize>>,
    order: Seq<usize>,
)
    requires
        orders.len() == choices.len(),
    ensures
        forall|c: JsonV|
            #[trigger] choices_step(s, choices.push(c), orders.push(order)) == ({
                let (s1, e1) = choices_step(s, choices, orders);
                let (s2, e2) = choice_step(s1, c, order);
                (s2, e1 + e2)
            }),
{
    lemma_choices_step_prefix(s, choices, orders, order);
    assert forall|c: JsonV|
        #[trigger] choices_step(s, choices.push(c), orders.push(order)) == ({
            let (s1, e1) = choices_step(s, choices, orders);
            let (s2, e2) = choice_step(s1, c, order);
            (s2, e1 + e2)
        }) by {
        assert(choices.push(c).drop_last() =~= choices);
        assert(orders.push(order)[choices.len() as int] == order);
    }
}

/// The step of a sequence of choices depends only on the orders of those choices.
proof fn lemma_choices_step_agree(
    s: StreamV,
    choices: Seq<JsonV>,
    o1: Seq<Seq<usize>>,
    o2: Seq<Seq<usize>>,
)
    requires
        forall|i: int| 0 <= i < choices.len() ==> o1[i] == o2[i],
    ensures
        choices_step(s, choices, o1) == choices_step(s, choices, o2),
        choices_orders_ok(s, choices, o1) == choices_orders_ok(s, choices, o2),
    decreases choices.len(),
{
    if choices.len() > 0 {
        lemma_choices_step_agree(s, choices.drop_last(), o1, o2);
        assert(o1[choices.len() - 1] == o2[choices.len() - 1]);
    }
}

/// The step of a prefix of choices does not depend on orders past it.
proof fn lemma_choices_step_prefix(
    s: StreamV,
    choices: Seq<JsonV>,
    orders: Seq<Seq<usize>>,
    order: Seq<usize>,
)
    requires
        orders.len() == choices.len(),
    ensures
        choices_step(s, choices, orders.push(order)) == choices_step(s, choices, orders),
        choices_orders_ok(s, choices, orders.push(order)) == choices_orders_ok(s, choices, orders),
{
    lemma_choices_step_agree(s, choices, orders.push(order), orders);
}

/// Applying one more choice extends the order condition by that choice's condition.
proof fn lemma_choices_orders_extend(
    s: StreamV,
    choices: Seq<JsonV>,
    orders: Seq<Seq<usize>>,
    order: Seq<usize>,
)
    requires
        orders.len() == choices.len(),
    ensures
        forall|c: JsonV|
            #[trigger] choices_orders_ok(s, choices.push(c), orders.push(order)) == (
            choices_orders_ok(s, choices, orders) && choice_order_ok(
                choices_step(s, choices, orders).0,
                c,
                order,
            )),
{
    lemma_choices_step_prefix(s, choices, orders, order);
    assert forall|c: JsonV|
        #[trigger] choices_orders_ok(s, choices.push(c), orders.push(order)) == (
        choices_orders_ok(s, choices, orders) && choice_order_ok(
            choices_step(s, choices, orders).0,
            c,
            order,
        )) by {
        assert(choices.push(c).drop_last() =~= choices);
        assert(orders.push(order)[choices.len() as int] == order);
    }
}

/// The events that open a chunk: `response.created` for the first chunk a
/// converter sees, nothing for any later one.
pub open spec fn opening_events(s: StreamV) -> Seq<JsonV> {
    if !s.started {
        seq![created_event(s)]
    } else {
        Seq::empty()
    }
}

/// The state once a chunk has been seen.
pub open spec fn begun(s: StreamV) -> StreamV {
    StreamV { started: true, ..s }
}

/// One streamed chunk: the opening events, then each of its choices in
/// order; a chunk without a `choices` array changes nothing else but marks
/// the converter started.
pub open spec fn chunk_step(s: StreamV, chunk: JsonV, orders: Seq<Seq<usize>>) -> (StreamV, Seq<JsonV>) {
    match chunk.at("choices"@).as_array() {
        Some(choices) => {
            let (s2, e) = choices_step(begun(s), choices, orders);
            (s2, opening_events(s) + e)
        },
        None => (begun(s), opening_events(s)),
    }
}

/// The walk orders fit the chunk: one per choice, each a walk order of the
/// calls pending when its choice finishes.
pub open spec fn chunk_orders_ok(s: StreamV, chunk: JsonV, orders: Seq<Seq<usize>>) -> bool {
    match chunk.at("choices"@).as_array() {
        Some(choices) => orders.len() == choices.len() && choices_orders_ok(begun(s), choices, orders),
        None => orders.len() == 0,
    }
}

// ------------------------------------------------------------------
// Laws
// ------------------------------------------------------------------

proof fn lemma_tool_deltas_keep(s: StreamV, deltas: Seq<JsonV>)
    ensures
        tool_deltas_step(s, deltas).0.response_id == s.response_id,
        tool_deltas_step(s, deltas).0.model == s.model,
        tool_deltas_step(s, deltas).0.output_index == s.output_index,
        tool_deltas_step(s, deltas).0.content_index == s.content_index,
        tool_deltas_step(s, deltas).0.started == s.started,
    decreases deltas.len(),
{
    if deltas.len() > 0 {
        lemma_tool_deltas_keep(s, deltas.drop_last());
    }
}

proof fn lemma_choice_keeps(s: StreamV, choice: JsonV, order: Seq<usize>)
    requires
        stream_wf(s),
    ensures
        stream_wf(choice_step(s, choice, order).0),
        choice_step(s, choice, order).0.response_id == s.response_id,
        choice_step(s, choice, order).0.model == s.model,
        choice_step(s, choice, order).0.started == s.started,
{
    let s1 = choice_updates_text(s, choice).0;
    lemma_tool_deltas_keep(s1, choice.at("delta"@).at("tool_calls"@).as_array().unwrap_or(Seq::empty()));
}

proof fn lemma_choices_keep(s: StreamV, choices: Seq<JsonV>, orders: Seq<Seq<usize>>)
    requires
        stream_wf(s),
    ensures
        stream_wf(choices_step(s, choices, orders).0),
        choices_step(s, choices, orders).0.response_id == s.response_id,
        choices_step(s, choices, orders).0.model == s.model,
        choices_step(s, choices, orders).0.started == s.started,
    decreases choices.len(),
{
    if choices.len() > 0 {
        lemma_choices_keep(s, choices.drop_last(), orders);
        lemma_choice_keeps(
            choices_step(s, choices.drop_last(), orders).0,
            choices.last(),
            orders[choices.len() - 1],
        );
    }
}

proof fn lemma_choices_state_independent(
    s: StreamV,
    choices: Seq<JsonV>,
    o1: Seq<Seq<usize>>,
    o2: Seq<Seq<usize>>,
)
    ensures
        choices_step(s, choices, o1).0 == choices_step(s, choices, o2).0,
    decreases choices.len(),
{
    if choices.len() > 0 {
        lemma_choices_state_independent(s, choices.drop_last(), o1, o2);
    }
}

/// The walk order affects only the order of done events, never the state:
/// a chunk leads to the same state whatever orders the pending calls are
/// walked in.
pub proof fn law_chunk_state_independent_of_walk(
    s: StreamV,
    chunk: JsonV,
    o1: Seq<Seq<usize>>,
    o2: Seq<Seq<usize>>,
)
    ensures
        chunk_step(s, chunk, o1).0 == chunk_step(s, chunk, o2).0,
{
    match chunk.at("choices"@).as_array() {
        Some(choices) => lemma_choices_state_independent(begun(s), choices, o1, o2),
        None => {},
    }
}

/// A converter stays in a well-formed state and keeps its identity: from a
/// well-formed state, any chunk (with any walk orders) leads to a
/// well-formed state with the same response id and model.
pub proof fn law_chunk_keeps_identity(s: StreamV, chunk: JsonV, orders: Seq<Seq<usize>>)
    requires
        stream_wf(s),
    ensures
        stream_wf(chunk_step(s, chunk, orders).0),
        chunk_step(s, chunk, orders).0.response_id == s.response_id,
        chunk_step(s, chunk, orders).0.model == s.model,
{
    match chunk.at("choices"@).as_array() {
        Some(choices) => lemma_choices_keep(begun(s), choices, orders),
        None => {},
    }
}

/// A converter that has just started is well-formed, and its first chunk
/// opens with the `response.created` event for its id and model.
pub proof fn law_started_converter_opens(response_id: Seq<char>, model: Seq<char>)
    ensures
        ({
            let s = StreamV {
                response_id,
                model,
                output_index: 0,
                content_index: 0,
                calls: Map::empty(),
                started: false,
            };
            stream_wf(s) && opening_events(s) == seq![created_event(s)]
        }),
{
    let s = StreamV {
        response_id,
        model,
        output_index: 0,
        content_index: 0,
        calls: Map::empty(),
        started: false,
    };
    assert(s.calls.dom() =~= Set::<usize>::empty());
}

proof fn lemma_done_events_index(output_index: usize, calls: Map<usize, ToolCallV>, order: Seq<usize>)
    ensures
        done_events(output_index, calls, order).len() == order.len(),
        forall|i: int|
            0 <= i < order.len() ==> #[trigger] done_events(output_index, calls, order)[i]
                == call_done_event(output_index, calls[order[i]]),
    decreases order.len(),
{
    if order.len() > 0 {
        lemma_done_events_index(output_index, calls, order.drop_last());
        assert forall|i: int| 0 <= i < order.len() implies #[trigger] done_events(
            output_index,
            calls,
            order,
        )[i] == call_done_event(output_index, calls[order[i]]) by {
            if i < order.len() - 1 {
                assert(order.drop_last()[i] == order[i]);
            }
        }
    }
}

/// Every pending call is completed once when a choice finishes: for any
/// walk order, there is one done event per pending call, each done event
/// completes a pending call, and each pending call has a done event, the
/// `i`-th event belonging to the `i`-th key of the walk (keys not repeated).
pub proof fn law_each_pending_call_done_once(
    output_index: usize,
    calls: Map<usize, ToolCallV>,
    order: Seq<usize>,
)
    requires
        is_walk_order(calls, order),
    ensures
        done_events(output_index, calls, order).len() == calls.dom().len(),
        forall|i: int|
            0 <= i < order.len() ==> calls.contains_key(order[i])
                && #[trigger] done_events(output_index, calls, order)[i] == call_done_event(
                output_index,
                calls[order[i]],
            ),
        forall|k: usize|
            #[trigger] calls.contains_key(k) ==> exists|i: int|
                0 <= i < order.len() && order[i] == k && done_events(output_index, calls, order)[i]
                    == call_done_event(output_index, calls[k]),
{
    lemma_done_events_index(output_index, calls, order);
    assert forall|k: usize| #[trigger] calls.contains_key(k) implies exists|i: int|
        0 <= i < order.len() && order[i] == k && done_events(output_index, calls, order)[i]
            == call_done_event(output_index, calls[k]) by {
        assert(order.contains(k));
        let i = choose|i: int| 0 <= i < order.len() && order[i] == k;
        assert(done_events(output_index, calls, order)[i] == call_done_event(output_index, calls[k]));
    }
}

/// A run of chunks, the `i`-th with walk orders `orders[i]`.
pub open spec fn run_chunks(s: StreamV, chunks: Seq<JsonV>, orders: Seq<Seq<Seq<usize>>>) -> (
    StreamV,
    Seq<JsonV>,
)
    decreases chunks.len(),
{
    if chunks.len() == 0 {
        (s, Seq::empty())
    } else {
        let (s1, e1) = run_chunks(s, chunks.drop_last(), orders);
        let (s2, e2) = chunk_step(s1, chunks.last(), orders[chunks.len() - 1]);
        (s2, e1 + e2)
    }
}

/// The events of several calls, in call order.
pub open spec fn joined_results(results: Seq<Seq<JsonV>>) -> Seq<JsonV>
    decreases results.len(),
{
    if results.len() == 0 {
        Seq::empty()
    } else {
        joined_results(results.drop_last()) + results.last()
    }
}

/// A sequence of calls: the `i`-th chunk, with walk orders `orders[i]`,
/// takes `states[i]` to `states[i + 1]` and returns `results[i]` (what each
/// call of `convert_chunk` guarantees for some walk orders).
pub open spec fn calls_chain(
    states: Seq<StreamV>,
    chunks: Seq<JsonV>,
    orders: Seq<Seq<Seq<usize>>>,
    results: Seq<Seq<JsonV>>,
) -> bool {
    &&& states.len() == chunks.len() + 1
    &&& results.len() == chunks.len()
    &&& forall|i: int|
        0 <= i < chunks.len() ==> #[trigger] chunk_step(states[i], chunks[i], orders[i]) == (
            states[i + 1],
            results[i],
        )
}

/// Successive calls form a run: whatever number of chunks a converter is
/// given one call at a time, the last state and all the events returned,
/// in order, are those of `run_chunks` from the first state, so every law
/// stated over runs holds of the calls.
pub proof fn law_calls_form_a_run(
    states: Seq<StreamV>,
    chunks: Seq<JsonV>,
    orders: Seq<Seq<Seq<usize>>>,
    results: Seq<Seq<JsonV>>,
)
    requires
        calls_chain(states, chunks, orders, results),
    ensures
        run_chunks(states[0], chunks, orders) == (states.last(), joined_results(results)),
    decreases chunks.len(),
{
    if chunks.len() > 0 {
        let n = chunks.len() - 1;
        let prefix_states = states.take(n + 1);
        assert forall|i: int| 0 <= i < chunks.drop_last().len() implies #[trigger] chunk_step(
            prefix_states[i],
            chunks.drop_last()[i],
            orders[i],
        ) == (prefix_states[i + 1], results.drop_last()[i]) by {
            assert(chunk_step(states[i], chunks[i], orders[i]) == (states[i + 1], results[i]));
        }
        law_calls_form_a_run(prefix_states, chunks.drop_last(), orders, results.drop_last());
        assert(chunk_step(states[n], chunks[n], orders[n]) == (states[n + 1], results[n]));
        assert(prefix_states.last() == states[n]);
        assert(chunks.last() == chunks[n]);
    }
}

/// A converter keeps its identity over any run of chunks: from a
/// well-formed state, every state reached is well-formed and has the same
/// response id and model.
pub proof fn law_run_keeps_identity(
    s: StreamV,
    chunks: Seq<JsonV>,
    orders: Seq<Seq<Seq<usize>>>,
)
    requires
        stream_wf(s),
    ensures
        stream_wf(run_chunks(s, chunks, orders).0),
        run_chunks(s, chunks, orders).0.response_id == s.response_id,
        run_chunks(s, chunks, orders).0.model == s.model,
    decreases chunks.len(),
{
    if chunks.len() > 0 {
        law_run_keeps_identity(s, chunks.drop_last(), orders);
        law_chunk_keeps_identity(
            run_chunks(s, chunks.drop_last(), orders).0,
            chunks.last(),
            orders[chunks.len() - 1],
        );
    }
}

/// The number of `response.output_item.added` (text item) events in `events`.
pub open spec fn count_text_items(events: Seq<JsonV>) -> nat
    decreases events.len(),
{
    if events.len() == 0 {
        0
    } else {
        count_text_items(events.drop_last()) + if events.last() == text_item_added_event() {
            1nat
        } else {
            0nat
        }
    }
}

proof fn lemma_count_concat(a: Seq<JsonV>, b: Seq<JsonV>)
    ensures
        count_text_items(a + b) == count_text_items(a) + count_text_items(b),
    decreases b.len(),
{
    if b.len() == 0 {
        assert(a + b =~= a);
    } else {
        lemma_count_concat(a, b.drop_last());
        assert((a + b).drop_last() =~= a + b.drop_last());
    }
}

/// The event types are distinct texts, so only the text-item event is one.
proof fn lemma_event_kinds()
    ensures
        forall|r: StreamV| #[trigger] created_event(r) != text_item_added_event(),
        forall|c: usize, t: Seq<char>| #[trigger] text_delta_event(c, t) != text_item_added_event(),
        forall|t: Seq<char>| #[trigger] reasoning_delta_event(t) != text_item_added_event(),
        forall|i: Seq<char>, d: Seq<char>|
            #[trigger] arguments_delta_event(i, d) != text_item_added_event(),
        forall|o: usize, c: ToolCallV| #[trigger] call_done_event(o, c) != text_item_added_event(),
        forall|i: Seq<char>, f: Seq<char>| #[trigger] completed_event(i, f) != text_item_added_event(),
{
    reveal_strlit("response.output_item.added");
    reveal_strlit("response.created");
    reveal_strlit("response.output_text.delta");
    reveal_strlit("response.reasoning_text.delta");
    reveal_strlit("response.function_call_arguments.delta");
    reveal_strlit("response.output_item.done");
    reveal_strlit("response.completed");
    let added = "response.output_item.added"@;
    assert("response.created"@[9] != added[9]);
    assert("response.output_text.delta"@[16] != added[16]);
    assert("response.reasoning_text.delta"@[9] != added[9]);
    assert("response.function_call_arguments.delta"@[9] != added[9]);
    assert("response.output_item.done"@[21] != added[21]);
    assert("response.completed"@[9] != added[9]);
    assert forall|r: StreamV| #[trigger] created_event(r) != text_item_added_event() by {
        assert(created_event(r)->Object_0[0].1 != text_item_added_event()->Object_0[0].1);
    }
    assert forall|c: usize, t: Seq<char>| #[trigger] text_delta_event(c, t) != text_item_added_event() by {
        assert(text_delta_event(c, t)->Object_0[0].1 != text_item_added_event()->Object_0[0].1);
    }
    assert forall|t: Seq<char>| #[trigger] reasoning_delta_event(t) != text_item_added_event() by {
        assert(reasoning_delta_event(t)->Object_0[0].1 != text_item_added_event()->Object_0[0].1);
    }
    assert forall|i: Seq<char>, d: Seq<char>| #[trigger] arguments_delta_event(i, d) != text_item_added_event() by {
        assert(arguments_delta_event(i, d)->Object_0[0].1 != text_item_added_event()->Object_0[0].1);
    }
    assert forall|o: usize, c: ToolCallV| #[trigger] call_done_event(o, c) != text_item_added_event() by {
        assert(call_done_event(o, c)->Object_0[0].1 != text_item_added_event()->Object_0[0].1);
    }
    assert forall|i: Seq<char>, f: Seq<char>| #[trigger] completed_event(i, f) != text_item_added_event() by {
        assert(completed_event(i, f)->Object_0[0].1 != text_item_added_event()->Object_0[0].1);
    }
}

proof fn lemma_tool_deltas_no_text_item(s: StreamV, deltas: Seq<JsonV>)
    ensures
        count_text_items(tool_deltas_step(s, deltas).1) == 0,
    decreases deltas.len(),
{
    if deltas.len() > 0 {
        lemma_tool_deltas_no_text_item(s, deltas.drop_last());
        lemma_event_kinds();
        let (s1, e1) = tool_deltas_step(s, deltas.drop_last());
        assert(e1.push(tool_delta_step(s1, deltas.last()).1).drop_last() =~= e1);
    }
}

proof fn lemma_done_events_no_text_item(o: usize, calls: Map<usize, ToolCallV>, order: Seq<usize>)
    ensures
        count_text_items(done_events(o, calls, order)) == 0,
    decreases order.len(),
{
    if order.len() > 0 {
        lemma_done_events_no_text_item(o, calls, order.drop_last());
        lemma_event_kinds();
        let e = done_events(o, calls, order.drop_last());
        assert(e.push(call_done_event(o, calls[order.last()])).drop_last() =~= e);
    }
}

proof fn lemma_count_empty()
    ensures
        count_text_items(Seq::<JsonV>::empty()) == 0,
{
}

proof fn lemma_count_one(x: JsonV)
    ensures
        count_text_items(seq![x]) == (if x == text_item_added_event() {
            1nat
        } else {
            0nat
        }),
{
    assert(seq![x].drop_last() =~= Seq::<JsonV>::empty());
    lemma_count_empty();
}

proof fn lemma_count_two(x: JsonV, y: JsonV)
    ensures
        count_text_items(seq![x, y]) == count_text_items(seq![x]) + count_text_items(seq![y]),
{
    assert(seq![x, y] =~= seq![x] + seq![y]);
    lemma_count_concat(seq![x], seq![y]);
}

/// A choice carries text: its `delta.content` is a non-empty string.
pub open spec fn has_text(choice: JsonV) -> bool {
    match choice.at("delta"@).at("content"@).as_str() {
        Some(text) => text.len() > 0,
        None => false,
    }
}

/// Some choice of `choices` carries text.
pub open spec fn any_text(choices: Seq<JsonV>) -> bool {
    exists|i: int| 0 <= i < choices.len() && has_text(#[trigger] choices[i])
}

/// Some choice of a chunk carries text.
pub open spec fn chunk_has_text(chunk: JsonV) -> bool {
    match chunk.at("choices"@).as_array() {
        Some(choices) => any_text(choices),
        None => false,
    }
}

/// Some chunk of `chunks` carries text.
pub open spec fn run_has_text(chunks: Seq<JsonV>) -> bool {
    exists|j: int| 0 <= j < chunks.len() && chunk_has_text(#[trigger] chunks[j])
}

/// Text-item events of one choice: none once the text item is open; at most
/// one otherwise, and then the text item is open afterwards.
proof fn lemma_choice_text_items(s: StreamV, choice: JsonV, order: Seq<usize>)
    requires
        stream_wf(s),
    ensures
        s.output_index == 1 ==> count_text_items(choice_step(s, choice, order).1) == 0,
        count_text_items(choice_step(s, choice, order).1) <= 1,
        count_text_items(choice_step(s, choice, order).1) == 1 ==> choice_step(
            s,
            choice,
            order,
        ).0.output_index == 1,
        s.output_index <= choice_step(s, choice, order).0.output_index,
        count_text_items(choice_step(s, choice, order).1) == 1 <==> (s.output_index == 0
            && has_text(choice)),
        choice_step(s, choice, order).0.output_index == (if has_text(choice) {
            1
        } else {
            s.output_index
        }),
{
    lemma_event_kinds();
    let r = choice_reasoning(choice);
    assert(count_text_items(r) == 0) by {
        match choice.at("delta"@).at("reasoning_content"@).as_str() {
            Some(text) => if text.len() > 0 {
                lemma_count_one(reasoning_delta_event(text));
            } else {
                lemma_count_empty();
            },
            None => lemma_count_empty(),
        }
    }
    let (s1, e1) = choice_updates_text(s, choice);
    assert(count_text_items(e1) <= 1 && (count_text_items(e1) == 1 ==> s1.output_index == 1) && (
    s.output_index == 1 ==> count_text_items(e1) == 0) && s.output_index <= s1.output_index && (
    count_text_items(e1) == 1 <==> (s.output_index == 0 && has_text(choice))) && s1.output_index == (
    if has_text(choice) {
        1
    } else {
        s.output_index
    })) by {
        match choice.at("delta"@).at("content"@).as_str() {
            Some(text) => if text.len() > 0 {
                let d = text_delta_event(s.content_index, text);
                lemma_count_one(d);
                if s.output_index == 0 {
                    lemma_count_one(text_item_added_event());
                    lemma_count_two(text_item_added_event(), d);
                }
            } else {
                lemma_count_empty();
            },
            None => lemma_count_empty(),
        }
    }
    let deltas = choice.at("delta"@).at("tool_calls"@).as_array().unwrap_or(Seq::empty());
    lemma_tool_deltas_keep(s1, deltas);
    lemma_tool_deltas_no_text_item(s1, deltas);
    let e2 = match choice.at("delta"@).at("tool_calls"@).as_array() {
        Some(ds) => tool_deltas_step(s1, ds).1,
        None => Seq::<JsonV>::empty(),
    };
    assert(count_text_items(e2) == 0) by {
        lemma_count_empty();
    }
    let s2 = choice_updates(s, choice).0;
    assert(s2.output_index == s1.output_index);
    lemma_count_concat(r, e1);
    lemma_count_concat(r + e1, e2);
    assert(choice_updates(s, choice).1 == r + e1 + e2);
    if finishes(choice) {
        let d = done_events(s2.output_index, s2.calls, order);
        let c = seq![completed_event(s2.response_id, finish_reason(choice))];
        lemma_done_events_no_text_item(s2.output_index, s2.calls, order);
        lemma_count_one(completed_event(s2.response_id, finish_reason(choice)));
        lemma_count_concat(r + e1 + e2, d);
        lemma_count_concat(r + e1 + e2 + d, c);
    }
}

proof fn lemma_choices_text_items(s: StreamV, choices: Seq<JsonV>, orders: Seq<Seq<usize>>)
    requires
        stream_wf(s),
    ensures
        s.output_index == 1 ==> count_text_items(choices_step(s, choices, orders).1) == 0,
        count_text_items(choices_step(s, choices, orders).1) <= 1,
        count_text_items(choices_step(s, choices, orders).1) == 1 ==> choices_step(
            s,
            choices,
            orders,
        ).0.output_index == 1,
        s.output_index <= choices_step(s, choices, orders).0.output_index,
        count_text_items(choices_step(s, choices, orders).1) == 1 <==> (s.output_index == 0
            && any_text(choices)),
        choices_step(s, choices, orders).0.output_index == (if any_text(choices) {
            1
        } else {
            s.output_index
        }),
    decreases choices.len(),
{
    if choices.len() > 0 {
        assert(any_text(choices) <==> any_text(choices.drop_last()) || has_text(choices.last())) by {
            if any_text(choices) && !has_text(choices.last()) {
                let i = choose|i: int| 0 <= i < choices.len() && has_text(#[trigger] choices[i]);
                assert(choices.drop_last()[i] == choices[i]);
            }
            if any_text(choices.drop_last()) {
                let i = choose|i: int|
                    0 <= i < choices.drop_last().len() && has_text(#[trigger] choices.drop_last()[i]);
                assert(choices[i] == choices.drop_last()[i]);
            }
            if has_text(choices.last()) {
                assert(choices[choices.len() - 1] == choices.last());
            }
        }
        lemma_choices_text_items(s, choices.drop_last(), orders);
        lemma_choices_keep(s, choices.drop_last(), orders);
        let (s1, e1) = choices_step(s, choices.drop_last(), orders);
        let (s2, e2) = choice_step(s1, choices.last(), orders[choices.len() - 1]);
        lemma_choice_text_items(s1, choices.last(), orders[choices.len() - 1]);
        lemma_choice_keeps(s1, choices.last(), orders[choices.len() - 1]);
        lemma_count_concat(e1, e2);
        assert(choices_step(s, choices, orders) == (s2, e1 + e2));
    } else {
        lemma_count_empty();
    }
}

proof fn lemma_chunk_text_items(s: StreamV, chunk: JsonV, orders: Seq<Seq<usize>>)
    requires
        stream_wf(s),
    ensures
        s.output_index == 1 ==> count_text_items(chunk_step(s, chunk, orders).1) == 0,
        count_text_items(chunk_step(s, chunk, orders).1) <= 1,
        count_text_items(chunk_step(s, chunk, orders).1) == 1 ==> chunk_step(
            s,
            chunk,
            orders,
        ).0.output_index == 1,
        s.output_index <= chunk_step(s, chunk, orders).0.output_index,
        count_text_items(chunk_step(s, chunk, orders).1) == 1 <==> (s.output_index == 0
            && chunk_has_text(chunk)),
        chunk_step(s, chunk, orders).0.output_index == (if chunk_has_text(chunk) {
            1
        } else {
            s.output_index
        }),
{
    lemma_event_kinds();
    let o = opening_events(s);
    assert(count_text_items(o) == 0) by {
        lemma_count_empty();
        lemma_count_one(created_event(s));
    }
    match chunk.at("choices"@).as_array() {
        Some(choices) => {
            lemma_choices_text_items(begun(s), choices, orders);
            lemma_count_concat(o, choices_step(begun(s), choices, orders).1);
        },
        None => {},
    }
}

/// The text item is opened at most once: over any run of chunks from a
/// well-formed state, at most one `response.output_item.added` event is
/// emitted, and none if the text item was already open.
pub proof fn law_text_item_opens_once(
    s: StreamV,
    chunks: Seq<JsonV>,
    orders: Seq<Seq<Seq<usize>>>,
)
    requires
        stream_wf(s),
    ensures
        count_text_items(run_chunks(s, chunks, orders).1) <= 1,
        s.output_index == 1 ==> count_text_items(run_chunks(s, chunks, orders).1) == 0,
        count_text_items(run_chunks(s, chunks, orders).1) == 1 ==> run_chunks(
            s,
            chunks,
            orders,
        ).0.output_index == 1,
        s.output_index <= run_chunks(s, chunks, orders).0.output_index,
        count_text_items(run_chunks(s, chunks, orders).1) == 1 <==> (s.output_index == 0
            && run_has_text(chunks)),
        run_chunks(s, chunks, orders).0.output_index == (if run_has_text(chunks) {
            1
        } else {
            s.output_index
        }),
    decreases chunks.len(),
{
    if chunks.len() > 0 {
        assert(run_has_text(chunks) <==> run_has_text(chunks.drop_last()) || chunk_has_text(
            chunks.last(),
        )) by {
            if run_has_text(chunks) && !chunk_has_text(chunks.last()) {
                let j = choose|j: int| 0 <= j < chunks.len() && chunk_has_text(#[trigger] chunks[j]);
                assert(chunks.drop_last()[j] == chunks[j]);
            }
            if run_has_text(chunks.drop_last()) {
                let j = choose|j: int|
                    0 <= j < chunks.drop_last().len() && chunk_has_text(
                        #[trigger] chunks.drop_last()[j],
                    );
                assert(chunks[j] == chunks.drop_last()[j]);
            }
            if chunk_has_text(chunks.last()) {
                assert(chunks[chunks.len() - 1] == chunks.last());
            }
        }
        law_text_item_opens_once(s, chunks.drop_last(), orders);
        law_run_keeps_identity(s, chunks.drop_last(), orders);
        let (s1, e1) = run_chunks(s, chunks.drop_last(), orders);
        let (s2, e2) = chunk_step(s1, chunks.last(), orders[chunks.len() - 1]);
        lemma_chunk_text_items(s1, chunks.last(), orders[chunks.len() - 1]);
        law_chunk_keeps_identity(s1, chunks.last(), orders[chunks.len() - 1]);
        lemma_count_concat(e1, e2);
        assert(run_chunks(s, chunks, orders) == (s2, e1 + e2));
    } else {
        lemma_count_empty();
    }
}

/// The text item is opened by the first chunk that carries text: chunk `j`
/// of a run emits the `response.output_item.added` event exactly when it
/// carries text, no earlier chunk did, and the run started with the text
/// item closed.
pub proof fn law_text_item_opened_by_first_text_chunk(
    s: StreamV,
    chunks: Seq<JsonV>,
    orders: Seq<Seq<Seq<usize>>>,
    j: int,
)
    requires
        stream_wf(s),
        0 <= j < chunks.len(),
    ensures
        count_text_items(
            chunk_step(run_chunks(s, chunks.take(j), orders).0, chunks[j], orders[j]).1,
        ) == 1 <==> (s.output_index == 0 && chunk_has_text(chunks[j]) && !run_has_text(
            chunks.take(j),
        )),
{
    law_text_item_opens_once(s, chunks.take(j), orders);
    law_run_keeps_identity(s, chunks.take(j), orders);
    lemma_chunk_text_items(run_chunks(s, chunks.take(j), orders).0, chunks[j], orders[j]);
}

/// Each text-item event in `events` is followed at once by a text delta
/// with non-empty text for the first content part.
pub open spec fn opens_before_text(events: Seq<JsonV>) -> bool {
    forall|i: int|
        0 <= i < events.len() && #[trigger] events[i] == text_item_added_event() ==> i + 1
            < events.len() && exists|t: Seq<char>|
            t.len() > 0 && events[i + 1] == text_delta_event(0, t)
}

proof fn lemma_opens_concat(a: Seq<JsonV>, b: Seq<JsonV>)
    requires
        opens_before_text(a),
        opens_before_text(b),
    ensures
        opens_before_text(a + b),
{
    assert forall|i: int|
        0 <= i < (a + b).len() && #[trigger] (a + b)[i] == text_item_added_event() implies i + 1 < (a
            + b).len() && exists|t: Seq<char>|
        t.len() > 0 && (a + b)[i + 1] == text_delta_event(0, t) by {
        if i < a.len() {
            assert((a + b)[i] == a[i]);
            assert((a + b)[i + 1] == a[i + 1]);
        } else {
            assert((a + b)[i] == b[i - a.len()]);
            assert((a + b)[i + 1] == b[i + 1 - a.len()]);
        }
    }
}

proof fn lemma_opens_push(a: Seq<JsonV>, e: JsonV)
    requires
        opens_before_text(a),
        e != text_item_added_event(),
        a.len() > 0 ==> a.last() != text_item_added_event(),
    ensures
        opens_before_text(a.push(e)),
{
    assert forall|i: int|
        0 <= i < a.push(e).len() && #[trigger] a.push(e)[i] == text_item_added_event() implies i + 1
            < a.push(e).len() && exists|t: Seq<char>|
        t.len() > 0 && a.push(e)[i + 1] == text_delta_event(0, t) by {
        assert(i < a.len());
        assert(a.push(e)[i] == a[i]);
        if i + 1 < a.len() {
            assert(a.push(e)[i + 1] == a[i + 1]);
        } else {
            assert(a[a.len() - 1] == a.last());
        }
    }
}

proof fn lemma_tool_deltas_opens(s: StreamV, deltas: Seq<JsonV>)
    ensures
        opens_before_text(tool_deltas_step(s, deltas).1),
        tool_deltas_step(s, deltas).1.len() > 0 ==> tool_deltas_step(s, deltas).1.last()
            != text_item_added_event(),
    decreases deltas.len(),
{
    lemma_event_kinds();
    if deltas.len() > 0 {
        lemma_tool_deltas_opens(s, deltas.drop_last());
        let (s1, e1) = tool_deltas_step(s, deltas.drop_last());
        lemma_opens_push(e1, tool_delta_step(s1, deltas.last()).1);
    }
}

proof fn lemma_done_events_opens(o: usize, calls: Map<usize, ToolCallV>, order: Seq<usize>)
    ensures
        opens_before_text(done_events(o, calls, order)),
        done_events(o, calls, order).len() > 0 ==> done_events(o, calls, order).last()
            != text_item_added_event(),
    decreases order.len(),
{
    lemma_event_kinds();
    if order.len() > 0 {
        lemma_done_events_opens(o, calls, order.drop_last());
        lemma_opens_push(done_events(o, calls, order.drop_last()), call_done_event(o, calls[order.last()]));
    }
}

proof fn lemma_choice_opens(s: StreamV, choice: JsonV, order: Seq<usize>)
    requires
        stream_wf(s),
    ensures
        opens_before_text(choice_step(s, choice, order).1),
{
    lemma_event_kinds();
    let r = choice_reasoning(choice);
    assert(opens_before_text(r));
    let (s1, e1) = choice_updates_text(s, choice);
    assert(opens_before_text(e1)) by {
        match choice.at("delta"@).at("content"@).as_str() {
            Some(text) => if text.len() > 0 && s.output_index == 0 {
                assert(e1[1] == text_delta_event(0, text));
            },
            None => {},
        }
    }
    let deltas = choice_tool_deltas(choice);
    lemma_tool_deltas_opens(s1, deltas);
    let e2 = match choice.at("delta"@).at("tool_calls"@).as_array() {
        Some(ds) => tool_deltas_step(s1, ds).1,
        None => Seq::<JsonV>::empty(),
    };
    assert(opens_before_text(e2));
    lemma_opens_concat(r, e1);
    lemma_opens_concat(r + e1, e2);
    assert(choice_updates(s, choice).1 == r + e1 + e2);
    let s2 = choice_updates(s, choice).0;
    if finishes(choice) {
        let d = done_events(s2.output_index, s2.calls, order);
        let c = seq![completed_event(s2.response_id, finish_reason(choice))];
        lemma_done_events_opens(s2.output_index, s2.calls, order);
        assert(opens_before_text(c));
        lemma_opens_concat(r + e1 + e2, d);
        lemma_opens_concat(r + e1 + e2 + d, c);
    }
}

proof fn lemma_choices_opens(s: StreamV, choices: Seq<JsonV>, orders: Seq<Seq<usize>>)
    requires
        stream_wf(s),
    ensures
        opens_before_text(choices_step(s, choices, orders).1),
    decreases choices.len(),
{
    if choices.len() > 0 {
        lemma_choices_opens(s, choices.drop_last(), orders);
        lemma_choices_keep(s, choices.drop_last(), orders);
        let (s1, e1) = choices_step(s, choices.drop_last(), orders);
        lemma_choice_opens(s1, choices.last(), orders[choices.len() - 1]);
        lemma_opens_concat(e1, choice_step(s1, choices.last(), orders[choices.len() - 1]).1);
    }
}

/// The text item is opened right before its text: over any run of chunks
/// from a well-formed state, each `response.output_item.added` event is
/// followed at once by an `response.output_text.delta` event with non-empty
/// text.
pub proof fn law_text_item_opened_before_its_text(
    s: StreamV,
    chunks: Seq<JsonV>,
    orders: Seq<Seq<Seq<usize>>>,
)
    requires
        stream_wf(s),
    ensures
        opens_before_text(run_chunks(s, chunks, orders).1),
    decreases chunks.len(),
{
    if chunks.len() > 0 {
        law_text_item_opened_before_its_text(s, chunks.drop_last(), orders);
        law_run_keeps_identity(s, chunks.drop_last(), orders);
        let (s1, e1) = run_chunks(s, chunks.drop_last(), orders);
        let chunk = chunks.last();
        let ord = orders[chunks.len() - 1];
        let o = opening_events(s1);
        lemma_event_kinds();
        assert(opens_before_text(o));
        match chunk.at("choices"@).as_array() {
            Some(choices) => {
                lemma_choices_opens(begun(s1), choices, ord);
                lemma_opens_concat(o, choices_step(begun(s1), choices, ord).1);
            },
            None => {},
        }
        lemma_opens_concat(e1, chunk_step(s1, chunk, ord).1);
        assert(run_chunks(s, chunks, orders).1 == e1 + chunk_step(s1, chunk, ord).1);
    }
}

/// An event of type `response.created`.
pub open spec fn is_created(e: JsonV) -> bool {
    e.at("type"@) == JsonV::Str("response.created"@)
}

/// The number of `response.created` events in `events`.
pub open spec fn count_created(events: Seq<JsonV>) -> nat
    decreases events.len(),
{
    if events.len() == 0 {
        0
    } else {
        count_created(events.drop_last()) + if is_created(events.last()) {
            1nat
        } else {
            0nat
        }
    }
}

proof fn lemma_count_created_concat(a: Seq<JsonV>, b: Seq<JsonV>)
    ensures
        count_created(a + b) == count_created(a) + count_created(b),
    decreases b.len(),
{
    if b.len() == 0 {
        assert(a + b =~= a);
    } else {
        lemma_count_created_concat(a, b.drop_last());
        assert((a + b).drop_last() =~= a + b.drop_last());
    }
}

proof fn lemma_count_created_one(x: JsonV)
    ensures
        count_created(seq![x]) == (if is_created(x) {
            1nat
        } else {
            0nat
        }),
{
    assert(seq![x].drop_last() =~= Seq::<JsonV>::empty());
    assert(count_created(Seq::<JsonV>::empty()) == 0);
}

/// Only the created event has the type `response.created`.
proof fn lemma_kinds_created()
    ensures
        forall|r: StreamV| #[trigger] is_created(created_event(r)),
        !is_created(text_item_added_event()),
        forall|c: usize, t: Seq<char>| !#[trigger] is_created(text_delta_event(c, t)),
        forall|t: Seq<char>| !#[trigger] is_created(reasoning_delta_event(t)),
        forall|i: Seq<char>, d: Seq<char>| !#[trigger] is_created(arguments_delta_event(i, d)),
        forall|o: usize, c: ToolCallV| !#[trigger] is_created(call_done_event(o, c)),
        forall|i: Seq<char>, f: Seq<char>| !#[trigger] is_created(completed_event(i, f)),
{
    reveal_strlit("response.created");
    reveal_strlit("response.completed");
    reveal_strlit("response.output_item.added");
    reveal_strlit("response.output_text.delta");
    reveal_strlit("response.reasoning_text.delta");
    reveal_strlit("response.function_call_arguments.delta");
    reveal_strlit("response.output_item.done");
    let created = "response.created"@;
    assert("response.completed"@[10] != created[10]);
    assert("response.output_item.added"@[9] != created[9]);
    assert("response.output_text.delta"@[9] != created[9]);
    assert("response.reasoning_text.delta"@[9] != created[9]);
    assert("response.function_call_arguments.delta"@[9] != created[9]);
    assert("response.output_item.done"@[9] != created[9]);
}

proof fn lemma_tool_deltas_no_created(s: StreamV, deltas: Seq<JsonV>)
    ensures
        count_created(tool_deltas_step(s, deltas).1) == 0,
    decreases deltas.len(),
{
    if deltas.len() > 0 {
        lemma_tool_deltas_no_created(s, deltas.drop_last());
        lemma_kinds_created();
        let (s1, e1) = tool_deltas_step(s, deltas.drop_last());
        assert(e1.push(tool_delta_step(s1, deltas.last()).1).drop_last() =~= e1);
    }
}

proof fn lemma_done_events_no_created(o: usize, calls: Map<usize, ToolCallV>, order: Seq<usize>)
    ensures
        count_created(done_events(o, calls, order)) == 0,
    decreases order.len(),
{
    if order.len() > 0 {
        lemma_done_events_no_created(o, calls, order.drop_last());
        lemma_kinds_created();
        let e = done_events(o, calls, order.drop_last());
        assert(e.push(call_done_event(o, calls[order.last()])).drop_last() =~= e);
    }
}

proof fn lemma_choice_no_created(s: StreamV, choice: JsonV, order: Seq<usize>)
    ensures
        count_created(choice_step(s, choice, order).1) == 0,
{
    lemma_kinds_created();
    assert(count_created(Seq::<JsonV>::empty()) == 0);
    let r = choice_reasoning(choice);
    assert(count_created(r) == 0) by {
        match choice.at("delta"@).at("reasoning_content"@).as_str() {
            Some(text) => if text.len() > 0 {
                lemma_count_created_one(reasoning_delta_event(text));
            },
            None => {},
        }
    }
    let (s1, e1) = choice_updates_text(s, choice);
    assert(count_created(e1) == 0) by {
        match choice.at("delta"@).at("content"@).as_str() {
            Some(text) => if text.len() > 0 {
                let d = text_delta_event(s.content_index, text);
                lemma_count_created_one(d);
                if s.output_index == 0 {
                    lemma_count_created_one(text_item_added_event());
                    assert(e1 =~= seq![text_item_added_event()] + seq![d]);
                    lemma_count_created_concat(seq![text_item_added_event()], seq![d]);
                }
            },
            None => {},
        }
    }
    let deltas = choice_tool_deltas(choice);
    lemma_tool_deltas_no_created(s1, deltas);
    let e2 = match choice.at("delta"@).at("tool_calls"@).as_array() {
        Some(ds) => tool_deltas_step(s1, ds).1,
        None => Seq::<JsonV>::empty(),
    };
    assert(count_created(e2) == 0);
    lemma_count_created_concat(r, e1);
    lemma_count_created_concat(r + e1, e2);
    assert(choice_updates(s, choice).1 == r + e1 + e2);
    let s2 = choice_updates(s, choice).0;
    if finishes(choice) {
        let d = done_events(s2.output_index, s2.calls, order);
        let c = seq![completed_event(s2.response_id, finish_reason(choice))];
        lemma_done_events_no_created(s2.output_index, s2.calls, order);
        lemma_count_created_one(completed_event(s2.response_id, finish_reason(choice)));
        lemma_count_created_concat(r + e1 + e2, d);
        lemma_count_created_concat(r + e1 + e2 + d, c);
    }
}

proof fn lemma_choices_no_created(s: StreamV, choices: Seq<JsonV>, orders: Seq<Seq<usize>>)
    ensures
        count_created(choices_step(s, choices, orders).1) == 0,
    decreases choices.len(),
{
    if choices.len() > 0 {
        lemma_choices_no_created(s, choices.drop_last(), orders);
        let (s1, e1) = choices_step(s, choices.drop_last(), orders);
        lemma_choice_no_created(s1, choices.last(), orders[choices.len() - 1]);
        lemma_count_created_concat(e1, choice_step(s1, choices.last(), orders[choices.len() - 1]).1);
    } else {
        assert(count_created(Seq::<JsonV>::empty()) == 0);
    }
}

proof fn lemma_chunk_created(s: StreamV, chunk: JsonV, orders: Seq<Seq<usize>>)
    requires
        stream_wf(s),
    ensures
        chunk_step(s, chunk, orders).0.started,
        count_created(chunk_step(s, chunk, orders).1) == (if s.started {
            0nat
        } else {
            1nat
        }),
        !s.started ==> chunk_step(s, chunk, orders).1.len() > 0 && chunk_step(s, chunk, orders).1[0]
            == created_event(s),
{
    lemma_kinds_created();
    let o = opening_events(s);
    assert(count_created(o) == (if s.started {
        0nat
    } else {
        1nat
    })) by {
        assert(count_created(Seq::<JsonV>::empty()) == 0);
        lemma_count_created_one(created_event(s));
    }
    match chunk.at("choices"@).as_array() {
        Some(choices) => {
            lemma_choices_keep(begun(s), choices, orders);
            lemma_choices_no_created(begun(s), choices, orders);
            lemma_count_created_concat(o, choices_step(begun(s), choices, orders).1);
            if !s.started {
                assert((o + choices_step(begun(s), choices, orders).1)[0] == o[0]);
            }
        },
        None => {
            assert(o + Seq::<JsonV>::empty() =~= o);
        },
    }
}

/// One `response.created` event per converter: over any run of chunks, a
/// converter that had not started emits exactly one `response.created`
/// event, the first event of the run, for its id and model; one that had
/// started emits none; and after any chunk it has started.
pub proof fn law_one_created_event(s: StreamV, chunks: Seq<JsonV>, orders: Seq<Seq<Seq<usize>>>)
    requires
        stream_wf(s),
    ensures
        run_chunks(s, chunks, orders).0.started == (s.started || chunks.len() > 0),
        count_created(run_chunks(s, chunks, orders).1) == (if !s.started && chunks.len() > 0 {
            1nat
        } else {
            0nat
        }),
        !s.started && chunks.len() > 0 ==> run_chunks(s, chunks, orders).1.len() > 0 && run_chunks(
            s,
            chunks,
            orders,
        ).1[0] == JsonV::Object(
            seq![
                ("type"@, JsonV::Str("response.created"@)),
                (
                    "response"@,
                    JsonV::Object(
                        seq![
                            ("id"@, JsonV::Str(s.response_id)),
                            ("object"@, JsonV::Str("response"@)),
                            ("status"@, JsonV::Str("in_progress"@)),
                            ("model"@, JsonV::Str(s.model)),
                            ("output"@, JsonV::Array(Seq::empty())),
                        ],
                    ),
                ),
            ],
        ),
    decreases chunks.len(),
{
    if chunks.len() > 0 {
        law_one_created_event(s, chunks.drop_last(), orders);
        law_run_keeps_identity(s, chunks.drop_last(), orders);
        let (s1, e1) = run_chunks(s, chunks.drop_last(), orders);
        let (s2, e2) = chunk_step(s1, chunks.last(), orders[chunks.len() - 1]);
        lemma_chunk_created(s1, chunks.last(), orders[chunks.len() - 1]);
        lemma_count_created_concat(e1, e2);
        assert(run_chunks(s, chunks, orders) == (s2, e1 + e2));
        if chunks.len() == 1 {
            assert(chunks.drop_last().len() == 0);
            assert(e1 =~= Seq::<JsonV>::empty());
            assert(s1 == s);
            assert((e1 + e2)[0] == e2[0]);
        } else if !s.started {
            assert((e1 + e2)[0] == e1[0]);
        }
    } else {
        assert(count_created(Seq::<JsonV>::empty()) == 0);
    }
}

/// An event of type `response.output_text.delta`.
pub open spec fn is_text_delta(e: JsonV) -> bool {
    e.at("type"@) == JsonV::Str("response.output_text.delta"@)
}

/// The text that `events` stream to the client: the `delta` texts of its
/// text-delta events, in order.
pub open spec fn streamed_text(events: Seq<JsonV>) -> Seq<char>
    decreases events.len(),
{
    if events.len() == 0 {
        Seq::empty()
    } else {
        streamed_text(events.drop_last()) + if is_text_delta(events.last()) {
            events.last().at("delta"@).str_or(""@)
        } else {
            Seq::empty()
        }
    }
}

/// The text content a choice's delta carries (empty where it carries none).
pub open spec fn choice_content(choice: JsonV) -> Seq<char> {
    choice.at("delta"@).at("content"@).str_or(""@)
}

/// The text content of a sequence of choices, in order.
pub open spec fn choices_content(choices: Seq<JsonV>) -> Seq<char>
    decreases choices.len(),
{
    if choices.len() == 0 {
        Seq::empty()
    } else {
        choices_content(choices.drop_last()) + choice_content(choices.last())
    }
}

/// The text content of a chunk's choices.
pub open spec fn chunk_content(chunk: JsonV) -> Seq<char> {
    match chunk.at("choices"@).as_array() {
        Some(choices) => choices_content(choices),
        None => Seq::empty(),
    }
}

/// The text content of a sequence of chunks, in order.
pub open spec fn run_content(chunks: Seq<JsonV>) -> Seq<char>
    decreases chunks.len(),
{
    if chunks.len() == 0 {
        Seq::empty()
    } else {
        run_content(chunks.drop_last()) + chunk_content(chunks.last())
    }
}

proof fn lemma_streamed_concat(a: Seq<JsonV>, b: Seq<JsonV>)
    ensures
        streamed_text(a + b) == streamed_text(a) + streamed_text(b),
    decreases b.len(),
{
    if b.len() == 0 {
        assert(a + b =~= a);
        assert(streamed_text(a) + Seq::<char>::empty() =~= streamed_text(a));
    } else {
        lemma_streamed_concat(a, b.drop_last());
        assert((a + b).drop_last() =~= a + b.drop_last());
        let tail = if is_text_delta(b.last()) {
            b.last().at("delta"@).str_or(""@)
        } else {
            Seq::<char>::empty()
        };
        assert(streamed_text(a) + streamed_text(b.drop_last()) + tail =~= streamed_text(a) + (
        streamed_text(b.drop_last()) + tail));
    }
}

proof fn lemma_streamed_one(x: JsonV)
    ensures
        streamed_text(seq![x]) == (if is_text_delta(x) {
            x.at("delta"@).str_or(""@)
        } else {
            Seq::<char>::empty()
        }),
{
    assert(seq![x].drop_last() =~= Seq::<JsonV>::empty());
    assert(streamed_text(Seq::<JsonV>::empty()) == Seq::<char>::empty());
    assert(Seq::<char>::empty() + streamed_text(seq![x]).skip(0) =~= streamed_text(seq![x]));
}

/// Only the text-delta event streams text, and it streams its own text.
proof fn lemma_kinds_text()
    ensures
        forall|c: usize, t: Seq<char>|
            #[trigger] is_text_delta(text_delta_event(c, t)) && text_delta_event(c, t).at("delta"@)
                == JsonV::Str(t),
        forall|r: StreamV| !#[trigger] is_text_delta(created_event(r)),
        !is_text_delta(text_item_added_event()),
        forall|t: Seq<char>| !#[trigger] is_text_delta(reasoning_delta_event(t)),
        forall|i: Seq<char>, d: Seq<char>| !#[trigger] is_text_delta(arguments_delta_event(i, d)),
        forall|o: usize, c: ToolCallV| !#[trigger] is_text_delta(call_done_event(o, c)),
        forall|i: Seq<char>, f: Seq<char>| !#[trigger] is_text_delta(completed_event(i, f)),
{
    reveal_strlit("response.created");
    reveal_strlit("response.completed");
    reveal_strlit("response.output_item.added");
    reveal_strlit("response.output_text.delta");
    reveal_strlit("response.reasoning_text.delta");
    reveal_strlit("response.function_call_arguments.delta");
    reveal_strlit("response.output_item.done");
    reveal_strlit("type");
    reveal_strlit("output_index");
    reveal_strlit("content_index");
    reveal_strlit("delta");
    let td = "response.output_text.delta"@;
    assert("response.created"@[9] != td[9]);
    assert("response.completed"@[9] != td[9]);
    assert("response.output_item.added"@[16] != td[16]);
    assert("response.reasoning_text.delta"@[9] != td[9]);
    assert("response.function_call_arguments.delta"@[9] != td[9]);
    assert("response.output_item.done"@[16] != td[16]);
    assert("type"@[0] != "delta"@[0]);
    assert("output_index"@[0] != "delta"@[0]);
    assert("content_index"@[0] != "delta"@[0]);
    reveal_with_fuel(crate::json::lookup, 4);
    assert forall|c: usize, t: Seq<char>|
        #[trigger] is_text_delta(text_delta_event(c, t)) && text_delta_event(c, t).at("delta"@)
            == JsonV::Str(t) by {
        let f = text_delta_event(c, t)->Object_0;
        assert(f.drop_first()[2].0 == "delta"@);
        assert(f.drop_first().drop_first()[1].0 == "delta"@);
        assert(f.drop_first().drop_first().drop_first()[0].0 == "delta"@);
    }
}

proof fn lemma_tool_deltas_no_text(s: StreamV, deltas: Seq<JsonV>)
    ensures
        streamed_text(tool_deltas_step(s, deltas).1) == Seq::<char>::empty(),
    decreases deltas.len(),
{
    if deltas.len() > 0 {
        lemma_tool_deltas_no_text(s, deltas.drop_last());
        lemma_kinds_text();
        let (s1, e1) = tool_deltas_step(s, deltas.drop_last());
        assert(e1.push(tool_delta_step(s1, deltas.last()).1).drop_last() =~= e1);
        assert(Seq::<char>::empty() + Seq::<char>::empty() =~= Seq::<char>::empty());
    }
}

proof fn lemma_done_events_no_text(o: usize, calls: Map<usize, ToolCallV>, order: Seq<usize>)
    ensures
        streamed_text(done_events(o, calls, order)) == Seq::<char>::empty(),
    decreases order.len(),
{
    if order.len() > 0 {
        lemma_done_events_no_text(o, calls, order.drop_last());
        lemma_kinds_text();
        let e = done_events(o, calls, order.drop_last());
        assert(e.push(call_done_event(o, calls[order.last()])).drop_last() =~= e);
        assert(Seq::<char>::empty() + Seq::<char>::empty() =~= Seq::<char>::empty());
    }
}

/// A choice streams exactly its text: the text deltas a choice gives carry,
/// in order, exactly the text content of its delta, whether or not it
/// finishes and whatever else it carries.
pub proof fn law_choice_streams_its_text(s: StreamV, choice: JsonV, order: Seq<usize>)
    ensures
        streamed_text(choice_step(s, choice, order).1) == choice_content(choice),
{
    lemma_kinds_text();
    let empty = Seq::<char>::empty();
    assert(empty + empty =~= empty);
    assert(streamed_text(Seq::<JsonV>::empty()) == empty);
    let r = choice_reasoning(choice);
    assert(streamed_text(r) == empty) by {
        match choice.at("delta"@).at("reasoning_content"@).as_str() {
            Some(text) => if text.len() > 0 {
                lemma_streamed_one(reasoning_delta_event(text));
            },
            None => {},
        }
    }
    let (s1, e1) = choice_updates_text(s, choice);
    assert(streamed_text(e1) == choice_content(choice)) by {
        match choice.at("delta"@).at("content"@).as_str() {
            Some(text) => if text.len() > 0 {
                let d = text_delta_event(s.content_index, text);
                lemma_streamed_one(d);
                assert(is_text_delta(d));
                assert(d.at("delta"@) == JsonV::Str(text));
                assert(d.at("delta"@).str_or(""@) == text);
                assert(streamed_text(seq![d]) == text);
                if s.output_index == 0 {
                    lemma_streamed_one(text_item_added_event());
                    assert(e1 =~= seq![text_item_added_event()] + seq![d]);
                    lemma_streamed_concat(seq![text_item_added_event()], seq![d]);
                    assert(empty + text =~= text);
                }
            } else {
                assert(text =~= empty);
            },
            None => {
                reveal_strlit("");
                assert(""@ =~= empty);
            },
        }
    }
    let deltas = choice_tool_deltas(choice);
    lemma_tool_deltas_no_text(s1, deltas);
    let e2 = match choice.at("delta"@).at("tool_calls"@).as_array() {
        Some(ds) => tool_deltas_step(s1, ds).1,
        None => Seq::<JsonV>::empty(),
    };
    assert(streamed_text(e2) == empty);
    lemma_streamed_concat(r, e1);
    lemma_streamed_concat(r + e1, e2);
    assert(empty + choice_content(choice) + empty =~= choice_content(choice));
    assert(choice_updates(s, choice).1 == r + e1 + e2);
    let s2 = choice_updates(s, choice).0;
    if finishes(choice) {
        let d = done_events(s2.output_index, s2.calls, order);
        let c = seq![completed_event(s2.response_id, finish_reason(choice))];
        lemma_done_events_no_text(s2.output_index, s2.calls, order);
        lemma_streamed_one(completed_event(s2.response_id, finish_reason(choice)));
        lemma_streamed_concat(r + e1 + e2, d);
        lemma_streamed_concat(r + e1 + e2 + d, c);
        assert(choice_content(choice) + empty + empty =~= choice_content(choice));
    }
}

proof fn lemma_choices_stream_text(s: StreamV, choices: Seq<JsonV>, orders: Seq<Seq<usize>>)
    ensures
        streamed_text(choices_step(s, choices, orders).1) == choices_content(choices),
    decreases choices.len(),
{
    if choices.len() > 0 {
        lemma_choices_stream_text(s, choices.drop_last(), orders);
        let (s1, e1) = choices_step(s, choices.drop_last(), orders);
        law_choice_streams_its_text(s1, choices.last(), orders[choices.len() - 1]);
        lemma_streamed_concat(e1, choice_step(s1, choices.last(), orders[choices.len() - 1]).1);
    } else {
        assert(streamed_text(Seq::<JsonV>::empty()) == Seq::<char>::empty());
    }
}

/// No text is lost or made up: over any run of chunks, the text the events
/// stream to the client is exactly the text content of the chunks' choices,
/// in order, whatever their finish reasons.
pub proof fn law_run_streams_all_text(s: StreamV, chunks: Seq<JsonV>, orders: Seq<Seq<Seq<usize>>>)
    ensures
        streamed_text(run_chunks(s, chunks, orders).1) == run_content(chunks),
    decreases chunks.len(),
{
    let empty = Seq::<char>::empty();
    if chunks.len() > 0 {
        law_run_streams_all_text(s, chunks.drop_last(), orders);
        let (s1, e1) = run_chunks(s, chunks.drop_last(), orders);
        let chunk = chunks.last();
        let ord = orders[chunks.len() - 1];
        let o = opening_events(s1);
        lemma_kinds_text();
        assert(streamed_text(o) == empty) by {
            assert(streamed_text(Seq::<JsonV>::empty()) == empty);
            lemma_streamed_one(created_event(s1));
        }
        match chunk.at("choices"@).as_array() {
            Some(choices) => {
                lemma_choices_stream_text(begun(s1), choices, ord);
                lemma_streamed_concat(o, choices_step(begun(s1), choices, ord).1);
                assert(empty + choices_content(choices) =~= choices_content(choices));
            },
            None => {},
        }
        lemma_streamed_concat(e1, chunk_step(s1, chunk, ord).1);
        assert(run_chunks(s, chunks, orders).1 == e1 + chunk_step(s1, chunk, ord).1);
    } else {
        assert(streamed_text(Seq::<JsonV>::empty()) == empty);
    }
}

/// A finishing choice ends with the completed event: for a choice whose
/// `finish_reason` is a string other than `""` and `"null"`, the last event
/// is `response.completed` for the converter's id, with status
/// `incomplete` for a stop for tool calls and `completed` otherwise, and
/// afterwards no call is pending.
pub proof fn law_finishing_choice_completes(
    s: StreamV,
    choice: JsonV,
    order: Seq<usize>,
    reason: Seq<char>,
)
    requires
        choice.at("finish_reason"@) == JsonV::Str(reason),
        reason.len() > 0,
        reason != "null"@,
    ensures
        choice_step(s, choice, order).1.len() > 0,
        choice_step(s, choice, order).1.last() == JsonV::Object(
            seq![
                ("type"@, JsonV::Str("response.completed"@)),
                (
                    "response"@,
                    JsonV::Object(
                        seq![
                            ("id"@, JsonV::Str(s.response_id)),
                            (
                                "status"@,
                                JsonV::Str(
                                    if reason == "tool_calls"@ {
                                        "incomplete"@
                                    } else {
                                        "completed"@
                                    },
                                ),
                            ),
                        ],
                    ),
                ),
            ],
        ),
        choice_step(s, choice, order).0.calls == Map::<usize, ToolCallV>::empty(),
        choice_step(s, choice, order).0.response_id == s.response_id,
{
    let s1 = choice_updates_text(s, choice).0;
    lemma_tool_deltas_keep(s1, choice_tool_deltas(choice));
    assert(choice_updates(s, choice).0.response_id == s.response_id);
}

/// Reasoning comes first: a choice whose delta carries a non-empty
/// `reasoning_content` text begins with a reasoning-text delta event that
/// carries exactly that text.
pub proof fn law_reasoning_streamed_first(s: StreamV, choice: JsonV, order: Seq<usize>, r: Seq<char>)
    requires
        choice.at("delta"@).at("reasoning_content"@) == JsonV::Str(r),
        r.len() > 0,
    ensures
        choice_step(s, choice, order).1.len() > 0,
        choice_step(s, choice, order).1[0] == JsonV::Object(
            seq![
                ("type"@, JsonV::Str("response.reasoning_text.delta"@)),
                ("output_index"@, JsonV::Number(NumberV::PosInt(0))),
                ("content_index"@, JsonV::Number(NumberV::PosInt(0))),
                ("delta"@, JsonV::Str(r)),
            ],
        ),
{
    let rs = choice_reasoning(choice);
    assert(rs == seq![reasoning_delta_event(r)]);
    let e = choice_updates(s, choice).1;
    let (s1, e1) = choice_updates_text(s, choice);
    match choice.at("delta"@).at("tool_calls"@).as_array() {
        Some(ds) => assert((rs + e1 + tool_deltas_step(s1, ds).1)[0] == rs[0]),
        None => assert((rs + e1)[0] == rs[0]),
    }
    if finishes(choice) {
        let s2 = choice_updates(s, choice).0;
        assert((e + done_events(s2.output_index, s2.calls, order) + seq![
            completed_event(s2.response_id, finish_reason(choice)),
        ])[0] == e[0]);
    }
}

/// The first text opens the text item: for a converter with no text item
/// open, a choice whose delta carries a non-empty text `t` emits, after its
/// reasoning event if any, the `response.output_item.added` event for an
/// empty assistant message at output index 0, then the text delta with
/// `t`, and the text item is open afterwards.
pub proof fn law_first_text_opens_item(s: StreamV, choice: JsonV, order: Seq<usize>, t: Seq<char>)
    requires
        stream_wf(s),
        s.output_index == 0,
        choice.at("delta"@).at("content"@) == JsonV::Str(t),
        t.len() > 0,
    ensures
        ({
            let e = choice_step(s, choice, order).1;
            let lead: int = if choice_reasoning(choice).len() > 0 {
                1
            } else {
                0
            };
            &&& e.len() >= lead + 2
            &&& e[lead] == JsonV::Object(
                seq![
                    ("type"@, JsonV::Str("response.output_item.added"@)),
                    ("output_index"@, JsonV::Number(NumberV::PosInt(0))),
                    (
                        "item"@,
                        JsonV::Object(
                            seq![
                                ("type"@, JsonV::Str("message"@)),
                                ("role"@, JsonV::Str("assistant"@)),
                                ("content"@, JsonV::Array(Seq::empty())),
                            ],
                        ),
                    ),
                ],
            )
            &&& e[lead + 1] == JsonV::Object(
                seq![
                    ("type"@, JsonV::Str("response.output_text.delta"@)),
                    ("output_index"@, JsonV::Number(NumberV::PosInt(0))),
                    ("content_index"@, JsonV::Number(NumberV::PosInt(0))),
                    ("delta"@, JsonV::Str(t)),
                ],
            )
            &&& choice_step(s, choice, order).0.output_index == 1
        }),
{
    let rs = choice_reasoning(choice);
    assert(rs.len() <= 1);
    let (s1, e1) = choice_updates_text(s, choice);
    assert(e1 == seq![text_item_added_event(), text_delta_event(0, t)]);
    let s1x = choice_updates(s, choice).0;
    let e = choice_updates(s, choice).1;
    lemma_tool_deltas_keep(s1, choice_tool_deltas(choice));
    match choice.at("delta"@).at("tool_calls"@).as_array() {
        Some(ds) => {
            let x = rs + e1 + tool_deltas_step(s1, ds).1;
            assert(x[rs.len() as int] == e1[0]);
            assert(x[rs.len() + 1int] == e1[1]);
        },
        None => {
            let x = rs + e1;
            assert(x[rs.len() as int] == e1[0]);
            assert(x[rs.len() + 1int] == e1[1]);
        },
    }
    if finishes(choice) {
        let x = e + done_events(s1x.output_index, s1x.calls, order) + seq![
            completed_event(s1x.response_id, finish_reason(choice)),
        ];
        assert(x[rs.len() as int] == e[rs.len() as int]);
        assert(x[rs.len() + 1int] == e[rs.len() + 1int]);
    }
}

/// An event keeps the identity of `s`: a `response.created` event is the
/// one for the id and model of `s`, and a `response.completed` event names
/// the id of `s`.
pub open spec fn keeps_identity(s: StreamV, e: JsonV) -> bool {
    &&& e.at("type"@) == JsonV::Str("response.created"@) ==> e == created_event(s)
    &&& e.at("type"@) == JsonV::Str("response.completed"@) ==> e.at("response"@).at("id"@)
        == JsonV::Str(s.response_id)
}

/// Every event of `events` keeps the identity of `s`.
pub open spec fn all_keep_identity(s: StreamV, events: Seq<JsonV>) -> bool {
    forall|i: int| 0 <= i < events.len() ==> keeps_identity(s, #[trigger] events[i])
}

proof fn lemma_keep_concat(s: StreamV, a: Seq<JsonV>, b: Seq<JsonV>)
    requires
        all_keep_identity(s, a),
        all_keep_identity(s, b),
    ensures
        all_keep_identity(s, a + b),
{
    assert forall|i: int| 0 <= i < (a + b).len() implies keeps_identity(s, #[trigger] (a + b)[i]) by {
        if i < a.len() {
            assert((a + b)[i] == a[i]);
        } else {
            assert((a + b)[i] == b[i - a.len()]);
        }
    }
}

/// Only the created and completed events have those types, and they carry
/// the id (and model) they were made with.
proof fn lemma_kinds_keep_identity(s: StreamV)
    ensures
        forall|r: StreamV|
            r.response_id == s.response_id && r.model == s.model ==> #[trigger] keeps_identity(
                s,
                created_event(r),
            ),
        keeps_identity(s, text_item_added_event()),
        forall|c: usize, t: Seq<char>| #[trigger] keeps_identity(s, text_delta_event(c, t)),
        forall|t: Seq<char>| #[trigger] keeps_identity(s, reasoning_delta_event(t)),
        forall|i: Seq<char>, d: Seq<char>| #[trigger] keeps_identity(s, arguments_delta_event(i, d)),
        forall|o: usize, c: ToolCallV| #[trigger] keeps_identity(s, call_done_event(o, c)),
        forall|f: Seq<char>| #[trigger] keeps_identity(s, completed_event(s.response_id, f)),
{
    reveal_strlit("response.created");
    reveal_strlit("response.completed");
    reveal_strlit("response.output_item.added");
    reveal_strlit("response.output_text.delta");
    reveal_strlit("response.reasoning_text.delta");
    reveal_strlit("response.function_call_arguments.delta");
    reveal_strlit("response.output_item.done");
    let created = "response.created"@;
    let completed = "response.completed"@;
    assert(created[10] != completed[10]);
    assert("response.output_item.added"@[9] != created[9]);
    assert("response.output_text.delta"@[9] != created[9]);
    assert("response.reasoning_text.delta"@[9] != created[9]);
    assert("response.function_call_arguments.delta"@[9] != created[9]);
    assert("response.output_item.done"@[9] != created[9]);
    assert(created[9] == completed[9]);
    reveal_strlit("type");
    reveal_strlit("response");
    assert("type"@[0] != "response"@[0]);
    assert forall|f: Seq<char>| #[trigger] keeps_identity(s, completed_event(s.response_id, f)) by {
        let e = completed_event(s.response_id, f);
        let fields = e->Object_0;
        assert(fields.drop_first()[0].0 == "response"@);
        assert(crate::json::lookup(fields, "response"@) == crate::json::lookup(fields.drop_first(), "response"@));
    }
}

proof fn lemma_tool_deltas_keep_identity(s: StreamV, r: StreamV, deltas: Seq<JsonV>)
    ensures
        all_keep_identity(s, tool_deltas_step(r, deltas).1),
    decreases deltas.len(),
{
    lemma_kinds_keep_identity(s);
    if deltas.len() > 0 {
        lemma_tool_deltas_keep_identity(s, r, deltas.drop_last());
        let (r1, e1) = tool_deltas_step(r, deltas.drop_last());
        let e = tool_delta_step(r1, deltas.last()).1;
        assert(keeps_identity(s, e));
        assert forall|i: int| 0 <= i < e1.push(e).len() implies keeps_identity(
            s,
            #[trigger] e1.push(e)[i],
        ) by {
            if i < e1.len() {
                assert(e1.push(e)[i] == e1[i]);
            }
        }
    }
}

proof fn lemma_done_events_keep_identity(
    s: StreamV,
    o: usize,
    calls: Map<usize, ToolCallV>,
    order: Seq<usize>,
)
    ensures
        all_keep_identity(s, done_events(o, calls, order)),
    decreases order.len(),
{
    lemma_kinds_keep_identity(s);
    if order.len() > 0 {
        lemma_done_events_keep_identity(s, o, calls, order.drop_last());
        let e1 = done_events(o, calls, order.drop_last());
        let e = call_done_event(o, calls[order.last()]);
        assert(keeps_identity(s, e));
        assert forall|i: int| 0 <= i < e1.push(e).len() implies keeps_identity(
            s,
            #[trigger] e1.push(e)[i],
        ) by {
            if i < e1.len() {
                assert(e1.push(e)[i] == e1[i]);
            }
        }
    }
}

proof fn lemma_choice_keeps_identity(s: StreamV, r: StreamV, choice: JsonV, order: Seq<usize>)
    requires
        r.response_id == s.response_id,
    ensures
        all_keep_identity(s, choice_step(r, choice, order).1),
{
    lemma_kinds_keep_identity(s);
    let rs = choice_reasoning(choice);
    let (r1, e1) = choice_updates_text(r, choice);
    let deltas = choice.at("delta"@).at("tool_calls"@).as_array().unwrap_or(Seq::empty());
    lemma_tool_deltas_keep(r1, deltas);
    lemma_tool_deltas_keep_identity(s, r1, deltas);
    let e2 = match choice.at("delta"@).at("tool_calls"@).as_array() {
        Some(ds) => tool_deltas_step(r1, ds).1,
        None => Seq::<JsonV>::empty(),
    };
    assert(all_keep_identity(s, rs));
    assert(all_keep_identity(s, e1));
    assert(all_keep_identity(s, e2));
    lemma_keep_concat(s, rs, e1);
    lemma_keep_concat(s, rs + e1, e2);
    assert(choice_updates(r, choice).1 == rs + e1 + e2);
    let r2 = choice_updates(r, choice).0;
    assert(r2.response_id == s.response_id);
    if finishes(choice) {
        let d = done_events(r2.output_index, r2.calls, order);
        let c = seq![completed_event(r2.response_id, finish_reason(choice))];
        lemma_done_events_keep_identity(s, r2.output_index, r2.calls, order);
        assert(keeps_identity(s, completed_event(s.response_id, finish_reason(choice))));
        assert(all_keep_identity(s, c));
        lemma_keep_concat(s, rs + e1 + e2, d);
        lemma_keep_concat(s, rs + e1 + e2 + d, c);
    }
}

proof fn lemma_choices_keep_identity(
    s: StreamV,
    r: StreamV,
    choices: Seq<JsonV>,
    orders: Seq<Seq<usize>>,
)
    requires
        stream_wf(r),
        r.response_id == s.response_id,
    ensures
        all_keep_identity(s, choices_step(r, choices, orders).1),
    decreases choices.len(),
{
    if choices.len() > 0 {
        lemma_choices_keep_identity(s, r, choices.drop_last(), orders);
        lemma_choices_keep(r, choices.drop_last(), orders);
        let (r1, e1) = choices_step(r, choices.drop_last(), orders);
        let e2 = choice_step(r1, choices.last(), orders[choices.len() - 1]).1;
        lemma_choice_keeps_identity(s, r1, choices.last(), orders[choices.len() - 1]);
        lemma_keep_concat(s, e1, e2);
    }
}

/// A converter keeps its identity in what it emits: over any run of chunks
/// from a well-formed state, every `response.created` event is the one for
/// the id and model of that state, and every `response.completed` event
/// names that id.
pub proof fn law_run_events_keep_identity(
    s: StreamV,
    chunks: Seq<JsonV>,
    orders: Seq<Seq<Seq<usize>>>,
)
    requires
        stream_wf(s),
    ensures
        forall|i: int|
            0 <= i < run_chunks(s, chunks, orders).1.len() ==> keeps_identity(
                s,
                #[trigger] run_chunks(s, chunks, orders).1[i],
            ),
    decreases chunks.len(),
{
    if chunks.len() > 0 {
        law_run_events_keep_identity(s, chunks.drop_last(), orders);
        law_run_keeps_identity(s, chunks.drop_last(), orders);
        let (r1, e1) = run_chunks(s, chunks.drop_last(), orders);
        let chunk = chunks.last();
        let ord = orders[chunks.len() - 1];
        let o = opening_events(r1);
        lemma_kinds_keep_identity(s);
        assert(all_keep_identity(s, o));
        let e2 = chunk_step(r1, chunk, ord).1;
        match chunk.at("choices"@).as_array() {
            Some(choices) => {
                lemma_choices_keep_identity(s, begun(r1), choices, ord);
                lemma_keep_concat(s, o, choices_step(begun(r1), choices, ord).1);
            },
            None => {},
        }
        assert(all_keep_identity(s, e1));
        lemma_keep_concat(s, e1, e2);
        assert(run_chunks(s, chunks, orders).1 == e1 + e2);
    }
}

/// The concatenation of the argument pieces of a sequence of deltas.
pub open spec fn joined_pieces(deltas: Seq<JsonV>) -> Seq<char>
    decreases deltas.len(),
{
    if deltas.len() == 0 {
        Seq::empty()
    } else {
        joined_pieces(deltas.drop_last()) + arguments_piece(deltas.last())
    }
}

/// Streamed arguments accumulate: when a call is opened by a run of deltas
/// that all carry its key, the pending call keeps the id and name the first
/// delta gave it, holds the concatenation of all the pieces, and every
/// arguments-delta event names that id and carries its own piece.
pub proof fn law_arguments_accumulate(s: StreamV, deltas: Seq<JsonV>, key: usize)
    requires
        deltas.len() > 0,
        forall|i: int| 0 <= i < deltas.len() ==> tool_key(#[trigger] deltas[i]) == key,
        !s.calls.contains_key(key),
    ensures
        tool_deltas_step(s, deltas).0.calls.contains_key(key),
        tool_deltas_step(s, deltas).0.calls[key] == (ToolCallV {
            id: opened_call(deltas[0], key).id,
            name: opened_call(deltas[0], key).name,
            arguments: joined_pieces(deltas),
        }),
        tool_deltas_step(s, deltas).1.len() == deltas.len(),
        forall|i: int|
            0 <= i < deltas.len() ==> #[trigger] tool_deltas_step(s, deltas).1[i] == JsonV::Object(
                seq![
                    ("type"@, JsonV::Str("response.function_call_arguments.delta"@)),
                    ("item_id"@, JsonV::Str(opened_call(deltas[0], key).id)),
                    ("delta"@, JsonV::Str(arguments_piece(deltas[i]))),
                ],
            ),
    decreases deltas.len(),
{
    let first = opened_call(deltas[0], key);
    if deltas.len() == 1 {
        assert(deltas.drop_last() =~= Seq::<JsonV>::empty());
        assert(joined_pieces(deltas.drop_last()) == Seq::<char>::empty());
        assert(Seq::<char>::empty() + arguments_piece(deltas[0]) =~= arguments_piece(deltas[0]));
        assert(first.arguments + arguments_piece(deltas[0]) =~= arguments_piece(deltas[0]));
    } else {
        let prefix = deltas.drop_last();
        assert forall|i: int| 0 <= i < prefix.len() implies tool_key(#[trigger] prefix[i]) == key by {
            assert(prefix[i] == deltas[i]);
        }
        law_arguments_accumulate(s, prefix, key);
        assert(prefix[0] == deltas[0]);
        let (s1, e1) = tool_deltas_step(s, prefix);
        assert(tool_key(deltas.last()) == key);
        assert(s1.calls[key].arguments + arguments_piece(deltas.last()) == joined_pieces(deltas));
        let e = tool_deltas_step(s, deltas).1;
        assert forall|i: int| 0 <= i < deltas.len() implies #[trigger] e[i]
            == arguments_delta_event(first.id, arguments_piece(deltas[i])) by {
            if i < deltas.len() - 1 {
                assert(e[i] == e1[i]);
                assert(prefix[i] == deltas[i]);
            }
        }
    }
}

/// The deltas of `deltas` that carry the key `key`, in arrival order.
pub open spec fn deltas_with_key(deltas: Seq<JsonV>, key: usize) -> Seq<JsonV>
    decreases deltas.len(),
{
    if deltas.len() == 0 {
        Seq::empty()
    } else if tool_key(deltas.last()) == key {
        deltas_with_key(deltas.drop_last(), key).push(deltas.last())
    } else {
        deltas_with_key(deltas.drop_last(), key)
    }
}

/// The call pending under `key` after `deltas` from `s`: a call already
/// pending gets every piece for its key appended; a new one takes its id
/// and name from the first delta with its key and holds all their pieces.
pub open spec fn pending_after(s: StreamV, deltas: Seq<JsonV>, key: usize) -> Option<ToolCallV> {
    let mine = deltas_with_key(deltas, key);
    if s.calls.contains_key(key) {
        Some(ToolCallV { arguments: s.calls[key].arguments + joined_pieces(mine), ..s.calls[key] })
    } else if mine.len() > 0 {
        Some(
            ToolCallV {
                id: opened_call(mine[0], key).id,
                name: opened_call(mine[0], key).name,
                arguments: joined_pieces(mine),
            },
        )
    } else {
        None
    }
}

/// Interleaved tool calls accumulate apart: after any sequence of deltas,
/// whatever keys they carry and in whatever order, a call is pending under
/// a key exactly when it was pending before or some delta carried the key,
/// and it is the call that `pending_after` describes.
pub proof fn law_interleaved_calls_accumulate(s: StreamV, deltas: Seq<JsonV>)
    ensures
        forall|key: usize|
            #![trigger tool_deltas_step(s, deltas).0.calls.contains_key(key)]
            #![trigger pending_after(s, deltas, key)]
            (tool_deltas_step(s, deltas).0.calls.contains_key(key) <==> pending_after(
                s,
                deltas,
                key,
            ) is Some) && (tool_deltas_step(s, deltas).0.calls.contains_key(key)
                ==> tool_deltas_step(s, deltas).0.calls[key] == pending_after(
                s,
                deltas,
                key,
            )->0),
    decreases deltas.len(),
{
    if deltas.len() == 0 {
        assert forall|key: usize| #[trigger] pending_after(s, deltas, key) == (if s.calls.contains_key(
            key,
        ) {
            Some(s.calls[key])
        } else {
            None::<ToolCallV>
        }) by {
            assert(s.calls[key].arguments + Seq::<char>::empty() =~= s.calls[key].arguments);
        }
    } else {
        let prefix = deltas.drop_last();
        let d = deltas.last();
        let k = tool_key(d);
        law_interleaved_calls_accumulate(s, prefix);
        let (s1, e1) = tool_deltas_step(s, prefix);
        let s2 = tool_deltas_step(s, deltas).0;
        assert(s2 == tool_delta_step(s1, d).0);
        assert forall|key: usize|
            (#[trigger] s2.calls.contains_key(key) <==> pending_after(s, deltas, key) is Some) && (
            s2.calls.contains_key(key) ==> s2.calls[key] == pending_after(s, deltas, key)->0) by {
            let before = deltas_with_key(prefix, key);
            if key == k {
                let mine = deltas_with_key(deltas, key);
                assert(mine == before.push(d));
                assert(mine.drop_last() =~= before);
                assert(joined_pieces(mine) == joined_pieces(before) + arguments_piece(d));
                assert(s1.calls.contains_key(key) <==> pending_after(s, prefix, key) is Some);
                if s.calls.contains_key(key) {
                    assert(s.calls[key].arguments + joined_pieces(before) + arguments_piece(d)
                        =~= s.calls[key].arguments + joined_pieces(mine));
                } else if before.len() > 0 {
                    assert(mine[0] == before[0]);
                } else {
                    assert(before =~= Seq::<JsonV>::empty());
                    assert(mine =~= seq![d]);
                    assert(seq![d].drop_last() =~= Seq::<JsonV>::empty());
                    assert(joined_pieces(mine) =~= arguments_piece(d));
                    assert(Seq::<char>::empty() + arguments_piece(d) =~= arguments_piece(d));
                }
            } else {
                assert(deltas_with_key(deltas, key) == before);
                assert(s1.calls.contains_key(key) <==> pending_after(s, prefix, key) is Some);
            }
        }
    }
}

/// The tool-call deltas of a choice (none where it has none).
pub open spec fn choice_tool_deltas(choice: JsonV) -> Seq<JsonV> {
    choice.at("delta"@).at("tool_calls"@).as_array().unwrap_or(Seq::empty())
}

/// A finishing choice completes every pending call once, as it was
/// accumulated: the done events, one per pending call in the walk order,
/// each carry the call that `pending_after` describes for its key, every
/// such call has its done event, and afterwards no call is pending.
pub proof fn law_finish_completes_pending_calls(s: StreamV, choice: JsonV, order: Seq<usize>)
    requires
        finishes(choice),
        is_walk_order(choice_updates(s, choice).0.calls, order),
    ensures
        ({
            let pending = choice_updates(s, choice).0;
            let done = done_events(pending.output_index, pending.calls, order);
            &&& choice_step(s, choice, order).0.calls == Map::<usize, ToolCallV>::empty()
            &&& choice_step(s, choice, order).1 == choice_updates(s, choice).1 + done + seq![
                completed_event(pending.response_id, finish_reason(choice)),
            ]
            &&& done.len() == pending.calls.dom().len()
            &&& forall|i: int|
                0 <= i < order.len() ==> pending_after(s, choice_tool_deltas(choice), order[i]) is Some
                    && #[trigger] done[i] == JsonV::Object(
                        seq![
                            ("type"@, JsonV::Str("response.output_item.done"@)),
                            ("output_index"@, JsonV::Number(NumberV::PosInt(pending.output_index as u64))),
                            (
                                "item"@,
                                JsonV::Object(
                                    seq![
                                        ("type"@, JsonV::Str("function_call"@)),
                                        ("call_id"@, JsonV::Str(pending_after(s, choice_tool_deltas(choice), order[i])->0.id)),
                                        ("name"@, JsonV::Str(pending_after(s, choice_tool_deltas(choice), order[i])->0.name)),
                                        ("arguments"@, JsonV::Str(pending_after(s, choice_tool_deltas(choice), order[i])->0.arguments)),
                                    ],
                                ),
                            ),
                        ],
                    )
            &&& forall|key: usize|
                #[trigger] pending_after(s, choice_tool_deltas(choice), key) is Some ==> exists|i: int|
                    0 <= i < order.len() && order[i] == key && done[i] == JsonV::Object(
                        seq![
                            ("type"@, JsonV::Str("response.output_item.done"@)),
                            ("output_index"@, JsonV::Number(NumberV::PosInt(pending.output_index as u64))),
                            (
                                "item"@,
                                JsonV::Object(
                                    seq![
                                        ("type"@, JsonV::Str("function_call"@)),
                                        ("call_id"@, JsonV::Str(pending_after(s, choice_tool_deltas(choice), key)->0.id)),
                                        ("name"@, JsonV::Str(pending_after(s, choice_tool_deltas(choice), key)->0.name)),
                                        ("arguments"@, JsonV::Str(pending_after(s, choice_tool_deltas(choice), key)->0.arguments)),
                                    ],
                                ),
                            ),
                        ],
                    )
        }),
{
    let deltas = choice_tool_deltas(choice);
    let s1 = choice_updates_text(s, choice).0;
    let pending = choice_updates(s, choice).0;
    let done = done_events(pending.output_index, pending.calls, order);
    assert(s1.calls == s.calls);
    law_interleaved_calls_accumulate(s1, deltas);
    assert(pending.calls == tool_deltas_step(s1, deltas).0.calls);
    assert forall|key: usize| #[trigger] pending_after(s, deltas, key) == pending_after(s1, deltas, key) by {}
    law_each_pending_call_done_once(pending.output_index, pending.calls, order);
    assert forall|i: int| 0 <= i < order.len() implies pending_after(s, deltas, order[i]) is Some
        && #[trigger] done[i] == call_done_event(
        pending.output_index,
        pending_after(s, deltas, order[i])->0,
    ) by {
        assert(pending.calls.contains_key(order[i]));
        assert(pending_after(s1, deltas, order[i]) == pending_after(s, deltas, order[i]));
    }
    assert forall|key: usize| #[trigger] pending_after(s, deltas, key) is Some implies exists|i: int|
        0 <= i < order.len() && order[i] == key && done[i] == call_done_event(
            pending.output_index,
            pending_after(s, deltas, key)->0,
        ) by {
        assert(pending_after(s1, deltas, key) == pending_after(s, deltas, key));
        assert(pending.calls.contains_key(key));
    }
}

// ------------------------------------------------------------------
// Implementation
// ------------------------------------------------------------------

/// A pending tool call.
struct ToolCallState {
    id: String,
    name: String,
    arguments: String,
}

impl View for ToolCallState {
    type V = ToolCallV;

    closed spec fn view(&self) -> ToolCallV {
        ToolCallV { id: self.id@, name: self.name@, arguments: self.arguments@ }
    }
}

/// State machine for converting streaming Chat Completions chunks to
/// Responses SSE events.
pub struct StreamConverter {
    response_id: String,
    model: String,
    output_index: usize,
    content_index: usize,
    current_tool_calls: HashMap<usize, ToolCallState>,
    started: bool,
}

/// The models of the pending calls.
spec fn calls_view(m: Map<usize, ToolCallState>) -> Map<usize, ToolCallV> {
    m.map_values(|c: ToolCallState| c@)
}

impl View for StreamConverter {
    type V = StreamV;

    closed spec fn view(&self) -> StreamV {
        StreamV {
            response_id: self.response_id@,
            model: self.model@,
            output_index: self.output_index,
            content_index: self.content_index,
            calls: calls_view(self.current_tool_calls@),
            started: self.started,
        }
    }
}

/// The operating system's clock.
#[verifier::external_type_specification]
#[verifier::external_body]
pub struct ExSystemTime(std::time::SystemTime);

/// `std::time::SystemTime::now`: the current time of the system clock.
/// Nothing is stated of the result: it depends on the moment of the call.
#[verifier::external_body]
fn system_now() -> std::time::SystemTime {
    std::time::SystemTime::now()
}

/// `std::time::SystemTime::duration_since` measured from `UNIX_EPOCH`: the
/// time elapsed since the epoch, or `None` where the clock is set before it.
/// Nothing is stated of the duration: it depends on the clock.
#[verifier::external_body]
fn elapsed_since_epoch(t: std::time::SystemTime) -> Option<std::time::Duration> {
    t.duration_since(std::time::UNIX_EPOCH).ok()
}

/// `std::time::Duration::as_millis`: the whole milliseconds of a duration.
/// Nothing is stated of the number, as durations carry no model here.
#[verifier::external_body]
fn duration_millis(d: &std::time::Duration) -> u128 {
    d.as_millis()
}

/// The milliseconds since the Unix epoch by the system clock (zero where the
/// clock is set before the epoch).
fn unix_millis() -> u128 {
    match elapsed_since_epoch(system_now()) {
        Some(d) => duration_millis(&d),
        None => 0,
    }
}

/// The piece of arguments that a tool-call delta carries (empty where none).
fn args_delta(tc: &Json) -> (r: &str)
    ensures
        r@ == arguments_piece(tc@),
{
    match tc.get("function") {
        Some(function) => match function.get("arguments") {
            Some(arguments) => arguments.str_or(""),
            None => "",
        },
        None => "",
    }
}

/// A short token drawn from the current time: the milliseconds since the
/// epoch in lower-case hexadecimal.
pub fn uuid_short() -> (r: String)
    ensures
        exists|millis: u128| r@ == digits(millis as nat, 16),
{
    hex_text(unix_millis())
}

/// A short response id for a converter started at `millis` milliseconds
/// after the epoch: `resp_br_` and the time in lower-case hexadecimal.
pub fn response_id_at(millis: u128) -> (r: String)
    ensures
        r@ == response_id_for(millis),
{
    let mut id = "resp_br_".to_owned();
    let digits_text = hex_text(millis);
    id.append(digits_text.as_str());
    id
}

impl StreamConverter {
    /// A converter for `model` whose response id is drawn from the current time.
    pub fn new(model: String) -> (r: Self)
        ensures
            r@.model == model@,
            r@.output_index == 0,
            r@.content_index == 0,
            r@.calls == Map::<usize, ToolCallV>::empty(),
            !r@.started,
            exists|millis: u128| r@.response_id == response_id_for(millis),
    {
        let millis = unix_millis();
        Self::started_at(model, millis)
    }

    /// A converter for `model` started at `millis` milliseconds after the epoch.
    pub fn started_at(model: String, millis: u128) -> (r: Self)
        ensures
            r@ == (StreamV {
                response_id: response_id_for(millis),
                model: model@,
                output_index: 0,
                content_index: 0,
                calls: Map::empty(),
                started: false,
            }),
    {
        let r = StreamConverter {
            response_id: response_id_at(millis),
            model,
            output_index: 0,
            content_index: 0,
            current_tool_calls: HashMap::new(),
            started: false,
        };
        assert(calls_view(r.current_tool_calls@) =~= Map::<usize, ToolCallV>::empty());
        r
    }

    /// Applies one tool-call delta and emits its arguments-delta event.
    fn apply_tool_delta(&mut self, tc: &Json, events: &mut Vec<Json>)
        ensures
            final(self)@ == tool_delta_step(old(self)@, tc@).0,
            models(final(events)@) == models(old(events)@).push(tool_delta_step(old(self)@, tc@).1),
    {
        let null_value = Json::Null;
        let index = match tc.at("index", &null_value).as_u64() {
            Some(n) => n,
            None => 0,
        };
        let idx = index as usize;
        let function = tc.at("function", &null_value);
        let ghost old_map = self.current_tool_calls@;
        let ghost key = tool_key(tc@);
        assert(idx == key);
        let existing = self.current_tool_calls.remove(&idx);
        let mut state = match existing {
            Some(st) => st,
            None => {
                let id = match tc.at("id", &null_value).as_str() {
                    Some(id) => id.to_owned(),
                    None => {
                        let mut id = "call_".to_owned();
                        let number = decimal_text(idx as u64);
                        id.append(number.as_str());
                        id
                    },
                };
                let name = function.at("name", &null_value).str_or("").to_owned();
                ToolCallState { id, name, arguments: String::new() }
            },
        };
        let ghost call = state@;
        assert(call == if calls_view(old_map).contains_key(key) {
            calls_view(old_map)[key]
        } else {
            opened_call(tc@, key)
        });
        match function.at("arguments", &null_value).as_str() {
            Some(piece) => state.arguments.append(piece),
            None => {},
        }
        let ghost updated = state@;
        proof {
            reveal_strlit("");
        }
        assert(updated.arguments =~= call.arguments + arguments_piece(tc@));
        let call_id = state.id.clone();
        self.current_tool_calls.insert(idx, state);
        assert(calls_view(self.current_tool_calls@) =~= calls_view(old_map).insert(key, updated));
        push_item(events, self.make_function_call_delta_event(call_id.as_str(), args_delta(tc)));
    }

    /// Emits one done event per pending call, in the order the map is
    /// walked, and returns that order.
    fn push_done_events(&self, events: &mut Vec<Json>) -> (order: Ghost<Seq<usize>>)
        ensures
            is_walk_order(self@.calls, order@),
            models(final(events)@) == models(old(events)@) + done_events(
                self@.output_index,
                self@.calls,
                order@,
            ),
    {
        let ghost m = self.current_tool_calls@;
        let ghost calls = calls_view(m);
        let ghost start = models(events@);
        let ghost mut order: Seq<usize> = Seq::empty();
        let walk = self.current_tool_calls.iter();
        let ghost pairs = walk.remaining();
        assert(done_events(self@.output_index, calls, order) =~= Seq::<JsonV>::empty());
        for pair in it: walk
            invariant
                it.seq() == pairs,
                pairs == vstd::std_specs::hash::spec_hash_map_iter(&self.current_tool_calls).remaining(),
                m == self.current_tool_calls@,
                calls == calls_view(m),
                calls == self@.calls,
                order.len() == it.index(),
                forall|j: int| 0 <= j < it.index() ==> order[j] == *pairs[j].0,
                models(events@) == start + done_events(self@.output_index, calls, order),
        {
            let (k, st) = pair;
            assert(m.contains_key(*k) && m[*k] == *st);
            push_item(
                events,
                self.make_function_call_done_event(
                    st.id.as_str(),
                    st.name.as_str(),
                    st.arguments.as_str(),
                ),
            );
            let ghost before = order;
            proof {
                order = order.push(*k);
                assert(order.drop_last() =~= before);
            }
        }
        assert(order.len() == m.dom().len());
        assert(calls.dom() =~= m.dom());
        assert forall|i: int, j: int| 0 <= i < order.len() && 0 <= j < order.len() && i != j implies order[i] != order[j] by {
            if order[i] == order[j] {
                assert(m[*pairs[i].0] == *pairs[i].1);
                assert(m[*pairs[j].0] == *pairs[j].1);
                assert(pairs[i] == pairs[j]);
            }
        }
        assert forall|k: usize| #[trigger] calls.contains_key(k) implies order.contains(k) by {
            assert(m.contains_key(k));
            assert(pairs.contains((&k, &m[k])));
            let i = choose|i: int| 0 <= i < pairs.len() && pairs[i] == (&k, &m[k]);
            assert(order[i] == k);
        }
        assert forall|i: int| 0 <= i < order.len() implies calls.contains_key(#[trigger] order[i]) by {
            assert(m.contains_key(*pairs[i].0));
        }
        Ghost(order)
    }

    /// Emits the reasoning delta of a choice, if it has non-empty reasoning.
    fn push_choice_reasoning(&self, choice: &Json, events: &mut Vec<Json>)
        ensures
            models(final(events)@) == models(old(events)@) + choice_reasoning(choice@),
    {
        let null_value = Json::Null;
        let delta = choice.at("delta", &null_value);
        match delta.at("reasoning_content", &null_value).as_str() {
            Some(reasoning) => {
                if !reasoning.is_empty() {
                    push_item(events, self.make_reasoning_delta_event(reasoning));
                }
            },
            None => {},
        }
        assert(models(events@) =~= models(old(events)@) + choice_reasoning(choice@));
    }

    /// Applies the text of a choice: opens the text item if none is open,
    /// then emits the text delta, for non-empty text.
    fn apply_choice_text(&mut self, choice: &Json, events: &mut Vec<Json>)
        ensures
            final(self)@ == choice_updates_text(old(self)@, choice@).0,
            models(final(events)@) == models(old(events)@) + choice_updates_text(
                old(self)@,
                choice@,
            ).1,
    {
        let null_value = Json::Null;
        let delta = choice.at("delta", &null_value);
        match delta.at("content", &null_value).as_str() {
            Some(content) => {
                if !content.is_empty() {
                    if self.output_index == 0 {
                        push_item(events, self.make_text_item_added_event());
                        self.output_index = self.output_index + 1;
                    }
                    push_item(events, self.make_text_delta_event(content));
                }
            },
            None => {},
        }
        assert(models(events@) =~= models(old(events)@) + choice_updates_text(
            old(self)@,
            choice@,
        ).1);
    }

    /// Applies the tool-call deltas of a choice, in order.
    fn apply_choice_tools(&mut self, choice: &Json, events: &mut Vec<Json>)
        ensures
            final(self)@ == (match choice@.at("delta"@).at("tool_calls"@).as_array() {
                Some(deltas) => tool_deltas_step(old(self)@, deltas).0,
                None => old(self)@,
            }),
            models(final(events)@) == models(old(events)@) + (match choice@.at("delta"@).at(
                "tool_calls"@,
            ).as_array() {
                Some(deltas) => tool_deltas_step(old(self)@, deltas).1,
                None => Seq::<JsonV>::empty(),
            }),
    {
        let null_value = Json::Null;
        let ghost s1 = self@;
        let ghost ev = models(events@);
        let delta = choice.at("delta", &null_value);
        match delta.at("tool_calls", &null_value).as_array() {
            Some(deltas) => {
                let ghost dm = models(deltas@);
                proof {
                    lemma_models(deltas@);
                }
                let n = deltas.len();
                let mut i: usize = 0;
                while i < n
                    invariant
                        n == deltas@.len(),
                        dm == models(deltas@),
                        dm.len() == n,
                        forall|j: int| 0 <= j < n ==> #[trigger] dm[j] == deltas@[j]@,
                        i <= n,
                        self@ == tool_deltas_step(s1, dm.take(i as int)).0,
                        models(events@) == ev + tool_deltas_step(s1, dm.take(i as int)).1,
                    decreases n - i,
                {
                    assert(dm.take(i + 1).drop_last() =~= dm.take(i as int));
                    assert(dm.take(i + 1).last() == deltas@[i as int]@);
                    self.apply_tool_delta(&deltas[i], events);
                    assert(models(events@) =~= ev + tool_deltas_step(s1, dm.take(i + 1)).1);
                    i = i + 1;
                }
                assert(dm.take(n as int) =~= dm);
            },
            None => {
                assert(models(events@) =~= ev + Seq::<JsonV>::empty());
            },
        }
    }

    /// Applies one choice of a chunk and emits its events; returns the order
    /// in which the pending calls were walked if the choice finishes.
    fn apply_choice(&mut self, choice: &Json, events: &mut Vec<Json>) -> (order: Ghost<Seq<usize>>)
        ensures
            choice_order_ok(old(self)@, choice@, order@),
            final(self)@ == choice_step(old(self)@, choice@, order@).0,
            models(final(events)@) == models(old(events)@) + choice_step(
                old(self)@,
                choice@,
                order@,
            ).1,
    {
        let null_value = Json::Null;
        let ghost s0 = self@;
        let ghost ev0 = models(events@);
        let finish = choice.at("finish_reason", &null_value).str_or("");

        self.push_choice_reasoning(choice, events);
        self.apply_choice_text(choice, events);
        self.apply_choice_tools(choice, events);
        let ghost s2 = self@;
        assert(s2 == choice_updates(s0, choice@).0);
        assert(models(events@) =~= ev0 + choice_updates(s0, choice@).1);

        if !finish.is_empty() && !str_eq(finish, "null") {
            let order = self.push_done_events(events);
            self.current_tool_calls.clear();
            assert(calls_view(self.current_tool_calls@) =~= Map::<usize, ToolCallV>::empty());
            push_item(events, self.make_completed_event(finish));
            assert(models(events@) =~= ev0 + choice_step(s0, choice@, order@).1);
            order
        } else {
            Ghost(Seq::empty())
        }
    }

    /// Converts a streaming Chat Completions chunk to Responses API events.
    ///
    /// The events and the new state are those of `chunk_step` for some walk
    /// order of the calls pending at each finishing choice.
    pub fn convert_chunk(&mut self, chunk: &Json) -> (events: Vec<Json>)
        ensures
            exists|orders: Seq<Seq<usize>>|
                {
                    &&& chunk_orders_ok(old(self)@, chunk@, orders)
                    &&& #[trigger] chunk_step(old(self)@, chunk@, orders) == (
                        final(self)@,
                        models(events@),
                    )
                },
    {
        let null_value = Json::Null;
        let ghost s0 = self@;
        let mut events = new_items();
        if !self.started {
            push_item(&mut events, self.make_created_event());
        }
        self.started = true;
        let ghost opening = models(events@);
        assert(opening =~= opening_events(s0));
        let ghost s1 = self@;
        assert(s1 == begun(s0));
        let choices = match chunk.at("choices", &null_value).as_array() {
            Some(c) => c,
            None => {
                assert(chunk_step(s0, chunk@, Seq::empty()) == (self@, models(events@)));
                assert(chunk_orders_ok(s0, chunk@, Seq::empty()));
                return events;
            },
        };
        let ghost cm = models(choices@);
        proof {
            lemma_models(choices@);
        }
        let ghost mut orders: Seq<Seq<usize>> = Seq::empty();
        let n = choices.len();
        let mut i: usize = 0;
        while i < n
            invariant
                n == choices@.len(),
                cm == models(choices@),
                cm.len() == n,
                forall|j: int| 0 <= j < n ==> #[trigger] cm[j] == choices@[j]@,
                i <= n,
                orders.len() == i,
                choices_orders_ok(s1, cm.take(i as int), orders),
                self@ == choices_step(s1, cm.take(i as int), orders).0,
                models(events@) == opening + choices_step(s1, cm.take(i as int), orders).1,
            decreases n - i,
        {
            assert(cm.take(i + 1).drop_last() =~= cm.take(i as int));
            assert(cm.take(i + 1).last() == choices@[i as int]@);
            let ghost before = orders;
            let order = self.apply_choice(&choices[i], &mut events);
            proof {
                orders = orders.push(order@);
                lemma_choices_step_extend(s1, cm.take(i as int), before, order@);
                lemma_choices_orders_extend(s1, cm.take(i as int), before, order@);
                assert(cm.take(i as int).push(cm[i as int]) =~= cm.take(i + 1));
            }
            assert(models(events@) =~= opening + choices_step(s1, cm.take(i + 1), orders).1);
            i = i + 1;
        }
        assert(cm.take(n as int) =~= cm);
        assert(chunk_orders_ok(s0, chunk@, orders));
        assert(chunk_step(s0, chunk@, orders) == (self@, models(events@)));
        events
    }

    fn make_created_event(&self) -> (r: Json)
        ensures
            r@ == created_event(self@),
    {
        let mut response = new_fields();
        push_field(&mut response, "id", Json::from_str_slice(self.response_id.as_str()));
        push_field(&mut response, "object", Json::from_str_slice("response"));
        push_field(&mut response, "status", Json::from_str_slice("in_progress"));
        push_field(&mut response, "model", Json::from_str_slice(self.model.as_str()));
        push_field(&mut response, "output", Json::Array(new_items()));
        let ghost inner = field_models(response@);
        let mut f = new_fields();
        push_field(&mut f, "type", Json::from_str_slice("response.created"));
        push_field(&mut f, "response", Json::Object(response));
        assert(inner =~= created_event(self@)->Object_0[1].1->Object_0);
        assert(field_models(f@) =~= created_event(self@)->Object_0);
        Json::Object(f)
    }

    fn make_reasoning_delta_event(&self, text: &str) -> (r: Json)
        ensures
            r@ == reasoning_delta_event(text@),
    {
        let mut f = new_fields();
        push_field(&mut f, "type", Json::from_str_slice("response.reasoning_text.delta"));
        push_field(&mut f, "output_index", Json::Number(JsonNumber::PosInt(0)));
        push_field(&mut f, "content_index", Json::Number(JsonNumber::PosInt(0)));
        push_field(&mut f, "delta", Json::from_str_slice(text));
        assert(field_models(f@) =~= reasoning_delta_event(text@)->Object_0);
        Json::Object(f)
    }

    fn make_text_item_added_event(&self) -> (r: Json)
        ensures
            r@ == text_item_added_event(),
    {
        let mut item = new_fields();
        push_field(&mut item, "type", Json::from_str_slice("message"));
        push_field(&mut item, "role", Json::from_str_slice("assistant"));
        push_field(&mut item, "content", Json::Array(new_items()));
        let ghost inner = field_models(item@);
        let mut f = new_fields();
        push_field(&mut f, "type", Json::from_str_slice("response.output_item.added"));
        push_field(&mut f, "output_index", Json::Number(JsonNumber::PosInt(0)));
        push_field(&mut f, "item", Json::Object(item));
        assert(inner =~= text_item_added_event()->Object_0[2].1->Object_0);
        assert(field_models(f@) =~= text_item_added_event()->Object_0);
        Json::Object(f)
    }

    fn make_text_delta_event(&self, text: &str) -> (r: Json)
        ensures
            r@ == text_delta_event(self@.content_index, text@),
    {
        let mut f = new_fields();
        push_field(&mut f, "type", Json::from_str_slice("response.output_text.delta"));
        push_field(&mut f, "output_index", Json::Number(JsonNumber::PosInt(0)));
        push_field(
            &mut f,
            "content_index",
            Json::Number(JsonNumber::PosInt(self.content_index as u64)),
        );
        push_field(&mut f, "delta", Json::from_str_slice(text));
        assert(field_models(f@) =~= text_delta_event(self@.content_index, text@)->Object_0);
        Json::Object(f)
    }

    fn make_function_call_delta_event(&self, call_id: &str, args_delta: &str) -> (r: Json)
        ensures
            r@ == arguments_delta_event(call_id@, args_delta@),
    {
        let mut f = new_fields();
        push_field(&mut f, "type", Json::from_str_slice("response.function_call_arguments.delta"));
        push_field(&mut f, "item_id", Json::from_str_slice(call_id));
        push_field(&mut f, "delta", Json::from_str_slice(args_delta));
        assert(field_models(f@) =~= arguments_delta_event(call_id@, args_delta@)->Object_0);
        Json::Object(f)
    }

    fn make_function_call_done_event(&self, call_id: &str, name: &str, arguments: &str) -> (r:
        Json)
        ensures
            r@ == call_done_event(
                self@.output_index,
                ToolCallV { id: call_id@, name: name@, arguments: arguments@ },
            ),
    {
        let mut item = new_fields();
        push_field(&mut item, "type", Json::from_str_slice("function_call"));
        push_field(&mut item, "call_id", Json::from_str_slice(call_id));
        push_field(&mut item, "name", Json::from_str_slice(name));
        push_field(&mut item, "arguments", Json::from_str_slice(arguments));
        let ghost inner = field_models(item@);
        let mut f = new_fields();
        push_field(&mut f, "type", Json::from_str_slice("response.output_item.done"));
        push_field(
            &mut f,
            "output_index",
            Json::Number(JsonNumber::PosInt(self.output_index as u64)),
        );
        push_field(&mut f, "item", Json::Object(item));
        let ghost expected = call_done_event(
            self@.output_index,
            ToolCallV { id: call_id@, name: name@, arguments: arguments@ },
        );
        assert(inner =~= expected->Object_0[2].1->Object_0);
        assert(field_models(f@) =~= expected->Object_0);
        Json::Object(f)
    }

    fn make_completed_event(&self, finish_reason: &str) -> (r: Json)
        ensures
            r@ == completed_event(self@.response_id, finish_reason@),
    {
        let status = if str_eq(finish_reason, "tool_calls") {
            "incomplete"
        } else {
            "completed"
        };
        let mut response = new_fields();
        push_field(&mut response, "id", Json::from_str_slice(self.response_id.as_str()));
        push_field(&mut response, "status", Json::from_str_slice(status));
        let ghost inner = field_models(response@);
        let mut f = new_fields();
        push_field(&mut f, "type", Json::from_str_slice("response.completed"));
        push_field(&mut f, "response", Json::Object(response));
        let ghost expected = completed_event(self@.response_id, finish_reason@);
        assert(inner =~= expected->Object_0[1].1->Object_0);
        assert(field_models(f@) =~= expected->Object_0);
        Json::Object(f)
    }
}

} // verus!
