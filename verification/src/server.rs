//! The decisions of the HTTP handler: which model a request names, whether
//! it streams, which headers go upstream, and how the upstream event stream
//! is cut into events and read.

use vstd::prelude::*;
use crate::json::{Json, JsonV, field_models, push_field, new_fields};
use crate::text::{chars_of, str_eq, contains_str, occurs_in};

verus! {

// ------------------------------------------------------------------
// Whitespace and lines
// ------------------------------------------------------------------

/// Whether `c` is white space in the Unicode sense (the characters that
/// `char::is_whitespace` accepts).
pub open spec fn is_white(c: char) -> bool {
    ||| c == ' '
    ||| c == '\t'
    ||| c == '\n'
    ||| c == '\x0B'
    ||| c == '\x0C'
    ||| c == '\r'
    ||| c == '\u{85}'
    ||| c == '\u{A0}'
    ||| c == '\u{1680}'
    ||| ('\u{2000}' <= c && c <= '\u{200A}')
    ||| c == '\u{2028}'
    ||| c == '\u{2029}'
    ||| c == '\u{202F}'
    ||| c == '\u{205F}'
    ||| c == '\u{3000}'
}

fn is_white_char(c: char) -> (r: bool)
    ensures
        r == is_white(c),
{
    c == ' ' || c == '\t' || c == '\n' || c == '\x0B' || c == '\x0C' || c == '\r' || c == '\u{85}'
        || c == '\u{A0}' || c == '\u{1680}' || ('\u{2000}' <= c && c <= '\u{200A}') || c
        == '\u{2028}' || c == '\u{2029}' || c == '\u{202F}' || c == '\u{205F}' || c == '\u{3000}'
}

/// `s` without its leading white space.
pub open spec fn trim_start_white(s: Seq<char>) -> Seq<char>
    decreases s.len(),
{
    if s.len() > 0 && is_white(s[0]) {
        trim_start_white(s.drop_first())
    } else {
        s
    }
}

/// `s` without its trailing white space.
pub open spec fn trim_end_white(s: Seq<char>) -> Seq<char>
    decreases s.len(),
{
    if s.len() > 0 && is_white(s.last()) {
        trim_end_white(s.drop_last())
    } else {
        s
    }
}

/// `s` without its leading and trailing white space.
pub open spec fn trim_white(s: Seq<char>) -> Seq<char> {
    trim_end_white(trim_start_white(s))
}

/// The position of the first line feed in `s`, or its length where it has none.
pub open spec fn line_end(s: Seq<char>) -> nat
    decreases s.len(),
{
    if s.len() == 0 {
        0
    } else if s[0] == '\n' {
        0
    } else {
        1 + line_end(s.drop_first())
    }
}

/// A line without the carriage return that ends it, if any.
pub open spec fn strip_cr(line: Seq<char>) -> Seq<char> {
    if line.len() > 0 && line.last() == '\r' {
        line.drop_last()
    } else {
        line
    }
}

/// The first line feed ends the first line.
pub proof fn lemma_line_end_bound(s: Seq<char>)
    ensures
        line_end(s) <= s.len(),
        line_end(s) < s.len() ==> s[line_end(s) as int] == '\n',
        forall|j: int| 0 <= j < line_end(s) ==> s[j] != '\n',
    decreases s.len(),
{
    if s.len() > 0 && s[0] != '\n' {
        lemma_line_end_bound(s.drop_first());
        assert forall|j: int| 0 <= j < line_end(s) implies s[j] != '\n' by {
            if j > 0 {
                assert(s[j] == s.drop_first()[j - 1]);
            }
        }
    }
}

/// The lines of a text: split after each line feed; a line that ended in a
/// line feed loses a carriage return before it; a final line feed does not
/// start another line.
pub open spec fn text_lines(s: Seq<char>) -> Seq<Seq<char>>
    decreases s.len(),
{
    if s.len() == 0 {
        Seq::empty()
    } else {
        let k = line_end(s);
        if k < s.len() {
            proof {
                lemma_line_end_bound(s);
            }
            seq![strip_cr(s.take(k as int))] + text_lines(s.skip(k as int + 1))
        } else {
            seq![s]
        }
    }
}

/// The data of an event line: what follows `data: `, trimmed, where that is
/// not empty.
pub open spec fn data_of_line(line: Seq<char>) -> Option<Seq<char>> {
    if line.len() >= 6 && line.take(6) == "data: "@ && trim_white(line.skip(6)).len() > 0 {
        Some(trim_white(line.skip(6)))
    } else {
        None
    }
}

/// The data of the first line that carries some.
pub open spec fn first_data(lines: Seq<Seq<char>>) -> Option<Seq<char>>
    decreases lines.len(),
{
    if lines.len() == 0 {
        None
    } else {
        match data_of_line(lines[0]) {
            Some(d) => Some(d),
            None => first_data(lines.drop_first()),
        }
    }
}

/// The data of an SSE event text.
pub open spec fn sse_data(text: Seq<char>) -> Option<Seq<char>> {
    first_data(text_lines(text))
}

proof fn lemma_line_end_at(s: Seq<char>, k: int)
    requires
        0 <= k <= s.len(),
        k < s.len() ==> s[k] == '\n',
        forall|j: int| 0 <= j < k ==> s[j] != '\n',
    ensures
        line_end(s) == k,
    decreases k,
{
    if k > 0 {
        lemma_line_end_at(s.drop_first(), k - 1);
    }
}

proof fn lemma_trim_start_at(s: Seq<char>, a: int)
    requires
        0 <= a <= s.len(),
        forall|j: int| 0 <= j < a ==> is_white(s[j]),
        a < s.len() ==> !is_white(s[a]),
    ensures
        trim_start_white(s) == s.skip(a),
    decreases a,
{
    if a > 0 {
        lemma_trim_start_at(s.drop_first(), a - 1);
        assert(s.drop_first().skip(a - 1) =~= s.skip(a));
    } else {
        assert(s.skip(0) =~= s);
    }
}

proof fn lemma_trim_end_at(s: Seq<char>, b: int)
    requires
        0 <= b <= s.len(),
        forall|j: int| b <= j < s.len() ==> is_white(s[j]),
        b > 0 ==> !is_white(s[b - 1]),
    ensures
        trim_end_white(s) == s.take(b),
    decreases s.len() - b,
{
    if b < s.len() {
        lemma_trim_end_at(s.drop_last(), b);
        assert(s.drop_last().take(b) =~= s.take(b));
    } else {
        assert(s.take(b) =~= s);
    }
}

/// The trimmed data of the line `v[start..end)`, if it is a data line.
fn line_data(text: &str, v: &Vec<char>, start: usize, end: usize) -> (r: Option<String>)
    requires
        v@ == text@,
        start <= end <= v@.len(),
    ensures
        match r {
            Some(d) => data_of_line(text@.subrange(start as int, end as int)) == Some(d@),
            None => data_of_line(text@.subrange(start as int, end as int)) is None,
        },
{
    let ghost line = text@.subrange(start as int, end as int);
    proof {
        reveal_strlit("data: ");
    }
    if end - start < 6 {
        return None;
    }
    if !(v[start] == 'd' && v[start + 1] == 'a' && v[start + 2] == 't' && v[start + 3] == 'a'
        && v[start + 4] == ':' && v[start + 5] == ' ') {
        assert(line.take(6) != "data: "@) by {
            if line.take(6) == "data: "@ {
                assert(line.take(6)[0] == 'd');
                assert(line.take(6)[1] == 'a');
                assert(line.take(6)[2] == 't');
                assert(line.take(6)[3] == 'a');
                assert(line.take(6)[4] == ':');
                assert(line.take(6)[5] == ' ');
            }
        }
        return None;
    }
    assert(line.take(6) =~= "data: "@);
    let ghost rest = line.skip(6);
    let mut a: usize = start + 6;
    while a < end && is_white_char(v[a])
        invariant
            v@ == text@,
            start + 6 <= a <= end <= v@.len(),
            rest == text@.subrange(start + 6, end as int),
            forall|j: int| 0 <= j < a - (start + 6) ==> is_white(rest[j]),
        decreases end - a,
    {
        a = a + 1;
    }
    proof {
        lemma_trim_start_at(rest, a - (start + 6));
        assert(rest.skip(a - (start + 6)) =~= text@.subrange(a as int, end as int));
    }
    let ghost after = text@.subrange(a as int, end as int);
    let mut b: usize = end;
    while b > a && is_white_char(v[b - 1])
        invariant
            v@ == text@,
            a <= b <= end <= v@.len(),
            after == text@.subrange(a as int, end as int),
            forall|j: int| b - a <= j < after.len() ==> is_white(after[j]),
        decreases b - a,
    {
        b = b - 1;
    }
    proof {
        lemma_trim_end_at(after, b - a);
        assert(after.take(b - a) =~= text@.subrange(a as int, b as int));
    }
    if b == a {
        return None;
    }
    Some(text.substring_char(a, b).to_owned())
}

/// Parses the data field of an SSE event text: the trimmed text after
/// `data: ` on the first line that has a non-empty one.
pub fn parse_sse_data(sse_text: &str) -> (r: Option<String>)
    ensures
        match r {
            Some(d) => sse_data(sse_text@) == Some(d@),
            None => sse_data(sse_text@) is None,
        },
{
    let v = chars_of(sse_text);
    let n = v.len();
    let mut i: usize = 0;
    assert(sse_text@.skip(0) =~= sse_text@);
    while i < n
        invariant
            v@ == sse_text@,
            n == v@.len(),
            i <= n,
            sse_data(sse_text@) == sse_data(sse_text@.skip(i as int)),
        decreases n - i,
    {
        let ghost t = sse_text@.skip(i as int);
        let mut j: usize = i;
        while j < n && v[j] != '\n'
            invariant
                v@ == sse_text@,
                n == v@.len(),
                i <= j <= n,
                forall|k: int| i <= k < j ==> v@[k] != '\n',
            decreases n - j,
        {
            j = j + 1;
        }
        proof {
            lemma_line_end_at(t, j - i);
        }
        if j < n {
            let end = if j > i && v[j - 1] == '\r' {
                j - 1
            } else {
                j
            };
            assert(strip_cr(t.take(j - i)) =~= sse_text@.subrange(i as int, end as int));
            assert(t.skip(j - i + 1) =~= sse_text@.skip(j + 1));
            assert(text_lines(t) == seq![strip_cr(t.take(j - i))] + text_lines(t.skip(j - i + 1)));
            let found = line_data(sse_text, &v, i, end);
            let ghost lines = text_lines(t);
            assert(lines[0] == strip_cr(t.take(j - i)));
            assert(lines.drop_first() =~= text_lines(sse_text@.skip(j + 1)));
            match found {
                Some(d) => {
                    return Some(d);
                },
                None => {},
            }
            i = j + 1;
        } else {
            assert(t =~= sse_text@.subrange(i as int, n as int));
            let found = line_data(sse_text, &v, i, n);
            let ghost lines = text_lines(t);
            assert(lines == seq![t]);
            assert(lines.drop_first() =~= Seq::<Seq<char>>::empty());
            assert(first_data(lines.drop_first()) is None);
            return found;
        }
    }
    assert(sse_text@.skip(n as int) =~= Seq::<char>::empty());
    None
}

// ------------------------------------------------------------------
// Event framing
// ------------------------------------------------------------------

/// The text of one outgoing SSE event carrying the given JSON text.
pub open spec fn sse_frame(data: Seq<char>) -> Seq<char> {
    "event: response.done\ndata: "@ + data + "\n\n"@
}

/// Formats a Responses API event (given as its JSON text) as an SSE event.
pub fn format_sse_line(event_json: &str) -> (r: String)
    ensures
        r@ == sse_frame(event_json@),
{
    let mut out = "event: response.done\ndata: ".to_owned();
    out.append(event_json);
    out.append("\n\n");
    out
}

/// The position of the first blank line separator (`\n\n`) in `s`.
pub open spec fn is_first_separator(s: Seq<char>, pos: int) -> bool {
    &&& 0 <= pos && pos + 1 < s.len()
    &&& s[pos] == '\n' && s[pos + 1] == '\n'
    &&& forall|j: int| 0 <= j < pos ==> !(s[j] == '\n' && #[trigger] s[j + 1] == '\n')
}

/// Whether `s` holds a blank line separator.
pub open spec fn has_separator(s: Seq<char>) -> bool {
    exists|j: int| 0 <= j && j + 1 < s.len() && s[j] == '\n' && #[trigger] s[j + 1] == '\n'
}

/// Cuts the first complete event off a buffer of received text: the text
/// before the first `\n\n`, and the text after it.
pub fn split_sse_event(buffer: &str) -> (r: Option<(String, String)>)
    ensures
        match r {
            Some((event, rest)) => exists|pos: int|
                {
                    &&& is_first_separator(buffer@, pos)
                    &&& event@ == buffer@.take(pos)
                    &&& rest@ == #[trigger] buffer@.skip(pos + 2)
                },
            None => !has_separator(buffer@),
        },
{
    let v = chars_of(buffer);
    let n = v.len();
    let mut i: usize = 0;
    while n > 0 && i < n - 1
        invariant
            v@ == buffer@,
            n == v@.len(),
            i <= n,
            forall|j: int| 0 <= j < i ==> !(buffer@[j] == '\n' && #[trigger] buffer@[j + 1] == '\n'),
        decreases n - i,
    {
        if v[i] == '\n' && v[i + 1] == '\n' {
            let event = buffer.substring_char(0, i).to_owned();
            let rest = buffer.substring_char(i + 2, n).to_owned();
            assert(is_first_separator(buffer@, i as int));
            assert(buffer@.subrange(0, i as int) =~= buffer@.take(i as int));
            assert(buffer@.subrange(i + 2, n as int) =~= buffer@.skip(i + 2));
            return Some((event, rest));
        }
        i = i + 1;
    }
    None
}

/// What an upstream event asks of the stream.
pub enum SseAction {
    /// The upstream stream is over: send this final event and stop.
    Finish(Json),
    /// A chunk to convert: the JSON text of its data.
    Chunk(String),
}

/// The final event sent when the upstream stream reports `[DONE]`.
pub open spec fn done_event() -> JsonV {
    JsonV::Object(
        seq![
            ("type"@, JsonV::Str("response.completed"@)),
            ("response"@, JsonV::Object(seq![("status"@, JsonV::Str("completed"@))])),
        ],
    )
}

fn make_done_event() -> (r: Json)
    ensures
        r@ == done_event(),
{
    let mut response = new_fields();
    push_field(&mut response, "status", Json::from_str_slice("completed"));
    let ghost inner = field_models(response@);
    let mut f = new_fields();
    push_field(&mut f, "type", Json::from_str_slice("response.completed"));
    push_field(&mut f, "response", Json::Object(response));
    assert(inner =~= done_event()->Object_0[1].1->Object_0);
    assert(field_models(f@) =~= done_event()->Object_0);
    Json::Object(f)
}

/// Reads one upstream event: nothing where it carries no data, the end of
/// the stream where its data is `[DONE]`, otherwise a chunk to convert.
pub fn read_sse_event(event_text: &str) -> (r: Option<SseAction>)
    ensures
        match r {
            None => sse_data(event_text@) is None,
            Some(SseAction::Finish(e)) => sse_data(event_text@) == Some("[DONE]"@) && e@
                == done_event(),
            Some(SseAction::Chunk(data)) => sse_data(event_text@) == Some(data@) && data@
                != "[DONE]"@,
        },
{
    match parse_sse_data(event_text) {
        None => None,
        Some(data) => {
            if str_eq(data.as_str(), "[DONE]") {
                Some(SseAction::Finish(make_done_event()))
            } else {
                Some(SseAction::Chunk(data))
            }
        },
    }
}

/// The model of an action: the end of the stream, or the text of a chunk.
pub enum ActionV {
    Finish,
    Chunk(Seq<char>),
}

impl SseAction {
    pub open spec fn model(self) -> ActionV {
        match self {
            SseAction::Finish(_) => ActionV::Finish,
            SseAction::Chunk(data) => ActionV::Chunk(data@),
        }
    }
}

/// The models of a sequence of actions.
pub open spec fn action_models(actions: Seq<SseAction>) -> Seq<ActionV> {
    actions.map_values(|a: SseAction| a.model())
}

/// What an event asks of the stream: nothing where it carries no data, the
/// end where its data is `[DONE]`, otherwise a chunk.
pub open spec fn event_action(event: Seq<char>) -> Option<ActionV> {
    match sse_data(event) {
        None => None,
        Some(d) => if d == "[DONE]"@ {
            Some(ActionV::Finish)
        } else {
            Some(ActionV::Chunk(d))
        },
    }
}

/// The position of the first blank line separator in `s`, or -1 where it has none.
pub open spec fn first_separator(s: Seq<char>) -> int
    decreases s.len(),
{
    if s.len() < 2 {
        -1
    } else if s[0] == '\n' && s[1] == '\n' {
        0
    } else {
        let r = first_separator(s.drop_first());
        if r < 0 {
            -1
        } else {
            r + 1
        }
    }
}

/// `first_separator` finds the first separator, and finds none only where
/// there is none.
pub proof fn lemma_first_separator(s: Seq<char>)
    ensures
        first_separator(s) >= -1,
        first_separator(s) == -1 <==> !has_separator(s),
        first_separator(s) >= 0 ==> is_first_separator(s, first_separator(s)),
    decreases s.len(),
{
    if s.len() >= 2 && !(s[0] == '\n' && s[1] == '\n') {
        let t = s.drop_first();
        lemma_first_separator(t);
        if first_separator(t) >= 0 {
            let p = first_separator(t);
            assert forall|j: int| 0 <= j < p + 1 implies !(s[j] == '\n' && #[trigger] s[j + 1] == '\n') by {
                if j > 0 {
                    assert(s[j] == t[j - 1] && s[j + 1] == t[j]);
                    assert(!(t[j - 1] == '\n' && t[j - 1 + 1] == '\n'));
                }
            }
        } else {
            if has_separator(s) {
                let j = choose|j: int| 0 <= j && j + 1 < s.len() && s[j] == '\n' && #[trigger] s[j + 1] == '\n';
                assert(j > 0);
                assert(t[j - 1] == '\n' && t[j - 1 + 1] == '\n');
            }
        }
    } else if s.len() < 2 {
        assert(!has_separator(s));
    } else {
        assert(has_separator(s)) by {
            assert(s[0] == '\n' && s[0int + 1] == '\n');
        }
    }
}

/// There is at most one first separator.
proof fn lemma_first_separator_unique(s: Seq<char>, p: int, q: int)
    requires
        is_first_separator(s, p),
        is_first_separator(s, q),
    ensures
        p == q,
{
    if p < q {
        assert(!(s[p] == '\n' && s[p + 1] == '\n'));
    } else if q < p {
        assert(!(s[q] == '\n' && s[q + 1] == '\n'));
    }
}

/// The actions of the complete events at the start of `s`, in order, up to
/// and including the first end of the stream, and the text left after the
/// last event read.
pub open spec fn feed_result(s: Seq<char>) -> (Seq<ActionV>, Seq<char>)
    decreases s.len(),
{
    let p = first_separator(s);
    if p < 0 {
        (Seq::empty(), s)
    } else {
        proof {
            lemma_first_separator(s);
        }
        let rest = s.skip(p + 2);
        match event_action(s.take(p)) {
            None => feed_result(rest),
            Some(ActionV::Finish) => (seq![ActionV::Finish], rest),
            Some(a) => {
                let (actions, tail) = feed_result(rest);
                (seq![a] + actions, tail)
            },
        }
    }
}

/// Adds received text to the buffer and reads every complete event in it,
/// in order: returns the actions they ask for, stopping after the end of the
/// stream, and leaves in the buffer the text after the last event read.
pub fn feed(buffer: &mut String, received: &str) -> (actions: Vec<SseAction>)
    ensures
        action_models(actions@) == feed_result(old(buffer)@ + received@).0,
        final(buffer)@ == feed_result(old(buffer)@ + received@).1,
        forall|i: int|
            0 <= i < actions@.len() ==> (#[trigger] actions@[i] matches SseAction::Finish(e)
                ==> e@ == done_event()),
{
    let ghost all = buffer@ + received@;
    buffer.append(received);
    let mut actions: Vec<SseAction> = Vec::new();
    loop
        invariant
            all == old(buffer)@ + received@,
            feed_result(all).0 == action_models(actions@) + feed_result(
                buffer@,
            ).0,
            feed_result(all).1 == feed_result(buffer@).1,
            forall|i: int|
                0 <= i < actions@.len() ==> (#[trigger] actions@[i] matches SseAction::Finish(e)
                    ==> e@ == done_event()),
        decreases buffer@.len(),
    {
        let ghost current = buffer@;
        proof {
            lemma_first_separator(current);
        }
        match split_sse_event(buffer.as_str()) {
            None => {
                assert(feed_result(current).0 =~= Seq::<ActionV>::empty());
                assert(action_models(actions@) + feed_result(current).0
                    =~= action_models(actions@));
                return actions;
            },
            Some((event, rest)) => {
                let ghost p = choose|pos: int|
                    {
                        &&& is_first_separator(current, pos)
                        &&& event@ == current.take(pos)
                        &&& rest@ == #[trigger] current.skip(pos + 2)
                    };
                proof {
                    lemma_first_separator_unique(current, p, first_separator(current));
                }
                *buffer = rest;
                let ghost before = actions@;
                match read_sse_event(event.as_str()) {
                    None => {},
                    Some(action) => {
                        let finish = match &action {
                            SseAction::Finish(_) => true,
                            SseAction::Chunk(_) => false,
                        };
                        actions.push(action);
                        assert(action_models(actions@) =~= action_models(before).push(action.model()));
                        if finish {
                            assert(feed_result(current).0 =~= seq![ActionV::Finish]);
                            assert(feed_result(current).1 == buffer@);
                            return actions;
                        }
                    },
                }
            },
        }
    }
}

proof fn lemma_first_separator_concat(a: Seq<char>, b: Seq<char>)
    requires
        first_separator(a) >= 0,
    ensures
        first_separator(a + b) == first_separator(a),
{
    lemma_first_separator(a);
    let p = first_separator(a);
    let s = a + b;
    assert(s[p] == a[p] && s[p + 1] == a[p + 1]);
    assert forall|j: int| 0 <= j < p implies !(s[j] == '\n' && #[trigger] s[j + 1] == '\n') by {
        assert(s[j] == a[j] && s[j + 1] == a[j + 1]);
        assert(!(a[j] == '\n' && a[j + 1] == '\n'));
    }
    assert(is_first_separator(s, p));
    lemma_first_separator(s);
    assert(has_separator(s)) by {
        assert(s[p] == '\n' && s[p + 1] == '\n');
    }
    lemma_first_separator_unique(s, p, first_separator(s));
}

/// Received text may arrive in any pieces: feeding `a` and then, to the
/// tail it leaves, `b` reads the same events and leaves the same tail as
/// feeding `a + b` at once, unless the stream already ended within `a`.
pub proof fn law_feed_in_pieces(a: Seq<char>, b: Seq<char>)
    requires
        !feed_result(a).0.contains(ActionV::Finish),
    ensures
        feed_result(a).0 + feed_result(feed_result(a).1 + b).0 == feed_result(a + b).0,
        feed_result(feed_result(a).1 + b).1 == feed_result(a + b).1,
    decreases a.len(),
{
    lemma_first_separator(a);
    let p = first_separator(a);
    if p < 0 {
        assert(feed_result(a) == (Seq::<ActionV>::empty(), a));
        assert(Seq::<ActionV>::empty() + feed_result(a + b).0 =~= feed_result(a + b).0);
    } else {
        lemma_first_separator_concat(a, b);
        let ab = a + b;
        let rest = a.skip(p + 2);
        assert(ab.skip(p + 2) =~= rest + b);
        assert(ab.take(p) =~= a.take(p));
        match event_action(a.take(p)) {
            None => {
                assert(feed_result(a) == feed_result(rest));
                assert(feed_result(ab) == feed_result(rest + b));
                law_feed_in_pieces(rest, b);
            },
            Some(ActionV::Finish) => {
                assert(feed_result(a).0 == seq![ActionV::Finish]);
                assert(feed_result(a).0[0] == ActionV::Finish);
            },
            Some(x) => {
                let (acts, tail) = feed_result(rest);
                assert(feed_result(a) == (seq![x] + acts, tail));
                if acts.contains(ActionV::Finish) {
                    let i = choose|i: int| 0 <= i < acts.len() && acts[i] == ActionV::Finish;
                    assert((seq![x] + acts)[i + 1] == ActionV::Finish);
                }
                law_feed_in_pieces(rest, b);
                assert(feed_result(ab) == (
                    seq![x] + feed_result(rest + b).0,
                    feed_result(rest + b).1,
                ));
                assert(seq![x] + acts + feed_result(tail + b).0 =~= seq![x] + (acts + feed_result(
                    tail + b,
                ).0));
            },
        }
    }
}

/// The text that `String::from_utf8_lossy` makes of `bytes`.
pub uninterp spec fn lossy_utf8(bytes: Seq<u8>) -> Seq<char>;

/// `String::from_utf8_lossy`, made owned: the bytes decoded as UTF-8, each
/// invalid sequence replaced by U+FFFD. The contract names the result and
/// states what the documentation gives plainly: valid UTF-8 is decoded as
/// it is. How invalid sequences are replaced is not stated.
#[verifier::external_body]
fn decode_lossy(bytes: &[u8]) -> (r: String)
    ensures
        r@ == lossy_utf8(bytes@),
        vstd::utf8::valid_utf8(bytes@) ==> r@ == vstd::utf8::decode_utf8(bytes@),
{
    String::from_utf8_lossy(bytes).into_owned()
}

/// Adds a piece of the byte stream to the buffer, decoded on its own as
/// UTF-8 (invalid sequences, a character cut across pieces among them,
/// become U+FFFD), and reads every complete event as `feed` does.
pub fn feed_bytes(buffer: &mut String, received: &[u8]) -> (actions: Vec<SseAction>)
    ensures
        action_models(actions@) == feed_result(old(buffer)@ + lossy_utf8(received@)).0,
        final(buffer)@ == feed_result(old(buffer)@ + lossy_utf8(received@)).1,
        vstd::utf8::valid_utf8(received@) ==> action_models(actions@) == feed_result(
            old(buffer)@ + vstd::utf8::decode_utf8(received@),
        ).0,
        forall|i: int|
            0 <= i < actions@.len() ==> (#[trigger] actions@[i] matches SseAction::Finish(e)
                ==> e@ == done_event()),
{
    let text = decode_lossy(received);
    feed(buffer, text.as_str())
}

// ------------------------------------------------------------------
// Laws of the event stream
// ------------------------------------------------------------------

/// The framing of outgoing events is read back by the event parser: the
/// data of a framed event is the text it frames, for any text that has no
/// line feed and neither starts nor ends with white space (as compact JSON).
#[verifier::spinoff_prover]
#[verifier::rlimit(40)]
pub proof fn law_frame_read_back(d: Seq<char>)
    requires
        d.len() > 0,
        forall|i: int| 0 <= i < d.len() ==> d[i] != '\n',
        !is_white(d[0]),
        !is_white(d.last()),
    ensures
        sse_data(sse_frame(d)) == Some(d),
{
    reveal_strlit("event: response.done\ndata: ");
    reveal_strlit("\n\n");
    reveal_strlit("data: ");
    let head = "event: response.done\ndata: "@;
    let f = sse_frame(d);
    assert(head.len() == 27);
    assert(f.len() == 27 + d.len() + 2);
    // the first line
    assert forall|j: int| 0 <= j < 20 implies f[j] != '\n' by {
        assert(f[j] == head[j]);
    }
    assert(f[20] == '\n');
    lemma_line_end_at(f, 20);
    let line0 = strip_cr(f.take(20));
    assert(f.take(20)[19] == 'e');
    assert(line0 == f.take(20));
    assert(line0.take(6)[0] == 'e');
    assert("data: "@[0] == 'd');
    assert(data_of_line(line0) is None);
    // the second line
    let n = d.len() as int;
    let r = f.skip(21);
    assert(r =~= "data: "@ + d + "\n\n"@);
    assert forall|j: int| 0 <= j < 6 + n implies r[j] != '\n' by {
        if j >= 6 {
            assert(r[j] == d[j - 6]);
        }
    }
    assert(r[6 + n] == '\n');
    lemma_line_end_at(r, 6 + n);
    assert(r.take(6 + n) =~= "data: "@ + d);
    assert(r.take(6 + n).last() == d.last());
    let line1 = strip_cr(r.take(6 + n));
    assert(line1 == "data: "@ + d);
    assert(line1.take(6) =~= "data: "@);
    assert(line1.skip(6) =~= d);
    lemma_trim_start_at(d, 0);
    assert(d.skip(0) =~= d);
    lemma_trim_end_at(d, d.len() as int);
    assert(d.take(d.len() as int) =~= d);
    assert(trim_white(d) == d);
    assert(data_of_line(line1) == Some(d));
    // the lines of the frame begin with these two
    let lines = text_lines(f);
    assert(lines == seq![line0] + text_lines(r));
    assert(text_lines(r) == seq![line1] + text_lines(r.skip(7 + n)));
    assert(lines[0] == line0);
    assert(lines.drop_first() =~= text_lines(r));
    assert(text_lines(r)[0] == line1);
    assert(first_data(text_lines(r)) == Some(d));
    assert(first_data(lines) == first_data(lines.drop_first()));
}

/// Cutting an event off the buffer loses nothing: the event, the blank line
/// separator and the rest make up the buffer again.
pub proof fn law_split_loses_nothing(buffer: Seq<char>, pos: int)
    requires
        is_first_separator(buffer, pos),
    ensures
        buffer.take(pos) + "\n\n"@ + buffer.skip(pos + 2) == buffer,
{
    reveal_strlit("\n\n");
    assert(buffer.take(pos) + "\n\n"@ + buffer.skip(pos + 2) =~= buffer);
}

// ------------------------------------------------------------------
// Request handling decisions
// ------------------------------------------------------------------

/// The model that a Responses request names (`deepseek-chat` where it names none).
pub fn requested_model(body: &Json) -> (r: String)
    ensures
        r@ == body@.at("model"@).str_or("deepseek-chat"@),
{
    let null_value = Json::Null;
    body.at("model", &null_value).str_or("deepseek-chat").to_owned()
}

/// Whether a chat request asks for a streamed reply (it does unless its
/// `stream` member is `false`, or is a boolean at all).
pub fn is_stream_request(chat_request: &Json) -> (r: bool)
    ensures
        r == match chat_request@.at("stream"@).as_bool() {
            Some(b) => b,
            None => true,
        },
{
    let null_value = Json::Null;
    match chat_request.at("stream", &null_value).as_bool() {
        Some(b) => b,
        None => true,
    }
}

/// Whether the upstream request needs the DashScope SSE header: for a
/// streamed request to an upstream whose URL mentions `dashscope`.
pub fn needs_dashscope_sse_header(upstream_url: &str, is_stream: bool) -> (r: bool)
    ensures
        r == (occurs_in(upstream_url@, "dashscope"@) && is_stream),
{
    contains_str(upstream_url, "dashscope") && is_stream
}

/// The value of the upstream `Authorization` header.
pub fn bearer_authorization(api_key: &str) -> (r: String)
    ensures
        r@ == "Bearer "@ + api_key@,
{
    let mut out = "Bearer ".to_owned();
    out.append(api_key);
    out
}

/// The error body the bridge answers with.
pub open spec fn bridge_error(message: Seq<char>) -> JsonV {
    JsonV::Object(
        seq![
            (
                "error"@,
                JsonV::Object(
                    seq![("message"@, JsonV::Str(message)), ("type"@, JsonV::Str("bridge_error"@))],
                ),
            ),
        ],
    )
}

/// The error body the bridge answers with, for a message.
pub fn bridge_error_body(message: &str) -> (r: Json)
    ensures
        r@ == bridge_error(message@),
{
    let mut inner = new_fields();
    push_field(&mut inner, "message", Json::from_str_slice(message));
    push_field(&mut inner, "type", Json::from_str_slice("bridge_error"));
    let ghost inner_model = field_models(inner@);
    let mut f = new_fields();
    push_field(&mut f, "error", Json::Object(inner));
    assert(inner_model =~= bridge_error(message@)->Object_0[0].1->Object_0);
    assert(field_models(f@) =~= bridge_error(message@)->Object_0);
    Json::Object(f)
}

} // verus!
