//! The chat protocol: request messages, stream events, and the decoding of
//! the server-sent event stream of an OpenAI-compatible `chat/completions`.
use vstd::prelude::*;

use crate::json::{
    as_text, get_index, get_key, json_parse, opt_key, opt_text, spec_json_parse, JsonValue,
};
use crate::util::{
    chars_of, is_prefix, slice_of, starts_with_at, string_of, trim, trim_range, truncate_by_width,
    truncated, push_all,
};

verus! {

/// A request message: role and content only.
#[derive(Debug)]
pub struct ChatMessage {
    pub role: String,
    pub content: String,
}

impl ChatMessage {
    /// A message with the given role and content.
    pub fn new(role: &str, content: String) -> (r: ChatMessage)
        ensures
            r.role@ == role@,
            r.content == content,
    {
        ChatMessage { role: string_of(chars_of(role).as_slice()), content }
    }
}

/// An event of a streamed reply.
#[derive(Debug, PartialEq)]
pub enum LlmEvent {
    /// A piece of the reply.
    Delta { text: String },
    /// A piece of the reasoning (`reasoning_content`).
    Reasoning { text: String },
    /// The reply is complete.
    Done,
    /// The request failed (network, HTTP or protocol).
    Failed { error: String },
}

/// The content of an event.
pub enum EventView {
    Delta(Seq<char>),
    Reasoning(Seq<char>),
    Done,
    Failed(Seq<char>),
}

impl View for LlmEvent {
    type V = EventView;

    open spec fn view(&self) -> EventView {
        match self {
            LlmEvent::Delta { text } => EventView::Delta(text@),
            LlmEvent::Reasoning { text } => EventView::Reasoning(text@),
            LlmEvent::Done => EventView::Done,
            LlmEvent::Failed { error } => EventView::Failed(error@),
        }
    }
}

/// What one data chunk of the stream carries.
#[derive(Debug, Default, PartialEq)]
pub struct StreamDelta {
    pub content: Option<String>,
    pub reasoning: Option<String>,
}

/// A non-empty text, or nothing.
pub open spec fn non_empty(t: Option<Seq<char>>) -> Option<Seq<char>> {
    match t {
        Some(s) if s.len() > 0 => Some(s),
        _ => None,
    }
}

/// The text of an optional string.
pub open spec fn opt_view(s: Option<String>) -> Option<Seq<char>> {
    match s {
        Some(x) => Some(x@),
        None => None,
    }
}

/// The delta of a chunk: `choices[0].delta`, when present.
pub open spec fn chunk_delta(v: JsonValue) -> Option<JsonValue> {
    opt_key(
        match get_key(v, "choices"@) {
            Some(c) => get_index(c, 0),
            None => None,
        },
        "delta"@,
    )
}

/// The content and reasoning of a delta object: non-empty `content`, and
/// non-empty `reasoning_content` (or `reasoning` when that is not a string).
pub open spec fn delta_parts(d: JsonValue) -> (Option<Seq<char>>, Option<Seq<char>>) {
    let c = non_empty(opt_text(get_key(d, "content"@)));
    let r = match opt_text(get_key(d, "reasoning_content"@)) {
        Some(t) => Some(t),
        None => opt_text(get_key(d, "reasoning"@)),
    };
    (c, non_empty(r))
}

/// The result of `chunk_from_json`.
pub open spec fn chunk_of(v: JsonValue) -> Option<(Option<Seq<char>>, Option<Seq<char>>)> {
    match chunk_delta(v) {
        Some(d) => Some(delta_parts(d)),
        None => None,
    }
}

/// The error message of a reply body: `error.message`, else `message`.
pub open spec fn error_of(v: JsonValue) -> Option<Seq<char>> {
    match opt_text(opt_key(get_key(v, "error"@), "message"@)) {
        Some(m) => Some(m),
        None => opt_text(get_key(v, "message"@)),
    }
}

/// A non-empty text as an owned string.
fn non_empty_string(s: Option<&str>) -> (r: Option<String>)
    ensures
        opt_view(r) == non_empty(
            match s {
                Some(x) => Some(x@),
                None => None,
            },
        ),
{
    match s {
        Some(x) => {
            let cs = chars_of(x);
            if cs.len() == 0 {
                None
            } else {
                Some(string_of(cs.as_slice()))
            }
        },
        None => None,
    }
}

/// The stream delta of a parsed chunk; `None` when it has no `choices[0].delta`.
pub fn chunk_from_json(v: &JsonValue) -> (r: Option<StreamDelta>)
    ensures
        match chunk_of(*v) {
            Some((c, re)) => r matches Some(d) && opt_view(d.content) == c && opt_view(d.reasoning)
                == re,
            None => r is None,
        },
{
    let choices = match v.get("choices") {
        Some(c) => c,
        None => return None,
    };
    let first = match choices.at(0) {
        Some(f) => f,
        None => return None,
    };
    let delta = match first.get("delta") {
        Some(d) => d,
        None => return None,
    };
    let content = match delta.get("content") {
        Some(c) => non_empty_string(c.as_str()),
        None => None,
    };
    let rc = match delta.get("reasoning_content") {
        Some(x) => x.as_str(),
        None => None,
    };
    let r = match rc {
        Some(t) => Some(t),
        None => match delta.get("reasoning") {
            Some(x) => x.as_str(),
            None => None,
        },
    };
    let reasoning = non_empty_string(r);
    Some(StreamDelta { content, reasoning })
}

/// The error message of a parsed reply body.
pub fn error_from_json(v: &JsonValue) -> (r: Option<String>)
    ensures
        opt_view(r) == error_of(*v),
{
    let inner = match v.get("error") {
        Some(e) => match e.get("message") {
            Some(m) => m.as_str(),
            None => None,
        },
        None => None,
    };
    let m = match inner {
        Some(t) => Some(t),
        None => match v.get("message") {
            Some(m) => m.as_str(),
            None => None,
        },
    };
    match m {
        Some(t) => Some(string_of(chars_of(t).as_slice())),
        None => None,
    }
}

/// The result of `parse_chunk`.
pub open spec fn chunk_of_text(json: Seq<char>) -> Option<(Option<Seq<char>>, Option<Seq<char>>)> {
    match spec_json_parse(json) {
        Ok(v) => chunk_of(v),
        Err(_) => None,
    }
}

/// The result of `parse_error`.
pub open spec fn error_of_text(json: Seq<char>) -> Option<Seq<char>> {
    match spec_json_parse(json) {
        Ok(v) => error_of(v),
        Err(_) => None,
    }
}

/// Parses a stream chunk (the JSON after `data:`). `None` when it is not
/// JSON or carries no delta (such as the first, role-only chunk of some
/// providers).
pub fn parse_chunk(json: &str) -> (r: Option<StreamDelta>)
    ensures
        match chunk_of_text(json@) {
            Some((c, re)) => r matches Some(d) && opt_view(d.content) == c && opt_view(d.reasoning)
                == re,
            None => r is None,
        },
{
    match json_parse(json) {
        Ok(v) => chunk_from_json(&v),
        Err(_) => None,
    }
}

/// The error message of a reply body (`{"error":{"message":...}}` or `{"message":...}`).
pub fn parse_error(json: &str) -> (r: Option<String>)
    ensures
        opt_view(r) == error_of_text(json@),
{
    match json_parse(json) {
        Ok(v) => error_from_json(&v),
        Err(_) => None,
    }
}

/// The payload of a server-sent event line: the trimmed text after `data:`.
pub open spec fn sse_payload(line: Seq<char>) -> Option<Seq<char>> {
    let t = trim(line);
    if is_prefix("data:"@, t) {
        Some(trim(t.skip("data:"@.len() as int)))
    } else {
        None
    }
}

/// The payload of a `data:` line (trimmed); `None` for any other line.
pub fn sse_data_line(line: &str) -> (r: Option<&str>)
    ensures
        match sse_payload(line@) {
            Some(p) => r matches Some(s) && s@ == p,
            None => r is None,
        },
{
    let cs = chars_of(line);
    let (a, b) = trim_range(cs.as_slice(), 0, cs.len());
    assert(cs@.subrange(0, cs@.len() as int) =~= cs@);
    let pre = chars_of("data:");
    let t = slice_of(cs.as_slice(), a, b);
    assert(t@.skip(0) =~= t@);
    if !starts_with_at(t.as_slice(), 0, pre.as_slice()) {
        return None;
    }
    let (c, d) = trim_range(cs.as_slice(), a + pre.len(), b);
    proof {
        assert(cs@.subrange(a + pre@.len(), b as int) =~= t@.skip(pre@.len() as int));
    }
    Some(line.substring_char(c, d))
}

/// The messages of a request: the system prompt first (when not blank),
/// then the history.
pub open spec fn request_messages(system: Option<Seq<char>>, history: Seq<(Seq<char>, Seq<char>)>) -> Seq<
    (Seq<char>, Seq<char>),
> {
    match system {
        Some(s) if trim(s).len() > 0 => seq![("system"@, s)] + history,
        _ => history,
    }
}

/// The address of an API endpoint: the base address without its trailing
/// slashes, a slash, and the endpoint's path (`chat/completions`, `models`).
pub open spec fn endpoint(base_url: Seq<char>, path: Seq<char>) -> Seq<char> {
    crate::config::strip_trailing_slashes(base_url) + seq!['/'] + path
}

/// The address of an API endpoint under `base_url`.
pub fn api_url(base_url: &str, path: &str) -> (r: String)
    ensures
        r@ == endpoint(base_url@, path@),
{
    let v = chars_of(base_url);
    let mut e = v.len();
    assert(v@.take(v@.len() as int) =~= v@);
    while e > 0 && v[e - 1] == '/'
        invariant
            0 <= e <= v@.len(),
            crate::config::strip_trailing_slashes(v@) == crate::config::strip_trailing_slashes(v@.take(e as int)),
        decreases e,
    {
        assert(v@.take(e as int).drop_last() =~= v@.take(e - 1));
        e = e - 1;
    }
    proof {
        if e > 0 {
            assert(v@.take(e as int).last() == v@[e - 1]);
        }
        assert(v@.subrange(0, e as int) =~= v@.take(e as int));
    }
    let mut out = slice_of(v.as_slice(), 0, e);
    out.push('/');
    push_all(&mut out, chars_of(path).as_slice());
    string_of(out.as_slice())
}

/// The value of the `Authorization` header of a request: `Bearer ` and the key.
pub fn auth_header(api_key: &str) -> (r: String)
    ensures
        r@ == "Bearer "@ + api_key@,
{
    let mut out = chars_of("Bearer ");
    push_all(&mut out, chars_of(api_key).as_slice());
    string_of(out.as_slice())
}

/// The body of a chat request, `{model, messages, stream}` and nothing else.
pub struct ChatRequest {
    pub model: String,
    pub messages: Vec<ChatMessage>,
    pub stream: bool,
}

/// The chat request for `model`: the messages of `build_request_messages`,
/// and the reply streamed.
pub fn chat_request(model: &str, system: Option<String>, history: &Vec<ChatMessage>) -> (r: ChatRequest)
    ensures
        r.model@ == model@,
        r.messages@.map_values(|m: ChatMessage| message_view(m)) == request_messages(
            opt_view(system),
            history@.map_values(|m: ChatMessage| message_view(m)),
        ),
        r.stream,
{
    let messages = build_request_messages(system, history);
    ChatRequest { model: string_of(chars_of(model).as_slice()), messages, stream: true }
}

/// The role and content of a message.
pub open spec fn message_view(m: ChatMessage) -> (Seq<char>, Seq<char>) {
    (m.role@, m.content@)
}

/// The messages sent for a reply: `{model, messages, stream}` carries these.
pub fn build_request_messages(system: Option<String>, history: &Vec<ChatMessage>) -> (r: Vec<ChatMessage>)
    ensures
        r@.map_values(|m: ChatMessage| message_view(m)) == request_messages(
            opt_view(system),
            history@.map_values(|m: ChatMessage| message_view(m)),
        ),
{
    let mut out: Vec<ChatMessage> = Vec::new();
    let ghost sys = opt_view(system);
    if let Some(s) = system {
        let cs = chars_of(s.as_str());
        let (a, b) = trim_range(cs.as_slice(), 0, cs.len());
        assert(cs@.subrange(0, cs@.len() as int) =~= cs@);
        if a < b {
            out.push(ChatMessage::new("system", s));
        }
    }
    let ghost start = out@.map_values(|m: ChatMessage| message_view(m));
    let ghost h = history@.map_values(|m: ChatMessage| message_view(m));
    let mut i: usize = 0;
    while i < history.len()
        invariant
            0 <= i <= history@.len(),
            h == history@.map_values(|m: ChatMessage| message_view(m)),
            out@.map_values(|m: ChatMessage| message_view(m)) == start + h.take(i as int),
        decreases history@.len() - i,
    {
        let m = &history[i];
        let ghost before = out@.map_values(|m: ChatMessage| message_view(m));
        out.push(ChatMessage { role: m.role.clone(), content: m.content.clone() });
        proof {
            assert(out@.map_values(|m: ChatMessage| message_view(m)) =~= before.push(h[i as int]));
            assert(h.take(i + 1) =~= h.take(i as int).push(h[i as int]));
        }
        i = i + 1;
    }
    assert(h.take(h.len() as int) =~= h);
    proof {
        if let Some(s) = sys {
            if trim(s).len() > 0 {
                assert(start =~= seq![("system"@, s)]);
            } else {
                assert(start =~= Seq::<(Seq<char>, Seq<char>)>::empty());
            }
        } else {
            assert(start =~= Seq::<(Seq<char>, Seq<char>)>::empty());
        }
    }
    out
}


// ---------------------------------------------------------------------------
// Stream decoding
// ---------------------------------------------------------------------------

/// What `String::from_utf8_lossy` gives for bytes.
pub uninterp spec fn spec_utf8_lossy(b: Seq<u8>) -> Seq<char>;

/// `String::from_utf8_lossy`: decodes bytes, invalid sequences becoming
/// U+FFFD; valid UTF-8 decodes to its characters, as std documents.
#[verifier::external_body]
fn utf8_lossy(b: &[u8]) -> (r: String)
    ensures
        r@ == spec_utf8_lossy(b@),
        vstd::utf8::valid_utf8(b@) ==> r@ == vstd::utf8::decode_utf8(b@),
{
    String::from_utf8_lossy(b).into_owned()
}

/// Number of trailing `c` characters of `s`.
pub open spec fn trail_count(s: Seq<char>, c: char) -> nat
    decreases s.len(),
{
    if s.len() > 0 && s.last() == c {
        1 + trail_count(s.drop_last(), c)
    } else {
        0
    }
}

/// What one line of the stream does.
pub enum LineOutcome {
    /// Nothing (not a data line, or a chunk without content).
    Skip,
    /// These events, and the reply has content.
    Emit(Seq<EventView>),
    /// This event, and the stream ends.
    Stop(EventView),
}

/// The outcome of the data payload of a line.
pub open spec fn payload_outcome(d: Seq<char>) -> LineOutcome {
    if d == "[DONE]"@ {
        LineOutcome::Stop(EventView::Done)
    } else {
        match chunk_of_text(d) {
            Some((c, r)) => if c is Some || r is Some {
                let a = match c {
                    Some(t) => seq![EventView::Delta(t)],
                    None => Seq::empty(),
                };
                let b = match r {
                    Some(t) => seq![EventView::Reasoning(t)],
                    None => Seq::empty(),
                };
                LineOutcome::Emit(a + b)
            } else {
                LineOutcome::Skip
            },
            None => match error_of_text(d) {
                Some(e) => LineOutcome::Stop(EventView::Failed(e)),
                None => LineOutcome::Skip,
            },
        }
    }
}

/// The outcome of a line of the stream, given as bytes with its `\n`.
pub open spec fn line_outcome(line: Seq<u8>) -> LineOutcome {
    let text = spec_utf8_lossy(line);
    let text = text.take(text.len() - trail_count(text, '\r'));
    match sse_payload(text) {
        Some(d) => payload_outcome(d),
        None => LineOutcome::Skip,
    }
}

/// Index of the first `\n` byte of `b`.
pub open spec fn first_newline(b: Seq<u8>) -> Option<int>
    decreases b.len(),
{
    if b.len() == 0 {
        None
    } else if b[0] == 10u8 {
        Some(0)
    } else {
        match first_newline(b.drop_first()) {
            Some(i) => Some(i + 1),
            None => None,
        }
    }
}

proof fn lemma_first_newline(b: Seq<u8>)
    ensures
        first_newline(b) matches Some(i) ==> 0 <= i < b.len() && b[i] == 10u8 && forall|j: int|
            0 <= j < i ==> b[j] != 10u8,
        first_newline(b) is None ==> forall|j: int| 0 <= j < b.len() ==> b[j] != 10u8,
    decreases b.len(),
{
    if b.len() > 0 && b[0] != 10u8 {
        lemma_first_newline(b.drop_first());
        assert forall|j: int| 1 <= j < b.len() implies b[j] == b.drop_first()[j - 1] by {}
    }
}

/// The complete lines of `buf` run through, in order: the events they give,
/// what is left of `buf`, whether the reply has content, and whether the
/// stream ended.
pub open spec fn drain_lines(buf: Seq<u8>, got: bool) -> (Seq<EventView>, Seq<u8>, bool, bool)
    decreases buf.len(),
{
    match first_newline(buf) {
        None => (Seq::empty(), buf, got, false),
        Some(nl) => {
            let rest = buf.skip(nl + 1);
            if 0 <= nl < buf.len() {
                match line_outcome(buf.take(nl + 1)) {
                    LineOutcome::Skip => drain_lines(rest, got),
                    LineOutcome::Emit(evs) => {
                        let (e2, b2, g2, s2) = drain_lines(rest, true);
                        (evs + e2, b2, g2, s2)
                    },
                    LineOutcome::Stop(ev) => (seq![ev], rest, got, true),
                }
            } else {
                (Seq::empty(), buf, got, false)
            }
        },
    }
}

proof fn lemma_first_newline_append(s: Seq<u8>, t: Seq<u8>)
    ensures
        first_newline(s) matches Some(i) ==> first_newline(s + t) == Some(i),
        first_newline(s) is None ==> match first_newline(t) {
            Some(j) => first_newline(s + t) == Some(s.len() + j),
            None => first_newline(s + t) is None,
        },
    decreases s.len(),
{
    if s.len() == 0 {
        assert(s + t =~= t);
    } else {
        assert((s + t).drop_first() =~= s.drop_first() + t);
        assert((s + t)[0] == s[0]);
        lemma_first_newline_append(s.drop_first(), t);
    }
}

/// Bytes that arrive in two pieces give the events of the bytes at once:
/// those of the lines the first piece completes, then those of the lines
/// completed with the second; once a line has ended the stream, later bytes
/// are only kept as they came.
pub proof fn lemma_drain_split(s: Seq<u8>, t: Seq<u8>, got: bool)
    ensures
        ({
            let (e1, b1, g1, stop1) = drain_lines(s, got);
            if stop1 {
                drain_lines(s + t, got) == (e1, b1 + t, g1, true)
            } else {
                let (e2, b2, g2, stop2) = drain_lines(b1 + t, g1);
                drain_lines(s + t, got) == (e1 + e2, b2, g2, stop2)
            }
        }),
    decreases s.len(),
{
    lemma_first_newline_append(s, t);
    lemma_first_newline(s);
    match first_newline(s) {
        None => {
            let (e2, b2, g2, stop2) = drain_lines(s + t, got);
            assert(Seq::<EventView>::empty() + e2 =~= e2);
        },
        Some(nl) => {
            let st = s + t;
            assert(st.take(nl + 1) =~= s.take(nl + 1));
            assert(st.skip(nl + 1) =~= s.skip(nl + 1) + t);
            let rest = s.skip(nl + 1);
            match line_outcome(s.take(nl + 1)) {
                LineOutcome::Skip => {
                    lemma_drain_split(rest, t, got);
                },
                LineOutcome::Emit(evs) => {
                    lemma_drain_split(rest, t, true);
                    let (e1, b1, g1, stop1) = drain_lines(rest, true);
                    if !stop1 {
                        let (e2, b2, g2, stop2) = drain_lines(b1 + t, g1);
                        assert(evs + e1 + e2 =~= evs + (e1 + e2));
                    }
                },
                LineOutcome::Stop(ev) => {},
            }
        },
    }
}

/// The events of a list.
pub open spec fn events_view(v: Seq<LlmEvent>) -> Seq<EventView> {
    v.map_values(|e: LlmEvent| e@)
}

/// The outcome of one line, as events; `None` for a line that does nothing.
fn decode_line(line: &[u8]) -> (r: Option<(Vec<LlmEvent>, bool)>)
    ensures
        match line_outcome(line@) {
            LineOutcome::Skip => r is None,
            LineOutcome::Emit(evs) => r matches Some((v, stop)) && !stop && events_view(v@) == evs,
            LineOutcome::Stop(ev) => r matches Some((v, stop)) && stop && events_view(v@) == seq![ev],
        },
{
    let text = utf8_lossy(line);
    let cs = chars_of(text.as_str());
    let mut e = cs.len();
    assert(cs@.take(cs@.len() as int) =~= cs@);
    while e > 0 && cs[e - 1] == '\r'
        invariant
            0 <= e <= cs@.len(),
            cs@.len() - trail_count(cs@, '\r') == e - trail_count(cs@.take(e as int), '\r'),
        decreases e,
    {
        assert(cs@.take(e as int).drop_last() =~= cs@.take(e - 1));
        e = e - 1;
    }
    proof {
        if e > 0 {
            assert(cs@.take(e as int).last() == cs@[e - 1]);
        }
        assert(cs@.take(cs@.len() - trail_count(cs@, '\r')) =~= cs@.take(e as int));
        assert(cs@.subrange(0, e as int) =~= cs@.take(e as int));
    }
    let t = string_of(slice_of(cs.as_slice(), 0, e).as_slice());
    let data = match sse_data_line(t.as_str()) {
        Some(d) => d,
        None => return None,
    };
    if crate::util::str_eq(data, "[DONE]") {
        return Some((vec![LlmEvent::Done], true));
    }
    match parse_chunk(data) {
        Some(d) => {
            if d.content.is_none() && d.reasoning.is_none() {
                return None;
            }
            let mut out: Vec<LlmEvent> = Vec::new();
            if let Some(c) = d.content {
                out.push(LlmEvent::Delta { text: c });
            }
            if let Some(r) = d.reasoning {
                out.push(LlmEvent::Reasoning { text: r });
            }
            proof {
                let (c, r) = chunk_of_text(data@)->0;
                let a = match c {
                    Some(t) => seq![EventView::Delta(t)],
                    None => Seq::empty(),
                };
                let b = match r {
                    Some(t) => seq![EventView::Reasoning(t)],
                    None => Seq::empty(),
                };
                assert(events_view(out@) =~= a + b);
            }
            Some((out, false))
        },
        None => match parse_error(data) {
            Some(err) => {
                let v = vec![LlmEvent::Failed { error: err }];
                assert(events_view(v@) =~= seq![v@[0]@]);
                Some((v, true))
            },
            None => None,
        },
    }
}

/// The decoder of an event stream: the bytes of an unfinished line, and
/// whether the reply has had content.
pub struct SseDecoder {
    buf: Vec<u8>,
    got_any: bool,
}

impl SseDecoder {
    /// The bytes of the unfinished line.
    pub closed spec fn pending(&self) -> Seq<u8> {
        self.buf@
    }

    /// Whether the reply has had content.
    pub closed spec fn has_content(&self) -> bool {
        self.got_any
    }

    /// A decoder at the start of a stream.
    pub fn new() -> (d: SseDecoder)
        ensures
            d.pending() == Seq::<u8>::empty(),
            !d.has_content(),
    {
        SseDecoder { buf: Vec::new(), got_any: false }
    }

    /// Feeds received bytes; returns the events of the lines they complete,
    /// and whether the stream has ended (`[DONE]` or an error payload).
    pub fn feed(&mut self, bytes: &[u8]) -> (r: (Vec<LlmEvent>, bool))
        ensures
            ({
                let (evs, b, g, stop) = drain_lines(old(self).pending() + bytes@, old(self).has_content());
                &&& events_view(r.0@) == evs
                &&& r.1 == stop
                &&& final(self).pending() == b
                &&& final(self).has_content() == g
            }),
    {
        let mut i: usize = 0;
        let ghost start = self.buf@;
        while i < bytes.len()
            invariant
                0 <= i <= bytes@.len(),
                self.buf@ == start + bytes@.take(i as int),
                start == old(self).buf@,
                self.got_any == old(self).got_any,
            decreases bytes@.len() - i,
        {
            self.buf.push(bytes[i]);
            i = i + 1;
            assert(self.buf@ =~= start + bytes@.take(i as int));
        }
        assert(bytes@.take(bytes@.len() as int) =~= bytes@);
        let ghost all = self.buf@;
        let ghost got0 = self.got_any;
        assert(all == old(self).pending() + bytes@);
        let mut out: Vec<LlmEvent> = Vec::new();
        loop
            invariant
                all == old(self).pending() + bytes@,
                got0 == old(self).has_content(),
                ({
                    let (evs, b, g, stop) = drain_lines(all, got0);
                    let (e2, b2, g2, s2) = drain_lines(self.buf@, self.got_any);
                    &&& evs == events_view(out@) + e2
                    &&& b == b2
                    &&& g == g2
                    &&& stop == s2
                }),
            decreases self.buf@.len(),
        {
            let n = self.buf.len();
            let mut nl: usize = 0;
            while nl < n && self.buf[nl] != 10u8
                invariant
                    n == self.buf@.len(),
                    0 <= nl <= n,
                    forall|j: int| 0 <= j < nl ==> self.buf@[j] != 10u8,
                decreases n - nl,
            {
                nl = nl + 1;
            }
            proof {
                lemma_first_newline(self.buf@);
            }
            if nl == n {
                assert(first_newline(self.buf@) is None) by {
                    if let Some(k) = first_newline(self.buf@) {
                        assert(self.buf@[k] == 10u8);
                    }
                }
                return (out, false);
            }
            assert(first_newline(self.buf@) == Some(nl as int)) by {
                if let Some(k) = first_newline(self.buf@) {
                    if k < nl {
                        assert(self.buf@[k] != 10u8);
                    }
                    if k > nl {
                        assert(self.buf@[nl as int] == 10u8);
                    }
                }
            }
            let mut line: Vec<u8> = Vec::new();
            let mut rest: Vec<u8> = Vec::new();
            let mut j: usize = 0;
            while j < n
                invariant
                    n == self.buf@.len(),
                    nl < n,
                    0 <= j <= n,
                    line@ == self.buf@.take(if j <= nl { j as int } else { nl + 1 }),
                    rest@ == if j <= nl + 1 { Seq::<u8>::empty() } else { self.buf@.subrange(nl + 1, j as int) },
                decreases n - j,
            {
                if j <= nl {
                    line.push(self.buf[j]);
                } else {
                    rest.push(self.buf[j]);
                }
                j = j + 1;
                assert(line@ =~= self.buf@.take(if j <= nl { j as int } else { nl + 1 }));
                assert(rest@ =~= if j <= nl + 1 { Seq::<u8>::empty() } else { self.buf@.subrange(nl + 1, j as int) });
            }
            proof {
                if n == nl + 1 {
                    assert(rest@ =~= self.buf@.skip(nl + 1));
                } else {
                    assert(rest@ =~= self.buf@.skip(nl + 1));
                }
            }
            let ghost got_before = self.got_any;
            let ghost buf_before = self.buf@;
            self.buf = rest;
            match decode_line(line.as_slice()) {
                None => {},
                Some((evs, stop)) => {
                    let ghost before = out@;
                    let mut k: usize = 0;
                    while k < evs.len()
                        invariant
                            0 <= k <= evs@.len(),
                            events_view(out@) == events_view(before) + events_view(evs@).take(k as int),
                        decreases evs@.len() - k,
                    {
                        let ghost o = out@;
                        let ev = match &evs[k] {
                            LlmEvent::Delta { text } => LlmEvent::Delta { text: text.clone() },
                            LlmEvent::Reasoning { text } => LlmEvent::Reasoning { text: text.clone() },
                            LlmEvent::Done => LlmEvent::Done,
                            LlmEvent::Failed { error } => LlmEvent::Failed { error: error.clone() },
                        };
                        out.push(ev);
                        proof {
                            assert(events_view(out@) =~= events_view(o).push(evs@[k as int]@));
                            assert(events_view(evs@).take(k + 1) =~= events_view(evs@).take(k as int).push(evs@[k as int]@));
                        }
                        k = k + 1;
                    }
                    assert(events_view(evs@).take(evs@.len() as int) =~= events_view(evs@));
                    if stop {
                        return (out, true);
                    }
                    self.got_any = true;
                },
            }
            proof {
                let _ = got_before;
                let _ = buf_before;
            }
        }
    }

    /// The event for a stream that ended without `[DONE]`: done when the reply
    /// had content, else a failure.
    pub fn finish(&self) -> (e: LlmEvent)
        ensures
            self.has_content() ==> e@ == EventView::Done,
            !self.has_content() ==> e@ == EventView::Failed("流意外结束：未收到任何内容"@),
    {
        if self.got_any {
            LlmEvent::Done
        } else {
            LlmEvent::Failed { error: string_of(chars_of("流意外结束：未收到任何内容").as_slice()) }
        }
    }

    /// The event for a transport error `err` in the middle of the stream.
    pub fn broken(&self, err: &str) -> (e: LlmEvent)
        ensures
            self.has_content() ==> e@ == EventView::Failed("连接中断（已保留部分内容）: "@ + err@),
            !self.has_content() ==> e@ == EventView::Failed("连接中断: "@ + err@),
    {
        let mut m = if self.got_any {
            chars_of("连接中断（已保留部分内容）: ")
        } else {
            chars_of("连接中断: ")
        };
        push_all(&mut m, chars_of(err).as_slice());
        LlmEvent::Failed { error: string_of(m.as_slice()) }
    }
}

/// The message of a failed HTTP reply.
pub open spec fn http_failure_message(status: Seq<char>, body: Seq<char>) -> Seq<char> {
    let detail = match error_of_text(body) {
        Some(m) => m,
        None => truncated(trim(body), 300),
    };
    "HTTP "@ + status + ": "@ + detail
}

/// The event for a reply with a failure status: the error message of the
/// body, else the start of the trimmed body.
pub fn http_failure(status: &str, body: &str) -> (e: LlmEvent)
    ensures
        e@ == EventView::Failed(http_failure_message(status@, body@)),
{
    let detail = match parse_error(body) {
        Some(m) => m,
        None => {
            let t = crate::util::trim_string(body);
            truncate_by_width(t.as_str(), 300)
        },
    };
    let mut m = chars_of("HTTP ");
    push_all(&mut m, chars_of(status).as_slice());
    push_all(&mut m, chars_of(": ").as_slice());
    push_all(&mut m, chars_of(detail.as_str()).as_slice());
    LlmEvent::Failed { error: string_of(m.as_slice()) }
}

} // verus!
