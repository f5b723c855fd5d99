//! Assembly of one streamed model response: the provider's events, once
//! decoded from their JSON, are folded into the text, the tool calls and
//! the usage of a finished call.

use vstd::prelude::*;

use crate::driver::live::{
    classify_stream_error, opt_text, stream_message, stream_verdict, AttemptFailure, FailureClass,
};
use crate::engine::{ModelOutcome, ProposedToolCall, Usage};
use crate::protocol::error::ErrorCode;
use crate::text::concat;
use vstd::string::StrSliceExecFns;

verus! {

/// The text `serde_json` gives back for JSON text it parsed into a value
/// and encoded again, or `None` when either step fails.
pub uninterp spec fn json_reencoded(text: Seq<char>) -> Option<Seq<char>>;

/// What re-encoding JSON text gave.
enum JsonText {
    Text(String),
    Malformed(String),
    Unencodable(String),
}

/// Parses JSON text into a `serde_json::Value` with `serde_json::from_str`
/// and encodes that value again with `serde_json::to_string`.
///
/// Claimed: the result is the encoded text exactly when both calls
/// succeed, and that text is a function of the input alone. Which of the
/// two failures occurred, and the wording of either, is not described.
#[verifier::external_body]
fn reencode_json(text: &str) -> (r: JsonText)
    ensures
        r is Text <==> json_reencoded(text@) is Some,
        r matches JsonText::Text(s) ==> json_reencoded(text@) == Some(s@),
{
    match serde_json::from_str::<serde_json::Value>(text) {
        Err(e) => JsonText::Malformed(e.to_string()),
        Ok(v) => match serde_json::to_string(&v) {
            Ok(s) => JsonText::Text(s),
            Err(e) => JsonText::Unencodable(e.to_string()),
        },
    }
}

/// The block a `content_block_start` event opens.
#[derive(Debug, PartialEq, Eq)]
pub enum OpenedBlock {
    /// A text block, with its initial text when it carries one.
    Text { text: Option<String> },
    /// A tool call: its name when present, and its initial input as JSON
    /// text (`{}` when the event carries none).
    ToolUse { name: Option<String>, input_json: String },
    /// A block of any other type.
    Other,
}

/// The body of a `content_block_delta` event.
#[derive(Debug, PartialEq, Eq)]
pub enum DeltaBody {
    /// More assistant text.
    Text { text: Option<String> },
    /// More of a tool call's input, as a fragment of JSON text.
    InputJson { partial_json: Option<String> },
    /// A delta of any other type.
    Other,
}

/// One provider event, with the fields the assembly reads.
#[derive(Debug, PartialEq, Eq)]
pub enum StreamEvent {
    /// `message_start`, with `message.usage.input_tokens` when it is an
    /// unsigned integer.
    MessageStart { input_tokens: Option<u64> },
    /// `content_block_start`.
    BlockStart { index: Option<u64>, block: Option<OpenedBlock> },
    /// `content_block_delta`.
    BlockDelta { index: Option<u64>, delta: Option<DeltaBody> },
    /// `content_block_stop`.
    BlockStop { index: Option<u64> },
    /// `message_stop`.
    MessageStop,
    /// `error`, with `error.type` and `error.message` when they are strings.
    Error { error_type: Option<String>, message: Option<String> },
    /// An event of any other type, or none.
    Other,
}

/// A tool call whose block is still open.
pub struct ToolModel {
    pub name: Seq<char>,
    pub input: Seq<char>,
    pub partial: Seq<char>,
}

/// The state of an assembly.
pub struct StreamModel {
    pub saw_start: bool,
    pub saw_stop: bool,
    pub text: Seq<char>,
    pub prompt_tokens: Option<u64>,
    /// Open tool blocks, by content-block index.
    pub open: Seq<(u64, ToolModel)>,
    /// Finished tool calls `(index, name, arguments)`, by content-block index.
    pub calls: Seq<(u64, Seq<char>, Seq<char>)>,
}

/// No two open blocks share an index, and finished calls are in strictly
/// increasing index order.
pub open spec fn well_formed(m: StreamModel) -> bool {
    &&& forall|i: int, j: int|
        0 <= i < j < m.open.len() ==> #[trigger] m.open[i].0 != #[trigger] m.open[j].0
    &&& forall|i: int, j: int|
        0 <= i < j < m.calls.len() ==> #[trigger] m.calls[i].0 < #[trigger] m.calls[j].0
}

/// The first position at or after `i` whose key is `k`, or the length.
pub open spec fn key_from<T>(s: Seq<(u64, T)>, k: u64, i: int) -> int
    decreases s.len() - i,
{
    if i >= s.len() {
        s.len() as int
    } else if s[i].0 == k {
        i
    } else {
        key_from(s, k, i + 1)
    }
}

/// Bounds of the key search.
pub proof fn lemma_key_from<T>(s: Seq<(u64, T)>, k: u64, i: int)
    requires
        0 <= i <= s.len(),
    ensures
        i <= key_from(s, k, i) <= s.len(),
        key_from(s, k, i) < s.len() ==> s[key_from(s, k, i)].0 == k,
        forall|j: int| i <= j < key_from(s, k, i) ==> s[j].0 != k,
    decreases s.len() - i,
{
    if i < s.len() && s[i].0 != k {
        lemma_key_from(s, k, i + 1);
    }
}

/// The finished calls with one more: it takes its place by index and
/// replaces a call with the same index.
pub open spec fn with_call(s: Seq<(u64, Seq<char>, Seq<char>)>, k: u64, name: Seq<char>, args: Seq<
    char,
>) -> Seq<(u64, Seq<char>, Seq<char>)>
    decreases s.len(),
{
    if s.len() == 0 {
        seq![(k, name, args)]
    } else if s[0].0 == k {
        seq![(k, name, args)] + s.skip(1)
    } else if s[0].0 > k {
        seq![(k, name, args)] + s
    } else {
        seq![s[0]] + with_call(s.skip(1), k, name, args)
    }
}

/// The text an optional string adds.
pub open spec fn opt_chars(s: Option<String>) -> Seq<char> {
    match s {
        Some(t) => t@,
        None => Seq::empty(),
    }
}

/// The view of an optional string.
pub open spec fn opt_string(s: Option<String>) -> Option<Seq<char>> {
    match s {
        Some(t) => Some(t@),
        None => None,
    }
}

fn borrow_text(s: &Option<String>) -> (r: Option<&str>)
    ensures
        opt_text(r) == opt_string(*s),
{
    match s {
        Some(t) => Some(t.as_str()),
        None => None,
    }
}

/// Why an event ends the assembly.
pub enum StreamFault {
    /// A field the event needs is missing or names nothing open; the
    /// transport failure carries this message.
    Missing(Seq<char>),
    /// A tool call's streamed input is not JSON.
    BadToolInput,
    /// The provider reported an error: its type and message.
    Provider(Option<Seq<char>>, Option<Seq<char>>),
}

/// The effect of one event.
pub open spec fn accept_event(m: StreamModel, e: StreamEvent) -> Result<StreamModel, StreamFault> {
    match e {
        StreamEvent::MessageStart { input_tokens } => Ok(
            StreamModel { saw_start: true, prompt_tokens: input_tokens, ..m },
        ),
        StreamEvent::BlockStart { index, block } => match index {
            None => Err(StreamFault::Missing("content_block_start omitted its index"@)),
            Some(k) => match block {
                None => Err(StreamFault::Missing("content_block_start omitted its content block"@)),
                Some(OpenedBlock::Text { text }) => Ok(
                    StreamModel { text: m.text + opt_chars(text), ..m },
                ),
                Some(OpenedBlock::ToolUse { name, input_json }) => match name {
                    None => Err(StreamFault::Missing("tool_use block omitted its name"@)),
                    Some(n) => if key_from(m.open, k, 0) < m.open.len() {
                        Err(StreamFault::Missing("duplicate tool_use content-block index"@))
                    } else {
                        Ok(
                            StreamModel {
                                open: m.open.push(
                                    (k, ToolModel { name: n@, input: input_json@, partial: Seq::empty() }),
                                ),
                                ..m
                            },
                        )
                    },
                },
                Some(OpenedBlock::Other) => Ok(m),
            },
        },
        StreamEvent::BlockDelta { index, delta } => match delta {
            None => Err(StreamFault::Missing("content_block_delta omitted its delta"@)),
            Some(DeltaBody::Text { text }) => Ok(StreamModel { text: m.text + opt_chars(text), ..m }),
            Some(DeltaBody::InputJson { partial_json }) => match index {
                None => Err(StreamFault::Missing("tool delta omitted its index"@)),
                Some(k) => {
                    let p = key_from(m.open, k, 0);
                    if p >= m.open.len() {
                        Err(StreamFault::Missing("tool delta named an unopened content block"@))
                    } else {
                        let t = m.open[p].1;
                        Ok(
                            StreamModel {
                                open: m.open.update(
                                    p,
                                    (
                                        k,
                                        ToolModel {
                                            partial: t.partial + opt_chars(partial_json),
                                            ..t
                                        },
                                    ),
                                ),
                                ..m
                            },
                        )
                    }
                },
            },
            Some(DeltaBody::Other) => Ok(m),
        },
        StreamEvent::BlockStop { index } => match index {
            None => Err(StreamFault::Missing("content_block_stop omitted its index"@)),
            Some(k) => {
                let p = key_from(m.open, k, 0);
                if p >= m.open.len() {
                    Ok(m)
                } else {
                    let t = m.open[p].1;
                    let args = if t.partial.len() == 0 {
                        Some(t.input)
                    } else {
                        json_reencoded(t.partial)
                    };
                    match args {
                        None => Err(StreamFault::BadToolInput),
                        Some(a) => Ok(
                            StreamModel {
                                open: m.open.remove(p),
                                calls: with_call(m.calls, k, t.name, a),
                                ..m
                            },
                        ),
                    }
                }
            },
        },
        StreamEvent::MessageStop => Ok(StreamModel { saw_stop: true, ..m }),
        StreamEvent::Error { error_type, message } => Err(
            StreamFault::Provider(opt_string(error_type), opt_string(message)),
        ),
        StreamEvent::Other => Ok(m),
    }
}

/// A failed attempt that reports `f`.
pub open spec fn reports(a: AttemptFailure, f: StreamFault) -> bool {
    match f {
        StreamFault::Missing(msg) => {
            &&& a.code == ErrorCode::ModelTransport
            &&& a.class == FailureClass::Retryable
            &&& a.message@ == msg
            &&& a.retry_after is None
        },
        StreamFault::BadToolInput => {
            &&& a.code == ErrorCode::ModelTransport
            &&& a.class == FailureClass::Retryable
            &&& a.retry_after is None
        },
        StreamFault::Provider(t, msg) => {
            &&& (a.code, a.class) == stream_verdict(t, stream_message(msg))
            &&& a.message@ == stream_message(msg)
            &&& a.retry_after is None
        },
    }
}

/// The message of an assembly that ended too early.
pub open spec fn incomplete_message() -> Seq<char> {
    "model SSE ended before a complete message_stop sequence"@
}

/// Whether the stream delivered a whole message.
pub open spec fn complete(m: StreamModel) -> bool {
    m.saw_start && m.saw_stop && m.open.len() == 0
}

struct OpenTool {
    name: String,
    input_json: String,
    partial_json: String,
}

impl OpenTool {
    spec fn model(self) -> ToolModel {
        ToolModel { name: self.name@, input: self.input_json@, partial: self.partial_json@ }
    }
}

/// The assembly of one streamed response.
pub struct StreamState {
    saw_start: bool,
    saw_stop: bool,
    text: String,
    prompt_tokens: Option<u64>,
    open_tools: Vec<(u64, OpenTool)>,
    tool_calls: Vec<(u64, ProposedToolCall)>,
}

spec fn open_view(v: Seq<(u64, OpenTool)>) -> Seq<(u64, ToolModel)> {
    v.map_values(|p: (u64, OpenTool)| (p.0, p.1.model()))
}

spec fn calls_view(v: Seq<(u64, ProposedToolCall)>) -> Seq<(u64, Seq<char>, Seq<char>)> {
    v.map_values(|p: (u64, ProposedToolCall)| (p.0, p.1.name@, p.1.args_json@))
}

impl StreamState {
    /// The state this assembly stands for.
    pub closed spec fn view(&self) -> StreamModel {
        StreamModel {
            saw_start: self.saw_start,
            saw_stop: self.saw_stop,
            text: self.text@,
            prompt_tokens: self.prompt_tokens,
            open: open_view(self.open_tools@),
            calls: calls_view(self.tool_calls@),
        }
    }

    /// An assembly that has seen nothing.
    pub fn new() -> (r: Self)
        ensures
            !r@.saw_start,
            !r@.saw_stop,
            r@.text == Seq::<char>::empty(),
            r@.prompt_tokens is None,
            r@.open == Seq::<(u64, ToolModel)>::empty(),
            r@.calls == Seq::<(u64, Seq<char>, Seq<char>)>::empty(),
            well_formed(r@),
    {
        let r = StreamState {
            saw_start: false,
            saw_stop: false,
            text: String::new(),
            prompt_tokens: None,
            open_tools: Vec::new(),
            tool_calls: Vec::new(),
        };
        assert(r@.open =~= Seq::<(u64, ToolModel)>::empty());
        assert(r@.calls =~= Seq::<(u64, Seq<char>, Seq<char>)>::empty());
        r
    }

    fn open_index(&self, k: u64) -> (r: usize)
        ensures
            r == key_from(self@.open, k, 0),
    {
        let ghost o = self@.open;
        let mut i: usize = 0;
        while i < self.open_tools.len()
            invariant
                i <= self.open_tools@.len(),
                o == open_view(self.open_tools@),
                key_from(o, k, i as int) == key_from(o, k, 0),
            ensures
                i <= self.open_tools@.len(),
                i as int == key_from(o, k, 0),
            decreases self.open_tools@.len() - i,
        {
            if self.open_tools[i].0 == k {
                break;
            }
            i = i + 1;
        }
        i
    }

    /// Folds one event into the assembly.
    pub fn accept(&mut self, event: StreamEvent) -> (r: Result<(), AttemptFailure>)
        requires
            well_formed(old(self)@),
        ensures
            match accept_event(old(self)@, event) {
                Ok(m) => r is Ok && final(self)@ == m,
                Err(f) => r matches Err(a) && reports(a, f),
            },
            r is Ok ==> well_formed(final(self)@),
    {
        match event {
            StreamEvent::MessageStart { input_tokens } => {
                self.saw_start = true;
                self.prompt_tokens = input_tokens;
                Ok(())
            },
            StreamEvent::BlockStart { index, block } => {
                let k = match index {
                    None => {
                        return Err(AttemptFailure::transport("content_block_start omitted its index"));
                    },
                    Some(k) => k,
                };
                match block {
                    None => Err(
                        AttemptFailure::transport("content_block_start omitted its content block"),
                    ),
                    Some(OpenedBlock::Text { text }) => {
                        if let Some(t) = text {
                            self.text.append(t.as_str());
                        }
                        Ok(())
                    },
                    Some(OpenedBlock::ToolUse { name, input_json }) => {
                        let n = match name {
                            None => {
                                return Err(
                                    AttemptFailure::transport("tool_use block omitted its name"),
                                );
                            },
                            Some(n) => n,
                        };
                        let p = self.open_index(k);
                        if p < self.open_tools.len() {
                            return Err(
                                AttemptFailure::transport("duplicate tool_use content-block index"),
                            );
                        }
                        proof {
                            lemma_key_from(self@.open, k, 0);
                        }
                        let ghost before = self.open_tools@;
                        self.open_tools.push(
                            (k, OpenTool { name: n, input_json, partial_json: String::new() }),
                        );
                        proof {
                            assert(open_view(self.open_tools@) =~= open_view(before).push(
                                (k, ToolModel { name: n@, input: input_json@, partial: Seq::empty() }),
                            ));
                        }
                        Ok(())
                    },
                    Some(OpenedBlock::Other) => Ok(()),
                }
            },
            StreamEvent::BlockDelta { index, delta } => {
                match delta {
                    None => Err(AttemptFailure::transport("content_block_delta omitted its delta")),
                    Some(DeltaBody::Text { text }) => {
                        if let Some(t) = text {
                            self.text.append(t.as_str());
                        }
                        Ok(())
                    },
                    Some(DeltaBody::InputJson { partial_json }) => {
                        let k = match index {
                            None => {
                                return Err(AttemptFailure::transport("tool delta omitted its index"));
                            },
                            Some(k) => k,
                        };
                        let p = self.open_index(k);
                        if p >= self.open_tools.len() {
                            return Err(
                                AttemptFailure::transport(
                                    "tool delta named an unopened content block",
                                ),
                            );
                        }
                        proof {
                            lemma_key_from(self@.open, k, 0);
                        }
                        let ghost before = self.open_tools@;
                        let mut entry = self.open_tools.remove(p);
                        if let Some(frag) = partial_json {
                            entry.1.partial_json.append(frag.as_str());
                        }
                        self.open_tools.insert(p, entry);
                        proof {
                            assert(self.open_tools@ =~= before.update(p as int, entry));
                            assert(open_view(self.open_tools@) =~= open_view(before).update(
                                p as int,
                                (entry.0, entry.1.model()),
                            ));
                        }
                        Ok(())
                    },
                    Some(DeltaBody::Other) => Ok(()),
                }
            },
            StreamEvent::BlockStop { index } => {
                let k = match index {
                    None => {
                        return Err(AttemptFailure::transport("content_block_stop omitted its index"));
                    },
                    Some(k) => k,
                };
                self.close_block(k)
            },
            StreamEvent::MessageStop => {
                self.saw_stop = true;
                Ok(())
            },
            StreamEvent::Error { error_type, message } => Err(
                classify_stream_error(borrow_text(&error_type), borrow_text(&message)),
            ),
            StreamEvent::Other => Ok(()),
        }
    }

    fn close_block(&mut self, k: u64) -> (r: Result<(), AttemptFailure>)
        requires
            well_formed(old(self)@),
        ensures
            match accept_event(old(self)@, StreamEvent::BlockStop { index: Some(k) }) {
                Ok(m) => r is Ok && final(self)@ == m,
                Err(f) => r matches Err(a) && reports(a, f),
            },
            r is Ok ==> well_formed(final(self)@),
    {
        let p = self.open_index(k);
        if p >= self.open_tools.len() {
            return Ok(());
        }
        proof {
            lemma_key_from(self@.open, k, 0);
        }
        let ghost before = self.open_tools@;
        let ghost m = self@;
        let (_, tool) = self.open_tools.remove(p);
        let args = if tool.partial_json.as_str().unicode_len() == 0 {
            tool.input_json
        } else {
            match reencode_json(tool.partial_json.as_str()) {
                JsonText::Text(s) => s,
                JsonText::Malformed(e) => {
                    return Err(
                        AttemptFailure::transport(
                            concat("malformed streamed tool input: ", e.as_str()).as_str(),
                        ),
                    );
                },
                JsonText::Unencodable(e) => {
                    return Err(
                        AttemptFailure::transport(
                            concat("could not preserve streamed tool input: ", e.as_str()).as_str(),
                        ),
                    );
                },
            }
        };
        proof {
            assert(open_view(self.open_tools@) =~= open_view(before).remove(p as int));
            assert(tool.model() == m.open[p as int].1);
        }
        self.insert_call(k, ProposedToolCall { name: tool.name, args_json: args });
        Ok(())
    }

    fn insert_call(&mut self, k: u64, call: ProposedToolCall)
        requires
            well_formed(old(self)@),
        ensures
            final(self)@ == (StreamModel {
                calls: with_call(old(self)@.calls, k, call.name@, call.args_json@),
                ..old(self)@
            }),
            well_formed(final(self)@),
    {
        let ghost c = self@.calls;
        let mut i: usize = 0;
        while i < self.tool_calls.len()
            invariant
                i <= self.tool_calls@.len(),
                c == calls_view(self.tool_calls@),
                forall|j: int| 0 <= j < i ==> #[trigger] c[j].0 < k,
            ensures
                i <= self.tool_calls@.len(),
                forall|j: int| 0 <= j < i ==> #[trigger] c[j].0 < k,
                i < self.tool_calls@.len() ==> c[i as int].0 >= k,
            decreases self.tool_calls@.len() - i,
        {
            if self.tool_calls[i].0 >= k {
                break;
            }
            i = i + 1;
        }
        let ghost entry = (k, call.name@, call.args_json@);
        if i < self.tool_calls.len() && self.tool_calls[i].0 == k {
            self.tool_calls.set(i, (k, call));
            proof {
                assert(calls_view(self.tool_calls@) =~= c.update(i as int, entry));
                lemma_with_call_at(c, k, call.name@, call.args_json@, i as int);
            }
        } else {
            self.tool_calls.insert(i, (k, call));
            proof {
                assert(calls_view(self.tool_calls@) =~= c.insert(i as int, entry));
                lemma_with_call_at(c, k, call.name@, call.args_json@, i as int);
            }
        }
    }

    /// Ends the assembly: the outcome when the message was complete.
    pub fn finish(self, prompt_bytes: usize) -> (r: Result<ModelOutcome, AttemptFailure>)
        ensures
            !complete(self@) ==> (r matches Err(a) && reports(
                a,
                StreamFault::Missing(incomplete_message()),
            )),
            complete(self@) ==> (r matches Ok(o) && {
                &&& o.text@ == self@.text
                &&& o.tool_calls@.map_values(|c: ProposedToolCall| (c.name@, c.args_json@))
                    == self@.calls.map_values(|c: (u64, Seq<char>, Seq<char>)| (c.1, c.2))
                &&& o.usage == match self@.prompt_tokens {
                    Some(t) => Some(Usage { prompt_tokens: t, prompt_bytes: prompt_bytes as u64 }),
                    None => None,
                }
            }),
    {
        if !self.saw_start || !self.saw_stop || self.open_tools.len() > 0 {
            return Err(
                AttemptFailure::transport("model SSE ended before a complete message_stop sequence"),
            );
        }
        let ghost c = self@.calls;
        let mut calls: Vec<ProposedToolCall> = Vec::new();
        let mut i: usize = 0;
        while i < self.tool_calls.len()
            invariant
                i <= self.tool_calls@.len(),
                c == calls_view(self.tool_calls@),
                calls@.len() == i,
                calls@.map_values(|p: ProposedToolCall| (p.name@, p.args_json@)) == c.take(
                    i as int,
                ).map_values(|p: (u64, Seq<char>, Seq<char>)| (p.1, p.2)),
            decreases self.tool_calls@.len() - i,
        {
            let call = self.tool_calls[i].1.clone();
            let ghost prev = calls@;
            calls.push(call);
            proof {
                assert(call == self.tool_calls@[i as int].1);
                assert(c[i as int] == (self.tool_calls@[i as int].0, call.name@, call.args_json@));
                assert(c.take(i + 1) =~= c.take(i as int).push(c[i as int]));
                assert(calls@ =~= prev.push(call));
                let f = |p: ProposedToolCall| (p.name@, p.args_json@);
                let g = |p: (u64, Seq<char>, Seq<char>)| (p.1, p.2);
                assert forall|j: int| 0 <= j < i + 1 implies #[trigger] calls@.map_values(f)[j]
                    == c.take(i + 1).map_values(g)[j] by {
                    if j < i {
                        assert(calls@[j] == prev[j]);
                        assert(prev.map_values(f)[j] == c.take(i as int).map_values(g)[j]);
                    }
                }
                assert(calls@.map_values(|p: ProposedToolCall| (p.name@, p.args_json@)) =~= c.take(
                    i + 1,
                ).map_values(|p: (u64, Seq<char>, Seq<char>)| (p.1, p.2)));
            }
            i = i + 1;
        }
        proof {
            assert(c.take(i as int) =~= c);
        }
        let usage = match self.prompt_tokens {
            Some(t) => Some(Usage { prompt_tokens: t, prompt_bytes: prompt_bytes as u64 }),
            None => None,
        };
        Ok(ModelOutcome { text: self.text, tool_calls: calls, usage })
    }
}

/// At the first position whose index is not below `k`, `with_call`
/// replaces a call with index `k` or inserts the new one before the rest,
/// and the calls stay in strictly increasing index order.
proof fn lemma_with_call_at(
    s: Seq<(u64, Seq<char>, Seq<char>)>,
    k: u64,
    name: Seq<char>,
    args: Seq<char>,
    p: int,
)
    requires
        0 <= p <= s.len(),
        forall|j: int| 0 <= j < p ==> #[trigger] s[j].0 < k,
        p < s.len() ==> s[p].0 >= k,
        forall|i: int, j: int| 0 <= i < j < s.len() ==> #[trigger] s[i].0 < #[trigger] s[j].0,
    ensures
        with_call(s, k, name, args) == if p < s.len() && s[p].0 == k {
            s.update(p, (k, name, args))
        } else {
            s.insert(p, (k, name, args))
        },
        forall|i: int, j: int|
            0 <= i < j < with_call(s, k, name, args).len() ==> #[trigger] with_call(
                s,
                k,
                name,
                args,
            )[i].0 < #[trigger] with_call(s, k, name, args)[j].0,
{
    lemma_with_call_shape(s, k, name, args, p);
    let w = with_call(s, k, name, args);
    assert forall|i: int, j: int| 0 <= i < j < w.len() implies #[trigger] w[i].0
        < #[trigger] w[j].0 by {
        if p < s.len() && s[p].0 == k {
            assert(w[i].0 == s[i].0 && w[j].0 == s[j].0);
        } else {
            if j < p {
                assert(w[i] == s[i] && w[j] == s[j]);
            } else if j == p {
                assert(w[i] == s[i]);
            } else if i < p {
                assert(w[i] == s[i] && w[j] == s[j - 1]);
            } else if i == p {
                assert(w[j] == s[j - 1]);
                if j - 1 > p {
                    assert(s[p].0 < s[j - 1].0);
                }
            } else {
                assert(w[i] == s[i - 1] && w[j] == s[j - 1]);
            }
        }
    }
}

proof fn lemma_with_call_shape(
    s: Seq<(u64, Seq<char>, Seq<char>)>,
    k: u64,
    name: Seq<char>,
    args: Seq<char>,
    p: int,
)
    requires
        0 <= p <= s.len(),
        forall|j: int| 0 <= j < p ==> #[trigger] s[j].0 < k,
        p < s.len() ==> s[p].0 >= k,
    ensures
        with_call(s, k, name, args) == if p < s.len() && s[p].0 == k {
            s.update(p, (k, name, args))
        } else {
            s.insert(p, (k, name, args))
        },
    decreases s.len(),
{
    let w = with_call(s, k, name, args);
    if s.len() == 0 {
        assert(w =~= s.insert(p, (k, name, args)));
    } else if p == 0 {
        if s[0].0 == k {
            assert(w =~= s.update(0, (k, name, args)));
        } else {
            assert(w =~= s.insert(0, (k, name, args)));
        }
    } else {
        let t = s.skip(1);
        assert forall|j: int| 0 <= j < p - 1 implies #[trigger] t[j].0 < k by {
            assert(t[j] == s[j + 1]);
        }
        lemma_with_call_shape(t, k, name, args, p - 1);
        assert(s[0].0 < k);
        if p < s.len() && s[p].0 == k {
            assert(w =~= s.update(p, (k, name, args)));
        } else {
            assert(w =~= s.insert(p, (k, name, args)));
        }
    }
}

} // verus!
