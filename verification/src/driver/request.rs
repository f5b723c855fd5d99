//! Lowering of an assembled window into the provider's message request:
//! the system text, a leading user message, and the verbatim tail as
//! role-tagged content blocks, consecutive blocks of one role sharing a
//! message.

use vstd::prelude::*;

use crate::driver::live::wire_tool_id;
use crate::text::{concat, decimal, decimal_string, starts_with_text, string_of};
use crate::window::{TailItem, WindowLayout};
use vstd::string::StrSliceExecFns;

verus! {

/// Whether `serde_json` parses the text into a JSON object.
pub uninterp spec fn json_object(text: Seq<char>) -> bool;

/// Parses the text with `serde_json::from_str` into a `serde_json::Value`
/// and asks `Value::is_object` of it.
///
/// Claimed: the answer is a function of the text alone; false when the
/// text does not parse.
#[verifier::external_body]
fn is_json_object(text: &str) -> (r: bool)
    ensures
        r == json_object(text@),
{
    serde_json::from_str::<serde_json::Value>(text).map_or(false, |v| v.is_object())
}

/// Who speaks a message.
#[derive(Clone, Copy, Debug, PartialEq, Eq, Structural)]
pub enum Role {
    User,
    Assistant,
}

/// One content block of a message.
#[derive(Debug, PartialEq, Eq)]
pub enum ContentBlock {
    /// Plain text.
    Text { text: String },
    /// A tool call the model made: its wire identity, its name, and its
    /// input, JSON text that parses as an object.
    ToolUse { id: String, name: String, input_json: String },
    /// The result of a tool call.
    ToolResult { tool_use_id: String, content: String },
}

/// The characters a content block holds.
pub enum BlockView {
    Text(Seq<char>),
    ToolUse(Seq<char>, Seq<char>, Seq<char>),
    ToolResult(Seq<char>, Seq<char>),
}

impl ContentBlock {
    pub open spec fn view(&self) -> BlockView {
        match self {
            ContentBlock::Text { text } => BlockView::Text(text@),
            ContentBlock::ToolUse { id, name, input_json } => BlockView::ToolUse(
                id@,
                name@,
                input_json@,
            ),
            ContentBlock::ToolResult { tool_use_id, content } => BlockView::ToolResult(
                tool_use_id@,
                content@,
            ),
        }
    }
}

/// One message of the request.
#[derive(Debug, PartialEq, Eq)]
pub struct RequestMessage {
    pub role: Role,
    pub content: Vec<ContentBlock>,
}

/// The provider request a window lowers to.
#[derive(Debug, PartialEq, Eq)]
pub struct ModelRequest {
    /// Provider model identifier.
    pub model: String,
    /// Maximum output tokens requested.
    pub max_tokens: u32,
    /// The system text.
    pub system: String,
    /// The conversation, alternating roles.
    pub messages: Vec<RequestMessage>,
}

/// The parts joined by a blank line, empty parts left out.
pub open spec fn join_nonempty(parts: Seq<Seq<char>>) -> Seq<char>
    decreases parts.len(),
{
    if parts.len() == 0 {
        Seq::empty()
    } else {
        let prev = join_nonempty(parts.drop_last());
        let p = parts.last();
        if p.len() == 0 {
            prev
        } else if prev.len() == 0 {
            p
        } else {
            prev + "\n\n"@ + p
        }
    }
}

/// The parts joined by a blank line.
pub open spec fn join_all(parts: Seq<Seq<char>>) -> Seq<char>
    decreases parts.len(),
{
    if parts.len() == 0 {
        Seq::empty()
    } else if parts.len() == 1 {
        parts[0]
    } else {
        join_all(parts.drop_last()) + "\n\n"@ + parts.last()
    }
}

/// The system text: the system prompt, the rules reminder and every
/// reminder, the empty ones left out.
pub open spec fn system_text(w: WindowLayout) -> Seq<char> {
    join_nonempty(seq![w.system@, w.rules_reminder@] + w.reminders@.map_values(|r: String| r@))
}

/// The leading user text: the user information and the summary, each
/// labelled and only when present, then the last user query.
pub open spec fn leading_text(w: WindowLayout) -> Seq<char> {
    let info: Seq<Seq<char>> = if w.user_info@.len() > 0 {
        seq!["[user_info]\n"@ + w.user_info@]
    } else {
        Seq::empty()
    };
    let summary: Seq<Seq<char>> = if w.summary@.len() > 0 {
        seq!["[summary]\n"@ + w.summary@]
    } else {
        Seq::empty()
    };
    join_all(info + summary + seq![w.last_user_query@])
}

/// The first space in `s` at or after `p`, or the length.
pub open spec fn space_from(s: Seq<char>, p: int) -> int
    decreases s.len() - p,
{
    if p >= s.len() {
        s.len() as int
    } else if s[p] == ' ' {
        p
    } else {
        space_from(s, p + 1)
    }
}

proof fn lemma_space_from(s: Seq<char>, p: int)
    requires
        0 <= p <= s.len(),
    ensures
        p <= space_from(s, p) <= s.len(),
        space_from(s, p) < s.len() ==> s[space_from(s, p)] == ' ',
    decreases s.len() - p,
{
    if p < s.len() && s[p] != ' ' {
        lemma_space_from(s, p + 1);
    }
}

/// Whether `s` begins with `p`.
pub open spec fn has_prefix(s: Seq<char>, p: Seq<char>) -> bool {
    p.len() <= s.len() && s.take(p.len() as int) == p
}

/// The role and block one tail item lowers to. A message is the user's
/// or the assistant's by its `[user] ` or `[assistant] ` prefix, which is
/// dropped, and the assistant's without one; a rendered tool call
/// `name {json}` with a non-empty name and an object for input becomes a
/// tool use, any other rendering stays text.
pub open spec fn tail_block(item: TailItem) -> (Role, BlockView) {
    match item {
        TailItem::Message(m) => {
            let t = m@;
            if has_prefix(t, "[user] "@) {
                (Role::User, BlockView::Text(t.skip(7)))
            } else if has_prefix(t, "[assistant] "@) {
                (Role::Assistant, BlockView::Text(t.skip(12)))
            } else {
                (Role::Assistant, BlockView::Text(t))
            }
        },
        TailItem::ToolCall { call, text } => {
            let t = text@;
            let k = space_from(t, 0);
            let name = t.take(k);
            let args = t.skip(k + 1);
            if k < t.len() && k > 0 && json_object(args) {
                (Role::Assistant, BlockView::ToolUse("kc0_effect_"@ + decimal(call.0 as nat), name, args))
            } else {
                (
                    Role::Assistant,
                    BlockView::Text("[tool_call "@ + decimal(call.0 as nat) + "] "@ + t),
                )
            }
        },
        TailItem::ToolResult { call, text } => (
            Role::User,
            BlockView::ToolResult("kc0_effect_"@ + decimal(call.0 as nat), text.text()),
        ),
    }
}

/// Adds a block: to the last message when it has the same role, else as
/// a new message.
pub open spec fn add_block(msgs: Seq<(Role, Seq<BlockView>)>, role: Role, b: BlockView) -> Seq<
    (Role, Seq<BlockView>),
> {
    if msgs.len() > 0 && msgs.last().0 == role {
        msgs.update(msgs.len() - 1, (role, msgs.last().1.push(b)))
    } else {
        msgs.push((role, seq![b]))
    }
}

/// The messages after the leading text and the first `n` tail items.
pub open spec fn lowered(lead: Seq<char>, tail: Seq<TailItem>) -> Seq<(Role, Seq<BlockView>)>
    decreases tail.len(),
{
    if tail.len() == 0 {
        seq![(Role::User, seq![BlockView::Text(lead)])]
    } else {
        let (role, b) = tail_block(tail.last());
        add_block(lowered(lead, tail.drop_last()), role, b)
    }
}

/// The view of a request's messages.
pub open spec fn messages_view(ms: Seq<RequestMessage>) -> Seq<(Role, Seq<BlockView>)> {
    ms.map_values(|m: RequestMessage| (m.role, m.content@.map_values(|b: ContentBlock| b@)))
}

fn add_to(msgs: &mut Vec<RequestMessage>, role: Role, block: ContentBlock)
    ensures
        messages_view(final(msgs)@) == add_block(messages_view(old(msgs)@), role, block@),
{
    let ghost before = messages_view(msgs@);
    let n = msgs.len();
    if n > 0 && msgs[n - 1].role == role {
        let mut last = msgs.pop().unwrap();
        let ghost prev = last.content@;
        last.content.push(block);
        msgs.push(last);
        proof {
            assert(last.content@.map_values(|b: ContentBlock| b@) =~= prev.map_values(
                |b: ContentBlock| b@,
            ).push(block@));
            assert(messages_view(msgs@) =~= before.update(
                n - 1,
                (role, before.last().1.push(block@)),
            ));
        }
    } else {
        let mut content: Vec<ContentBlock> = Vec::new();
        content.push(block);
        msgs.push(RequestMessage { role, content });
        proof {
            assert(content@.map_values(|b: ContentBlock| b@) =~= seq![block@]);
            assert(messages_view(msgs@) =~= before.push((role, seq![block@])));
        }
    }
}

fn system_of(w: &WindowLayout) -> (r: String)
    ensures
        r@ == system_text(*w),
{
    let ghost parts = seq![w.system@, w.rules_reminder@] + w.reminders@.map_values(|r: String| r@);
    let mut out = string_of(w.system.as_str());
    proof {
        assert(seq![w.system@, w.rules_reminder@] + w.reminders@.map_values(|r: String| r@) == parts);
        assert(parts.take(1).drop_last() =~= Seq::<Seq<char>>::empty());
        assert(parts.take(1).last() == w.system@);
        assert(join_nonempty(Seq::<Seq<char>>::empty()) == Seq::<char>::empty());
        assert(join_nonempty(parts.take(1)) == w.system@);
    }
    out = with_part(out, w.rules_reminder.as_str(), Ghost(parts.take(1)));
    proof {
        assert(parts.take(1).push(w.rules_reminder@) =~= parts.take(2));
    }
    let mut i: usize = 0;
    while i < w.reminders.len()
        invariant
            i <= w.reminders@.len(),
            parts == seq![w.system@, w.rules_reminder@] + w.reminders@.map_values(|r: String| r@),
            out@ == join_nonempty(parts.take(i + 2)),
        decreases w.reminders@.len() - i,
    {
        out = with_part(out, w.reminders[i].as_str(), Ghost(parts.take(i + 2)));
        proof {
            assert(parts.take(i + 2).push(w.reminders@[i as int]@) =~= parts.take(i + 3));
        }
        i = i + 1;
    }
    proof {
        assert(parts.take(i + 2) =~= parts);
    }
    out
}

fn with_part(out: String, part: &str, Ghost(done): Ghost<Seq<Seq<char>>>) -> (r: String)
    requires
        out@ == join_nonempty(done),
    ensures
        r@ == join_nonempty(done.push(part@)),
{
    let mut out = out;
    proof {
        assert(done.push(part@).drop_last() =~= done);
    }
    if part.unicode_len() == 0 {
        out
    } else if out.as_str().unicode_len() == 0 {
        string_of(part)
    } else {
        out.append("\n\n");
        out.append(part);
        out
    }
}

fn leading_of(w: &WindowLayout) -> (r: String)
    ensures
        r@ == leading_text(*w),
{
    let mut parts: Vec<String> = Vec::new();
    if w.user_info.as_str().unicode_len() > 0 {
        parts.push(concat("[user_info]\n", w.user_info.as_str()));
    }
    if w.summary.as_str().unicode_len() > 0 {
        parts.push(concat("[summary]\n", w.summary.as_str()));
    }
    parts.push(string_of(w.last_user_query.as_str()));
    let ghost ps = parts@.map_values(|s: String| s@);
    proof {
        let info: Seq<Seq<char>> = if w.user_info@.len() > 0 {
            seq!["[user_info]\n"@ + w.user_info@]
        } else {
            Seq::empty()
        };
        let summary: Seq<Seq<char>> = if w.summary@.len() > 0 {
            seq!["[summary]\n"@ + w.summary@]
        } else {
            Seq::empty()
        };
        assert(ps =~= info + summary + seq![w.last_user_query@]);
    }
    let mut out = string_of(parts[0].as_str());
    let mut i: usize = 1;
    while i < parts.len()
        invariant
            1 <= i <= parts@.len(),
            ps == parts@.map_values(|s: String| s@),
            out@ == join_all(ps.take(i as int)),
        decreases parts@.len() - i,
    {
        out.append("\n\n");
        out.append(parts[i].as_str());
        proof {
            assert(ps.take(i + 1).drop_last() =~= ps.take(i as int));
        }
        i = i + 1;
    }
    proof {
        assert(ps.take(i as int) =~= ps);
        assert(ps.take(1) =~= seq![ps[0]]);
    }
    out
}

fn block_of(item: &TailItem) -> (r: (Role, ContentBlock))
    ensures
        (r.0, r.1@) == tail_block(*item),
{
    match item {
        TailItem::Message(m) => {
            proof {
                reveal_strlit("[user] ");
                reveal_strlit("[assistant] ");
            }
            let n = m.as_str().unicode_len();
            if starts_with_text(m.as_str(), "[user] ") {
                (Role::User, ContentBlock::Text { text: m.as_str().substring_char(7, n).to_owned() })
            } else if starts_with_text(m.as_str(), "[assistant] ") {
                (
                    Role::Assistant,
                    ContentBlock::Text { text: m.as_str().substring_char(12, n).to_owned() },
                )
            } else {
                (Role::Assistant, ContentBlock::Text { text: string_of(m.as_str()) })
            }
        },
        TailItem::ToolCall { call, text } => {
            let t = text.as_str();
            let n = t.unicode_len();
            let mut k: usize = 0;
            while k < n
                invariant
                    k <= n,
                    n == t@.len(),
                    space_from(t@, k as int) == space_from(t@, 0),
                ensures
                    k <= n,
                    k as int == space_from(t@, 0),
                decreases n - k,
            {
                if t.get_char(k) == ' ' {
                    break;
                }
                k = k + 1;
            }
            if k < n && k > 0 {
                let args = t.substring_char(k + 1, n);
                proof {
                    assert(args@ =~= t@.skip(k + 1));
                }
                if is_json_object(args) {
                    let name = t.substring_char(0, k).to_owned();
                    proof {
                        assert(name@ =~= t@.take(k as int));
                    }
                    return (
                        Role::Assistant,
                        ContentBlock::ToolUse {
                            id: wire_tool_id(call.0),
                            name,
                            input_json: args.to_owned(),
                        },
                    );
                }
            }
            let head = concat("[tool_call ", decimal_string(call.0).as_str());
            let mid = concat(head.as_str(), "] ");
            (Role::Assistant, ContentBlock::Text { text: concat(mid.as_str(), t) })
        },
        TailItem::ToolResult { call, text } => (
            Role::User,
            ContentBlock::ToolResult {
                tool_use_id: wire_tool_id(call.0),
                content: string_of(text.as_str()),
            },
        ),
    }
}

/// Lowers a window into the provider request for `model`.
pub fn lower_request(window: &WindowLayout, model: &str, max_tokens: u32) -> (r: ModelRequest)
    ensures
        r.model@ == model@,
        r.max_tokens == max_tokens,
        r.system@ == system_text(*window),
        messages_view(r.messages@) == lowered(leading_text(*window), window.verbatim_tail@),
{
    let lead = leading_of(window);
    let mut messages: Vec<RequestMessage> = Vec::new();
    let mut first: Vec<ContentBlock> = Vec::new();
    first.push(ContentBlock::Text { text: lead });
    messages.push(RequestMessage { role: Role::User, content: first });
    proof {
        assert(first@.map_values(|b: ContentBlock| b@) =~= seq![BlockView::Text(leading_text(*window))]);
        assert(messages_view(messages@) =~= lowered(leading_text(*window), window.verbatim_tail@.take(0)));
    }
    let mut i: usize = 0;
    while i < window.verbatim_tail.len()
        invariant
            i <= window.verbatim_tail@.len(),
            messages_view(messages@) == lowered(
                leading_text(*window),
                window.verbatim_tail@.take(i as int),
            ),
        decreases window.verbatim_tail@.len() - i,
    {
        let (role, block) = block_of(&window.verbatim_tail[i]);
        add_to(&mut messages, role, block);
        proof {
            let t = window.verbatim_tail@.take(i + 1);
            assert(t.drop_last() =~= window.verbatim_tail@.take(i as int));
            assert(t.last() == window.verbatim_tail@[i as int]);
        }
        i = i + 1;
    }
    proof {
        assert(window.verbatim_tail@.take(i as int) =~= window.verbatim_tail@);
    }
    ModelRequest {
        model: string_of(model),
        max_tokens,
        system: system_of(window),
        messages,
    }
}

/// The lowered conversation opens with the user, never puts two messages
/// of one role side by side, and gives every message at least one block.
pub proof fn law_lowered_roles_alternate(lead: Seq<char>, tail: Seq<TailItem>)
    ensures
        lowered(lead, tail).len() >= 1,
        lowered(lead, tail)[0].0 == Role::User,
        forall|i: int|
            0 <= i < lowered(lead, tail).len() - 1 ==> #[trigger] lowered(lead, tail)[i].0
                != lowered(lead, tail)[i + 1].0,
        forall|i: int|
            0 <= i < lowered(lead, tail).len() ==> #[trigger] lowered(lead, tail)[i].1.len() > 0,
    decreases tail.len(),
{
    if tail.len() > 0 {
        law_lowered_roles_alternate(lead, tail.drop_last());
        let prev = lowered(lead, tail.drop_last());
        let (role, b) = tail_block(tail.last());
        let now = lowered(lead, tail);
        assert(now == add_block(prev, role, b));
        if prev.last().0 == role {
            assert forall|i: int| 0 <= i < now.len() - 1 implies #[trigger] now[i].0 != now[i
                + 1].0 by {
                assert(now[i] == prev[i]);
                if i + 1 < prev.len() - 1 {
                    assert(now[i + 1] == prev[i + 1]);
                }
            }
            assert forall|i: int| 0 <= i < now.len() implies #[trigger] now[i].1.len() > 0 by {
                if i < prev.len() - 1 {
                    assert(now[i] == prev[i]);
                }
            }
        } else {
            assert forall|i: int| 0 <= i < now.len() - 1 implies #[trigger] now[i].0 != now[i
                + 1].0 by {
                assert(now[i] == prev[i]);
                if i + 1 < prev.len() {
                    assert(now[i + 1] == prev[i + 1]);
                }
            }
            assert forall|i: int| 0 <= i < now.len() implies #[trigger] now[i].1.len() > 0 by {
                if i < prev.len() {
                    assert(now[i] == prev[i]);
                }
            }
        }
    }
}

} // verus!
