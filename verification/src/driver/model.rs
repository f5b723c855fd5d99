//! The deterministic model jail: scripted responses consumed in order,
//! with a compact fingerprint of every request captured for diffing.

use vstd::prelude::*;

use crate::engine::{ModelOutcome, ProposedToolCall, Usage};
use crate::protocol::error::ErrorCode;
use crate::text::{concat, decimal, decimal_string, string_of};
use crate::window::{TailItem, WindowLayout};
use vstd::string::StringSliceAdditionalSpecFns;
use vstd::utf8::encode_utf8;

verus! {

/// A model-call failure the engine can classify.
pub type ModelError = (ErrorCode, String);

/// One scripted jail step (ordinal matching).
#[derive(Debug, PartialEq, Eq)]
pub struct JailStep {
    /// Assistant text to return.
    pub text: String,
    /// Tool calls to propose, in order: `[name, args_json]` pairs.
    pub tool_calls: Vec<(String, String)>,
    /// Optional scripted provider usage `(prompt_tokens, prompt_bytes)`.
    pub usage: Option<(u64, u64)>,
    /// When set, fail with this scripted transport error instead.
    pub fail: Option<String>,
}

/// The scripted mock model: steps are consumed in order, and running past
/// the script is a hard scenario failure.
#[derive(Debug)]
pub struct JailClient {
    steps: Vec<JailStep>,
    cursor: usize,
    capture: Vec<String>,
}

/// The letter standing for a tail item in a request fingerprint.
pub open spec fn tail_letter(item: TailItem) -> Seq<char> {
    match item {
        TailItem::Message(_) => "m"@,
        TailItem::ToolCall { .. } => "c"@,
        TailItem::ToolResult { .. } => "r"@,
    }
}

/// The letters of tail items `..k`.
pub open spec fn tail_letters(tail: Seq<TailItem>, k: int) -> Seq<char>
    decreases k,
{
    if k <= 0 {
        Seq::empty()
    } else {
        tail_letters(tail, k - 1) + tail_letter(tail[k - 1])
    }
}

/// The compact fingerprint of a request window: query bytes, tail shape,
/// summary bytes.
pub open spec fn fingerprint_text(w: WindowLayout) -> Seq<char> {
    "q="@ + decimal(encode_utf8(w.last_user_query@).len()) + " tail="@ + tail_letters(
        w.verbatim_tail@,
        w.verbatim_tail@.len() as int,
    ) + " summary="@ + decimal(encode_utf8(w.summary@).len())
}

/// The reply to a scripted step.
pub open spec fn step_reply(step: JailStep, r: Result<ModelOutcome, ModelError>) -> bool {
    match step.fail {
        Some(m) => r == Err::<ModelOutcome, ModelError>((ErrorCode::ModelTransport, m)),
        None => r matches Ok(o) && o.text == step.text && o.tool_calls@.len()
            == step.tool_calls@.len() && (forall|i: int|
            0 <= i < step.tool_calls@.len() ==> (#[trigger] o.tool_calls@[i]).name
                == step.tool_calls@[i].0 && o.tool_calls@[i].args_json == step.tool_calls@[i].1)
            && o.usage == match step.usage {
            Some(u) => Some(Usage { prompt_tokens: u.0, prompt_bytes: u.1 }),
            None => None,
        },
    }
}

/// The number of bytes of `s`.
fn byte_len(s: &str) -> (r: u64)
    ensures
        r == encode_utf8(s@).len(),
{
    s.as_bytes().len() as u64
}

fn render_fingerprint(w: &WindowLayout) -> (r: String)
    ensures
        r@ == fingerprint_text(*w),
{
    let mut out = concat("q=", decimal_string(byte_len(w.last_user_query.as_str())).as_str());
    out.append(" tail=");
    let ghost start = out@;
    let mut k: usize = 0;
    while k < w.verbatim_tail.len()
        invariant
            k <= w.verbatim_tail@.len(),
            out@ == start + tail_letters(w.verbatim_tail@, k as int),
        decreases w.verbatim_tail@.len() - k,
    {
        let letter = match &w.verbatim_tail[k] {
            TailItem::Message(_) => "m",
            TailItem::ToolCall { .. } => "c",
            TailItem::ToolResult { .. } => "r",
        };
        out.append(letter);
        proof {
            assert(tail_letters(w.verbatim_tail@, k + 1) == tail_letters(w.verbatim_tail@, k as int)
                + tail_letter(w.verbatim_tail@[k as int]));
        }
        k = k + 1;
    }
    out.append(" summary=");
    out.append(decimal_string(byte_len(w.summary.as_str())).as_str());
    out
}

impl JailClient {
    /// The script.
    pub closed spec fn script(&self) -> Seq<JailStep> {
        self.steps@
    }

    /// Calls made so far.
    pub closed spec fn calls(&self) -> nat {
        self.cursor as nat
    }

    /// The fingerprints captured so far.
    pub closed spec fn fingerprints(&self) -> Seq<Seq<char>> {
        self.capture@.map_values(|s: String| s@)
    }

    /// Builds a jail from scripted steps.
    pub fn new(steps: Vec<JailStep>) -> (r: Self)
        ensures
            r.script() == steps@,
            r.calls() == 0,
            r.fingerprints() == Seq::<Seq<char>>::empty(),
    {
        let r = JailClient { steps, cursor: 0, capture: Vec::new() };
        assert(r.fingerprints() =~= Seq::<Seq<char>>::empty());
        r
    }

    /// The captured request fingerprints, for scenario diffing.
    pub fn captured(&self) -> (r: Vec<String>)
        ensures
            r@.map_values(|s: String| s@) == self.fingerprints(),
    {
        let mut out: Vec<String> = Vec::new();
        let mut i: usize = 0;
        while i < self.capture.len()
            invariant
                i <= self.capture@.len(),
                out@.len() == i,
                forall|j: int| 0 <= j < i ==> (#[trigger] out@[j])@ == self.capture@[j]@,
            decreases self.capture@.len() - i,
        {
            out.push(string_of(self.capture[i].as_str()));
            i = i + 1;
        }
        assert(out@.map_values(|s: String| s@) =~= self.fingerprints());
        out
    }

    /// One model call: capture the request's fingerprint and answer with
    /// the next scripted step, or fail once the script is exhausted.
    pub fn complete(&mut self, window: &WindowLayout) -> (r: Result<ModelOutcome, ModelError>)
        requires
            old(self).calls() < usize::MAX,
        ensures
            final(self).script() == old(self).script(),
            final(self).calls() == old(self).calls() + 1,
            final(self).fingerprints() == old(self).fingerprints().push(fingerprint_text(*window)),
            old(self).calls() < old(self).script().len() ==> step_reply(
                old(self).script()[old(self).calls() as int],
                r,
            ),
            old(self).calls() >= old(self).script().len() ==> (r matches Err(e) && e.0
                == ErrorCode::Internal && e.1@ == "jail scenario exhausted: unexpected model call"@),
    {
        let fp = render_fingerprint(window);
        self.capture.push(fp);
        proof {
            assert(self.capture@.map_values(|s: String| s@) =~= old(self).fingerprints().push(
                fingerprint_text(*window),
            ));
        }
        let at = self.cursor;
        self.cursor = self.cursor + 1;
        if at >= self.steps.len() {
            return Err(
                (
                    ErrorCode::Internal,
                    string_of("jail scenario exhausted: unexpected model call"),
                ),
            );
        }
        let step = &self.steps[at];
        match &step.fail {
            Some(message) => {
                return Err((ErrorCode::ModelTransport, message.clone()));
            },
            None => {},
        }
        let mut calls: Vec<ProposedToolCall> = Vec::new();
        let mut i: usize = 0;
        while i < step.tool_calls.len()
            invariant
                i <= step.tool_calls@.len(),
                calls@.len() == i,
                forall|j: int|
                    0 <= j < i ==> (#[trigger] calls@[j]).name == step.tool_calls@[j].0
                        && calls@[j].args_json == step.tool_calls@[j].1,
            decreases step.tool_calls@.len() - i,
        {
            let pair = &step.tool_calls[i];
            calls.push(ProposedToolCall { name: pair.0.clone(), args_json: pair.1.clone() });
            i = i + 1;
        }
        let usage = match step.usage {
            Some(u) => Some(Usage { prompt_tokens: u.0, prompt_bytes: u.1 }),
            None => None,
        };
        Ok(ModelOutcome { text: step.text.clone(), tool_calls: calls, usage })
    }
}

} // verus!
