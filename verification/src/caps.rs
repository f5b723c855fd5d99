//! Sealed, kind-branded budget cap types.
//!
//! Every byte of query-originated data and every tool result that reaches
//! the root window travels as a [`Capped`] value. The only constructors
//! truncate, and the fields are private, so no uncapped text can be branded.
//!
//! Cap kinds are sealed: the set of budget-bearing categories is fixed. Each
//! kind carries a hard byte ceiling; runtime limits are clamped to it. Sizes
//! are measured in UTF-8 bytes and truncation never splits a character.

mod sealed;

use core::marker::PhantomData;

use vstd::prelude::*;
use vstd::string::StringSliceAdditionalSpecFns;
use vstd::utf8::{decode_utf8, encode_utf8, is_char_boundary, valid_utf8};

use crate::protocol::budgets::BudgetKind;
use crate::text::{decimal, push_decimal};

verus! {

broadcast use vstd::utf8::encode_utf8_valid_utf8;

/// A sealed budget category with its hard byte ceiling.
pub trait CapKind: sealed::Sealed {
    /// The absolute byte ceiling no runtime configuration can exceed.
    spec fn ceiling() -> nat;

    /// The budget meter this kind reports under.
    spec fn meter() -> BudgetKind;

    /// The ceiling, for executable code.
    fn hard_ceiling() -> (r: usize)
        ensures
            r == Self::ceiling(),
            r <= 65_536,
    ;

    /// The meter, for executable code.
    fn kind() -> (r: BudgetKind)
        ensures
            r == Self::meter(),
    ;
}

/// Per-verb query output surfaced to the root window.
///
/// A marker type: it has no public constructor and is never built.
#[derive(Clone, Copy, Debug, PartialEq, Eq)]
pub struct VerbOutput(());

/// Per-tool-result output surfaced to the root window.
///
/// A marker type: it has no public constructor and is never built.
#[derive(Clone, Copy, Debug, PartialEq, Eq)]
pub struct ToolResult(());

/// Per-`ask` sub-model digest surfaced to the root window.
///
/// A marker type: it has no public constructor and is never built.
#[derive(Clone, Copy, Debug, PartialEq, Eq)]
pub struct AskDigest(());

impl sealed::Sealed for VerbOutput {}

impl sealed::Sealed for ToolResult {}

impl sealed::Sealed for AskDigest {}

impl CapKind for VerbOutput {
    open spec fn ceiling() -> nat {
        65_536
    }

    open spec fn meter() -> BudgetKind {
        BudgetKind::VerbOutput
    }

    fn hard_ceiling() -> (r: usize) {
        65_536
    }

    fn kind() -> (r: BudgetKind) {
        BudgetKind::VerbOutput
    }
}

impl CapKind for ToolResult {
    open spec fn ceiling() -> nat {
        65_536
    }

    open spec fn meter() -> BudgetKind {
        BudgetKind::ToolResult
    }

    fn hard_ceiling() -> (r: usize) {
        65_536
    }

    fn kind() -> (r: BudgetKind) {
        BudgetKind::ToolResult
    }
}

impl CapKind for AskDigest {
    open spec fn ceiling() -> nat {
        32_768
    }

    open spec fn meter() -> BudgetKind {
        BudgetKind::AskDigest
    }

    fn hard_ceiling() -> (r: usize) {
        32_768
    }

    fn kind() -> (r: BudgetKind) {
        BudgetKind::AskDigest
    }
}

/// What truncation removed, kept so the model can recover the remainder
/// through the log (reversible offload).
#[derive(Clone, Copy, Debug, PartialEq, Eq, Structural)]
pub struct Truncation {
    /// Byte length of the original value.
    pub original_bytes: u64,
    /// Bytes kept from the head.
    pub head_bytes: u32,
    /// Bytes kept from the tail (zero for head-only truncation).
    pub tail_bytes: u32,
    /// Log sequence where the full value lives, when it was recorded.
    pub log_seq: Option<u64>,
}

/// A budget-capped text value; the only path into the root window.
#[derive(Debug, PartialEq, Eq)]
pub struct Capped<K: CapKind> {
    text: String,
    applied_limit: u32,
    truncation: Option<Truncation>,
    kind: PhantomData<K>,
}

/// The nearest character boundary at or below `at`.
pub open spec fn floor_boundary(b: Seq<u8>, at: int) -> int
    decreases at,
{
    if at <= 0 {
        0
    } else if is_char_boundary(b, at) {
        at
    } else {
        floor_boundary(b, at - 1)
    }
}

/// The nearest character boundary at or above `at`, for `at <= b.len()`.
pub open spec fn ceil_boundary(b: Seq<u8>, at: int) -> int
    decreases b.len() - at,
{
    if at >= b.len() {
        at
    } else if is_char_boundary(b, at) {
        at
    } else {
        ceil_boundary(b, at + 1)
    }
}

/// The runtime limit clamped to a ceiling.
pub open spec fn clamped(runtime_limit: u32, ceiling: nat) -> nat {
    if runtime_limit <= ceiling {
        runtime_limit as nat
    } else {
        ceiling
    }
}

/// A count saturated to `u32`.
pub open spec fn sat_u32(x: int) -> u32 {
    if x <= u32::MAX {
        x as u32
    } else {
        u32::MAX
    }
}

/// The bytes kept by head-only truncation to `limit`.
pub open spec fn head_excerpt(b: Seq<u8>, limit: nat) -> Seq<u8> {
    if b.len() <= limit {
        b
    } else {
        b.subrange(0, floor_boundary(b, limit as int))
    }
}

/// The end of the head kept by head-and-tail truncation to `limit`.
pub open spec fn head_end(b: Seq<u8>, limit: nat) -> int {
    floor_boundary(b, (limit / 2) as int)
}

/// The start of the tail kept by head-and-tail truncation to `limit`.
pub open spec fn tail_start(b: Seq<u8>, limit: nat) -> int {
    ceil_boundary(b, b.len() - (limit - limit / 2))
}

/// The bytes kept by head-and-tail truncation to `limit`.
pub open spec fn head_tail_excerpt(b: Seq<u8>, limit: nat) -> Seq<u8> {
    if b.len() <= limit {
        b
    } else {
        b.subrange(0, head_end(b, limit)) + b.subrange(tail_start(b, limit), b.len() as int)
    }
}

/// Truncation metadata for head-only truncation.
pub open spec fn head_truncation(b: Seq<u8>, limit: nat, log_seq: Option<u64>) -> Option<
    Truncation,
> {
    if b.len() <= limit {
        None
    } else {
        Some(
            Truncation {
                original_bytes: b.len() as u64,
                head_bytes: sat_u32(floor_boundary(b, limit as int)),
                tail_bytes: 0,
                log_seq,
            },
        )
    }
}

/// Truncation metadata for head-and-tail truncation.
pub open spec fn head_tail_truncation(b: Seq<u8>, limit: nat, log_seq: Option<u64>) -> Option<
    Truncation,
> {
    if b.len() <= limit {
        None
    } else {
        Some(
            Truncation {
                original_bytes: b.len() as u64,
                head_bytes: sat_u32(head_end(b, limit)),
                tail_bytes: sat_u32(b.len() - tail_start(b, limit)),
                log_seq,
            },
        )
    }
}

/// The annotation a truncated tool result carries.
pub open spec fn annotation_text(original: nat, log_seq: nat) -> Seq<char> {
    "\n[truncated from "@ + decimal(original) + " bytes; full output at log seq "@ + decimal(
        log_seq,
    ) + "]"@
}

/// The bytes of the canonical tool result for `b` under `limit`.
pub open spec fn tool_result_bytes(b: Seq<u8>, limit: nat, log_seq: u64) -> Seq<u8> {
    if b.len() <= limit {
        head_tail_excerpt(b, limit)
    } else {
        let a = encode_utf8(annotation_text(b.len(), log_seq as nat));
        let excerpt_limit = if a.len() <= limit {
            (limit - a.len()) as nat
        } else {
            0nat
        };
        let e = head_tail_excerpt(b, excerpt_limit);
        let room = if e.len() <= limit {
            limit - e.len()
        } else {
            0
        };
        e + a.subrange(0, floor_boundary(a, room))
    }
}

/// The truncation metadata of the canonical tool result for `b`.
pub open spec fn tool_result_truncation(b: Seq<u8>, limit: nat, log_seq: u64) -> Option<
    Truncation,
> {
    if b.len() <= limit {
        head_tail_truncation(b, limit, Some(log_seq))
    } else {
        let a = encode_utf8(annotation_text(b.len(), log_seq as nat));
        let excerpt_limit = if a.len() <= limit {
            (limit - a.len()) as nat
        } else {
            0nat
        };
        head_tail_truncation(b, excerpt_limit, Some(log_seq))
    }
}

proof fn lemma_encode_concat(a: Seq<char>, b: Seq<char>)
    ensures
        encode_utf8(a + b) == encode_utf8(a) + encode_utf8(b),
    decreases a.len(),
{
    if a.len() == 0 {
        assert(a + b =~= b);
    } else {
        lemma_encode_concat(a.drop_first(), b);
        assert((a + b).drop_first() =~= a.drop_first() + b);
        assert((a + b)[0] == a[0]);
    }
}

/// The floor boundary lies in range and is a character boundary.
pub proof fn lemma_floor_boundary(b: Seq<u8>, at: int)
    requires
        valid_utf8(b),
        0 <= at,
    ensures
        0 <= floor_boundary(b, at) <= at,
        floor_boundary(b, at) <= b.len(),
        is_char_boundary(b, floor_boundary(b, at)),
    decreases at,
{
    if at > 0 && !is_char_boundary(b, at) {
        lemma_floor_boundary(b, at - 1);
    }
}

proof fn lemma_ceil_boundary(b: Seq<u8>, at: int)
    requires
        valid_utf8(b),
        0 <= at <= b.len(),
    ensures
        at <= ceil_boundary(b, at) <= b.len(),
        is_char_boundary(b, ceil_boundary(b, at)),
    decreases b.len() - at,
{
    if at >= b.len() {
        vstd::utf8::is_char_boundary_start_end_of_seq(b);
    } else if !is_char_boundary(b, at) {
        lemma_ceil_boundary(b, at + 1);
    }
}

/// The floor boundary is the greatest character boundary at or below
/// `at`: no boundary lies strictly between it and `at`.
pub proof fn lemma_floor_boundary_greatest(b: Seq<u8>, at: int)
    requires
        valid_utf8(b),
        0 <= at,
    ensures
        forall|j: int| floor_boundary(b, at) < j <= at ==> !is_char_boundary(b, j),
    decreases at,
{
    if at > 0 && !is_char_boundary(b, at) {
        lemma_floor_boundary_greatest(b, at - 1);
    }
}

/// Above the end of the bytes, the floor boundary is the end.
proof fn lemma_floor_boundary_past_end(b: Seq<u8>, at: int)
    requires
        valid_utf8(b),
        b.len() <= at,
    ensures
        floor_boundary(b, at) == b.len(),
    decreases at,
{
    vstd::utf8::is_char_boundary_start_end_of_seq(b);
    if at > b.len() {
        assert(!is_char_boundary(b, at));
        lemma_floor_boundary_past_end(b, at - 1);
    }
}

/// Head truncation of a value longer than the limit keeps exactly the bytes
/// before the greatest character boundary within the limit, and records
/// the original length and that head length.
pub proof fn lemma_head_cut(b: Seq<u8>, limit: nat, log_seq: Option<u64>)
    requires
        valid_utf8(b),
        b.len() > limit,
        b.len() <= u64::MAX,
        limit <= u32::MAX,
    ensures
        ({
            let j = floor_boundary(b, limit as int);
            &&& 0 <= j <= limit
            &&& is_char_boundary(b, j)
            &&& forall|k: int| j < k <= limit ==> !is_char_boundary(b, k)
            &&& head_excerpt(b, limit) == b.subrange(0, j)
            &&& head_truncation(b, limit, log_seq) == Some(
                Truncation {
                    original_bytes: b.len() as u64,
                    head_bytes: j as u32,
                    tail_bytes: 0,
                    log_seq,
                },
            )
        }),
{
    lemma_floor_boundary(b, limit as int);
    lemma_floor_boundary_greatest(b, limit as int);
}

/// Head-and-tail truncation of a value longer than the limit keeps a head
/// and a tail, each cut on a character boundary, that do not overlap and
/// together fit the limit; the metadata records their lengths.
pub proof fn lemma_head_tail_cut(b: Seq<u8>, limit: nat, log_seq: Option<u64>)
    requires
        valid_utf8(b),
        b.len() > limit,
        b.len() <= u64::MAX,
        limit <= u32::MAX,
    ensures
        ({
            let h = head_end(b, limit);
            let t = tail_start(b, limit);
            &&& 0 <= h <= t <= b.len()
            &&& is_char_boundary(b, h)
            &&& is_char_boundary(b, t)
            &&& h + (b.len() - t) <= limit
            &&& head_tail_excerpt(b, limit) == b.subrange(0, h) + b.subrange(t, b.len() as int)
            &&& head_tail_truncation(b, limit, log_seq) matches Some(c) && c.original_bytes
                == b.len() && c.head_bytes == h && c.tail_bytes == b.len() - t && c.log_seq
                == log_seq
        }),
{
    lemma_floor_boundary(b, (limit / 2) as int);
    lemma_ceil_boundary(b, b.len() - (limit - limit / 2));
}

/// A tool result longer than the limit keeps the whole truncation
/// annotation at its end whenever the annotation alone fits the limit.
pub proof fn lemma_tool_result_annotated(b: Seq<u8>, limit: nat, log_seq: u64)
    requires
        valid_utf8(b),
        b.len() > limit,
        b.len() <= u64::MAX,
        encode_utf8(annotation_text(b.len(), log_seq as nat)).len() <= limit,
        limit <= u32::MAX,
    ensures
        ({
            let a = encode_utf8(annotation_text(b.len(), log_seq as nat));
            let r = tool_result_bytes(b, limit, log_seq);
            &&& r.len() <= limit
            &&& r.len() >= a.len()
            &&& r.subrange(r.len() - a.len(), r.len() as int) == a
        }),
{
    let a = encode_utf8(annotation_text(b.len(), log_seq as nat));
    let el = (limit - a.len()) as nat;
    let e = head_tail_excerpt(b, el);
    lemma_head_tail_cut(b, el, None);
    vstd::utf8::encode_utf8_valid_utf8(annotation_text(b.len(), log_seq as nat));
    lemma_floor_boundary_past_end(a, limit - e.len());
    let r = tool_result_bytes(b, limit, log_seq);
    assert(r == e + a);
    assert(r.subrange(r.len() - a.len(), r.len() as int) =~= a);
}

/// The length of `s` in UTF-8 bytes.
fn byte_len(s: &str) -> (r: usize)
    ensures
        r == s.spec_bytes().len(),
{
    s.as_bytes().len()
}

/// Clamps a character boundary downward from `at`.
fn floor_char_boundary(s: &str, at: usize) -> (r: usize)
    ensures
        r == floor_boundary(s.spec_bytes(), at as int),
{
    let mut at = at;
    let ghost start = at;
    while at > 0 && !s.is_char_boundary(at)
        invariant
            at <= start,
            floor_boundary(s.spec_bytes(), start as int) == floor_boundary(s.spec_bytes(), at as int),
        decreases at,
    {
        at = at - 1;
    }
    at
}

/// Clamps a character boundary upward from `at`.
fn ceil_char_boundary(s: &str, at: usize) -> (r: usize)
    requires
        at <= s.spec_bytes().len(),
    ensures
        r == ceil_boundary(s.spec_bytes(), at as int),
{
    let mut at = at;
    let ghost start = at;
    let len = byte_len(s);
    while at < len && !s.is_char_boundary(at)
        invariant
            start <= at <= len,
            len == s.spec_bytes().len(),
            ceil_boundary(s.spec_bytes(), start as int) == ceil_boundary(s.spec_bytes(), at as int),
        decreases len - at,
    {
        at = at + 1;
    }
    at
}

/// The bytes of `s` before `end`, as a string.
fn prefix_of(s: &str, end: usize) -> (r: String)
    requires
        end <= s.spec_bytes().len(),
        is_char_boundary(s.spec_bytes(), end as int),
    ensures
        encode_utf8(r@) == s.spec_bytes().subrange(0, end as int),
{
    let (head, _) = s.split_at(end);
    head.to_owned()
}

/// The bytes of `s` from `start` on, as a string.
fn suffix_of(s: &str, start: usize) -> (r: String)
    requires
        start <= s.spec_bytes().len(),
        is_char_boundary(s.spec_bytes(), start as int),
    ensures
        encode_utf8(r@) == s.spec_bytes().subrange(start as int, s.spec_bytes().len() as int),
{
    let (_, tail) = s.split_at(start);
    tail.to_owned()
}

fn append_bytes(text: &mut String, more: &str)
    ensures
        encode_utf8(final(text)@) == encode_utf8(old(text)@) + more.spec_bytes(),
{
    text.append(more);
    proof {
        lemma_encode_concat(old(text)@, more@);
    }
}

/// The characters kept when `text` is cut to `limit` UTF-8 bytes on a
/// character boundary.
pub open spec fn capped_chars(text: Seq<char>, limit: nat) -> Seq<char> {
    decode_utf8(head_excerpt(encode_utf8(text), limit))
}

/// Truncates `value` to at most `limit` UTF-8 bytes on a character
/// boundary (value-cap law: truncate, never error).
pub fn byte_prefix(value: &str, limit: usize) -> (r: String)
    ensures
        encode_utf8(r@) == head_excerpt(value.spec_bytes(), limit as nat),
        r@ == capped_chars(value@, limit as nat),
        encode_utf8(r@).len() <= limit,
{
    let ghost b = value.spec_bytes();
    let r = if byte_len(value) <= limit {
        value.to_owned()
    } else {
        let end = floor_char_boundary(value, limit);
        proof {
            lemma_floor_boundary(b, limit as int);
        }
        prefix_of(value, end)
    };
    proof {
        vstd::utf8::encode_utf8_decode_utf8(r@);
    }
    r
}

impl<K: CapKind> Capped<K> {
    /// The capped text, as characters.
    pub closed spec fn text(self) -> Seq<char> {
        self.text@
    }

    /// The capped text, as UTF-8 bytes.
    pub open spec fn bytes(self) -> Seq<u8> {
        encode_utf8(self.text())
    }

    /// The runtime limit that was applied.
    pub closed spec fn limit(self) -> u32 {
        self.applied_limit
    }

    /// The truncation metadata.
    pub closed spec fn cut(self) -> Option<Truncation> {
        self.truncation
    }

    /// Effective limit: the runtime limit clamped to the hard ceiling.
    fn effective_limit(runtime_limit: u32) -> (r: usize)
        ensures
            r == clamped(runtime_limit, K::ceiling()),
            r <= 65_536,
    {
        let ceiling = K::hard_ceiling();
        if (runtime_limit as usize) < ceiling {
            runtime_limit as usize
        } else {
            ceiling
        }
    }

    /// Truncates keeping only the head of the value.
    ///
    /// `log_seq` names the record holding the full value when one exists;
    /// truncation is reversible offload, never loss.
    pub fn head(value: &str, runtime_limit: u32, log_seq: Option<u64>) -> (r: Self)
        ensures
            r.bytes() == head_excerpt(value.spec_bytes(), clamped(runtime_limit, K::ceiling())),
            r.bytes().len() <= clamped(runtime_limit, K::ceiling()),
            r.limit() == runtime_limit,
            r.cut() == head_truncation(
                value.spec_bytes(),
                clamped(runtime_limit, K::ceiling()),
                log_seq,
            ),
    {
        let ghost b = value.spec_bytes();
        let limit = Self::effective_limit(runtime_limit);
        if byte_len(value) <= limit {
            let text = value.to_owned();
            return Capped { text, applied_limit: runtime_limit, truncation: None, kind: PhantomData };
        }
        let head_end = floor_char_boundary(value, limit);
        proof {
            lemma_floor_boundary(b, limit as int);
        }
        let text = prefix_of(value, head_end);
        Capped {
            text,
            applied_limit: runtime_limit,
            truncation: Some(
                Truncation {
                    original_bytes: byte_len(value) as u64,
                    head_bytes: head_end as u32,
                    tail_bytes: 0,
                    log_seq,
                },
            ),
            kind: PhantomData,
        }
    }

    /// Truncates keeping an excerpt from both ends (the tool-result shape:
    /// head context plus the freshest tail).
    pub fn head_tail(value: &str, runtime_limit: u32, log_seq: Option<u64>) -> (r: Self)
        ensures
            r.bytes() == head_tail_excerpt(
                value.spec_bytes(),
                clamped(runtime_limit, K::ceiling()),
            ),
            r.bytes().len() <= clamped(runtime_limit, K::ceiling()),
            r.limit() == runtime_limit,
            r.cut() == head_tail_truncation(
                value.spec_bytes(),
                clamped(runtime_limit, K::ceiling()),
                log_seq,
            ),
    {
        let ghost b = value.spec_bytes();
        let limit = Self::effective_limit(runtime_limit);
        let len = byte_len(value);
        if len <= limit {
            let text = value.to_owned();
            return Capped { text, applied_limit: runtime_limit, truncation: None, kind: PhantomData };
        }
        let head_budget = limit / 2;
        let tail_budget = limit - head_budget;
        let head_end = floor_char_boundary(value, head_budget);
        let tail_start = ceil_char_boundary(value, len - tail_budget);
        proof {
            lemma_floor_boundary(b, head_budget as int);
            lemma_ceil_boundary(b, len - tail_budget);
        }
        let mut text = prefix_of(value, head_end);
        let tail = suffix_of(value, tail_start);
        append_bytes(&mut text, tail.as_str());
        Capped {
            text,
            applied_limit: runtime_limit,
            truncation: Some(
                Truncation {
                    original_bytes: len as u64,
                    head_bytes: head_end as u32,
                    tail_bytes: (len - tail_start) as u32,
                    log_seq,
                },
            ),
            kind: PhantomData,
        }
    }
}

impl<K: CapKind> Capped<K> {
    /// The capped text.
    pub fn as_str(&self) -> (r: &str)
        ensures
            r@ == self.text(),
    {
        self.text.as_str()
    }

    /// The runtime limit that was applied (pre-clamp value as declared).
    pub fn applied_limit(&self) -> (r: u32)
        ensures
            r == self.limit(),
    {
        self.applied_limit
    }

    /// Truncation metadata; `None` when the value fit whole.
    pub fn truncation(&self) -> (r: Option<&Truncation>)
        ensures
            match r {
                Some(t) => self.cut() == Some(*t),
                None => self.cut() is None,
            },
    {
        match &self.truncation {
            Some(t) => Some(t),
            None => None,
        }
    }

    /// The budget meter this value reports under.
    pub fn budget_kind() -> (r: BudgetKind)
        ensures
            r == K::meter(),
    {
        K::kind()
    }
}

impl<K: CapKind> Clone for Capped<K> {
    fn clone(&self) -> (res: Self)
        ensures
            res == *self,
    {
        Capped {
            text: self.text.clone(),
            applied_limit: self.applied_limit,
            truncation: self.truncation,
            kind: PhantomData,
        }
    }
}

/// The annotation for a value of `original` bytes stored at `log_seq`.
fn annotation(original: u64, log_seq: u64) -> (r: String)
    ensures
        r@ == annotation_text(original as nat, log_seq as nat),
{
    let mut out = String::new();
    out.append("\n[truncated from ");
    push_decimal(&mut out, original);
    out.append(" bytes; full output at log seq ");
    push_decimal(&mut out, log_seq);
    out.append("]");
    assert(out@ =~= annotation_text(original as nat, log_seq as nat));
    out
}

impl Capped<ToolResult> {
    /// Builds the canonical reversible-offload tool result.
    ///
    /// Values that exceed `runtime_limit` retain head and tail context plus
    /// a log pointer, with the annotation itself included inside the cap: no
    /// uncapped annotation is appended after construction.
    pub fn tool_result(value: &str, runtime_limit: u32, log_seq: u64) -> (r: Self)
        ensures
            r.bytes() == tool_result_bytes(
                value.spec_bytes(),
                clamped(runtime_limit, ToolResult::ceiling()),
                log_seq,
            ),
            r.bytes().len() <= clamped(runtime_limit, ToolResult::ceiling()),
            r.limit() == runtime_limit,
            r.cut() == tool_result_truncation(
                value.spec_bytes(),
                clamped(runtime_limit, ToolResult::ceiling()),
                log_seq,
            ),
    {
        let limit = Self::effective_limit(runtime_limit);
        let len = byte_len(value);
        if len <= limit {
            return Self::head_tail(value, runtime_limit, Some(log_seq));
        }
        let note = annotation(len as u64, log_seq);
        let note_len = byte_len(note.as_str());
        let excerpt_limit = if note_len <= limit {
            limit - note_len
        } else {
            0
        };
        let excerpt = Self::head_tail(value, excerpt_limit as u32, Some(log_seq));
        let mut text = excerpt.text;
        let text_len = byte_len(text.as_str());
        let room = if text_len <= limit {
            limit - text_len
        } else {
            0
        };
        let note_str = note.as_str();
        let note_end = floor_char_boundary(note_str, room);
        proof {
            lemma_floor_boundary(note_str.spec_bytes(), room as int);
        }
        let kept = prefix_of(note_str, note_end);
        append_bytes(&mut text, kept.as_str());
        Capped { text, applied_limit: runtime_limit, truncation: excerpt.truncation, kind: PhantomData }
    }
}

} // verus!
