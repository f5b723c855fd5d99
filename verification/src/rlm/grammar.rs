//! The grammar of one line of the query text surface, as spec functions
//! over the line's characters: the tokens, the arguments they form, and
//! the instruction each verb lowers them to.

use vstd::prelude::*;

use crate::protocol::error::VerbErrorCause;
use crate::reactor::syntax::{all_digits, digits_value};
use crate::rlm::ir::{By, FinalValue, Instr, Out, Range, RangeUnit, Sel};
use crate::rlm::lower::{inline_flag_at, is_alpha, is_digit, is_sep, is_word, skip_seps, slot_output};
use vstd::string::StringSliceAdditionalSpecFns;

verus! {

/// A lexical atom.
pub enum AtomV {
    Ref(u32),
    Range(Range),
    Number(u64),
    Str(Seq<char>),
    Ident(Seq<char>),
}

/// A `--name[=value]` flag.
pub struct FlagV {
    pub name: Seq<char>,
    pub value: Option<AtomV>,
}

/// A token.
pub enum TokenV {
    Atom(AtomV),
    Flag(FlagV),
}

/// A selection.
pub enum SelV {
    Ref(u32),
    Range(Range),
    Whole,
}

/// The source of a final answer.
pub enum FinalV {
    Literal(Seq<char>),
    Ref(u32),
}

/// An instruction, its text fields as characters and its references as
/// slot numbers.
pub enum InstrV {
    Grep { pattern: Seq<char>, sel: SelV, ctx: u16, kind: Option<Seq<char>> },
    Slice { sel: SelV },
    Head { sel: SelV, n: u32 },
    Tail { sel: SelV, n: u32 },
    Count { pattern: Option<Seq<char>>, sel: SelV },
    Partition { sel: SelV, by: By, size: Option<u32>, pattern: Option<Seq<char>> },
    Ask { sel: SelV, question: Seq<char>, sample_k: Option<u8> },
    AskEach { chunks: u32, question: Seq<char> },
    Final { value: FinalV },
}

pub open spec fn sel_view(s: Sel) -> SelV {
    match s {
        Sel::Ref(r) => SelV::Ref(r.slot()),
        Sel::Range(r) => SelV::Range(r),
        Sel::Whole => SelV::Whole,
    }
}

pub open spec fn opt_chars(s: Option<String>) -> Option<Seq<char>> {
    match s {
        Some(t) => Some(t@),
        None => None,
    }
}

pub open spec fn instr_view(i: Instr) -> InstrV {
    match i {
        Instr::Grep { pattern, sel, ctx, kind } => InstrV::Grep {
            pattern: pattern@,
            sel: sel_view(sel),
            ctx,
            kind: match kind {
                Some(k) => Some(k.name()),
                None => None,
            },
        },
        Instr::Slice { sel } => InstrV::Slice { sel: sel_view(sel) },
        Instr::Head { sel, n } => InstrV::Head { sel: sel_view(sel), n },
        Instr::Tail { sel, n } => InstrV::Tail { sel: sel_view(sel), n },
        Instr::Count { pattern, sel } => InstrV::Count {
            pattern: opt_chars(pattern),
            sel: sel_view(sel),
        },
        Instr::Partition { sel, by, size, pattern } => InstrV::Partition {
            sel: sel_view(sel),
            by,
            size,
            pattern: opt_chars(pattern),
        },
        Instr::Ask { sel, question, sample_k } => InstrV::Ask {
            sel: sel_view(sel),
            question: question@,
            sample_k,
        },
        Instr::AskEach { chunks, question } => InstrV::AskEach {
            chunks: chunks.slot(),
            question: question@,
        },
        Instr::Final { value } => InstrV::Final {
            value: match value {
                FinalValue::Literal(s) => FinalV::Literal(s@),
                FinalValue::Ref(r) => FinalV::Ref(r.slot()),
            },
        },
    }
}

// ---------------------------------------------------------------------
// Tokens
// ---------------------------------------------------------------------

/// Position `p` holds `ch`.
pub open spec fn has(c: Seq<char>, p: int, ch: char) -> bool {
    0 <= p < c.len() && c[p] == ch
}

/// A token may end at `p`: the end of the line or a separator.
pub open spec fn at_boundary(c: Seq<char>, p: int) -> bool {
    p >= c.len() || is_sep(c[p])
}

/// The first position at or after `p` that does not continue a word.
pub open spec fn word_end(c: Seq<char>, p: int) -> int
    decreases c.len() - p,
{
    if 0 <= p < c.len() && is_word(c[p]) {
        word_end(c, p + 1)
    } else {
        p
    }
}

/// The first position at or after `p` that is not a digit.
pub open spec fn digit_end(c: Seq<char>, p: int) -> int
    decreases c.len() - p,
{
    if 0 <= p < c.len() && is_digit(c[p]) {
        digit_end(c, p + 1)
    } else {
        p
    }
}

/// The value of the digits in `[a, b)`, if they are digits and it fits.
pub open spec fn digits_fit(c: Seq<char>, a: int, b: int, max: nat) -> Option<nat> {
    let d = c.subrange(a, b);
    if all_digits(d) && digits_value(d) <= max {
        Some(digits_value(d))
    } else {
        None
    }
}

/// A quoted string's body from `p`, after the opening quote, with `acc`
/// read so far: its value and the position after the closing quote. Only
/// `\"` and `\\` escape; a line break or the end of the line inside the
/// quotes is an error.
pub open spec fn string_body(c: Seq<char>, p: int, acc: Seq<char>) -> Result<
    (Seq<char>, int),
    VerbErrorCause,
>
    decreases c.len() - p,
{
    if p < 0 || p >= c.len() {
        Err(VerbErrorCause::Parse)
    } else if c[p] == '"' {
        Ok((acc, p + 1))
    } else if c[p] == '\\' {
        if p + 1 < c.len() && (c[p + 1] == '"' || c[p + 1] == '\\') {
            string_body(c, p + 2, acc.push(c[p + 1]))
        } else {
            Err(VerbErrorCause::Parse)
        }
    } else if c[p] == '\r' || c[p] == '\n' {
        Err(VerbErrorCause::Parse)
    } else {
        string_body(c, p + 1, acc.push(c[p]))
    }
}

/// `%N` at `p`: a one-based slot number that fits `u32`.
pub open spec fn lex_ref(c: Seq<char>, p: int) -> Result<(AtomV, int), VerbErrorCause> {
    let q = digit_end(c, p + 1);
    if q == p + 1 {
        Err(VerbErrorCause::Parse)
    } else {
        match digits_fit(c, p + 1, q, u32::MAX as nat) {
            Some(v) => Ok((AtomV::Ref(v as u32), q)),
            None => Err(VerbErrorCause::BadRef),
        }
    }
}

/// A number at `p` that fits `u64`.
pub open spec fn lex_number(c: Seq<char>, p: int) -> Result<(AtomV, int), VerbErrorCause> {
    let q = digit_end(c, p);
    match digits_fit(c, p, q, u64::MAX as nat) {
        Some(v) => Ok((AtomV::Number(v as u64), q)),
        None => Err(VerbErrorCause::Parse),
    }
}

/// A range bound at `p`.
pub open spec fn range_bound(c: Seq<char>, p: int) -> Result<(u64, int), VerbErrorCause> {
    let q = digit_end(c, p);
    if q == p {
        Err(VerbErrorCause::BadRange)
    } else {
        match digits_fit(c, p, q, u64::MAX as nat) {
            Some(v) => Ok((v as u64, q)),
            None => Err(VerbErrorCause::BadRange),
        }
    }
}

/// The unit a range names.
pub open spec fn range_unit(ident: Seq<char>) -> Option<RangeUnit> {
    if ident == "turn"@ {
        Some(RangeUnit::Turn)
    } else if ident == "seq"@ {
        Some(RangeUnit::Sequence)
    } else if ident == "byte"@ {
        Some(RangeUnit::Byte)
    } else {
        None
    }
}

/// An identifier at `p`, or a range `unit:start..end` with `start <= end`.
pub open spec fn lex_ident_or_range(c: Seq<char>, p: int) -> Result<(AtomV, int), VerbErrorCause> {
    let q = word_end(c, p + 1);
    let ident = c.subrange(p, q);
    if has(c, q, ':') == false {
        Ok((AtomV::Ident(ident), q))
    } else {
        match range_unit(ident) {
            None => Err(VerbErrorCause::BadRange),
            Some(unit) => match range_bound(c, q + 1) {
                Err(e) => Err(e),
                Ok((lo, q2)) => if (has(c, q2, '.') && has(c, q2 + 1, '.')) == false {
                    Err(VerbErrorCause::BadRange)
                } else {
                    match range_bound(c, q2 + 2) {
                        Err(e) => Err(e),
                        Ok((hi, q3)) => if lo > hi {
                            Err(VerbErrorCause::BadRange)
                        } else {
                            Ok((AtomV::Range(Range { unit, start: lo, end: hi }), q3))
                        },
                    }
                },
            },
        }
    }
}

/// An atom at `p`, which must end at a token boundary.
pub open spec fn lex_atom(c: Seq<char>, p: int) -> Result<(AtomV, int), VerbErrorCause> {
    if p < 0 || p >= c.len() {
        Err(VerbErrorCause::Parse)
    } else {
        let r = if c[p] == '"' {
            match string_body(c, p + 1, Seq::empty()) {
                Ok((s, q)) => Ok((AtomV::Str(s), q)),
                Err(e) => Err(e),
            }
        } else if c[p] == '%' {
            lex_ref(c, p)
        } else if is_digit(c[p]) {
            lex_number(c, p)
        } else if is_alpha(c[p]) {
            lex_ident_or_range(c, p)
        } else {
            Err(VerbErrorCause::Parse)
        };
        match r {
            Err(e) => Err(e),
            Ok((a, q)) => if at_boundary(c, q) {
                Ok((a, q))
            } else if a is Range {
                Err(VerbErrorCause::BadRange)
            } else {
                Err(VerbErrorCause::Parse)
            },
        }
    }
}

/// A flag's name and value from `p`, after its `--`.
pub open spec fn lex_flag(c: Seq<char>, p: int) -> Result<(FlagV, int), VerbErrorCause> {
    if !(0 <= p < c.len() && is_alpha(c[p])) {
        Err(VerbErrorCause::BadFlag)
    } else {
        let q = word_end(c, p + 1);
        let name = c.subrange(p, q);
        if has(c, q, '=') {
            let v = q + 1;
            if v >= c.len() || is_sep(c[v]) || (has(c, v, '-') && has(c, v + 1, '-')) {
                Err(VerbErrorCause::BadFlag)
            } else {
                match lex_atom(c, v) {
                    Err(_) => Err(VerbErrorCause::BadFlag),
                    Ok((a, q2)) => Ok((FlagV { name, value: Some(a) }, q2)),
                }
            }
        } else if at_boundary(c, q) {
            Ok((FlagV { name, value: None }, q))
        } else {
            Err(VerbErrorCause::BadFlag)
        }
    }
}

/// The next token at or after `p`, if any.
pub open spec fn lex_token(c: Seq<char>, p: int) -> Result<Option<(TokenV, int)>, VerbErrorCause> {
    let s = skip_seps(c, p);
    if s >= c.len() {
        Ok(None)
    } else if has(c, s, '-') && has(c, s + 1, '-') {
        match lex_flag(c, s + 2) {
            Err(e) => Err(e),
            Ok((f, q)) => Ok(Some((TokenV::Flag(f), q))),
        }
    } else {
        match lex_atom(c, s) {
            Err(e) => Err(e),
            Ok((a, q)) => Ok(Some((TokenV::Atom(a), q))),
        }
    }
}

/// Every token from `p` to the end of the line.
#[verifier::opaque]
pub open spec fn lex_rest(c: Seq<char>, p: int) -> Result<Seq<TokenV>, VerbErrorCause>
    decreases c.len() - p,
{
    match lex_token(c, p) {
        Err(e) => Err(e),
        Ok(None) => Ok(Seq::empty()),
        Ok(Some((t, q))) => if q <= p || q > c.len() {
            Err(VerbErrorCause::Parse)
        } else {
            match lex_rest(c, q) {
                Err(e) => Err(e),
                Ok(ts) => Ok(seq![t] + ts),
            }
        },
    }
}

/// `pre` followed by the tokens of `r`, or the error of `r`.
pub open spec fn after_tokens(pre: Seq<TokenV>, r: Result<Seq<TokenV>, VerbErrorCause>) -> Result<
    Seq<TokenV>,
    VerbErrorCause,
> {
    match r {
        Err(e) => Err(e),
        Ok(ts) => Ok(pre + ts),
    }
}

/// One step of the token scan.
pub proof fn lemma_lex_rest_step(c: Seq<char>, p: int)
    ensures
        lex_token(c, p) matches Err(e) ==> lex_rest(c, p) == Err::<Seq<TokenV>, VerbErrorCause>(e),
        lex_token(c, p) matches Ok(None) ==> lex_rest(c, p) == Ok::<Seq<TokenV>, VerbErrorCause>(
            Seq::empty(),
        ),
        match lex_token(c, p) {
            Ok(Some((t, q))) => p < q <= c.len() ==> lex_rest(c, p) == after_tokens(
                seq![t],
                lex_rest(c, q),
            ),
            _ => true,
        },
{
    reveal(lex_rest);
}

/// A line's verb and the tokens after it.
pub open spec fn lex_words(c: Seq<char>) -> Result<(Seq<char>, Seq<TokenV>), VerbErrorCause> {
    match lex_token(c, 0) {
        Err(e) => Err(e),
        Ok(None) => Err(VerbErrorCause::Parse),
        Ok(Some((t, q))) => match t {
            TokenV::Atom(AtomV::Ident(v)) => match lex_rest(c, q) {
                Err(e) => Err(e),
                Ok(ts) => Ok((v, ts)),
            },
            _ => Err(VerbErrorCause::Parse),
        },
    }
}

// ---------------------------------------------------------------------
// Arguments
// ---------------------------------------------------------------------

/// The atoms among the tokens, in order.
pub open spec fn atoms_of(ts: Seq<TokenV>) -> Seq<AtomV>
    decreases ts.len(),
{
    if ts.len() == 0 {
        Seq::empty()
    } else {
        let rest = atoms_of(ts.drop_last());
        match ts.last() {
            TokenV::Atom(a) => rest.push(a),
            TokenV::Flag(_) => rest,
        }
    }
}

/// The flags among the tokens, in order.
pub open spec fn flags_of(ts: Seq<TokenV>) -> Seq<FlagV>
    decreases ts.len(),
{
    if ts.len() == 0 {
        Seq::empty()
    } else {
        let rest = flags_of(ts.drop_last());
        match ts.last() {
            TokenV::Flag(f) => rest.push(f),
            TokenV::Atom(_) => rest,
        }
    }
}

/// Two flags share a name.
pub open spec fn repeats_flag(fs: Seq<FlagV>) -> bool {
    exists|i: int, j: int| 0 <= i < j < fs.len() && #[trigger] fs[i].name == #[trigger] fs[j].name
}

/// A flag named neither `a` nor `b`.
pub open spec fn flag_outside(fs: Seq<FlagV>, a: Seq<char>, b: Seq<char>) -> bool {
    exists|i: int| 0 <= i < fs.len() && #[trigger] fs[i].name != a && fs[i].name != b
}

/// The flag named `name`, if there is one.
pub open spec fn flag_named(fs: Seq<FlagV>, name: Seq<char>) -> Option<FlagV>
    decreases fs.len(),
{
    if fs.len() == 0 {
        None
    } else if fs[0].name == name {
        Some(fs[0])
    } else {
        flag_named(fs.drop_first(), name)
    }
}

// ---------------------------------------------------------------------
// Verbs
// ---------------------------------------------------------------------

/// A pattern the versioned dialect admits: no unescaped inline flag.
pub open spec fn pattern_ok(p: Seq<char>) -> bool {
    !exists|i: int| inline_flag_at(vstd::utf8::encode_utf8(p), i)
}

/// A selection written as an atom.
pub open spec fn sel_of(a: AtomV, outputs: Seq<Option<Out>>) -> Result<SelV, VerbErrorCause> {
    match a {
        AtomV::Ref(line) => if slot_output(outputs, line) == Some(Out::Records) {
            Ok(SelV::Ref(line))
        } else {
            Err(VerbErrorCause::BadRef)
        },
        AtomV::Range(r) => Ok(SelV::Range(r)),
        _ => Err(VerbErrorCause::Parse),
    }
}

/// The whole transcript, or the one selection written.
pub open spec fn optional_sel(ps: Seq<AtomV>, outputs: Seq<Option<Out>>) -> Result<SelV, VerbErrorCause> {
    if ps.len() == 0 {
        Ok(SelV::Whole)
    } else if ps.len() == 1 {
        sel_of(ps[0], outputs)
    } else {
        Err(VerbErrorCause::Parse)
    }
}

/// A flag's numeric value, if it fits `max`; `BadFlag` otherwise.
pub open spec fn flag_number(f: FlagV, max: nat) -> Result<nat, VerbErrorCause> {
    match f.value {
        Some(AtomV::Number(v)) => if v <= max {
            Ok(v as nat)
        } else {
            Err(VerbErrorCause::BadFlag)
        },
        _ => Err(VerbErrorCause::BadFlag),
    }
}

/// `grep "pattern" [sel] [--ctx=N] [--kind=K]`.
pub open spec fn grep_of(ps: Seq<AtomV>, fs: Seq<FlagV>, outputs: Seq<Option<Out>>) -> Result<
    InstrV,
    VerbErrorCause,
> {
    if flag_outside(fs, "ctx"@, "kind"@) {
        Err(VerbErrorCause::BadFlag)
    } else {
        let ctx = match flag_named(fs, "ctx"@) {
            None => Ok(0nat),
            Some(f) => flag_number(f, u16::MAX as nat),
        };
        let kind = match flag_named(fs, "kind"@) {
            None => Ok(None::<Seq<char>>),
            Some(f) => match f.value {
                Some(AtomV::Ident(k)) => Ok(Some(k)),
                _ => Err(VerbErrorCause::BadFlag),
            },
        };
        match (ctx, kind) {
            (Err(e), _) => Err(e),
            (_, Err(e)) => Err(e),
            (Ok(ctx), Ok(kind)) => if ps.len() != 1 && ps.len() != 2 {
                Err(VerbErrorCause::Parse)
            } else {
                match ps[0] {
                    AtomV::Str(pattern) => {
                        let sel = if ps.len() == 1 {
                            Ok(SelV::Whole)
                        } else {
                            sel_of(ps[1], outputs)
                        };
                        match sel {
                            Err(e) => Err(e),
                            Ok(sel) => if pattern_ok(pattern) {
                                Ok(InstrV::Grep { pattern, sel, ctx: ctx as u16, kind })
                            } else {
                                Err(VerbErrorCause::Parse)
                            },
                        }
                    },
                    _ => Err(VerbErrorCause::Parse),
                }
            },
        }
    }
}

/// `slice [sel]`.
pub open spec fn slice_of(ps: Seq<AtomV>, fs: Seq<FlagV>, outputs: Seq<Option<Out>>) -> Result<
    InstrV,
    VerbErrorCause,
> {
    if fs.len() > 0 {
        Err(VerbErrorCause::BadFlag)
    } else {
        match optional_sel(ps, outputs) {
            Err(e) => Err(e),
            Ok(sel) => Ok(InstrV::Slice { sel }),
        }
    }
}

/// `head N [sel]` or `tail N [sel]`.
pub open spec fn head_or_tail_of(
    ps: Seq<AtomV>,
    fs: Seq<FlagV>,
    outputs: Seq<Option<Out>>,
    tail: bool,
) -> Result<InstrV, VerbErrorCause> {
    if fs.len() > 0 {
        Err(VerbErrorCause::BadFlag)
    } else if ps.len() != 1 && ps.len() != 2 {
        Err(VerbErrorCause::Parse)
    } else {
        match ps[0] {
            AtomV::Number(n) => if n > u32::MAX {
                Err(VerbErrorCause::Parse)
            } else {
                let sel = if ps.len() == 1 {
                    Ok(SelV::Whole)
                } else {
                    sel_of(ps[1], outputs)
                };
                match sel {
                    Err(e) => Err(e),
                    Ok(sel) => if tail {
                        Ok(InstrV::Tail { sel, n: n as u32 })
                    } else {
                        Ok(InstrV::Head { sel, n: n as u32 })
                    },
                }
            },
            _ => Err(VerbErrorCause::Parse),
        }
    }
}

/// `count ["pattern"] [sel]`.
pub open spec fn count_of(ps: Seq<AtomV>, fs: Seq<FlagV>, outputs: Seq<Option<Out>>) -> Result<
    InstrV,
    VerbErrorCause,
> {
    if fs.len() > 0 {
        Err(VerbErrorCause::BadFlag)
    } else {
        let parts: Result<(Option<Seq<char>>, SelV), VerbErrorCause> = if ps.len() == 0 {
            Ok((None, SelV::Whole))
        } else if ps.len() == 1 {
            match ps[0] {
                AtomV::Str(p) => Ok((Some(p), SelV::Whole)),
                a => match sel_of(a, outputs) {
                    Err(e) => Err(e),
                    Ok(sel) => Ok((None, sel)),
                },
            }
        } else if ps.len() == 2 {
            match ps[0] {
                AtomV::Str(p) => match sel_of(ps[1], outputs) {
                    Err(e) => Err(e),
                    Ok(sel) => Ok((Some(p), sel)),
                },
                _ => Err(VerbErrorCause::Parse),
            }
        } else {
            Err(VerbErrorCause::Parse)
        };
        match parts {
            Err(e) => Err(e),
            Ok((pattern, sel)) => if pattern matches Some(p) && !pattern_ok(p) {
                Err(VerbErrorCause::Parse)
            } else {
                Ok(InstrV::Count { pattern, sel })
            },
        }
    }
}

/// The strategy `--by` names.
pub open spec fn by_of(name: Seq<char>) -> Option<By> {
    if name == "turns"@ {
        Some(By::Turns)
    } else if name == "bytes"@ {
        Some(By::Bytes)
    } else if name == "regex"@ {
        Some(By::Regex)
    } else {
        None
    }
}

/// `partition [sel] --by=turns|bytes --size=N` or
/// `partition [sel] "pattern" --by=regex`.
pub open spec fn partition_of(ps: Seq<AtomV>, fs: Seq<FlagV>, outputs: Seq<Option<Out>>) -> Result<
    InstrV,
    VerbErrorCause,
> {
    if flag_outside(fs, "by"@, "size"@) {
        Err(VerbErrorCause::BadFlag)
    } else {
        let by = match flag_named(fs, "by"@) {
            Some(f) => match f.value {
                Some(AtomV::Ident(b)) => by_of(b),
                _ => None,
            },
            None => None,
        };
        match by {
            None => Err(VerbErrorCause::BadFlag),
            Some(By::Regex) => if flag_named(fs, "size"@) is Some {
                Err(VerbErrorCause::BadFlag)
            } else {
                let parts: Result<(SelV, Seq<char>), VerbErrorCause> = if ps.len() == 1 {
                    match ps[0] {
                        AtomV::Str(p) => Ok((SelV::Whole, p)),
                        _ => Err(VerbErrorCause::Parse),
                    }
                } else if ps.len() == 2 {
                    match ps[1] {
                        AtomV::Str(p) => match sel_of(ps[0], outputs) {
                            Err(e) => Err(e),
                            Ok(sel) => Ok((sel, p)),
                        },
                        _ => Err(VerbErrorCause::Parse),
                    }
                } else {
                    Err(VerbErrorCause::Parse)
                };
                match parts {
                    Err(e) => Err(e),
                    Ok((sel, p)) => if pattern_ok(p) {
                        Ok(InstrV::Partition { sel, by: By::Regex, size: None, pattern: Some(p) })
                    } else {
                        Err(VerbErrorCause::Parse)
                    },
                }
            },
            Some(b) => match optional_sel(ps, outputs) {
                Err(e) => Err(e),
                Ok(sel) => match flag_named(fs, "size"@) {
                    None => Err(VerbErrorCause::BadFlag),
                    Some(f) => match flag_number(f, u32::MAX as nat) {
                        Err(e) => Err(e),
                        Ok(size) => Ok(
                            InstrV::Partition { sel, by: b, size: Some(size as u32), pattern: None },
                        ),
                    },
                },
            },
        }
    }
}

/// `ask [sel] "question" [--sample-k=N]`.
pub open spec fn ask_of(ps: Seq<AtomV>, fs: Seq<FlagV>, outputs: Seq<Option<Out>>) -> Result<
    InstrV,
    VerbErrorCause,
> {
    if flag_outside(fs, "sample-k"@, "sample-k"@) {
        Err(VerbErrorCause::BadFlag)
    } else {
        let k = match flag_named(fs, "sample-k"@) {
            None => Ok(None::<u8>),
            Some(f) => match flag_number(f, u8::MAX as nat) {
                Err(e) => Err(e),
                Ok(k) => Ok(Some(k as u8)),
            },
        };
        match k {
            Err(e) => Err(e),
            Ok(sample_k) => {
                let parts: Result<(SelV, Seq<char>), VerbErrorCause> = if ps.len() == 1 {
                    match ps[0] {
                        AtomV::Str(q) => Ok((SelV::Whole, q)),
                        _ => Err(VerbErrorCause::Parse),
                    }
                } else if ps.len() == 2 {
                    match ps[1] {
                        AtomV::Str(q) => match sel_of(ps[0], outputs) {
                            Err(e) => Err(e),
                            Ok(sel) => Ok((sel, q)),
                        },
                        _ => Err(VerbErrorCause::Parse),
                    }
                } else {
                    Err(VerbErrorCause::Parse)
                };
                match parts {
                    Err(e) => Err(e),
                    Ok((sel, question)) => Ok(InstrV::Ask { sel, question, sample_k }),
                }
            },
        }
    }
}

/// `ask-each %N "question"`, where line `N` produced chunks.
pub open spec fn ask_each_of(ps: Seq<AtomV>, fs: Seq<FlagV>, outputs: Seq<Option<Out>>) -> Result<
    InstrV,
    VerbErrorCause,
> {
    if fs.len() > 0 {
        Err(VerbErrorCause::BadFlag)
    } else if ps.len() != 2 {
        Err(VerbErrorCause::Parse)
    } else {
        match (ps[0], ps[1]) {
            (AtomV::Ref(line), AtomV::Str(question)) => if slot_output(outputs, line) == Some(
                Out::Chunks,
            ) {
                Ok(InstrV::AskEach { chunks: line, question })
            } else {
                Err(VerbErrorCause::BadRef)
            },
            _ => Err(VerbErrorCause::Parse),
        }
    }
}

/// `final "literal"` or `final %N`.
pub open spec fn final_of(ps: Seq<AtomV>, fs: Seq<FlagV>, outputs: Seq<Option<Out>>) -> Result<
    InstrV,
    VerbErrorCause,
> {
    if fs.len() > 0 {
        Err(VerbErrorCause::BadFlag)
    } else if ps.len() != 1 {
        Err(VerbErrorCause::Parse)
    } else {
        match ps[0] {
            AtomV::Str(s) => Ok(InstrV::Final { value: FinalV::Literal(s) }),
            AtomV::Ref(line) => if slot_output(outputs, line) is Some {
                Ok(InstrV::Final { value: FinalV::Ref(line) })
            } else {
                Err(VerbErrorCause::BadRef)
            },
            _ => Err(VerbErrorCause::Parse),
        }
    }
}

/// What a verb lowers its arguments to.
pub open spec fn verb_of(
    verb: Seq<char>,
    ps: Seq<AtomV>,
    fs: Seq<FlagV>,
    outputs: Seq<Option<Out>>,
) -> Result<InstrV, VerbErrorCause> {
    if verb == "grep"@ {
        grep_of(ps, fs, outputs)
    } else if verb == "slice"@ {
        slice_of(ps, fs, outputs)
    } else if verb == "head"@ {
        head_or_tail_of(ps, fs, outputs, false)
    } else if verb == "tail"@ {
        head_or_tail_of(ps, fs, outputs, true)
    } else if verb == "count"@ {
        count_of(ps, fs, outputs)
    } else if verb == "partition"@ {
        partition_of(ps, fs, outputs)
    } else if verb == "ask"@ {
        ask_of(ps, fs, outputs)
    } else if verb == "ask-each"@ {
        ask_each_of(ps, fs, outputs)
    } else if verb == "final"@ {
        final_of(ps, fs, outputs)
    } else {
        Err(VerbErrorCause::Parse)
    }
}

} // verus!
