//! Lowering for the line-oriented query text surface.
//!
//! Every nonempty physical line binds one one-based slot. Syntax and type
//! failures are inline error values, so a later line can still lower.
//! References (`%N`) name earlier slots only, and only slots whose declared
//! output has the type the verb needs.

use vstd::prelude::*;
use vstd::string::{StrSliceExecFns, StringSliceAdditionalSpecFns};

use crate::protocol::error::VerbErrorCause;
use crate::reactor::syntax::{digits_value, lemma_digits_grow};
use crate::rlm::grammar;
use crate::rlm::grammar::{
    at_boundary, digit_end, digits_fit, has, lex_atom, lex_flag, lex_ident_or_range, lex_number,
    lex_ref, lex_rest, lex_token, after_tokens, lemma_lex_rest_step, lex_words, range_bound, repeats_flag, string_body, word_end,
    atoms_of, flag_named, flag_outside, flags_of, sel_of, sel_view, instr_view, grep_of, slice_of,
    head_or_tail_of, count_of, partition_of, ask_of, ask_each_of, final_of, verb_of, InstrV, AtomV,
    FlagV,
    TokenV,
};
use crate::text::{chars_of, same_text};
use crate::rlm::ir::{
    bound_out, Any, Binding, BoundValue, By, Chunks, EventKind, FinalValue, Instr, Out, Query,
    Range, RangeUnit, Records, Ref, Sel, VerbError,
};

verus! {

/// A space or a tab.
pub open spec fn is_sep(ch: char) -> bool {
    ch == ' ' || ch == '\t'
}

/// An ASCII letter.
pub open spec fn is_alpha(ch: char) -> bool {
    ('a' <= ch && ch <= 'z') || ('A' <= ch && ch <= 'Z')
}

/// An ASCII digit.
pub open spec fn is_digit(ch: char) -> bool {
    '0' <= ch && ch <= '9'
}

/// A character that may continue an identifier or flag name.
pub open spec fn is_word(ch: char) -> bool {
    is_alpha(ch) || is_digit(ch) || ch == '-' || ch == '_'
}

/// An ASCII whitespace character: space, tab, line feed, form feed or
/// carriage return.
pub open spec fn is_ascii_ws(ch: char) -> bool {
    ch == ' ' || ch == '\t' || ch == '\n' || ch == '\x0C' || ch == '\r'
}

/// A line that is empty or holds only ASCII whitespace.
pub open spec fn is_blank(line: Seq<char>) -> bool {
    forall|i: int| 0 <= i < line.len() ==> is_ascii_ws(#[trigger] line[i])
}

/// The first position at or after `p` that is not a separator.
pub open spec fn skip_seps(c: Seq<char>, p: int) -> int
    decreases c.len() - p,
{
    if 0 <= p < c.len() && is_sep(c[p]) {
        skip_seps(c, p + 1)
    } else {
        p
    }
}

/// The first position at or after `p` that is a separator, or the end.
pub open spec fn token_end(c: Seq<char>, p: int) -> int
    decreases c.len() - p,
{
    if 0 <= p < c.len() && !is_sep(c[p]) {
        token_end(c, p + 1)
    } else {
        p
    }
}

/// The verb spelling reported for an erroneous line: its first
/// separator-delimited word.
pub open spec fn verb_hint_text(line: Seq<char>) -> Seq<char> {
    let s = skip_seps(line, 0);
    line.subrange(s, token_end(line, s))
}

/// The slot a one-based `%N` names, if it is an earlier slot.
pub open spec fn slot_output(outputs: Seq<Option<Out>>, line: u32) -> Option<Out> {
    if 1 <= line && line <= outputs.len() {
        outputs[line - 1]
    } else {
        None
    }
}

/// A selection's reference, if any, names an earlier record selection.
pub open spec fn sel_refs_ok(sel: Sel, outputs: Seq<Option<Out>>) -> bool {
    match sel {
        Sel::Ref(r) => slot_output(outputs, r.slot()) == Some(Out::Records),
        _ => true,
    }
}

/// Every reference in the instruction names an earlier, successfully
/// lowered slot of the type the verb requires.
pub open spec fn refs_ok(i: Instr, outputs: Seq<Option<Out>>) -> bool {
    match i {
        Instr::Grep { sel, .. } => sel_refs_ok(sel, outputs),
        Instr::Slice { sel } => sel_refs_ok(sel, outputs),
        Instr::Head { sel, .. } => sel_refs_ok(sel, outputs),
        Instr::Tail { sel, .. } => sel_refs_ok(sel, outputs),
        Instr::Count { sel, .. } => sel_refs_ok(sel, outputs),
        Instr::Partition { sel, .. } => sel_refs_ok(sel, outputs),
        Instr::Ask { sel, .. } => sel_refs_ok(sel, outputs),
        Instr::AskEach { chunks, .. } => slot_output(outputs, chunks.slot()) == Some(Out::Chunks),
        Instr::Final { value } => match value {
            FinalValue::Ref(r) => slot_output(outputs, r.slot()) is Some,
            FinalValue::Literal(_) => true,
        },
    }
}

/// A partition names exactly the argument its strategy needs.
pub open spec fn partition_shape_ok(i: Instr) -> bool {
    match i {
        Instr::Partition { by, size, pattern, .. } => match by {
            By::Regex => size is None && pattern is Some,
            _ => size is Some && pattern is None,
        },
        _ => true,
    }
}

/// The declared outputs of a sequence of bindings.
pub open spec fn outputs_of(bs: Seq<Binding>) -> Seq<Option<Out>> {
    Seq::new(bs.len(), |k: int| bound_out(bs[k].value))
}

/// How many bindings hold an instruction.
pub open spec fn instr_count(bs: Seq<Binding>) -> nat
    decreases bs.len(),
{
    if bs.len() == 0 {
        0
    } else {
        instr_count(bs.drop_last()) + if bs.last().value is Instr {
            1nat
        } else {
            0nat
        }
    }
}

/// A count saturated to `u32`.
pub open spec fn sat_slot(n: int) -> u32 {
    if n <= u32::MAX {
        n as u32
    } else {
        u32::MAX
    }
}

/// The physical lines of a script from position `i`, split at `'\n'` with
/// one trailing `'\r'` removed from each.
pub open spec fn lines_from(s: Seq<char>, i: int) -> Seq<Seq<char>>
    decreases s.len() - i,
{
    if i > s.len() || i < 0 {
        Seq::empty()
    } else {
        let j = next_newline(s, i);
        proof {
            lemma_next_newline_bounds(s, i);
        }
        if j >= s.len() {
            seq![strip_cr(s.subrange(i, s.len() as int))]
        } else {
            seq![strip_cr(s.subrange(i, j))] + lines_from(s, j + 1)
        }
    }
}

/// The first `'\n'` at or after `i`, or the end.
pub open spec fn next_newline(s: Seq<char>, i: int) -> int
    decreases s.len() - i,
{
    if 0 <= i < s.len() && s[i] != '\n' {
        next_newline(s, i + 1)
    } else {
        i
    }
}

/// The next newline lies at or after `i`, and none comes before it.
pub proof fn lemma_next_newline_bounds(s: Seq<char>, i: int)
    requires
        0 <= i <= s.len(),
    ensures
        i <= next_newline(s, i) <= s.len(),
        next_newline(s, i) < s.len() ==> s[next_newline(s, i)] == '\n',
        forall|k: int| i <= k < next_newline(s, i) ==> s[k] != '\n',
    decreases s.len() - i,
{
    if i < s.len() && s[i] != '\n' {
        lemma_next_newline_bounds(s, i + 1);
    }
}

/// A line without one trailing carriage return.
pub open spec fn strip_cr(l: Seq<char>) -> Seq<char> {
    if l.len() > 0 && l.last() == '\r' {
        l.drop_last()
    } else {
        l
    }
}

/// How many of the lines are nonblank.
pub open spec fn nonblank_count(ls: Seq<Seq<char>>) -> nat
    decreases ls.len(),
{
    if ls.len() == 0 {
        0
    } else {
        nonblank_count(ls.drop_last()) + if is_blank(ls.last()) {
            0nat
        } else {
            1nat
        }
    }
}

/// Whether `%N`-style references of the lowered query are all typed and
/// backward.
pub open spec fn query_refs_ok(q: Seq<Binding>) -> bool {
    forall|k: int|
        0 <= k < q.len() ==> match (#[trigger] q[k]).value {
            BoundValue::Instr(i) => refs_ok(i, outputs_of(q.take(k))) && partition_shape_ok(i),
            BoundValue::Error(_) => true,
        }
}

/// Byte `b` is an inline regex flag character.
pub open spec fn is_flag_byte(b: u8) -> bool {
    b == 0x69 || b == 0x6d || b == 0x73 || b == 0x52 || b == 0x55 || b == 0x75 || b == 0x78
        || b == 0x2d
}

/// The number of backslashes immediately before index `i`.
pub open spec fn backslashes_before(b: Seq<u8>, i: int) -> nat
    decreases i,
{
    if i > 0 && i <= b.len() && b[i - 1] == 0x5c {
        backslashes_before(b, i - 1) + 1
    } else {
        0
    }
}

/// An unescaped `(?` followed by an inline flag starts at `i`.
pub open spec fn inline_flag_at(b: Seq<u8>, i: int) -> bool {
    &&& 0 <= i
    &&& i + 2 < b.len()
    &&& b[i] == 0x28
    &&& b[i + 1] == 0x3f
    &&& backslashes_before(b, i) % 2 == 0
    &&& is_flag_byte(b[i + 2])
}

/// The characters of `s` in `[from, to)`, as a string.
fn piece(s: &str, from: usize, to: usize) -> (r: String)
    requires
        from <= to <= s@.len(),
    ensures
        r@ == s@.subrange(from as int, to as int),
{
    s.substring_char(from, to).to_owned()
}

fn char_is_sep(ch: char) -> (r: bool)
    ensures
        r == is_sep(ch),
{
    ch == ' ' || ch == '\t'
}

fn char_is_ascii_ws(ch: char) -> (r: bool)
    ensures
        r == is_ascii_ws(ch),
{
    ch == ' ' || ch == '\t' || ch == '\n' || ch == '\x0C' || ch == '\r'
}

fn char_is_alpha(ch: char) -> (r: bool)
    ensures
        r == is_alpha(ch),
{
    ('a' <= ch && ch <= 'z') || ('A' <= ch && ch <= 'Z')
}

fn char_is_digit(ch: char) -> (r: bool)
    ensures
        r == is_digit(ch),
{
    '0' <= ch && ch <= '9'
}

fn char_is_word(ch: char) -> (r: bool)
    ensures
        r == is_word(ch),
{
    char_is_alpha(ch) || char_is_digit(ch) || ch == '-' || ch == '_'
}

/// The verb spelling reported for an erroneous line.
fn verb_hint(line: &str) -> (r: String)
    ensures
        r@ == verb_hint_text(line@),
{
    let c = chars_of(line);
    let mut s: usize = 0;
    while s < c.len() && char_is_sep(c[s])
        invariant
            s <= c@.len(),
            c@ == line@,
            skip_seps(c@, 0) == skip_seps(c@, s as int),
        decreases c@.len() - s,
    {
        s = s + 1;
    }
    let mut e = s;
    while e < c.len() && !char_is_sep(c[e])
        invariant
            s <= e <= c@.len(),
            c@ == line@,
            token_end(c@, s as int) == token_end(c@, e as int),
        decreases c@.len() - e,
    {
        e = e + 1;
    }
    piece(line, s, e)
}

/// One lexical atom.
enum Atom {
    Ref(u32),
    Range(Range),
    Number(u64),
    Str(String),
    Ident(String),
}

/// One `--name[=value]` flag.
struct Flag {
    name: String,
    value: Option<Atom>,
}

/// One lexical token.
enum Token {
    Atom(Atom),
    Flag(Flag),
}

/// A line's arguments after the verb.
struct Args {
    positional: Vec<Atom>,
    flags: Vec<Flag>,
}

spec fn atom_view(a: Atom) -> AtomV {
    match a {
        Atom::Ref(n) => AtomV::Ref(n),
        Atom::Range(r) => AtomV::Range(r),
        Atom::Number(n) => AtomV::Number(n),
        Atom::Str(s) => AtomV::Str(s@),
        Atom::Ident(s) => AtomV::Ident(s@),
    }
}

spec fn flag_view(f: Flag) -> FlagV {
    FlagV {
        name: f.name@,
        value: match f.value {
            Some(a) => Some(atom_view(a)),
            None => None,
        },
    }
}

spec fn token_view(t: Token) -> TokenV {
    match t {
        Token::Atom(a) => TokenV::Atom(atom_view(a)),
        Token::Flag(f) => TokenV::Flag(flag_view(f)),
    }
}

/// The position-tracking scanner over one line.
struct Lexer<'a> {
    input: &'a str,
    chars: Vec<char>,
    position: usize,
}

impl<'a> Lexer<'a> {
    spec fn wf(&self) -> bool {
        &&& self.chars@ == self.input@
        &&& self.position <= self.chars@.len()
    }

    spec fn same_line(&self, other: &Self) -> bool {
        &&& self.wf()
        &&& self.input == other.input
        &&& self.chars@ == other.chars@
    }

    fn new(input: &'a str) -> (r: Self)
        ensures
            r.wf(),
            r.position == 0,
            r.chars@ == input@,
    {
        Lexer { input, chars: chars_of(input), position: 0 }
    }

    fn at_end(&self) -> (r: bool)
        requires
            self.wf(),
        ensures
            r == (self.position == self.chars@.len()),
    {
        self.position == self.chars.len()
    }

    fn peek_char(&self) -> (r: Option<char>)
        requires
            self.wf(),
        ensures
            self.position < self.chars@.len() ==> r == Some(self.chars@[self.position as int]),
            self.position >= self.chars@.len() ==> r is None,
    {
        if self.position < self.chars.len() {
            Some(self.chars[self.position])
        } else {
            None
        }
    }

    fn peek_is(&self, ch: char) -> (r: bool)
        requires
            self.wf(),
        ensures
            r == has(self.chars@, self.position as int, ch),
    {
        self.position < self.chars.len() && self.chars[self.position] == ch
    }

    fn peek_at_is(&self, ahead: usize, ch: char) -> (r: bool)
        requires
            self.wf(),
        ensures
            r == has(self.chars@, self.position + ahead, ch),
    {
        if ahead < self.chars.len() - self.position {
            self.chars[self.position + ahead] == ch
        } else {
            false
        }
    }

    fn starts_double(&self, ch: char) -> (r: bool)
        requires
            self.wf(),
        ensures
            r == (has(self.chars@, self.position as int, ch) && has(
                self.chars@,
                self.position + 1,
                ch,
            )),
    {
        self.peek_at_is(0, ch) && self.peek_at_is(1, ch)
    }

    fn bump_char(&mut self)
        requires
            old(self).wf(),
        ensures
            final(self).same_line(old(self)),
            final(self).position == if old(self).position < old(self).chars@.len() {
                old(self).position + 1
            } else {
                old(self).position as int
            },
    {
        if self.position < self.chars.len() {
            self.position = self.position + 1;
        }
    }

    fn skip_while_word(&mut self)
        requires
            old(self).wf(),
        ensures
            final(self).same_line(old(self)),
            final(self).position == word_end(old(self).chars@, old(self).position as int),
            final(self).position >= old(self).position,
    {
        while self.position < self.chars.len() && char_is_word(self.chars[self.position])
            invariant
                self.same_line(old(self)),
                self.position >= old(self).position,
                word_end(self.chars@, self.position as int) == word_end(
                    self.chars@,
                    old(self).position as int,
                ),
            decreases self.chars@.len() - self.position,
        {
            self.position = self.position + 1;
        }
    }

    fn skip_while_digit(&mut self)
        requires
            old(self).wf(),
        ensures
            final(self).same_line(old(self)),
            final(self).position == digit_end(old(self).chars@, old(self).position as int),
            final(self).position >= old(self).position,
            forall|i: int|
                old(self).position <= i < final(self).position ==> is_digit(
                    #[trigger] final(self).chars@[i],
                ),
    {
        while self.position < self.chars.len() && char_is_digit(self.chars[self.position])
            invariant
                self.same_line(old(self)),
                self.position >= old(self).position,
                digit_end(self.chars@, self.position as int) == digit_end(
                    self.chars@,
                    old(self).position as int,
                ),
                forall|i: int|
                    old(self).position <= i < self.position ==> is_digit(#[trigger] self.chars@[i]),
            decreases self.chars@.len() - self.position,
        {
            self.position = self.position + 1;
        }
    }

    fn skip_separator(&mut self)
        requires
            old(self).wf(),
        ensures
            final(self).same_line(old(self)),
            final(self).position == skip_seps(old(self).chars@, old(self).position as int),
            final(self).position >= old(self).position,
    {
        while self.position < self.chars.len() && char_is_sep(self.chars[self.position])
            invariant
                self.same_line(old(self)),
                self.position >= old(self).position,
                skip_seps(self.chars@, self.position as int) == skip_seps(
                    self.chars@,
                    old(self).position as int,
                ),
            decreases self.chars@.len() - self.position,
        {
            self.position = self.position + 1;
        }
    }

    /// The decimal value of the digits in `[from, to)`, if it fits.
    fn digits_value(&self, from: usize, to: usize) -> (r: Option<u64>)
        requires
            self.wf(),
            from < to <= self.chars@.len(),
        ensures
            r == match digits_fit(self.chars@, from as int, to as int, u64::MAX as nat) {
                Some(v) => Some(v as u64),
                None => None::<u64>,
            },
    {
        let ghost d = self.chars@.subrange(from as int, to as int);
        let mut value: u64 = 0;
        let mut i = from;
        while i < to
            invariant
                self.wf(),
                from <= i <= to <= self.chars@.len(),
                d == self.chars@.subrange(from as int, to as int),
                forall|j: int| from <= j < i ==> '0' <= #[trigger] self.chars@[j] <= '9',
                value == digits_value(d.take(i - from)),
            decreases to - i,
        {
            let ch = self.chars[i];
            if !char_is_digit(ch) {
                assert(d[i - from] == ch);
                return None;
            }
            let digit = (ch as u32 - 48) as u64;
            assert(d.take(i - from + 1).drop_last() =~= d.take(i - from));
            let shifted = match value.checked_mul(10) {
                Some(v) => v,
                None => {
                    proof {
                        lemma_digits_grow(d, i - from + 1);
                    }
                    return None;
                },
            };
            value = match shifted.checked_add(digit) {
                Some(v) => v,
                None => {
                    proof {
                        lemma_digits_grow(d, i - from + 1);
                    }
                    return None;
                },
            };
            i = i + 1;
        }
        assert(d.take(to - from) =~= d);
        Some(value)
    }

    fn require_boundary(&self, cause: VerbErrorCause) -> (r: Result<(), VerbErrorCause>)
        requires
            self.wf(),
        ensures
            r is Ok <==> at_boundary(self.chars@, self.position as int),
            r is Err ==> r == Err::<(), VerbErrorCause>(cause),
    {
        if self.at_end() {
            return Ok(());
        }
        match self.peek_char() {
            Some(ch) => if char_is_sep(ch) {
                Ok(())
            } else {
                Err(cause)
            },
            None => Ok(()),
        }
    }

    fn next_token(&mut self) -> (r: Result<Option<Token>, VerbErrorCause>)
        requires
            old(self).wf(),
        ensures
            final(self).same_line(old(self)),
            match lex_token(old(self).chars@, old(self).position as int) {
                Err(e) => r == Err::<Option<Token>, VerbErrorCause>(e),
                Ok(None) => r matches Ok(None),
                Ok(Some((t, q))) => r matches Ok(Some(x)) && token_view(x) == t
                    && final(self).position == q,
            },
            r matches Ok(Some(_)) ==> final(self).position > old(self).position,
    {
        self.skip_separator();
        proof {
            lemma_skip_seps(self.chars@, old(self).position as int);
        }
        if self.at_end() {
            return Ok(None);
        }
        if self.starts_double('-') {
            self.bump_char();
            self.bump_char();
            let flag = self.parse_flag()?;
            return Ok(Some(Token::Flag(flag)));
        }
        let atom = self.parse_atom()?;
        Ok(Some(Token::Atom(atom)))
    }

    fn parse_flag(&mut self) -> (r: Result<Flag, VerbErrorCause>)
        requires
            old(self).wf(),
        ensures
            final(self).same_line(old(self)),
            match lex_flag(old(self).chars@, old(self).position as int) {
                Err(e) => r == Err::<Flag, VerbErrorCause>(e),
                Ok((f, q)) => r matches Ok(x) && flag_view(x) == f && final(self).position == q,
            },
            r is Ok ==> final(self).position > old(self).position,
    {
        let start = self.position;
        let first = match self.peek_char() {
            None => {
                return Err(VerbErrorCause::BadFlag);
            },
            Some(ch) => ch,
        };
        if !char_is_alpha(first) {
            return Err(VerbErrorCause::BadFlag);
        }
        self.bump_char();
        self.skip_while_word();
        let name = piece(self.input, start, self.position);
        let value = if self.peek_is('=') {
            self.bump_char();
            if self.at_end() {
                return Err(VerbErrorCause::BadFlag);
            }
            let next_is_sep = match self.peek_char() {
                Some(ch) => char_is_sep(ch),
                None => false,
            };
            if next_is_sep || self.starts_double('-') {
                return Err(VerbErrorCause::BadFlag);
            }
            match self.parse_atom() {
                Ok(atom) => Some(atom),
                Err(_) => {
                    return Err(VerbErrorCause::BadFlag);
                },
            }
        } else {
            None
        };
        self.require_boundary(VerbErrorCause::BadFlag)?;
        Ok(Flag { name, value })
    }

    fn parse_atom(&mut self) -> (r: Result<Atom, VerbErrorCause>)
        requires
            old(self).wf(),
        ensures
            final(self).same_line(old(self)),
            match lex_atom(old(self).chars@, old(self).position as int) {
                Err(e) => r == Err::<Atom, VerbErrorCause>(e),
                Ok((a, q)) => r matches Ok(x) && atom_view(x) == a && final(self).position == q,
            },
            r is Ok ==> final(self).position > old(self).position,
    {
        let atom = match self.peek_char() {
            Some(ch) => if ch == '"' {
                self.parse_string()?
            } else if ch == '%' {
                self.parse_ref()?
            } else if char_is_digit(ch) {
                self.parse_number()?
            } else if char_is_alpha(ch) {
                self.parse_ident_or_range()?
            } else {
                return Err(VerbErrorCause::Parse);
            },
            None => {
                return Err(VerbErrorCause::Parse);
            },
        };
        let cause = match atom {
            Atom::Range(_) => VerbErrorCause::BadRange,
            _ => VerbErrorCause::Parse,
        };
        self.require_boundary(cause)?;
        Ok(atom)
    }

    fn parse_string(&mut self) -> (r: Result<Atom, VerbErrorCause>)
        requires
            old(self).wf(),
            has(old(self).chars@, old(self).position as int, '"'),
        ensures
            final(self).same_line(old(self)),
            match string_body(old(self).chars@, old(self).position + 1, Seq::empty()) {
                Err(e) => r == Err::<Atom, VerbErrorCause>(e),
                Ok((s, q)) => r matches Ok(x) && atom_view(x) == AtomV::Str(s)
                    && final(self).position == q,
            },
            final(self).position > old(self).position,
    {
        self.bump_char();
        let mut value = String::new();
        loop
            invariant
                self.same_line(old(self)),
                self.position > old(self).position,
                string_body(self.chars@, self.position as int, value@) == string_body(
                    self.chars@,
                    old(self).position + 1,
                    Seq::empty(),
                ),
            decreases self.chars@.len() - self.position,
        {
            let ch = match self.peek_char() {
                None => {
                    return Err(VerbErrorCause::Parse);
                },
                Some(ch) => ch,
            };
            let at = self.position;
            self.bump_char();
            if ch == '"' {
                return Ok(Atom::Str(value));
            } else if ch == '\\' {
                let escaped = match self.peek_char() {
                    None => {
                        return Err(VerbErrorCause::Parse);
                    },
                    Some(e) => e,
                };
                let escaped_at = self.position;
                self.bump_char();
                if escaped == '"' || escaped == '\\' {
                    let ghost before = value@;
                    let one = piece(self.input, escaped_at, escaped_at + 1);
                    value.append(one.as_str());
                    assert(value@ =~= before.push(escaped));
                } else {
                    return Err(VerbErrorCause::Parse);
                }
            } else if ch == '\r' || ch == '\n' {
                return Err(VerbErrorCause::Parse);
            } else {
                let ghost before = value@;
                let one = piece(self.input, at, at + 1);
                value.append(one.as_str());
                assert(value@ =~= before.push(ch));
            }
        }
    }

    fn parse_ref(&mut self) -> (r: Result<Atom, VerbErrorCause>)
        requires
            old(self).wf(),
            has(old(self).chars@, old(self).position as int, '%'),
        ensures
            final(self).same_line(old(self)),
            match lex_ref(old(self).chars@, old(self).position as int) {
                Err(e) => r == Err::<Atom, VerbErrorCause>(e),
                Ok((a, q)) => r matches Ok(x) && atom_view(x) == a && final(self).position == q,
            },
            final(self).position > old(self).position,
    {
        self.bump_char();
        let start = self.position;
        self.skip_while_digit();
        if start == self.position {
            return Err(VerbErrorCause::Parse);
        }
        match self.digits_value(start, self.position) {
            Some(v) => if v <= u32::MAX as u64 {
                Ok(Atom::Ref(v as u32))
            } else {
                Err(VerbErrorCause::BadRef)
            },
            None => Err(VerbErrorCause::BadRef),
        }
    }

    fn parse_number(&mut self) -> (r: Result<Atom, VerbErrorCause>)
        requires
            old(self).wf(),
            old(self).position < old(self).chars@.len(),
            is_digit(old(self).chars@[old(self).position as int]),
        ensures
            final(self).same_line(old(self)),
            match lex_number(old(self).chars@, old(self).position as int) {
                Err(e) => r == Err::<Atom, VerbErrorCause>(e),
                Ok((a, q)) => r matches Ok(x) && atom_view(x) == a && final(self).position == q,
            },
            final(self).position > old(self).position,
    {
        let start = self.position;
        self.skip_while_digit();
        proof {
            lemma_digit_end(self.chars@, start + 1);
        }
        match self.digits_value(start, self.position) {
            Some(v) => Ok(Atom::Number(v)),
            None => Err(VerbErrorCause::Parse),
        }
    }

    fn parse_range_bound(&mut self) -> (r: Result<u64, VerbErrorCause>)
        requires
            old(self).wf(),
        ensures
            final(self).same_line(old(self)),
            match range_bound(old(self).chars@, old(self).position as int) {
                Err(e) => r == Err::<u64, VerbErrorCause>(e),
                Ok((v, q)) => r == Ok::<u64, VerbErrorCause>(v) && final(self).position == q,
            },
            final(self).position >= old(self).position,
    {
        let start = self.position;
        self.skip_while_digit();
        if start == self.position {
            return Err(VerbErrorCause::BadRange);
        }
        match self.digits_value(start, self.position) {
            Some(v) => Ok(v),
            None => Err(VerbErrorCause::BadRange),
        }
    }

    fn parse_ident_or_range(&mut self) -> (r: Result<Atom, VerbErrorCause>)
        requires
            old(self).wf(),
            old(self).position < old(self).chars@.len(),
        ensures
            final(self).same_line(old(self)),
            match lex_ident_or_range(old(self).chars@, old(self).position as int) {
                Err(e) => r == Err::<Atom, VerbErrorCause>(e),
                Ok((a, q)) => r matches Ok(x) && atom_view(x) == a && final(self).position == q,
            },
            final(self).position > old(self).position,
    {
        let start = self.position;
        self.bump_char();
        self.skip_while_word();
        proof {
            lemma_word_end(self.chars@, start + 1);
        }
        let ident = piece(self.input, start, self.position);
        if !self.peek_is(':') {
            return Ok(Atom::Ident(ident));
        }
        self.bump_char();
        let unit = if same_text(ident.as_str(), "turn") {
            RangeUnit::Turn
        } else if same_text(ident.as_str(), "seq") {
            RangeUnit::Sequence
        } else if same_text(ident.as_str(), "byte") {
            RangeUnit::Byte
        } else {
            return Err(VerbErrorCause::BadRange);
        };
        let lo = self.parse_range_bound()?;
        if !self.starts_double('.') {
            return Err(VerbErrorCause::BadRange);
        }
        self.bump_char();
        self.bump_char();
        let hi = self.parse_range_bound()?;
        if lo > hi {
            return Err(VerbErrorCause::BadRange);
        }
        Ok(Atom::Range(Range { unit, start: lo, end: hi }))
    }
}

proof fn lemma_word_end(c: Seq<char>, p: int)
    requires
        0 <= p <= c.len(),
    ensures
        p <= word_end(c, p) <= c.len(),
    decreases c.len() - p,
{
    if p < c.len() && is_word(c[p]) {
        lemma_word_end(c, p + 1);
    }
}

proof fn lemma_digit_end(c: Seq<char>, p: int)
    requires
        0 <= p <= c.len(),
    ensures
        p <= digit_end(c, p) <= c.len(),
    decreases c.len() - p,
{
    if p < c.len() && is_digit(c[p]) {
        lemma_digit_end(c, p + 1);
    }
}

proof fn lemma_skip_seps(c: Seq<char>, p: int)
    requires
        0 <= p <= c.len(),
    ensures
        p <= skip_seps(c, p) <= c.len(),
    decreases c.len() - p,
{
    if p < c.len() && is_sep(c[p]) {
        lemma_skip_seps(c, p + 1);
    }
}

spec fn atoms_view(v: Seq<Atom>) -> Seq<AtomV> {
    v.map_values(|a: Atom| atom_view(a))
}

spec fn flags_view(v: Seq<Flag>) -> Seq<FlagV> {
    v.map_values(|f: Flag| flag_view(f))
}

spec fn tokens_view(v: Seq<Token>) -> Seq<TokenV> {
    v.map_values(|t: Token| token_view(t))
}

proof fn lemma_split_tokens(a: Seq<TokenV>, b: Seq<TokenV>)
    ensures
        atoms_of(a + b) == atoms_of(a) + atoms_of(b),
        flags_of(a + b) == flags_of(a) + flags_of(b),
    decreases b.len(),
{
    if b.len() == 0 {
        assert(a + b =~= a);
        assert(atoms_of(a) + atoms_of(b) =~= atoms_of(a));
        assert(flags_of(a) + flags_of(b) =~= flags_of(a));
    } else {
        lemma_split_tokens(a, b.drop_last());
        assert((a + b).drop_last() =~= a + b.drop_last());
        assert((a + b).last() == b.last());
        match b.last() {
            TokenV::Atom(x) => {
                assert(atoms_of(a) + atoms_of(b) =~= (atoms_of(a) + atoms_of(b.drop_last())).push(x));
                assert(flags_of(a) + flags_of(b) =~= flags_of(a) + flags_of(b.drop_last()));
            },
            TokenV::Flag(f) => {
                assert(flags_of(a) + flags_of(b) =~= (flags_of(a) + flags_of(b.drop_last())).push(f));
                assert(atoms_of(a) + atoms_of(b) =~= atoms_of(a) + atoms_of(b.drop_last()));
            },
        }
    }
}

proof fn lemma_flag_named_at(fs: Seq<FlagV>, name: Seq<char>, i: int)
    requires
        0 <= i <= fs.len(),
        forall|j: int| 0 <= j < i ==> #[trigger] fs[j].name != name,
    ensures
        i < fs.len() && fs[i].name == name ==> flag_named(fs, name) == Some(fs[i]),
        i == fs.len() ==> flag_named(fs, name) is None,
    decreases i,
{
    if i > 0 {
        let t = fs.drop_first();
        assert forall|j: int| 0 <= j < i - 1 implies #[trigger] t[j].name != name by {
            assert(t[j] == fs[j + 1]);
        }
        lemma_flag_named_at(t, name, i - 1);
        if i < fs.len() {
            assert(t[i - 1] == fs[i]);
        }
    }
}

impl Args {
    spec fn positional_view(&self) -> Seq<AtomV> {
        atoms_view(self.positional@)
    }

    spec fn flags_view(&self) -> Seq<FlagV> {
        flags_view(self.flags@)
    }

    fn from_tokens(tokens: Vec<Token>) -> (r: Result<Self, VerbErrorCause>)
        ensures
            repeats_flag(flags_of(tokens_view(tokens@))) ==> r == Err::<Args, VerbErrorCause>(
                VerbErrorCause::BadFlag,
            ),
            !repeats_flag(flags_of(tokens_view(tokens@))) ==> (r matches Ok(a)
                && a.positional_view() == atoms_of(tokens_view(tokens@)) && a.flags_view()
                == flags_of(tokens_view(tokens@))),
    {
        let ghost ts = tokens_view(tokens@);
        assert(ts.len() == tokens@.len());
        let mut positional: Vec<Atom> = Vec::new();
        let mut flags: Vec<Flag> = Vec::new();
        let mut rest = tokens;
        let ghost mut k: int = 0;
        proof {
            assert(tokens_view(rest@) =~= ts.skip(0));
            assert(ts.take(0) =~= Seq::<TokenV>::empty());
            assert(atoms_view(positional@) =~= Seq::<AtomV>::empty());
            assert(flags_view(flags@) =~= Seq::<FlagV>::empty());
        }
        while rest.len() > 0
            invariant
                ts == tokens_view(tokens@),
                0 <= k <= ts.len(),
                rest@.len() == ts.len() - k,
                tokens_view(rest@) == ts.skip(k),
                atoms_view(positional@) == atoms_of(ts.take(k)),
                flags_view(flags@) == flags_of(ts.take(k)),
                !repeats_flag(flags_of(ts.take(k))),
            decreases rest@.len(),
        {
            let ghost before_rest = rest@;
            let token = rest.remove(0);
            proof {
                assert(before_rest[0] == token);
                assert(tokens_view(before_rest)[0] == token_view(token));
                assert(token_view(token) == ts.skip(k)[0]);
                assert(ts.take(k + 1).drop_last() =~= ts.take(k));
                assert(ts.take(k + 1).last() == ts[k]);
                assert forall|j: int| 0 <= j < rest@.len() implies tokens_view(rest@)[j]
                    == ts.skip(k + 1)[j] by {
                    assert(rest@[j] == before_rest[j + 1]);
                    assert(tokens_view(before_rest)[j + 1] == ts.skip(k)[j + 1]);
                }
                assert(tokens_view(rest@) =~= ts.skip(k + 1));
            }
            match token {
                Token::Atom(atom) => {
                    let ghost pv = positional@;
                    positional.push(atom);
                    proof {
                        assert(atoms_view(positional@) =~= atoms_view(pv).push(atom_view(atom)));
                    }
                },
                Token::Flag(flag) => {
                    if position_of_flag(&flags, flag.name.as_str()).is_some() {
                        proof {
                            let i = choose|i: int|
                                0 <= i < flags@.len() && flags@[i].name@ == flag.name@;
                            let fk = flags_of(ts.take(k + 1));
                            assert(fk == flags_of(ts.take(k)).push(flag_view(flag)));
                            assert(fk[i].name == fk[fk.len() - 1].name);
                            lemma_split_tokens(ts.take(k + 1), ts.skip(k + 1));
                            assert(ts.take(k + 1) + ts.skip(k + 1) =~= ts);
                            let all = flags_of(ts);
                            assert(all[i] == fk[i]);
                            assert(all[fk.len() - 1] == fk[fk.len() - 1]);
                            assert(all[i].name == all[fk.len() - 1].name);
                            assert(i < fk.len() - 1);
                            assert(repeats_flag(all));
                        }
                        assert(repeats_flag(flags_of(ts)));
                        return Err(VerbErrorCause::BadFlag);
                    }
                    let ghost fv = flags@;
                    flags.push(flag);
                    proof {
                        assert(flags_view(flags@) =~= flags_view(fv).push(flag_view(flag)));
                        let fk = flags_of(ts.take(k + 1));
                        assert forall|i: int, j: int| 0 <= i < j < fk.len() implies #[trigger] fk[i].name
                            != #[trigger] fk[j].name by {
                            if j == fk.len() - 1 {
                                assert(fk[i] == flag_view(fv[i]));
                            }
                        }
                    }
                },
            }
            proof {
                k = k + 1;
            }
        }
        proof {
            assert(ts.take(k) =~= ts);
        }
        Ok(Args { positional, flags })
    }

    /// Refuses a flag named neither `a` nor `b`.
    fn reject_flags_except(&self, a: &str, b: &str) -> (r: Result<(), VerbErrorCause>)
        ensures
            flag_outside(self.flags_view(), a@, b@) ==> r == Err::<(), VerbErrorCause>(
                VerbErrorCause::BadFlag,
            ),
            !flag_outside(self.flags_view(), a@, b@) ==> r is Ok,
    {
        let mut i: usize = 0;
        while i < self.flags.len()
            invariant
                i <= self.flags@.len(),
                forall|j: int|
                    0 <= j < i ==> #[trigger] self.flags_view()[j].name == a@
                        || self.flags_view()[j].name == b@,
            decreases self.flags@.len() - i,
        {
            let name = self.flags[i].name.as_str();
            if !same_text(name, a) && !same_text(name, b) {
                assert(self.flags_view()[i as int].name != a@);
                return Err(VerbErrorCause::BadFlag);
            }
            i = i + 1;
        }
        Ok(())
    }

    /// Refuses any flag.
    fn reject_flags(&self) -> (r: Result<(), VerbErrorCause>)
        ensures
            self.flags_view().len() > 0 ==> r == Err::<(), VerbErrorCause>(VerbErrorCause::BadFlag),
            self.flags_view().len() == 0 ==> r is Ok,
    {
        if self.flags.len() > 0 {
            Err(VerbErrorCause::BadFlag)
        } else {
            Ok(())
        }
    }

    fn flag(&self, name: &str) -> (r: Option<&Flag>)
        ensures
            match flag_named(self.flags_view(), name@) {
                None => r is None,
                Some(f) => r matches Some(x) && flag_view(*x) == f,
            },
    {
        match position_of_flag(&self.flags, name) {
            Some(i) => {
                proof {
                    lemma_flag_named_at(self.flags_view(), name@, i as int);
                }
                Some(&self.flags[i])
            },
            None => {
                proof {
                    lemma_flag_named_at(self.flags_view(), name@, self.flags@.len() as int);
                }
                None
            },
        }
    }
}

fn position_of_flag(flags: &Vec<Flag>, name: &str) -> (r: Option<usize>)
    ensures
        r matches Some(i) ==> i < flags@.len() && flags@[i as int].name@ == name@,
        forall|j: int|
            0 <= j < (match r {
                Some(i) => i as int,
                None => flags@.len() as int,
            }) ==> #[trigger] flags@[j].name@ != name@,
{
    let mut i: usize = 0;
    while i < flags.len()
        invariant
            i <= flags@.len(),
            forall|j: int| 0 <= j < i ==> #[trigger] flags@[j].name@ != name@,
        decreases flags@.len() - i,
    {
        if same_text(flags[i].name.as_str(), name) {
            return Some(i);
        }
        i = i + 1;
    }
    None
}

/// What a line lexes to: its verb and its arguments.
pub open spec fn lexed(line: Seq<char>) -> Result<(Seq<char>, Seq<AtomV>, Seq<FlagV>), VerbErrorCause> {
    match lex_words(line) {
        Err(e) => Err(e),
        Ok((v, ts)) => if repeats_flag(flags_of(ts)) {
            Err(VerbErrorCause::BadFlag)
        } else {
            Ok((v, atoms_of(ts), flags_of(ts)))
        },
    }
}

fn lex_line(line: &str) -> (r: Result<(String, Args), VerbErrorCause>)
    ensures
        match lexed(line@) {
            Err(e) => r == Err::<(String, Args), VerbErrorCause>(e),
            Ok((v, ps, fs)) => r matches Ok((verb, args)) && verb@ == v
                && args.positional_view() == ps && args.flags_view() == fs,
        },
{
    let mut lexer = Lexer::new(line);
    let first = match lexer.next_token()? {
        None => {
            return Err(VerbErrorCause::Parse);
        },
        Some(t) => t,
    };
    let verb = match first {
        Token::Atom(Atom::Ident(verb)) => verb,
        _ => {
            return Err(VerbErrorCause::Parse);
        },
    };
    let ghost c = lexer.chars@;
    let ghost q0 = lexer.position as int;
    let mut tokens: Vec<Token> = Vec::new();
    proof {
        assert(tokens_view(tokens@) =~= Seq::<TokenV>::empty());
        if let Ok(more) = lex_rest(c, q0) {
            assert(Seq::<TokenV>::empty() + more =~= more);
        }
    }
    loop
        invariant_except_break
            lex_rest(c, q0) == after_tokens(tokens_view(tokens@), lex_rest(c, lexer.position as int)),
        invariant
            lexer.wf(),
            lexer.chars@ == c,
            lexer.chars@ == line@,
            lex_words(c) == match lex_rest(c, q0) {
                Err(e) => Err(e),
                Ok(ts) => Ok((verb@, ts)),
            },
        ensures
            lex_rest(c, q0) == Ok::<Seq<TokenV>, VerbErrorCause>(tokens_view(tokens@)),
        decreases lexer.chars@.len() - lexer.position,
    {
        let ghost p = lexer.position as int;
        let next = lexer.next_token();
        proof {
            lemma_lex_rest_step(c, p);
        }
        match next {
            Err(e) => {
                return Err(e);
            },
            Ok(None) => {
                proof {
                    assert(tokens_view(tokens@) + Seq::<TokenV>::empty() =~= tokens_view(tokens@));
                }
                break ;
            },
            Ok(Some(token)) => {
                let ghost tv = tokens@;
                tokens.push(token);
                proof {
                    assert(tokens_view(tokens@) =~= tokens_view(tv).push(token_view(token)));
                    if let Ok(more) = lex_rest(c, lexer.position as int) {
                        assert(tokens_view(tv) + (seq![token_view(token)] + more) =~= tokens_view(
                            tokens@,
                        ) + more);
                    }
                }
            },
        }
    }
    let args = Args::from_tokens(tokens)?;
    Ok((verb, args))
}

/// `r` is what the grammar says: the instruction `s` describes, or its
/// error.
spec fn lowers(r: Result<Instr, VerbErrorCause>, s: Result<InstrV, VerbErrorCause>) -> bool {
    match s {
        Ok(v) => r matches Ok(i) && instr_view(i) == v,
        Err(e) => r == Err::<Instr, VerbErrorCause>(e),
    }
}

/// The output of the slot a one-based reference names.
fn referenced_output(line: u32, outputs: &Vec<Option<Out>>) -> (r: Result<Out, VerbErrorCause>)
    ensures
        match slot_output(outputs@, line) {
            Some(o) => r == Ok::<Out, VerbErrorCause>(o),
            None => r == Err::<Out, VerbErrorCause>(VerbErrorCause::BadRef),
        },
{
    if line == 0 {
        return Err(VerbErrorCause::BadRef);
    }
    let index = (line - 1) as usize;
    if index >= outputs.len() {
        return Err(VerbErrorCause::BadRef);
    }
    match outputs[index] {
        Some(o) => Ok(o),
        None => Err(VerbErrorCause::BadRef),
    }
}

fn parse_records_ref(line: u32, outputs: &Vec<Option<Out>>) -> (r: Result<
    Ref<Records>,
    VerbErrorCause,
>)
    ensures
        r matches Ok(rf) ==> rf.slot() == line && slot_output(outputs@, line) == Some(Out::Records),
        slot_output(outputs@, line) == Some(Out::Records) ==> r is Ok,
        slot_output(outputs@, line) != Some(Out::Records) ==> r == Err::<Ref<Records>, VerbErrorCause>(
            VerbErrorCause::BadRef,
        ),
{
    if referenced_output(line, outputs)? == Out::Records {
        Ok(Ref::new(line))
    } else {
        Err(VerbErrorCause::BadRef)
    }
}

fn parse_chunks_ref(line: u32, outputs: &Vec<Option<Out>>) -> (r: Result<
    Ref<Chunks>,
    VerbErrorCause,
>)
    ensures
        r matches Ok(rf) ==> rf.slot() == line && slot_output(outputs@, line) == Some(Out::Chunks),
        slot_output(outputs@, line) == Some(Out::Chunks) ==> r is Ok,
        slot_output(outputs@, line) != Some(Out::Chunks) ==> r == Err::<Ref<Chunks>, VerbErrorCause>(
            VerbErrorCause::BadRef,
        ),
{
    if referenced_output(line, outputs)? == Out::Chunks {
        Ok(Ref::new(line))
    } else {
        Err(VerbErrorCause::BadRef)
    }
}

fn parse_any_ref(line: u32, outputs: &Vec<Option<Out>>) -> (r: Result<Ref<Any>, VerbErrorCause>)
    ensures
        r matches Ok(rf) ==> rf.slot() == line && slot_output(outputs@, line) is Some,
        slot_output(outputs@, line) is Some ==> r is Ok,
        slot_output(outputs@, line) is None ==> r == Err::<Ref<Any>, VerbErrorCause>(
            VerbErrorCause::BadRef,
        ),
{
    referenced_output(line, outputs)?;
    Ok(Ref::new(line))
}

fn parse_sel(atom: &Atom, outputs: &Vec<Option<Out>>) -> (r: Result<Sel, VerbErrorCause>)
    ensures
        r matches Ok(sel) ==> sel_refs_ok(sel, outputs@),
        match sel_of(atom_view(*atom), outputs@) {
            Ok(v) => r matches Ok(x) && sel_view(x) == v,
            Err(e) => r == Err::<Sel, VerbErrorCause>(e),
        },
{
    match atom {
        Atom::Ref(line) => Ok(Sel::Ref(parse_records_ref(*line, outputs)?)),
        Atom::Range(range) => Ok(Sel::Range(*range)),
        _ => Err(VerbErrorCause::Parse),
    }
}

fn number_to_u32(number: u64) -> (r: Result<u32, VerbErrorCause>)
    ensures
        number <= u32::MAX ==> r == Ok::<u32, VerbErrorCause>(number as u32),
        number > u32::MAX ==> r == Err::<u32, VerbErrorCause>(VerbErrorCause::Parse),
{
    if number <= u32::MAX as u64 {
        Ok(number as u32)
    } else {
        Err(VerbErrorCause::Parse)
    }
}

/// Rejects unescaped inline regex flags such as `(?i)`, which the
/// versioned dialect does not admit.
fn validate_pattern(pattern: &str) -> (r: Result<(), VerbErrorCause>)
    ensures
        (exists|i: int| inline_flag_at(pattern.spec_bytes(), i)) ==> r == Err::<(), VerbErrorCause>(
            VerbErrorCause::Parse,
        ),
        !(exists|i: int| inline_flag_at(pattern.spec_bytes(), i)) ==> r is Ok,
        r is Ok <==> grammar::pattern_ok(pattern@),
        r is Err ==> r == Err::<(), VerbErrorCause>(VerbErrorCause::Parse),
{
    assert(pattern.spec_bytes() == vstd::utf8::encode_utf8(pattern@));
    let bytes = pattern.as_bytes();
    let n = bytes.len();
    let limit = if n >= 2 {
        n - 2
    } else {
        0
    };
    let mut index: usize = 0;
    while index < limit
        invariant
            index <= limit,
            n == bytes@.len(),
            bytes@ == pattern.spec_bytes(),
            limit == if n >= 2 {
                n - 2
            } else {
                0
            },
            forall|i: int| 0 <= i < index ==> !inline_flag_at(bytes@, i),
        decreases limit - index,
    {
        if bytes[index] == 0x28 && bytes[index + 1] == 0x3f {
            let mut preceding: usize = 0;
            let mut cursor = index;
            while cursor > 0 && bytes[cursor - 1] == 0x5c
                invariant
                    cursor <= index < n,
                    n == bytes@.len(),
                    preceding == index - cursor,
                    backslashes_before(bytes@, index as int) == preceding + backslashes_before(
                        bytes@,
                        cursor as int,
                    ),
                decreases cursor,
            {
                preceding = preceding + 1;
                cursor = cursor - 1;
            }
            let b = bytes[index + 2];
            if preceding % 2 == 0 && (b == 0x69 || b == 0x6d || b == 0x73 || b == 0x52 || b == 0x55
                || b == 0x75 || b == 0x78 || b == 0x2d) {
                assert(inline_flag_at(bytes@, index as int));
                return Err(VerbErrorCause::Parse);
            }
        }
        index = index + 1;
    }
    assert forall|i: int| !inline_flag_at(bytes@, i) by {
        if 0 <= i && i + 2 < n {
            assert(i < index);
        }
    }
    Ok(())
}


/// The selection written as the one optional positional argument.
fn optional_sel(args: &Args, outputs: &Vec<Option<Out>>) -> (r: Result<Sel, VerbErrorCause>)
    ensures
        r matches Ok(sel) ==> sel_refs_ok(sel, outputs@),
        match grammar::optional_sel(args.positional_view(), outputs@) {
            Ok(v) => r matches Ok(x) && sel_view(x) == v,
            Err(e) => r == Err::<Sel, VerbErrorCause>(e),
        },
{
    if args.positional.len() == 0 {
        Ok(Sel::Whole)
    } else if args.positional.len() == 1 {
        parse_sel(&args.positional[0], outputs)
    } else {
        Err(VerbErrorCause::Parse)
    }
}

fn lower_grep(args: &Args, outputs: &Vec<Option<Out>>) -> (r: Result<Instr, VerbErrorCause>)
    ensures
        r matches Ok(i) ==> refs_ok(i, outputs@) && partition_shape_ok(i),
        lowers(r, grep_of(args.positional_view(), args.flags_view(), outputs@)),
{
    args.reject_flags_except("ctx", "kind")?;
    let ctx: u16 = match args.flag("ctx") {
        None => 0,
        Some(flag) => match &flag.value {
            Some(Atom::Number(value)) => if *value <= u16::MAX as u64 {
                *value as u16
            } else {
                return Err(VerbErrorCause::BadFlag);
            },
            _ => {
                return Err(VerbErrorCause::BadFlag);
            },
        },
    };
    let kind = match args.flag("kind") {
        None => None,
        Some(flag) => match &flag.value {
            Some(Atom::Ident(kind)) => Some(EventKind::new(kind.clone())),
            _ => {
                return Err(VerbErrorCause::BadFlag);
            },
        },
    };
    let n = args.positional.len();
    if n != 1 && n != 2 {
        return Err(VerbErrorCause::Parse);
    }
    let pattern = match &args.positional[0] {
        Atom::Str(pattern) => pattern.clone(),
        _ => {
            return Err(VerbErrorCause::Parse);
        },
    };
    let sel = if n == 1 {
        Sel::Whole
    } else {
        parse_sel(&args.positional[1], outputs)?
    };
    validate_pattern(pattern.as_str())?;
    Ok(Instr::Grep { pattern, sel, ctx, kind })
}

fn lower_slice(args: &Args, outputs: &Vec<Option<Out>>) -> (r: Result<Instr, VerbErrorCause>)
    ensures
        r matches Ok(i) ==> refs_ok(i, outputs@) && partition_shape_ok(i),
        lowers(r, slice_of(args.positional_view(), args.flags_view(), outputs@)),
{
    args.reject_flags()?;
    let sel = optional_sel(args, outputs)?;
    Ok(Instr::Slice { sel })
}

fn lower_head_or_tail(args: &Args, outputs: &Vec<Option<Out>>, tail: bool) -> (r: Result<
    Instr,
    VerbErrorCause,
>)
    ensures
        r matches Ok(i) ==> refs_ok(i, outputs@) && partition_shape_ok(i),
        lowers(r, head_or_tail_of(args.positional_view(), args.flags_view(), outputs@, tail)),
{
    args.reject_flags()?;
    let count = args.positional.len();
    if count != 1 && count != 2 {
        return Err(VerbErrorCause::Parse);
    }
    let n = match &args.positional[0] {
        Atom::Number(n) => number_to_u32(*n)?,
        _ => {
            return Err(VerbErrorCause::Parse);
        },
    };
    let sel = if count == 1 {
        Sel::Whole
    } else {
        parse_sel(&args.positional[1], outputs)?
    };
    if tail {
        Ok(Instr::Tail { sel, n })
    } else {
        Ok(Instr::Head { sel, n })
    }
}

fn lower_count(args: &Args, outputs: &Vec<Option<Out>>) -> (r: Result<Instr, VerbErrorCause>)
    ensures
        r matches Ok(i) ==> refs_ok(i, outputs@) && partition_shape_ok(i),
        lowers(r, count_of(args.positional_view(), args.flags_view(), outputs@)),
{
    args.reject_flags()?;
    let n = args.positional.len();
    let (pattern, sel) = if n == 0 {
        (None, Sel::Whole)
    } else if n == 1 {
        match &args.positional[0] {
            Atom::Str(pattern) => (Some(pattern.clone()), Sel::Whole),
            selector => (None, parse_sel(selector, outputs)?),
        }
    } else if n == 2 {
        match &args.positional[0] {
            Atom::Str(pattern) => (Some(pattern.clone()), parse_sel(&args.positional[1], outputs)?),
            _ => {
                return Err(VerbErrorCause::Parse);
            },
        }
    } else {
        return Err(VerbErrorCause::Parse);
    };
    match &pattern {
        Some(p) => validate_pattern(p.as_str())?,
        None => {},
    }
    Ok(Instr::Count { pattern, sel })
}

fn lower_partition(args: &Args, outputs: &Vec<Option<Out>>) -> (r: Result<Instr, VerbErrorCause>)
    ensures
        r matches Ok(i) ==> refs_ok(i, outputs@) && partition_shape_ok(i),
        lowers(r, partition_of(args.positional_view(), args.flags_view(), outputs@)),
{
    args.reject_flags_except("by", "size")?;
    let by = match args.flag("by") {
        Some(flag) => match &flag.value {
            Some(Atom::Ident(by)) => if same_text(by.as_str(), "turns") {
                By::Turns
            } else if same_text(by.as_str(), "bytes") {
                By::Bytes
            } else if same_text(by.as_str(), "regex") {
                By::Regex
            } else {
                return Err(VerbErrorCause::BadFlag);
            },
            _ => {
                return Err(VerbErrorCause::BadFlag);
            },
        },
        None => {
            return Err(VerbErrorCause::BadFlag);
        },
    };
    match by {
        By::Regex => {
            if args.flag("size").is_some() {
                return Err(VerbErrorCause::BadFlag);
            }
            let n = args.positional.len();
            let (sel, pattern) = if n == 1 {
                match &args.positional[0] {
                    Atom::Str(pattern) => (Sel::Whole, pattern.clone()),
                    _ => {
                        return Err(VerbErrorCause::Parse);
                    },
                }
            } else if n == 2 {
                match &args.positional[1] {
                    Atom::Str(pattern) => (
                        parse_sel(&args.positional[0], outputs)?,
                        pattern.clone(),
                    ),
                    _ => {
                        return Err(VerbErrorCause::Parse);
                    },
                }
            } else {
                return Err(VerbErrorCause::Parse);
            };
            validate_pattern(pattern.as_str())?;
            Ok(Instr::Partition { sel, by, size: None, pattern: Some(pattern) })
        },
        _ => {
            let sel = optional_sel(args, outputs)?;
            let size = match args.flag("size") {
                Some(flag) => match &flag.value {
                    Some(Atom::Number(size)) => if *size <= u32::MAX as u64 {
                        *size as u32
                    } else {
                        return Err(VerbErrorCause::BadFlag);
                    },
                    _ => {
                        return Err(VerbErrorCause::BadFlag);
                    },
                },
                None => {
                    return Err(VerbErrorCause::BadFlag);
                },
            };
            Ok(Instr::Partition { sel, by, size: Some(size), pattern: None })
        },
    }
}

fn lower_ask(args: &Args, outputs: &Vec<Option<Out>>) -> (r: Result<Instr, VerbErrorCause>)
    ensures
        r matches Ok(i) ==> refs_ok(i, outputs@) && partition_shape_ok(i),
        lowers(r, ask_of(args.positional_view(), args.flags_view(), outputs@)),
{
    args.reject_flags_except("sample-k", "sample-k")?;
    let sample_k = match args.flag("sample-k") {
        None => None,
        Some(flag) => match &flag.value {
            Some(Atom::Number(k)) => if *k <= u8::MAX as u64 {
                Some(*k as u8)
            } else {
                return Err(VerbErrorCause::BadFlag);
            },
            _ => {
                return Err(VerbErrorCause::BadFlag);
            },
        },
    };
    let n = args.positional.len();
    let (sel, question) = if n == 1 {
        match &args.positional[0] {
            Atom::Str(question) => (Sel::Whole, question.clone()),
            _ => {
                return Err(VerbErrorCause::Parse);
            },
        }
    } else if n == 2 {
        match &args.positional[1] {
            Atom::Str(question) => (parse_sel(&args.positional[0], outputs)?, question.clone()),
            _ => {
                return Err(VerbErrorCause::Parse);
            },
        }
    } else {
        return Err(VerbErrorCause::Parse);
    };
    Ok(Instr::Ask { sel, question, sample_k })
}

fn lower_ask_each(args: &Args, outputs: &Vec<Option<Out>>) -> (r: Result<Instr, VerbErrorCause>)
    ensures
        r matches Ok(i) ==> refs_ok(i, outputs@) && partition_shape_ok(i),
        lowers(r, ask_each_of(args.positional_view(), args.flags_view(), outputs@)),
{
    args.reject_flags()?;
    if args.positional.len() != 2 {
        return Err(VerbErrorCause::Parse);
    }
    let line = match &args.positional[0] {
        Atom::Ref(line) => *line,
        _ => {
            return Err(VerbErrorCause::Parse);
        },
    };
    let question = match &args.positional[1] {
        Atom::Str(question) => question.clone(),
        _ => {
            return Err(VerbErrorCause::Parse);
        },
    };
    let chunks = parse_chunks_ref(line, outputs)?;
    Ok(Instr::AskEach { chunks, question })
}

fn lower_final(args: &Args, outputs: &Vec<Option<Out>>) -> (r: Result<Instr, VerbErrorCause>)
    ensures
        r matches Ok(i) ==> refs_ok(i, outputs@) && partition_shape_ok(i),
        lowers(r, final_of(args.positional_view(), args.flags_view(), outputs@)),
{
    args.reject_flags()?;
    if args.positional.len() != 1 {
        return Err(VerbErrorCause::Parse);
    }
    let value = match &args.positional[0] {
        Atom::Str(value) => FinalValue::Literal(value.clone()),
        Atom::Ref(line) => FinalValue::Ref(parse_any_ref(*line, outputs)?),
        _ => {
            return Err(VerbErrorCause::Parse);
        },
    };
    Ok(Instr::Final { value })
}

/// What a line lowers to, given the outputs of the lines before it: an
/// instruction, or the verb to blame and why.
#[verifier::opaque]
pub open spec fn line_result(line: Seq<char>, outputs: Seq<Option<Out>>) -> Result<
    InstrV,
    (Seq<char>, VerbErrorCause),
> {
    match lexed(line) {
        Err(e) => Err((verb_hint_text(line), e)),
        Ok((v, ps, fs)) => match verb_of(v, ps, fs, outputs) {
            Ok(i) => Ok(i),
            Err(e) => Err((v, e)),
        },
    }
}

/// The value bound to the `k`-th nonblank line: what the line lowers to,
/// except that an instruction past the first `max_verbs` lines is a
/// budget error.
pub open spec fn bound_as(
    b: BoundValue,
    line: Seq<char>,
    outputs: Seq<Option<Out>>,
    k: int,
    max_verbs: nat,
) -> bool {
    match line_result(line, outputs) {
        Err((verb, e)) => b matches BoundValue::Error(ve) && ve.verb@ == verb && ve.cause == e,
        Ok(i) => if k >= max_verbs {
            b matches BoundValue::Error(ve) && ve.verb@ == verb_hint_text(line) && ve.cause
                == VerbErrorCause::Budget
        } else {
            b matches BoundValue::Instr(x) && instr_view(x) == i
        },
    }
}

/// What a bound value says: the instruction it holds, or its error's verb
/// and cause.
pub open spec fn value_view(b: BoundValue) -> Result<InstrV, (Seq<char>, VerbErrorCause)> {
    match b {
        BoundValue::Instr(i) => Ok(instr_view(i)),
        BoundValue::Error(e) => Err((e.verb@, e.cause)),
    }
}

/// `q` lowers `script` under the verb limit `max`: one binding per
/// nonblank line, slots counted from one, each line bound as it lowers
/// against the outputs of the bindings before it.
pub open spec fn lowering_of(q: Seq<Binding>, script: Seq<char>, max: nat) -> bool {
    let ls = nonblank_lines(lines_from(script, 0));
    &&& q.len() == ls.len()
    &&& forall|k: int| 0 <= k < q.len() ==> (#[trigger] q[k]).slot == sat_slot(k + 1)
    &&& forall|k: int|
        0 <= k < q.len() ==> bound_as((#[trigger] q[k]).value, ls[k], outputs_of(q.take(k)), k, max)
}

proof fn lemma_bound_as_unique(
    b1: BoundValue,
    b2: BoundValue,
    line: Seq<char>,
    outputs: Seq<Option<Out>>,
    k: int,
    m1: nat,
    m2: nat,
)
    requires
        bound_as(b1, line, outputs, k, m1),
        bound_as(b2, line, outputs, k, m2),
        k < m1 <==> k < m2,
    ensures
        value_view(b1) == value_view(b2),
        bound_out(b1) == bound_out(b2),
{
}

proof fn lemma_lowerings_agree(q1: Seq<Binding>, q2: Seq<Binding>, s: Seq<char>, m1: nat, m2: nat, k: int)
    requires
        lowering_of(q1, s, m1),
        lowering_of(q2, s, m2),
        0 <= k <= q1.len(),
        m1 == m2 || (k <= m1 && k <= m2),
    ensures
        outputs_of(q1.take(k)) == outputs_of(q2.take(k)),
        forall|j: int| 0 <= j < k ==> value_view(#[trigger] q1[j].value) == value_view(q2[j].value),
    decreases k,
{
    let ls = nonblank_lines(lines_from(s, 0));
    if k > 0 {
        lemma_lowerings_agree(q1, q2, s, m1, m2, k - 1);
        assert(bound_as(q1[k - 1].value, ls[k - 1], outputs_of(q1.take(k - 1)), k - 1, m1));
        assert(bound_as(q2[k - 1].value, ls[k - 1], outputs_of(q2.take(k - 1)), k - 1, m2));
        lemma_bound_as_unique(q1[k - 1].value, q2[k - 1].value, ls[k - 1], outputs_of(q1.take(k - 1)), k - 1, m1, m2);
        assert(outputs_of(q1.take(k)) =~= outputs_of(q2.take(k))) by {
            assert forall|j: int| 0 <= j < k implies outputs_of(q1.take(k))[j] == outputs_of(q2.take(k))[j] by {
                if j < k - 1 {
                    assert(outputs_of(q1.take(k - 1))[j] == outputs_of(q2.take(k - 1))[j]);
                }
            }
        }
    }
}

/// Lowering is a function of the script and the limit: two lowerings of
/// one script under one limit bind the same slots to the same values. In
/// particular `lower_script` is `lower_script_with_verb_limit` at
/// `usize::MAX`.
pub proof fn lemma_lowering_unique(q1: Seq<Binding>, q2: Seq<Binding>, s: Seq<char>, m: nat)
    requires
        lowering_of(q1, s, m),
        lowering_of(q2, s, m),
    ensures
        q1.len() == q2.len(),
        forall|k: int| 0 <= k < q1.len() ==> (#[trigger] q1[k]).slot == q2[k].slot,
        forall|k: int| 0 <= k < q1.len() ==> value_view((#[trigger] q1[k]).value) == value_view(q2[k].value),
{
    lemma_lowerings_agree(q1, q2, s, m, m, q1.len() as int);
}

/// A verb limit `m` changes nothing on the first `m` lines against the
/// unlimited lowering, and binds an error to every later line: a budget
/// error wherever the line itself lowers against the outputs before it.
pub proof fn lemma_verb_limit(q: Seq<Binding>, qm: Seq<Binding>, s: Seq<char>, m: nat)
    requires
        lowering_of(q, s, usize::MAX as nat),
        lowering_of(qm, s, m),
        q.len() <= usize::MAX,
    ensures
        qm.len() == q.len(),
        forall|k: int| 0 <= k < q.len() ==> (#[trigger] qm[k]).slot == q[k].slot,
        forall|k: int| 0 <= k < q.len() && k < m ==> value_view((#[trigger] qm[k]).value) == value_view(q[k].value),
        forall|k: int| 0 <= k < q.len() && k >= m ==> (#[trigger] qm[k]).value is Error,
        forall|k: int|
            0 <= k < q.len() && k >= m && line_result(
                nonblank_lines(lines_from(s, 0))[k],
                outputs_of(qm.take(k)),
            ) is Ok ==> (#[trigger] qm[k]).value->Error_0.cause == VerbErrorCause::Budget,
{
    let ls = nonblank_lines(lines_from(s, 0));
    let lim = if m < q.len() {
        m as int
    } else {
        q.len() as int
    };
    lemma_lowerings_agree(q, qm, s, usize::MAX as nat, m, lim);
    assert forall|k: int| 0 <= k < q.len() && k >= m implies (#[trigger] qm[k]).value is Error by {
        assert(bound_as(qm[k].value, ls[k], outputs_of(qm.take(k)), k, m));
    }
    assert forall|k: int|
        0 <= k < q.len() && k >= m && line_result(ls[k], outputs_of(qm.take(k))) is Ok implies (
        #[trigger] qm[k]).value->Error_0.cause == VerbErrorCause::Budget by {
        assert(bound_as(qm[k].value, ls[k], outputs_of(qm.take(k)), k, m));
    }
}

/// The lines that are not blank, in order.
pub open spec fn nonblank_lines(ls: Seq<Seq<char>>) -> Seq<Seq<char>>
    decreases ls.len(),
{
    if ls.len() == 0 {
        Seq::empty()
    } else {
        let prev = nonblank_lines(ls.drop_last());
        if is_blank(ls.last()) {
            prev
        } else {
            prev.push(ls.last())
        }
    }
}

fn lower_line(line: &str, outputs: &Vec<Option<Out>>) -> (r: Result<Instr, VerbError>)
    ensures
        r matches Ok(i) ==> refs_ok(i, outputs@) && partition_shape_ok(i),
        match line_result(line@, outputs@) {
            Ok(v) => r matches Ok(i) && instr_view(i) == v,
            Err((verb, e)) => r matches Err(ve) && ve.verb@ == verb && ve.cause == e,
        },
{
    reveal(line_result);
    let (verb, args) = match lex_line(line) {
        Ok(parts) => parts,
        Err(cause) => {
            return Err(VerbError { verb: verb_hint(line), cause });
        },
    };
    let v = verb.as_str();
    let lowered = if same_text(v, "grep") {
        lower_grep(&args, outputs)
    } else if same_text(v, "slice") {
        lower_slice(&args, outputs)
    } else if same_text(v, "head") {
        lower_head_or_tail(&args, outputs, false)
    } else if same_text(v, "tail") {
        lower_head_or_tail(&args, outputs, true)
    } else if same_text(v, "count") {
        lower_count(&args, outputs)
    } else if same_text(v, "partition") {
        lower_partition(&args, outputs)
    } else if same_text(v, "ask") {
        lower_ask(&args, outputs)
    } else if same_text(v, "ask-each") {
        lower_ask_each(&args, outputs)
    } else if same_text(v, "final") {
        lower_final(&args, outputs)
    } else {
        Err(VerbErrorCause::Parse)
    };
    match lowered {
        Ok(instr) => Ok(instr),
        Err(cause) => Err(VerbError { verb, cause }),
    }
}

/// Lowers a script with no caller-supplied verb-count limit.
///
/// Every nonempty physical line binds one one-based slot. Syntax and type
/// failures are inline [`BoundValue::Error`] values, so a later line can
/// still lower. Empty and ASCII-whitespace-only lines do not consume slots.
pub fn lower_script(script: &str) -> (r: Query)
    ensures
        lowering_of(r@, script@, usize::MAX as nat),
        r@.len() == nonblank_count(lines_from(script@, 0)),
        forall|k: int| 0 <= k < r@.len() ==> (#[trigger] r@[k]).slot == sat_slot(k + 1),
        query_refs_ok(r@),
        r@.len() == nonblank_lines(lines_from(script@, 0)).len(),
        forall|k: int|
            0 <= k < r@.len() ==> bound_as(
                (#[trigger] r@[k]).value,
                nonblank_lines(lines_from(script@, 0))[k],
                outputs_of(r@.take(k)),
                k,
                usize::MAX as nat,
            ),
{
    lower_script_with_verb_limit(script, usize::MAX)
}

proof fn lemma_lines_step(c: Seq<char>, i: int)
    requires
        0 <= i <= c.len(),
    ensures
        ({
            let j = next_newline(c, i);
            &&& j >= c.len() ==> lines_from(c, i) == seq![strip_cr(c.subrange(i, c.len() as int))]
            &&& j < c.len() ==> lines_from(c, i) == seq![strip_cr(c.subrange(i, j))] + lines_from(
                c,
                j + 1,
            )
        }),
{
    lemma_next_newline_bounds(c, i);
}

/// Lowers a script while enforcing a query-level verb-count limit.
///
/// Otherwise-valid lines beyond `max_verbs` bind a budget error. Syntax and
/// type validation happens first, so the budget check never masks an
/// existing rejection.
pub fn lower_script_with_verb_limit(script: &str, max_verbs: usize) -> (r: Query)
    ensures
        lowering_of(r@, script@, max_verbs as nat),
        r@.len() == nonblank_count(lines_from(script@, 0)),
        forall|k: int| 0 <= k < r@.len() ==> (#[trigger] r@[k]).slot == sat_slot(k + 1),
        query_refs_ok(r@),
        instr_count(r@) <= max_verbs,
        r@.len() == nonblank_lines(lines_from(script@, 0)).len(),
        forall|k: int|
            0 <= k < r@.len() ==> bound_as(
                (#[trigger] r@[k]).value,
                nonblank_lines(lines_from(script@, 0))[k],
                outputs_of(r@.take(k)),
                k,
                max_verbs as nat,
            ),
{
    let c = chars_of(script);
    let n = c.len();
    let mut query: Vec<Binding> = Vec::new();
    let mut outputs: Vec<Option<Out>> = Vec::new();
    let mut slot: u32 = 0;
    let mut i: usize = 0;
    let ghost mut done: Seq<Seq<char>> = Seq::empty();
    assert(outputs@ =~= outputs_of(query@));
    assert(lines_from(c@, 0) =~= done + lines_from(c@, 0));
    loop
        invariant
            c@ == script@,
            n == c@.len(),
            i <= n,
            lines_from(c@, 0) == done + lines_from(c@, i as int),
            query@.len() == nonblank_count(done),
            outputs@ == outputs_of(query@),
            slot == sat_slot(query@.len() as int),
            forall|k: int| 0 <= k < query@.len() ==> (#[trigger] query@[k]).slot == sat_slot(k + 1),
            query_refs_ok(query@),
            instr_count(query@) <= query@.len(),
            instr_count(query@) <= max_verbs,
            query@.len() == nonblank_lines(done).len(),
            forall|k: int|
                0 <= k < query@.len() ==> bound_as(
                    (#[trigger] query@[k]).value,
                    nonblank_lines(done)[k],
                    outputs_of(query@.take(k)),
                    k,
                    max_verbs as nat,
                ),
        decreases n - i,
    {
        let mut j = i;
        while j < n && c[j] != '\n'
            invariant
                i <= j <= n,
                n == c@.len(),
                next_newline(c@, i as int) == next_newline(c@, j as int),
            decreases n - j,
        {
            j = j + 1;
        }
        proof {
            lemma_lines_step(c@, i as int);
        }
        let end = if j > i && c[j - 1] == '\r' {
            j - 1
        } else {
            j
        };
        let ghost line_chars = strip_cr(c@.subrange(i as int, j as int));
        assert(line_chars =~= c@.subrange(i as int, end as int));
        let mut blank = true;
        let mut k = i;
        while k < end
            invariant
                i <= k <= end <= n,
                n == c@.len(),
                blank == (forall|m: int| i <= m < k ==> is_ascii_ws(#[trigger] c@[m])),
            decreases end - k,
        {
            if !char_is_ascii_ws(c[k]) {
                blank = false;
            }
            k = k + 1;
        }
        assert(blank == is_blank(line_chars)) by {
            if !blank {
                let m = choose|m: int| i <= m < end && !is_ascii_ws(#[trigger] c@[m]);
                assert(line_chars[m - i] == c@[m]);
            } else {
                assert forall|m: int| 0 <= m < line_chars.len() implies is_ascii_ws(
                    #[trigger] line_chars[m],
                ) by {
                    assert(line_chars[m] == c@[i + m]);
                }
            }
        }
        let ghost before = query@;
        if !blank {
            let line = piece(script, i, end);
            slot = slot.saturating_add(1);
            let value = match lower_line(line.as_str(), &outputs) {
                Err(error) => BoundValue::Error(error),
                Ok(instruction) => if query.len() >= max_verbs {
                    BoundValue::Error(
                        VerbError { verb: verb_hint(line.as_str()), cause: VerbErrorCause::Budget },
                    )
                } else {
                    BoundValue::Instr(instruction)
                },
            };
            let output = match &value {
                BoundValue::Instr(instruction) => Some(instruction.output()),
                BoundValue::Error(_) => None,
            };
            outputs.push(output);
            query.push(Binding { slot, value });
            proof {
                assert(query@.drop_last() =~= before);
                assert(outputs@ =~= outputs_of(query@));
                assert(query@.take(before.len() as int) =~= before);
                assert forall|k: int| 0 <= k < query@.len() implies bound_as(
                    (#[trigger] query@[k]).value,
                    nonblank_lines(done.push(line_chars))[k],
                    outputs_of(query@.take(k)),
                    k,
                    max_verbs as nat,
                ) by {
                    assert(done.push(line_chars).drop_last() =~= done);
                    assert(nonblank_lines(done.push(line_chars)) == nonblank_lines(done).push(
                        line_chars,
                    ));
                    if k < before.len() {
                        assert(query@.take(k) =~= before.take(k));
                        assert(query@[k] == before[k]);
                    } else {
                        assert(outputs_of(query@.take(k)) == outputs_of(before));
                    }
                }
                assert forall|k: int| 0 <= k < query@.len() implies match (#[trigger] query@[k]).value {
                    BoundValue::Instr(ins) => refs_ok(ins, outputs_of(query@.take(k)))
                        && partition_shape_ok(ins),
                    BoundValue::Error(_) => true,
                } by {
                    if k < before.len() {
                        assert(query@.take(k) =~= before.take(k));
                        assert(query@[k] == before[k]);
                    }
                }
            }
        }
        proof {
            let ghost next_done = done.push(line_chars);
            assert(next_done.drop_last() =~= done);
            if !blank {
                assert(nonblank_lines(next_done) == nonblank_lines(done).push(line_chars));
            } else {
                assert(nonblank_lines(next_done) == nonblank_lines(done));
            }
            done = next_done;
        }
        if j >= n {
            assert(lines_from(c@, 0) =~= done);
            return query;
        }
        assert(lines_from(c@, 0) =~= done + lines_from(c@, j + 1));
        i = j + 1;
    }
}
} // verus!
