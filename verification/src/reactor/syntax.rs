//! The reactor declaration grammar over plain tokens: the `policy { .. }`
//! block, the phase-block slots, and the attributes of a source arm. Rust
//! expressions, patterns, and blocks inside a declaration are not part of
//! this grammar; a front end hands over what it learned of them as plain
//! values (whether a guard parses, whether the binding is admissible).

use vstd::prelude::*;

use crate::reactor::{PhaseName, ReadinessKind, SourceArm, MAX_DRAIN};
use crate::text::{all_space, chars_of, is_blank, same_text, string_of};

verus! {

/// The delimiter of a token group.
#[derive(Clone, Copy, Debug, PartialEq, Eq, Structural)]
pub enum Delim {
    /// `( .. )`
    Paren,
    /// `[ .. ]`
    Bracket,
    /// `{ .. }`
    Brace,
    /// An invisible group.
    Invisible,
}

/// One token of a declaration.
#[derive(Debug, PartialEq, Eq)]
pub enum Tok {
    /// An identifier that is not a reserved word.
    Ident(String),
    /// A reserved word, or `_`.
    Keyword(String),
    /// An operator or separator, such as `:`, `;`, `,`, `=`, or `=>`.
    Punct(String),
    /// A string literal, by value.
    Str(String),
    /// An integer literal: its value in base-10 digits, and its suffix.
    Int {
        /// The value's decimal digits.
        digits: String,
        /// The type suffix, empty when absent.
        suffix: String,
    },
    /// Any other literal.
    Lit(String),
    /// A delimited group.
    Group {
        /// The delimiter.
        delim: Delim,
        /// The tokens inside.
        body: Vec<Tok>,
    },
}

/// Whether a token is the punctuation `p`.
pub open spec fn is_punct(t: Tok, p: Seq<char>) -> bool {
    t matches Tok::Punct(q) && q@ == p
}

/// The identifier a token holds.
pub open spec fn ident_of(t: Tok) -> Option<Seq<char>> {
    match t {
        Tok::Ident(s) => Some(s@),
        _ => None,
    }
}

/// What the grammar expected where it found something else.
#[derive(Clone, Copy, Debug, PartialEq, Eq, Structural)]
pub enum Expected {
    /// An identifier.
    Ident,
    /// `:`.
    Colon,
    /// `;`.
    Semicolon,
    /// `,`.
    Comma,
    /// `=`.
    Equals,
    /// A bracketed list.
    BracketList,
    /// A string literal.
    StrLit,
    /// Attribute arguments in parentheses.
    ParenArgs,
    /// The end of the arguments.
    End,
    /// A guard expression.
    Expression,
}

/// Why a policy block was refused.
#[derive(Debug, PartialEq, Eq)]
pub enum PolicyFault {
    /// The grammar expected something else at token `at` (the end when `at`
    /// is the length); `inner` locates it inside the list at that token.
    Syntax {
        /// What was expected.
        expected: Expected,
        /// Token index.
        at: usize,
        /// Index inside the bracketed list, for a fault there.
        inner: Option<usize>,
    },
    /// `selection` is declared more than once.
    DuplicateSelection {
        /// The second field name's token.
        at: usize,
    },
    /// A selection policy other than `biased`.
    UnsupportedSelection {
        /// The value's token.
        at: usize,
        /// The value.
        value: String,
    },
    /// `required_phases` is declared more than once.
    DuplicatePhases {
        /// The second field name's token.
        at: usize,
    },
    /// A field other than `selection` and `required_phases`.
    UnsupportedField {
        /// The field name's token.
        at: usize,
        /// The field name.
        field: String,
    },
    /// No `selection: biased;`.
    MissingSelection,
    /// No `required_phases: [..];`.
    MissingPhases,
}

/// A policy fault as plain values.
pub enum PolicyFaultSpec {
    /// See [`PolicyFault::Syntax`].
    Syntax(Expected, int, Option<int>),
    /// See [`PolicyFault::DuplicateSelection`].
    DuplicateSelection(int),
    /// See [`PolicyFault::UnsupportedSelection`].
    UnsupportedSelection(int, Seq<char>),
    /// See [`PolicyFault::DuplicatePhases`].
    DuplicatePhases(int),
    /// See [`PolicyFault::UnsupportedField`].
    UnsupportedField(int, Seq<char>),
    /// See [`PolicyFault::MissingSelection`].
    MissingSelection,
    /// See [`PolicyFault::MissingPhases`].
    MissingPhases,
}

impl PolicyFault {
    /// The fault as plain values.
    pub open spec fn view(&self) -> PolicyFaultSpec {
        match self {
            PolicyFault::Syntax { expected, at, inner } => PolicyFaultSpec::Syntax(
                *expected,
                *at as int,
                match inner {
                    Some(j) => Some(*j as int),
                    None => None,
                },
            ),
            PolicyFault::DuplicateSelection { at } => PolicyFaultSpec::DuplicateSelection(
                *at as int,
            ),
            PolicyFault::UnsupportedSelection { at, value } => PolicyFaultSpec::UnsupportedSelection(
                *at as int,
                value@,
            ),
            PolicyFault::DuplicatePhases { at } => PolicyFaultSpec::DuplicatePhases(*at as int),
            PolicyFault::UnsupportedField { at, field } => PolicyFaultSpec::UnsupportedField(
                *at as int,
                field@,
            ),
            PolicyFault::MissingSelection => PolicyFaultSpec::MissingSelection,
            PolicyFault::MissingPhases => PolicyFaultSpec::MissingPhases,
        }
    }

    /// The diagnostic code, if the fault is a rule of the grammar rather
    /// than plain syntax.
    pub fn code(&self) -> (r: Option<&'static str>)
        ensures
            self is Syntax <==> r is None,
            self is MissingPhases || self is DuplicatePhases ==> (r matches Some(c) && c@
                == "KTR011"@),
            self is DuplicateSelection || self is UnsupportedSelection || self is UnsupportedField
                || self is MissingSelection ==> (r matches Some(c) && c@ == "KTR012"@),
    {
        match self {
            PolicyFault::Syntax { .. } => None,
            PolicyFault::DuplicatePhases { .. } => Some("KTR011"),
            PolicyFault::MissingPhases => Some("KTR011"),
            _ => Some("KTR012"),
        }
    }
}

/// The identifiers of a comma-separated list from token `j`, a trailing
/// comma allowed; `Err` holds the index of the offending token and what
/// was expected there.
pub open spec fn ident_list(ts: Seq<Tok>, j: int, acc: Seq<Seq<char>>) -> Result<
    Seq<Seq<char>>,
    (Expected, int),
>
    decreases ts.len() - j,
{
    if j < 0 || j >= ts.len() {
        Ok(acc)
    } else {
        match ident_of(ts[j]) {
            None => Err((Expected::Ident, j)),
            Some(x) => if j + 1 >= ts.len() {
                Ok(acc.push(x))
            } else if is_punct(ts[j + 1], ","@) {
                ident_list(ts, j + 2, acc.push(x))
            } else {
                Err((Expected::Comma, j + 1))
            },
        }
    }
}

/// The policy fields from token `i` on, given whether `selection` and
/// `required_phases` were seen; `Ok` holds the required phases.
pub open spec fn policy_from(
    ts: Seq<Tok>,
    i: int,
    seen: bool,
    phases: Option<Seq<Seq<char>>>,
) -> Result<Seq<Seq<char>>, PolicyFaultSpec>
    decreases ts.len() - i,
{
    if i < 0 || i >= ts.len() {
        if !seen {
            Err(PolicyFaultSpec::MissingSelection)
        } else {
            match phases {
                Some(p) => Ok(p),
                None => Err(PolicyFaultSpec::MissingPhases),
            }
        }
    } else {
        match ident_of(ts[i]) {
            None => Err(PolicyFaultSpec::Syntax(Expected::Ident, i, None)),
            Some(field) => if i + 1 >= ts.len() || !is_punct(ts[i + 1], ":"@) {
                Err(PolicyFaultSpec::Syntax(Expected::Colon, i + 1, None))
            } else if field == "selection"@ {
                if seen {
                    Err(PolicyFaultSpec::DuplicateSelection(i))
                } else if i + 2 >= ts.len() || ident_of(ts[i + 2]) is None {
                    Err(PolicyFaultSpec::Syntax(Expected::Ident, i + 2, None))
                } else if i + 3 >= ts.len() || !is_punct(ts[i + 3], ";"@) {
                    Err(PolicyFaultSpec::Syntax(Expected::Semicolon, i + 3, None))
                } else if ident_of(ts[i + 2]) != Some("biased"@) {
                    Err(
                        PolicyFaultSpec::UnsupportedSelection(
                            i + 2,
                            ident_of(ts[i + 2])->Some_0,
                        ),
                    )
                } else {
                    policy_from(ts, i + 4, true, phases)
                }
            } else if field == "required_phases"@ {
                if phases is Some {
                    Err(PolicyFaultSpec::DuplicatePhases(i))
                } else if i + 2 >= ts.len() || !(ts[i + 2] matches Tok::Group {
                    delim,
                    ..
                } && delim == Delim::Bracket) {
                    Err(PolicyFaultSpec::Syntax(Expected::BracketList, i + 2, None))
                } else {
                    let body = ts[i + 2]->body@;
                    match ident_list(body, 0, Seq::empty()) {
                        Err((e, j)) => Err(PolicyFaultSpec::Syntax(e, i + 2, Some(j))),
                        Ok(list) => if i + 3 >= ts.len() || !is_punct(ts[i + 3], ";"@) {
                            Err(PolicyFaultSpec::Syntax(Expected::Semicolon, i + 3, None))
                        } else {
                            policy_from(ts, i + 4, seen, Some(list))
                        },
                    }
                }
            } else {
                Err(PolicyFaultSpec::UnsupportedField(i, field))
            },
        }
    }
}

fn punct_is(t: &Tok, p: &str) -> (r: bool)
    ensures
        r == is_punct(*t, p@),
{
    match t {
        Tok::Punct(q) => same_text(q.as_str(), p),
        _ => false,
    }
}

fn ident_text(t: &Tok) -> (r: Option<&String>)
    ensures
        match r {
            Some(s) => ident_of(*t) == Some(s@),
            None => ident_of(*t) is None,
        },
{
    match t {
        Tok::Ident(s) => Some(s),
        _ => None,
    }
}

fn parse_ident_list(ts: &Vec<Tok>) -> (r: Result<Vec<String>, (Expected, usize)>)
    ensures
        match ident_list(ts@, 0, Seq::empty()) {
            Ok(list) => r matches Ok(v) && v@.map_values(|s: String| s@) == list,
            Err((e, j)) => r matches Err((e2, j2)) && e2 == e && j2 == j,
        },
{
    let mut out: Vec<String> = Vec::new();
    assert(out@.map_values(|s: String| s@) =~= Seq::<Seq<char>>::empty());
    let mut j: usize = 0;
    while j < ts.len()
        invariant
            ident_list(ts@, j as int, out@.map_values(|s: String| s@)) == ident_list(
                ts@,
                0,
                Seq::empty(),
            ),
        decreases ts@.len() - j,
    {
        let ghost acc = out@.map_values(|s: String| s@);
        match ident_text(&ts[j]) {
            None => {
                return Err((Expected::Ident, j));
            },
            Some(x) => {
                out.push(x.clone());
                assert(out@.map_values(|s: String| s@) =~= acc.push(x@));
                if j + 1 >= ts.len() {
                    return Ok(out);
                }
                if !punct_is(&ts[j + 1], ",") {
                    return Err((Expected::Comma, j + 1));
                }
                j = j + 2;
            },
        }
    }
    proof {
        assert(ident_list(ts@, j as int, out@.map_values(|s: String| s@)) == Ok::<
            Seq<Seq<char>>,
            (Expected, int),
        >(out@.map_values(|s: String| s@)));
    }
    Ok(out)
}

/// Parses the contents of a `policy { .. }` block: exactly one
/// `selection: biased;` and one `required_phases: [..];`, in any order.
/// Returns the required phases.
pub fn parse_policy(ts: &Vec<Tok>) -> (r: Result<Vec<String>, PolicyFault>)
    ensures
        match policy_from(ts@, 0, false, None) {
            Ok(list) => r matches Ok(v) && v@.map_values(|s: String| s@) == list,
            Err(e) => r matches Err(f) && f@ == e,
        },
{
    let mut seen = false;
    let mut phases: Option<Vec<String>> = None;
    let mut i: usize = 0;
    while i < ts.len()
        invariant
            policy_from(ts@, i as int, seen, match phases {
                Some(v) => Some(v@.map_values(|s: String| s@)),
                None => None,
            }) == policy_from(ts@, 0, false, None),
        decreases ts@.len() - i,
    {
        let field = match ident_text(&ts[i]) {
            None => {
                return Err(PolicyFault::Syntax { expected: Expected::Ident, at: i, inner: None });
            },
            Some(f) => f,
        };
        if i + 1 >= ts.len() || !punct_is(&ts[i + 1], ":") {
            return Err(PolicyFault::Syntax { expected: Expected::Colon, at: i + 1, inner: None });
        }
        if same_text(field.as_str(), "selection") {
            if seen {
                return Err(PolicyFault::DuplicateSelection { at: i });
            }
            if i + 2 >= ts.len() || ident_text(&ts[i + 2]).is_none() {
                return Err(
                    PolicyFault::Syntax { expected: Expected::Ident, at: i + 2, inner: None },
                );
            }
            if i + 3 >= ts.len() || !punct_is(&ts[i + 3], ";") {
                return Err(
                    PolicyFault::Syntax { expected: Expected::Semicolon, at: i + 3, inner: None },
                );
            }
            let value = ident_text(&ts[i + 2]).unwrap();
            if !same_text(value.as_str(), "biased") {
                return Err(PolicyFault::UnsupportedSelection { at: i + 2, value: value.clone() });
            }
            seen = true;
        } else if same_text(field.as_str(), "required_phases") {
            if phases.is_some() {
                return Err(PolicyFault::DuplicatePhases { at: i });
            }
            if i + 2 >= ts.len() {
                return Err(
                    PolicyFault::Syntax { expected: Expected::BracketList, at: i + 2, inner: None },
                );
            }
            let list = match &ts[i + 2] {
                Tok::Group { delim: Delim::Bracket, body } => match parse_ident_list(body) {
                    Ok(list) => list,
                    Err((e, j)) => {
                        return Err(PolicyFault::Syntax { expected: e, at: i + 2, inner: Some(j) });
                    },
                },
                _ => {
                    return Err(
                        PolicyFault::Syntax {
                            expected: Expected::BracketList,
                            at: i + 2,
                            inner: None,
                        },
                    );
                },
            };
            if i + 3 >= ts.len() || !punct_is(&ts[i + 3], ";") {
                return Err(
                    PolicyFault::Syntax { expected: Expected::Semicolon, at: i + 3, inner: None },
                );
            }
            phases = Some(list);
        } else {
            return Err(PolicyFault::UnsupportedField { at: i, field: field.clone() });
        }
        i = i + 4;
    }
    if !seen {
        return Err(PolicyFault::MissingSelection);
    }
    match phases {
        Some(p) => Ok(p),
        None => Err(PolicyFault::MissingPhases),
    }
}

// ---------------------------------------------------------------------
// Source-arm attributes
// ---------------------------------------------------------------------

/// How an attribute was written after its name.
#[derive(Debug, PartialEq, Eq)]
pub enum Meta {
    /// `#[name]`
    Path,
    /// `#[name(tokens)]`; `expression` tells whether the tokens parse as one
    /// Rust expression.
    List {
        /// The argument tokens.
        tokens: Vec<Tok>,
        /// The tokens parse as one expression.
        expression: bool,
    },
    /// `#[name = value]`
    NameValue,
}

/// One attribute of a source arm.
#[derive(Debug, PartialEq, Eq)]
pub struct AttrInput {
    /// The attribute's name, when its path is one identifier.
    pub name: Option<String>,
    /// Its arguments.
    pub meta: Meta,
}

/// Why a source arm was refused; `attr` indexes the arm's attributes, `at`
/// the attribute's argument tokens.
#[derive(Clone, Copy, Debug, PartialEq, Eq, Structural)]
pub enum ArmFault {
    /// The binding is neither `_` nor one immutable identifier.
    BadBinding,
    /// An attribute outside the grammar.
    Unsupported {
        /// The attribute.
        attr: usize,
    },
    /// An attribute declared twice.
    Duplicate {
        /// The second declaration.
        attr: usize,
    },
    /// A flag attribute written with arguments.
    TakesNoArguments {
        /// The attribute.
        attr: usize,
    },
    /// The arguments do not follow the attribute's grammar.
    Syntax {
        /// The attribute.
        attr: usize,
        /// What was expected.
        expected: Expected,
        /// Argument token index (the length for the end).
        at: usize,
    },
    /// A readiness other than `may_remain_ready` or `quiescent`.
    UnsupportedReadiness {
        /// The attribute.
        attr: usize,
    },
    /// A starvation waiver that does not begin with `allowed`.
    WaiverNotAllowed {
        /// The attribute.
        attr: usize,
    },
    /// A starvation waiver without `reason = ".."`.
    WaiverWithoutReason {
        /// The attribute.
        attr: usize,
    },
    /// A starvation waiver with a blank reason.
    EmptyWaiverReason {
        /// The attribute.
        attr: usize,
    },
    /// A buffered yield not spelled `target, when = buffered`.
    NonCanonicalYield {
        /// The attribute.
        attr: usize,
    },
    /// A drain without `max = N`.
    DrainWithoutMax {
        /// The attribute.
        attr: usize,
    },
    /// A drain maximum that is not an integer literal.
    DrainNotInteger {
        /// The attribute.
        attr: usize,
    },
    /// A drain maximum too large for the platform.
    DrainUnparsable {
        /// The attribute.
        attr: usize,
    },
    /// A suffixed drain maximum, or one outside `1..=MAX_DRAIN`.
    DrainOutOfRange {
        /// The attribute.
        attr: usize,
    },
    /// No `#[source(id)]`.
    MissingSource,
    /// No `#[readiness(..)]`.
    MissingReadiness,
}

impl ArmFault {
    /// The diagnostic code, if the fault is a rule of the grammar rather
    /// than plain syntax.
    pub fn code(&self) -> (r: Option<&'static str>)
        ensures
            (*self is Syntax) <==> r is None,
    {
        match self {
            ArmFault::Syntax { .. } => None,
            ArmFault::BadBinding => Some("KTR000"),
            ArmFault::Unsupported { .. } => Some("KTR000"),
            ArmFault::TakesNoArguments { .. } => Some("KTR000"),
            ArmFault::Duplicate { .. } => Some("KTR017"),
            ArmFault::UnsupportedReadiness { .. } => Some("KTR017"),
            ArmFault::MissingSource => Some("KTR017"),
            ArmFault::MissingReadiness => Some("KTR017"),
            ArmFault::WaiverNotAllowed { .. } => Some("KTR018"),
            ArmFault::WaiverWithoutReason { .. } => Some("KTR018"),
            ArmFault::EmptyWaiverReason { .. } => Some("KTR018"),
            ArmFault::NonCanonicalYield { .. } => Some("KTR010"),
            ArmFault::DrainWithoutMax { .. } => Some("KTR008"),
            ArmFault::DrainNotInteger { .. } => Some("KTR008"),
            ArmFault::DrainUnparsable { .. } => Some("KTR008"),
            ArmFault::DrainOutOfRange { .. } => Some("KTR008"),
        }
    }
}

/// What the attributes declared so far say.
pub struct ArmState {
    /// `#[source(id)]`
    pub id: Option<Seq<char>>,
    /// `#[readiness(..)]`
    pub readiness: Option<ReadinessKind>,
    /// `#[shutdown]`
    pub shutdown: bool,
    /// `#[terminal]`
    pub terminal: bool,
    /// `#[last]`
    pub last: bool,
    /// `#[before(..)]` targets in order.
    pub before: Seq<Seq<char>>,
    /// `#[starvation(..)]`
    pub waived: bool,
    /// `#[when(..)]`
    pub guarded: bool,
    /// `#[yields_to(..)]`
    pub yields: Option<Seq<char>>,
    /// `#[drain(max = N)]`
    pub drain: Option<usize>,
}

/// `arm` is the source arm the attribute state `st` declares, at a place
/// with the given text and persistence.
pub open spec fn decoded_as(arm: SourceArm, st: ArmState, persistent_place: bool, place: Seq<char>) -> bool {
    &&& Some(arm.id@) == st.id
    &&& Some(arm.readiness) == st.readiness
    &&& arm.shutdown == st.shutdown
    &&& arm.terminal == st.terminal
    &&& arm.last == st.last
    &&& arm.before@.map_values(|s: String| s@) == st.before
    &&& arm.starvation_waived == st.waived
    &&& arm.guarded == st.guarded
    &&& match arm.yields_to {
        Some(t) => st.yields == Some(t@),
        None => st.yields is None,
    }
    &&& arm.drain == st.drain
    &&& arm.persistent_place == persistent_place
    &&& arm.place@ == place
}

/// No attribute seen.
pub open spec fn empty_state() -> ArmState {
    ArmState {
        id: None,
        readiness: None,
        shutdown: false,
        terminal: false,
        last: false,
        before: Seq::empty(),
        waived: false,
        guarded: false,
        yields: None,
        drain: None,
    }
}

/// The one identifier an argument list holds.
pub open spec fn single_ident(ts: Seq<Tok>) -> Result<Seq<char>, (Expected, int)> {
    if ts.len() == 0 || ident_of(ts[0]) is None {
        Err((Expected::Ident, 0))
    } else if ts.len() > 1 {
        Err((Expected::End, 1))
    } else {
        Ok(ident_of(ts[0])->Some_0)
    }
}

/// The argument tokens of a list attribute; `None` for any other form.
pub open spec fn list_args(m: Meta) -> Option<Seq<Tok>> {
    match m {
        Meta::List { tokens, .. } => Some(tokens@),
        _ => None,
    }
}

/// The identifier argument of attribute `i`, or the fault.
pub open spec fn ident_arg(a: AttrInput, i: int) -> Result<Seq<char>, ArmFault> {
    match list_args(a.meta) {
        None => Err(ArmFault::Syntax { attr: i as usize, expected: Expected::ParenArgs, at: 0 }),
        Some(ts) => match single_ident(ts) {
            Ok(x) => Ok(x),
            Err((e, j)) => Err(ArmFault::Syntax { attr: i as usize, expected: e, at: j as usize }),
        },
    }
}

/// The reason of a `starvation(allowed, reason = "..")` waiver.
pub open spec fn waiver_reason(ts: Seq<Tok>, i: int) -> Result<Seq<char>, ArmFault> {
    let attr = i as usize;
    if ts.len() == 0 || ident_of(ts[0]) is None {
        Err(ArmFault::Syntax { attr, expected: Expected::Ident, at: 0 })
    } else if ident_of(ts[0]) != Some("allowed"@) {
        Err(ArmFault::WaiverNotAllowed { attr })
    } else if ts.len() <= 1 || !is_punct(ts[1], ","@) {
        Err(ArmFault::Syntax { attr, expected: Expected::Comma, at: 1 })
    } else if ts.len() <= 2 || ident_of(ts[2]) is None {
        Err(ArmFault::Syntax { attr, expected: Expected::Ident, at: 2 })
    } else if ident_of(ts[2]) != Some("reason"@) {
        Err(ArmFault::WaiverWithoutReason { attr })
    } else if ts.len() <= 3 || !is_punct(ts[3], "="@) {
        Err(ArmFault::Syntax { attr, expected: Expected::Equals, at: 3 })
    } else if ts.len() <= 4 || !(ts[4] is Str) {
        Err(ArmFault::Syntax { attr, expected: Expected::StrLit, at: 4 })
    } else if ts.len() > 5 {
        Err(ArmFault::Syntax { attr, expected: Expected::End, at: 5 })
    } else {
        Ok(ts[4]->Str_0@)
    }
}

/// The target of a `yields_to(target, when = buffered)` relation.
pub open spec fn yield_target(ts: Seq<Tok>, i: int) -> Result<Seq<char>, ArmFault> {
    let attr = i as usize;
    if ts.len() == 0 || ident_of(ts[0]) is None {
        Err(ArmFault::Syntax { attr, expected: Expected::Ident, at: 0 })
    } else if ts.len() <= 1 || !is_punct(ts[1], ","@) {
        Err(ArmFault::Syntax { attr, expected: Expected::Comma, at: 1 })
    } else if ts.len() <= 2 || ident_of(ts[2]) is None {
        Err(ArmFault::Syntax { attr, expected: Expected::Ident, at: 2 })
    } else if ts.len() <= 3 || !is_punct(ts[3], "="@) {
        Err(ArmFault::Syntax { attr, expected: Expected::Equals, at: 3 })
    } else if ts.len() <= 4 || ident_of(ts[4]) is None {
        Err(ArmFault::Syntax { attr, expected: Expected::Ident, at: 4 })
    } else if ident_of(ts[2]) != Some("when"@) || ident_of(ts[4]) != Some("buffered"@) || ts.len()
        > 5 {
        Err(ArmFault::NonCanonicalYield { attr })
    } else {
        Ok(ident_of(ts[0])->Some_0)
    }
}

/// The value of a string of decimal digits.
pub open spec fn digits_value(s: Seq<char>) -> nat
    decreases s.len(),
{
    if s.len() == 0 {
        0
    } else {
        digits_value(s.drop_last()) * 10 + ((s.last() as u32) - 48) as nat
    }
}

/// Every character is a decimal digit.
pub open spec fn all_digits(s: Seq<char>) -> bool {
    s.len() > 0 && forall|k: int| 0 <= k < s.len() ==> '0' <= #[trigger] s[k] <= '9'
}

/// The maximum of a `drain(max = N)` window.
pub open spec fn drain_max(ts: Seq<Tok>, i: int) -> Result<usize, ArmFault> {
    let attr = i as usize;
    if ts.len() == 0 || ident_of(ts[0]) is None {
        Err(ArmFault::Syntax { attr, expected: Expected::Ident, at: 0 })
    } else if ident_of(ts[0]) != Some("max"@) {
        Err(ArmFault::DrainWithoutMax { attr })
    } else if ts.len() <= 1 || !is_punct(ts[1], "="@) {
        Err(ArmFault::Syntax { attr, expected: Expected::Equals, at: 1 })
    } else if ts.len() <= 2 || !(ts[2] is Int) {
        Err(ArmFault::DrainNotInteger { attr })
    } else if ts.len() > 3 {
        Err(ArmFault::Syntax { attr, expected: Expected::End, at: 3 })
    } else {
        let digits = ts[2]->Int_digits@;
        let suffix = ts[2]->Int_suffix@;
        if !all_digits(digits) || digits_value(digits) > usize::MAX {
            Err(ArmFault::DrainUnparsable { attr })
        } else if suffix.len() > 0 || digits_value(digits) < 1 || digits_value(digits)
            > MAX_DRAIN {
            Err(ArmFault::DrainOutOfRange { attr })
        } else {
            Ok(digits_value(digits) as usize)
        }
    }
}

/// The state after attribute `i`.
pub open spec fn attr_step(a: AttrInput, i: int, st: ArmState) -> Result<ArmState, ArmFault> {
    let attr = i as usize;
    match a.name {
        None => Err(ArmFault::Unsupported { attr }),
        Some(name) => {
            let n = name@;
            if n == "source"@ {
                if st.id is Some {
                    Err(ArmFault::Duplicate { attr })
                } else {
                    match ident_arg(a, i) {
                        Err(f) => Err(f),
                        Ok(x) => Ok(ArmState { id: Some(x), ..st }),
                    }
                }
            } else if n == "readiness"@ {
                if st.readiness is Some {
                    Err(ArmFault::Duplicate { attr })
                } else {
                    match ident_arg(a, i) {
                        Err(f) => Err(f),
                        Ok(x) => if x == "may_remain_ready"@ {
                            Ok(ArmState { readiness: Some(ReadinessKind::MayRemainReady), ..st })
                        } else if x == "quiescent"@ {
                            Ok(ArmState { readiness: Some(ReadinessKind::Quiescent), ..st })
                        } else {
                            Err(ArmFault::UnsupportedReadiness { attr })
                        },
                    }
                }
            } else if n == "shutdown"@ || n == "terminal"@ || n == "last"@ {
                let already = if n == "shutdown"@ {
                    st.shutdown
                } else if n == "terminal"@ {
                    st.terminal
                } else {
                    st.last
                };
                if already {
                    Err(ArmFault::Duplicate { attr })
                } else if !(a.meta is Path) {
                    Err(ArmFault::TakesNoArguments { attr })
                } else if n == "shutdown"@ {
                    Ok(ArmState { shutdown: true, ..st })
                } else if n == "terminal"@ {
                    Ok(ArmState { terminal: true, ..st })
                } else {
                    Ok(ArmState { last: true, ..st })
                }
            } else if n == "before"@ {
                match ident_arg(a, i) {
                    Err(f) => Err(f),
                    Ok(x) => Ok(ArmState { before: st.before.push(x), ..st }),
                }
            } else if n == "starvation"@ {
                if st.waived {
                    Err(ArmFault::Duplicate { attr })
                } else {
                    match list_args(a.meta) {
                        None => Err(
                            ArmFault::Syntax { attr, expected: Expected::ParenArgs, at: 0 },
                        ),
                        Some(ts) => match waiver_reason(ts, i) {
                            Err(f) => Err(f),
                            Ok(reason) => if all_space(reason) {
                                Err(ArmFault::EmptyWaiverReason { attr })
                            } else {
                                Ok(ArmState { waived: true, ..st })
                            },
                        },
                    }
                }
            } else if n == "when"@ {
                if st.guarded {
                    Err(ArmFault::Duplicate { attr })
                } else {
                    match a.meta {
                        Meta::List { expression, .. } => if expression {
                            Ok(ArmState { guarded: true, ..st })
                        } else {
                            Err(ArmFault::Syntax { attr, expected: Expected::Expression, at: 0 })
                        },
                        _ => Err(ArmFault::Syntax { attr, expected: Expected::ParenArgs, at: 0 }),
                    }
                }
            } else if n == "yields_to"@ {
                if st.yields is Some {
                    Err(ArmFault::Duplicate { attr })
                } else {
                    match list_args(a.meta) {
                        None => Err(
                            ArmFault::Syntax { attr, expected: Expected::ParenArgs, at: 0 },
                        ),
                        Some(ts) => match yield_target(ts, i) {
                            Err(f) => Err(f),
                            Ok(t) => Ok(ArmState { yields: Some(t), ..st }),
                        },
                    }
                }
            } else if n == "drain"@ {
                if st.drain is Some {
                    Err(ArmFault::Duplicate { attr })
                } else {
                    match list_args(a.meta) {
                        None => Err(
                            ArmFault::Syntax { attr, expected: Expected::ParenArgs, at: 0 },
                        ),
                        Some(ts) => match drain_max(ts, i) {
                            Err(f) => Err(f),
                            Ok(m) => Ok(ArmState { drain: Some(m), ..st }),
                        },
                    }
                }
            } else {
                Err(ArmFault::Unsupported { attr })
            }
        },
    }
}

/// The state after attributes `..k`, or the first fault.
pub open spec fn attrs_through(attrs: Seq<AttrInput>, k: int) -> Result<ArmState, ArmFault>
    decreases k,
{
    if k <= 0 {
        Ok(empty_state())
    } else {
        match attrs_through(attrs, k - 1) {
            Err(f) => Err(f),
            Ok(st) => attr_step(attrs[k - 1], k - 1, st),
        }
    }
}

/// The arm an attribute list declares, or the first fault.
pub open spec fn arm_verdict_of(attrs: Seq<AttrInput>, binding_ok: bool) -> Result<
    ArmState,
    ArmFault,
> {
    if !binding_ok {
        Err(ArmFault::BadBinding)
    } else {
        match attrs_through(attrs, attrs.len() as int) {
            Err(f) => Err(f),
            Ok(st) => if st.id is None {
                Err(ArmFault::MissingSource)
            } else if st.readiness is None {
                Err(ArmFault::MissingReadiness)
            } else {
                Ok(st)
            },
        }
    }
}

/// Any drain window the state holds lies in `1..=MAX_DRAIN`.
pub open spec fn drain_in_bounds(st: ArmState) -> bool {
    st.drain matches Some(m) ==> 1 <= m <= MAX_DRAIN
}

proof fn lemma_attr_step_drain(a: AttrInput, i: int, st: ArmState)
    requires
        drain_in_bounds(st),
    ensures
        attr_step(a, i, st) matches Ok(s2) ==> drain_in_bounds(s2),
        st.drain is Some && (a.name matches Some(n) && n@ == "drain"@) ==> attr_step(a, i, st) == Err::<
            ArmState,
            ArmFault,
        >(ArmFault::Duplicate { attr: i as usize }),
{
    reveal_strlit("source");
    reveal_strlit("readiness");
    reveal_strlit("shutdown");
    reveal_strlit("terminal");
    reveal_strlit("last");
    reveal_strlit("before");
    reveal_strlit("starvation");
    reveal_strlit("when");
    reveal_strlit("yields_to");
    reveal_strlit("drain");
    assert("drain"@.len() == 5);
    assert("source"@.len() == 6 && "readiness"@.len() == 9 && "shutdown"@.len() == 8);
    assert("terminal"@.len() == 8 && "last"@.len() == 4 && "before"@.len() == 6);
    assert("starvation"@.len() == 10 && "when"@.len() == 4 && "yields_to"@.len() == 9);
}

proof fn lemma_attrs_drain(attrs: Seq<AttrInput>, k: int)
    ensures
        attrs_through(attrs, k) matches Ok(st) ==> drain_in_bounds(st),
    decreases k,
{
    if k > 0 {
        lemma_attrs_drain(attrs, k - 1);
        if let Ok(st) = attrs_through(attrs, k - 1) {
            lemma_attr_step_drain(attrs[k - 1], k - 1, st);
        }
    }
}

/// A decoded source arm's drain window, when it declares one, lies in
/// `1..=MAX_DRAIN`; and a second `drain` attribute is refused as a
/// duplicate of the first.
pub proof fn lemma_drain_bounds(attrs: Seq<AttrInput>, binding_ok: bool, k: int)
    ensures
        arm_verdict_of(attrs, binding_ok) matches Ok(st) ==> drain_in_bounds(st),
        0 <= k < attrs.len() && (attrs[k].name matches Some(n) && n@ == "drain"@) && (attrs_through(attrs, k) matches Ok(
            st,
        ) && st.drain is Some) ==> attrs_through(attrs, k + 1) == Err::<ArmState, ArmFault>(
            ArmFault::Duplicate { attr: k as usize },
        ),
{
    lemma_attrs_drain(attrs, attrs.len() as int);
    if 0 <= k < attrs.len() {
        lemma_attrs_drain(attrs, k);
        if let Ok(st) = attrs_through(attrs, k) {
            lemma_attr_step_drain(attrs[k], k, st);
        }
    }
}

/// A prefix of a digit string is worth no more than the whole.
pub proof fn lemma_digits_grow(s: Seq<char>, k: int)
    requires
        0 <= k <= s.len(),
    ensures
        digits_value(s.take(k)) <= digits_value(s),
    decreases s.len() - k,
{
    if k < s.len() {
        lemma_digits_grow(s, k + 1);
        assert(s.take(k + 1).drop_last() =~= s.take(k));
    } else {
        assert(s.take(k) =~= s);
    }
}

/// The value of a decimal digit string, when it is one and fits `usize`.
fn parse_digits(s: &str) -> (r: Option<usize>)
    ensures
        match r {
            Some(v) => all_digits(s@) && digits_value(s@) <= usize::MAX && v == digits_value(s@),
            None => !all_digits(s@) || digits_value(s@) > usize::MAX,
        },
{
    let cs = chars_of(s);
    if cs.len() == 0 {
        return None;
    }
    let mut v: usize = 0;
    let mut k: usize = 0;
    while k < cs.len()
        invariant
            cs@ == s@,
            k <= cs@.len(),
            forall|j: int| 0 <= j < k ==> '0' <= #[trigger] s@[j] <= '9',
            v == digits_value(s@.take(k as int)),
        decreases cs@.len() - k,
    {
        let c = cs[k];
        if c < '0' || c > '9' {
            return None;
        }
        let d = (c as u32 - 48) as usize;
        assert(s@.take(k + 1).drop_last() =~= s@.take(k as int));
        let shifted = match v.checked_mul(10) {
            Some(x) => x,
            None => {
                proof {
                    lemma_digits_grow(s@, k + 1);
                }
                return None;
            },
        };
        let next = match shifted.checked_add(d) {
            Some(x) => x,
            None => {
                proof {
                    lemma_digits_grow(s@, k + 1);
                }
                return None;
            },
        };
        v = next;
        k = k + 1;
    }
    assert(s@.take(cs@.len() as int) =~= s@);
    Some(v)
}

/// The build state of a source arm.
struct ArmBuild {
    id: Option<String>,
    readiness: Option<ReadinessKind>,
    shutdown: bool,
    terminal: bool,
    last: bool,
    before: Vec<String>,
    waived: bool,
    guarded: bool,
    yields: Option<String>,
    drain: Option<usize>,
}

impl ArmBuild {
    spec fn view(&self) -> ArmState {
        ArmState {
            id: match self.id {
                Some(s) => Some(s@),
                None => None,
            },
            readiness: self.readiness,
            shutdown: self.shutdown,
            terminal: self.terminal,
            last: self.last,
            before: self.before@.map_values(|s: String| s@),
            waived: self.waived,
            guarded: self.guarded,
            yields: match self.yields {
                Some(s) => Some(s@),
                None => None,
            },
            drain: self.drain,
        }
    }
}

fn list_tokens(m: &Meta) -> (r: Option<&Vec<Tok>>)
    ensures
        match r {
            Some(v) => list_args(*m) == Some(v@),
            None => list_args(*m) is None,
        },
{
    match m {
        Meta::List { tokens, .. } => Some(tokens),
        _ => None,
    }
}

fn ident_arg_of(a: &AttrInput, i: usize) -> (r: Result<String, ArmFault>)
    ensures
        match ident_arg(*a, i as int) {
            Ok(x) => r matches Ok(v) && v@ == x,
            Err(f) => r == Err::<String, ArmFault>(f),
        },
{
    match list_tokens(&a.meta) {
        None => Err(ArmFault::Syntax { attr: i, expected: Expected::ParenArgs, at: 0 }),
        Some(ts) => {
            if ts.len() == 0 {
                return Err(ArmFault::Syntax { attr: i, expected: Expected::Ident, at: 0 });
            }
            match ident_text(&ts[0]) {
                None => Err(ArmFault::Syntax { attr: i, expected: Expected::Ident, at: 0 }),
                Some(x) => if ts.len() > 1 {
                    Err(ArmFault::Syntax { attr: i, expected: Expected::End, at: 1 })
                } else {
                    Ok(x.clone())
                },
            }
        },
    }
}

fn waiver_reason_of(ts: &Vec<Tok>, i: usize) -> (r: Result<String, ArmFault>)
    ensures
        match waiver_reason(ts@, i as int) {
            Ok(x) => r matches Ok(v) && v@ == x,
            Err(f) => r == Err::<String, ArmFault>(f),
        },
{
    let attr = i;
    if ts.len() == 0 || ident_text(&ts[0]).is_none() {
        return Err(ArmFault::Syntax { attr, expected: Expected::Ident, at: 0 });
    }
    if !same_text(ident_text(&ts[0]).unwrap().as_str(), "allowed") {
        return Err(ArmFault::WaiverNotAllowed { attr });
    }
    if ts.len() <= 1 || !punct_is(&ts[1], ",") {
        return Err(ArmFault::Syntax { attr, expected: Expected::Comma, at: 1 });
    }
    if ts.len() <= 2 || ident_text(&ts[2]).is_none() {
        return Err(ArmFault::Syntax { attr, expected: Expected::Ident, at: 2 });
    }
    if !same_text(ident_text(&ts[2]).unwrap().as_str(), "reason") {
        return Err(ArmFault::WaiverWithoutReason { attr });
    }
    if ts.len() <= 3 || !punct_is(&ts[3], "=") {
        return Err(ArmFault::Syntax { attr, expected: Expected::Equals, at: 3 });
    }
    if ts.len() <= 4 {
        return Err(ArmFault::Syntax { attr, expected: Expected::StrLit, at: 4 });
    }
    let reason = match &ts[4] {
        Tok::Str(r) => r,
        _ => {
            return Err(ArmFault::Syntax { attr, expected: Expected::StrLit, at: 4 });
        },
    };
    if ts.len() > 5 {
        return Err(ArmFault::Syntax { attr, expected: Expected::End, at: 5 });
    }
    Ok(reason.clone())
}

fn yield_target_of(ts: &Vec<Tok>, i: usize) -> (r: Result<String, ArmFault>)
    ensures
        match yield_target(ts@, i as int) {
            Ok(x) => r matches Ok(v) && v@ == x,
            Err(f) => r == Err::<String, ArmFault>(f),
        },
{
    let attr = i;
    if ts.len() == 0 || ident_text(&ts[0]).is_none() {
        return Err(ArmFault::Syntax { attr, expected: Expected::Ident, at: 0 });
    }
    if ts.len() <= 1 || !punct_is(&ts[1], ",") {
        return Err(ArmFault::Syntax { attr, expected: Expected::Comma, at: 1 });
    }
    if ts.len() <= 2 || ident_text(&ts[2]).is_none() {
        return Err(ArmFault::Syntax { attr, expected: Expected::Ident, at: 2 });
    }
    if ts.len() <= 3 || !punct_is(&ts[3], "=") {
        return Err(ArmFault::Syntax { attr, expected: Expected::Equals, at: 3 });
    }
    if ts.len() <= 4 || ident_text(&ts[4]).is_none() {
        return Err(ArmFault::Syntax { attr, expected: Expected::Ident, at: 4 });
    }
    if !same_text(ident_text(&ts[2]).unwrap().as_str(), "when") || !same_text(
        ident_text(&ts[4]).unwrap().as_str(),
        "buffered",
    ) || ts.len() > 5 {
        return Err(ArmFault::NonCanonicalYield { attr });
    }
    Ok(ident_text(&ts[0]).unwrap().clone())
}

fn drain_max_of(ts: &Vec<Tok>, i: usize) -> (r: Result<usize, ArmFault>)
    ensures
        r == drain_max(ts@, i as int),
{
    let attr = i;
    if ts.len() == 0 || ident_text(&ts[0]).is_none() {
        return Err(ArmFault::Syntax { attr, expected: Expected::Ident, at: 0 });
    }
    if !same_text(ident_text(&ts[0]).unwrap().as_str(), "max") {
        return Err(ArmFault::DrainWithoutMax { attr });
    }
    if ts.len() <= 1 || !punct_is(&ts[1], "=") {
        return Err(ArmFault::Syntax { attr, expected: Expected::Equals, at: 1 });
    }
    if ts.len() <= 2 {
        return Err(ArmFault::DrainNotInteger { attr });
    }
    let (digits, suffix) = match &ts[2] {
        Tok::Int { digits, suffix } => (digits, suffix),
        _ => {
            return Err(ArmFault::DrainNotInteger { attr });
        },
    };
    if ts.len() > 3 {
        return Err(ArmFault::Syntax { attr, expected: Expected::End, at: 3 });
    }
    let value = match parse_digits(digits.as_str()) {
        None => {
            return Err(ArmFault::DrainUnparsable { attr });
        },
        Some(v) => v,
    };
    if suffix.as_str().unicode_len() > 0 || value < 1 || value > MAX_DRAIN {
        return Err(ArmFault::DrainOutOfRange { attr });
    }
    Ok(value)
}

fn apply_attr(a: &AttrInput, i: usize, st: &mut ArmBuild) -> (r: Result<(), ArmFault>)
    ensures
        match attr_step(*a, i as int, old(st)@) {
            Ok(next) => r is Ok && final(st)@ == next,
            Err(f) => r == Err::<(), ArmFault>(f),
        },
{
    let attr = i;
    let name = match &a.name {
        None => {
            return Err(ArmFault::Unsupported { attr });
        },
        Some(n) => n.as_str(),
    };
    if same_text(name, "source") {
        if st.id.is_some() {
            return Err(ArmFault::Duplicate { attr });
        }
        let x = ident_arg_of(a, i)?;
        st.id = Some(x);
        Ok(())
    } else if same_text(name, "readiness") {
        if st.readiness.is_some() {
            return Err(ArmFault::Duplicate { attr });
        }
        let x = ident_arg_of(a, i)?;
        if same_text(x.as_str(), "may_remain_ready") {
            st.readiness = Some(ReadinessKind::MayRemainReady);
        } else if same_text(x.as_str(), "quiescent") {
            st.readiness = Some(ReadinessKind::Quiescent);
        } else {
            return Err(ArmFault::UnsupportedReadiness { attr });
        }
        Ok(())
    } else if same_text(name, "shutdown") || same_text(name, "terminal") || same_text(
        name,
        "last",
    ) {
        let is_shutdown = same_text(name, "shutdown");
        let is_terminal = same_text(name, "terminal");
        let already = if is_shutdown {
            st.shutdown
        } else if is_terminal {
            st.terminal
        } else {
            st.last
        };
        if already {
            return Err(ArmFault::Duplicate { attr });
        }
        match &a.meta {
            Meta::Path => {},
            _ => {
                return Err(ArmFault::TakesNoArguments { attr });
            },
        }
        if is_shutdown {
            st.shutdown = true;
        } else if is_terminal {
            st.terminal = true;
        } else {
            st.last = true;
        }
        Ok(())
    } else if same_text(name, "before") {
        let x = ident_arg_of(a, i)?;
        let ghost before = st.before@;
        st.before.push(x);
        assert(st.before@.map_values(|s: String| s@) =~= before.map_values(|s: String| s@).push(
            st.before@.last()@,
        ));
        Ok(())
    } else if same_text(name, "starvation") {
        if st.waived {
            return Err(ArmFault::Duplicate { attr });
        }
        let ts = match list_tokens(&a.meta) {
            None => {
                return Err(ArmFault::Syntax { attr, expected: Expected::ParenArgs, at: 0 });
            },
            Some(ts) => ts,
        };
        let reason = waiver_reason_of(ts, i)?;
        if is_blank(reason.as_str()) {
            return Err(ArmFault::EmptyWaiverReason { attr });
        }
        st.waived = true;
        Ok(())
    } else if same_text(name, "when") {
        if st.guarded {
            return Err(ArmFault::Duplicate { attr });
        }
        match &a.meta {
            Meta::List { expression, .. } => {
                if !*expression {
                    return Err(ArmFault::Syntax { attr, expected: Expected::Expression, at: 0 });
                }
            },
            _ => {
                return Err(ArmFault::Syntax { attr, expected: Expected::ParenArgs, at: 0 });
            },
        }
        st.guarded = true;
        Ok(())
    } else if same_text(name, "yields_to") {
        if st.yields.is_some() {
            return Err(ArmFault::Duplicate { attr });
        }
        let ts = match list_tokens(&a.meta) {
            None => {
                return Err(ArmFault::Syntax { attr, expected: Expected::ParenArgs, at: 0 });
            },
            Some(ts) => ts,
        };
        let t = yield_target_of(ts, i)?;
        st.yields = Some(t);
        Ok(())
    } else if same_text(name, "drain") {
        if st.drain.is_some() {
            return Err(ArmFault::Duplicate { attr });
        }
        let ts = match list_tokens(&a.meta) {
            None => {
                return Err(ArmFault::Syntax { attr, expected: Expected::ParenArgs, at: 0 });
            },
            Some(ts) => ts,
        };
        let m = drain_max_of(ts, i)?;
        st.drain = Some(m);
        Ok(())
    } else {
        Err(ArmFault::Unsupported { attr })
    }
}

proof fn lemma_fault_persists(attrs: Seq<AttrInput>, k: int, m: int)
    requires
        0 <= k <= m,
        attrs_through(attrs, k) is Err,
    ensures
        attrs_through(attrs, m) == attrs_through(attrs, k),
    decreases m - k,
{
    if m > k {
        lemma_fault_persists(attrs, k, m - 1);
    }
}

/// Interprets a source arm: its binding must be `_` or one immutable
/// identifier, and its attributes must follow the grammar, with exactly one
/// `source` and one `readiness`.
pub fn decode_arm(
    attrs: &Vec<AttrInput>,
    binding_ok: bool,
    persistent_place: bool,
    place: String,
) -> (r: Result<SourceArm, ArmFault>)
    ensures
        match arm_verdict_of(attrs@, binding_ok) {
            Err(f) => r == Err::<SourceArm, ArmFault>(f),
            Ok(st) => r matches Ok(arm) && decoded_as(arm, st, persistent_place, place@) && Some(arm.id@) == st.id && Some(arm.readiness)
                == st.readiness && arm.shutdown == st.shutdown && arm.terminal == st.terminal
                && arm.last == st.last && arm.before@.map_values(|s: String| s@) == st.before
                && arm.starvation_waived == st.waived && arm.guarded == st.guarded && match arm.yields_to {
                Some(t) => st.yields == Some(t@),
                None => st.yields is None,
            } && arm.drain == st.drain && arm.persistent_place == persistent_place && arm.place
                == place,
        },
{
    if !binding_ok {
        return Err(ArmFault::BadBinding);
    }
    let mut st = ArmBuild {
        id: None,
        readiness: None,
        shutdown: false,
        terminal: false,
        last: false,
        before: Vec::new(),
        waived: false,
        guarded: false,
        yields: None,
        drain: None,
    };
    assert(st@.before =~= Seq::<Seq<char>>::empty());
    let mut k: usize = 0;
    while k < attrs.len()
        invariant
            binding_ok,
            k <= attrs@.len(),
            attrs_through(attrs@, k as int) == Ok::<ArmState, ArmFault>(st@),
        decreases attrs@.len() - k,
    {
        let ghost before = st@;
        match apply_attr(&attrs[k], k, &mut st) {
            Ok(()) => {},
            Err(f) => {
                proof {
                    assert(attrs_through(attrs@, k + 1) == attr_step(attrs@[k as int], k as int, before));
                    lemma_fault_persists(attrs@, k + 1, attrs@.len() as int);
                }
                return Err(f);
            },
        }
        k = k + 1;
    }
    let id = match st.id {
        None => {
            return Err(ArmFault::MissingSource);
        },
        Some(id) => id,
    };
    let readiness = match st.readiness {
        None => {
            return Err(ArmFault::MissingReadiness);
        },
        Some(r) => r,
    };
    Ok(
        SourceArm {
            id,
            readiness,
            shutdown: st.shutdown,
            terminal: st.terminal,
            before: st.before,
            last: st.last,
            starvation_waived: st.waived,
            guarded: st.guarded,
            yields_to: st.yields,
            drain: st.drain,
            persistent_place,
            place,
        },
    )
}

/// Claims the slot of phase block `name`, given which slots are taken.
pub fn claim_phase(name: &str, taken: &[bool; 3]) -> (r: Result<PhaseName, PhaseFault>)
    ensures
        name@ == "initialize"@ ==> if taken[0] {
            r == Err::<PhaseName, PhaseFault>(PhaseFault::Repeated)
        } else {
            r == Ok::<PhaseName, PhaseFault>(PhaseName::Initialize)
        },
        name@ == "before_poll"@ ==> if taken[1] {
            r == Err::<PhaseName, PhaseFault>(PhaseFault::Repeated)
        } else {
            r == Ok::<PhaseName, PhaseFault>(PhaseName::BeforePoll)
        },
        name@ == "after_event"@ ==> if taken[2] {
            r == Err::<PhaseName, PhaseFault>(PhaseFault::Repeated)
        } else {
            r == Ok::<PhaseName, PhaseFault>(PhaseName::AfterEvent)
        },
        !(name@ == "initialize"@ || name@ == "before_poll"@ || name@ == "after_event"@) ==> r
            == Err::<PhaseName, PhaseFault>(PhaseFault::Unknown),
{
    proof {
        reveal_strlit("initialize");
        reveal_strlit("before_poll");
        reveal_strlit("after_event");
        assert("initialize"@.len() == 10);
        assert("before_poll"@.len() == 11);
        assert("after_event"@.len() == 11);
        assert("before_poll"@[0] != "after_event"@[0]);
    }
    if same_text(name, "initialize") {
        if taken[0] {
            Err(PhaseFault::Repeated)
        } else {
            Ok(PhaseName::Initialize)
        }
    } else if same_text(name, "before_poll") {
        if taken[1] {
            Err(PhaseFault::Repeated)
        } else {
            Ok(PhaseName::BeforePoll)
        }
    } else if same_text(name, "after_event") {
        if taken[2] {
            Err(PhaseFault::Repeated)
        } else {
            Ok(PhaseName::AfterEvent)
        }
    } else {
        Err(PhaseFault::Unknown)
    }
}

/// Why a phase block was refused.
#[derive(Clone, Copy, Debug, PartialEq, Eq, Structural)]
pub enum PhaseFault {
    /// Not one of the three phases (`KTR000`).
    Unknown,
    /// The phase's block appears more than once (`KTR011`).
    Repeated,
}

} // verus!
