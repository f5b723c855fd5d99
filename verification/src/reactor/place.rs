//! A source arm's place expression: whether it names persistent state (a
//! path, a field of a place, or a parenthesised place), and its normal
//! text, by which two arms on one place are recognised.

use vstd::prelude::*;
use vstd::string::StrSliceExecFns;

verus! {

/// The shape of a place expression, with its tokens' text.
pub enum PlaceExpr {
    /// A path, as its tokens' text.
    Path(String),
    /// A field of a base place, with the member's text.
    Field(Box<PlaceExpr>, String),
    /// A parenthesised place.
    Paren(Box<PlaceExpr>),
    /// Any other expression, as its tokens' text.
    Other(String),
}

/// A Unicode White_Space character.
pub open spec fn is_unicode_ws(c: char) -> bool {
    ||| ('\u{9}' <= c && c <= '\u{d}')
    ||| c == ' '
    ||| c == '\u{85}'
    ||| c == '\u{a0}'
    ||| c == '\u{1680}'
    ||| ('\u{2000}' <= c && c <= '\u{200a}')
    ||| c == '\u{2028}'
    ||| c == '\u{2029}'
    ||| c == '\u{202f}'
    ||| c == '\u{205f}'
    ||| c == '\u{3000}'
}

/// `s` with every whitespace character removed.
pub open spec fn without_ws(s: Seq<char>) -> Seq<char>
    decreases s.len(),
{
    if s.len() == 0 {
        Seq::empty()
    } else if is_unicode_ws(s.last()) {
        without_ws(s.drop_last())
    } else {
        without_ws(s.drop_last()).push(s.last())
    }
}

/// The place names persistent state: a path, possibly through fields and
/// parentheses.
pub open spec fn persistent_spec(e: PlaceExpr) -> bool
    decreases e,
{
    match e {
        PlaceExpr::Path(_) => true,
        PlaceExpr::Field(base, _) => persistent_spec(*base),
        PlaceExpr::Paren(inner) => persistent_spec(*inner),
        PlaceExpr::Other(_) => false,
    }
}

/// The normal text of a place: parentheses dropped, fields joined by `.`,
/// whitespace removed from paths and other expressions.
pub open spec fn normal_spec(e: PlaceExpr) -> Seq<char>
    decreases e,
{
    match e {
        PlaceExpr::Path(t) => without_ws(t@),
        PlaceExpr::Field(base, member) => normal_spec(*base) + "."@ + member@,
        PlaceExpr::Paren(inner) => normal_spec(*inner),
        PlaceExpr::Other(t) => without_ws(t@),
    }
}

fn char_is_ws(c: char) -> (r: bool)
    ensures
        r == is_unicode_ws(c),
{
    ('\u{9}' <= c && c <= '\u{d}') || c == ' ' || c == '\u{85}' || c == '\u{a0}' || c == '\u{1680}'
        || ('\u{2000}' <= c && c <= '\u{200a}') || c == '\u{2028}' || c == '\u{2029}' || c
        == '\u{202f}' || c == '\u{205f}' || c == '\u{3000}'
}

fn strip_ws(s: &str) -> (r: String)
    ensures
        r@ == without_ws(s@),
{
    let chars = crate::text::chars_of(s);
    let mut out = String::new();
    let mut i: usize = 0;
    while i < chars.len()
        invariant
            i <= chars@.len(),
            chars@ == s@,
            out@ == without_ws(s@.take(i as int)),
        decreases chars@.len() - i,
    {
        assert(s@.take(i + 1).drop_last() =~= s@.take(i as int));
        let c = chars[i];
        if !char_is_ws(c) {
            let one = s.substring_char(i, i + 1);
            assert(one@ =~= seq![c]);
            out.append(one);
        }
        i = i + 1;
    }
    assert(s@.take(chars@.len() as int) =~= s@);
    out
}

/// Whether the place names persistent state.
pub fn is_persistent_place(e: &PlaceExpr) -> (r: bool)
    ensures
        r == persistent_spec(*e),
    decreases e,
{
    match e {
        PlaceExpr::Path(_) => true,
        PlaceExpr::Field(base, _) => is_persistent_place(base),
        PlaceExpr::Paren(inner) => is_persistent_place(inner),
        PlaceExpr::Other(_) => false,
    }
}

/// The place's normal text.
pub fn normalize_place(e: &PlaceExpr) -> (r: String)
    ensures
        r@ == normal_spec(*e),
    decreases e,
{
    match e {
        PlaceExpr::Path(t) => strip_ws(t.as_str()),
        PlaceExpr::Field(base, member) => {
            let mut s = normalize_place(base);
            s.append(".");
            s.append(member.as_str());
            s
        },
        PlaceExpr::Paren(inner) => normalize_place(inner),
        PlaceExpr::Other(t) => strip_ws(t.as_str()),
    }
}

} // verus!
