//! The pure rules of the workspace tools: which tool a call names, how a
//! workspace-relative path is checked lexically, and where an edit's old
//! text is found (exactly, or line by line ignoring trailing whitespace).

use vstd::prelude::*;

use crate::protocol::event::ToolOutcome;
use crate::driver::sse::join_lines;
use crate::text::{chars_of, concat, contains_chars, decimal, decimal_string, occurs_in, string_of};
use vstd::string::{StrSliceExecFns, StringSliceAdditionalSpecFns};
use vstd::utf8::{encode_utf8, is_char_boundary};

verus! {

// ---------------------------------------------------------------------
// Lines and trailing whitespace, over UTF-8 bytes
// ---------------------------------------------------------------------

/// The first `\n` at or after `p`, or the end.
pub open spec fn newline_from(s: Seq<u8>, p: int) -> int
    decreases s.len() - p,
{
    if p >= s.len() {
        s.len() as int
    } else if s[p] == 10 {
        p
    } else {
        newline_from(s, p + 1)
    }
}

pub proof fn lemma_newline_from(s: Seq<u8>, p: int)
    requires
        0 <= p <= s.len(),
    ensures
        p <= newline_from(s, p) <= s.len(),
    decreases s.len() - p,
{
    if p < s.len() && s[p] != 10 {
        lemma_newline_from(s, p + 1);
    }
}

/// The `(start, end)` byte spans of the lines of `s` from byte `p`, as
/// `str::lines` yields them: a line ends at `\n`, a `\r` just before that
/// `\n` is not part of it, and a final piece without `\n` is a line as it
/// stands.
#[verifier::opaque]
pub open spec fn line_spans(s: Seq<u8>, p: int) -> Seq<(int, int)>
    decreases s.len() - p,
{
    if p >= s.len() || p < 0 {
        Seq::empty()
    } else {
        let k = newline_from(s, p);
        proof {
            lemma_newline_from(s, p);
        }
        if k >= s.len() {
            seq![(p, s.len() as int)]
        } else {
            let e = if k > p && s[k - 1] == 13 {
                k - 1
            } else {
                k
            };
            seq![(p, e)] + line_spans(s, k + 1)
        }
    }
}

/// A one-byte whitespace character.
pub open spec fn ws1(b: u8) -> bool {
    (9 <= b <= 13) || b == 32
}

/// A two-byte whitespace character: U+0085 or U+00A0.
pub open spec fn ws2(a: u8, b: u8) -> bool {
    a == 0xc2 && (b == 0x85 || b == 0xa0)
}

/// A three-byte whitespace character: U+1680, U+2000 to U+200A, U+2028,
/// U+2029, U+202F, U+205F, or U+3000.
pub open spec fn ws3(a: u8, b: u8, c: u8) -> bool {
    ||| a == 0xe1 && b == 0x9a && c == 0x80
    ||| a == 0xe2 && b == 0x80 && (0x80 <= c <= 0x8a || c == 0xa8 || c == 0xa9 || c == 0xaf)
    ||| a == 0xe2 && b == 0x81 && c == 0x9f
    ||| a == 0xe3 && b == 0x80 && c == 0x80
}

/// The end of `s[a..b]` once trailing whitespace is removed. On UTF-8 text
/// cut at character boundaries this is `str::trim_end`: every pattern
/// matched ends a whole character.
pub open spec fn trim_end_at(s: Seq<u8>, a: int, b: int) -> int
    decreases b - a,
{
    if b <= a {
        a
    } else if ws1(s[b - 1]) {
        trim_end_at(s, a, b - 1)
    } else if b - 2 >= a && ws2(s[b - 2], s[b - 1]) {
        trim_end_at(s, a, b - 2)
    } else if b - 3 >= a && ws3(s[b - 3], s[b - 2], s[b - 1]) {
        trim_end_at(s, a, b - 3)
    } else {
        b
    }
}

/// Line `span` of `s` without its trailing whitespace.
pub open spec fn trimmed(s: Seq<u8>, span: (int, int)) -> Seq<u8> {
    s.subrange(span.0, trim_end_at(s, span.0, span.1))
}

/// `n` occurs in `h` at byte `i`.
pub open spec fn bytes_at(h: Seq<u8>, n: Seq<u8>, i: int) -> bool {
    0 <= i && i + n.len() <= h.len() && h.subrange(i, i + n.len()) == n
}

/// The first byte position where `n` occurs in `h`.
pub open spec fn first_at(h: Seq<u8>, n: Seq<u8>) -> Option<int> {
    if exists|i: int| #[trigger] bytes_at(h, n, i) {
        Some(
            choose|i: int| #[trigger]
                bytes_at(h, n, i) && forall|j: int| 0 <= j < i ==> !bytes_at(h, n, j),
        )
    } else {
        None
    }
}

/// The needle's lines match the haystack's lines from line `start`, each
/// compared without trailing whitespace.
#[verifier::opaque]
pub open spec fn window_matches(h: Seq<u8>, n: Seq<u8>, start: int) -> bool {
    let hs = line_spans(h, 0);
    let ns = line_spans(n, 0);
    &&& 0 <= start
    &&& start + ns.len() <= hs.len()
    &&& forall|k: int| 0 <= k < ns.len() ==> #[trigger] trimmed(h, hs[start + k]) == trimmed(n, ns[k])
}

/// The first line `j` or later from which the needle's lines match.
pub open spec fn first_window(h: Seq<u8>, n: Seq<u8>, j: int) -> Option<int>
    decreases line_spans(h, 0).len() + 1 - j,
{
    if j < 0 || j > line_spans(h, 0).len() || j + line_spans(n, 0).len() > line_spans(h, 0).len() {
        None
    } else if window_matches(h, n, j) {
        Some(j)
    } else {
        first_window(h, n, j + 1)
    }
}

/// Where the edit's old text `n` is in `h`, as `(offset, length)`: its first
/// exact occurrence; otherwise the first run of haystack lines equal to the
/// needle's lines up to trailing whitespace, from the byte offset of its
/// first line through the end of its last line (that line's terminator
/// excluded).
pub open spec fn fuzzy_spec(h: Seq<u8>, n: Seq<u8>) -> Option<(int, int)> {
    match first_at(h, n) {
        Some(i) => Some((i, n.len() as int)),
        None => {
            let hs = line_spans(h, 0);
            let ns = line_spans(n, 0);
            if ns.len() == 0 {
                None
            } else {
                match first_window(h, n, 0) {
                    Some(st) => Some((hs[st].0, hs[st + ns.len() - 1].1 - hs[st].0)),
                    None => None,
                }
            }
        },
    }
}

proof fn lemma_first_window(h: Seq<u8>, n: Seq<u8>, j: int)
    ensures
        first_window(h, n, j) matches Some(st) ==> j <= st && window_matches(h, n, st),
    decreases line_spans(h, 0).len() + 1 - j,
{
    if !(j < 0 || j > line_spans(h, 0).len() || j + line_spans(n, 0).len() > line_spans(h, 0).len())
        && !window_matches(h, n, j) {
        lemma_first_window(h, n, j + 1);
    }
}

/// What an edit's old text is found as: its first exact occurrence when
/// it has one; otherwise whole haystack lines, from the start of one line
/// through the end of a later one, whose lines equal the needle's lines
/// once trailing whitespace is trimmed from both.
pub proof fn lemma_fuzzy_match(h: Seq<u8>, n: Seq<u8>)
    ensures
        first_at(h, n) matches Some(i) ==> fuzzy_spec(h, n) == Some((i, n.len() as int))
            && bytes_at(h, n, i),
        first_at(h, n) is None ==> (fuzzy_spec(h, n) matches Some((at, len)) ==> exists|st: int|
            #[trigger] window_matches(h, n, st) && line_spans(n, 0).len() > 0 && at == line_spans(
                h,
                0,
            )[st].0 && at + len == line_spans(h, 0)[st + line_spans(n, 0).len() - 1].1),
{
    if exists|i: int| #[trigger] bytes_at(h, n, i) {
        let i = choose|i: int| #[trigger]
            bytes_at(h, n, i) && forall|j: int| 0 <= j < i ==> !bytes_at(h, n, j);
        assert(bytes_at(h, n, i)) by {
            let w = choose|w: int| #[trigger] bytes_at(h, n, w);
            lemma_least_occurrence(h, n, w);
        }
    }
    lemma_first_window(h, n, 0);
}

proof fn lemma_least_occurrence(h: Seq<u8>, n: Seq<u8>, w: int)
    requires
        bytes_at(h, n, w),
    ensures
        exists|i: int| #[trigger]
            bytes_at(h, n, i) && forall|j: int| 0 <= j < i ==> !bytes_at(h, n, j),
    decreases w,
{
    if exists|j: int| 0 <= j < w && bytes_at(h, n, j) {
        let j = choose|j: int| 0 <= j < w && bytes_at(h, n, j);
        lemma_least_occurrence(h, n, j);
    }
}

/// Spans as plain integer pairs.
pub open spec fn int_spans(v: Seq<(usize, usize)>) -> Seq<(int, int)> {
    v.map_values(|x: (usize, usize)| (x.0 as int, x.1 as int))
}

/// Spans lie in order inside `0..len`, each line ending before the next
/// begins, the first at the start.
pub open spec fn ordered_spans(sp: Seq<(int, int)>, len: int) -> bool {
    &&& forall|i: int| 0 <= i < sp.len() ==> 0 <= (#[trigger] sp[i]).0 <= sp[i].1 <= len
    &&& forall|i: int| 0 <= i < sp.len() - 1 ==> (#[trigger] sp[i]).1 + 1 <= sp[i + 1].0
    &&& sp.len() > 0 ==> sp[0].0 == 0
}

proof fn lemma_concat_step<T>(acc: Seq<T>, e: T, rest: Seq<T>)
    ensures
        acc.push(e) + rest == acc + (seq![e] + rest),
{
    assert(acc.push(e) + rest =~= acc + (seq![e] + rest));
}

proof fn lemma_spans_mono(sp: Seq<(int, int)>, len: int, i: int, j: int)
    requires
        ordered_spans(sp, len),
        0 <= i <= j < sp.len(),
    ensures
        sp[i].0 <= sp[j].1,
    decreases j - i,
{
    if i < j {
        lemma_spans_mono(sp, len, i + 1, j);
        assert(sp[i].1 + 1 <= sp[i + 1].0);
    }
}

fn newline_index(s: &[u8], p: usize) -> (k: usize)
    requires
        p <= s@.len(),
    ensures
        k as int == newline_from(s@, p as int),
        p <= k <= s@.len(),
        forall|j: int| p <= j < k ==> s@[j] != 10,
        k < s@.len() ==> s@[k as int] == 10,
{
    let mut k = p;
    while k < s.len()
        invariant
            p <= k <= s@.len(),
            newline_from(s@, k as int) == newline_from(s@, p as int),
            forall|j: int| p <= j < k ==> s@[j] != 10,
        decreases s@.len() - k,
    {
        if s[k] == 10 {
            return k;
        }
        k = k + 1;
    }
    k
}

/// The line spans of `s`.
fn spans_of(s: &[u8]) -> (r: Vec<(usize, usize)>)
    ensures
        int_spans(r@) == line_spans(s@, 0),
        ordered_spans(int_spans(r@), s@.len() as int),
{
    let n = s.len();
    let mut out: Vec<(usize, usize)> = Vec::new();
    let mut p: usize = 0;
    while p < n
        invariant
            n == s@.len(),
            p <= n,
            int_spans(out@) + line_spans(s@, p as int) == line_spans(s@, 0),
            ordered_spans(int_spans(out@), n as int),
            out@.len() > 0 && p < n ==> out@.last().1 < p,
            out@.len() == 0 ==> p == 0,
        decreases n - p,
    {
        let k = newline_index(s, p);
        let ghost before = out@;
        proof {
            reveal(line_spans);
        }
        if k >= n {
            out.push((p, n));
            proof {
                assert(line_spans(s@, p as int) == seq![(p as int, n as int)]);
                assert(int_spans(out@) =~= int_spans(before).push((p as int, n as int)));
                assert(line_spans(s@, n as int) =~= Seq::<(int, int)>::empty());
                lemma_concat_step(int_spans(before), (p as int, n as int), Seq::<(int, int)>::empty());
            }
            p = n;
        } else {
            let e = if k > p && s[k - 1] == 13 {
                k - 1
            } else {
                k
            };
            out.push((p, e));
            proof {
                assert(line_spans(s@, p as int) == seq![(p as int, e as int)] + line_spans(
                    s@,
                    k + 1,
                ));
                assert(int_spans(out@) =~= int_spans(before).push((p as int, e as int)));
                lemma_concat_step(int_spans(before), (p as int, e as int), line_spans(s@, k + 1));
            }
            p = k + 1;
        }
    }
    proof {
        reveal(line_spans);
        assert(line_spans(s@, p as int) =~= Seq::<(int, int)>::empty());
        assert(int_spans(out@) + Seq::<(int, int)>::empty() =~= int_spans(out@));
    }
    out
}

proof fn lemma_trim_end_bounds(s: Seq<u8>, a: int, b: int)
    requires
        a <= b,
    ensures
        a <= trim_end_at(s, a, b) <= b,
    decreases b - a,
{
    if b > a {
        if ws1(s[b - 1]) {
            lemma_trim_end_bounds(s, a, b - 1);
        } else if b - 2 >= a && ws2(s[b - 2], s[b - 1]) {
            lemma_trim_end_bounds(s, a, b - 2);
        } else if b - 3 >= a && ws3(s[b - 3], s[b - 2], s[b - 1]) {
            lemma_trim_end_bounds(s, a, b - 3);
        }
    }
}

fn is_ws3(a: u8, b: u8, c: u8) -> (r: bool)
    ensures
        r == ws3(a, b, c),
{
    (a == 0xe1 && b == 0x9a && c == 0x80) || (a == 0xe2 && b == 0x80 && ((0x80 <= c && c <= 0x8a)
        || c == 0xa8 || c == 0xa9 || c == 0xaf)) || (a == 0xe2 && b == 0x81 && c == 0x9f) || (a
        == 0xe3 && b == 0x80 && c == 0x80)
}

/// The end of `s[a..b]` without trailing whitespace.
fn trim_end_index(s: &[u8], a: usize, b: usize) -> (r: usize)
    requires
        a <= b <= s@.len(),
    ensures
        r as int == trim_end_at(s@, a as int, b as int),
        a <= r <= b,
{
    proof {
        lemma_trim_end_bounds(s@, a as int, b as int);
    }
    let mut e = b;
    while e > a
        invariant
            a <= e <= b <= s@.len(),
            trim_end_at(s@, a as int, e as int) == trim_end_at(s@, a as int, b as int),
        decreases e - a,
    {
        let c = s[e - 1];
        if (9 <= c && c <= 13) || c == 32 {
            e = e - 1;
        } else if e - a >= 2 && s[e - 2] == 0xc2 && (c == 0x85 || c == 0xa0) {
            e = e - 2;
        } else if e - a >= 3 && is_ws3(s[e - 3], s[e - 2], c) {
            e = e - 3;
        } else {
            return e;
        }
    }
    e
}

/// Two lines are equal once trailing whitespace is removed.
fn trimmed_equal(h: &[u8], hs: (usize, usize), n: &[u8], ns: (usize, usize)) -> (r: bool)
    requires
        hs.0 <= hs.1 <= h@.len(),
        ns.0 <= ns.1 <= n@.len(),
    ensures
        r == (trimmed(h@, (hs.0 as int, hs.1 as int)) == trimmed(n@, (ns.0 as int, ns.1 as int))),
{
    let he = trim_end_index(h, hs.0, hs.1);
    let ne = trim_end_index(n, ns.0, ns.1);
    let ghost th = trimmed(h@, (hs.0 as int, hs.1 as int));
    let ghost tn = trimmed(n@, (ns.0 as int, ns.1 as int));
    if he - hs.0 != ne - ns.0 {
        assert(th.len() != tn.len());
        return false;
    }
    let len = he - hs.0;
    let mut k: usize = 0;
    while k < len
        invariant
            hs.0 <= he <= h@.len(),
            ns.0 <= ne <= n@.len(),
            len == he - hs.0,
            len == ne - ns.0,
            th == h@.subrange(hs.0 as int, he as int),
            tn == n@.subrange(ns.0 as int, ne as int),
            th == trimmed(h@, (hs.0 as int, hs.1 as int)),
            tn == trimmed(n@, (ns.0 as int, ns.1 as int)),
            k <= len,
            forall|j: int| 0 <= j < k ==> th[j] == tn[j],
        decreases len - k,
    {
        if h[hs.0 + k] != n[ns.0 + k] {
            assert(th[k as int] != tn[k as int]);
            assert(th != tn);
            return false;
        }
        k = k + 1;
    }
    assert(th =~= tn);
    true
}

fn bytes_match_at(h: &[u8], n: &[u8], i: usize) -> (r: bool)
    requires
        i + n@.len() <= h@.len(),
    ensures
        r == bytes_at(h@, n@, i as int),
{
    let hl = h.len();
    let mut k: usize = 0;
    while k < n.len()
        invariant
            hl == h@.len(),
            k <= n@.len(),
            i + n@.len() <= h@.len(),
            forall|j: int| 0 <= j < k ==> h@[i + j] == n@[j],
        decreases n@.len() - k,
    {
        if h[i + k] != n[k] {
            assert(h@.subrange(i as int, i + n@.len())[k as int] != n@[k as int]);
            return false;
        }
        k = k + 1;
    }
    assert(h@.subrange(i as int, i + n@.len()) =~= n@);
    true
}

/// The first position of `n` in `h`.
fn find_bytes(h: &[u8], n: &[u8]) -> (r: Option<usize>)
    ensures
        match first_at(h@, n@) {
            Some(i) => r == Some(i as usize) && i <= h@.len(),
            None => r is None,
        },
{
    if n.len() > h.len() {
        assert forall|j: int| !#[trigger] bytes_at(h@, n@, j) by {}
        return None;
    }
    let last = h.len() - n.len();
    let mut i: usize = 0;
    loop
        invariant
            last + n@.len() == h@.len(),
            i <= last,
            forall|j: int| 0 <= j < i ==> !#[trigger] bytes_at(h@, n@, j),
        ensures
            forall|j: int| 0 <= j <= last ==> !#[trigger] bytes_at(h@, n@, j),
        decreases last - i,
    {
        if bytes_match_at(h, n, i) {
            proof {
                let c = choose|j: int| #[trigger]
                    bytes_at(h@, n@, j) && forall|m: int| 0 <= m < j ==> !bytes_at(h@, n@, m);
                assert(bytes_at(h@, n@, i as int) && forall|m: int|
                    0 <= m < i ==> !bytes_at(h@, n@, m));
                assert(c == i as int) by {
                    if c < i {
                    } else if i < c {
                    }
                }
            }
            return Some(i);
        }
        if i == last {
            break;
        }
        i = i + 1;
    }
    assert forall|j: int| !#[trigger] bytes_at(h@, n@, j) by {
        if 0 <= j <= last {
        }
    }
    None
}

/// Whether the needle's lines match the haystack's from line `start`.
fn window_ok(
    h: &[u8],
    hs: &Vec<(usize, usize)>,
    n: &[u8],
    ns: &Vec<(usize, usize)>,
    start: usize,
) -> (r: bool)
    requires
        int_spans(hs@) == line_spans(h@, 0),
        int_spans(ns@) == line_spans(n@, 0),
        ordered_spans(int_spans(hs@), h@.len() as int),
        ordered_spans(int_spans(ns@), n@.len() as int),
        start + ns@.len() <= hs@.len(),
    ensures
        r == window_matches(h@, n@, start as int),
{
    reveal(window_matches);
    let ghost hsi = int_spans(hs@);
    let ghost nsi = int_spans(ns@);
    let hl = hs.len();
    let mut k: usize = 0;
    while k < ns.len()
        invariant
            hl == hs@.len(),
            hsi == int_spans(hs@),
            nsi == int_spans(ns@),
            hsi == line_spans(h@, 0),
            nsi == line_spans(n@, 0),
            ordered_spans(hsi, h@.len() as int),
            ordered_spans(nsi, n@.len() as int),
            start + ns@.len() <= hs@.len(),
            k <= ns@.len(),
            forall|j: int| 0 <= j < k ==> #[trigger] trimmed(h@, hsi[start + j]) == trimmed(n@, nsi[j]),
        decreases ns@.len() - k,
    {
        let a = hs[start + k];
        let b = ns[k];
        assert(hsi[start + k] == (a.0 as int, a.1 as int));
        assert(nsi[k as int] == (b.0 as int, b.1 as int));
        assert(0 <= hsi[start + k].0 <= hsi[start + k].1 <= h@.len());
        assert(0 <= nsi[k as int].0 <= nsi[k as int].1 <= n@.len());
        if !trimmed_equal(h, a, n, b) {
            proof {
                reveal(window_matches);
                assert(!(trimmed(h@, hsi[start + k]) == trimmed(n@, nsi[k as int])));
            }
            return false;
        }
        k = k + 1;
    }
    proof {
        reveal(window_matches);
    }
    true
}

/// Finds an edit's old text: its first exact occurrence, or else the first
/// run of lines that matches the needle's lines ignoring trailing
/// whitespace. The result is `(byte offset, byte length)`.
#[verifier::rlimit(30)]
pub fn fuzzy_find(haystack: &str, needle: &str) -> (r: Option<(usize, usize)>)
    requires
        haystack.spec_bytes().len() < usize::MAX,
    ensures
        match fuzzy_spec(haystack.spec_bytes(), needle.spec_bytes()) {
            Some(p) => r == Some((p.0 as usize, p.1 as usize)),
            None => r is None,
        },
{
    let h = haystack.as_bytes();
    let n = needle.as_bytes();
    match find_bytes(h, n) {
        Some(at) => {
            return Some((at, n.len()));
        },
        None => {},
    }
    let hs = spans_of(h);
    let ns = spans_of(n);
    let ghost hsi = int_spans(hs@);
    let ghost nsi = int_spans(ns@);
    assert(hsi.len() == hs@.len() && nsi.len() == ns@.len());
    if ns.len() == 0 || hs.len() < ns.len() {
        return None;
    }
    let last = hs.len() - ns.len();
    let mut start: usize = 0;
    loop
        invariant
            hsi == int_spans(hs@),
            nsi == int_spans(ns@),
            hsi == line_spans(h@, 0),
            nsi == line_spans(n@, 0),
            ordered_spans(hsi, h@.len() as int),
            ordered_spans(nsi, n@.len() as int),
            h@.len() < usize::MAX,
            h@ == haystack.spec_bytes(),
            n@ == needle.spec_bytes(),
            nsi.len() == ns@.len(),
            hsi.len() == hs@.len(),
            last + ns@.len() == hs@.len(),
            ns@.len() > 0,
            first_at(h@, n@) is None,
            start <= last,
            first_window(h@, n@, start as int) == first_window(h@, n@, 0),
        decreases last - start,
    {
        if window_ok(h, &hs, n, &ns, start) {
            let first = hs[start];
            let end = hs[start + ns.len() - 1];
            proof {
                assert(first_window(h@, n@, start as int) == Some(start as int));
                assert(hsi[start as int] == (first.0 as int, first.1 as int));
                assert(hsi[start + ns@.len() - 1] == (end.0 as int, end.1 as int));
                lemma_spans_mono(hsi, h@.len() as int, start as int, start + ns@.len() - 1);
            }
            return Some((first.0, end.1 - first.0));
        }
        if start == last {
            assert(first_window(h@, n@, start + 1) is None);
            return None;
        }
        start = start + 1;
    }
}

// ---------------------------------------------------------------------
// Paths
// ---------------------------------------------------------------------

/// One lexical component of a workspace-relative path.
#[derive(Debug, PartialEq, Eq)]
pub enum PathPart {
    /// A name to descend into.
    Normal(String),
    /// `..`: a step out of the current directory.
    Parent,
}

/// A component as plain text.
pub enum PathPartSpec {
    /// A name.
    Normal(Seq<char>),
    /// `..`.
    Parent,
}

/// The view of a component.
pub open spec fn part_view(p: PathPart) -> PathPartSpec {
    match p {
        PathPart::Normal(s) => PathPartSpec::Normal(s@),
        PathPart::Parent => PathPartSpec::Parent,
    }
}

/// The first `/` at or after `p`, or the end.
pub open spec fn slash_from(s: Seq<char>, p: int) -> int
    decreases s.len() - p,
{
    if p >= s.len() {
        s.len() as int
    } else if s[p] == '/' {
        p
    } else {
        slash_from(s, p + 1)
    }
}

/// Bounds of the segment search.
pub proof fn lemma_slash_from(s: Seq<char>, p: int)
    requires
        0 <= p <= s.len(),
    ensures
        p <= slash_from(s, p) <= s.len(),
        slash_from(s, p) < s.len() ==> s[slash_from(s, p)] == '/',
    decreases s.len() - p,
{
    if p < s.len() && s[p] != '/' {
        lemma_slash_from(s, p + 1);
    }
}

/// The components of a relative path from character `p`, as
/// `Path::components` yields them on Unix: segments between `/` separators,
/// with empty and `.` segments dropped and `..` a parent step.
pub open spec fn path_parts(s: Seq<char>, p: int) -> Seq<PathPartSpec>
    decreases s.len() - p,
{
    if p < 0 || p > s.len() {
        Seq::empty()
    } else {
        let e = slash_from(s, p);
        proof {
            lemma_slash_from(s, p);
        }
        let seg = s.subrange(p, e);
        let rest = if e >= s.len() {
            Seq::<PathPartSpec>::empty()
        } else {
            path_parts(s, e + 1)
        };
        if seg.len() == 0 || seg == "."@ {
            rest
        } else if seg == ".."@ {
            seq![PathPartSpec::Parent] + rest
        } else {
            seq![PathPartSpec::Normal(seg)] + rest
        }
    }
}

/// The lexical components of a workspace-relative path, or `None` for an
/// absolute path (one that starts at the root).
pub fn path_components(raw: &str) -> (r: Option<Vec<PathPart>>)
    ensures
        match r {
            None => raw@.len() > 0 && raw@[0] == '/',
            Some(parts) => !(raw@.len() > 0 && raw@[0] == '/') && parts@.map_values(
                |q: PathPart| part_view(q),
            ) == path_parts(raw@, 0),
        },
{
    let cs = chars_of(raw);
    let n = cs.len();
    if n > 0 && cs[0] == '/' {
        return None;
    }
    let mut parts: Vec<PathPart> = Vec::new();
    let mut p: usize = 0;
    loop
        invariant
            n == cs@.len(),
            cs@ == raw@,
            !(raw@.len() > 0 && raw@[0] == '/'),
            p <= n,
            parts@.map_values(|q: PathPart| part_view(q)) + path_parts(raw@, p as int)
                == path_parts(raw@, 0),
        decreases n - p,
    {
        let mut e = p;
        while e < n
            invariant
                p <= e <= n,
                n == cs@.len(),
                slash_from(cs@, e as int) == slash_from(cs@, p as int),
            ensures
                p <= e <= n,
                e as int == slash_from(cs@, p as int),
            decreases n - e,
        {
            if cs[e] == '/' {
                break;
            }
            e = e + 1;
        }
        proof {
            lemma_slash_from(cs@, p as int);
        }
        let ghost seg = raw@.subrange(p as int, e as int);
        let ghost rest = if e >= n {
            Seq::<PathPartSpec>::empty()
        } else {
            path_parts(raw@, e + 1)
        };
        let ghost before = parts@.map_values(|q: PathPart| part_view(q));
        let len = e - p;
        let dot = len == 1 && cs[p] == '.';
        let dots = len == 2 && cs[p] == '.' && cs[p + 1] == '.';
        proof {
            reveal_strlit(".");
            reveal_strlit("..");
            assert(seg.len() == len);
            if len >= 1 {
                assert(seg[0] == cs@[p as int]);
            }
            if len >= 2 {
                assert(seg[1] == cs@[p + 1]);
            }
            if dot {
                assert(seg =~= "."@);
            }
            if seg == "."@ {
                assert(seg[0] == '.');
            }
            if dots {
                assert(seg =~= ".."@);
            }
            if seg == ".."@ {
                assert(seg[0] == '.' && seg[1] == '.');
            }
            assert(dot <==> seg == "."@);
            assert(dots <==> seg == ".."@);
        }
        if len == 0 || dot {
            assert(path_parts(raw@, p as int) == rest);
        } else if dots {
            parts.push(PathPart::Parent);
            proof {
                assert(path_parts(raw@, p as int) == seq![PathPartSpec::Parent] + rest);
                assert(parts@.map_values(|q: PathPart| part_view(q)) =~= before.push(
                    PathPartSpec::Parent,
                ));
                assert(before.push(PathPartSpec::Parent) + rest =~= before + (seq![
                    PathPartSpec::Parent,
                ] + rest));
            }
        } else {
            let name = raw.substring_char(p, e).to_owned();
            parts.push(PathPart::Normal(name));
            proof {
                assert(path_parts(raw@, p as int) == seq![PathPartSpec::Normal(seg)] + rest);
                assert(parts@.map_values(|q: PathPart| part_view(q)) =~= before.push(
                    PathPartSpec::Normal(seg),
                ));
                assert(before.push(PathPartSpec::Normal(seg)) + rest =~= before + (seq![
                    PathPartSpec::Normal(seg),
                ] + rest));
            }
        }
        if e >= n {
            proof {
                let now = parts@.map_values(|q: PathPart| part_view(q));
                assert(now + Seq::<PathPartSpec>::empty() =~= now);
            }
            return Some(parts);
        }
        p = e + 1;
    }
}

// ---------------------------------------------------------------------
// Tool calls
// ---------------------------------------------------------------------

/// The arguments of `read`.
#[derive(Debug, PartialEq, Eq)]
pub struct ReadArgs {
    /// Workspace-relative path.
    pub path: String,
}

/// The arguments of `write`.
#[derive(Debug, PartialEq, Eq)]
pub struct WriteArgs {
    /// Workspace-relative path.
    pub path: String,
    /// The new file content.
    pub content: String,
}

/// The arguments of `edit`.
#[derive(Debug, PartialEq, Eq)]
pub struct EditArgs {
    /// Workspace-relative path.
    pub path: String,
    /// The text to replace.
    pub old: String,
    /// Its replacement.
    pub new: String,
}

/// The arguments of `grep`.
#[derive(Debug, PartialEq, Eq)]
pub struct GrepArgs {
    /// The literal pattern.
    pub pattern: String,
    /// Workspace-relative path.
    pub path: String,
}

/// The tools this build offers.
#[derive(Clone, Copy, Debug, PartialEq, Eq, Structural)]
pub enum ToolName {
    /// Read a file.
    Read,
    /// Replace a file atomically.
    Write,
    /// Replace text inside a file atomically.
    Edit,
    /// List the lines of a file that contain a pattern.
    Grep,
}

/// The tool a call names.
pub open spec fn tool_named(name: Seq<char>) -> Option<ToolName> {
    if name == "read"@ {
        Some(ToolName::Read)
    } else if name == "write"@ {
        Some(ToolName::Write)
    } else if name == "edit"@ {
        Some(ToolName::Edit)
    } else if name == "grep"@ {
        Some(ToolName::Grep)
    } else {
        None
    }
}

/// The tool a call names, if this build offers it.
pub fn tool_for(name: &str) -> (r: Option<ToolName>)
    ensures
        r == tool_named(name@),
{
    if crate::text::same_text(name, "read") {
        Some(ToolName::Read)
    } else if crate::text::same_text(name, "write") {
        Some(ToolName::Write)
    } else if crate::text::same_text(name, "edit") {
        Some(ToolName::Edit)
    } else if crate::text::same_text(name, "grep") {
        Some(ToolName::Grep)
    } else {
        None
    }
}

/// The failure text of a call to a tool this build does not offer.
pub fn unknown_tool_message(name: &str) -> (r: String)
    ensures
        r@ == "unknown tool: "@ + name@,
{
    concat("unknown tool: ", name)
}

/// Turns a tool's result into its outcome and funneled output: success
/// text is the output; failure text is both the message and the output.
pub fn finish(result: Result<String, String>) -> (r: (ToolOutcome, String))
    ensures
        match result {
            Ok(output) => r.0 == ToolOutcome::Succeeded && r.1 == output,
            Err(message) => r.0 == (ToolOutcome::Failed { message }) && r.1 == message,
        },
{
    match result {
        Ok(output) => (ToolOutcome::Succeeded, output),
        Err(message) => (ToolOutcome::Failed { message: message.clone() }, message),
    }
}

/// The text of an edit: `content` with bytes `at..at + len` replaced by
/// `new`.
pub fn apply_edit(content: &str, at: usize, len: usize, new: &str) -> (r: String)
    requires
        at + len <= content.spec_bytes().len(),
        is_char_boundary(content.spec_bytes(), at as int),
        is_char_boundary(content.spec_bytes(), at + len),
    ensures
        encode_utf8(r@) == content.spec_bytes().subrange(0, at as int) + new.spec_bytes()
            + content.spec_bytes().subrange(at + len, content.spec_bytes().len() as int),
{
    let total = content.as_bytes().len();
    assert(at + len <= total);
    let (head, _) = content.split_at(at);
    let (_, tail) = content.split_at(at + len);
    let mut out = concat(head, new);
    out.append(tail);
    proof {
        lemma_encode_concat(head@ + new@, tail@);
        lemma_encode_concat(head@, new@);
        assert(out@ == head@ + new@ + tail@);
    }
    out
}

/// Encoding distributes over concatenation.
pub proof fn lemma_encode_concat(a: Seq<char>, b: Seq<char>)
    ensures
        encode_utf8(a + b) == encode_utf8(a) + encode_utf8(b),
    decreases a.len(),
{
    if a.len() == 0 {
        assert(a + b =~= b);
        assert(encode_utf8(a) + encode_utf8(b) =~= encode_utf8(b));
    } else {
        lemma_encode_concat(a.drop_first(), b);
        assert((a + b).drop_first() =~= a.drop_first() + b);
        assert((a + b)[0] == a[0]);
        let x = vstd::utf8::encode_scalar(a[0] as u32);
        assert(x + (encode_utf8(a.drop_first()) + encode_utf8(b)) =~= (x + encode_utf8(
            a.drop_first(),
        )) + encode_utf8(b));
    }
}

// ---------------------------------------------------------------------
// The grep report
// ---------------------------------------------------------------------

/// The first `\n` at or after `p`, or the length.
pub open spec fn char_newline(s: Seq<char>, p: int) -> int
    decreases s.len() - p,
{
    if p >= s.len() {
        s.len() as int
    } else if s[p] == '\n' {
        p
    } else {
        char_newline(s, p + 1)
    }
}

/// Bounds of the newline search.
pub proof fn lemma_char_newline(s: Seq<char>, p: int)
    requires
        0 <= p <= s.len(),
    ensures
        p <= char_newline(s, p) <= s.len(),
    decreases s.len() - p,
{
    if p < s.len() && s[p] != '\n' {
        lemma_char_newline(s, p + 1);
    }
}

/// The lines of `s` from position `p`, as `str::lines` yields them: a line
/// ends at `\n`, a `\r` just before that `\n` is not part of it, and a
/// final piece without `\n` is a line as it stands.
pub open spec fn lines_from(s: Seq<char>, p: int) -> Seq<Seq<char>>
    decreases s.len() - p,
{
    if p >= s.len() || p < 0 {
        Seq::empty()
    } else {
        let k = char_newline(s, p);
        proof {
            lemma_char_newline(s, p);
        }
        if k >= s.len() {
            seq![s.subrange(p, s.len() as int)]
        } else {
            let e = if k > p && s[k - 1] == '\r' {
                k - 1
            } else {
                k
            };
            seq![s.subrange(p, e)] + lines_from(s, k + 1)
        }
    }
}

/// The lines, numbered from `n`, that contain `pattern`, each as
/// `number:line`.
pub open spec fn grep_hits(lines: Seq<Seq<char>>, pattern: Seq<char>, n: nat) -> Seq<Seq<char>>
    decreases lines.len(),
{
    if lines.len() == 0 {
        Seq::empty()
    } else {
        let rest = grep_hits(lines.drop_first(), pattern, n + 1);
        if occurs_in(lines[0], pattern) {
            seq![decimal(n) + ":"@ + lines[0]] + rest
        } else {
            rest
        }
    }
}

/// The grep report: the numbered matching lines of `content`, one per
/// line.
pub open spec fn grep_report(content: Seq<char>, pattern: Seq<char>) -> Seq<char> {
    join_lines(grep_hits(lines_from(content, 0), pattern, 1))
}

fn range_chars(cs: &Vec<char>, a: usize, b: usize) -> (r: Vec<char>)
    requires
        a <= b <= cs@.len(),
    ensures
        r@ == cs@.subrange(a as int, b as int),
{
    let mut out: Vec<char> = Vec::new();
    let mut j = a;
    while j < b
        invariant
            a <= j <= b <= cs@.len(),
            out@ == cs@.subrange(a as int, j as int),
        decreases b - j,
    {
        out.push(cs[j]);
        assert(out@ =~= cs@.subrange(a as int, j + 1));
        j = j + 1;
    }
    out
}

/// Reports the lines of `content` that contain `pattern`, numbered from 1,
/// one `number:line` per line.
pub fn grep_lines(content: &str, pattern: &str) -> (r: String)
    ensures
        r@ == grep_report(content@, pattern@),
{
    let cs = chars_of(content);
    let pat = chars_of(pattern);
    let n = cs.len();
    let ghost total = grep_hits(lines_from(cs@, 0), pattern@, 1);
    let mut out = String::new();
    let mut hits: usize = 0;
    let ghost mut done: Seq<Seq<char>> = Seq::empty();
    let mut p: usize = 0;
    let mut line_no: u128 = 1;
    while p < n
        invariant
            n == cs@.len(),
            cs@ == content@,
            pat@ == pattern@,
            p <= n,
            line_no >= 1,
            line_no <= p + 1,
            hits < line_no,
            hits == done.len(),
            out@ == join_lines(done),
            done + grep_hits(lines_from(cs@, p as int), pattern@, line_no as nat) == total,
        decreases n - p,
    {
        let mut k = p;
        while k < n
            invariant
                p <= k <= n,
                n == cs@.len(),
                char_newline(cs@, k as int) == char_newline(cs@, p as int),
            ensures
                p <= k <= n,
                k as int == char_newline(cs@, p as int),
            decreases n - k,
        {
            if cs[k] == '\n' {
                break;
            }
            k = k + 1;
        }
        let e = if k < n && k > p && cs[k - 1] == '\r' {
            k - 1
        } else {
            k
        };
        let line = range_chars(&cs, p, e);
        let ghost ls = lines_from(cs@, p as int);
        let ghost next = if k < n {
            (k + 1) as int
        } else {
            n as int
        };
        proof {
            assert(ls[0] == line@);
            assert(ls.drop_first() =~= lines_from(cs@, next));
        }
        if contains_chars(&line, &pat) {
            let number = decimal_string(line_no as u64);
            let head = concat(number.as_str(), ":");
            let text = content.substring_char(p, e);
            let hit = concat(head.as_str(), text);
            let ghost before = done;
            if hits > 0 {
                out.append("\n");
            }
            out.append(hit.as_str());
            hits = hits + 1;
            proof {
                done = done.push(hit@);
                assert(done.drop_last() =~= before);
                assert(done + grep_hits(lines_from(cs@, next), pattern@, line_no as nat + 1)
                    =~= before + grep_hits(ls, pattern@, line_no as nat));
            }
        }
        p = if k < n {
            k + 1
        } else {
            n
        };
        line_no = line_no + 1;
    }
    proof {
        assert(done + Seq::<Seq<char>>::empty() =~= done);
    }
    out
}

} // verus!
