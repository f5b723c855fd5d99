//! Incremental decoding of a server-sent-event stream: bytes arrive in
//! arbitrary chunks; complete lines are decoded as UTF-8; `data:` fields
//! accumulate and a blank line dispatches them, joined by newlines, as one
//! event.

use vstd::prelude::*;

use crate::text::{chars_of, concat, string_of};
use vstd::string::StrSliceExecFns;
use vstd::utf8::{decode_utf8, valid_utf8};

verus! {

/// Decodes UTF-8 bytes into a string, or reports why they are not UTF-8.
///
/// Calls `std::str::from_utf8`, which accepts exactly the valid UTF-8
/// sequences and then holds the characters they encode; the text of the
/// error is std's own and is not described here.
#[verifier::external_body]
fn utf8_text(bytes: &[u8]) -> (r: Result<String, String>)
    ensures
        r is Ok <==> valid_utf8(bytes@),
        r matches Ok(s) ==> s@ == decode_utf8(bytes@),
{
    match std::str::from_utf8(bytes) {
        Ok(s) => Ok(s.to_owned()),
        Err(e) => Err(e.to_string()),
    }
}

/// The first `\n` at or after `p`, or the end.
pub open spec fn lf_from(s: Seq<u8>, p: int) -> int
    decreases s.len() - p,
{
    if p >= s.len() {
        s.len() as int
    } else if s[p] == 10 {
        p
    } else {
        lf_from(s, p + 1)
    }
}

/// Bounds of the newline search.
pub proof fn lemma_lf_from(s: Seq<u8>, p: int)
    requires
        0 <= p <= s.len(),
    ensures
        p <= lf_from(s, p) <= s.len(),
        lf_from(s, p) < s.len() ==> s[lf_from(s, p)] == 10,
    decreases s.len() - p,
{
    if p < s.len() && s[p] != 10 {
        lemma_lf_from(s, p + 1);
    }
}

/// A line's bytes without one trailing `\r`.
pub open spec fn without_cr(l: Seq<u8>) -> Seq<u8> {
    if l.len() > 0 && l.last() == 13 {
        l.drop_last()
    } else {
        l
    }
}

/// The data lines joined by `\n`.
pub open spec fn join_lines(d: Seq<Seq<char>>) -> Seq<char>
    decreases d.len(),
{
    if d.len() == 0 {
        Seq::empty()
    } else if d.len() == 1 {
        d[0]
    } else {
        join_lines(d.drop_last()) + "\n"@ + d.last()
    }
}

/// Dispatches the pending data lines as one event, if there are any.
pub open spec fn dispatch(data: Seq<Seq<char>>, events: Seq<Seq<char>>) -> (
    Seq<Seq<char>>,
    Seq<Seq<char>>,
) {
    if data.len() == 0 {
        (data, events)
    } else {
        (Seq::empty(), events.push(join_lines(data)))
    }
}

/// The first `:` in `s`, or its length.
pub open spec fn colon_at(s: Seq<char>, p: int) -> int
    decreases s.len() - p,
{
    if p >= s.len() {
        s.len() as int
    } else if s[p] == ':' {
        p
    } else {
        colon_at(s, p + 1)
    }
}

/// Bounds of the colon search.
pub proof fn lemma_colon_at(s: Seq<char>, p: int)
    requires
        0 <= p <= s.len(),
    ensures
        p <= colon_at(s, p) <= s.len(),
        colon_at(s, p) < s.len() ==> s[colon_at(s, p)] == ':',
    decreases s.len() - p,
{
    if p < s.len() && s[p] != ':' {
        lemma_colon_at(s, p + 1);
    }
}

/// A field value without one leading space.
pub open spec fn without_space(v: Seq<char>) -> Seq<char> {
    if v.len() > 0 && v[0] == ' ' {
        v.drop_first()
    } else {
        v
    }
}

/// The effect of one decoded line: a blank line dispatches; a comment is
/// ignored; a `data` field adds a data line; other fields are ignored.
pub open spec fn accept_text(line: Seq<char>, data: Seq<Seq<char>>, events: Seq<Seq<char>>) -> (
    Seq<Seq<char>>,
    Seq<Seq<char>>,
) {
    if line.len() == 0 {
        dispatch(data, events)
    } else if line[0] == ':' {
        (data, events)
    } else {
        let c = colon_at(line, 0);
        let field = line.subrange(0, c);
        let value = if c < line.len() {
            line.subrange(c + 1, line.len() as int)
        } else {
            Seq::empty()
        };
        if field == "data"@ {
            (data.push(without_space(value)), events)
        } else {
            (data, events)
        }
    }
}

/// The effect of one line's bytes: `None` if they are not UTF-8.
pub open spec fn accept_bytes(line: Seq<u8>, data: Seq<Seq<char>>, events: Seq<Seq<char>>) -> Option<
    (Seq<Seq<char>>, Seq<Seq<char>>),
> {
    if valid_utf8(line) {
        Some(accept_text(decode_utf8(line), data, events))
    } else {
        None
    }
}

/// Consumes every complete line of `buf`: `Some` holds the unterminated
/// rest, the data lines, and the events; `None` if a line is not UTF-8.
pub open spec fn feed(buf: Seq<u8>, data: Seq<Seq<char>>, events: Seq<Seq<char>>) -> Option<
    (Seq<u8>, Seq<Seq<char>>, Seq<Seq<char>>),
>
    decreases buf.len(),
{
    let k = lf_from(buf, 0);
    proof {
        lemma_lf_from(buf, 0);
    }
    if k >= buf.len() {
        Some((buf, data, events))
    } else {
        match accept_bytes(without_cr(buf.take(k)), data, events) {
            None => None,
            Some((d, e)) => feed(buf.skip(k + 1), d, e),
        }
    }
}

/// An incremental event-stream decoder.
#[derive(Debug)]
pub struct SseDecoder {
    pending: Vec<u8>,
    data_lines: Vec<String>,
}

impl SseDecoder {
    /// Bytes of an unterminated line.
    pub closed spec fn pending(&self) -> Seq<u8> {
        self.pending@
    }

    /// Data lines awaiting dispatch.
    pub closed spec fn data(&self) -> Seq<Seq<char>> {
        self.data_lines@.map_values(|s: String| s@)
    }

    /// A decoder with nothing buffered.
    pub fn new() -> (r: Self)
        ensures
            r.pending() == Seq::<u8>::empty(),
            r.data() == Seq::<Seq<char>>::empty(),
    {
        let r = SseDecoder { pending: Vec::new(), data_lines: Vec::new() };
        assert(r.data() =~= Seq::<Seq<char>>::empty());
        r
    }

    fn dispatch_into(&mut self, events: &mut Vec<String>)
        ensures
            final(self).pending() == old(self).pending(),
            (final(self).data(), final(events)@.map_values(|s: String| s@)) == dispatch(
                old(self).data(),
                old(events)@.map_values(|s: String| s@),
            ),
    {
        if self.data_lines.len() == 0 {
            return;
        }
        let ghost d = self.data();
        let mut joined = string_of(self.data_lines[0].as_str());
        let mut k: usize = 1;
        while k < self.data_lines.len()
            invariant
                1 <= k <= self.data_lines@.len(),
                d == self.data_lines@.map_values(|s: String| s@),
                joined@ == join_lines(d.take(k as int)),
            decreases self.data_lines@.len() - k,
        {
            joined.append("\n");
            joined.append(self.data_lines[k].as_str());
            proof {
                assert(d.take(k + 1).drop_last() =~= d.take(k as int));
                assert(d.take(k + 1).last() == d[k as int]);
            }
            k = k + 1;
        }
        assert(d.take(k as int) =~= d);
        let ghost before = events@;
        events.push(joined);
        assert(events@.map_values(|s: String| s@) =~= before.map_values(|s: String| s@).push(
            join_lines(d),
        ));
        self.data_lines = Vec::new();
        assert(self.data() =~= Seq::<Seq<char>>::empty());
    }

    fn accept_line(&mut self, line: &[u8], events: &mut Vec<String>) -> (r: Result<(), String>)
        ensures
            final(self).pending() == old(self).pending(),
            match accept_bytes(line@, old(self).data(), old(events)@.map_values(|s: String| s@)) {
                None => r is Err,
                Some((d, e)) => r is Ok && final(self).data() == d && final(events)@.map_values(
                    |s: String| s@,
                ) == e,
            },
    {
        let text = match utf8_text(line) {
            Ok(t) => t,
            Err(e) => {
                return Err(concat("model SSE contained invalid UTF-8: ", e.as_str()));
            },
        };
        let cs = chars_of(text.as_str());
        if cs.len() == 0 {
            self.dispatch_into(events);
            return Ok(());
        }
        if cs[0] == ':' {
            return Ok(());
        }
        let mut c: usize = 0;
        while c < cs.len()
            invariant
                c <= cs@.len(),
                colon_at(cs@, c as int) == colon_at(cs@, 0),
            ensures
                c <= cs@.len(),
                c as int == colon_at(cs@, 0),
            decreases cs@.len() - c,
        {
            if cs[c] == ':' {
                break;
            }
            c = c + 1;
        }
        proof {
            reveal_strlit("data");
        }
        let is_data = c == 4 && cs[0] == 'd' && cs[1] == 'a' && cs[2] == 't' && cs[3] == 'a';
        proof {
            let field = cs@.subrange(0, c as int);
            if is_data {
                assert(field =~= "data"@);
            }
        }
        if is_data {
            let value_start = if c < cs.len() {
                c + 1
            } else {
                cs.len()
            };
            let start = if value_start < cs.len() && cs[value_start] == ' ' {
                value_start + 1
            } else {
                value_start
            };
            let value = text.as_str().substring_char(start, cs.len()).to_owned();
            let ghost before = self.data_lines@;
            self.data_lines.push(value);
            proof {
                let v = if c < cs@.len() {
                    cs@.subrange(c + 1, cs@.len() as int)
                } else {
                    Seq::<char>::empty()
                };
                assert(without_space(v) =~= cs@.subrange(start as int, cs@.len() as int));
                assert(self.data() =~= before.map_values(|s: String| s@).push(without_space(v)));
                }
        } else {
            proof {
                reveal_strlit("data");
                let field = cs@.subrange(0, c as int);
                assert(field != "data"@) by {
                    if field == "data"@ {
                        assert(field.len() == 4);
                        assert(field[0] == 'd' && field[1] == 'a' && field[2] == 't' && field[3]
                            == 'a');
                    }
                }
            }
        }
        Ok(())
    }

    /// Takes a chunk of bytes; returns the events its complete lines
    /// dispatch, or an error if a complete line is not UTF-8.
    pub fn push(&mut self, bytes: &[u8]) -> (r: Result<Vec<String>, String>)
        ensures
            match feed(old(self).pending() + bytes@, old(self).data(), Seq::empty()) {
                None => r is Err,
                Some((rest, d, e)) => r matches Ok(evs) && evs@.map_values(|s: String| s@) == e
                    && final(self).pending() == rest && final(self).data() == d,
            },
    {
        let mut buf: Vec<u8> = Vec::new();
        let mut i: usize = 0;
        while i < self.pending.len()
            invariant
                i <= self.pending@.len(),
                buf@ == self.pending@.take(i as int),
            decreases self.pending@.len() - i,
        {
            buf.push(self.pending[i]);
            assert(buf@ =~= self.pending@.take(i + 1));
            i = i + 1;
        }
        let mut j: usize = 0;
        while j < bytes.len()
            invariant
                i == self.pending@.len(),
                j <= bytes@.len(),
                buf@ == self.pending@ + bytes@.take(j as int),
            decreases bytes@.len() - j,
        {
            buf.push(bytes[j]);
            assert(buf@ =~= self.pending@ + bytes@.take(j + 1));
            j = j + 1;
        }
        assert(bytes@.take(j as int) =~= bytes@);
        let ghost whole = buf@;
        assert(whole.skip(0) =~= old(self).pending() + bytes@);
        let mut events: Vec<String> = Vec::new();
        assert(events@.map_values(|s: String| s@) =~= Seq::<Seq<char>>::empty());
        let mut start: usize = 0;
        loop
            invariant
                start <= buf@.len(),
                buf@ == whole,
                feed(whole.skip(start as int), self.data(), events@.map_values(|s: String| s@))
                    == feed(old(self).pending() + bytes@, old(self).data(), Seq::empty()),
            decreases buf@.len() - start,
        {
            let mut k = start;
            while k < buf.len()
                invariant
                    start <= k <= buf@.len(),
                    lf_from(buf@, k as int) == lf_from(buf@, start as int),
                ensures
                    start <= k <= buf@.len(),
                    k as int == lf_from(buf@, start as int),
                decreases buf@.len() - k,
            {
                if buf[k] == 10 {
                    break;
                }
                k = k + 1;
            }
            proof {
                lemma_lf_shift(buf@, start as int);
            }
            if k >= buf.len() {
                let mut rest: Vec<u8> = Vec::new();
                let mut m = start;
                while m < buf.len()
                    invariant
                        start <= m <= buf@.len(),
                        rest@ == buf@.subrange(start as int, m as int),
                    decreases buf@.len() - m,
                {
                    rest.push(buf[m]);
                    assert(rest@ =~= buf@.subrange(start as int, m + 1));
                    m = m + 1;
                }
                assert(rest@ =~= whole.skip(start as int));
                self.pending = rest;
                return Ok(events);
            }
            let end = if k > start && buf[k - 1] == 13 {
                k - 1
            } else {
                k
            };
            let mut line: Vec<u8> = Vec::new();
            let mut m = start;
            while m < end
                invariant
                    start <= m <= end <= buf@.len(),
                    line@ == buf@.subrange(start as int, m as int),
                decreases end - m,
            {
                line.push(buf[m]);
                assert(line@ =~= buf@.subrange(start as int, m + 1));
                m = m + 1;
            }
            proof {
                let tail = whole.skip(start as int);
                assert(without_cr(tail.take(k - start)) =~= line@);
                assert(tail.skip(k - start + 1) =~= whole.skip(k + 1));
            }
            self.accept_line(line.as_slice(), &mut events)?;
            start = k + 1;
        }
    }

    /// Ends the stream: decodes an unterminated last line and dispatches
    /// what remains.
    pub fn finish(&mut self) -> (r: Result<Vec<String>, String>)
        ensures
            final(self).pending() == Seq::<u8>::empty(),
            old(self).pending().len() == 0 ==> ({
                let (d, e) = dispatch(old(self).data(), Seq::empty());
                r matches Ok(evs) && evs@.map_values(|s: String| s@) == e && final(self).data()
                    == d
            }),
            old(self).pending().len() > 0 ==> match accept_bytes(
                old(self).pending(),
                old(self).data(),
                Seq::empty(),
            ) {
                None => r is Err,
                Some((d1, e1)) => {
                    let (d, e) = dispatch(d1, e1);
                    r matches Ok(evs) && evs@.map_values(|s: String| s@) == e && final(self).data()
                        == d
                },
            },
    {
        let mut events: Vec<String> = Vec::new();
        assert(events@.map_values(|s: String| s@) =~= Seq::<Seq<char>>::empty());
        if self.pending.len() > 0 {
            let mut line: Vec<u8> = Vec::new();
            std::mem::swap(&mut line, &mut self.pending);
            self.accept_line(line.as_slice(), &mut events)?;
        }
        self.dispatch_into(&mut events);
        Ok(events)
    }
}

proof fn lemma_lf_shift(s: Seq<u8>, start: int)
    requires
        0 <= start <= s.len(),
    ensures
        lf_from(s.skip(start), 0) + start == lf_from(s, start),
{
    lemma_lf_shift_from(s, start, start);
}

proof fn lemma_lf_shift_from(s: Seq<u8>, start: int, p: int)
    requires
        0 <= start <= p <= s.len(),
    ensures
        lf_from(s.skip(start), p - start) + start == lf_from(s, p),
    decreases s.len() - p,
{
    if p < s.len() {
        assert(s.skip(start)[p - start] == s[p]);
        if s[p] != 10 {
            lemma_lf_shift_from(s, start, p + 1);
        }
    }
}

/// A line's effect on the events only appends to them.
proof fn lemma_accept_text_appends(line: Seq<char>, data: Seq<Seq<char>>, events: Seq<Seq<char>>)
    ensures
        accept_text(line, data, events) == ({
            let (d, e) = accept_text(line, data, Seq::empty());
            (d, events + e)
        }),
{
    if line.len() == 0 && data.len() > 0 {
        assert(events.push(join_lines(data)) =~= events + Seq::<Seq<char>>::empty().push(
            join_lines(data),
        ));
    } else {
        assert(events =~= events + Seq::<Seq<char>>::empty());
    }
}

/// Decoding only appends to the events it is given.
proof fn lemma_feed_appends(buf: Seq<u8>, data: Seq<Seq<char>>, events: Seq<Seq<char>>)
    ensures
        feed(buf, data, events) == match feed(buf, data, Seq::empty()) {
            Some((r, d, e)) => Some((r, d, events + e)),
            None => None,
        },
    decreases buf.len(),
{
    let k = lf_from(buf, 0);
    lemma_lf_from(buf, 0);
    if k >= buf.len() {
        assert(events =~= events + Seq::<Seq<char>>::empty());
    } else {
        let line = without_cr(buf.take(k));
        if valid_utf8(line) {
            let t = decode_utf8(line);
            lemma_accept_text_appends(t, data, events);
            let (d1, e1) = accept_text(t, data, Seq::empty());
            lemma_feed_appends(buf.skip(k + 1), d1, events + e1);
            lemma_feed_appends(buf.skip(k + 1), d1, e1);
            match feed(buf.skip(k + 1), d1, Seq::empty()) {
                Some((r, d, e)) => {
                    assert(events + (e1 + e) =~= (events + e1) + e);
                },
                None => {},
            }
        }
    }
}

proof fn lemma_lf_extend(x: Seq<u8>, y: Seq<u8>, p: int)
    requires
        0 <= p <= x.len(),
        lf_from(x, p) < x.len(),
    ensures
        lf_from(x + y, p) == lf_from(x, p),
    decreases x.len() - p,
{
    assert((x + y)[p] == x[p]);
    if x[p] != 10 {
        lemma_lf_extend(x, y, p + 1);
    }
}

/// Feeding `x` and then `y` is feeding `x + y`: what `x` leaves
/// unterminated is continued by `y`.
proof fn lemma_feed_split(x: Seq<u8>, y: Seq<u8>, data: Seq<Seq<char>>, events: Seq<Seq<char>>)
    ensures
        match feed(x, data, events) {
            Some((r, d, e)) => feed(x + y, data, events) == feed(r + y, d, e),
            None => feed(x + y, data, events) is None,
        },
    decreases x.len(),
{
    let k = lf_from(x, 0);
    lemma_lf_from(x, 0);
    if k >= x.len() {
    } else {
        lemma_lf_extend(x, y, 0);
        lemma_lf_from(x + y, 0);
        assert((x + y).take(k) =~= x.take(k));
        assert((x + y).skip(k + 1) =~= x.skip(k + 1) + y);
        let line = without_cr(x.take(k));
        match accept_bytes(line, data, events) {
            None => {},
            Some((d, e)) => {
                lemma_feed_split(x.skip(k + 1), y, d, e);
            },
        }
    }
}

/// Decoding does not depend on where the stream is cut into chunks: two
/// pushes give the same events, unterminated rest and pending data lines
/// as one push of both chunks, and a stream already refused stays refused.
pub proof fn law_chunk_boundaries_are_invisible(
    pending: Seq<u8>,
    data: Seq<Seq<char>>,
    a: Seq<u8>,
    b: Seq<u8>,
)
    ensures
        match feed(pending + a, data, Seq::empty()) {
            None => feed(pending + a + b, data, Seq::empty()) is None,
            Some((r1, d1, e1)) => match feed(r1 + b, d1, Seq::empty()) {
                None => feed(pending + a + b, data, Seq::empty()) is None,
                Some((r2, d2, e2)) => feed(pending + a + b, data, Seq::empty()) == Some(
                    (r2, d2, e1 + e2),
                ),
            },
        },
{
    lemma_feed_split(pending + a, b, data, Seq::empty());
    match feed(pending + a, data, Seq::empty()) {
        None => {},
        Some((r1, d1, e1)) => {
            lemma_feed_appends(r1 + b, d1, e1);
        },
    }
}

} // verus!
