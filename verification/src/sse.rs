//! Reading the referee's server-sent event stream: frames end at a blank line,
//! and each `data:` line of a frame carries one event.

use vstd::prelude::*;

verus! {

/// Whether `c` has the Unicode `White_Space` property, as `char::is_whitespace` tests.
pub open spec fn is_white_space(c: char) -> bool {
    ||| c == '\t'
    ||| c == '\n'
    ||| c == '\x0B'
    ||| c == '\x0C'
    ||| c == '\r'
    ||| c == ' '
    ||| c == '\u{85}'
    ||| c == '\u{A0}'
    ||| c == '\u{1680}'
    ||| ('\u{2000}' <= c && c <= '\u{200A}')
    ||| c == '\u{2028}'
    ||| c == '\u{2029}'
    ||| c == '\u{202F}'
    ||| c == '\u{205F}'
    ||| c == '\u{3000}'
}

/// `char::is_whitespace`.
pub fn white_space(c: char) -> (ws: bool)
    ensures
        ws == is_white_space(c),
{
    c == '\t' || c == '\n' || c == '\x0B' || c == '\x0C' || c == '\r' || c == ' ' || c == '\u{85}'
        || c == '\u{A0}' || c == '\u{1680}' || ('\u{2000}' <= c && c <= '\u{200A}') || c == '\u{2028}'
        || c == '\u{2029}' || c == '\u{202F}' || c == '\u{205F}' || c == '\u{3000}'
}

/// The text without its leading white space.
pub open spec fn trim_start(s: Seq<char>) -> Seq<char>
    decreases s.len(),
{
    if s.len() > 0 && is_white_space(s[0]) {
        trim_start(s.drop_first())
    } else {
        s
    }
}

/// The text without its trailing white space.
pub open spec fn trim_end(s: Seq<char>) -> Seq<char>
    decreases s.len(),
{
    if s.len() > 0 && is_white_space(s.last()) {
        trim_end(s.drop_last())
    } else {
        s
    }
}

/// The text without white space at either end, as `str::trim` gives it.
pub open spec fn trim(s: Seq<char>) -> Seq<char> {
    trim_end(trim_start(s))
}

/// The event that a line of a frame carries: the trimmed rest of a trimmed
/// line that starts with `data:`.
pub open spec fn line_data(line: Seq<char>) -> Seq<Seq<char>> {
    let t = trim(line);
    if t.len() >= 5 && t.take(5) == "data:"@ {
        seq![trim(t.skip(5))]
    } else {
        Seq::empty()
    }
}

/// Whether the text's first line break is at `p`.
pub open spec fn first_newline(s: Seq<char>, p: int) -> bool {
    &&& 0 <= p < s.len()
    &&& s[p] == '\n'
    &&& forall|q: int| 0 <= q < p ==> s[q] != '\n'
}

/// The events that a frame's lines carry, in order.
pub open spec fn frame_data(frame: Seq<char>) -> Seq<Seq<char>>
    decreases frame.len(),
{
    if exists|p: int| first_newline(frame, p) {
        let p = choose|p: int| first_newline(frame, p);
        line_data(frame.take(p)) + frame_data(frame.skip(p + 1))
    } else {
        line_data(frame)
    }
}

/// Whether a blank line (two line breaks in a row) starts at `q`.
pub open spec fn blank_at(buf: Seq<char>, q: int) -> bool {
    buf[q] == '\n' && buf[q + 1] == '\n'
}

/// Whether the buffer's first blank line starts at `p`.
pub open spec fn first_blank_line(buf: Seq<char>, p: int) -> bool {
    &&& 0 <= p && p + 1 < buf.len()
    &&& blank_at(buf, p)
    &&& forall|q: int| 0 <= q < p ==> !#[trigger] blank_at(buf, q)
}

/// The events of the complete frames at the buffer's start.
pub open spec fn stream_data(buf: Seq<char>) -> Seq<Seq<char>>
    decreases buf.len(),
{
    if exists|p: int| first_blank_line(buf, p) {
        let p = choose|p: int| first_blank_line(buf, p);
        frame_data(buf.take(p)) + stream_data(buf.skip(p + 2))
    } else {
        Seq::empty()
    }
}

/// What stays buffered after the complete frames: the start of the next frame.
pub open spec fn stream_rest(buf: Seq<char>) -> Seq<char>
    decreases buf.len(),
{
    if exists|p: int| first_blank_line(buf, p) {
        let p = choose|p: int| first_blank_line(buf, p);
        stream_rest(buf.skip(p + 2))
    } else {
        buf
    }
}

/// `String::push`: appends `c`.
#[verifier::external_body]
fn push_char(s: &mut String, c: char)
    ensures
        final(s)@ == old(s)@.push(c),
{
    s.push(c)
}

/// The characters `s[from..to]` as a string.
fn collect_chars(s: &Vec<char>, from: usize, to: usize) -> (out: String)
    requires
        from <= to <= s@.len(),
    ensures
        out@ == s@.subrange(from as int, to as int),
{
    let mut out = String::new();
    let mut i = from;
    while i < to
        invariant
            from <= i <= to,
            to <= s@.len(),
            out@ == s@.subrange(from as int, i as int),
        decreases to - i,
    {
        push_char(&mut out, s[i]);
        assert(s@.subrange(from as int, i + 1) =~= s@.subrange(from as int, i as int).push(s@[i as int]));
        i = i + 1;
    }
    out
}

/// Trimming from the start skips exactly the leading white space.
proof fn lemma_trim_start_skip(s: Seq<char>, i: int)
    requires
        0 <= i <= s.len(),
        forall|k: int| 0 <= k < i ==> is_white_space(s[k]),
    ensures
        trim_start(s) == trim_start(s.skip(i)),
    decreases i,
{
    if i > 0 {
        lemma_trim_start_skip(s, i - 1);
        assert(s.skip(i - 1).drop_first() =~= s.skip(i));
    } else {
        assert(s.skip(0) =~= s);
    }
}

/// Trimming from the end drops exactly the trailing white space.
proof fn lemma_trim_end_take(s: Seq<char>, j: int)
    requires
        0 <= j <= s.len(),
        forall|k: int| j <= k < s.len() ==> is_white_space(s[k]),
    ensures
        trim_end(s) == trim_end(s.take(j)),
    decreases s.len() - j,
{
    if j < s.len() {
        lemma_trim_end_take(s, j + 1);
        assert(s.take(j + 1).drop_last() =~= s.take(j));
    } else {
        assert(s.take(j) =~= s);
    }
}

/// The trimmed `s[from..to]`, as positions.
fn trim_range(s: &Vec<char>, from: usize, to: usize) -> (r: (usize, usize))
    requires
        from <= to <= s@.len(),
    ensures
        from <= r.0 <= r.1 <= to,
        s@.subrange(r.0 as int, r.1 as int) == trim(s@.subrange(from as int, to as int)),
{
    let ghost t = s@.subrange(from as int, to as int);
    let mut a = from;
    while a < to && white_space(s[a])
        invariant
            from <= a <= to,
            to <= s@.len(),
            t == s@.subrange(from as int, to as int),
            forall|k: int| 0 <= k < a - from ==> is_white_space(t[k]),
        decreases to - a,
    {
        a = a + 1;
    }
    proof {
        lemma_trim_start_skip(t, a - from);
        assert(t.skip(a - from) =~= s@.subrange(a as int, to as int));
        let u = s@.subrange(a as int, to as int);
        if a < to {
            assert(!is_white_space(u[0]));
        }
        assert(trim_start(u) == u);
    }
    let ghost u = s@.subrange(a as int, to as int);
    let mut b = to;
    while b > a && white_space(s[b - 1])
        invariant
            a <= b <= to,
            to <= s@.len(),
            u == s@.subrange(a as int, to as int),
            forall|k: int| b - a <= k < u.len() ==> is_white_space(u[k]),
        decreases b - a,
    {
        b = b - 1;
    }
    proof {
        lemma_trim_end_take(u, b - a);
        assert(u.take(b - a) =~= s@.subrange(a as int, b as int));
        let v = s@.subrange(a as int, b as int);
        if b > a {
            assert(!is_white_space(v.last()));
        }
        assert(trim_end(v) == v);
    }
    (a, b)
}

/// The event that the line `s[from..to]` carries, if it is a `data:` line.
fn line_event(s: &Vec<char>, from: usize, to: usize) -> (out: Option<String>)
    requires
        from <= to <= s@.len(),
    ensures
        line_data(s@.subrange(from as int, to as int)) == match out {
            Some(d) => seq![d@],
            None => Seq::<Seq<char>>::empty(),
        },
{
    let (a, b) = trim_range(s, from, to);
    let ghost t = s@.subrange(a as int, b as int);
    if b - a >= 5 && s[a] == 'd' && s[a + 1] == 'a' && s[a + 2] == 't' && s[a + 3] == 'a' && s[a + 4] == ':' {
        proof {
            reveal_strlit("data:");
            assert(t.take(5) =~= "data:"@);
        }
        let (c, d) = trim_range(s, a + 5, b);
        assert(t.skip(5) =~= s@.subrange(a + 5, b as int));
        Some(collect_chars(s, c, d))
    } else {
        proof {
            reveal_strlit("data:");
            if t.len() >= 5 && t.take(5) == "data:"@ {
                assert(t.take(5)[0] == 'd');
                assert(t.take(5)[1] == 'a');
                assert(t.take(5)[2] == 't');
                assert(t.take(5)[3] == 'a');
                assert(t.take(5)[4] == ':');
            }
        }
        None
    }
}

/// The texts of a list of strings.
pub open spec fn strings_view(v: Seq<String>) -> Seq<Seq<char>> {
    v.map_values(|e: String| e@)
}

/// A text has one first line break at most.
proof fn lemma_first_newline_unique(t: Seq<char>, p: int, q: int)
    requires
        first_newline(t, p),
        first_newline(t, q),
    ensures
        p == q,
{
    if p < q {
        assert(t[p] != '\n');
    } else if q < p {
        assert(t[q] != '\n');
    }
}

/// A buffer has one first blank line at most.
proof fn lemma_first_blank_line_unique(t: Seq<char>, p: int, q: int)
    requires
        first_blank_line(t, p),
        first_blank_line(t, q),
    ensures
        p == q,
{
    if p < q {
        assert(!blank_at(t, p));
    } else if q < p {
        assert(!blank_at(t, q));
    }
}

/// The events that the frame `s[from..to]` carries.
fn frame_events(s: &Vec<char>, from: usize, to: usize) -> (events: Vec<String>)
    requires
        from <= to <= s@.len(),
    ensures
        strings_view(events@) == frame_data(s@.subrange(from as int, to as int)),
{
    let mut events: Vec<String> = Vec::new();
    let mut start = from;
    loop
        invariant
            from <= start <= to,
            to <= s@.len(),
            strings_view(events@) + frame_data(s@.subrange(start as int, to as int))
                == frame_data(s@.subrange(from as int, to as int)),
        decreases to - start,
    {
        let ghost t = s@.subrange(start as int, to as int);
        let mut p = start;
        while p < to && s[p] != '\n'
            invariant
                start <= p <= to,
                to <= s@.len(),
                t == s@.subrange(start as int, to as int),
                forall|k: int| 0 <= k < p - start ==> t[k] != '\n',
            decreases to - p,
        {
            p = p + 1;
        }
        let ghost before = strings_view(events@);
        if p < to {
            proof {
                assert(first_newline(t, p - start));
                let c = choose|c: int| first_newline(t, c);
                lemma_first_newline_unique(t, c, p - start);
                assert(t.take(p - start) =~= s@.subrange(start as int, p as int));
                assert(t.skip(p - start + 1) =~= s@.subrange(p + 1, to as int));
            }
            let e = line_event(s, start, p);
            match e {
                Some(d) => events.push(d),
                None => {},
            }
            assert(strings_view(events@) =~= before + line_data(s@.subrange(start as int, p as int)));
            start = p + 1;
        } else {
            proof {
                assert forall|c: int| !first_newline(t, c) by {
                    if first_newline(t, c) {
                        assert(t[c] != '\n');
                    }
                }
            }
            let e = line_event(s, start, to);
            match e {
                Some(d) => events.push(d),
                None => {},
            }
            assert(strings_view(events@) =~= before + line_data(t));
            return events;
        }
    }
}

/// Reads the event stream chunk by chunk, keeping an incomplete frame for later.
#[derive(Clone, Debug)]
pub struct SseDecoder {
    pub buf: Vec<char>,
}

impl SseDecoder {
    /// Nothing buffered yet.
    pub fn new() -> (d: SseDecoder)
        ensures
            d.buf@.len() == 0,
    {
        SseDecoder { buf: Vec::new() }
    }

    /// The position of the buffer's first blank line, if any.
    fn find_blank_line(&self) -> (pos: Option<usize>)
        ensures
            pos matches Some(p) ==> first_blank_line(self.buf@, p as int),
            pos is None ==> forall|p: int| !first_blank_line(self.buf@, p),
    {
        let n = self.buf.len();
        if n < 2 {
            proof {
                assert forall|p: int| !first_blank_line(self.buf@, p) by {}
            }
            return None;
        }
        let mut i: usize = 0;
        while i < n - 1
            invariant
                n == self.buf@.len(),
                n >= 2,
                0 <= i <= n - 1,
                forall|q: int| 0 <= q < i ==> !#[trigger] blank_at(self.buf@, q),
            decreases n - i,
        {
            if self.buf[i] == '\n' && self.buf[i + 1] == '\n' {
                return Some(i);
            }
            i = i + 1;
        }
        proof {
            assert forall|p: int| !first_blank_line(self.buf@, p) by {
                if first_blank_line(self.buf@, p) {
                    assert(!blank_at(self.buf@, p));
                }
            }
        }
        None
    }

    /// Takes in a chunk of the stream and gives the events of the frames it
    /// completes, in order.
    pub fn feed(&mut self, text: &str) -> (events: Vec<String>)
        ensures
            strings_view(events@) == stream_data(old(self).buf@ + text@),
            final(self).buf@ == stream_rest(old(self).buf@ + text@),
    {
        let ghost start = self.buf@;
        for c in it: text.chars()
            invariant
                self.buf@ == start + it.seq().take(it.index()),
        {
            self.buf.push(c);
            assert(start + it.seq().take(it.index() + 1) =~= (start + it.seq().take(it.index())).push(c));
        }
        let ghost all = self.buf@;
        assert(all == start + text@);
        let mut events: Vec<String> = Vec::new();
        loop
            invariant
                all == old(self).buf@ + text@,
                strings_view(events@) + stream_data(self.buf@) == stream_data(all),
                stream_rest(self.buf@) == stream_rest(all),
            decreases self.buf@.len(),
        {
            match self.find_blank_line() {
                None => {
                    assert(!exists|p: int| first_blank_line(self.buf@, p));
                    assert(strings_view(events@) =~= strings_view(events@) + Seq::<Seq<char>>::empty());
                    return events;
                },
                Some(p) => {
                    let ghost b = self.buf@;
                    proof {
                        let c = choose|c: int| first_blank_line(b, c);
                        lemma_first_blank_line_unique(b, c, p as int);
                    }
                    let frame = frame_events(&self.buf, 0, p);
                    assert(b.subrange(0, p as int) =~= b.take(p as int));
                    let ghost before = strings_view(events@);
                    let mut k: usize = 0;
                    while k < frame.len()
                        invariant
                            0 <= k <= frame@.len(),
                            strings_view(events@) == before + strings_view(frame@).take(k as int),
                        decreases frame@.len() - k,
                    {
                        let ghost ev0 = events@;
                        events.push(frame[k].clone());
                        assert(strings_view(events@) =~= strings_view(ev0).push(frame@[k as int]@));
                        assert(strings_view(frame@).take(k + 1) =~= strings_view(frame@).take(k as int).push(frame@[k as int]@));
                        assert(strings_view(events@) =~= before + strings_view(frame@).take(k + 1));
                        k = k + 1;
                    }
                    assert(strings_view(frame@).take(frame@.len() as int) =~= strings_view(frame@));
                    let n = self.buf.len();
                    let mut rest: Vec<char> = Vec::new();
                    let mut j = p + 2;
                    while j < n
                        invariant
                            p + 2 <= j <= n,
                            n == b.len(),
                            self.buf@ == b,
                            rest@ == b.subrange(p + 2, j as int),
                        decreases n - j,
                    {
                        rest.push(self.buf[j]);
                        assert(b.subrange(p + 2, j + 1) =~= b.subrange(p + 2, j as int).push(b[j as int]));
                        j = j + 1;
                    }
                    assert(rest@ =~= b.skip(p + 2));
                    self.buf = rest;
                    assert(strings_view(events@) + stream_data(self.buf@) =~= before + stream_data(b));
                },
            }
        }
    }
}

/// Chunk boundaries do not matter: reading `x` and then `y` (after what `x`
/// left buffered) gives the events, and leaves the buffer, that reading
/// `x + y` at once does.
pub proof fn lemma_stream_chunks(x: Seq<char>, y: Seq<char>)
    ensures
        stream_data(x + y) == stream_data(x) + stream_data(stream_rest(x) + y),
        stream_rest(x + y) == stream_rest(stream_rest(x) + y),
    decreases x.len(),
{
    if exists|p: int| first_blank_line(x, p) {
        let p = choose|p: int| first_blank_line(x, p);
        let xy = x + y;
        assert forall|q: int| 0 <= q < p implies !#[trigger] blank_at(xy, q) by {
            assert(xy[q] == x[q]);
            assert(xy[q + 1] == x[q + 1]);
            assert(!blank_at(x, q));
        }
        assert(xy[p] == x[p] && xy[p + 1] == x[p + 1]);
        assert(first_blank_line(xy, p));
        let c = choose|c: int| first_blank_line(xy, c);
        lemma_first_blank_line_unique(xy, c, p);
        assert(xy.take(p) =~= x.take(p));
        assert(xy.skip(p + 2) =~= x.skip(p + 2) + y);
        lemma_stream_chunks(x.skip(p + 2), y);
        assert(stream_data(xy) == frame_data(x.take(p)) + stream_data(x.skip(p + 2) + y));
        assert(stream_data(x) == frame_data(x.take(p)) + stream_data(x.skip(p + 2)));
        assert(stream_rest(x) == stream_rest(x.skip(p + 2)));
        assert(stream_data(xy) =~= stream_data(x) + stream_data(stream_rest(x) + y));
    } else {
        assert(stream_data(x) == Seq::<Seq<char>>::empty());
        assert(stream_rest(x) == x);
        assert(stream_data(x + y) =~= stream_data(x) + stream_data(stream_rest(x) + y));
    }
}

/// Feeding a decoder two chunks one after the other gives the events, and
/// leaves the buffer, that feeding their concatenation at once does.
pub proof fn lemma_feed_in_pieces(buf: Seq<char>, a: Seq<char>, b: Seq<char>)
    ensures
        stream_data(buf + a) + stream_data(stream_rest(buf + a) + b) == stream_data(buf + (a + b)),
        stream_rest(stream_rest(buf + a) + b) == stream_rest(buf + (a + b)),
{
    lemma_stream_chunks(buf + a, b);
    assert(buf + a + b =~= buf + (a + b));
}

/// The chunks of a stream laid end to end.
pub open spec fn joined(chunks: Seq<Seq<char>>) -> Seq<char>
    decreases chunks.len(),
{
    if chunks.len() == 0 {
        Seq::empty()
    } else {
        joined(chunks.drop_last()) + chunks.last()
    }
}

/// What stays buffered after feeding the chunks one after another to a decoder
/// that held `buf`.
pub open spec fn fed_rest(buf: Seq<char>, chunks: Seq<Seq<char>>) -> Seq<char>
    decreases chunks.len(),
{
    if chunks.len() == 0 {
        buf
    } else {
        stream_rest(fed_rest(buf, chunks.drop_last()) + chunks.last())
    }
}

/// The events that feeding the chunks one after another to a decoder that held
/// `buf` gives, in order.
pub open spec fn fed_events(buf: Seq<char>, chunks: Seq<Seq<char>>) -> Seq<Seq<char>>
    decreases chunks.len(),
{
    if chunks.len() == 0 {
        Seq::empty()
    } else {
        fed_events(buf, chunks.drop_last()) + stream_data(fed_rest(buf, chunks.drop_last()) + chunks.last())
    }
}

/// However a stream is cut into chunks, feeding them one after another to a
/// decoder that holds no complete frame gives the events, and leaves the
/// buffer, that feeding the whole stream at once does.
pub proof fn lemma_feed_chunks(buf: Seq<char>, chunks: Seq<Seq<char>>)
    requires
        forall|p: int| !first_blank_line(buf, p),
    ensures
        fed_events(buf, chunks) == stream_data(buf + joined(chunks)),
        fed_rest(buf, chunks) == stream_rest(buf + joined(chunks)),
    decreases chunks.len(),
{
    if chunks.len() == 0 {
        assert(buf + joined(chunks) =~= buf);
        assert(!exists|p: int| first_blank_line(buf, p));
    } else {
        let front = chunks.drop_last();
        let c = chunks.last();
        lemma_feed_chunks(buf, front);
        lemma_stream_chunks(buf + joined(front), c);
        assert(buf + joined(chunks) =~= buf + joined(front) + c);
    }
}

} // verus!
