//! Lines out of a byte stream that arrives in chunks of any size.
//!
//! A line ends with `\n`. One that is longer than the limit is read to its end
//! and comes out empty, so that a hostile sender can neither exhaust the memory
//! nor get a part of the line taken for a message.
use vstd::prelude::*;
use vstd::slice::slice_subrange;

verus! {

// ---------------------------------------------------------------- std items

/// The text that `String::from_utf8_lossy` makes of some bytes.
pub uninterp spec fn utf8_lossy(bytes: Seq<u8>) -> Seq<char>;

/// `String::from_utf8_lossy` decodes bytes that are UTF-8, and puts a
/// replacement character in place of what is not. What it does to invalid bytes
/// is named, not stated.
#[verifier::external_body]
fn from_utf8_lossy(bytes: &[u8]) -> (s: String)
    ensures
        s@ == utf8_lossy(bytes@),
        vstd::utf8::valid_utf8(bytes@) ==> s@ == vstd::utf8::decode_utf8(bytes@),
{
    String::from_utf8_lossy(bytes).into_owned()
}

// ------------------------------------------------------------ specification

/// The byte that ends a line.
pub const NEWLINE: u8 = 10;

/// The byte that is dropped in front of a `NEWLINE`.
pub const CARRIAGE_RETURN: u8 = 13;

/// The position of the first line end, or the length where there is none.
pub open spec fn first_newline(s: Seq<u8>) -> int
    decreases s.len(),
{
    if s.len() == 0 || s[0] == NEWLINE {
        0
    } else {
        1 + first_newline(s.drop_first())
    }
}

/// The line that the bytes `raw` in front of a line end make.
pub open spec fn line_of(raw: Seq<u8>, max_len: nat) -> Seq<u8> {
    if raw.len() > max_len {
        Seq::empty()
    } else if raw.len() > 0 && raw.last() == CARRIAGE_RETURN {
        raw.drop_last()
    } else {
        raw
    }
}

/// The line that the bytes `raw` make in front of the end of the stream, where
/// there are any.
pub open spec fn last_line_of(raw: Seq<u8>, max_len: nat) -> Option<Seq<u8>> {
    if raw.len() == 0 {
        None
    } else if raw.len() > max_len {
        Some(Seq::empty())
    } else {
        Some(raw)
    }
}

/// The lines in `stream`, where `start` was left over before it, and what is
/// left over behind the last of them.
pub open spec fn frames(start: Seq<u8>, stream: Seq<u8>, max_len: nat) -> (Seq<Seq<u8>>, Seq<u8>)
    decreases stream.len(),
{
    if stream.len() == 0 {
        (Seq::empty(), start)
    } else {
        let (lines, rest) = frames(start, stream.drop_last(), max_len);
        if stream.last() == NEWLINE {
            (lines.push(line_of(rest, max_len)), Seq::empty())
        } else {
            (lines, rest.push(stream.last()))
        }
    }
}

// --------------------------------------------------------------- the reader

/// Collects a line, of which at most `max_len` bytes are kept.
pub struct LineReader {
    max_len: usize,
    buf: Vec<u8>,
    overflow: bool,
    pending: Ghost<Seq<u8>>,
}

impl LineReader {
    /// The bytes of the line that has not ended yet.
    pub closed spec fn pending(self) -> Seq<u8> {
        self.pending@
    }

    /// The longest line that is not thrown away.
    pub closed spec fn limit(self) -> nat {
        self.max_len as nat
    }

    /// What is kept is the line so far, cut at the limit.
    pub closed spec fn wf(self) -> bool {
        &&& self.overflow == (self.pending@.len() > self.max_len)
        &&& !self.overflow ==> self.buf@ == self.pending@
        &&& self.buf@.len() <= self.max_len
    }

    /// A reader at the start of a stream.
    pub fn new(max_len: usize) -> (r: Self)
        ensures
            r.wf(),
            r.limit() == max_len,
            r.pending() == Seq::<u8>::empty(),
    {
        LineReader { max_len, buf: Vec::new(), overflow: false, pending: Ghost(Seq::empty()) }
    }

    /// Takes in bytes that hold no line end.
    fn absorb(&mut self, bytes: &[u8])
        requires
            old(self).wf(),
        ensures
            final(self).wf(),
            final(self).limit() == old(self).limit(),
            final(self).pending() == old(self).pending() + bytes@,
    {
        if !self.overflow {
            let avail: usize = self.max_len - self.buf.len();
            let take: usize = if bytes.len() < avail { bytes.len() } else { avail };
            let ghost before = self.buf@;
            let mut i: usize = 0;
            while i < take
                invariant
                    i <= take <= bytes@.len(),
                    self.buf@ == before + bytes@.take(i as int),
                    self.max_len == old(self).max_len,
                    self.overflow == old(self).overflow,
                    self.pending@ == old(self).pending@,
                    before.len() + take <= self.max_len,
                decreases take - i,
            {
                self.buf.push(bytes[i]);
                assert(before + bytes@.take(i + 1) =~= (before + bytes@.take(i as int)).push(
                    bytes@[i as int],
                ));
                i = i + 1;
            }
            if bytes.len() > avail {
                self.overflow = true;
            } else {
                assert(bytes@.take(take as int) == bytes@);
            }
        }
        self.pending = Ghost(self.pending@ + bytes@);
    }

    /// Reads on in `chunk`, up to the end of the line where it is there.
    /// Returns how many bytes were used, and the line if it ended. What follows
    /// the used bytes is to be fed again.
    pub fn feed(&mut self, chunk: &[u8]) -> (r: (usize, Option<Vec<u8>>))
        requires
            old(self).wf(),
        ensures
            final(self).wf(),
            final(self).limit() == old(self).limit(),
            first_newline(chunk@) < chunk@.len() ==> {
                &&& r.0 == first_newline(chunk@) + 1
                &&& r.1 is Some
                &&& r.1->0@ == line_of(
                    old(self).pending() + chunk@.take(first_newline(chunk@)),
                    old(self).limit(),
                )
                &&& final(self).pending() == Seq::<u8>::empty()
            },
            first_newline(chunk@) >= chunk@.len() ==> {
                &&& r.0 == chunk@.len()
                &&& r.1 is None
                &&& final(self).pending() == old(self).pending() + chunk@
            },
    {
        let mut pos: usize = 0;
        while pos < chunk.len() && chunk[pos] != NEWLINE
            invariant
                pos <= chunk@.len(),
                forall|i: int| 0 <= i < pos ==> #[trigger] chunk@[i] != NEWLINE,
            decreases chunk@.len() - pos,
        {
            pos = pos + 1;
        }
        proof {
            lemma_first_newline_is(chunk@, pos as int);
        }
        if pos == chunk.len() {
            self.absorb(chunk);
            return (pos, None);
        }
        self.absorb(slice_subrange(chunk, 0, pos));
        assert(chunk@.subrange(0, pos as int) == chunk@.take(pos as int));
        let mut line: Vec<u8> = Vec::new();
        if !self.overflow {
            std::mem::swap(&mut line, &mut self.buf);
            if line.len() > 0 && line[line.len() - 1] == CARRIAGE_RETURN {
                line.pop();
            }
        } else {
            self.buf = Vec::new();
        }
        self.overflow = false;
        self.pending = Ghost(Seq::empty());
        (pos + 1, Some(line))
    }

    /// The stream has ended: the line that was under way, where there is one.
    pub fn finish(&mut self) -> (r: Option<Vec<u8>>)
        requires
            old(self).wf(),
        ensures
            final(self).wf(),
            final(self).limit() == old(self).limit(),
            final(self).pending() == Seq::<u8>::empty(),
            r is Some == last_line_of(old(self).pending(), old(self).limit()) is Some,
            r matches Some(line) ==> last_line_of(old(self).pending(), old(self).limit()) == Some(
                line@,
            ),
    {
        let mut line: Vec<u8> = Vec::new();
        std::mem::swap(&mut line, &mut self.buf);
        let overflow = self.overflow;
        self.overflow = false;
        self.pending = Ghost(Seq::empty());
        if overflow {
            Some(Vec::new())
        } else if line.len() == 0 {
            None
        } else {
            Some(line)
        }
    }
}

/// The text of a line, with replacement characters for what is not UTF-8.
pub fn line_text(line: &Vec<u8>) -> (s: String)
    ensures
        s@ == utf8_lossy(line@),
        vstd::utf8::valid_utf8(line@) ==> s@ == vstd::utf8::decode_utf8(line@),
{
    from_utf8_lossy(line.as_slice())
}

// --------------------------------------------------------------------- laws

proof fn lemma_first_newline(s: Seq<u8>)
    ensures
        0 <= first_newline(s) <= s.len(),
        first_newline(s) < s.len() ==> s[first_newline(s)] == NEWLINE,
        forall|i: int| 0 <= i < first_newline(s) ==> #[trigger] s[i] != NEWLINE,
    decreases s.len(),
{
    if s.len() > 0 && s[0] != NEWLINE {
        lemma_first_newline(s.drop_first());
        assert forall|i: int| 0 <= i < first_newline(s) implies #[trigger] s[i] != NEWLINE by {
            if i > 0 {
                assert(s.drop_first()[i - 1] == s[i]);
            }
        }
    }
}

proof fn lemma_first_newline_is(s: Seq<u8>, k: int)
    requires
        0 <= k <= s.len(),
        k < s.len() ==> s[k] == NEWLINE,
        forall|i: int| 0 <= i < k ==> #[trigger] s[i] != NEWLINE,
    ensures
        first_newline(s) == k,
{
    lemma_first_newline(s);
    let f = first_newline(s);
    if f < k {
        assert(s[f] != NEWLINE);
    } else if k < f {
        assert(s[k] != NEWLINE);
    }
}

proof fn lemma_frames_without_newline(start: Seq<u8>, stream: Seq<u8>, max_len: nat)
    requires
        forall|i: int| 0 <= i < stream.len() ==> #[trigger] stream[i] != NEWLINE,
    ensures
        frames(start, stream, max_len) == (Seq::<Seq<u8>>::empty(), start + stream),
    decreases stream.len(),
{
    if stream.len() == 0 {
        assert(start + stream == start);
    } else {
        lemma_frames_without_newline(start, stream.drop_last(), max_len);
        assert((start + stream.drop_last()).push(stream.last()) == start + stream);
    }
}

/// What one call of `feed` does with a chunk is the framing of the bytes that
/// it uses: `used` bytes that end with the first line end, or the whole chunk.
pub proof fn law_feeding_is_framing(start: Seq<u8>, chunk: Seq<u8>, max_len: nat)
    ensures
        ({
            let k = first_newline(chunk);
            if k < chunk.len() {
                frames(start, chunk.take(k + 1), max_len) == (
                    seq![line_of(start + chunk.take(k), max_len)],
                    Seq::<u8>::empty(),
                )
            } else {
                frames(start, chunk, max_len) == (Seq::<Seq<u8>>::empty(), start + chunk)
            }
        }),
{
    let k = first_newline(chunk);
    lemma_first_newline(chunk);
    lemma_frames_without_newline(start, chunk.take(k), max_len);
    if k < chunk.len() {
        assert(chunk.take(k + 1).drop_last() == chunk.take(k));
        assert(Seq::<Seq<u8>>::empty().push(line_of(start + chunk.take(k), max_len)) == seq![
            line_of(start + chunk.take(k), max_len),
        ]);
    } else {
        assert(chunk.take(k) == chunk);
    }
}

/// How a stream is cut into chunks makes no difference: framing one part and
/// then the other gives the lines, and the rest, of both together.
pub proof fn law_chunking_is_irrelevant(start: Seq<u8>, a: Seq<u8>, b: Seq<u8>, max_len: nat)
    ensures
        ({
            let (first_lines, middle) = frames(start, a, max_len);
            let (more_lines, rest) = frames(middle, b, max_len);
            frames(start, a + b, max_len) == (first_lines + more_lines, rest)
        }),
    decreases b.len(),
{
    let (first_lines, middle) = frames(start, a, max_len);
    if b.len() == 0 {
        assert(a + b == a);
        assert(first_lines + Seq::<Seq<u8>>::empty() == first_lines);
    } else {
        law_chunking_is_irrelevant(start, a, b.drop_last(), max_len);
        assert((a + b).drop_last() == a + b.drop_last());
        assert((a + b).last() == b.last());
        let (lines, rest) = frames(middle, b.drop_last(), max_len);
        if b.last() == NEWLINE {
            assert((first_lines + lines).push(line_of(rest, max_len)) == first_lines + lines.push(
                line_of(rest, max_len),
            ));
        }
    }
}

/// No line is longer than the limit.
pub proof fn law_lines_are_bounded(raw: Seq<u8>, max_len: nat)
    ensures
        line_of(raw, max_len).len() <= max_len,
        last_line_of(raw, max_len) matches Some(line) ==> line.len() <= max_len,
{
}

/// A line that is too long comes out empty, and those behind it are read as if it
/// had been an empty one.
pub proof fn law_long_lines_are_passed_over(long: Seq<u8>, rest: Seq<u8>, max_len: nat)
    requires
        long.len() > max_len,
        first_newline(long) == long.len(),
    ensures
        frames(Seq::empty(), long.push(NEWLINE) + rest, max_len) == frames(
            Seq::empty(),
            seq![NEWLINE] + rest,
            max_len,
        ),
        frames(Seq::empty(), long.push(NEWLINE), max_len) == (
            seq![Seq::<u8>::empty()],
            Seq::<u8>::empty(),
        ),
{
    let none = Seq::<u8>::empty();
    let blank = seq![NEWLINE];
    lemma_first_newline(long);
    lemma_frames_without_newline(none, long, max_len);
    assert(long.push(NEWLINE).drop_last() == long);
    assert(none + long == long);
    assert(Seq::<Seq<u8>>::empty().push(none) == seq![none]);
    assert(blank.drop_last() == none);
    assert(frames(none, blank.drop_last(), max_len) == (Seq::<Seq<u8>>::empty(), none));
    law_chunking_is_irrelevant(none, long.push(NEWLINE), rest, max_len);
    law_chunking_is_irrelevant(none, blank, rest, max_len);
}

/// A line of ordinary length, without a line end in it or `\r` at its end, comes
/// back as it was written.
pub proof fn law_written_lines_come_back(line: Seq<u8>, max_len: nat)
    requires
        line.len() <= max_len,
        first_newline(line) == line.len(),
        line.len() > 0 ==> line.last() != CARRIAGE_RETURN,
    ensures
        frames(Seq::empty(), line.push(NEWLINE), max_len) == (seq![line], Seq::<u8>::empty()),
{
    lemma_first_newline(line);
    lemma_frames_without_newline(Seq::empty(), line, max_len);
    assert(line.push(NEWLINE).drop_last() == line);
    assert(Seq::<u8>::empty() + line == line);
    assert(Seq::<Seq<u8>>::empty().push(line) == seq![line]);
}

/// One `\r` in front of the line end is dropped, and only one.
pub proof fn law_one_carriage_return_is_dropped(line: Seq<u8>, max_len: nat)
    requires
        line.len() < max_len,
        first_newline(line) == line.len(),
    ensures
        frames(Seq::empty(), line.push(CARRIAGE_RETURN).push(NEWLINE), max_len) == (
            seq![line],
            Seq::<u8>::empty(),
        ),
{
    let raw = line.push(CARRIAGE_RETURN);
    lemma_first_newline(line);
    assert forall|i: int| 0 <= i < raw.len() implies #[trigger] raw[i] != NEWLINE by {
        if i < line.len() {
            assert(raw[i] == line[i]);
        }
    }
    lemma_frames_without_newline(Seq::empty(), raw, max_len);
    assert(raw.push(NEWLINE).drop_last() == raw);
    assert(Seq::<u8>::empty() + raw == raw);
    assert(raw.drop_last() == line);
    assert(Seq::<Seq<u8>>::empty().push(line) == seq![line]);
}

/// Where the stream ends in the middle of a line, the line comes out as it is,
/// and empty where it is too long. Where it ends behind a line, nothing comes.
pub proof fn law_unfinished_lines_come_out(raw: Seq<u8>, max_len: nat)
    ensures
        raw.len() == 0 ==> last_line_of(raw, max_len) is None,
        0 < raw.len() <= max_len ==> last_line_of(raw, max_len) == Some(raw),
        raw.len() > max_len ==> last_line_of(raw, max_len) is Some && last_line_of(
            raw,
            max_len,
        )->0.len() == 0,
{
}

/// Without a line end nothing comes out, and nothing is lost.
pub proof fn law_bytes_are_kept_until_the_line_ends(start: Seq<u8>, bytes: Seq<u8>, max_len: nat)
    requires
        first_newline(bytes) == bytes.len(),
    ensures
        frames(start, bytes, max_len).0.len() == 0,
        frames(start, bytes, max_len).1 == start + bytes,
{
    lemma_first_newline(bytes);
    lemma_frames_without_newline(start, bytes, max_len);
}

} // verus!
