//! Newline-framed messages on the local pipe: each message is one line of
//! UTF-8 JSON ended by `\n`, and a line longer than the bound is refused.
use vstd::prelude::*;
use vstd::string::StrSliceExecFns;
use vstd::utf8::encode_utf8;

verus! {

/// The longest line either side accepts.
pub const MAX_LINE_BYTES: usize = 65536;

/// The bytes sent for one message: its text and the newline.
pub fn frame_line(text: &str) -> (r: Vec<u8>)
    ensures
        r@ == encode_utf8(text@).push(10u8),
{
    let mut bytes = text.as_bytes_vec();
    bytes.push(10u8);
    bytes
}

/// The index of the first newline in `chunk`, or its length when it has
/// none.
pub open spec fn newline_at(chunk: Seq<u8>) -> int
    decreases chunk.len(),
{
    if chunk.len() == 0 {
        0
    } else if chunk[0] == 10u8 {
        0
    } else {
        1 + newline_at(chunk.drop_first())
    }
}

proof fn lemma_newline_at(chunk: Seq<u8>)
    ensures
        0 <= newline_at(chunk) <= chunk.len(),
        forall|i: int| 0 <= i < newline_at(chunk) ==> #[trigger] chunk[i] != 10u8,
        newline_at(chunk) < chunk.len() ==> chunk[newline_at(chunk)] == 10u8,
    decreases chunk.len(),
{
    if chunk.len() > 0 && chunk[0] != 10u8 {
        lemma_newline_at(chunk.drop_first());
        assert forall|i: int| 1 <= i < chunk.len() implies chunk[i] == chunk.drop_first()[i - 1] by {}
    }
}

/// What one read of the pipe leads to.
pub enum LineStep {
    /// A whole line arrived (without its newline); the rest of the read is
    /// dropped.
    Line(Vec<u8>),
    /// The line grew past the bound.
    TooLarge,
    /// No newline yet: read again.
    NeedMore,
}

/// The part of a line read so far.
pub struct LineReader {
    buffer: Vec<u8>,
    max_bytes: usize,
}

impl LineReader {
    /// The bytes read so far of the current line.
    pub closed spec fn pending(self) -> Seq<u8> {
        self.buffer@
    }

    pub closed spec fn bound(self) -> usize {
        self.max_bytes
    }

    /// The line read so far is within the bound.
    pub closed spec fn well_formed(self) -> bool {
        self.buffer@.len() <= self.max_bytes
    }

    pub fn new(max_bytes: usize) -> (r: Self)
        ensures
            r.well_formed(),
            r.pending() == Seq::<u8>::empty(),
            r.bound() == max_bytes,
    {
        LineReader { buffer: Vec::new(), max_bytes }
    }

    /// Takes in one read: the bytes up to the first newline extend the line;
    /// the line is complete at the newline, and refused once it holds more
    /// than the bound.
    pub fn feed(&mut self, chunk: &[u8]) -> (r: LineStep)
        requires
            old(self).well_formed(),
        ensures
            final(self).well_formed(),
            final(self).bound() == old(self).bound(),
            old(self).pending().len() + newline_at(chunk@) > old(self).bound() ==> r is TooLarge,
            old(self).pending().len() + newline_at(chunk@) <= old(self).bound() && newline_at(
                chunk@,
            ) < chunk@.len() ==> (r matches LineStep::Line(line) && line@ == old(self).pending()
                + chunk@.subrange(0, newline_at(chunk@)) && final(self).pending()
                == Seq::<u8>::empty()),
            old(self).pending().len() + newline_at(chunk@) <= old(self).bound() && newline_at(
                chunk@,
            ) == chunk@.len() ==> r is NeedMore && final(self).pending() == old(self).pending()
                + chunk@,
    {
        proof {
            lemma_newline_at(chunk@);
        }
        let ghost start = self.buffer@;
        let mut i: usize = 0;
        while i < chunk.len()
            invariant
                i <= chunk@.len(),
                i <= newline_at(chunk@),
                0 <= newline_at(chunk@) <= chunk@.len(),
                forall|k: int| 0 <= k < newline_at(chunk@) ==> #[trigger] chunk@[k] != 10u8,
                newline_at(chunk@) < chunk@.len() ==> chunk@[newline_at(chunk@)] == 10u8,
                self.buffer@ == start + chunk@.subrange(0, i as int),
                start.len() + i <= self.max_bytes,
                self.max_bytes == old(self).max_bytes,
                start == old(self).buffer@,
            decreases chunk@.len() - i,
        {
            if chunk[i] == 10u8 {
                let mut line: Vec<u8> = Vec::new();
                std::mem::swap(&mut line, &mut self.buffer);
                return LineStep::Line(line);
            }
            if self.buffer.len() >= self.max_bytes {
                self.buffer = Vec::new();
                return LineStep::TooLarge;
            }
            self.buffer.push(chunk[i]);
            assert(self.buffer@ =~= start + chunk@.subrange(0, i + 1));
            i = i + 1;
        }
        LineStep::NeedMore
    }
}


proof fn lemma_newline_after(bytes: Seq<u8>)
    requires
        forall|i: int| 0 <= i < bytes.len() ==> #[trigger] bytes[i] != 10u8,
    ensures
        newline_at(bytes.push(10u8)) == bytes.len(),
    decreases bytes.len(),
{
    if bytes.len() > 0 {
        let rest = bytes.drop_first();
        assert forall|i: int| 0 <= i < rest.len() implies #[trigger] rest[i] != 10u8 by {
            assert(rest[i] == bytes[i + 1]);
        }
        lemma_newline_after(rest);
        assert(bytes.push(10u8).drop_first() =~= rest.push(10u8));
        assert(bytes.push(10u8)[0] == bytes[0]);
    }
}

/// A framed message reads back whole: for a text whose encoding holds no
/// newline and fits the bound, the framed bytes fed to a reader with nothing
/// pending complete a line (`feed`'s `Line` case) that is exactly the text's
/// encoding.
pub proof fn law_framed_line_reads_back(text: Seq<char>, bound: usize)
    requires
        forall|i: int| 0 <= i < encode_utf8(text).len() ==> #[trigger] encode_utf8(text)[i] != 10u8,
        encode_utf8(text).len() <= bound,
    ensures
        ({
            let framed = encode_utf8(text).push(10u8);
            &&& Seq::<u8>::empty().len() + newline_at(framed) <= bound
            &&& newline_at(framed) < framed.len()
            &&& Seq::<u8>::empty() + framed.subrange(0, newline_at(framed)) == encode_utf8(text)
        }),
{
    let bytes = encode_utf8(text);
    lemma_newline_after(bytes);
    assert(Seq::<u8>::empty() + bytes.push(10u8).subrange(0, bytes.len() as int) =~= bytes);
}

} // verus!
