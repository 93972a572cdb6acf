//! The recent log lines that the window shows.
use crate::text::{trim_end, trimmed_end, views};
use std::collections::VecDeque;
use vstd::prelude::*;
use vstd::utf8::{
    char_is_scalar, decode_utf8, encode_scalar, encode_utf8, encode_utf8_decode_utf8,
    encode_utf8_valid_utf8, valid_utf8,
};

verus! {

/// How many log lines are kept.
pub const LOG_CAPACITY: usize = 400;

/// The text that `String::from_utf8_lossy` reads in bytes that are not UTF-8, with
/// a replacement character for every ill-formed part.
pub uninterp spec fn lossy_text(bytes: Seq<u8>) -> Seq<char>;

/// `String::from_utf8_lossy`: the text that the bytes encode in UTF-8. Of other
/// bytes the text is named by `lossy_text`; that it depends on the bytes alone is
/// all that is claimed.
#[verifier::external_body]
fn text_from_bytes(bytes: &Vec<u8>) -> (r: String)
    ensures
        r@ == (if valid_utf8(bytes@) {
            decode_utf8(bytes@)
        } else {
            lossy_text(bytes@)
        }),
{
    String::from_utf8_lossy(bytes).into_owned()
}

/// The log line that bytes stand for: their text without trailing white space.
pub open spec fn line_text(bytes: Seq<u8>) -> Seq<char> {
    trim_end(
        if valid_utf8(bytes) {
            decode_utf8(bytes)
        } else {
            lossy_text(bytes)
        },
    )
}

/// The kept lines after one more.
pub open spec fn after_push(lines: Seq<Seq<char>>, line: Seq<char>) -> Seq<Seq<char>> {
    if lines.len() >= LOG_CAPACITY {
        lines.drop_first().push(line)
    } else {
        lines.push(line)
    }
}

/// The last of the lines, as many as are kept.
pub open spec fn most_recent(lines: Seq<Seq<char>>) -> Seq<Seq<char>> {
    lines.skip(
        if lines.len() > LOG_CAPACITY {
            lines.len() - LOG_CAPACITY
        } else {
            0
        },
    )
}

/// Ring buffer of recent log lines shown in the window.
pub struct LogBuffer {
    lines: VecDeque<String>,
}

impl View for LogBuffer {
    type V = Seq<Seq<char>>;

    closed spec fn view(&self) -> Seq<Seq<char>> {
        views(self.lines@)
    }
}

impl Default for LogBuffer {
    fn default() -> (r: LogBuffer)
        ensures
            r@ == Seq::<Seq<char>>::empty(),
    {
        let r = LogBuffer { lines: VecDeque::new() };
        assert(r@ =~= Seq::<Seq<char>>::empty());
        r
    }
}

impl LogBuffer {
    /// The buffer never holds more lines than its capacity.
    #[verifier::type_invariant]
    spec fn within_capacity(self) -> bool {
        self.lines@.len() <= LOG_CAPACITY
    }

    /// Adds a line, and drops the oldest one when the buffer is full.
    pub fn push(&mut self, line: String)
        ensures
            final(self)@ == after_push(old(self)@, line@),
            final(self)@ == most_recent(old(self)@.push(line@)),
            final(self)@.len() <= LOG_CAPACITY,
    {
        proof {
            use_type_invariant(&*self);
        }
        let mut lines: VecDeque<String> = VecDeque::new();
        std::mem::swap(&mut lines, &mut self.lines);
        let ghost before = lines@;
        if lines.len() >= LOG_CAPACITY {
            let _ = lines.pop_front();
            assert(views(lines@) =~= views(before).drop_first());
        }
        let ghost kept = lines@;
        lines.push_back(line);
        assert(views(lines@) =~= views(kept).push(line@));
        assert(views(lines@) =~= most_recent(views(before).push(line@)));
        self.lines = lines;
    }

    /// The kept lines, oldest first.
    pub fn lines(&self) -> (r: Vec<String>)
        ensures
            views(r@) == self@,
            r@.len() <= LOG_CAPACITY,
    {
        proof {
            use_type_invariant(self);
        }
        let mut out: Vec<String> = Vec::new();
        let mut i: usize = 0;
        while i < self.lines.len()
            invariant
                i <= self.lines@.len(),
                views(out@) == self@.take(i as int),
            decreases self.lines@.len() - i,
        {
            let ghost before = views(out@);
            out.push(self.lines[i].clone());
            assert(views(out@) == before.push(self.lines@[i as int]@));
            i = i + 1;
        }
        assert(self@.take(self@.len() as int) == self@);
        assert(views(out@).len() == out@.len());
        out
    }
}

/// A writer's unfinished line and the lines kept so far.
#[verifier::ext_equal]
pub struct LogProgress {
    pub pending: Seq<u8>,
    pub lines: Seq<Seq<char>>,
}

/// What one byte does: a line feed ends the pending line.
pub open spec fn after_byte(progress: LogProgress, byte: u8) -> LogProgress {
    let pending = progress.pending.push(byte);
    if byte == 10 {
        LogProgress {
            pending: Seq::empty(),
            lines: after_push(progress.lines, line_text(pending)),
        }
    } else {
        LogProgress { pending, lines: progress.lines }
    }
}

/// What a run of bytes does, one byte after the other.
pub open spec fn after_bytes(progress: LogProgress, bytes: Seq<u8>) -> LogProgress
    decreases bytes.len(),
{
    if bytes.len() == 0 {
        progress
    } else {
        after_byte(after_bytes(progress, bytes.drop_last()), bytes.last())
    }
}

/// What a flush does: the pending line ends where it is.
pub open spec fn after_flush(progress: LogProgress) -> LogProgress {
    if progress.pending.len() == 0 {
        progress
    } else {
        LogProgress {
            pending: Seq::empty(),
            lines: after_push(progress.lines, line_text(progress.pending)),
        }
    }
}

/// Cuts a stream of bytes into log lines.
pub struct LogWriter {
    pending: Vec<u8>,
}

impl View for LogWriter {
    type V = Seq<u8>;

    closed spec fn view(&self) -> Seq<u8> {
        self.pending@
    }
}

impl LogWriter {
    /// A writer with nothing pending.
    pub fn new() -> (r: LogWriter)
        ensures
            r@ == Seq::<u8>::empty(),
    {
        LogWriter { pending: Vec::new() }
    }

    /// Takes bytes in and hands every finished line to the buffer. All bytes are
    /// accepted.
    pub fn write(&mut self, buffer: &mut LogBuffer, bytes: &[u8]) -> (r: usize)
        ensures
            r == bytes@.len(),
            (LogProgress { pending: final(self)@, lines: final(buffer)@ }) == after_bytes(
                LogProgress { pending: old(self)@, lines: old(buffer)@ },
                bytes@,
            ),
    {
        let ghost start = LogProgress { pending: self@, lines: buffer@ };
        let mut i: usize = 0;
        while i < bytes.len()
            invariant
                i <= bytes@.len(),
                (LogProgress { pending: self@, lines: buffer@ }) == after_bytes(
                    start,
                    bytes@.take(i as int),
                ),
            decreases bytes@.len() - i,
        {
            let byte: u8 = bytes[i];
            assert(bytes@.take(i + 1).drop_last() == bytes@.take(i as int));
            assert(bytes@.take(i + 1).last() == byte);
            self.pending.push(byte);
            if byte == 10 {
                let text = text_from_bytes(&self.pending);
                buffer.push(trimmed_end(text.as_str()));
                self.pending = Vec::new();
                assert(self@ =~= Seq::<u8>::empty());
            }
            i = i + 1;
        }
        assert(bytes@.take(bytes@.len() as int) == bytes@);
        bytes.len()
    }

    /// Hands an unfinished line to the buffer as it stands.
    pub fn flush(&mut self, buffer: &mut LogBuffer)
        ensures
            (LogProgress { pending: final(self)@, lines: final(buffer)@ }) == after_flush(
                LogProgress { pending: old(self)@, lines: old(buffer)@ },
            ),
    {
        if self.pending.len() > 0 {
            let text = text_from_bytes(&self.pending);
            buffer.push(trimmed_end(text.as_str()));
            self.pending = Vec::new();
            assert(self@ =~= Seq::<u8>::empty());
        }
    }
}

/// The kept lines after many more.
pub open spec fn after_pushes(lines: Seq<Seq<char>>, more: Seq<Seq<char>>) -> Seq<Seq<char>>
    decreases more.len(),
{
    if more.len() == 0 {
        lines
    } else {
        after_push(after_pushes(lines, more.drop_last()), more.last())
    }
}

/// The buffer never holds more lines than its capacity, and what it holds are
/// the most recent lines in the order in which they came.
pub proof fn lemma_buffer_keeps_most_recent(more: Seq<Seq<char>>)
    ensures
        after_pushes(Seq::empty(), more) == most_recent(more),
        after_pushes(Seq::empty(), more).len() <= LOG_CAPACITY,
    decreases more.len(),
{
    if more.len() > 0 {
        lemma_buffer_keeps_most_recent(more.drop_last());
    }
    assert(after_pushes(Seq::empty(), more) =~= more.skip(
        if more.len() > LOG_CAPACITY {
            more.len() - LOG_CAPACITY
        } else {
            0
        },
    ));
}

/// How a stream of bytes is cut into writes makes no difference.
pub proof fn lemma_writes_join(progress: LogProgress, a: Seq<u8>, b: Seq<u8>)
    ensures
        after_bytes(progress, a + b) == after_bytes(after_bytes(progress, a), b),
    decreases b.len(),
{
    if b.len() == 0 {
        assert(a + b == a);
    } else {
        assert((a + b).drop_last() == a + b.drop_last());
        assert((a + b).last() == b.last());
        lemma_writes_join(progress, a, b.drop_last());
    }
}

/// A line feed never stays pending.
pub proof fn lemma_no_line_feed_pending(progress: LogProgress, bytes: Seq<u8>)
    requires
        !progress.pending.contains(10u8),
    ensures
        !after_bytes(progress, bytes).pending.contains(10u8),
    decreases bytes.len(),
{
    if bytes.len() > 0 {
        lemma_no_line_feed_pending(progress, bytes.drop_last());
        let before = after_bytes(progress, bytes.drop_last());
        let pending = before.pending.push(bytes.last());
        if bytes.last() != 10 && pending.contains(10u8) {
            let i = choose|i: int| 0 <= i < pending.len() && pending[i] == 10u8;
            assert(before.pending[i] == 10u8);
        }
    }
}

proof fn lemma_scalar_without_line_feed(c: char)
    requires
        c != '\n',
    ensures
        !encode_scalar(c as u32).contains(10u8),
{
    char_is_scalar(c);
    let v = c as u32;
    assert(v != 10);
    assert(v <= 0x7F ==> (v & 0x7F) as u8 == v) by (bit_vector);
    assert(0xC0u8 | ((v >> 6) & 0x1F) as u8 >= 0x80) by (bit_vector);
    assert(0xE0u8 | ((v >> 12) & 0x0F) as u8 >= 0x80) by (bit_vector);
    assert(0xF0u8 | ((v >> 18) & 0x7) as u8 >= 0x80) by (bit_vector);
    assert(0x80u8 | (v & 0x3F) as u8 >= 0x80) by (bit_vector);
    assert(0x80u8 | ((v >> 6) & 0x3F) as u8 >= 0x80) by (bit_vector);
    assert(0x80u8 | ((v >> 12) & 0x3F) as u8 >= 0x80) by (bit_vector);
}

proof fn lemma_encoded_line(text: Seq<char>)
    requires
        !text.contains('\n'),
    ensures
        !encode_utf8(text).contains(10u8),
        encode_utf8(text.push('\n')) == encode_utf8(text).push(10u8),
    decreases text.len(),
{
    let line = text.push('\n');
    if text.len() == 0 {
        assert(line.drop_first() =~= Seq::<char>::empty());
        assert((10u32 & 0x7F) as u8 == 10) by (bit_vector);
        reveal_with_fuel(encode_utf8, 2);
        assert(encode_utf8(line) =~= encode_utf8(text).push(10u8));
    } else {
        let rest = text.drop_first();
        assert forall|i: int| 0 <= i < rest.len() implies rest[i] != '\n' by {
            assert(text.contains(text[i + 1]));
        }
        lemma_encoded_line(rest);
        assert(text.contains(text[0]));
        lemma_scalar_without_line_feed(text[0]);
        assert(line.drop_first() =~= rest.push('\n'));
        let first = encode_scalar(text[0] as u32);
        let all = encode_utf8(text);
        assert(all == first + encode_utf8(rest));
        assert forall|i: int| 0 <= i < all.len() implies all[i] != 10u8 by {
            if i < first.len() {
                assert(first.contains(first[i]));
            } else {
                assert(encode_utf8(rest).contains(encode_utf8(rest)[i - first.len()]));
            }
        }
        assert(encode_utf8(line) =~= all.push(10u8));
    }
}

proof fn lemma_pending(progress: LogProgress, bytes: Seq<u8>)
    requires
        !bytes.contains(10u8),
    ensures
        after_bytes(progress, bytes) == (LogProgress {
            pending: progress.pending + bytes,
            lines: progress.lines,
        }),
    decreases bytes.len(),
{
    if bytes.len() == 0 {
        assert(progress.pending + bytes =~= progress.pending);
    } else {
        assert forall|i: int| 0 <= i < bytes.len() - 1 implies bytes.drop_last()[i] != 10u8 by {
            assert(bytes.contains(bytes[i]));
        }
        lemma_pending(progress, bytes.drop_last());
        assert(bytes.contains(bytes.last()));
        assert((progress.pending + bytes.drop_last()).push(bytes.last()) =~= progress.pending
            + bytes);
    }
}

/// A line of text that is written, up to and with its line feed, is kept as it
/// was, without its trailing white space.
pub proof fn lemma_written_line_is_kept(lines: Seq<Seq<char>>, text: Seq<char>)
    requires
        !text.contains('\n'),
    ensures
        after_bytes(
            LogProgress { pending: Seq::empty(), lines },
            encode_utf8(text.push('\n')),
        ) == (LogProgress {
            pending: Seq::empty(),
            lines: after_push(lines, trim_end(text)),
        }),
{
    let start = LogProgress { pending: Seq::empty(), lines };
    let line = text.push('\n');
    let bytes = encode_utf8(line);
    lemma_encoded_line(text);
    assert(bytes.drop_last() =~= encode_utf8(text));
    lemma_pending(start, encode_utf8(text));
    assert(Seq::<u8>::empty() + encode_utf8(text) =~= encode_utf8(text));
    encode_utf8_valid_utf8(line);
    encode_utf8_decode_utf8(line);
    assert(line.drop_last() =~= text);
    assert(trim_end(line) == trim_end(text));
}

/// Of the lines the last four hundred are kept, in their order.
pub proof fn lemma_most_recent(lines: Seq<Seq<char>>)
    ensures
        lines.len() <= 400 ==> most_recent(lines) == lines,
        lines.len() > 400 ==> most_recent(lines).len() == 400,
        lines.len() > 400 ==> forall|i: int|
            0 <= i < 400 ==> #[trigger] most_recent(lines)[i] == lines[lines.len() - 400 + i],
{
    assert(lines.skip(0) =~= lines);
}

/// One more line stands last, and the others stay in their order; only when four hundred were
/// kept the oldest is gone.
pub proof fn lemma_one_more_line(lines: Seq<Seq<char>>, line: Seq<char>)
    ensures
        after_push(lines, line).last() == line,
        lines.len() < 400 ==> after_push(lines, line).len() == lines.len() + 1 && forall|i: int|
            0 <= i < lines.len() ==> #[trigger] after_push(lines, line)[i] == lines[i],
        lines.len() >= 400 ==> after_push(lines, line).len() == lines.len() && forall|i: int|
            0 <= i < lines.len() - 1 ==> #[trigger] after_push(lines, line)[i] == lines[i + 1],
{
}

/// A flush leaves nothing pending. What was pending becomes a line of its own, and nothing is
/// added when nothing was.
pub proof fn lemma_flush(progress: LogProgress)
    ensures
        after_flush(progress).pending.len() == 0,
        progress.pending.len() == 0 ==> after_flush(progress).lines == progress.lines,
        progress.pending.len() > 0 ==> after_flush(progress).lines.last() == line_text(
            progress.pending,
        ),
{
}

} // verus!
