//! Cuts git's stderr, which arrives in chunks of bytes, into lines for the progress parser.

use crate::progress::ProgressReporter;
use crate::text::{is_blank, only_blank_texts_trim_to_nothing, push_char, trim, trimmed};
use crate::transport::git_progress::{
    closing, events_over, next_events, next_state, state_over, Event, GitProgressParser, State,
};
use vstd::prelude::*;
use vstd::utf8::{decode_utf8, valid_utf8};

verus! {

/// The text that the standard library decodes bytes to, with the replacement character for what
/// is no UTF-8.
pub uninterp spec fn lossy(bytes: Seq<u8>) -> Seq<char>;

/// `String::from_utf8_lossy` of the standard library: decodes valid UTF-8 to the text it encodes,
/// and everything else to a text that depends on the bytes alone.
#[verifier::external_body]
pub(crate) fn lossy_text(bytes: &[u8]) -> (r: String)
    ensures
        r@ == lossy(bytes@),
        valid_utf8(bytes@) ==> r@ == decode_utf8(bytes@),
{
    String::from_utf8_lossy(bytes).into_owned()
}

/// Whether `b` ends a line.
pub open spec fn is_break(b: u8) -> bool {
    b == 13 || b == 10
}

/// The lines of `bytes` that are complete, without their terminators.
pub open spec fn complete_lines(bytes: Seq<u8>) -> Seq<Seq<u8>>
    decreases bytes.len(),
{
    if bytes.len() == 0 {
        Seq::empty()
    } else if is_break(bytes.last()) {
        complete_lines(bytes.drop_last()).push(unfinished(bytes.drop_last()))
    } else {
        complete_lines(bytes.drop_last())
    }
}

/// What stands behind the last terminator of `bytes`.
pub open spec fn unfinished(bytes: Seq<u8>) -> Seq<u8>
    decreases bytes.len(),
{
    if bytes.len() == 0 || is_break(bytes.last()) {
        Seq::empty()
    } else {
        unfinished(bytes.drop_last()).push(bytes.last())
    }
}

/// The complete lines as one text, each ended by a newline.
pub open spec fn transcript(lines: Seq<Seq<u8>>) -> Seq<char>
    decreases lines.len(),
{
    if lines.len() == 0 {
        Seq::empty()
    } else {
        (transcript(lines.drop_last()) + lossy(lines.last())).push('\n')
    }
}

/// What the parser is fed of the complete lines: their texts, trimmed, without the blank ones.
pub open spec fn fed(lines: Seq<Seq<u8>>) -> Seq<Seq<char>>
    decreases lines.len(),
{
    if lines.len() == 0 {
        Seq::empty()
    } else {
        feed(fed(lines.drop_last()), lines.last())
    }
}

/// `texts` and, unless it is blank, one more line.
pub open spec fn feed(texts: Seq<Seq<char>>, line: Seq<u8>) -> Seq<Seq<char>> {
    if trimmed(lossy(line)).len() == 0 {
        texts
    } else {
        texts.push(trimmed(lossy(line)))
    }
}

/// What the parser is fed of a whole stream, the line without a terminator included.
pub open spec fn fed_of(bytes: Seq<u8>) -> Seq<Seq<char>> {
    if unfinished(bytes).len() == 0 {
        fed(complete_lines(bytes))
    } else {
        feed(fed(complete_lines(bytes)), unfinished(bytes))
    }
}

/// The raw text of a whole stream.
pub open spec fn raw_of(bytes: Seq<u8>) -> Seq<char> {
    if unfinished(bytes).len() == 0 {
        transcript(complete_lines(bytes))
    } else {
        transcript(complete_lines(bytes)) + lossy(unfinished(bytes))
    }
}

/// Takes in git's stderr as it arrives.
pub struct StderrReader<'a> {
    parser: GitProgressParser<'a>,
    buf: Vec<u8>,
    raw: String,
    seen: Ghost<Seq<u8>>,
}

impl<'a> StderrReader<'a> {
    /// All bytes taken in so far.
    pub closed spec fn seen(&self) -> Seq<u8> {
        self.seen@
    }

    /// The calls made on the reporter so far, in order.
    pub closed spec fn sent(&self) -> Seq<Event> {
        self.parser.sent()
    }

    /// What is kept at hand is determined by the bytes seen, however they were cut into chunks.
    pub closed spec fn wf(&self) -> bool {
        let lines = complete_lines(self.seen@);
        &&& self.buf@ == unfinished(self.seen@)
        &&& self.raw@ == transcript(lines)
        &&& self.parser.state() == state_over(State::Idle, fed(lines))
        &&& self.parser.sent() == events_over(State::Idle, fed(lines))
    }

    /// A reader at the start of a stream.
    pub fn new(reporter: &'a dyn ProgressReporter) -> (r: Self)
        ensures
            r.wf(),
            r.seen() == Seq::<u8>::empty(),
    {
        StderrReader {
            parser: GitProgressParser::new(reporter),
            buf: Vec::new(),
            raw: String::new(),
            seen: Ghost(Seq::empty()),
        }
    }

    /// Hands a line to the parser.
    fn pass_on(&mut self, line: &String)
        ensures
            final(self).buf == old(self).buf,
            final(self).raw == old(self).raw,
            final(self).seen == old(self).seen,
            trimmed(line@).len() == 0 ==> final(self).parser == old(self).parser,
            trimmed(line@).len() > 0 ==> {
                &&& final(self).parser.state() == next_state(
                    old(self).parser.state(),
                    trimmed(line@),
                )
                &&& final(self).parser.sent() == old(self).parser.sent() + next_events(
                    old(self).parser.state(),
                    trimmed(line@),
                )
            },
    {
        let text = trim(line.as_str());
        if text.unicode_len() > 0 {
            self.parser.feed_line(text.as_str());
        }
    }

    /// Takes in the next chunk.
    pub fn take(&mut self, chunk: &[u8])
        requires
            old(self).wf(),
        ensures
            final(self).wf(),
            final(self).seen() == old(self).seen() + chunk@,
    {
        let mut i: usize = 0;
        assert(old(self).seen@ + chunk@.subrange(0, 0) =~= old(self).seen@);
        while i < chunk.len()
            invariant
                i <= chunk@.len(),
                self.wf(),
                self.seen@ == old(self).seen@ + chunk@.subrange(0, i as int),
            decreases chunk@.len() - i,
        {
            let b: u8 = chunk[i];
            let ghost was = self.seen@;
            let ghost now = was.push(b);
            assert(now.drop_last() =~= was);
            assert(old(self).seen@ + chunk@.subrange(0, i + 1) =~= now);
            if b == 13 || b == 10 {
                let line = lossy_text(self.buf.as_slice());
                self.raw.append(line.as_str());
                push_char(&mut self.raw, '\n');
                self.pass_on(&line);
                self.buf.clear();
                proof {
                    self.seen@ = now;
                    let lines = complete_lines(now);
                    assert(lines.drop_last() =~= complete_lines(was));
                    let f = fed(complete_lines(was));
                    let t = trimmed(line@);
                    assert(f.push(t).drop_last() =~= f);
                }
            } else {
                self.buf.push(b);
                proof {
                    self.seen@ = now;
                }
            }
            i = i + 1;
        }
        assert(chunk@.subrange(0, chunk@.len() as int) =~= chunk@);
    }

    /// Ends the stream: returns its raw text, and leaves no phase open on the reporter.
    pub fn close(&mut self) -> (r: String)
        requires
            old(self).wf(),
        ensures
            r@ == raw_of(old(self).seen()),
            final(self).sent() == events_over(State::Idle, fed_of(old(self).seen())) + closing(
                state_over(State::Idle, fed_of(old(self).seen())),
            ),
    {
        if self.buf.len() > 0 {
            let line = lossy_text(self.buf.as_slice());
            self.raw.append(line.as_str());
            self.pass_on(&line);
            proof {
                let f = fed(complete_lines(self.seen@));
                let t = trimmed(line@);
                assert(f.push(t).drop_last() =~= f);
            }
        }
        self.parser.finish();
        self.raw.clone()
    }
}

// ---------------------------------------------------------------------------
// Laws
// ---------------------------------------------------------------------------

/// How a stream is cut into chunks makes no difference to what is read out of it.
pub proof fn chunks_make_no_difference<'a>(
    a: StderrReader<'a>,
    b: StderrReader<'a>,
)
    requires
        a.wf(),
        b.wf(),
        a.seen() == b.seen(),
    ensures
        a.sent() == b.sent(),
{
}

/// Nothing of the stream is lost: the complete lines with their terminators, and what is
/// unfinished, account for every byte.
pub proof fn no_byte_is_lost(bytes: Seq<u8>)
    ensures
        total_len(complete_lines(bytes)) + unfinished(bytes).len() == bytes.len(),
    decreases bytes.len(),
{
    if bytes.len() > 0 {
        no_byte_is_lost(bytes.drop_last());
        if is_break(bytes.last()) {
            assert(complete_lines(bytes).drop_last() =~= complete_lines(bytes.drop_last()));
        }
    }
}

/// The length of the lines, each with one terminator.
pub open spec fn total_len(lines: Seq<Seq<u8>>) -> nat
    decreases lines.len(),
{
    if lines.len() == 0 {
        0
    } else {
        total_len(lines.drop_last()) + lines.last().len() + 1
    }
}

/// A line ends at a carriage return or a line feed, and at nothing else: a stretch of other bytes
/// behind a complete line is unfinished until one of them follows, and is the next line then.
pub proof fn lines_are_cut_at_their_ends(front: Seq<u8>, line: Seq<u8>, end: u8)
    requires
        unfinished(front).len() == 0,
        forall|i: int| 0 <= i < line.len() ==> #[trigger] line[i] != 13 && line[i] != 10,
        end == 13 || end == 10,
    ensures
        complete_lines(front + line) == complete_lines(front),
        unfinished(front + line) == line,
        complete_lines((front + line).push(end)) == complete_lines(front).push(line),
        unfinished((front + line).push(end)).len() == 0,
    decreases line.len(),
{
    if line.len() == 0 {
        assert(front + line =~= front);
        assert(unfinished(front) =~= line);
    } else {
        let rest = line.drop_last();
        assert forall|i: int| 0 <= i < rest.len() implies #[trigger] rest[i] != 13 && rest[i]
            != 10 by {
            assert(rest[i] == line[i]);
        }
        lines_are_cut_at_their_ends(front, rest, end);
        assert((front + line).drop_last() =~= front + rest);
        assert((front + line).last() == line.last());
        assert(line[line.len() - 1] != 13 && line[line.len() - 1] != 10);
        assert(rest.push(line.last()) =~= line);
    }
    let all = (front + line).push(end);
    assert(all.drop_last() =~= front + line);
    assert(all.last() == end);
    assert(unfinished(front + line) =~= line);
    assert(complete_lines(all) == complete_lines(front + line).push(unfinished(front + line)));
}

/// Of every line that is not blank the parser gets the text, without white space around it; of a
/// blank one it gets nothing. The raw text has every line, as it is, with a line feed behind it.
pub proof fn lines_are_passed_on_trimmed(lines: Seq<Seq<u8>>, line: Seq<u8>)
    ensures
        is_blank(lossy(line)) ==> fed(lines.push(line)) == fed(lines),
        !is_blank(lossy(line)) ==> fed(lines.push(line)) == fed(lines).push(trimmed(lossy(line))),
        transcript(lines.push(line)) == transcript(lines) + lossy(line) + seq!['\n'],
        fed(Seq::empty()) == Seq::<Seq<char>>::empty(),
        transcript(Seq::empty()) == Seq::<char>::empty(),
{
    only_blank_texts_trim_to_nothing(lossy(line));
    assert(lines.push(line).drop_last() =~= lines);
    assert(transcript(lines.push(line)) =~= transcript(lines) + lossy(line) + seq!['\n']);
}

/// At the end of a stream, what has no line end yet counts as a line, but gets no line feed in the
/// raw text.
pub proof fn the_last_line_needs_no_end(front: Seq<u8>, line: Seq<u8>)
    requires
        unfinished(front).len() == 0,
        line.len() > 0,
        forall|i: int| 0 <= i < line.len() ==> #[trigger] line[i] != 13 && line[i] != 10,
    ensures
        fed_of(front + line) == fed(complete_lines(front).push(line)),
        raw_of(front + line) == raw_of(front) + lossy(line),
        raw_of(front) == transcript(complete_lines(front)),
        fed_of(front) == fed(complete_lines(front)),
{
    lines_are_cut_at_their_ends(front, line, 10);
    lines_are_passed_on_trimmed(complete_lines(front), line);
    only_blank_texts_trim_to_nothing(lossy(line));
}

} // verus!
