//! The decoder of subtitle blocks: a machine that takes one line at a time,
//! and a reader that runs it over a sequence of lines.

use vstd::prelude::*;
use crate::block::{Block, BlockView};
use crate::error::ParseError;
use crate::text::{chars_of, numeral_value, parse_numeral, trim_cr, trim_end, trimmed};
use crate::time::{parse_time_line, time_line_value, StartEnd};

verus! {

/// What a line source hands over for one line: its text, without the
/// newline, or the report that it could not be read. Carriage returns at the
/// end of a line are passed over.
#[derive(Debug, Clone)]
pub enum SourceLine {
    /// A line of text.
    Text(String),
    /// The source failed on this line.
    Fault,
}

impl SourceLine {
    /// The characters of the line as the source gave them; none for a
    /// fault.
    pub open spec fn chars(self) -> Seq<char> {
        match self {
            SourceLine::Text(t) => t@,
            SourceLine::Fault => Seq::empty(),
        }
    }

    /// The text of the line: its characters without the carriage returns at
    /// their end.
    pub open spec fn text(self) -> Seq<char> {
        trimmed(self.chars())
    }

    /// Whether this is a line of text that is not empty.
    pub open spec fn has_text(self) -> bool {
        self is Text && self.text().len() > 0
    }
}

/// Whether `s` is an index line: a non-negative decimal numeral.
pub open spec fn is_index(s: Seq<char>) -> bool {
    numeral_value(s) is Some
}

/// Whether the line `s`, which may end in carriage returns, is an index
/// line.
pub fn is_idx(s: &str) -> (r: bool)
    ensures
        r == is_index(trimmed(s@)),
{
    let chars = trim_end(&chars_of(s));
    assert(chars@.subrange(0, chars@.len() as int) =~= chars@);
    parse_numeral(&chars, 0, chars.len()).is_some()
}

/// What a call of the decoder answers, with a block by its view: `None` at
/// the end of the sequence of blocks, else the block or the reason why the
/// lines are none.
pub type Outcome = Option<Result<BlockView, ParseError>>;

/// The view of what a call of the decoder returns.
pub open spec fn outcome_view(r: Option<Result<Block, ParseError>>) -> Outcome {
    match r {
        None => None,
        Some(Ok(b)) => Some(Ok(b@)),
        Some(Err(e)) => Some(Err(e)),
    }
}

/// Where a decoder stands within a block.
pub enum Stage {
    /// Before the index line.
    Index,
    /// After the index line, before the line of the range.
    Range,
    /// Within the content, with the range and the content read so far.
    Content { start_end: StartEnd, content: Seq<char> },
}

/// What a decoder makes of one line.
pub struct Fed {
    /// Where the decoder stands after the line.
    pub stage: Stage,
    /// How many lines the decoder counts as read for it: one.
    pub counted: nat,
    /// The answer, where the line brings one; `None` where the decoder needs
    /// another line.
    pub outcome: Option<Outcome>,
}

/// What a decoder at `stage` makes of `line`.
///
/// At the index line, an empty line ends the sequence of blocks and any
/// other line must be a numeral. The next line must denote a range. Every
/// line after it is content, up to an empty line, which closes the block. A
/// fault of the source fails the call with `InvalidContent`, wherever it
/// comes. Every line counts as read, a fault too. After an answer the
/// decoder is at an index line again.
pub open spec fn fed(stage: Stage, line: SourceLine) -> Fed {
    match stage {
        Stage::Index => if line is Fault {
            Fed {
                stage: Stage::Index,
                counted: 1,
                outcome: Some(Some(Err(ParseError::InvalidContent))),
            }
        } else if line.text().len() == 0 {
            Fed { stage: Stage::Index, counted: 1, outcome: Some(None) }
        } else if !is_index(line.text()) {
            Fed {
                stage: Stage::Index,
                counted: 1,
                outcome: Some(Some(Err(ParseError::InvalidIndex))),
            }
        } else {
            Fed { stage: Stage::Range, counted: 1, outcome: None }
        },
        Stage::Range => if line is Fault {
            Fed {
                stage: Stage::Index,
                counted: 1,
                outcome: Some(Some(Err(ParseError::InvalidContent))),
            }
        } else {
            match time_line_value(line.chars()) {
                None => Fed {
                    stage: Stage::Index,
                    counted: 1,
                    outcome: Some(Some(Err(ParseError::InvalidTimeLine))),
                },
                Some(start_end) => Fed {
                    stage: Stage::Content { start_end, content: Seq::empty() },
                    counted: 1,
                    outcome: None,
                },
            }
        },
        Stage::Content { start_end, content } => if line is Fault {
            Fed {
                stage: Stage::Index,
                counted: 1,
                outcome: Some(Some(Err(ParseError::InvalidContent))),
            }
        } else if line.text().len() == 0 {
            Fed {
                stage: Stage::Index,
                counted: 1,
                outcome: Some(Some(Ok(BlockView { start_end, content }))),
            }
        } else {
            Fed {
                stage: Stage::Content {
                    start_end,
                    content: content + line.text() + seq!['\n'],
                },
                counted: 1,
                outcome: None,
            }
        },
    }
}

/// What a decoder at `stage` answers when its source has no more lines: at
/// an index line the sequence of blocks ends, a block without the line of
/// its range is malformed, and a block within its content is complete.
pub open spec fn finished(stage: Stage) -> Outcome {
    match stage {
        Stage::Index => None,
        Stage::Range => Some(Err(ParseError::InvalidTimeString)),
        Stage::Content { start_end, content } => Some(Ok(BlockView { start_end, content })),
    }
}

/// What a `Decoder` holds: where it stands and how many lines it has read.
pub struct DecoderView {
    pub stage: Stage,
    pub line: nat,
}

/// What a decoder returns for one line.
#[derive(Debug)]
pub enum Step {
    /// The block goes on: the decoder needs the next line.
    More,
    /// The answer of this call: a block, an error or the end of the
    /// sequence of blocks.
    Done(Option<Result<Block, ParseError>>),
}

/// The view of a step: `None` where the decoder needs another line.
pub open spec fn step_view(s: Step) -> Option<Outcome> {
    match s {
        Step::More => None,
        Step::Done(r) => Some(outcome_view(r)),
    }
}

#[derive(Debug, Clone, Copy)]
enum Tag {
    Index,
    Range,
    Content,
}

/// A decoder of subtitle blocks that is handed its lines one by one. It
/// holds no more than the block that it is reading.
#[derive(Debug)]
pub struct Decoder {
    tag: Tag,
    start_end: StartEnd,
    content: String,
    line: u64,
}

impl View for Decoder {
    type V = DecoderView;

    closed spec fn view(&self) -> DecoderView {
        DecoderView {
            stage: match self.tag {
                Tag::Index => Stage::Index,
                Tag::Range => Stage::Range,
                Tag::Content => Stage::Content {
                    start_end: self.start_end,
                    content: self.content@,
                },
            },
            line: self.line as nat,
        }
    }
}

impl Decoder {
    /// Whether the range of the block that is being read is well-formed.
    /// Every decoder that this library hands out is.
    pub closed spec fn wf(self) -> bool {
        self.tag is Content ==> self.start_end.wf()
    }

    /// A decoder before its first line.
    pub fn new() -> (r: Decoder)
        ensures
            r.wf(),
            r@ == (DecoderView { stage: Stage::Index, line: 0 }),
    {
        Decoder { tag: Tag::Index, start_end: StartEnd::default(), content: String::new(), line: 0 }
    }

    /// The number of lines read so far.
    pub fn line(&self) -> (r: u64)
        ensures
            r == self@.line,
    {
        self.line
    }

    /// Takes the next line of the source.
    pub fn feed(&mut self, line: &SourceLine) -> (r: Step)
        requires
            old(self).wf(),
            old(self)@.line < u64::MAX,
        ensures
            final(self).wf(),
            final(self)@.stage == fed(old(self)@.stage, *line).stage,
            final(self)@.line == old(self)@.line + fed(old(self)@.stage, *line).counted,
            step_view(r) == fed(old(self)@.stage, *line).outcome,
            r matches Step::Done(Some(Ok(b))) ==> b.wf(),
    {
        self.line = self.line + 1;
        match self.tag {
            Tag::Index => match line {
                SourceLine::Fault => Step::Done(Some(Err(ParseError::InvalidContent))),
                SourceLine::Text(t) => {
                    if trim_cr(t.as_str()).is_empty() {
                        Step::Done(None)
                    } else if !is_idx(t.as_str()) {
                        Step::Done(Some(Err(ParseError::InvalidIndex)))
                    } else {
                        self.tag = Tag::Range;
                        Step::More
                    }
                },
            },
            Tag::Range => {
                self.tag = Tag::Index;
                match line {
                    SourceLine::Fault => Step::Done(Some(Err(ParseError::InvalidContent))),
                    SourceLine::Text(t) => {
                        match parse_time_line(t.as_str()) {
                            Err(e) => Step::Done(Some(Err(e))),
                            Ok(start_end) => {
                                self.tag = Tag::Content;
                                self.start_end = start_end;
                                self.content = String::new();
                                Step::More
                            },
                        }
                    },
                }
            },
            Tag::Content => {
                match line {
                    SourceLine::Fault => {
                        self.tag = Tag::Index;
                        Step::Done(Some(Err(ParseError::InvalidContent)))
                    },
                    SourceLine::Text(t) => {
                        let text = trim_cr(t.as_str());
                        if text.is_empty() {
                            Step::Done(self.finish())
                        } else {
                            proof {
                                reveal_strlit("\n");
                            }
                            self.content.append(text);
                            self.content.append("\n");
                            assert(self.content@ =~= old(self).content@ + text@ + seq!['\n']);
                            Step::More
                        }
                    },
                }
            },
        }
    }

    /// Tells the decoder that its source has no more lines.
    pub fn finish(&mut self) -> (r: Option<Result<Block, ParseError>>)
        requires
            old(self).wf(),
        ensures
            final(self).wf(),
            final(self)@.stage == Stage::Index,
            final(self)@.line == old(self)@.line,
            outcome_view(r) == finished(old(self)@.stage),
            r matches Some(Ok(b)) ==> b.wf(),
    {
        let tag = self.tag;
        self.tag = Tag::Index;
        match tag {
            Tag::Index => None,
            Tag::Range => Some(Err(ParseError::InvalidTimeString)),
            Tag::Content => {
                let mut content = String::new();
                core::mem::swap(&mut self.content, &mut content);
                Some(Ok(Block { start_end: self.start_end, content }))
            },
        }
    }
}

/// Where the content that starts at line `from` ends: the least index at or
/// after `from` whose line is empty or a fault, or the number of lines where
/// there is none.
pub open spec fn content_end(lines: Seq<SourceLine>, from: int) -> int
    decreases lines.len() - from,
{
    if from < 0 || from >= lines.len() {
        lines.len() as int
    } else if lines[from].has_text() {
        content_end(lines, from + 1)
    } else {
        from
    }
}

/// The lines from `from` up to `to`, each followed by a newline.
pub open spec fn joined(lines: Seq<SourceLine>, from: int, to: int) -> Seq<char>
    decreases to - from,
{
    if from >= to {
        Seq::empty()
    } else {
        joined(lines, from, to - 1) + lines[to - 1].text() + seq!['\n']
    }
}

/// What one call of the decoder comes to.
pub struct Decoded {
    /// The block or the error, or `None` at the end of the sequence.
    pub outcome: Outcome,
    /// How many items of the source the call used up.
    pub taken: nat,
    /// How many of them count as lines read.
    pub counted: nat,
}

/// What decoding comes to when it starts at line `at` of `lines`.
///
/// The index line: at the end of the source or on an empty line the
/// sequence of blocks ends; any other line must be a numeral. The line of the
/// range: it must be there and denote a range. The content: every line up to
/// the next empty line or the end of the source. A fault of the source, in
/// whichever of the three places, fails the call with `InvalidContent`.
/// Every item that a call uses up counts as a line read.
pub open spec fn decode(lines: Seq<SourceLine>, at: int) -> Decoded {
    if at < 0 || at >= lines.len() {
        Decoded { outcome: None, taken: 0, counted: 0 }
    } else if lines[at] is Fault {
        Decoded { outcome: Some(Err(ParseError::InvalidContent)), taken: 1, counted: 1 }
    } else if lines[at].text().len() == 0 {
        Decoded { outcome: None, taken: 1, counted: 1 }
    } else if !is_index(lines[at].text()) {
        Decoded { outcome: Some(Err(ParseError::InvalidIndex)), taken: 1, counted: 1 }
    } else if at + 1 >= lines.len() {
        Decoded { outcome: Some(Err(ParseError::InvalidTimeString)), taken: 1, counted: 1 }
    } else if lines[at + 1] is Fault {
        Decoded { outcome: Some(Err(ParseError::InvalidContent)), taken: 2, counted: 2 }
    } else {
        match time_line_value(lines[at + 1].chars()) {
            None => Decoded {
                outcome: Some(Err(ParseError::InvalidTimeLine)),
                taken: 2,
                counted: 2,
            },
            Some(start_end) => {
                let end = content_end(lines, at + 2);
                let content = joined(lines, at + 2, end);
                if end >= lines.len() {
                    Decoded {
                        outcome: Some(Ok(BlockView { start_end, content })),
                        taken: (end - at) as nat,
                        counted: (end - at) as nat,
                    }
                } else if lines[end] is Fault {
                    Decoded {
                        outcome: Some(Err(ParseError::InvalidContent)),
                        taken: (end + 1 - at) as nat,
                        counted: (end + 1 - at) as nat,
                    }
                } else {
                    Decoded {
                        outcome: Some(Ok(BlockView { start_end, content })),
                        taken: (end + 1 - at) as nat,
                        counted: (end + 1 - at) as nat,
                    }
                }
            },
        }
    }
}

/// `content_end` answers at or after `from` and within the lines.
pub proof fn lemma_content_end_range(lines: Seq<SourceLine>, from: int)
    requires
        0 <= from <= lines.len(),
    ensures
        from <= content_end(lines, from) <= lines.len(),
    decreases lines.len() - from,
{
    if from < lines.len() && lines[from].has_text() {
        lemma_content_end_range(lines, from + 1);
    }
}

/// A call of the decoder never uses up more than the source still holds,
/// and counts every item that it used up as a line read.
pub proof fn lemma_decode_bounds(lines: Seq<SourceLine>, at: int)
    requires
        0 <= at <= lines.len(),
    ensures
        at + decode(lines, at).taken <= lines.len(),
        decode(lines, at).counted == decode(lines, at).taken,
{
    if at + 2 <= lines.len() {
        lemma_content_end_range(lines, at + 2);
    }
}

/// The sequence of blocks ends only at the end of the source or on an empty
/// line, and a fault of the source is reported wherever the decoder meets
/// it: at the index line, at the line of the range, or within the content.
pub proof fn lemma_decode_end_and_faults(lines: Seq<SourceLine>, at: int)
    requires
        0 <= at <= lines.len(),
    ensures
        decode(lines, at).outcome is None <==> at == lines.len() || (lines[at] is Text
            && lines[at].text().len() == 0),
        at + decode(lines, at).taken <= lines.len(),
        decode(lines, at).taken > 0 && lines[at + decode(lines, at).taken - 1] is Fault
            ==> decode(lines, at).outcome == Some::<Result<BlockView, ParseError>>(
            Err(ParseError::InvalidContent),
        ),
{
    lemma_decode_bounds(lines, at);
    if at + 2 <= lines.len() {
        lemma_content_end_range(lines, at + 2);
        lemma_content_end_stops(lines, at + 2);
        let end = content_end(lines, at + 2);
        if at + 2 < end {
            lemma_content_before_end(lines, at + 2, end - 1);
        }
    }
}

/// Every line of the content has text.
pub proof fn lemma_content_before_end(lines: Seq<SourceLine>, from: int, i: int)
    requires
        0 <= from <= i < content_end(lines, from),
    ensures
        i < lines.len(),
        lines[i].has_text(),
    decreases i - from,
{
    lemma_content_end_range(lines, from);
    if from < i {
        lemma_content_before_end(lines, from + 1, i);
    }
}

/// The content ends on a line without text, or at the end of the lines.
pub proof fn lemma_content_end_stops(lines: Seq<SourceLine>, from: int)
    requires
        0 <= from <= lines.len(),
    ensures
        content_end(lines, from) == lines.len() || !lines[content_end(lines, from)].has_text(),
    decreases lines.len() - from,
{
    if from < lines.len() && lines[from].has_text() {
        lemma_content_end_stops(lines, from + 1);
    }
}

/// `content_end` is pinned down by the first line that is empty or a
/// fault: every line before `end` has text, and the line at `end` has none
/// or is the end of the lines.
pub proof fn lemma_content_end(lines: Seq<SourceLine>, from: int, end: int)
    requires
        0 <= from <= end <= lines.len(),
        forall|i: int| from <= i < end ==> lines[i].has_text(),
        end == lines.len() || !lines[end].has_text(),
    ensures
        content_end(lines, from) == end,
    decreases end - from,
{
    if from < end {
        lemma_content_end(lines, from + 1, end);
    }
}

/// A block in its written form is decoded as that block: an index line, the
/// text form of a well-formed range, lines of content, and then an empty
/// line or the end of the lines.
pub proof fn lemma_decode_written(lines: Seq<SourceLine>, at: int, end: int, range: StartEnd)
    requires
        range.wf(),
        0 <= at,
        at + 2 <= end <= lines.len(),
        lines[at].has_text(),
        is_index(lines[at].text()),
        lines[at + 1] is Text,
        lines[at + 1].chars() == range.text(),
        forall|i: int| at + 2 <= i < end ==> lines[i].has_text(),
        end < lines.len() ==> lines[end] is Text && lines[end].text().len() == 0,
    ensures
        decode(lines, at).outcome == Some::<Result<BlockView, ParseError>>(
            Ok(BlockView { start_end: range, content: joined(lines, at + 2, end) }),
        ),
        decode(lines, at).taken == if end < lines.len() {
            end + 1 - at
        } else {
            end - at
        },
        decode(lines, at).counted == decode(lines, at).taken,
{
    range.lemma_time_line_text();
    lemma_content_end(lines, at + 2, end);
}

/// A decoder of subtitle blocks over a sequence of lines: it goes through
/// them once, from the first to the last, and counts the lines that it reads.
#[derive(Debug)]
pub struct BlockReader {
    lines: Vec<SourceLine>,
    pos: usize,
    decoder: Decoder,
}

impl BlockReader {
    /// Whether the reader is between two blocks, the cursor within the
    /// source and the count within the cursor. Every reader that this library
    /// hands out is.
    pub closed spec fn wf(self) -> bool {
        &&& self.decoder.wf()
        &&& self.decoder@.stage == Stage::Index
        &&& self.decoder@.line <= self.pos <= self.lines.len()
    }

    /// The lines that the reader was made with.
    pub closed spec fn source(self) -> Seq<SourceLine> {
        self.lines@
    }

    /// How many items of the source the reader has used up.
    pub closed spec fn position(self) -> nat {
        self.pos as nat
    }

    /// How many lines the reader has read.
    pub closed spec fn line_count(self) -> nat {
        self.decoder@.line
    }

    /// A reader at the start of `lines`.
    pub fn new(lines: Vec<SourceLine>) -> (r: BlockReader)
        ensures
            r.wf(),
            r.source() == lines@,
            r.position() == 0,
            r.line_count() == 0,
    {
        BlockReader { lines, pos: 0, decoder: Decoder::new() }
    }

    /// The number of lines read so far.
    pub fn line(&self) -> (r: u64)
        ensures
            r == self.line_count(),
    {
        self.decoder.line()
    }

    /// The number of the line that was read last, counted from one; zero
    /// before the first line.
    pub fn line_nr(&self) -> (r: u64)
        ensures
            r == self.line_count(),
    {
        self.decoder.line()
    }

    /// Decodes the next block. `None` says that the sequence of blocks has
    /// ended; an error says why the lines at the cursor are no block.
    #[verifier::loop_isolation(false)]
    pub fn next(&mut self) -> (r: Option<Result<Block, ParseError>>)
        requires
            old(self).wf(),
        ensures
            final(self).wf(),
            final(self).source() == old(self).source(),
            outcome_view(r) == decode(old(self).source(), old(self).position() as int).outcome,
            final(self).position() == old(self).position() + decode(
                old(self).source(),
                old(self).position() as int,
            ).taken,
            final(self).line_count() == old(self).line_count() + decode(
                old(self).source(),
                old(self).position() as int,
            ).counted,
            r matches Some(Ok(b)) ==> b.wf(),
    {
        let ghost lines = self.lines@;
        let ghost at = self.pos as int;
        let ghost line = self.decoder@.line;
        loop
            invariant
                self.lines@ == lines,
                self.decoder.wf(),
                at <= self.pos <= lines.len(),
                self.decoder@.line <= self.pos,
                match self.decoder@.stage {
                    Stage::Index => self.pos == at && self.decoder@.line == line,
                    Stage::Range => {
                        &&& self.pos == at + 1
                        &&& self.decoder@.line == line + 1
                        &&& lines[at].has_text()
                        &&& is_index(lines[at].text())
                    },
                    Stage::Content { start_end, content } => {
                        &&& at + 2 <= self.pos
                        &&& self.decoder@.line == line + (self.pos - at)
                        &&& lines[at].has_text()
                        &&& is_index(lines[at].text())
                        &&& !(lines[at + 1] is Fault)
                        &&& time_line_value(lines[at + 1].chars()) == Some(start_end)
                        &&& content_end(lines, at + 2) == content_end(lines, self.pos as int)
                        &&& content == joined(lines, at + 2, self.pos as int)
                    },
                },
            decreases lines.len() - self.pos,
        {
            if self.pos >= self.lines.len() {
                return self.decoder.finish();
            }
            let step = self.decoder.feed(&self.lines[self.pos]);
            self.pos = self.pos + 1;
            match step {
                Step::More => {},
                Step::Done(r) => {
                    return r;
                },
            }
        }
    }
}

} // verus!
