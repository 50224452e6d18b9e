//! The line-by-line reader of records.
//!
//! A file is read one line at a time by a machine with three states.  It
//! expects a count line, then a comment line, then as many atom lines as the
//! count said, and then a count line again.

use crate::atom::parse_atom;
use crate::data::{Atom, File, FileView, Record, RecordView};
use crate::error::{line_number, ParseError, ParseErrorKind};
use crate::laws::{
    lemma_parse_lines_well_formed, lemma_parse_text_readable, lemma_step_well_formed,
};
use crate::lines::{all_lines, is_line, lemma_lines_of_rest, line_end, lines_of};
use crate::number::{parse_count, read_count};
use crate::text::{from_chars, texts, to_chars};
use crate::tokens::{is_blank, next_token, tokens};
use vstd::prelude::*;
use vstd::slice::slice_subrange;

verus! {

/// What the reader expects of the next line.
#[derive(Debug, Clone, Copy, PartialEq, Eq)]
pub enum ParseState {
    /// A count line, or a blank line before it.
    Count,
    /// The comment line of the record whose count was just read.
    Comment,
    /// An atom line, of which this many are still to come.
    Atoms(usize),
}

/// What a [`Parser`] holds: its state, the records it has completed, and the
/// record it is reading.
pub struct ParserView {
    pub state: ParseState,
    pub file: FileView,
    pub record: RecordView,
}

/// The count that a count line states: its only token, read as an unsigned
/// decimal integer.  `None` if the line holds no token or several, or if
/// the token is not such an integer or does not fit in `usize`.
pub open spec fn parse_count_line(line: Seq<char>) -> Option<usize> {
    let t = tokens(line);
    if t.len() == 1 {
        parse_count(t[0])
    } else {
        None
    }
}

impl ParserView {
    /// The reader before its first line: it expects a count line and has
    /// completed no record.
    pub open spec fn start() -> ParserView {
        ParserView {
            state: ParseState::Count,
            file: FileView { records: Seq::empty() },
            record: RecordView::empty(),
        }
    }

    /// The reader after `record` is complete: the record is the last of the
    /// file, and a count line is expected.
    pub open spec fn complete(self, record: RecordView) -> ParserView {
        ParserView {
            state: ParseState::Count,
            file: FileView { records: self.file.records.push(record) },
            record: RecordView::empty(),
        }
    }

    /// The reader after one more line, or the reason why the line is refused.
    ///
    /// - Expecting a count: a blank line changes nothing.  Any other line
    ///   must state a count, which begins a new record; if it does not, it is
    ///   refused with `ParseIntError`.
    /// - Expecting a comment: the line, as it is, becomes the comment.  A
    ///   record of no atoms is then complete.
    /// - Expecting atoms: the line must hold an atom, which is added to the
    ///   record; if it was the last one, the record is complete.
    pub open spec fn step(self, line: Seq<char>) -> Result<ParserView, ParseErrorKind> {
        match self.state {
            ParseState::Count => {
                if is_blank(line) {
                    Ok(self)
                } else {
                    match parse_count_line(line) {
                        Some(count) => Ok(
                            ParserView {
                                state: ParseState::Comment,
                                file: self.file,
                                record: RecordView {
                                    count: count as nat,
                                    comment: Seq::empty(),
                                    atoms: Seq::empty(),
                                },
                            },
                        ),
                        None => Err(ParseErrorKind::ParseIntError),
                    }
                }
            },
            ParseState::Comment => {
                let record = RecordView { comment: line, ..self.record };
                if record.count == 0 {
                    Ok(self.complete(record))
                } else {
                    Ok(
                        ParserView {
                            state: ParseState::Atoms(record.count as usize),
                            file: self.file,
                            record,
                        },
                    )
                }
            },
            ParseState::Atoms(remaining) => {
                match parse_atom(line) {
                    Ok(atom) => {
                        let record = RecordView {
                            atoms: self.record.atoms.push(atom),
                            ..self.record
                        };
                        if remaining <= 1 {
                            Ok(self.complete(record))
                        } else {
                            Ok(
                                ParserView {
                                    state: ParseState::Atoms((remaining - 1) as usize),
                                    file: self.file,
                                    record,
                                },
                            )
                        }
                    },
                    Err(kind) => Err(kind),
                }
            },
        }
    }

    /// The reader after the given lines, of which the first has the number
    /// `first`; or the first refusal, with the number of its line.
    pub open spec fn run(self, lines: Seq<Seq<char>>, first: nat) -> Result<
        ParserView,
        ParseError,
    >
        decreases lines.len(),
    {
        if lines.len() == 0 {
            Ok(self)
        } else {
            match self.step(lines[0]) {
                Ok(next) => next.run(lines.drop_first(), first + 1),
                Err(kind) => Err(ParseError { kind, line: line_number(first) }),
            }
        }
    }

    /// What the reader has read when the input ends: the completed records,
    /// unless it stands inside a record.
    pub open spec fn finish(self) -> Result<FileView, ParseErrorKind> {
        match self.state {
            ParseState::Count => Ok(self.file),
            _ => Err(ParseErrorKind::UnexpectedEndOfInput),
        }
    }
}

impl ParserView {
    /// The reader holds only well-formed records and atoms, and the record it
    /// is reading still lacks exactly as many atoms as its state says.
    pub open spec fn well_formed(self) -> bool {
        &&& self.file.well_formed()
        &&& self.record.count <= usize::MAX
        &&& forall|i: int|
            0 <= i < self.record.atoms.len() ==> (#[trigger] self.record.atoms[i]).well_formed()
        &&& match self.state {
            ParseState::Count => true,
            ParseState::Comment => self.record.atoms.len() == 0,
            ParseState::Atoms(remaining) => {
                &&& remaining >= 1
                &&& self.record.atoms.len() + remaining == self.record.count
            },
        }
    }

    /// The reader is well formed, and every comment it holds fits on one
    /// line.
    pub open spec fn readable(self) -> bool {
        &&& self.well_formed()
        &&& self.file.readable()
        &&& is_line(self.record.comment)
    }
}

/// The file that the given lines hold, or the first error.  The first line
/// has the number `first`.  An input that ends inside a record fails with
/// `UnexpectedEndOfInput` at the number after that of the last line.
pub open spec fn parse_lines(lines: Seq<Seq<char>>, first: nat) -> Result<FileView, ParseError> {
    match ParserView::start().run(lines, first) {
        Ok(end) => match end.finish() {
            Ok(file) => Ok(file),
            Err(kind) => Err(ParseError { kind, line: line_number(first + lines.len()) }),
        },
        Err(error) => Err(error),
    }
}

/// The file that a text holds, or the first error.  Lines are counted from
/// zero.
pub open spec fn parse_text(text: Seq<char>) -> Result<FileView, ParseError> {
    parse_lines(lines_of(text), 0)
}

/// A reader of records that is fed one line at a time.
#[derive(Debug)]
pub struct Parser {
    state: ParseState,
    file: File,
    record: Record,
}

impl View for Parser {
    type V = ParserView;

    closed spec fn view(&self) -> ParserView {
        ParserView { state: self.state, file: self.file@, record: self.record@ }
    }
}

/// The number of the line that stands `offset` lines after line `first`.
fn line_after(first: usize, offset: usize) -> (line: usize)
    ensures
        line == line_number((first + offset) as nat),
{
    if offset <= usize::MAX - first {
        first + offset
    } else {
        usize::MAX
    }
}

/// Reads a count line.
fn read_count_line(line: &[char]) -> (r: Option<Option<usize>>)
    ensures
        r is None <==> is_blank(line@),
        r matches Some(count) ==> count == parse_count_line(line@),
{
    assert(line@.skip(0) =~= line@);
    match next_token(line, 0) {
        None => None,
        Some((start, end)) => {
            match next_token(line, end) {
                None => Some(read_count(slice_subrange(line, start, end))),
                Some(_) => Some(None),
            }
        },
    }
}

impl Parser {
    /// A reader that has read nothing yet.
    pub fn new() -> (p: Parser)
        ensures
            p@ == ParserView::start(),
            p@.well_formed(),
    {
        Parser { state: ParseState::Count, file: File::new(), record: Record::empty() }
    }

    /// What the reader expects of the next line.
    pub fn state(&self) -> (s: ParseState)
        ensures
            s == self@.state,
    {
        self.state
    }

    /// The records completed so far.
    pub fn file(&self) -> (f: &File)
        ensures
            f@ == self@.file,
    {
        &self.file
    }

    /// Feeds one line to the reader.  A line that is refused leaves the
    /// reader as it was.
    pub fn feed(&mut self, line: &str) -> (r: Result<(), ParseErrorKind>)
        ensures
            match old(self)@.step(line@) {
                Ok(next) => r is Ok && final(self)@ == next,
                Err(kind) => r == Err::<(), ParseErrorKind>(kind) && final(self)@ == old(self)@,
            },
            old(self)@.well_formed() ==> final(self)@.well_formed(),
    {
        let chars = to_chars(line);
        self.feed_chars(chars.as_slice())
    }

    /// Feeds the characters of one line to the reader.  A line that is
    /// refused leaves the reader as it was.
    pub fn feed_chars(&mut self, line: &[char]) -> (r: Result<(), ParseErrorKind>)
        ensures
            match old(self)@.step(line@) {
                Ok(next) => r is Ok && final(self)@ == next,
                Err(kind) => r == Err::<(), ParseErrorKind>(kind) && final(self)@ == old(self)@,
            },
            old(self)@.well_formed() ==> final(self)@.well_formed(),
    {
        proof {
            if old(self)@.well_formed() {
                lemma_step_well_formed(old(self)@, line@);
            }
        }
        match self.state {
            ParseState::Count => {
                match read_count_line(line) {
                    None => {},
                    Some(None) => {
                        return Err(ParseErrorKind::ParseIntError);
                    },
                    Some(Some(count)) => {
                        self.record = Record::empty();
                        self.record.count = count;
                        self.state = ParseState::Comment;
                    },
                }
            },
            ParseState::Comment => {
                self.record.comment = from_chars(line);
                if self.record.count == 0 {
                    self.complete();
                } else {
                    self.state = ParseState::Atoms(self.record.count);
                }
            },
            ParseState::Atoms(remaining) => {
                let atom = match Atom::from_chars(line) {
                    Ok(atom) => atom,
                    Err(kind) => {
                        return Err(kind);
                    },
                };
                self.record.atoms.push(atom);
                assert(self@.record.atoms =~= old(self)@.record.atoms.push(atom@));
                if remaining <= 1 {
                    self.complete();
                } else {
                    self.state = ParseState::Atoms(remaining - 1);
                }
            },
        }
        Ok(())
    }

    /// Moves the record that was read to the end of the file and expects a
    /// count line again.
    fn complete(&mut self)
        ensures
            final(self)@ == old(self)@.complete(old(self)@.record),
    {
        let mut record = Record::empty();
        core::mem::swap(&mut self.record, &mut record);
        self.file.push(record);
        self.state = ParseState::Count;
    }

    /// Ends the input.  Gives the file that was read, unless the input ends
    /// inside a record.
    pub fn finish(self) -> (r: Result<File, ParseErrorKind>)
        ensures
            match self@.finish() {
                Ok(file) => r is Ok && r->Ok_0@ == file,
                Err(kind) => r is Err && r->Err_0 == kind,
            },
            self@.well_formed() ==> (r matches Ok(file) ==> file@.well_formed()),
    {
        match self.state {
            ParseState::Count => Ok(self.file),
            _ => Err(ParseErrorKind::UnexpectedEndOfInput),
        }
    }
}

impl File {
    /// Reads a file from its lines, of which the first has the number
    /// `first_line`.
    pub fn from_lines(lines: &[String], first_line: usize) -> (r: Result<File, ParseError>)
        ensures
            match parse_lines(texts(lines@), first_line as nat) {
                Ok(file) => r is Ok && r->Ok_0@ == file,
                Err(error) => r is Err && r->Err_0 == error,
            },
            r matches Ok(file) ==> file@.well_formed(),
            r matches Ok(file) ==> (all_lines(texts(lines@)) ==> file@.readable()),
    {
        proof {
            lemma_parse_lines_well_formed(texts(lines@), first_line as nat);
        }
        let ghost all = texts(lines@);
        let mut parser = Parser::new();
        let mut i: usize = 0;
        assert(all.skip(0) =~= all);
        while i < lines.len()
            invariant
                i <= lines.len(),
                all == texts(lines@),
                ParserView::start().run(all, first_line as nat) == parser@.run(
                    all.skip(i as int),
                    (first_line + i) as nat,
                ),
            decreases lines.len() - i,
        {
            assert(all.skip(i as int).drop_first() =~= all.skip(i + 1));
            match parser.feed(lines[i].as_str()) {
                Ok(()) => {},
                Err(kind) => {
                    return Err(ParseError::new(kind, line_after(first_line, i)));
                },
            }
            i += 1;
        }
        match parser.finish() {
            Ok(file) => Ok(file),
            Err(kind) => Err(ParseError::new(kind, line_after(first_line, i))),
        }
    }

}

impl core::str::FromStr for File {
    type Err = ParseError;

    /// Reads a file from a text.  Lines are counted from zero.
    fn from_str(text: &str) -> (r: Result<File, ParseError>)
        ensures
            match parse_text(text@) {
                Ok(file) => r is Ok && r->Ok_0@ == file,
                Err(error) => r is Err && r->Err_0 == error,
            },
            r matches Ok(file) ==> file@.readable(),
    {
        proof {
            lemma_parse_text_readable(text@);
        }
        let chars = to_chars(text);
        let chars = chars.as_slice();
        let ghost all = lines_of(text@);
        let mut parser = Parser::new();
        let mut start: usize = 0;
        let mut number: usize = 0;
        assert(text@.skip(0) =~= text@);
        while start < chars.len()
            invariant
                start <= chars.len(),
                number <= start,
                chars@ == text@,
                all == lines_of(text@),
                number + lines_of(text@.skip(start as int)).len() == all.len(),
                ParserView::start().run(all, 0) == parser@.run(
                    lines_of(text@.skip(start as int)),
                    number as nat,
                ),
            decreases chars.len() - start,
        {
            proof {
                lemma_lines_of_rest(text@, start as int);
            }
            let end = line_end(chars, start);
            let ghost rest = lines_of(text@.skip(start as int));
            let next: usize = if end == chars.len() {
                end
            } else {
                end + 1
            };
            assert(rest.drop_first() =~= lines_of(text@.skip(next as int)));
            match parser.feed_chars(slice_subrange(chars, start, end)) {
                Ok(()) => {},
                Err(kind) => {
                    return Err(ParseError::new(kind, number));
                },
            }
            number += 1;
            start = next;
        }
        match parser.finish() {
            Ok(file) => Ok(file),
            Err(kind) => Err(ParseError::new(kind, number)),
        }
    }
}

} // verus!
