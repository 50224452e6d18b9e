//! What holds of reading and writing, whatever the input.

use crate::atom::{lemma_atom_text_is_line, lemma_parse_atom_text, lemma_parse_atom_well_formed};
use crate::data::{AtomView, FileView, RecordView};
use crate::error::{line_number, ParseError, ParseErrorKind};
use crate::lines::{
    all_lines, is_line, lemma_lines_of_are_lines, lemma_lines_of_unlines, lines_of,
};
use crate::number::{decimal_digits, lemma_decimal_digits};
use crate::parser::{parse_count_line, parse_lines, parse_text, ParseState, ParserView};
use crate::text::is_whitespace;
use crate::tokens::{is_blank, lemma_tokens_after_word, tokens};
use crate::writer::{atom_lines, record_lines};
use vstd::prelude::*;

verus! {

/// One line keeps a well-formed reader well formed, and a line without a line
/// feed keeps a readable reader readable.
pub proof fn lemma_step_well_formed(p: ParserView, line: Seq<char>)
    requires
        p.well_formed(),
    ensures
        p.step(line) matches Ok(next) ==> {
            &&& next.well_formed()
            &&& p.readable() && is_line(line) ==> next.readable()
        },
{
    lemma_parse_atom_well_formed(line);
    match p.step(line) {
        Ok(next) => {
            if next.file != p.file {
                let before = p.file.records;
                let after = next.file.records;
                assert(after.drop_last() =~= before);
                assert(after.last().well_formed());
                assert forall|i: int| 0 <= i < after.len() implies (
                #[trigger] after[i]).well_formed() by {
                    if i < before.len() {
                        assert(after[i] == before[i]);
                    }
                }
                if p.readable() && is_line(line) {
                    assert forall|i: int| 0 <= i < after.len() implies (
                    #[trigger] after[i]).readable() by {
                        if i < before.len() {
                            assert(after[i] == before[i]);
                        }
                    }
                }
            }
        },
        Err(_) => {},
    }
}

/// Any lines keep a well-formed reader well formed, and lines without line
/// feeds keep a readable reader readable.
pub proof fn lemma_run_well_formed(p: ParserView, lines: Seq<Seq<char>>, first: nat)
    requires
        p.well_formed(),
    ensures
        p.run(lines, first) matches Ok(end) ==> {
            &&& end.well_formed()
            &&& p.readable() && all_lines(lines) ==> end.readable()
        },
    decreases lines.len(),
{
    if lines.len() > 0 {
        lemma_step_well_formed(p, lines[0]);
        match p.step(lines[0]) {
            Ok(next) => {
                let rest = lines.drop_first();
                lemma_run_well_formed(next, rest, first + 1);
                if all_lines(lines) {
                    assert forall|i: int| 0 <= i < rest.len() implies is_line(
                        #[trigger] rest[i],
                    ) by {
                        assert(rest[i] == lines[i + 1]);
                    }
                }
            },
            Err(_) => {},
        }
    }
}

/// **No short record.**  A file that was read from lines is well formed: each
/// of its records has as many atoms as its count line said, and each atom has
/// a label and three coordinates that are decimal floating-point literals.
/// If no line held a line feed, the file is readable as well.
pub proof fn lemma_parse_lines_well_formed(lines: Seq<Seq<char>>, first: nat)
    ensures
        parse_lines(lines, first) matches Ok(file) ==> {
            &&& file.well_formed()
            &&& all_lines(lines) ==> file.readable()
        },
{
    lemma_run_well_formed(ParserView::start(), lines, first);
}

/// A file that was read from a text is readable: it is well formed and each
/// of its comments fits on one line.
pub proof fn lemma_parse_text_readable(text: Seq<char>)
    ensures
        parse_text(text) matches Ok(file) ==> file.readable(),
{
    lemma_lines_of_are_lines(text);
    lemma_parse_lines_well_formed(lines_of(text), 0);
}

/// Reading two runs of lines, one after the other, is reading the first and
/// then, unless that failed, reading the second from where the first ended.
pub proof fn lemma_run_concat(p: ParserView, a: Seq<Seq<char>>, b: Seq<Seq<char>>, first: nat)
    ensures
        p.run(a + b, first) == match p.run(a, first) {
            Ok(middle) => middle.run(b, first + a.len()),
            Err(error) => Err(error),
        },
    decreases a.len(),
{
    if a.len() == 0 {
        assert(a + b =~= b);
    } else {
        assert((a + b).drop_first() =~= a.drop_first() + b);
        match p.step(a[0]) {
            Ok(next) => {
                lemma_run_concat(next, a.drop_first(), b, first + 1);
            },
            Err(_) => {},
        }
    }
}

/// **The first error stands.**  Once a line is refused, no line after it
/// changes the outcome: the input fails with that error at that line.
pub proof fn lemma_first_error_stands(
    p: ParserView,
    a: Seq<Seq<char>>,
    b: Seq<Seq<char>>,
    first: nat,
)
    requires
        p.run(a, first) is Err,
    ensures
        p.run(a + b, first) == p.run(a, first),
{
    lemma_run_concat(p, a, b, first);
}

/// **Blank lines before a count line are skipped.**  Where a count line is
/// expected, any number of blank lines in front of the rest of the input
/// change nothing but the numbers of the lines that follow them.
pub proof fn lemma_blank_lines_skipped(
    p: ParserView,
    blanks: Seq<Seq<char>>,
    rest: Seq<Seq<char>>,
    first: nat,
)
    requires
        p.state == ParseState::Count,
        forall|i: int| 0 <= i < blanks.len() ==> is_blank(#[trigger] blanks[i]),
    ensures
        p.run(blanks + rest, first) == p.run(rest, first + blanks.len()),
    decreases blanks.len(),
{
    if blanks.len() == 0 {
        assert(blanks + rest =~= rest);
    } else {
        let others = blanks.drop_first();
        assert(is_blank(blanks[0]));
        assert((blanks + rest).drop_first() =~= others + rest);
        assert forall|i: int| 0 <= i < others.len() implies is_blank(#[trigger] others[i]) by {
            assert(others[i] == blanks[i + 1]);
        }
        lemma_blank_lines_skipped(p, others, rest, first + 1);
    }
}

/// Blank lines at the beginning of the input are skipped: the same file is
/// read with and without them, and an error is found at the same line of the
/// input.
pub proof fn lemma_leading_blank_lines_skipped(
    blanks: Seq<Seq<char>>,
    lines: Seq<Seq<char>>,
    first: nat,
)
    requires
        forall|i: int| 0 <= i < blanks.len() ==> is_blank(#[trigger] blanks[i]),
    ensures
        parse_lines(blanks + lines, first) == parse_lines(lines, first + blanks.len()),
{
    lemma_blank_lines_skipped(ParserView::start(), blanks, lines, first);
}

/// While atoms are expected, the lines of fewer well-formed atoms than are
/// still to come add these atoms to the record and leave it open.
proof fn lemma_read_some_atoms(p: ParserView, remaining: usize, atoms: Seq<AtomView>, first: nat)
    requires
        p.state == ParseState::Atoms(remaining),
        atoms.len() < remaining,
        forall|i: int| 0 <= i < atoms.len() ==> (#[trigger] atoms[i]).well_formed(),
    ensures
        p.run(atom_lines(atoms), first) == Ok::<ParserView, ParseError>(
            ParserView {
                state: ParseState::Atoms((remaining - atoms.len()) as usize),
                file: p.file,
                record: RecordView { atoms: p.record.atoms + atoms, ..p.record },
            },
        ),
    decreases atoms.len(),
{
    let lines = atom_lines(atoms);
    if atoms.len() == 0 {
        assert(p.record.atoms + atoms =~= p.record.atoms);
    } else {
        let rest = atoms.drop_first();
        assert(atoms[0].well_formed());
        lemma_parse_atom_text(atoms[0]);
        assert(lines[0] == atoms[0].text());
        assert(lines.drop_first() =~= atom_lines(rest));
        let next = p.step(lines[0])->Ok_0;
        assert forall|i: int| 0 <= i < rest.len() implies (#[trigger] rest[i]).well_formed() by {
            assert(rest[i] == atoms[i + 1]);
        }
        lemma_read_some_atoms(next, (remaining - 1) as usize, rest, first + 1);
        assert(next.record.atoms + rest =~= p.record.atoms + atoms);
    }
}

/// **A record of no atoms.**  Where a count line is expected, a count line
/// that states zero and the comment line after it make a complete record
/// without atoms; the next line is read as a count line again.
pub proof fn lemma_empty_record(
    p: ParserView,
    count_line: Seq<char>,
    comment: Seq<char>,
    first: nat,
)
    requires
        p.state == ParseState::Count,
        parse_count_line(count_line) == Some(0usize),
    ensures
        p.run(seq![count_line, comment], first) == Ok::<ParserView, ParseError>(
            p.complete(RecordView { count: 0, comment, atoms: Seq::empty() }),
        ),
{
    let lines = seq![count_line, comment];
    let counted = p.step(count_line)->Ok_0;
    let commented = counted.step(comment)->Ok_0;
    assert(lines.drop_first()[0] == comment);
    assert(lines.drop_first().drop_first() =~= Seq::<Seq<char>>::empty());
    assert(p.run(lines, first) == counted.run(lines.drop_first(), first + 1));
    assert(counted.run(lines.drop_first(), first + 1) == commented.run(
        lines.drop_first().drop_first(),
        first + 2,
    ));
}

/// **Truncated input.**  Where a count line is expected, a count line, a
/// comment line and the lines of fewer well-formed atoms than the count line
/// states leave the reader inside the record.  An input that ends there is
/// refused with `UnexpectedEndOfInput`: no record is ever completed with
/// fewer atoms than its count.
pub proof fn lemma_truncated_record(
    p: ParserView,
    count_line: Seq<char>,
    comment: Seq<char>,
    atoms: Seq<AtomView>,
    first: nat,
)
    requires
        p.state == ParseState::Count,
        parse_count_line(count_line) matches Some(count) && atoms.len() < count,
        forall|i: int| 0 <= i < atoms.len() ==> (#[trigger] atoms[i]).well_formed(),
    ensures
        p.run(seq![count_line, comment] + atom_lines(atoms), first) matches Ok(end) && {
            &&& end.file == p.file
            &&& end.finish() == Err::<FileView, ParseErrorKind>(
                ParseErrorKind::UnexpectedEndOfInput,
            )
        },
{
    let count = parse_count_line(count_line)->Some_0;
    let lines = seq![count_line, comment] + atom_lines(atoms);
    let counted = p.step(count_line)->Ok_0;
    let commented = counted.step(comment)->Ok_0;
    assert(lines[0] == count_line);
    assert(lines.drop_first()[0] == comment);
    assert(lines.drop_first().drop_first() =~= atom_lines(atoms));
    assert(p.run(lines, first) == counted.run(lines.drop_first(), first + 1));
    assert(counted.run(lines.drop_first(), first + 1) == commented.run(
        atom_lines(atoms),
        first + 2,
    ));
    lemma_read_some_atoms(commented, count, atoms, first + 2);
}

/// An input that ends inside a record is refused with `UnexpectedEndOfInput`
/// at the number after that of its last line.
pub proof fn lemma_truncated_input(
    count_line: Seq<char>,
    comment: Seq<char>,
    atoms: Seq<AtomView>,
    first: nat,
)
    requires
        parse_count_line(count_line) matches Some(count) && atoms.len() < count,
        forall|i: int| 0 <= i < atoms.len() ==> (#[trigger] atoms[i]).well_formed(),
    ensures
        parse_lines(seq![count_line, comment] + atom_lines(atoms), first) == Err::<
            FileView,
            ParseError,
        >(
            ParseError {
                kind: ParseErrorKind::UnexpectedEndOfInput,
                line: line_number(first + 2 + atoms.len()),
            },
        ),
{
    lemma_truncated_record(ParserView::start(), count_line, comment, atoms, first);
}

/// While atoms are expected, the lines of as many well-formed atoms as are
/// still to come complete the record with these atoms.
proof fn lemma_read_atoms(p: ParserView, atoms: Seq<AtomView>, first: nat)
    requires
        p.state == ParseState::Atoms(atoms.len() as usize),
        1 <= atoms.len() <= usize::MAX,
        forall|i: int| 0 <= i < atoms.len() ==> (#[trigger] atoms[i]).well_formed(),
    ensures
        p.run(atom_lines(atoms), first) == Ok::<ParserView, ParseError>(
            p.complete(RecordView { atoms: p.record.atoms + atoms, ..p.record }),
        ),
    decreases atoms.len(),
{
    let lines = atom_lines(atoms);
    let rest = atoms.drop_first();
    assert(atoms[0].well_formed());
    lemma_parse_atom_text(atoms[0]);
    assert(lines[0] == atoms[0].text());
    assert(lines.drop_first() =~= atom_lines(rest));
    let record = RecordView { atoms: p.record.atoms.push(atoms[0]), ..p.record };
    let next = p.step(lines[0])->Ok_0;
    if atoms.len() == 1 {
        assert(record.atoms =~= p.record.atoms + atoms);
        assert(next.run(lines.drop_first(), first + 1) == Ok::<ParserView, ParseError>(next));
    } else {
        assert forall|i: int| 0 <= i < rest.len() implies (#[trigger] rest[i]).well_formed() by {
            assert(rest[i] == atoms[i + 1]);
        }
        lemma_read_atoms(next, rest, first + 1);
        assert(record.atoms + rest =~= p.record.atoms + atoms);
    }
}

/// Where a count line is expected, the lines of a readable record add that
/// record to the file.
proof fn lemma_read_record(p: ParserView, record: RecordView, first: nat)
    requires
        p.state == ParseState::Count,
        record.readable(),
    ensures
        p.run(record.lines(), first) == Ok::<ParserView, ParseError>(p.complete(record)),
{
    let lines = record.lines();
    let digits = decimal_digits(record.atoms.len());
    let none = Seq::<char>::empty();
    lemma_decimal_digits(record.atoms.len());
    lemma_tokens_after_word(digits, none);
    assert(digits + none =~= digits);
    assert(tokens(none) =~= Seq::<Seq<char>>::empty());
    assert(tokens(digits) =~= seq![digits]);
    assert(lines[0] == digits);
    assert(!is_blank(digits));
    assert(parse_count_line(digits) == Some(record.count as usize));
    let counted = p.step(lines[0])->Ok_0;
    let after_count = lines.drop_first();
    assert(after_count[0] == record.comment);
    let commented = counted.step(after_count[0])->Ok_0;
    let after_comment = after_count.drop_first();
    assert(after_comment =~= atom_lines(record.atoms));
    let begun = RecordView { count: record.count, comment: record.comment, atoms: Seq::empty() };
    assert(p.run(lines, first) == counted.run(after_count, first + 1));
    assert(counted.run(after_count, first + 1) == commented.run(after_comment, first + 2));
    assert(counted.record.count == record.count);
    if record.count == 0 {
        assert(record.atoms =~= Seq::<AtomView>::empty());
        assert(begun == record);
        assert(commented.run(after_comment, first + 2) == Ok::<ParserView, ParseError>(commented));
    } else {
        lemma_read_atoms(commented, record.atoms, first + 2);
        assert(begun.atoms + record.atoms =~= record.atoms);
    }
}

/// Where a count line is expected, the lines of readable records add these
/// records to the file.
proof fn lemma_read_records(p: ParserView, records: Seq<RecordView>, first: nat)
    requires
        p.state == ParseState::Count,
        p.record == RecordView::empty(),
        forall|i: int| 0 <= i < records.len() ==> (#[trigger] records[i]).readable(),
    ensures
        p.run(record_lines(records), first) == Ok::<ParserView, ParseError>(
            ParserView {
                state: ParseState::Count,
                file: FileView { records: p.file.records + records },
                record: RecordView::empty(),
            },
        ),
    decreases records.len(),
{
    if records.len() == 0 {
        assert(p.file.records + records =~= p.file.records);
    } else {
        let rest = records.drop_first();
        let head = records[0].lines();
        assert(records[0].readable());
        lemma_read_record(p, records[0], first);
        let next = p.complete(records[0]);
        assert forall|i: int| 0 <= i < rest.len() implies (#[trigger] rest[i]).readable() by {
            assert(rest[i] == records[i + 1]);
        }
        lemma_read_records(next, rest, first + head.len());
        lemma_run_concat(p, head, record_lines(rest), first);
        assert(next.file.records + rest =~= p.file.records + records);
    }
}

/// No line of a readable record holds a line feed.
proof fn lemma_record_lines_are_lines(records: Seq<RecordView>)
    requires
        forall|i: int| 0 <= i < records.len() ==> (#[trigger] records[i]).readable(),
    ensures
        forall|i: int|
            0 <= i < record_lines(records).len() ==> is_line(#[trigger] record_lines(records)[i]),
    decreases records.len(),
{
    if records.len() > 0 {
        let record = records[0];
        let rest = records.drop_first();
        let head = record.lines();
        assert(record.readable());
        assert forall|i: int| 0 <= i < rest.len() implies (#[trigger] rest[i]).readable() by {
            assert(rest[i] == records[i + 1]);
        }
        lemma_record_lines_are_lines(rest);
        lemma_decimal_digits(record.atoms.len());
        let digits = decimal_digits(record.atoms.len());
        assert forall|k: int| 0 <= k < digits.len() implies #[trigger] digits[k] != '\n' by {
            assert(!is_whitespace(digits[k]));
        }
        assert forall|i: int| 0 <= i < record_lines(records).len() implies is_line(
            #[trigger] record_lines(records)[i],
        ) by {
            if i >= head.len() {
                assert(record_lines(records)[i] == record_lines(rest)[i - head.len()]);
            } else if i >= 2 {
                assert(head[i] == record.atoms[i - 2].text());
                assert(record.atoms[i - 2].well_formed());
                lemma_atom_text_is_line(record.atoms[i - 2]);
            } else {
                assert(head[i] == digits || head[i] == record.comment);
            }
        }
    }
}

/// **Reading back.**  The text of a readable file holds that file: reading it
/// gives the file, with every count, comment and atom as it was.
pub proof fn lemma_text_reads_back(file: FileView)
    requires
        file.readable(),
    ensures
        parse_text(file.text()) == Ok::<FileView, ParseError>(file),
{
    let start = ParserView::start();
    lemma_record_lines_are_lines(file.records);
    lemma_lines_of_unlines(file.lines());
    lemma_read_records(start, file.records, 0);
    assert(start.file.records + file.records =~= file.records);
}

/// The lines of records do not depend on their counts.
proof fn lemma_record_lines_counted(records: Seq<RecordView>)
    ensures
        record_lines(records.map_values(|r: RecordView| r.counted())) == record_lines(records),
    decreases records.len(),
{
    let counted = records.map_values(|r: RecordView| r.counted());
    if records.len() > 0 {
        lemma_record_lines_counted(records.drop_first());
        assert(counted.drop_first() =~= records.drop_first().map_values(
            |r: RecordView| r.counted(),
        ));
        assert(counted[0].lines() == records[0].lines());
    }
}

/// **The count that is written is the number of atoms.**  Whatever the counts
/// of a file say, its text is that of the file with each count set to the
/// number of atoms of its record; and that file is what is read from the
/// text, if its atoms are well formed and its comments fit on one line.
pub proof fn lemma_text_reads_back_counted(file: FileView)
    requires
        file.counted().readable(),
    ensures
        file.text() == file.counted().text(),
        parse_text(file.text()) == Ok::<FileView, ParseError>(file.counted()),
{
    lemma_record_lines_counted(file.records);
    lemma_text_reads_back(file.counted());
}

/// **Round trip.**  A file that was read from a text is read again, the same
/// in every count, comment and atom, from the text that is written for it.
pub proof fn lemma_round_trip(text: Seq<char>)
    ensures
        parse_text(text) matches Ok(file) ==> parse_text(file.text()) == Ok::<
            FileView,
            ParseError,
        >(file),
{
    lemma_parse_text_readable(text);
    match parse_text(text) {
        Ok(file) => {
            lemma_text_reads_back(file);
        },
        Err(_) => {},
    }
}

} // verus!
