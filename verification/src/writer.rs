//! Writing records and files as text.
//!
//! A record is written as its count line, its comment line and one line for
//! each atom; a file as its records one after the other, with nothing between
//! them.  The count that is written is the number of atoms of the record.

use crate::data::{AtomView, File, FileView, Record, RecordView};
use crate::lines::{lemma_unlines_concat, unlines};
use crate::number::{decimal_digits, push_decimal};
use vstd::prelude::*;
use vstd::string::StringExecFns;

verus! {

/// The lines of the given atoms, one for each.
pub open spec fn atom_lines(atoms: Seq<AtomView>) -> Seq<Seq<char>> {
    atoms.map_values(|a: AtomView| a.text())
}

/// The lines of the given records, one record after the other.
pub open spec fn record_lines(records: Seq<RecordView>) -> Seq<Seq<char>>
    decreases records.len(),
{
    if records.len() == 0 {
        Seq::empty()
    } else {
        records[0].lines() + record_lines(records.drop_first())
    }
}

impl RecordView {
    /// The lines of the record: the number of its atoms in decimal, its
    /// comment, and its atoms.
    pub open spec fn lines(self) -> Seq<Seq<char>> {
        seq![decimal_digits(self.atoms.len()), self.comment] + atom_lines(self.atoms)
    }

    /// The text of the record: each of its lines, followed by a line feed.
    pub open spec fn text(self) -> Seq<char> {
        unlines(self.lines())
    }
}

impl FileView {
    /// The lines of the file: those of its records, in order.
    pub open spec fn lines(self) -> Seq<Seq<char>> {
        record_lines(self.records)
    }

    /// The text of the file: each of its lines, followed by a line feed.
    pub open spec fn text(self) -> Seq<char> {
        unlines(self.lines())
    }
}

/// The lines of two runs of records, one after the other, are the lines of
/// the first followed by the lines of the second.
pub proof fn lemma_record_lines_concat(a: Seq<RecordView>, b: Seq<RecordView>)
    ensures
        record_lines(a + b) == record_lines(a) + record_lines(b),
    decreases a.len(),
{
    if a.len() == 0 {
        assert(a + b =~= b);
    } else {
        assert((a + b).drop_first() =~= a.drop_first() + b);
        lemma_record_lines_concat(a.drop_first(), b);
    }
}

/// The text of a file is the text of its records, one after the other.
pub proof fn lemma_file_text_push(records: Seq<RecordView>, record: RecordView)
    ensures
        (FileView { records: records.push(record) }).text() == (FileView { records }).text()
            + record.text(),
{
    let one = seq![record];
    assert(records.push(record) =~= records + one);
    lemma_record_lines_concat(records, one);
    assert(record_lines(one.drop_first()) =~= Seq::<Seq<char>>::empty());
    lemma_unlines_concat(record_lines(records), record.lines());
}

/// The text of some lines and one more is the text of the lines, then the
/// last line and a line feed.
pub proof fn lemma_unlines_push(lines: Seq<Seq<char>>, line: Seq<char>)
    ensures
        unlines(lines.push(line)) == unlines(lines) + line + seq!['\n'],
{
    let one = seq![line];
    assert(lines.push(line) =~= lines + one);
    lemma_unlines_concat(lines, one);
    assert(unlines(one.drop_first()) =~= Seq::<char>::empty());
}

impl Record {
    /// Appends the text of the record to `out`.
    pub fn write_to(&self, out: &mut String)
        ensures
            final(out)@ == old(out)@ + self@.text(),
    {
        let ghost head = seq![decimal_digits(self@.atoms.len()), self@.comment];
        push_decimal(out, self.atoms.len());
        out.push('\n');
        out.append(self.comment.as_str());
        out.push('\n');
        proof {
            assert(head =~= Seq::<Seq<char>>::empty().push(head[0]).push(head[1]));
            lemma_unlines_push(Seq::<Seq<char>>::empty(), head[0]);
            lemma_unlines_push(Seq::<Seq<char>>::empty().push(head[0]), head[1]);
        }
        let mut i: usize = 0;
        while i < self.atoms.len()
            invariant
                i <= self.atoms.len(),
                head == seq![decimal_digits(self@.atoms.len()), self@.comment],
                out@ == old(out)@ + unlines(head + atom_lines(self@.atoms.take(i as int))),
            decreases self.atoms.len() - i,
        {
            let ghost before = head + atom_lines(self@.atoms.take(i as int));
            self.atoms[i].write_to(out);
            out.push('\n');
            proof {
                let atom = self@.atoms[i as int];
                lemma_unlines_push(before, atom.text());
                assert(head + atom_lines(self@.atoms.take(i + 1)) =~= before.push(atom.text()));
            }
            i += 1;
        }
        assert(self@.atoms.take(i as int) =~= self@.atoms);
    }

    /// The text of the record.
    pub fn to_string(&self) -> (s: String)
        ensures
            s@ == self@.text(),
    {
        let mut s = String::new();
        self.write_to(&mut s);
        s
    }
}

impl File {
    /// Appends the text of the file to `out`.
    pub fn write_to(&self, out: &mut String)
        ensures
            final(out)@ == old(out)@ + self@.text(),
    {
        let mut i: usize = 0;
        while i < self.records.len()
            invariant
                i <= self.records.len(),
                out@ == old(out)@ + (FileView { records: self@.records.take(i as int) }).text(),
            decreases self.records.len() - i,
        {
            self.records[i].write_to(out);
            proof {
                let done = self@.records.take(i as int);
                let record = self@.records[i as int];
                lemma_file_text_push(done, record);
                assert(self@.records.take(i + 1) =~= done.push(record));
            }
            i += 1;
        }
        assert(self@.records.take(i as int) =~= self@.records);
    }

    /// The text of the file.
    pub fn to_string(&self) -> (s: String)
        ensures
            s@ == self@.text(),
    {
        let mut s = String::new();
        self.write_to(&mut s);
        s
    }
}

} // verus!
