//! The contents of a file: positions, atoms, records, and the file itself.
//!
//! A coordinate is kept as the decimal literal that stands for it, so that
//! nothing is lost or rounded between reading a file and writing it again.

use crate::lines::is_line;
use crate::number::is_float_literal;
use crate::text::is_word;
use vstd::prelude::*;
use vstd::string::StringExecFns;

verus! {

/// A point in space.  Each coordinate is a decimal floating-point literal,
/// in Ångström.
#[derive(Debug, PartialEq, Eq)]
pub struct Position {
    pub x: String,
    pub y: String,
    pub z: String,
}

/// An atom: a label (`C` for carbon, `Ne` for neon, ...) and a [`Position`].
#[derive(Debug, PartialEq, Eq)]
pub struct Atom {
    pub label: String,
    pub position: Position,
}

/// One complete unit of a file: the number of atoms, a comment, and the atoms.
#[derive(Debug, PartialEq, Eq)]
pub struct Record {
    pub count: usize,
    pub comment: String,
    pub atoms: Vec<Atom>,
}

/// A sequence of [`Record`]s, such as the steps of a simulation.
#[derive(Debug, PartialEq, Eq)]
pub struct File {
    pub records: Vec<Record>,
}

/// What a [`Position`] holds.
pub struct PositionView {
    pub x: Seq<char>,
    pub y: Seq<char>,
    pub z: Seq<char>,
}

/// What an [`Atom`] holds.
pub struct AtomView {
    pub label: Seq<char>,
    pub position: PositionView,
}

/// What a [`Record`] holds.
pub struct RecordView {
    pub count: nat,
    pub comment: Seq<char>,
    pub atoms: Seq<AtomView>,
}

/// What a [`File`] holds.
pub struct FileView {
    pub records: Seq<RecordView>,
}

impl View for Position {
    type V = PositionView;

    open spec fn view(&self) -> PositionView {
        PositionView { x: self.x@, y: self.y@, z: self.z@ }
    }
}

impl View for Atom {
    type V = AtomView;

    open spec fn view(&self) -> AtomView {
        AtomView { label: self.label@, position: self.position@ }
    }
}

impl View for Record {
    type V = RecordView;

    open spec fn view(&self) -> RecordView {
        RecordView {
            count: self.count as nat,
            comment: self.comment@,
            atoms: self.atoms@.map_values(|a: Atom| a@),
        }
    }
}

impl View for File {
    type V = FileView;

    open spec fn view(&self) -> FileView {
        FileView { records: self.records@.map_values(|r: Record| r@) }
    }
}

impl PositionView {
    /// Each coordinate is a decimal floating-point literal.
    pub open spec fn well_formed(self) -> bool {
        &&& is_float_literal(self.x)
        &&& is_float_literal(self.y)
        &&& is_float_literal(self.z)
    }
}

impl AtomView {
    /// The label is a word and the position is well formed.
    pub open spec fn well_formed(self) -> bool {
        &&& is_word(self.label)
        &&& self.position.well_formed()
    }
}

impl RecordView {
    /// The record without atoms and with an empty comment.
    pub open spec fn empty() -> RecordView {
        RecordView { count: 0, comment: Seq::empty(), atoms: Seq::empty() }
    }

    /// The count is the number of atoms, and every atom is well formed.
    pub open spec fn well_formed(self) -> bool {
        &&& self.count == self.atoms.len()
        &&& self.count <= usize::MAX
        &&& forall|i: int| 0 <= i < self.atoms.len() ==> (#[trigger] self.atoms[i]).well_formed()
    }

    /// The record is well formed and its comment fits on one line: what it
    /// takes for the record to be read back from its text.
    pub open spec fn readable(self) -> bool {
        &&& self.well_formed()
        &&& is_line(self.comment)
    }

    /// The record with the number of its atoms as its count.
    pub open spec fn counted(self) -> RecordView {
        RecordView { count: self.atoms.len(), ..self }
    }
}

impl FileView {
    /// Every record is well formed.
    pub open spec fn well_formed(self) -> bool {
        forall|i: int| 0 <= i < self.records.len() ==> (#[trigger] self.records[i]).well_formed()
    }

    /// Every record is readable.
    pub open spec fn readable(self) -> bool {
        forall|i: int| 0 <= i < self.records.len() ==> (#[trigger] self.records[i]).readable()
    }

    /// The file with the number of its atoms as the count of each record.
    pub open spec fn counted(self) -> FileView {
        FileView { records: self.records.map_values(|r: RecordView| r.counted()) }
    }
}

impl Clone for Position {
    fn clone(&self) -> (r: Self)
        ensures
            r == *self,
    {
        Position { x: self.x.clone(), y: self.y.clone(), z: self.z.clone() }
    }
}

impl Clone for Atom {
    fn clone(&self) -> (r: Self)
        ensures
            r == *self,
    {
        Atom { label: self.label.clone(), position: self.position.clone() }
    }
}

impl Clone for Record {
    fn clone(&self) -> (r: Self)
        ensures
            r@ == self@,
    {
        let copy = Record::new(self.comment.as_str(), self.atoms.as_slice());
        Record { count: self.count, comment: copy.comment, atoms: copy.atoms }
    }
}

impl Clone for File {
    fn clone(&self) -> (f: Self)
        ensures
            f@ == self@,
    {
        let mut records: Vec<Record> = Vec::new();
        let mut i: usize = 0;
        while i < self.records.len()
            invariant
                i <= self.records.len(),
                records@.map_values(|r: Record| r@) == self@.records.take(i as int),
            decreases self.records.len() - i,
        {
            let ghost before = records@.map_values(|r: Record| r@);
            let record = self.records[i].clone();
            records.push(record);
            assert(records@.map_values(|r: Record| r@) =~= before.push(record@));
            i += 1;
        }
        assert(self@.records.take(i as int) =~= self@.records);
        File { records }
    }
}

impl Record {
    /// The record without atoms and with an empty comment.
    pub fn empty() -> (r: Record)
        ensures
            r@ == RecordView::empty(),
    {
        let r = Record { count: 0, comment: String::new(), atoms: Vec::new() };
        assert(r@.atoms =~= Seq::empty());
        r
    }

    /// A record with the given comment and atoms.  Its count is the number of
    /// atoms.
    pub fn new(comment: &str, atoms: &[Atom]) -> (r: Record)
        ensures
            r@ == (RecordView {
                count: atoms@.len(),
                comment: comment@,
                atoms: atoms@.map_values(|a: Atom| a@),
            }),
    {
        let mut copy: Vec<Atom> = Vec::new();
        let mut i: usize = 0;
        while i < atoms.len()
            invariant
                i <= atoms.len(),
                copy@ == atoms@.take(i as int),
            decreases atoms.len() - i,
        {
            copy.push(atoms[i].clone());
            i += 1;
        }
        assert(copy@ =~= atoms@);
        Record { count: atoms.len(), comment: String::from_str(comment), atoms: copy }
    }
}

impl File {
    /// A file without records.
    pub fn new() -> (f: File)
        ensures
            f@ == (FileView { records: Seq::empty() }),
    {
        let f = File { records: Vec::new() };
        assert(f@.records =~= Seq::empty());
        f
    }

    /// Adds `record` as the last record of the file.
    pub fn push(&mut self, record: Record)
        ensures
            final(self)@ == (FileView { records: old(self)@.records.push(record@) }),
    {
        self.records.push(record);
        assert(self@.records =~= old(self)@.records.push(record@));
    }
}

} // verus!
