//! Atom lines: a label and three coordinates, separated by whitespace when
//! read and by single tabs when written.

use crate::data::{Atom, AtomView, Position, PositionView};
use crate::error::ParseErrorKind;
use crate::lines::is_line;
use crate::number::{check_float_literal, is_float_literal, lemma_float_literal_is_word};
use crate::text::{from_chars, to_chars};
use crate::tokens::{
    lemma_tokens_after_whitespace, lemma_tokens_after_word, lemma_tokens_are_words, next_token,
    tokens,
};
use vstd::prelude::*;
use vstd::slice::slice_subrange;
use vstd::string::StringExecFns;

verus! {

/// What an atom line holds.  Its first token is the label and the next three
/// are the coordinates; further tokens are ignored.  The tokens are taken in
/// this order, and the first that fails decides the error: a token that is not
/// there gives `MissingValue`, a coordinate that is not a decimal
/// floating-point literal gives `ParseFloatError`.
pub open spec fn parse_atom(line: Seq<char>) -> Result<AtomView, ParseErrorKind> {
    let t = tokens(line);
    if t.len() < 2 {
        Err(ParseErrorKind::MissingValue)
    } else if !is_float_literal(t[1]) {
        Err(ParseErrorKind::ParseFloatError)
    } else if t.len() < 3 {
        Err(ParseErrorKind::MissingValue)
    } else if !is_float_literal(t[2]) {
        Err(ParseErrorKind::ParseFloatError)
    } else if t.len() < 4 {
        Err(ParseErrorKind::MissingValue)
    } else if !is_float_literal(t[3]) {
        Err(ParseErrorKind::ParseFloatError)
    } else {
        Ok(AtomView { label: t[0], position: PositionView { x: t[1], y: t[2], z: t[3] } })
    }
}

impl PositionView {
    /// The three coordinates with a tab between them.
    pub open spec fn text(self) -> Seq<char> {
        self.x + seq!['\t'] + self.y + seq!['\t'] + self.z
    }
}

impl AtomView {
    /// The atom line: the label, a tab, and the text of the position.
    pub open spec fn text(self) -> Seq<char> {
        self.label + seq!['\t'] + self.position.text()
    }
}

/// An atom that was read from a line is well formed.
pub proof fn lemma_parse_atom_well_formed(line: Seq<char>)
    ensures
        parse_atom(line) matches Ok(a) ==> a.well_formed(),
{
    lemma_tokens_are_words(line);
}

/// The line of a well-formed atom holds no line feed.
pub proof fn lemma_atom_text_is_line(atom: AtomView)
    requires
        atom.well_formed(),
    ensures
        is_line(atom.text()),
{
    let p = atom.position;
    lemma_float_literal_is_word(p.x);
    lemma_float_literal_is_word(p.y);
    lemma_float_literal_is_word(p.z);
}

/// Reading the line of a well-formed atom gives that atom.
pub proof fn lemma_parse_atom_text(atom: AtomView)
    requires
        atom.well_formed(),
    ensures
        parse_atom(atom.text()) == Ok::<AtomView, ParseErrorKind>(atom),
{
    let p = atom.position;
    let tab = seq!['\t'];
    lemma_float_literal_is_word(p.x);
    lemma_float_literal_is_word(p.y);
    lemma_float_literal_is_word(p.z);
    let none = Seq::<char>::empty();
    let from_z = p.z + none;
    let from_y = p.y + (tab + from_z);
    let from_x = p.x + (tab + from_y);
    let all = atom.label + (tab + from_x);
    assert(all =~= atom.text());
    lemma_tokens_after_word(p.z, none);
    lemma_tokens_after_whitespace(tab, from_z);
    lemma_tokens_after_word(p.y, tab + from_z);
    lemma_tokens_after_whitespace(tab, from_y);
    lemma_tokens_after_word(p.x, tab + from_y);
    lemma_tokens_after_whitespace(tab, from_x);
    lemma_tokens_after_word(atom.label, tab + from_x);
}

impl core::str::FromStr for Atom {
    type Err = ParseErrorKind;

    /// Reads an atom from a line.
    fn from_str(line: &str) -> (r: Result<Atom, ParseErrorKind>)
        ensures
            match parse_atom(line@) {
                Ok(a) => r is Ok && r->Ok_0@ == a,
                Err(kind) => r is Err && r->Err_0 == kind,
            },
    {
        let chars = to_chars(line);
        Atom::from_chars(chars.as_slice())
    }
}

impl Atom {
    /// Reads an atom from the characters of a line.
    pub fn from_chars(line: &[char]) -> (r: Result<Atom, ParseErrorKind>)
        ensures
            match parse_atom(line@) {
                Ok(a) => r is Ok && r->Ok_0@ == a,
                Err(kind) => r is Err && r->Err_0 == kind,
            },
    {
        assert(line@.skip(0) =~= line@);
        let (label_start, label_end) = match next_token(line, 0) {
            Some(range) => range,
            None => {
                return Err(ParseErrorKind::MissingValue);
            },
        };
        let (x_start, x_end) = match next_token(line, label_end) {
            Some(range) => range,
            None => {
                return Err(ParseErrorKind::MissingValue);
            },
        };
        let x = slice_subrange(line, x_start, x_end);
        if !check_float_literal(x) {
            return Err(ParseErrorKind::ParseFloatError);
        }
        let (y_start, y_end) = match next_token(line, x_end) {
            Some(range) => range,
            None => {
                return Err(ParseErrorKind::MissingValue);
            },
        };
        let y = slice_subrange(line, y_start, y_end);
        if !check_float_literal(y) {
            return Err(ParseErrorKind::ParseFloatError);
        }
        let (z_start, z_end) = match next_token(line, y_end) {
            Some(range) => range,
            None => {
                return Err(ParseErrorKind::MissingValue);
            },
        };
        let z = slice_subrange(line, z_start, z_end);
        if !check_float_literal(z) {
            return Err(ParseErrorKind::ParseFloatError);
        }
        let label = slice_subrange(line, label_start, label_end);
        Ok(
            Atom {
                label: from_chars(label),
                position: Position { x: from_chars(x), y: from_chars(y), z: from_chars(z) },
            },
        )
    }

    /// The atom line: the label and the three coordinates with a tab between
    /// them.
    pub fn to_string(&self) -> (s: String)
        ensures
            s@ == self@.text(),
    {
        let mut s = String::new();
        self.write_to(&mut s);
        s
    }

    /// Appends the atom line to `out`.
    pub fn write_to(&self, out: &mut String)
        ensures
            final(out)@ == old(out)@ + self@.text(),
    {
        proof {
            reveal_strlit("\t");
        }
        out.append(self.label.as_str());
        out.append("\t");
        self.position.write_to(out);
    }
}

impl Position {
    /// The three coordinates with a tab between them.
    pub fn to_string(&self) -> (s: String)
        ensures
            s@ == self@.text(),
    {
        let mut s = String::new();
        self.write_to(&mut s);
        s
    }

    /// Appends the three coordinates, with a tab between them, to `out`.
    pub fn write_to(&self, out: &mut String)
        ensures
            final(out)@ == old(out)@ + self@.text(),
    {
        proof {
            reveal_strlit("\t");
        }
        out.append(self.x.as_str());
        out.append("\t");
        out.append(self.y.as_str());
        out.append("\t");
        out.append(self.z.as_str());
    }
}

} // verus!
