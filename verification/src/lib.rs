//! Reading and writing chemical `.xyz` files, with proofs.
//!
//! An `.xyz` file is plain text.  It holds one or more records, each of which
//! describes a structure, for example one step of a simulation:
//!
//! ```text
//! <count>
//! <comment>
//! <label> <x> <y> <z>
//! ...
//! ```
//!
//! The count line states how many atom lines the record has.  The comment
//! line is free text and may be empty.  An atom line holds a label and three
//! coordinates, in Ångström.
//!
//! # Reading
//!
//! [`File::from_str`] reads a text, [`File::from_lines`] a sequence of lines,
//! and a [`Parser`] is fed one line at a time.  They agree on the format:
//!
//! - Tokens are separated by any run of whitespace.
//! - A count line holds one unsigned decimal integer; whitespace around it is
//!   ignored.  Blank lines in front of a count line are skipped.
//! - The comment line is kept as it is.
//! - An atom line holds a label and three decimal floating-point literals;
//!   what follows them on the line is ignored.
//! - After the last atom line of a record, the next line that is not blank
//!   must be a count line.
//! - The input may end after a complete record, and nowhere else.
//!
//! The first line that breaks a rule ends the reading with a [`ParseError`],
//! which names the line.  Lines are counted from zero.
//!
//! # Writing
//!
//! [`File::to_string`] writes each record as its count line, its comment line
//! and its atom lines, with a tab between the fields of an atom and a line
//! feed after each line.  The count that is written is the number of atoms.
//!
//! # Coordinates
//!
//! A [`Position`] keeps each coordinate as the literal that was read, so a
//! file is written with exactly the numbers it was read with.  Every such
//! literal is one that `str::parse::<f64>` accepts.
//!
//! # What is proved
//!
//! Every function states what it returns over the definitions in
//! [`parser`], [`atom`], [`writer`] and [`lines`], and [`laws`] holds what
//! follows for every input: a file that was read is well formed, and reading
//! the text that is written for it gives the same file again.

pub mod atom;
pub mod data;
pub mod error;
pub mod laws;
pub mod lines;
pub mod number;
pub mod parser;
pub mod text;
pub mod tokens;
pub mod writer;

pub use data::{Atom, File, Position, Record};
pub use error::{ParseError, ParseErrorKind};
pub use parser::{ParseState, Parser};
