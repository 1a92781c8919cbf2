//! Parser for the Journal Export Format.
//!
//! [parser::JournalExportParser] contains the parser logic and manages the
//! buffer. It never reads from a source itself: whenever it runs out of
//! input it hands its caller the free part of its buffer to fill, and the
//! caller reports how much it wrote.
//!
//! The parser is optimized for situations where the journal entry is
//! immediately 'reduced' for further processing; for example, for most
//! applications, most of the fields are ignored or their representation
//! changes based on the type. It'd thus be wasteful to create heap-allocated
//! objects for each entry or even field upfront containing the raw
//! representation of the field.
//!
//! [wire] states the format as a grammar over bytes, [machine] the scanner
//! as a state machine over single bytes, and [laws] what holds between the
//! two. [memory] reads the entries out of bytes that are at hand, and
//! states what a reader gets out of a stream.

pub mod laws;
pub mod machine;
pub mod memory;
pub mod parser;
pub mod wire;

use crate::journald::parser::FieldIter;
use crate::journald::wire::EntryView;
use vstd::prelude::*;

pub use crate::journald::parser::RefEntry;

verus! {

/// A completed entry: its bytes and its fields in order.
///
/// A view that borrows from a parser shows the entry only until the parser
/// is used again; one that must last longer is copied with
/// [RefEntry::to_owned].
pub trait Entry {
    /// The entry that is shown.
    spec fn entry(&self) -> EntryView;

    /// The view shows a complete entry.
    spec fn wf(&self) -> bool;

    /// The bytes of the entry as they came, from the first byte of the
    /// first name up to the line feed of the last field, without the blank
    /// line behind it.
    fn as_bytes(&self) -> (r: &[u8])
        requires
            self.wf(),
        ensures
            self.entry().wf(),
            r@ == self.entry().bytes(),
    ;

    /// An iterator over the fields of the entry, in the order in which
    /// they came. Every call starts anew at the first field.
    fn iter(&self) -> (r: FieldIter<'_>)
        requires
            self.wf(),
        ensures
            r.wf(),
            r.entry() == self.entry(),
            r.index() == 0,
            r.rest() == self.entry().items(),
    ;
}

/// The size of the buffer that a reader starts with: 16 KiB, on the
/// assumption that this is enough to hold at least one journal entry.
pub const DEFAULT_BUF_SIZE: usize = 16384;

/// Why a parse failed. Every failure is final: the parser that reported it
/// reports it again on every later call.
#[derive(Debug, Clone, Copy, PartialEq, Eq, Structural)]
pub enum JournalExportReadError {
    /// The byte that broke the grammar.
    UnexpectedCharacter(u8),
    /// The input ended inside an entry.
    UnexpectedEof,
    /// A field name exceeds the maximum allowed length.
    FieldNameTooLong,
    /// A field value exceeds the maximum allowed size.
    FieldValueTooLong,
    /// The total size of an entry exceeds the maximum allowed size.
    EntryTooLarge,
}

} // verus!
