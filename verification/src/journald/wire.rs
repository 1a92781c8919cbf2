//! The export format as a grammar over bytes.
//!
//! ```text
//! <fieldname> '=' <text-value-without-NL> '\n'                 text field
//! <fieldname> '\n' <8-byte little-endian length> <bytes> '\n'   binary field
//! '\n'                                                          entry terminator
//! ```
//!
//! One or more fields followed by a blank line compose one entry. A field
//! is described by a [FieldSpan]: where in the entry it starts, how long its
//! name is, and of which kind it is. Everything else follows from the bytes.

use crate::config::JournalExportLimits;
use vstd::bytes::spec_u64_from_le_bytes;
use vstd::prelude::*;

verus! {

/// The line feed that ends fields, names of binary fields and entries.
pub const NEWLINE: u8 = 10;

/// The sign between the name and the value of a text field.
pub const EQUALS: u8 = 61;

/// The one byte besides letters and digits that a field name may hold.
pub const UNDERSCORE: u8 = 95;

/// The number of bytes that state the length of a binary value.
pub const LENGTH_SIZE: usize = 8;

/// How the value of a field is laid out.
#[derive(Clone, Copy, Debug, PartialEq, Eq, Structural)]
pub enum FieldType {
    Binary,
    String,
}

pub open spec fn is_alphabetic(c: u8) -> bool {
    65 <= c <= 90 || 97 <= c <= 122
}

pub open spec fn is_digit(c: u8) -> bool {
    48 <= c <= 57
}

/// A byte that may stand in a field name: an ASCII letter, a digit or `_`.
pub open spec fn is_name_byte(c: u8) -> bool {
    is_alphabetic(c) || is_digit(c) || c == UNDERSCORE
}

/// A byte that may start an entry: an ASCII letter or `_`.
pub open spec fn is_name_start(c: u8) -> bool {
    is_alphabetic(c) || c == UNDERSCORE
}

pub fn name_byte(c: u8) -> (r: bool)
    ensures
        r == is_name_byte(c),
{
    (65 <= c && c <= 90) || (97 <= c && c <= 122) || (48 <= c && c <= 57) || c == UNDERSCORE
}

pub fn name_start(c: u8) -> (r: bool)
    ensures
        r == is_name_start(c),
{
    (65 <= c && c <= 90) || (97 <= c && c <= 122) || c == UNDERSCORE
}

/// Where a field lies in the text of its entry.
pub struct FieldSpan {
    /// The index of the first byte of the name.
    pub start: nat,
    /// The number of bytes of the name.
    pub namelen: nat,
    pub kind: FieldType,
}

impl FieldSpan {
    /// The index just behind the name, where `=` or the line feed stands.
    pub open spec fn name_end(self) -> int {
        (self.start + self.namelen) as int
    }

    /// The index of the first byte of the value.
    pub open spec fn value_start(self) -> int {
        match self.kind {
            FieldType::String => self.name_end() + 1,
            FieldType::Binary => self.name_end() + 1 + LENGTH_SIZE,
        }
    }
}

/// The bytes of `text` from `f.start` up to `to` are one field in wire
/// format, of the kind and with the name length that `f` gives, within the
/// limits; `to` is the index just behind the line feed that ends it.
pub open spec fn field_at(text: Seq<u8>, f: FieldSpan, to: int, limits: JournalExportLimits) -> bool {
    &&& 0 < f.namelen <= limits.max_field_name_len
    &&& to <= text.len()
    &&& f.value_start() < to
    &&& forall|i: int| f.start <= i < f.name_end() ==> is_name_byte(#[trigger] text[i])
    &&& text[to - 1] == NEWLINE
    &&& to - 1 - f.value_start() <= limits.max_field_value_size
    &&& match f.kind {
        FieldType::String => {
            &&& text[f.name_end()] == EQUALS
            &&& forall|i: int| f.value_start() <= i < to - 1 ==> #[trigger] text[i] != NEWLINE
        },
        FieldType::Binary => {
            &&& text[f.name_end()] == NEWLINE
            &&& spec_u64_from_le_bytes(text.subrange(f.name_end() + 1, f.value_start())) == to
                - 1 - f.value_start()
        },
    }
}

/// Where field `i` ends: where the next one starts, or at `stop` if it is
/// the last.
pub open spec fn span_end(fields: Seq<FieldSpan>, i: int, stop: int) -> int {
    if i + 1 < fields.len() {
        fields[i + 1].start as int
    } else {
        stop
    }
}

/// The fields lie one behind the other and fill `text` from its start up
/// to `stop`, each in wire format.
pub open spec fn fields_fill(
    text: Seq<u8>,
    fields: Seq<FieldSpan>,
    stop: int,
    limits: JournalExportLimits,
) -> bool {
    &&& if fields.len() == 0 {
        stop == 0
    } else {
        fields[0].start == 0
    }
    &&& forall|i: int|
        0 <= i < fields.len() ==> field_at(
            text,
            #[trigger] fields[i],
            span_end(fields, i, stop),
            limits,
        )
}

/// `text` is one entry in wire format, blank line included, and `fields`
/// are its fields in order: at least one field, the first byte a letter or
/// `_`, every name, every value and the entry as a whole within the limits.
pub open spec fn is_entry(text: Seq<u8>, fields: Seq<FieldSpan>, limits: JournalExportLimits) -> bool {
    &&& fields.len() > 0
    &&& 0 < text.len() <= limits.max_entry_size
    &&& text.last() == NEWLINE
    &&& is_name_start(text[0])
    &&& fields_fill(text, fields, text.len() - 1, limits)
}

/// One entry: its bytes in wire format, blank line included, and where
/// its fields lie in them.
pub struct EntryView {
    pub text: Seq<u8>,
    pub fields: Seq<FieldSpan>,
}

/// A field as its reader sees it: name, value and kind.
pub type Item = (Seq<u8>, Seq<u8>, FieldType);

impl EntryView {
    /// The bytes are an entry in wire format with these fields, whatever
    /// the limits were under which it was parsed.
    #[verifier::opaque]
    pub open spec fn wf(self) -> bool {
        is_entry(self.text, self.fields, JournalExportLimits::unlimited())
    }

    /// The bytes of the entry as they came, without the blank line that
    /// ends it.
    pub open spec fn bytes(self) -> Seq<u8> {
        self.text.subrange(0, self.text.len() - 1)
    }

    /// The name of field `i`.
    pub open spec fn name(self, i: int) -> Seq<u8> {
        self.text.subrange(self.fields[i].start as int, self.fields[i].name_end())
    }

    /// The value of field `i`: from behind the name, and behind the length
    /// of a binary value, up to the line feed that ends the field.
    pub open spec fn value(self, i: int) -> Seq<u8> {
        self.text.subrange(
            self.fields[i].value_start(),
            span_end(self.fields, i, self.text.len() - 1) - 1,
        )
    }

    /// Field `i` as its reader sees it.
    pub open spec fn item(self, i: int) -> Item {
        (self.name(i), self.value(i), self.fields[i].kind)
    }

    /// The fields of the entry in the order in which they came.
    pub open spec fn items(self) -> Seq<Item> {
        Seq::new(self.fields.len(), |i: int| self.item(i))
    }
}

/// An entry has a field, begins with it, and holds more than a blank line.
pub proof fn lemma_entry_bounds(e: EntryView)
    requires
        e.wf(),
    ensures
        e.fields.len() > 0,
        e.fields[0].start == 0,
        e.text.len() >= 3,
{
    reveal(EntryView::wf);
    let limits = JournalExportLimits::unlimited();
    let last = e.fields.len() - 1;
    assert(field_at(e.text, e.fields[last], span_end(e.fields, last, e.text.len() - 1), limits));
}

/// Where a field of an entry lies: its name is not empty, its value ends
/// before the line feed that ends the field, and the field ends within the
/// entry, before the blank line.
pub proof fn lemma_field_bounds(e: EntryView, i: int)
    requires
        e.wf(),
        0 <= i < e.fields.len(),
    ensures
        e.fields[0].start == 0,
        0 < e.fields[i].namelen,
        e.fields[i].value_start() < span_end(e.fields, i, e.text.len() - 1) <= e.text.len(),
        e.text.len() >= 3,
{
    reveal(EntryView::wf);
    let limits = JournalExportLimits::unlimited();
    assert(field_at(e.text, e.fields[i], span_end(e.fields, i, e.text.len() - 1), limits));
    let last = e.fields.len() - 1;
    assert(field_at(e.text, e.fields[last], span_end(e.fields, last, e.text.len() - 1), limits));
}

/// An entry within some limits is an entry within none.
pub proof fn lemma_is_entry_unlimited(
    text: Seq<u8>,
    fields: Seq<FieldSpan>,
    limits: JournalExportLimits,
)
    requires
        is_entry(text, fields, limits),
    ensures
        is_entry(text, fields, JournalExportLimits::unlimited()),
        (EntryView { text, fields }).wf(),
{
    reveal(EntryView::wf);
    let wide = JournalExportLimits::unlimited();
    assert forall|i: int| 0 <= i < fields.len() implies field_at(
        text,
        #[trigger] fields[i],
        span_end(fields, i, text.len() - 1),
        wide,
    ) by {
        assert(field_at(text, fields[i], span_end(fields, i, text.len() - 1), limits));
    }
}

} // verus!
