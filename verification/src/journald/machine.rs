//! The scanner as a state machine over single bytes.
//!
//! A [Scan] is everything the scanner knows in the middle of an entry: its
//! state, the bytes of the entry consumed so far, and the fields already
//! validated. [step] consumes one byte; [run] consumes input until an entry
//! is complete, the scan fails or the input is used up. Nothing else decides
//! what a parser does with the bytes it is given, so a scan that stops for
//! want of input goes on, with more input, exactly where it stopped.

use crate::config::JournalExportLimits;
use crate::journald::wire::field_at;
use crate::journald::wire::fields_fill;
use crate::journald::wire::is_entry;
use crate::journald::wire::is_name_byte;
use crate::journald::wire::is_name_start;
use crate::journald::wire::span_end;
use crate::journald::wire::FieldSpan;
use crate::journald::wire::FieldType;
use crate::journald::wire::EQUALS;
use crate::journald::wire::LENGTH_SIZE;
use crate::journald::wire::NEWLINE;
use crate::journald::JournalExportReadError;
use vstd::bytes::spec_u64_from_le_bytes;
use vstd::prelude::*;

verus! {

/// The states of the scanner. `Eof` is the terminal state that every
/// failure leads to; it keeps the failure.
#[derive(Clone, Copy, Debug, PartialEq, Eq, Structural)]
pub enum ParserState {
    EntryStart,
    FieldStart,
    Fieldname,
    BinaryValueLen,
    BinaryValue,
    StringField,
    Eof(JournalExportReadError),
}

/// The scanner in the middle of its work. Indices count from the first
/// byte of the entry at hand.
pub struct Scan {
    pub state: ParserState,
    /// The bytes of the entry at hand that were consumed so far. Between
    /// entries: the entry that was completed last, blank line included.
    pub text: Seq<u8>,
    /// Where the field at hand starts.
    pub field_start: nat,
    /// The length of the name of the field at hand, once it is known.
    pub namelen: nat,
    /// The length of the binary value at hand, once it is known.
    pub remaining: nat,
    /// The fields that were validated so far, in order.
    pub fields: Seq<FieldSpan>,
}

impl Scan {
    /// The scan of a parser that has not seen a byte.
    pub open spec fn start() -> Scan {
        Scan {
            state: ParserState::EntryStart,
            text: Seq::empty(),
            field_start: 0,
            namelen: 0,
            remaining: 0,
            fields: Seq::empty(),
        }
    }

    /// The scan after it failed: nothing changes but the state.
    pub open spec fn fail(self, e: JournalExportReadError) -> Scan {
        Scan { state: ParserState::Eof(e), ..self }
    }

    /// The scan after it consumed `c` without further effect.
    pub open spec fn take(self, c: u8) -> Scan {
        Scan { text: self.text.push(c), ..self }
    }

    /// The field at hand, of the given kind.
    pub open spec fn span(self, kind: FieldType) -> FieldSpan {
        FieldSpan { start: self.field_start, namelen: self.namelen, kind }
    }

    /// The index just behind the line feed that ends the name of the
    /// binary field at hand: where the length of its value starts.
    pub open spec fn length_start(self) -> int {
        (self.field_start + self.namelen + 1) as int
    }

    /// An entry is complete and has not been discarded.
    pub open spec fn has_entry(self) -> bool {
        self.state == ParserState::EntryStart && self.fields.len() > 0
    }

    /// The scan after the entry that was handed out is discarded. In the
    /// middle of an entry nothing is discarded: fields that were validated
    /// stay until the entry is handed out.
    pub open spec fn cleared(self) -> Scan {
        if self.state == ParserState::EntryStart {
            Scan { text: Seq::empty(), field_start: 0, fields: Seq::empty(), ..self }
        } else {
            self
        }
    }

    /// What holds of every scan that a parser reaches: the fields recorded
    /// so far fill the text up to the field at hand, and the field at hand
    /// is in wire format as far as it was consumed.
    #[verifier::opaque]
    pub open spec fn inv(self, limits: JournalExportLimits) -> bool {
        &&& self.state is Eof || self.text.len() <= limits.max_entry_size
        &&& self.inv_of_state(limits)
    }

    /// What the invariant says of the state that the scan is in.
    pub open spec fn inv_of_state(self, limits: JournalExportLimits) -> bool {
        match self.state {
            ParserState::EntryStart => if self.fields.len() == 0 {
                self.text.len() == 0
            } else {
                is_entry(self.text, self.fields, limits)
            },
            ParserState::FieldStart => {
                &&& self.fields.len() > 0
                &&& is_name_start(self.text[0])
                &&& fields_fill(self.text, self.fields, self.text.len() as int, limits)
            },
            ParserState::Fieldname => {
                &&& self.field_start < self.text.len()
                &&& self.in_field(limits)
                &&& forall|i: int|
                    self.field_start <= i < self.text.len() ==> is_name_byte(#[trigger] self.text[i])
            },
            ParserState::StringField => {
                &&& self.in_value(limits)
                &&& self.text[self.length_start() - 1] == EQUALS
                &&& self.text.len() - self.length_start() <= limits.max_field_value_size
                &&& forall|i: int|
                    self.length_start() <= i < self.text.len() ==> #[trigger] self.text[i]
                        != NEWLINE
            },
            ParserState::BinaryValueLen => {
                &&& self.in_value(limits)
                &&& self.text[self.length_start() - 1] == NEWLINE
                &&& self.text.len() < self.length_start() + LENGTH_SIZE
            },
            ParserState::BinaryValue => {
                &&& self.in_value(limits)
                &&& self.text[self.length_start() - 1] == NEWLINE
                &&& self.length_start() + LENGTH_SIZE <= self.text.len()
                &&& self.remaining == spec_u64_from_le_bytes(
                    self.text.subrange(self.length_start(), self.length_start() + LENGTH_SIZE),
                )
                &&& self.remaining <= limits.max_field_value_size
                &&& self.text.len() <= self.length_start() + LENGTH_SIZE + self.remaining
                &&& self.length_start() + LENGTH_SIZE + self.remaining + 2
                    <= limits.max_entry_size
            },
            ParserState::Eof(_) => true,
        }
    }

    /// A field is at hand: the fields before it fill the text up to it.
    pub open spec fn in_field(self, limits: JournalExportLimits) -> bool {
        &&& self.text.len() > 0
        &&& is_name_start(self.text[0])
        &&& fields_fill(self.text, self.fields, self.field_start as int, limits)
    }

    /// The name of the field at hand is complete and its value is at hand.
    pub open spec fn in_value(self, limits: JournalExportLimits) -> bool {
        &&& self.in_field(limits)
        &&& 0 < self.namelen <= limits.max_field_name_len
        &&& self.length_start() <= self.text.len()
        &&& forall|i: int|
            self.field_start <= i < self.field_start + self.namelen ==> is_name_byte(
                #[trigger] self.text[i],
            )
    }
}

/// The scan after it has looked at the byte `c`, by the grammar and the
/// limits on names and values alone. A failure consumes nothing: the scan
/// stays as it is and only its state changes. A name that begins has no
/// length yet, and a binary value that is complete has nothing remaining.
/// A binary value whose length says that the entry cannot stay within its
/// limit fails the scan where the length is read.
pub open spec fn scan_byte(m: Scan, c: u8, limits: JournalExportLimits) -> Scan {
    match m.state {
        ParserState::EntryStart => if is_name_start(c) {
            Scan {
                state: ParserState::Fieldname,
                text: seq![c],
                field_start: 0,
                namelen: 0,
                remaining: 0,
                fields: Seq::empty(),
            }
        } else {
            m.fail(JournalExportReadError::UnexpectedCharacter(c))
        },
        ParserState::FieldStart => if c == NEWLINE {
            if m.fields.len() > 0 {
                Scan { state: ParserState::EntryStart, ..m.take(c) }
            } else {
                m.fail(JournalExportReadError::UnexpectedCharacter(c))
            }
        } else if is_name_byte(c) {
            Scan {
                state: ParserState::Fieldname,
                field_start: m.text.len(),
                namelen: 0,
                ..m.take(c)
            }
        } else {
            m.fail(JournalExportReadError::UnexpectedCharacter(c))
        },
        ParserState::Fieldname => {
            let namelen = (m.text.len() - m.field_start) as nat;
            if namelen > limits.max_field_name_len {
                m.fail(JournalExportReadError::FieldNameTooLong)
            } else if is_name_byte(c) {
                Scan { namelen, ..m.take(c) }
            } else if c == EQUALS {
                Scan { state: ParserState::StringField, namelen, ..m.take(c) }
            } else if c == NEWLINE {
                Scan { state: ParserState::BinaryValueLen, namelen, ..m.take(c) }
            } else {
                m.fail(JournalExportReadError::UnexpectedCharacter(c))
            }
        },
        ParserState::BinaryValueLen => {
            let taken = m.take(c);
            if taken.text.len() < m.length_start() + LENGTH_SIZE {
                taken
            } else {
                let remaining = spec_u64_from_le_bytes(
                    taken.text.subrange(m.length_start(), m.length_start() + LENGTH_SIZE),
                );
                if remaining > limits.max_field_value_size {
                    m.fail(JournalExportReadError::FieldValueTooLong)
                } else if taken.text.len() + remaining + 2 > limits.max_entry_size {
                    m.fail(JournalExportReadError::EntryTooLarge)
                } else {
                    Scan { state: ParserState::BinaryValue, remaining: remaining as nat, ..taken }
                }
            }
        },
        ParserState::BinaryValue => if m.text.len() < m.length_start() + LENGTH_SIZE
            + m.remaining {
            m.take(c)
        } else if c == NEWLINE {
            Scan {
                state: ParserState::FieldStart,
                remaining: 0,
                fields: m.fields.push(m.span(FieldType::Binary)),
                ..m.take(c)
            }
        } else {
            m.fail(JournalExportReadError::UnexpectedCharacter(c))
        },
        ParserState::StringField => if c == NEWLINE {
            Scan {
                state: ParserState::FieldStart,
                fields: m.fields.push(m.span(FieldType::String)),
                ..m.take(c)
            }
        } else if m.text.len() + 1 - m.length_start() > limits.max_field_value_size {
            m.fail(JournalExportReadError::FieldValueTooLong)
        } else {
            m.take(c)
        },
        ParserState::Eof(_) => m,
    }
}

/// The scan after it has looked at the byte `c`. The byte is consumed as
/// the grammar and the limits on names and values have it, unless the entry
/// at hand would then be larger than an entry may be: the first byte beyond
/// that limit fails the scan.
pub open spec fn step(m: Scan, c: u8, limits: JournalExportLimits) -> Scan {
    let n = scan_byte(m, c, limits);
    if !(n.state is Eof) && n.text.len() > limits.max_entry_size {
        m.fail(JournalExportReadError::EntryTooLarge)
    } else {
        n
    }
}

/// Looking at `c` completes an entry: `c` is the blank line behind at
/// least one field.
pub open spec fn completes(m: Scan, c: u8) -> bool {
    m.state == ParserState::FieldStart && c == NEWLINE && m.fields.len() > 0
}

/// Where a scan stands after it ran over some input.
pub struct Progress {
    pub scan: Scan,
    /// The number of bytes of the input that were consumed.
    pub used: int,
    /// The run ended because an entry is complete.
    pub complete: bool,
}

impl Progress {
    /// The run ended because the scan failed, and with which failure.
    pub open spec fn failure(self) -> Option<JournalExportReadError> {
        match self.scan.state {
            ParserState::Eof(e) => Some(e),
            _ => None,
        }
    }

    /// The run ended only because no input was left.
    pub open spec fn starved(self) -> bool {
        !self.complete && self.failure() is None
    }
}

/// Runs the scan over `input` from index `from` on, byte by byte, until an
/// entry is complete, the scan fails, or the input is used up. The byte at
/// which the scan fails is not consumed.
pub open spec fn run_from(m: Scan, input: Seq<u8>, from: int, limits: JournalExportLimits) -> Progress
    decreases input.len() - from,
{
    if m.state is Eof || from < 0 || from >= input.len() {
        Progress { scan: m, used: from, complete: false }
    } else if step(m, input[from], limits).state is Eof {
        Progress { scan: step(m, input[from], limits), used: from, complete: false }
    } else if completes(m, input[from]) {
        Progress { scan: step(m, input[from], limits), used: from + 1, complete: true }
    } else {
        run_from(step(m, input[from], limits), input, from + 1, limits)
    }
}

/// What a parser tells its caller at the end of a run.
pub enum Verdict {
    /// An entry is complete.
    Entry,
    /// The scan failed, now or before.
    Failed(JournalExportReadError),
    /// The input ended between two entries.
    End,
    /// The scan stopped for want of input.
    NeedsInput,
}

impl Progress {
    /// The verdict at the end of the run. `exhausted` says that the source
    /// has nothing more to give: the run before asked for input and got none.
    /// Then the input has ended, cleanly between two entries and as a
    /// failure anywhere else.
    pub open spec fn verdict(self, exhausted: bool) -> Verdict {
        if self.complete {
            Verdict::Entry
        } else if let Some(e) = self.failure() {
            Verdict::Failed(e)
        } else if !exhausted {
            Verdict::NeedsInput
        } else if self.scan.state == ParserState::EntryStart {
            Verdict::End
        } else {
            Verdict::Failed(JournalExportReadError::UnexpectedEof)
        }
    }

    /// The scan that the parser is left with: a failure is final.
    pub open spec fn settled(self, exhausted: bool) -> Scan {
        match self.verdict(exhausted) {
            Verdict::Failed(e) => self.scan.fail(e),
            _ => self.scan,
        }
    }
}

/// Runs the scan over the whole of `input`.
pub open spec fn run(m: Scan, input: Seq<u8>, limits: JournalExportLimits) -> Progress {
    run_from(m, input, 0, limits)
}

/// A stretch of bytes that the scan only passes over: the length of a
/// binary value before its last byte, or the value itself. Consuming them
/// one by one comes to consuming them at once.
pub proof fn lemma_run_skip(m: Scan, input: Seq<u8>, from: int, k: int, limits: JournalExportLimits)
    requires
        0 <= from,
        0 <= k,
        from + k <= input.len(),
        m.text.len() + k <= limits.max_entry_size,
        m.state == ParserState::BinaryValueLen && m.text.len() + k < m.length_start() + LENGTH_SIZE
            || m.state == ParserState::BinaryValue && m.text.len() + k <= m.length_start()
            + LENGTH_SIZE + m.remaining,
    ensures
        run_from(m, input, from, limits) == run_from(
            Scan { text: m.text + input.subrange(from, from + k), ..m },
            input,
            from + k,
            limits,
        ),
    decreases k,
{
    if k == 0 {
        assert(m.text + input.subrange(from, from + k) =~= m.text);
    } else {
        let c = input[from];
        let n = step(m, c, limits);
        assert(n == m.take(c));
        lemma_run_skip(n, input, from + 1, k - 1, limits);
        assert(n.text + input.subrange(from + 1, from + k) =~= m.text + input.subrange(
            from,
            from + k,
        ));
    }
}

/// Passing over such a stretch keeps the invariant of the scan.
pub proof fn lemma_skip_inv(m: Scan, input: Seq<u8>, from: int, k: int, limits: JournalExportLimits)
    requires
        m.inv(limits),
        0 <= from,
        0 <= k,
        from + k <= input.len(),
        m.text.len() + k <= limits.max_entry_size,
        m.state == ParserState::BinaryValueLen && m.text.len() + k < m.length_start() + LENGTH_SIZE
            || m.state == ParserState::BinaryValue && m.text.len() + k <= m.length_start()
            + LENGTH_SIZE + m.remaining,
    ensures
        (Scan { text: m.text + input.subrange(from, from + k), ..m }).inv(limits),
    decreases k,
{
    if k == 0 {
        assert(m.text + input.subrange(from, from + k) =~= m.text);
    } else {
        let c = input[from];
        let n = step(m, c, limits);
        assert(n == m.take(c));
        lemma_step_inv(m, c, limits);
        lemma_skip_inv(n, input, from + 1, k - 1, limits);
        assert(n.text + input.subrange(from + 1, from + k) =~= m.text + input.subrange(
            from,
            from + k,
        ));
    }
}

/// Earlier fields are in wire format in a longer text as they were in the
/// shorter one.
pub proof fn lemma_field_at_longer(
    text: Seq<u8>,
    longer: Seq<u8>,
    f: FieldSpan,
    to: int,
    limits: JournalExportLimits,
)
    requires
        field_at(text, f, to, limits),
        text.len() <= longer.len(),
        longer.subrange(0, text.len() as int) == text,
    ensures
        field_at(longer, f, to, limits),
{
    assert forall|i: int| 0 <= i < text.len() implies longer[i] == text[i] by {
        assert(longer.subrange(0, text.len() as int)[i] == longer[i]);
    }
    assert(longer.subrange(f.name_end() + 1, f.value_start()) =~= text.subrange(
        f.name_end() + 1,
        f.value_start(),
    ));
}

/// Fields that fill a text up to `stop` fill every longer text up to `stop`.
pub proof fn lemma_fields_fill_longer(
    text: Seq<u8>,
    longer: Seq<u8>,
    fields: Seq<FieldSpan>,
    stop: int,
    limits: JournalExportLimits,
)
    requires
        fields_fill(text, fields, stop, limits),
        text.len() <= longer.len(),
        longer.subrange(0, text.len() as int) == text,
    ensures
        fields_fill(longer, fields, stop, limits),
{
    assert forall|i: int| 0 <= i < fields.len() implies field_at(
        longer,
        #[trigger] fields[i],
        span_end(fields, i, stop),
        limits,
    ) by {
        lemma_field_at_longer(text, longer, fields[i], span_end(fields, i, stop), limits);
    }
}

/// With one more field behind them, the fields fill the text up to the end
/// of that field.
pub proof fn lemma_fields_fill_push(
    text: Seq<u8>,
    fields: Seq<FieldSpan>,
    f: FieldSpan,
    to: int,
    limits: JournalExportLimits,
)
    requires
        fields_fill(text, fields, f.start as int, limits),
        field_at(text, f, to, limits),
    ensures
        fields_fill(text, fields.push(f), to, limits),
{
    let more = fields.push(f);
    assert forall|i: int| 0 <= i < more.len() implies field_at(
        text,
        #[trigger] more[i],
        span_end(more, i, to),
        limits,
    ) by {
        if i < fields.len() {
            assert(more[i] == fields[i]);
            assert(span_end(more, i, to) == span_end(fields, i, f.start as int));
        }
    }
}

/// Between fields, a step keeps the invariant of the scan.
proof fn lemma_step_inv_between(m: Scan, c: u8, limits: JournalExportLimits)
    requires
        m.inv(limits),
        m.state == ParserState::EntryStart || m.state == ParserState::FieldStart,
    ensures
        step(m, c, limits).inv(limits),
{
    reveal(Scan::inv);
    let n = step(m, c, limits);
    let longer = m.text.push(c);
    assert(longer.subrange(0, m.text.len() as int) =~= m.text);
    if n.state is Eof {
    } else if m.state == ParserState::EntryStart {
        assert(n.text[0] == c);
    } else {
        lemma_fields_fill_longer(m.text, longer, m.fields, m.text.len() as int, limits);
        assert(longer.last() == c);
    }
}

/// Inside a name, a step keeps the invariant of the scan.
proof fn lemma_step_inv_name(m: Scan, c: u8, limits: JournalExportLimits)
    requires
        m.inv(limits),
        m.state == ParserState::Fieldname,
    ensures
        step(m, c, limits).inv(limits),
{
    reveal(Scan::inv);
    let n = step(m, c, limits);
    let longer = m.text.push(c);
    assert(longer.subrange(0, m.text.len() as int) =~= m.text);
    if !(n.state is Eof) {
        lemma_fields_fill_longer(m.text, longer, m.fields, m.field_start as int, limits);
        assert(n.text == longer);
        assert(n.in_field(limits));
        if n.state != ParserState::Fieldname {
            assert(n.in_value(limits));
        }
    }
}

/// Inside the length of a binary value, a step keeps the invariant of the scan.
proof fn lemma_step_inv_length(m: Scan, c: u8, limits: JournalExportLimits)
    requires
        m.inv(limits),
        m.state == ParserState::BinaryValueLen,
    ensures
        step(m, c, limits).inv(limits),
{
    reveal(Scan::inv);
    let n = step(m, c, limits);
    let longer = m.text.push(c);
    assert(longer.subrange(0, m.text.len() as int) =~= m.text);
    if !(n.state is Eof) {
        lemma_fields_fill_longer(m.text, longer, m.fields, m.field_start as int, limits);
        assert(n.text == longer);
        assert(n.in_value(limits));
    }
}

/// Inside a text value, a step keeps the invariant of the scan.
proof fn lemma_step_inv_text(m: Scan, c: u8, limits: JournalExportLimits)
    requires
        m.inv(limits),
        m.state == ParserState::StringField,
    ensures
        step(m, c, limits).inv(limits),
{
    reveal(Scan::inv);
    let n = step(m, c, limits);
    let longer = m.text.push(c);
    assert(longer.subrange(0, m.text.len() as int) =~= m.text);
    if !(n.state is Eof) {
        lemma_fields_fill_longer(m.text, longer, m.fields, m.field_start as int, limits);
        if n.state == ParserState::FieldStart {
            let f = m.span(FieldType::String);
            assert(field_at(longer, f, longer.len() as int, limits));
            lemma_fields_fill_push(longer, m.fields, f, longer.len() as int, limits);
        }
    }
}

/// Inside a binary value, a step keeps the invariant of the scan.
proof fn lemma_step_inv_binary(m: Scan, c: u8, limits: JournalExportLimits)
    requires
        m.inv(limits),
        m.state == ParserState::BinaryValue,
    ensures
        step(m, c, limits).inv(limits),
{
    reveal(Scan::inv);
    let n = step(m, c, limits);
    let longer = m.text.push(c);
    assert(longer.subrange(0, m.text.len() as int) =~= m.text);
    if !(n.state is Eof) {
        lemma_fields_fill_longer(m.text, longer, m.fields, m.field_start as int, limits);
        assert(longer.subrange(m.length_start(), m.length_start() + LENGTH_SIZE)
            =~= m.text.subrange(m.length_start(), m.length_start() + LENGTH_SIZE));
        if n.state == ParserState::FieldStart {
            let f = m.span(FieldType::Binary);
            assert(longer.subrange(f.name_end() + 1, f.value_start()) =~= m.text.subrange(
                m.length_start(),
                m.length_start() + LENGTH_SIZE,
            ));
            assert(field_at(longer, f, longer.len() as int, limits));
            lemma_fields_fill_push(longer, m.fields, f, longer.len() as int, limits);
        }
    }
}

/// A step keeps the invariant of the scan.
pub proof fn lemma_step_inv(m: Scan, c: u8, limits: JournalExportLimits)
    requires
        m.inv(limits),
    ensures
        step(m, c, limits).inv(limits),
{
    match m.state {
        ParserState::EntryStart | ParserState::FieldStart => lemma_step_inv_between(m, c, limits),
        ParserState::Fieldname => lemma_step_inv_name(m, c, limits),
        ParserState::BinaryValueLen => lemma_step_inv_length(m, c, limits),
        ParserState::StringField => lemma_step_inv_text(m, c, limits),
        ParserState::BinaryValue => lemma_step_inv_binary(m, c, limits),
        ParserState::Eof(_) => {},
    }
}

/// What the invariant says of the lengths at hand, state by state.
pub proof fn lemma_inv_bounds(m: Scan, limits: JournalExportLimits)
    requires
        m.inv(limits),
    ensures
        m.state == ParserState::EntryStart && m.fields.len() == 0 ==> m.text.len() == 0,
        m.state == ParserState::EntryStart && m.fields.len() > 0 ==> is_entry(
            m.text,
            m.fields,
            limits,
        ),
        m.state == ParserState::FieldStart ==> m.fields.len() > 0,
        m.state == ParserState::Fieldname ==> m.field_start < m.text.len(),
        m.state == ParserState::StringField || m.state == ParserState::BinaryValueLen || m.state
            == ParserState::BinaryValue ==> 0 < m.namelen <= limits.max_field_name_len
            && m.length_start() <= m.text.len(),
        m.state == ParserState::StringField ==> m.text.len() - m.length_start()
            <= limits.max_field_value_size,
        m.state == ParserState::BinaryValueLen ==> m.text.len() < m.length_start() + LENGTH_SIZE,
        m.state == ParserState::BinaryValue ==> m.length_start() + LENGTH_SIZE <= m.text.len()
            <= m.length_start() + LENGTH_SIZE + m.remaining && m.remaining
            <= limits.max_field_value_size && m.length_start() + LENGTH_SIZE + m.remaining + 2
            <= limits.max_entry_size,
        !(m.state is Eof) ==> m.text.len() <= limits.max_entry_size,
{
    reveal(Scan::inv);
}

/// A scan that has looked at nothing yet, or has failed, meets the invariant.
pub proof fn lemma_inv_ends(m: Scan, limits: JournalExportLimits)
    ensures
        Scan::start().inv(limits),
        m.state is Eof ==> m.inv(limits),
        m.inv(limits) ==> m.cleared().inv(limits),
{
    reveal(Scan::inv);
}

/// A run keeps the invariant of the scan, consumes no more than there is,
/// and ends with a complete entry only in the state between entries.
pub proof fn lemma_run_inv(m: Scan, input: Seq<u8>, from: int, limits: JournalExportLimits)
    requires
        m.inv(limits),
        0 <= from <= input.len(),
    ensures
        run_from(m, input, from, limits).scan.inv(limits),
        from <= run_from(m, input, from, limits).used <= input.len(),
        run_from(m, input, from, limits).complete ==> run_from(m, input, from, limits).scan.has_entry(),
        run_from(m, input, from, limits).starved() ==> run_from(m, input, from, limits).used
            == input.len(),
    decreases input.len() - from,
{
    if m.state is Eof || from >= input.len() {
    } else {
        lemma_step_inv(m, input[from], limits);
        if !completes(m, input[from]) && !(step(m, input[from], limits).state is Eof) {
            lemma_run_inv(step(m, input[from], limits), input, from + 1, limits);
        }
    }
}

} // verus!
