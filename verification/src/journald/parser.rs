//! The parser proper: the scanner of [machine](crate::journald::machine)
//! run over the window of a [ShiftBuffer].
//!
//! A [JournalExportParser] owns the buffer. [JournalExportParser::parse]
//! scans what the buffer holds and returns with a complete entry, with a
//! failure, with the end of the input, or with the free part of the buffer
//! for its caller to fill. In the last case the caller writes what it has
//! into that slice, reports the number of bytes with
//! [JournalExportParser::extend] and calls `parse` again, which goes on
//! where it stopped.

use crate::config::JournalExportLimits;
use crate::journald::machine::completes;
use crate::journald::machine::lemma_inv_bounds;
use crate::journald::machine::lemma_inv_ends;
use crate::journald::machine::lemma_run_inv;
use crate::journald::machine::lemma_run_skip;
use crate::journald::machine::lemma_skip_inv;
use crate::journald::machine::lemma_step_inv;
use crate::journald::machine::run;
use crate::journald::machine::run_from;
use crate::journald::machine::step;
use crate::journald::machine::ParserState;
use crate::journald::machine::Progress;
use crate::journald::machine::Scan;
use crate::journald::machine::Verdict;
use crate::journald::wire::lemma_entry_bounds;
use crate::journald::wire::lemma_field_bounds;
use crate::journald::wire::lemma_is_entry_unlimited;
use crate::journald::wire::name_byte;
use crate::journald::wire::name_start;
use crate::journald::wire::EntryView;
use crate::journald::wire::FieldSpan;
use crate::journald::wire::Item;
use crate::journald::wire::EQUALS;
use crate::journald::wire::LENGTH_SIZE;
use crate::journald::wire::NEWLINE;
use crate::journald::Entry;
use crate::journald::JournalExportReadError;
use crate::shiftbuffer::Pointer;
use crate::shiftbuffer::ShiftBuffer;
use crate::shiftbuffer::ShiftBufferView;
use vstd::prelude::*;

pub use crate::journald::wire::FieldType;

verus! {

broadcast use {Pointer::lemma_position, Pointer::lemma_at};

/// A field that was validated: where it starts in the stream, how long its
/// name is and of which kind it is.
#[derive(Clone, Copy)]
pub struct FieldOffset {
    start: Pointer,
    namelen: usize,
    typ: FieldType,
}

impl FieldOffset {
    /// The field as a span of an entry that starts at position `base`.
    pub closed spec fn span(self, base: nat) -> FieldSpan {
        FieldSpan {
            start: (self.start@ - base) as nat,
            namelen: self.namelen as nat,
            kind: self.typ,
        }
    }
}

/// The fields as spans of an entry that starts at position `base`.
pub open spec fn spans(offsets: Seq<FieldOffset>, base: nat) -> Seq<FieldSpan> {
    Seq::new(offsets.len(), |i: int| offsets[i].span(base))
}

#[derive(Clone, Copy, PartialEq, Eq, Structural)]
enum BufferState {
    Underfilled,
    Filled,
}

/// How a run of the scanner over the window ended.
#[derive(Clone, Copy, PartialEq, Eq, Structural)]
enum Advance {
    Entry,
    Failed(JournalExportReadError),
    Starved,
}

pub struct JournalExportParser {
    buf: ShiftBuffer<u8>,
    entry_start: Pointer,
    field_start: Pointer,
    cursor: Pointer,
    namelen: usize,
    remaining: u64,
    parse_state: ParserState,
    buffer_state: BufferState,
    field_offsets: Vec<FieldOffset>,
    limits: JournalExportLimits,
}

pub enum ParseResult<'a, T> {
    /// An entry is complete; [JournalExportParser::get_entry] shows it.
    Complete(T),
    /// The parse failed, now or in an earlier call.
    Failed(JournalExportReadError),
    /// More input is needed: the free part of the buffer, to be filled
    /// from its start.
    Underfilled(&'a mut [u8]),
    /// The input ended between two entries.
    Eof,
}

impl<'a, T> ParseResult<'a, T> {
    /// The result without what it carries.
    pub open spec fn verdict(self) -> Verdict {
        match self {
            ParseResult::Complete(_) => Verdict::Entry,
            ParseResult::Failed(e) => Verdict::Failed(e),
            ParseResult::Underfilled(_) => Verdict::NeedsInput,
            ParseResult::Eof => Verdict::End,
        }
    }
}

impl JournalExportParser {
    /// The buffer that the parser scans.
    pub closed spec fn buffer(&self) -> ShiftBufferView<u8> {
        self.buf@
    }

    /// Where the scanner stands.
    pub closed spec fn scan(&self) -> Scan {
        Scan {
            state: self.parse_state,
            text: self.buf@.span(self.entry_start@, self.cursor@),
            field_start: (self.field_start@ - self.entry_start@) as nat,
            namelen: self.namelen as nat,
            remaining: self.remaining as nat,
            fields: spans(self.field_offsets@, self.entry_start@),
        }
    }

    /// The parser asked for input when it was called last, or found the
    /// input at its end.
    pub closed spec fn waiting(&self) -> bool {
        self.buffer_state == BufferState::Filled
    }

    /// The limits that the parser enforces.
    pub closed spec fn limits(&self) -> JournalExportLimits {
        self.limits
    }

    /// The position in the stream of the next byte to scan. The window
    /// starts where the entry at hand starts.
    pub open spec fn cursor(&self) -> nat {
        self.buffer().lower + self.scan().text.len()
    }

    /// The bytes that were received and not scanned yet.
    pub open spec fn pending(&self) -> Seq<u8> {
        self.buffer().span(self.cursor(), self.buffer().upper)
    }

    /// The source has nothing more to give: the parser asked for input and
    /// none came.
    pub open spec fn exhausted(&self) -> bool {
        self.waiting() && self.pending().len() == 0
    }

    /// The invariant of a parser: the window of its buffer starts with the
    /// text of the entry at hand, and the scan is one that scanning leads to.
    pub open spec fn wf(&self) -> bool {
        &&& self.buffer().wf()
        &&& self.scan().inv(self.limits())
        &&& self.cursor() <= self.buffer().upper
        &&& self.scan().text == self.buffer().span(self.buffer().lower, self.cursor())
        &&& self.repr()
    }

    /// How the parts of the parser stand for its buffer and its scan.
    pub closed spec fn repr(&self) -> bool {
        &&& self.entry_start@ == self.buf@.lower
        &&& self.entry_start@ <= self.field_start@ <= self.cursor@
        &&& self.cursor@ <= self.buf@.upper
        &&& forall|i: int|
            0 <= i < self.field_offsets@.len() ==> self.entry_start@
                <= (#[trigger] self.field_offsets@[i]).start@
    }

    /// A parser with a buffer of `buf_size` bytes that has seen no input.
    pub fn new(limits: JournalExportLimits, buf_size: usize) -> (r: Self)
        ensures
            r.wf(),
            r.limits() == limits,
            r.scan() == Scan::start(),
            !r.waiting(),
            r.buffer().capacity() == buf_size,
            r.buffer().offset == 0,
            r.buffer().lower == 0,
            r.buffer().upper == 0,
    {
        let buf = ShiftBuffer::new(buf_size);
        let entry_start = buf.lower();
        let field_start = entry_start;
        let cursor = entry_start;
        let r = Self {
            buf,
            entry_start,
            field_start,
            cursor,
            namelen: 0,
            remaining: 0,
            parse_state: ParserState::EntryStart,
            buffer_state: BufferState::Underfilled,
            field_offsets: Vec::new(),
            limits,
        };
        proof {
            assert(r.scan().text =~= Seq::<u8>::empty());
            assert(r.scan().fields =~= Seq::<FieldSpan>::empty());
            lemma_inv_ends(r.scan(), r.limits);
        }
        r
    }

    /// The size of the buffer.
    pub fn capacity(&self) -> (r: usize)
        ensures
            r == self.buffer().capacity(),
    {
        self.buf.capacity()
    }

    /// The position in the stream up to which input was received.
    pub fn received(&self) -> (r: usize)
        ensures
            r == self.buffer().upper,
    {
        self.buf.upper().abs()
    }

    /// Tells the parser that the first `n` bytes of the free part of its
    /// buffer were filled with input.
    pub fn extend(&mut self, n: usize)
        requires
            old(self).wf(),
            n <= old(self).buffer().free().len(),
            old(self).buffer().upper + n <= usize::MAX,
        ensures
            final(self).wf(),
            final(self).buffer() == (ShiftBufferView {
                upper: old(self).buffer().upper + n as nat,
                ..old(self).buffer()
            }),
            final(self).scan() == old(self).scan(),
            final(self).waiting() == old(self).waiting(),
            final(self).limits() == old(self).limits(),
            final(self).pending() == old(self).pending() + old(self).buffer().free().subrange(
                0,
                n as int,
            ),
    {
        self.buf.extend(n);
        assert(self.pending() =~= old(self).pending() + old(self).buffer().free().subrange(
            0,
            n as int,
        ));
    }

    /// The cursor of the model is the cursor of the parser.
    proof fn lemma_cursor(&self)
        requires
            self.wf(),
        ensures
            self.cursor() == self.cursor@,
            self.scan().text.len() == self.cursor@ - self.entry_start@,
            self.pending() == self.buf@.span(self.cursor@, self.buf@.upper),
    {
    }

    /// The parser is well-formed and stands at index `used` of `input`:
    /// what is left of `input` is what is left of the window.
    closed spec fn tracks(&self, input: Seq<u8>, used: int) -> bool {
        &&& self.wf()
        &&& 0 <= used <= input.len()
        &&& self.cursor@ + (input.len() - used) == self.buf@.upper
        &&& forall|i: int|
            used <= i < input.len() ==> #[trigger] input[i] == self.buf@.at(
                (self.cursor@ + i - used) as nat,
            )
    }

    /// Nothing but the scan and the start of the window differs from `before`.
    closed spec fn scanned_from(&self, before: &Self) -> bool {
        &&& self.limits == before.limits
        &&& self.buffer_state == before.buffer_state
        &&& self.buf@ == (ShiftBufferView { lower: self.buf@.lower, ..before.buf@ })
        &&& before.cursor@ <= self.cursor@
    }

    /// The run over `input` from `used` on, given that the parser went
    /// from `before` to this with the given result: it is complete where
    /// an entry is, and goes on from here otherwise.
    closed spec fn continues(
        &self,
        before: &Self,
        r: Option<Advance>,
        input: Seq<u8>,
        used: int,
    ) -> bool {
        let now = used + (self.cursor@ - before.cursor@);
        &&& self.scanned_from(before)
        &&& self.tracks(input, now)
        &&& run_from(before.scan(), input, used, before.limits) == if r == Some(Advance::Entry) {
            Progress { scan: self.scan(), used: now, complete: true }
        } else {
            run_from(self.scan(), input, now, before.limits)
        }
        &&& match r {
            None => before.cursor@ < self.cursor@ && !(self.parse_state is Eof),
            Some(Advance::Entry) => true,
            Some(Advance::Failed(e)) => self.parse_state == ParserState::Eof(e),
            Some(Advance::Starved) => false,
        }
    }

    /// The entry at hand is as large as an entry may be: one byte more is
    /// one too many.
    fn full(&self) -> (r: bool)
        requires
            self.wf(),
        ensures
            r == (self.scan().text.len() + 1 > self.limits.max_entry_size),
    {
        proof {
            self.lemma_cursor();
        }
        let scanned: usize = self.cursor - self.entry_start;
        scanned >= self.limits.max_entry_size
    }

    /// Records a failure: the state that no call leaves again.
    fn fail(&mut self, e: JournalExportReadError, Ghost(input): Ghost<Seq<u8>>, Ghost(used): Ghost<int>) -> (r: Option<Advance>)
        requires
            old(self).tracks(input, used),
            used < input.len(),
            !(old(self).parse_state is Eof),
            step(old(self).scan(), input[used], old(self).limits) == old(self).scan().fail(e),
        ensures
            r == Some(Advance::Failed(e)),
            final(self).continues(old(self), r, input, used),
    {
        self.parse_state = ParserState::Eof(e);
        proof {
            lemma_inv_ends(self.scan(), self.limits);
        }
        Some(Advance::Failed(e))
    }

    /// The first byte of an entry: a letter or `_` begins the entry and its
    /// first field, and the bytes before it are given up.
    fn on_entry_start(&mut self, c: u8, Ghost(input): Ghost<Seq<u8>>, Ghost(used): Ghost<int>) -> (r:
        Option<Advance>)
        requires
            old(self).tracks(input, used),
            used < input.len(),
            c == input[used],
            old(self).parse_state == ParserState::EntryStart,
        ensures
            final(self).continues(old(self), r, input, used),
    {
        if name_start(c) {
            if self.limits.max_entry_size == 0 {
                return self.fail(JournalExportReadError::EntryTooLarge, Ghost(input), Ghost(used));
            }
            proof {
                lemma_step_inv(self.scan(), c, self.limits);
                self.lemma_cursor();
            }
            let gone: usize = self.cursor - self.buf.lower();
            self.buf.shrink(gone);
            self.entry_start = self.cursor;
            self.field_start = self.cursor;
            self.namelen = 0;
            self.remaining = 0;
            self.field_offsets.clear();
            self.cursor = self.cursor + 1;
            self.parse_state = ParserState::Fieldname;
            proof {
                assert(self.scan().text =~= seq![c]);
                assert(self.scan().fields =~= Seq::<FieldSpan>::empty());
                assert(self.scan() == step(old(self).scan(), c, self.limits));
            }
            None
        } else {
            self.fail(JournalExportReadError::UnexpectedCharacter(c), Ghost(input), Ghost(used))
        }
    }

    /// The first byte behind a field: a line feed completes the entry, a
    /// byte of a name begins the next field.
    fn on_field_start(&mut self, c: u8, Ghost(input): Ghost<Seq<u8>>, Ghost(used): Ghost<int>) -> (r:
        Option<Advance>)
        requires
            old(self).tracks(input, used),
            used < input.len(),
            c == input[used],
            old(self).parse_state == ParserState::FieldStart,
        ensures
            final(self).continues(old(self), r, input, used),
    {
        proof {
            self.lemma_cursor();
            lemma_inv_bounds(self.scan(), self.limits);
            lemma_step_inv(self.scan(), c, self.limits);
            assert(self.buf@.span(self.entry_start@, (self.cursor@ + 1) as nat)
                =~= self.scan().text.push(c));
        }
        if c == NEWLINE {
            if self.field_offsets.len() == 0 {
                self.fail(JournalExportReadError::UnexpectedCharacter(c), Ghost(input), Ghost(used))
            } else if self.full() {
                self.fail(JournalExportReadError::EntryTooLarge, Ghost(input), Ghost(used))
            } else {
                self.cursor = self.cursor + 1;
                self.parse_state = ParserState::EntryStart;
                Some(Advance::Entry)
            }
        } else if name_byte(c) {
            if self.full() {
                return self.fail(JournalExportReadError::EntryTooLarge, Ghost(input), Ghost(used));
            }
            self.field_start = self.cursor;
            self.namelen = 0;
            self.cursor = self.cursor + 1;
            self.parse_state = ParserState::Fieldname;
            None
        } else {
            self.fail(JournalExportReadError::UnexpectedCharacter(c), Ghost(input), Ghost(used))
        }
    }

    /// A byte behind the start of a name: the name goes on, or it ends
    /// with `=` before a text value or with a line feed before a binary one.
    fn on_fieldname(&mut self, c: u8, Ghost(input): Ghost<Seq<u8>>, Ghost(used): Ghost<int>) -> (r:
        Option<Advance>)
        requires
            old(self).tracks(input, used),
            used < input.len(),
            c == input[used],
            old(self).parse_state == ParserState::Fieldname,
        ensures
            final(self).continues(old(self), r, input, used),
    {
        proof {
            self.lemma_cursor();
            lemma_inv_bounds(self.scan(), self.limits);
            lemma_step_inv(self.scan(), c, self.limits);
            assert(self.buf@.span(self.entry_start@, (self.cursor@ + 1) as nat)
                =~= self.scan().text.push(c));
        }
        let namelen: usize = self.cursor - self.field_start;
        if namelen > self.limits.max_field_name_len {
            return self.fail(JournalExportReadError::FieldNameTooLong, Ghost(input), Ghost(used));
        }
        let next = if name_byte(c) {
            ParserState::Fieldname
        } else if c == EQUALS {
            ParserState::StringField
        } else if c == NEWLINE {
            ParserState::BinaryValueLen
        } else {
            return self.fail(
                JournalExportReadError::UnexpectedCharacter(c),
                Ghost(input),
                Ghost(used),
            );
        };
        if self.full() {
            return self.fail(JournalExportReadError::EntryTooLarge, Ghost(input), Ghost(used));
        }
        self.namelen = namelen;
        self.cursor = self.cursor + 1;
        self.parse_state = next;
        None
    }

    /// Passes over `k` bytes of the length of a binary value or of the
    /// value itself: bytes that are taken whatever they are.
    fn pass_over(&mut self, k: usize, Ghost(input): Ghost<Seq<u8>>, Ghost(used): Ghost<int>)
        requires
            old(self).tracks(input, used),
            used + k <= input.len(),
            old(self).scan().text.len() + k <= old(self).limits.max_entry_size,
            old(self).parse_state == ParserState::BinaryValueLen && old(self).scan().text.len() + k
                < old(self).scan().length_start() + LENGTH_SIZE || old(self).parse_state
                == ParserState::BinaryValue && old(self).scan().text.len() + k <= old(
                self,
            ).scan().length_start() + LENGTH_SIZE + old(self).scan().remaining,
        ensures
            final(self).tracks(input, used + k),
            final(self).scanned_from(old(self)),
            final(self).cursor@ == old(self).cursor@ + k,
            final(self).scan() == (Scan {
                text: old(self).scan().text + input.subrange(used, used + k),
                ..old(self).scan()
            }),
            run_from(old(self).scan(), input, used, old(self).limits) == run_from(
                final(self).scan(),
                input,
                used + k,
                old(self).limits,
            ),
    {
        let ghost before = self.scan();
        proof {
            self.lemma_cursor();
            lemma_run_skip(before, input, used, k as int, self.limits);
            lemma_skip_inv(before, input, used, k as int, self.limits);
        }
        self.cursor = self.cursor + k;
        proof {
            assert(self.scan().text =~= before.text + input.subrange(used, used + k));
        }
    }

    /// Reads the length of a binary value once its last byte is at hand,
    /// and holds it against the limits: the value must be within its
    /// limit, and the entry must be able to hold the value, the line feed
    /// behind it and the blank line.
    #[verifier::rlimit(50)]
    fn read_length(&mut self, Ghost(input): Ghost<Seq<u8>>, Ghost(used): Ghost<int>) -> (r:
        Option<Advance>)
        requires
            old(self).tracks(input, used),
            used < input.len(),
            old(self).parse_state == ParserState::BinaryValueLen,
            old(self).scan().text.len() + 1 == old(self).scan().length_start() + LENGTH_SIZE,
        ensures
            final(self).continues(old(self), r, input, used),
    {
        let ghost last = self.scan();
        let ghost c = input[used];
        proof {
            self.lemma_cursor();
            lemma_inv_bounds(last, self.limits);
            lemma_step_inv(last, c, self.limits);
        }
        // [fieldname]  '\n'  [64bit le integer]
        // <-namelen-> +  1 + <----8 bytes----->
        let len_start: Pointer = self.field_start + (self.namelen + 1);
        let len_stop: Pointer = len_start + LENGTH_SIZE;
        let remaining: u64 = vstd::bytes::u64_from_le_bytes(&self.buf[len_start..len_stop]);
        proof {
            assert(last.text.push(c).subrange(
                last.length_start(),
                last.length_start() + LENGTH_SIZE,
            ) =~= self.buf@.span(len_start@, len_stop@));
        }
        let value_start: usize = len_stop - self.entry_start;
        if remaining > self.limits.max_field_value_size as u64 {
            self.fail(JournalExportReadError::FieldValueTooLong, Ghost(input), Ghost(used))
        } else if value_start as u128 + remaining as u128 + 2 > self.limits.max_entry_size as u128 {
            self.fail(JournalExportReadError::EntryTooLarge, Ghost(input), Ghost(used))
        } else {
            self.remaining = remaining;
            self.cursor = len_stop;
            self.parse_state = ParserState::BinaryValue;
            proof {
                assert(self.scan().text =~= last.text.push(c));
                assert(self.scan() == step(last, c, self.limits));
            }
            None
        }
    }

    /// The length of a binary value: eight bytes, little-endian, read once
    /// all of them are there, and held against the limits on the value and
    /// on the entry before any byte of the value is awaited.
    #[verifier::rlimit(50)]
    fn on_binary_value_len(&mut self, Ghost(input): Ghost<Seq<u8>>, Ghost(used): Ghost<int>) -> (r:
        Option<Advance>)
        requires
            old(self).tracks(input, used),
            used < input.len(),
            old(self).parse_state == ParserState::BinaryValueLen,
        ensures
            final(self).continues(old(self), r, input, used),
    {
        proof {
            self.lemma_cursor();
            lemma_inv_bounds(self.scan(), self.limits);
        }
        let len_start: Pointer = self.field_start + (self.namelen + 1);
        let scanned: usize = self.cursor - self.entry_start;
        let room: usize = self.limits.max_entry_size - scanned;
        let there: usize = self.buf.upper() - self.cursor;
        let missing: usize = LENGTH_SIZE - (self.cursor - len_start);
        // The bytes that are only passed over: those of the length that
        // are there, but for its last.
        let ahead: usize = if there < missing {
            there
        } else {
            missing - 1
        };
        if room < ahead {
            self.pass_over(room, Ghost(input), Ghost(used));
            self.fail(JournalExportReadError::EntryTooLarge, Ghost(input), Ghost(used + room))
        } else {
            self.pass_over(ahead, Ghost(input), Ghost(used));
            if there < missing {
                None
            } else {
                self.read_length(Ghost(input), Ghost(used + ahead))
            }
        }
    }

    /// A binary value: as many bytes as its length says, whatever they
    /// are, and a line feed behind them.
    fn on_binary_value(&mut self, c: u8, Ghost(input): Ghost<Seq<u8>>, Ghost(used): Ghost<int>) -> (r:
        Option<Advance>)
        requires
            old(self).tracks(input, used),
            used < input.len(),
            c == input[used],
            old(self).parse_state == ParserState::BinaryValue,
        ensures
            final(self).continues(old(self), r, input, used),
    {
        let ghost before = self.scan();
        proof {
            self.lemma_cursor();
            lemma_inv_bounds(before, self.limits);
        }
        let value_start: Pointer = self.field_start + (self.namelen + 1 + LENGTH_SIZE);
        let done: usize = self.cursor - value_start;
        let left: usize = self.remaining as usize - done;
        if left > 0 {
            let have: usize = self.buf.upper() - self.cursor;
            let k: usize = if have < left {
                have
            } else {
                left
            };
            proof {
                lemma_run_skip(before, input, used, k as int, self.limits);
                lemma_skip_inv(before, input, used, k as int, self.limits);
            }
            self.cursor = self.cursor + k;
            proof {
                assert(self.scan().text =~= before.text + input.subrange(used, used + k));
            }
            None
        } else {
            proof {
                lemma_step_inv(before, c, self.limits);
                assert(self.buf@.span(self.entry_start@, (self.cursor@ + 1) as nat)
                    =~= before.text.push(c));
            }
            if c != NEWLINE {
                return self.fail(
                    JournalExportReadError::UnexpectedCharacter(c),
                    Ghost(input),
                    Ghost(used),
                );
            }
            self.cursor = self.cursor + 1;
            self.field_offsets.push(
                FieldOffset { start: self.field_start, namelen: self.namelen, typ: FieldType::Binary },
            );
            self.remaining = 0;
            self.parse_state = ParserState::FieldStart;
            proof {
                assert(self.scan().fields =~= before.fields.push(before.span(FieldType::Binary)));
            }
            None
        }
    }

    /// A text value: every byte up to the next line feed, as long as the
    /// value stays within the limit.
    fn on_string_field(&mut self, c: u8, Ghost(input): Ghost<Seq<u8>>, Ghost(used): Ghost<int>) -> (r:
        Option<Advance>)
        requires
            old(self).tracks(input, used),
            used < input.len(),
            c == input[used],
            old(self).parse_state == ParserState::StringField,
        ensures
            final(self).continues(old(self), r, input, used),
    {
        let ghost before = self.scan();
        proof {
            self.lemma_cursor();
            lemma_inv_bounds(before, self.limits);
            lemma_step_inv(before, c, self.limits);
            assert(self.buf@.span(self.entry_start@, (self.cursor@ + 1) as nat)
                =~= before.text.push(c));
        }
        if c == NEWLINE {
            if self.full() {
                return self.fail(JournalExportReadError::EntryTooLarge, Ghost(input), Ghost(used));
            }
            self.cursor = self.cursor + 1;
            self.field_offsets.push(
                FieldOffset { start: self.field_start, namelen: self.namelen, typ: FieldType::String },
            );
            self.parse_state = ParserState::FieldStart;
            proof {
                assert(self.scan().fields =~= before.fields.push(before.span(FieldType::String)));
            }
            None
        } else {
            let value_start: Pointer = self.field_start + (self.namelen + 1);
            let taken: usize = self.cursor - value_start;
            if taken >= self.limits.max_field_value_size {
                return self.fail(
                    JournalExportReadError::FieldValueTooLong,
                    Ghost(input),
                    Ghost(used),
                );
            }
            if self.full() {
                return self.fail(JournalExportReadError::EntryTooLarge, Ghost(input), Ghost(used));
            }
            self.cursor = self.cursor + 1;
            None
        }
    }

    /// Runs the scanner over the window until an entry is complete, the
    /// scan fails or the window is used up.
    fn advance(&mut self) -> (r: Advance)
        requires
            old(self).wf(),
            !(old(self).scan().state is Eof),
        ensures
            final(self).wf(),
            final(self).limits() == old(self).limits(),
            final(self).waiting() == old(self).waiting(),
            final(self).buffer() == (ShiftBufferView {
                lower: final(self).buffer().lower,
                ..old(self).buffer()
            }),
            ({
                let p = run(old(self).scan(), old(self).pending(), old(self).limits());
                &&& final(self).scan() == p.scan
                &&& final(self).cursor() == old(self).cursor() + p.used
                &&& match r {
                    Advance::Entry => p.complete,
                    Advance::Failed(e) => !p.complete && p.failure() == Some(e),
                    Advance::Starved => p.starved(),
                }
            }),
    {
        let ghost input = self.pending();
        let ghost mut used: int = 0;
        proof {
            self.lemma_cursor();
        }
        loop
            invariant
                old(self).wf(),
                self.tracks(input, used),
                self.scanned_from(old(self)),
                !(self.parse_state is Eof),
                input == old(self).pending(),
                used == self.cursor@ - old(self).cursor@,
                run_from(self.scan(), input, used, self.limits) == run(
                    old(self).scan(),
                    input,
                    self.limits,
                ),
            decreases input.len() - used,
        {
            proof {
                self.lemma_cursor();
                old(self).lemma_cursor();
            }
            if self.cursor.abs() == self.buf.upper().abs() {
                return Advance::Starved;
            }
            let ghost before = *self;
            let c: u8 = self.buf[self.cursor];
            let r = match self.parse_state {
                ParserState::EntryStart => self.on_entry_start(c, Ghost(input), Ghost(used)),
                ParserState::FieldStart => self.on_field_start(c, Ghost(input), Ghost(used)),
                ParserState::Fieldname => self.on_fieldname(c, Ghost(input), Ghost(used)),
                ParserState::BinaryValueLen => self.on_binary_value_len(Ghost(input), Ghost(used)),
                ParserState::BinaryValue => self.on_binary_value(c, Ghost(input), Ghost(used)),
                ParserState::StringField => self.on_string_field(c, Ghost(input), Ghost(used)),
                ParserState::Eof(e) => Some(Advance::Failed(e)),
            };
            proof {
                used = used + (self.cursor@ - before.cursor@);
                self.lemma_cursor();
            }
            match r {
                Some(end) => {
                    return end;
                },
                None => {},
            }
        }
    }

    /// Scans the input that was received.
    ///
    /// The result is that of running the scanner over the bytes that were
    /// received and not scanned yet: a complete entry, a failure, the end of
    /// the input, or a request for more input. A parser that failed fails
    /// again, with the same failure, whatever it is given. A parser that
    /// asked for input and was given none has reached the end of the input:
    /// cleanly between two entries, with `UnexpectedEof` inside one.
    ///
    /// With a request for input comes the free part of the buffer, after
    /// room was made in it; the scan is kept as it is. The buffer grows
    /// only where the entry at hand fills it, to twice its size: so it
    /// never grows beyond twice the size that an entry may have.
    pub fn parse(&mut self) -> (r: ParseResult<'_, ()>)
        requires
            old(self).wf(),
            2 * old(self).buffer().capacity() <= usize::MAX,
        ensures
            final(self).wf(),
            final(self).limits() == old(self).limits(),
            ({
                let p = run(old(self).scan(), old(self).pending(), old(self).limits());
                &&& r.verdict() == p.verdict(old(self).exhausted())
                &&& final(self).scan() == p.settled(old(self).exhausted())
                &&& final(self).cursor() == old(self).cursor() + p.used
                &&& final(self).pending() == old(self).pending().skip(p.used)
                &&& final(self).waiting() == if old(self).scan().state is Eof {
                    old(self).waiting()
                } else {
                    p.starved()
                }
            }),
            !(r is Underfilled) ==> final(self).buffer() == (ShiftBufferView {
                lower: final(self).buffer().lower,
                ..old(self).buffer()
            }),
            r matches ParseResult::Underfilled(free) ==> {
                &&& final(self).buffer().room_made(
                    ShiftBufferView {
                        lower: final(self).buffer().lower,
                        ..old(self).buffer()
                    },
                )
                &&& final(self).buffer().free() == final(free)@
                &&& free@.len() == final(free)@.len()
                &&& old(self).buffer().capacity() > 0 ==> free@.len() > 0
            },
            final(self).buffer().capacity() != old(self).buffer().capacity() ==> r is Underfilled
                && final(self).buffer().capacity() == 2 * old(self).buffer().capacity()
                && old(self).buffer().capacity() <= old(self).limits().max_entry_size,
    {
        if let ParserState::Eof(e) = self.parse_state {
            return ParseResult::Failed(e);
        }
        let empty: bool = self.cursor.abs() == self.buf.upper().abs();
        proof {
            lemma_run_inv(self.scan(), self.pending(), 0, self.limits);
        }
        match self.advance() {
            Advance::Entry => {
                self.buffer_state = BufferState::Underfilled;
                ParseResult::Complete(())
            },
            Advance::Failed(e) => {
                self.buffer_state = BufferState::Underfilled;
                ParseResult::Failed(e)
            },
            Advance::Starved => {
                if empty && self.buffer_state == BufferState::Filled {
                    if self.parse_state == ParserState::EntryStart {
                        ParseResult::Eof
                    } else {
                        let e = JournalExportReadError::UnexpectedEof;
                        self.parse_state = ParserState::Eof(e);
                        proof {
                            lemma_inv_ends(self.scan(), self.limits);
                        }
                        ParseResult::Failed(e)
                    }
                } else {
                    self.buffer_state = BufferState::Filled;
                    proof {
                        lemma_inv_bounds(self.scan(), self.limits);
                    }
                    let free = self.buf.make_room();
                    ParseResult::Underfilled(free)
                }
            },
        }
    }

    /// An entry is complete and was not discarded yet.
    pub fn has_entry(&self) -> (r: bool)
        ensures
            r == self.scan().has_entry(),
    {
        self.parse_state == ParserState::EntryStart && self.field_offsets.len() > 0
    }

    /// The entry that was completed last. The view shows a complete entry
    /// from the call of `parse` that completed it up to the next call that
    /// changes the parser.
    pub fn get_entry(&self) -> (r: RefEntry<'_>)
        ensures
            self.wf() && self.scan().has_entry() ==> r.wf() && r.entry() == (EntryView {
                text: self.scan().text,
                fields: self.scan().fields,
            }),
    {
        proof {
            if self.wf() && self.scan().has_entry() {
                lemma_inv_bounds(self.scan(), self.limits);
                lemma_is_entry_unlimited(self.scan().text, self.scan().fields, self.limits);
            }
        }
        RefEntry { reader: self }
    }

    /// Discards the entry that was handed out and gives its bytes up. In
    /// the middle of an entry, and after a failure, nothing happens.
    pub fn clear_entry(&mut self)
        requires
            old(self).wf(),
        ensures
            final(self).wf(),
            final(self).scan() == old(self).scan().cleared(),
            final(self).cursor() == old(self).cursor(),
            final(self).pending() == old(self).pending(),
            final(self).waiting() == old(self).waiting(),
            final(self).limits() == old(self).limits(),
            final(self).buffer() == (ShiftBufferView {
                lower: final(self).buffer().lower,
                ..old(self).buffer()
            }),
    {
        proof {
            lemma_inv_ends(self.scan(), self.limits);
        }
        if self.parse_state == ParserState::EntryStart {
            self.field_offsets.clear();
            let gone: usize = self.cursor - self.buf.lower();
            self.buf.shrink(gone);
            self.entry_start = self.cursor;
            self.field_start = self.cursor;
            proof {
                assert(self.scan().text =~= Seq::<u8>::empty());
                assert(self.scan().fields =~= Seq::<FieldSpan>::empty());
            }
        }
    }
}

/// The entry that lies in `buf` from the start of its window up to
/// `stop`, with the fields at `offsets`.
pub open spec fn entry_in(buf: ShiftBufferView<u8>, stop: nat, offsets: Seq<FieldOffset>) -> EntryView {
    EntryView { text: buf.span(buf.lower, stop), fields: spans(offsets, buf.lower) }
}

/// A complete entry lies in `buf` from the start of its window up to
/// `stop`, and `offsets` are its fields.
pub closed spec fn holds_entry(buf: ShiftBufferView<u8>, stop: nat, offsets: Seq<FieldOffset>) -> bool {
    &&& buf.wf()
    &&& buf.lower <= stop <= buf.upper
    &&& entry_in(buf, stop, offsets).wf()
    &&& forall|i: int| 0 <= i < offsets.len() ==> buf.lower <= (#[trigger] offsets[i]).start@
}

/// Field `index` of the entry that lies in `buf` up to `stop`: its name,
/// its value and its kind; nothing behind the last field.
fn next<'a>(buf: &'a ShiftBuffer<u8>, stop: Pointer, offsets: &'a [FieldOffset], index: usize) -> (r:
    Option<(&'a [u8], &'a [u8], FieldType)>)
    requires
        holds_entry(buf@, stop@, offsets@),
    ensures
        index >= offsets@.len() ==> r is None,
        index < offsets@.len() ==> (r matches Some((name, value, kind)) && (name@, value@, kind)
            == entry_in(buf@, stop@, offsets@).item(index as int)),
{
    if index >= offsets.len() {
        return None;
    }
    let ghost e = entry_in(buf@, stop@, offsets@);
    let f = offsets[index];
    proof {
        lemma_field_bounds(e, index as int);
        assert(e.fields[index as int] == f.span(buf@.lower));
    }
    let field_stop: Pointer = if index == offsets.len() - 1 {
        // The cursor points to the first byte of the next entry. Thus,
        // cursor-2 points to the first NL after the last field of this
        // entry.
        stop - 2
    } else {
        // The fields are separated by one NL character, therefore
        // .start-1 of the next field points to the NL character that
        // terminates this field.
        assert(e.fields[index + 1] == offsets@[index + 1].span(buf@.lower));
        offsets[index + 1].start - 1
    };
    let bin_offset: usize = match f.typ {
        FieldType::Binary => 1 + LENGTH_SIZE,
        FieldType::String => 1,
    };
    let name_stop: Pointer = f.start + f.namelen;
    let value_start: Pointer = name_stop + bin_offset;
    let name = &buf[f.start..name_stop];
    let value = &buf[value_start..field_stop];
    proof {
        assert(name@ =~= e.name(index as int));
        assert(value@ =~= e.value(index as int));
    }
    Some((name, value, f.typ))
}

/// The view of the entry that a parser has completed. It borrows from the
/// parser, so it lasts until the parser is used again.
pub struct RefEntry<'a> {
    reader: &'a JournalExportParser,
}

impl<'a> RefEntry<'a> {
    /// A copy of the entry with bytes of its own.
    pub fn to_owned(&self) -> (r: OwnedEntry)
        requires
            self.wf(),
        ensures
            r.wf(),
            r.entry() == self.entry(),
    {
        let r = OwnedEntry {
            cursor: self.reader.cursor,
            buf: self.reader.buf.clone_window(),
            offsets: vstd::slice::slice_to_vec(self.reader.field_offsets.as_slice()),
        };
        proof {
            assert(r.entry().text =~= self.entry().text);
        }
        r
    }
}

impl<'a> Entry for RefEntry<'a> {
    closed spec fn entry(&self) -> EntryView {
        entry_in(self.reader.buf@, self.reader.cursor@, self.reader.field_offsets@)
    }

    closed spec fn wf(&self) -> bool {
        holds_entry(self.reader.buf@, self.reader.cursor@, self.reader.field_offsets@)
    }

    fn as_bytes(&self) -> (r: &[u8]) {
        proof {
            lemma_entry_bounds(self.entry());
        }
        let start = self.reader.buf.lower();
        let r = &self.reader.buf[start..self.reader.cursor - 1];
        proof {
            assert(r@ =~= self.entry().bytes());
        }
        r
    }

    fn iter(&self) -> (r: FieldIter<'_>) {
        FieldIter {
            index: 0,
            buf: &self.reader.buf,
            cursor: self.reader.cursor,
            offsets: self.reader.field_offsets.as_slice(),
        }
    }
}

/// Re-iteration. Two iterators over the same entry that stand at the same
/// field hand out the same fields in the same order, whenever they were
/// made: walking over an entry twice shows the same fields twice.
pub proof fn lemma_iterate_again(first: FieldIter<'_>, second: FieldIter<'_>)
    requires
        first.entry() == second.entry(),
        first.index() == second.index(),
    ensures
        first.rest() == second.rest(),
{
}

/// An entry with bytes of its own.
pub struct OwnedEntry {
    cursor: Pointer,
    buf: ShiftBuffer<u8>,
    offsets: Vec<FieldOffset>,
}

impl Entry for OwnedEntry {
    closed spec fn entry(&self) -> EntryView {
        entry_in(self.buf@, self.cursor@, self.offsets@)
    }

    closed spec fn wf(&self) -> bool {
        holds_entry(self.buf@, self.cursor@, self.offsets@)
    }

    fn as_bytes(&self) -> (r: &[u8]) {
        proof {
            lemma_entry_bounds(self.entry());
        }
        let start = self.buf.lower();
        let r = &self.buf[start..self.cursor - 1];
        proof {
            assert(r@ =~= self.entry().bytes());
        }
        r
    }

    fn iter(&self) -> (r: FieldIter<'_>) {
        FieldIter { index: 0, buf: &self.buf, cursor: self.cursor, offsets: self.offsets.as_slice() }
    }
}

/// Walks over the fields of an entry, first to last.
pub struct FieldIter<'a> {
    index: usize,
    cursor: Pointer,
    buf: &'a ShiftBuffer<u8>,
    offsets: &'a [FieldOffset],
}

impl<'a> FieldIter<'a> {
    /// The entry whose fields are walked over.
    pub closed spec fn entry(&self) -> EntryView {
        entry_in(self.buf@, self.cursor@, self.offsets@)
    }

    /// The number of fields that were handed out.
    pub closed spec fn index(&self) -> nat {
        self.index as nat
    }

    /// The iterator stands in a complete entry.
    pub closed spec fn wf(&self) -> bool {
        &&& holds_entry(self.buf@, self.cursor@, self.offsets@)
        &&& self.index <= self.offsets@.len()
    }

    /// The fields that are still to come, in order.
    pub open spec fn rest(&self) -> Seq<Item> {
        self.entry().items().skip(self.index() as int)
    }

    /// The next field as name, value and kind, or nothing once all fields
    /// were handed out.
    pub fn next(&mut self) -> (r: Option<(&'a [u8], &'a [u8], FieldType)>)
        requires
            old(self).wf(),
        ensures
            final(self).wf(),
            final(self).entry() == old(self).entry(),
            match r {
                Some((name, value, kind)) => {
                    &&& old(self).rest().len() > 0
                    &&& (name@, value@, kind) == old(self).rest()[0]
                    &&& final(self).index() == old(self).index() + 1
                    &&& final(self).rest() == old(self).rest().drop_first()
                },
                None => {
                    &&& old(self).rest().len() == 0
                    &&& final(self).index() == old(self).index()
                },
            },
    {
        let res = next(self.buf, self.cursor, self.offsets, self.index);
        if self.index < self.offsets.len() {
            self.index = self.index + 1;
            proof {
                assert(self.rest() =~= old(self).rest().drop_first());
            }
        }
        res
    }
}

} // verus!
