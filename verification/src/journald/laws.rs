//! What holds between the grammar and the scanner.
//!
//! The parser does what [run] says, so these are statements about every
//! parser: input in wire format is accepted and comes out as it went in,
//! input beyond the limits is refused as early as it can be, and the way in
//! which the input is cut into pieces makes no difference.

use crate::config::JournalExportLimits;
use crate::journald::machine::completes;
use crate::journald::machine::lemma_inv_bounds;
use crate::journald::machine::lemma_run_inv;
use crate::journald::machine::lemma_run_skip;
use crate::journald::machine::run;
use crate::journald::machine::run_from;
use crate::journald::machine::step;
use crate::journald::machine::ParserState;
use crate::journald::machine::Progress;
use crate::journald::machine::Scan;
use crate::journald::wire::field_at;
use crate::journald::wire::is_entry;
use crate::journald::wire::is_name_byte;
use crate::journald::wire::is_name_start;
use crate::journald::wire::span_end;
use crate::journald::wire::EntryView;
use crate::journald::wire::FieldSpan;
use crate::journald::wire::FieldType;
use crate::journald::wire::EQUALS;
use crate::journald::wire::LENGTH_SIZE;
use crate::journald::wire::NEWLINE;
use crate::journald::JournalExportReadError;
use vstd::bytes::spec_u64_from_le_bytes;
use vstd::prelude::*;

verus! {

/// The scan behind a field that ends at `to`, with the fields `prior` before it.
pub open spec fn behind_field(w: Seq<u8>, f: FieldSpan, to: int, prior: Seq<FieldSpan>) -> Scan {
    Scan {
        state: ParserState::FieldStart,
        text: w.subrange(0, to),
        field_start: f.start,
        namelen: f.namelen,
        remaining: 0,
        fields: prior.push(f),
    }
}

/// The scan behind the name of a field and the byte that ends the name.
pub open spec fn behind_name(w: Seq<u8>, f: FieldSpan, prior: Seq<FieldSpan>) -> Scan {
    Scan {
        state: match f.kind {
            FieldType::String => ParserState::StringField,
            FieldType::Binary => ParserState::BinaryValueLen,
        },
        text: w.subrange(0, f.name_end() + 1),
        field_start: f.start,
        namelen: f.namelen,
        remaining: 0,
        fields: prior,
    }
}

/// The scan behind the first `i` fields of the entry `w`, for `i > 0`.
pub open spec fn behind_fields(w: Seq<u8>, fields: Seq<FieldSpan>, i: int) -> Scan {
    behind_field(w, fields[i - 1], span_end(fields, i - 1, w.len() - 1), fields.subrange(0, i - 1))
}

/// The scan behind the whole of the entry `w`.
pub open spec fn behind_entry(w: Seq<u8>, fields: Seq<FieldSpan>) -> Scan {
    Scan {
        state: ParserState::EntryStart,
        text: w,
        field_start: fields.last().start,
        namelen: fields.last().namelen,
        remaining: 0,
        fields,
    }
}

/// `input` holds `w` from index `base` on.
pub open spec fn holds(input: Seq<u8>, base: int, w: Seq<u8>) -> bool {
    &&& 0 <= base
    &&& base + w.len() <= input.len()
    &&& input.subrange(base, base + w.len()) == w
}

proof fn lemma_holds(input: Seq<u8>, base: int, w: Seq<u8>)
    requires
        holds(input, base, w),
    ensures
        forall|p: int| base <= p < base + w.len() ==> #[trigger] input[p] == w[p - base],
{
    assert forall|p: int| base <= p < base + w.len() implies #[trigger] input[p] == w[p - base] by {
        assert(input.subrange(base, base + w.len())[p - base] == input[p]);
    }
}

/// As long as it stays within the limit, a name is consumed byte by byte.
pub proof fn lemma_scan_name(m: Scan, input: Seq<u8>, from: int, k: int, limits: JournalExportLimits)
    requires
        m.state == ParserState::Fieldname,
        m.field_start < m.text.len(),
        m.namelen == m.text.len() - m.field_start - 1,
        0 <= from,
        0 <= k,
        from + k <= input.len(),
        m.namelen + k <= limits.max_field_name_len,
        m.text.len() + k <= limits.max_entry_size,
        forall|j: int| from <= j < from + k ==> is_name_byte(#[trigger] input[j]),
    ensures
        run_from(m, input, from, limits) == run_from(
            Scan {
                text: m.text + input.subrange(from, from + k),
                namelen: (m.namelen + k) as nat,
                ..m
            },
            input,
            from + k,
            limits,
        ),
    decreases k,
{
    if k == 0 {
        assert(m.text + input.subrange(from, from + k) =~= m.text);
    } else {
        let c = input[from];
        let n = step(m, c, limits);
        assert(is_name_byte(c));
        assert(n == Scan { namelen: (m.namelen + 1) as nat, ..m.take(c) });
        lemma_scan_name(n, input, from + 1, k - 1, limits);
        assert(n.text + input.subrange(from + 1, from + k) =~= m.text + input.subrange(
            from,
            from + k,
        ));
    }
}

/// As long as it stays within the limit, a text value is consumed byte by
/// byte up to its line feed.
pub proof fn lemma_scan_text(m: Scan, input: Seq<u8>, from: int, k: int, limits: JournalExportLimits)
    requires
        m.state == ParserState::StringField,
        0 <= from,
        0 <= k,
        from + k <= input.len(),
        m.text.len() + k - m.length_start() <= limits.max_field_value_size,
        m.text.len() + k <= limits.max_entry_size,
        forall|j: int| from <= j < from + k ==> #[trigger] input[j] != NEWLINE,
    ensures
        run_from(m, input, from, limits) == run_from(
            Scan { text: m.text + input.subrange(from, from + k), ..m },
            input,
            from + k,
            limits,
        ),
    decreases k,
{
    if k == 0 {
        assert(m.text + input.subrange(from, from + k) =~= m.text);
    } else {
        let c = input[from];
        let n = step(m, c, limits);
        assert(c != NEWLINE);
        assert(n == m.take(c));
        lemma_scan_text(n, input, from + 1, k - 1, limits);
        assert(n.text + input.subrange(from + 1, from + k) =~= m.text + input.subrange(
            from,
            from + k,
        ));
    }
}

/// The scan behind the first byte of the name of a field.
pub open spec fn in_name(w: Seq<u8>, f: FieldSpan, prior: Seq<FieldSpan>) -> Scan {
    Scan {
        state: ParserState::Fieldname,
        text: w.subrange(0, f.start as int + 1),
        field_start: f.start,
        namelen: 0,
        remaining: 0,
        fields: prior,
    }
}

/// From where a field begins, the scan consumes the first byte of its name.
#[verifier::rlimit(50)]
proof fn lemma_scan_field_start(
    w: Seq<u8>,
    f: FieldSpan,
    prior: Seq<FieldSpan>,
    m: Scan,
    input: Seq<u8>,
    base: int,
    limits: JournalExportLimits,
)
    requires
        f.start < w.len() <= limits.max_entry_size,
        is_name_byte(w[f.start as int]),
        holds(input, base, w),
        m.state == ParserState::EntryStart && f.start == 0 && prior.len() == 0 && is_name_start(
            w[0],
        ) || m.state == ParserState::FieldStart && m.text == w.subrange(0, f.start as int)
            && m.fields == prior && m.remaining == 0,
    ensures
        run_from(m, input, base + f.start, limits) == run_from(
            in_name(w, f, prior),
            input,
            base + f.start + 1,
            limits,
        ),
{
    let s = f.start as int;
    lemma_holds(input, base, w);
    assert(input[base + s] == w[s]);
    let stepped = step(m, w[s], limits);
    assert(stepped.text =~= w.subrange(0, s + 1));
    assert(stepped.fields =~= prior);
    assert(stepped == in_name(w, f, prior));
    assert(!completes(m, w[s]));
}

/// From behind the first byte of a name, the scan consumes the rest of
/// the name and the byte behind it.
#[verifier::rlimit(50)]
proof fn lemma_scan_field_name(
    w: Seq<u8>,
    f: FieldSpan,
    to: int,
    prior: Seq<FieldSpan>,
    input: Seq<u8>,
    base: int,
    limits: JournalExportLimits,
)
    requires
        field_at(w, f, to, limits),
        to < w.len() <= limits.max_entry_size,
        holds(input, base, w),
    ensures
        run_from(in_name(w, f, prior), input, base + f.start + 1, limits) == run_from(
            behind_name(w, f, prior),
            input,
            base + f.name_end() + 1,
            limits,
        ),
{
    let s = f.start as int;
    let n = f.namelen as int;
    lemma_holds(input, base, w);
    let first = in_name(w, f, prior);
    lemma_scan_name(first, input, base + s + 1, n - 1, limits);
    let named = Scan {
        text: first.text + input.subrange(base + s + 1, base + s + n),
        namelen: (n - 1) as nat,
        ..first
    };
    assert(named.text =~= w.subrange(0, s + n));
    let c = w[s + n];
    assert(input[base + s + n] == c);
    assert(!is_name_byte(EQUALS) && !is_name_byte(NEWLINE));
    let ended = step(named, c, limits);
    assert(ended.text =~= w.subrange(0, s + n + 1));
    assert(ended == behind_name(w, f, prior));
    assert(run_from(named, input, base + s + n, limits) == run_from(
        ended,
        input,
        base + s + n + 1,
        limits,
    ));
}

/// From behind the name of a text field, the scan consumes its value and
/// records the field.
#[verifier::rlimit(50)]
proof fn lemma_scan_field_text(
    w: Seq<u8>,
    f: FieldSpan,
    to: int,
    prior: Seq<FieldSpan>,
    input: Seq<u8>,
    base: int,
    limits: JournalExportLimits,
)
    requires
        field_at(w, f, to, limits),
        to < w.len() <= limits.max_entry_size,
        f.kind == FieldType::String,
        holds(input, base, w),
    ensures
        run_from(behind_name(w, f, prior), input, base + f.name_end() + 1, limits) == run_from(
            behind_field(w, f, to, prior),
            input,
            base + to,
            limits,
        ),
{
    let from = f.value_start();
    let k = to - 1 - from;
    lemma_holds(input, base, w);
    let m = behind_name(w, f, prior);
    lemma_scan_text(m, input, base + from, k, limits);
    let valued = Scan { text: m.text + input.subrange(base + from, base + from + k), ..m };
    assert(valued.text =~= w.subrange(0, to - 1));
    assert(input[base + to - 1] == w[to - 1]);
    let ended = step(valued, NEWLINE, limits);
    assert(ended.text =~= w.subrange(0, to));
    assert(ended == behind_field(w, f, to, prior));
    assert(run_from(valued, input, base + to - 1, limits) == run_from(
        ended,
        input,
        base + to,
        limits,
    ));
}

/// The scan behind the length of the value of a binary field.
pub open spec fn behind_length(w: Seq<u8>, f: FieldSpan, to: int, prior: Seq<FieldSpan>) -> Scan {
    Scan {
        state: ParserState::BinaryValue,
        text: w.subrange(0, f.value_start()),
        field_start: f.start,
        namelen: f.namelen,
        remaining: (to - 1 - f.value_start()) as nat,
        fields: prior,
    }
}

/// From behind the name of a binary field, the scan consumes the length
/// of its value.
#[verifier::rlimit(50)]
proof fn lemma_scan_field_length(
    w: Seq<u8>,
    f: FieldSpan,
    to: int,
    prior: Seq<FieldSpan>,
    input: Seq<u8>,
    base: int,
    limits: JournalExportLimits,
)
    requires
        field_at(w, f, to, limits),
        to < w.len() <= limits.max_entry_size,
        f.kind == FieldType::Binary,
        holds(input, base, w),
    ensures
        run_from(behind_name(w, f, prior), input, base + f.name_end() + 1, limits) == run_from(
            behind_length(w, f, to, prior),
            input,
            base + f.value_start(),
            limits,
        ),
{
    let ls = f.name_end() + 1;
    let from = f.value_start();
    lemma_holds(input, base, w);
    let m = behind_name(w, f, prior);
    lemma_run_skip(m, input, base + ls, LENGTH_SIZE - 1, limits);
    let almost = Scan { text: m.text + input.subrange(base + ls, base + ls + LENGTH_SIZE - 1), ..m };
    assert(almost.text =~= w.subrange(0, from - 1));
    let c = w[from - 1];
    assert(input[base + from - 1] == c);
    assert(almost.text.push(c) =~= w.subrange(0, from));
    assert(w.subrange(0, from).subrange(ls, ls + LENGTH_SIZE) =~= w.subrange(ls, from));
    let measured = step(almost, c, limits);
    assert(measured == behind_length(w, f, to, prior));
    assert(run_from(almost, input, base + from - 1, limits) == run_from(
        measured,
        input,
        base + from,
        limits,
    ));
}

/// From behind the length of a binary value, the scan consumes the value
/// and records the field.
#[verifier::rlimit(50)]
proof fn lemma_scan_field_binary(
    w: Seq<u8>,
    f: FieldSpan,
    to: int,
    prior: Seq<FieldSpan>,
    input: Seq<u8>,
    base: int,
    limits: JournalExportLimits,
)
    requires
        field_at(w, f, to, limits),
        to < w.len() <= limits.max_entry_size,
        f.kind == FieldType::Binary,
        holds(input, base, w),
    ensures
        run_from(behind_length(w, f, to, prior), input, base + f.value_start(), limits)
            == run_from(behind_field(w, f, to, prior), input, base + to, limits),
{
    let from = f.value_start();
    let k = to - 1 - from;
    lemma_holds(input, base, w);
    let measured = behind_length(w, f, to, prior);
    lemma_run_skip(measured, input, base + from, k, limits);
    let valued = Scan {
        text: measured.text + input.subrange(base + from, base + from + k),
        ..measured
    };
    assert(valued.text =~= w.subrange(0, to - 1));
    assert(input[base + to - 1] == w[to - 1]);
    let ended = step(valued, NEWLINE, limits);
    assert(ended.text =~= w.subrange(0, to));
    assert(ended == behind_field(w, f, to, prior));
    assert(run_from(valued, input, base + to - 1, limits) == run_from(
        ended,
        input,
        base + to,
        limits,
    ));
}

/// From where an entry begins, the scan consumes its first `i` fields.
#[verifier::rlimit(50)]
proof fn lemma_scan_fields(
    w: Seq<u8>,
    fields: Seq<FieldSpan>,
    i: int,
    m: Scan,
    input: Seq<u8>,
    base: int,
    limits: JournalExportLimits,
)
    requires
        is_entry(w, fields, limits),
        0 < i <= fields.len(),
        holds(input, base, w),
        m.state == ParserState::EntryStart,
    ensures
        run_from(m, input, base, limits) == run_from(
            behind_fields(w, fields, i),
            input,
            base + span_end(fields, i - 1, w.len() - 1),
            limits,
        ),
    decreases i,
{
    let f = fields[i - 1];
    let to = span_end(fields, i - 1, w.len() - 1);
    let prior = fields.subrange(0, i - 1);
    let before = if i == 1 {
        m
    } else {
        behind_fields(w, fields, i - 1)
    };
    assert(field_at(w, f, to, limits));
    if i < fields.len() {
        assert(field_at(w, fields[i], span_end(fields, i, w.len() - 1), limits));
    }
    assert(to < w.len());
    if i > 1 {
        lemma_scan_fields(w, fields, i - 1, m, input, base, limits);
        assert(span_end(fields, i - 2, w.len() - 1) == f.start);
        assert(before.fields =~= prior);
    }
    assert(is_name_byte(w[f.start as int]));
    lemma_scan_field_start(w, f, prior, before, input, base, limits);
    lemma_scan_field_name(w, f, to, prior, input, base, limits);
    match f.kind {
        FieldType::String => lemma_scan_field_text(w, f, to, prior, input, base, limits),
        FieldType::Binary => {
            lemma_scan_field_length(w, f, to, prior, input, base, limits);
            lemma_scan_field_binary(w, f, to, prior, input, base, limits);
        },
    }
}

/// From behind the last field of an entry, the scan consumes the blank
/// line and the entry is complete.
proof fn lemma_scan_blank_line(
    w: Seq<u8>,
    last: Scan,
    input: Seq<u8>,
    base: int,
    limits: JournalExportLimits,
)
    requires
        0 < w.len() <= limits.max_entry_size,
        w.last() == NEWLINE,
        holds(input, base, w),
        last.state == ParserState::FieldStart,
        last.fields.len() > 0,
        last.text == w.subrange(0, w.len() - 1),
    ensures
        run_from(last, input, base + w.len() - 1, limits) == (Progress {
            scan: Scan { state: ParserState::EntryStart, text: w, ..last },
            used: base + w.len(),
            complete: true,
        }),
{
    lemma_holds(input, base, w);
    assert(input[base + w.len() - 1] == NEWLINE);
    assert(last.text.push(NEWLINE) =~= w);
    assert(completes(last, NEWLINE));
}

/// Round trip. Wherever an entry in wire format stands in the input, a
/// scan that begins there between two entries completes it there: it
/// consumes the entry and no byte more, and what it has then is the entry,
/// byte for byte and field for field.
#[verifier::rlimit(50)]
pub proof fn lemma_round_trip(
    w: Seq<u8>,
    fields: Seq<FieldSpan>,
    m: Scan,
    input: Seq<u8>,
    base: int,
    limits: JournalExportLimits,
)
    requires
        is_entry(w, fields, limits),
        holds(input, base, w),
        m.state == ParserState::EntryStart,
    ensures
        run_from(m, input, base, limits) == (Progress {
            scan: behind_entry(w, fields),
            used: base + w.len(),
            complete: true,
        }),
        (EntryView { text: w, fields }).bytes() == w.drop_last(),
{
    let n = fields.len() as int;
    lemma_scan_fields(w, fields, n, m, input, base, limits);
    let last = behind_fields(w, fields, n);
    assert(last.fields =~= fields);
    lemma_scan_blank_line(w, last, input, base, limits);
}

/// The bytes of some entries, one behind the other.
pub open spec fn concat(entries: Seq<EntryView>) -> Seq<u8>
    decreases entries.len(),
{
    if entries.len() == 0 {
        Seq::empty()
    } else {
        entries[0].text + concat(entries.drop_first())
    }
}

/// The entries that a reader gets out of `input` from index `from` on: it
/// runs the scan, takes the entry if one is complete, discards it and runs
/// the scan again, until a run ends without an entry.
pub open spec fn yields(m: Scan, input: Seq<u8>, from: int, limits: JournalExportLimits) -> Seq<
    EntryView,
>
    decreases input.len() - from,
{
    let p = run_from(m, input, from, limits);
    if p.complete && from < p.used <= input.len() {
        seq![EntryView { text: p.scan.text, fields: p.scan.fields }] + yields(
            p.scan.cleared(),
            input,
            p.used,
            limits,
        )
    } else {
        Seq::empty()
    }
}

/// The run that ends without an entry, behind those that `yields` takes
/// the entries of.
pub open spec fn last_run(m: Scan, input: Seq<u8>, from: int, limits: JournalExportLimits) -> Progress
    decreases input.len() - from,
{
    let p = run_from(m, input, from, limits);
    if p.complete && from < p.used <= input.len() {
        last_run(p.scan.cleared(), input, p.used, limits)
    } else {
        p
    }
}

/// Round trip, for a whole stream. From input that is a concatenation of
/// entries in wire format a reader gets exactly these entries, each with
/// the bytes and the fields that it has, and then the clean end of the
/// input: the last run stops between two entries with nothing left over.
pub proof fn lemma_round_trip_stream(
    entries: Seq<EntryView>,
    m: Scan,
    input: Seq<u8>,
    from: int,
    limits: JournalExportLimits,
)
    requires
        forall|i: int|
            0 <= i < entries.len() ==> is_entry(
                (#[trigger] entries[i]).text,
                entries[i].fields,
                limits,
            ),
        0 <= from <= input.len(),
        input.subrange(from, input.len() as int) == concat(entries),
        m.state == ParserState::EntryStart,
    ensures
        yields(m, input, from, limits) == entries,
        last_run(m, input, from, limits).starved(),
        last_run(m, input, from, limits).used == input.len(),
        last_run(m, input, from, limits).scan.state == ParserState::EntryStart,
    decreases entries.len(),
{
    if entries.len() == 0 {
        assert(input.subrange(from, input.len() as int).len() == 0);
        assert(yields(m, input, from, limits) =~= entries);
    } else {
        let e = entries[0];
        let rest = entries.drop_first();
        let tail = input.subrange(from, input.len() as int);
        assert(tail.len() == e.text.len() + concat(rest).len());
        assert(input.subrange(from, from + e.text.len()) =~= e.text) by {
            assert forall|j: int| 0 <= j < e.text.len() implies input[from + j] == e.text[j] by {
                assert(tail[j] == input[from + j]);
            }
        }
        lemma_round_trip(e.text, e.fields, m, input, from, limits);
        let next = from + e.text.len();
        assert(input.subrange(next, input.len() as int) =~= concat(rest)) by {
            assert forall|j: int| 0 <= j < concat(rest).len() implies input[next + j] == concat(
                rest,
            )[j] by {
                assert(tail[e.text.len() + j] == input[next + j]);
            }
        }
        assert forall|i: int| 0 <= i < rest.len() implies is_entry(
            (#[trigger] rest[i]).text,
            rest[i].fields,
            limits,
        ) by {
            assert(rest[i] == entries[i + 1]);
        }
        let cleared = behind_entry(e.text, e.fields).cleared();
        lemma_round_trip_stream(rest, cleared, input, next, limits);
        assert(seq![e] + rest =~= entries);
    }
}

/// What a run completes is an entry in wire format within the limits, and
/// what it leaves behind a failure or for want of input is a scan that can
/// be gone on with.
pub proof fn lemma_complete_is_entry(m: Scan, input: Seq<u8>, from: int, limits: JournalExportLimits)
    requires
        m.inv(limits),
        0 <= from <= input.len(),
    ensures
        run_from(m, input, from, limits).scan.inv(limits),
        run_from(m, input, from, limits).complete ==> is_entry(
            run_from(m, input, from, limits).scan.text,
            run_from(m, input, from, limits).scan.fields,
            limits,
        ),
{
    lemma_run_inv(m, input, from, limits);
    lemma_inv_bounds(run_from(m, input, from, limits).scan, limits);
}

/// A run over more input does what the run over less input did, as far as
/// that one got.
proof fn lemma_run_longer(m: Scan, a: Seq<u8>, b: Seq<u8>, from: int, limits: JournalExportLimits)
    requires
        0 <= from <= a.len(),
    ensures
        !run_from(m, a, from, limits).starved() ==> run_from(m, a + b, from, limits) == run_from(
            m,
            a,
            from,
            limits,
        ),
        run_from(m, a, from, limits).starved() ==> run_from(m, a + b, from, limits) == run_from(
            run_from(m, a, from, limits).scan,
            a + b,
            a.len() as int,
            limits,
        ),
    decreases a.len() - from,
{
    if !(m.state is Eof) && from < a.len() {
        let c = a[from];
        assert((a + b)[from] == c);
        let n = step(m, c, limits);
        if !(n.state is Eof) && !completes(m, c) {
            lemma_run_longer(n, a, b, from + 1, limits);
        }
    }
}

/// A run over the second of two pieces of input does what it would do if
/// the piece stood alone.
proof fn lemma_run_shift(m: Scan, a: Seq<u8>, b: Seq<u8>, from: int, limits: JournalExportLimits)
    requires
        0 <= from <= b.len(),
    ensures
        run_from(m, a + b, a.len() + from, limits) == (Progress {
            used: a.len() + run_from(m, b, from, limits).used,
            ..run_from(m, b, from, limits)
        }),
    decreases b.len() - from,
{
    if !(m.state is Eof) && from < b.len() {
        let c = b[from];
        assert((a + b)[a.len() + from] == c);
        let n = step(m, c, limits);
        if !(n.state is Eof) && !completes(m, c) {
            lemma_run_shift(n, a, b, from + 1, limits);
        }
    }
}

/// Resumability. A scan that stopped for want of input goes on, once
/// more input is there, as if it had never stopped: running over one piece
/// of input and then over the next comes to running over both at once. A
/// run that ended with an entry or a failure is not changed by more input.
pub proof fn lemma_resume(m: Scan, a: Seq<u8>, b: Seq<u8>, limits: JournalExportLimits)
    ensures
        !run(m, a, limits).starved() ==> run(m, a + b, limits) == run(m, a, limits),
        run(m, a, limits).starved() ==> run(m, a + b, limits) == (Progress {
            used: a.len() + run(run(m, a, limits).scan, b, limits).used,
            ..run(run(m, a, limits).scan, b, limits)
        }),
{
    lemma_run_longer(m, a, b, 0, limits);
    lemma_run_shift(run(m, a, limits).scan, a, b, 0, limits);
}

/// Limit enforcement, text. A text value that goes on beyond the limit
/// fails the scan at the first byte beyond it, whatever follows: no byte
/// more is consumed than the limit allows.
pub proof fn lemma_text_value_too_long(
    m: Scan,
    input: Seq<u8>,
    from: int,
    limits: JournalExportLimits,
)
    requires
        m.state == ParserState::StringField,
        m.length_start() <= m.text.len() <= m.length_start() + limits.max_field_value_size,
        m.length_start() + limits.max_field_value_size <= limits.max_entry_size,
        0 <= from,
        from + (m.length_start() + limits.max_field_value_size - m.text.len()) < input.len(),
        forall|j: int|
            from <= j <= from + (m.length_start() + limits.max_field_value_size - m.text.len())
                ==> #[trigger] input[j] != NEWLINE,
    ensures
        run_from(m, input, from, limits).failure() == Some(
            JournalExportReadError::FieldValueTooLong,
        ),
        !run_from(m, input, from, limits).complete,
        run_from(m, input, from, limits).used == from + (m.length_start()
            + limits.max_field_value_size - m.text.len()),
{
    let room = m.length_start() + limits.max_field_value_size - m.text.len();
    lemma_scan_text(m, input, from, room, limits);
    let full = Scan { text: m.text + input.subrange(from, from + room), ..m };
    assert(input[from + room] != NEWLINE);
    assert(step(full, input[from + room], limits) == full.fail(
        JournalExportReadError::FieldValueTooLong,
    ));
}

/// Limit enforcement, binary. A binary value whose length, as the eight
/// bytes before it state it, exceeds the limit fails the scan at the last
/// of these bytes: not one byte of the value is looked at.
pub proof fn lemma_binary_value_too_long(
    m: Scan,
    input: Seq<u8>,
    from: int,
    limits: JournalExportLimits,
)
    requires
        m.state == ParserState::BinaryValueLen,
        m.length_start() <= m.text.len() < m.length_start() + LENGTH_SIZE,
        m.length_start() + LENGTH_SIZE - 1 <= limits.max_entry_size,
        0 <= from,
        from + (m.length_start() + LENGTH_SIZE - m.text.len()) <= input.len(),
        spec_u64_from_le_bytes(
            (m.text + input.subrange(
                from,
                from + (m.length_start() + LENGTH_SIZE - m.text.len()),
            )).subrange(m.length_start(), m.length_start() + LENGTH_SIZE),
        ) > limits.max_field_value_size,
    ensures
        run_from(m, input, from, limits).failure() == Some(
            JournalExportReadError::FieldValueTooLong,
        ),
        !run_from(m, input, from, limits).complete,
        run_from(m, input, from, limits).used == from + (m.length_start() + LENGTH_SIZE
            - m.text.len()) - 1,
        run_from(m, input, from, limits).scan.text.len() < m.length_start() + LENGTH_SIZE,
{
    let missing = m.length_start() + LENGTH_SIZE - m.text.len();
    lemma_run_skip(m, input, from, missing - 1, limits);
    let almost = Scan { text: m.text + input.subrange(from, from + missing - 1), ..m };
    let c = input[from + missing - 1];
    assert(almost.text.push(c) =~= m.text + input.subrange(from, from + missing));
    assert(step(almost, c, limits) == almost.fail(JournalExportReadError::FieldValueTooLong));
}

/// The limits without the one on the size of an entry.
pub open spec fn without_entry_limit(limits: JournalExportLimits) -> JournalExportLimits {
    JournalExportLimits { max_entry_size: usize::MAX, ..limits }
}

/// The limit on the size of an entry changes a step in one way only: it
/// makes the scan fail with `EntryTooLarge`.
proof fn lemma_step_limited(m: Scan, c: u8, limits: JournalExportLimits)
    requires
        !(m.state is Eof),
    ensures
        step(m, c, limits) == step(m, c, without_entry_limit(limits)) || step(m, c, limits)
            == m.fail(JournalExportReadError::EntryTooLarge),
{
}

/// The limit on the size of an entry changes a run in one way only: it
/// makes the run end with `EntryTooLarge`, and without an entry.
proof fn lemma_run_limited(m: Scan, input: Seq<u8>, from: int, limits: JournalExportLimits)
    ensures
        run_from(m, input, from, limits) == run_from(
            m,
            input,
            from,
            without_entry_limit(limits),
        ) || (run_from(m, input, from, limits).failure() == Some(
            JournalExportReadError::EntryTooLarge,
        ) && !run_from(m, input, from, limits).complete),
    decreases input.len() - from,
{
    if !(m.state is Eof) && 0 <= from < input.len() {
        let c = input[from];
        lemma_step_limited(m, c, limits);
        let n = step(m, c, limits);
        if n == step(m, c, without_entry_limit(limits)) && !(n.state is Eof) && !completes(m, c) {
            lemma_run_limited(n, input, from + 1, limits);
        }
    }
}

/// An entry that a run completes is no larger than an entry may be.
proof fn lemma_complete_within_limit(
    m: Scan,
    input: Seq<u8>,
    from: int,
    limits: JournalExportLimits,
)
    ensures
        run_from(m, input, from, limits).complete ==> run_from(
            m,
            input,
            from,
            limits,
        ).scan.text.len() <= limits.max_entry_size,
    decreases input.len() - from,
{
    if !(m.state is Eof) && 0 <= from < input.len() {
        let n = step(m, input[from], limits);
        if !(n.state is Eof) && !completes(m, input[from]) {
            lemma_complete_within_limit(n, input, from + 1, limits);
        }
    }
}

/// Limit enforcement, entry. An entry that is in wire format, with every
/// name and every value within its limit, but larger than an entry may be,
/// is never handed out: the scan that begins at it fails with
/// `EntryTooLarge`.
pub proof fn lemma_entry_too_large(
    w: Seq<u8>,
    fields: Seq<FieldSpan>,
    m: Scan,
    input: Seq<u8>,
    base: int,
    limits: JournalExportLimits,
)
    requires
        is_entry(w, fields, without_entry_limit(limits)),
        w.len() > limits.max_entry_size,
        holds(input, base, w),
        m.state == ParserState::EntryStart,
    ensures
        run_from(m, input, base, limits).failure() == Some(JournalExportReadError::EntryTooLarge),
        !run_from(m, input, base, limits).complete,
{
    lemma_round_trip(w, fields, m, input, base, without_entry_limit(limits));
    lemma_run_limited(m, input, base, limits);
    lemma_complete_within_limit(m, input, base, limits);
}

} // verus!
