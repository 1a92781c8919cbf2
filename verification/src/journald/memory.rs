//! Reading entries out of bytes that are at hand as a whole.
//!
//! [read_entries] drives a parser the way every reader does: it lets the
//! parser scan, hands it the next bytes whenever it asks for input, and
//! takes each entry that is complete. What comes out is what the scanner
//! yields on the input as a whole, however the buffer cuts it into pieces.

use crate::config::JournalExportLimits;
use crate::journald::laws::behind_entry;
use crate::journald::laws::concat;
use crate::journald::laws::holds;
use crate::journald::laws::last_run;
use crate::journald::laws::lemma_entry_too_large;
use crate::journald::laws::lemma_round_trip;
use crate::journald::laws::lemma_round_trip_stream;
use crate::journald::laws::without_entry_limit;
use crate::journald::laws::yields;
use crate::journald::machine::completes;
use crate::journald::machine::lemma_run_inv;
use crate::journald::machine::run;
use crate::journald::machine::run_from;
use crate::journald::machine::step;
use crate::journald::machine::ParserState;
use crate::journald::machine::Progress;
use crate::journald::machine::Scan;
use crate::journald::machine::Verdict;
use crate::journald::parser::JournalExportParser;
use crate::journald::parser::OwnedEntry;
use crate::journald::parser::ParseResult;
use crate::journald::wire::is_entry;
use crate::journald::wire::EntryView;
use crate::journald::wire::FieldSpan;
use crate::journald::Entry;
use crate::journald::JournalExportReadError;
use vstd::prelude::*;

verus! {

/// How reading the whole of `input` ends: with a failure, or cleanly.
pub open spec fn ending(input: Seq<u8>, limits: JournalExportLimits) -> Option<
    JournalExportReadError,
> {
    match last_run(Scan::start(), input, 0, limits).verdict(true) {
        Verdict::Failed(e) => Some(e),
        _ => None,
    }
}

/// A run over a window of the input does what the run over the input
/// does from where the window begins, as far as the window goes.
pub proof fn lemma_window(
    m: Scan,
    input: Seq<u8>,
    from: int,
    to: int,
    at: int,
    limits: JournalExportLimits,
)
    requires
        0 <= from <= to <= input.len(),
        0 <= at <= to - from,
    ensures
        !run_from(m, input.subrange(from, to), at, limits).starved() ==> run_from(
            m,
            input,
            from + at,
            limits,
        ) == (Progress {
            used: from + run_from(m, input.subrange(from, to), at, limits).used,
            ..run_from(m, input.subrange(from, to), at, limits)
        }),
        run_from(m, input.subrange(from, to), at, limits).starved() ==> run_from(
            m,
            input,
            from + at,
            limits,
        ) == run_from(run_from(m, input.subrange(from, to), at, limits).scan, input, to, limits)
            && run_from(m, input.subrange(from, to), at, limits).used == to - from,
    decreases to - from - at,
{
    let window = input.subrange(from, to);
    if !(m.state is Eof) && at < window.len() {
        let c = window[at];
        assert(input[from + at] == c);
        let n = step(m, c, limits);
        if !(n.state is Eof) && !completes(m, c) {
            lemma_window(n, input, from, to, at + 1, limits);
        }
    }
}

/// A run that completes an entry has consumed at least one byte.
pub proof fn lemma_complete_moves(m: Scan, input: Seq<u8>, from: int, limits: JournalExportLimits)
    requires
        0 <= from,
    ensures
        run_from(m, input, from, limits).complete ==> from < run_from(m, input, from, limits).used
            <= input.len(),
    decreases input.len() - from,
{
    if !(m.state is Eof) && from < input.len() {
        let n = step(m, input[from], limits);
        if !(n.state is Eof) && !completes(m, input[from]) {
            lemma_complete_moves(n, input, from + 1, limits);
        }
    }
}

/// Round trip, for a reader. From input that is a concatenation of entries
/// in wire format, [read_entries] returns exactly these entries, in their
/// order, and no failure.
pub proof fn lemma_reads_what_was_written(
    entries: Seq<EntryView>,
    input: Seq<u8>,
    limits: JournalExportLimits,
)
    requires
        forall|i: int|
            0 <= i < entries.len() ==> is_entry(
                (#[trigger] entries[i]).text,
                entries[i].fields,
                limits,
            ),
        input == concat(entries),
    ensures
        yields(Scan::start(), input, 0, limits) == entries,
        ending(input, limits) is None,
{
    assert(input.subrange(0, input.len() as int) =~= input);
    lemma_round_trip_stream(entries, Scan::start(), input, 0, limits);
}

/// Entries in wire format, and behind them an entry that is larger than an
/// entry may be: a reader gets the entries before it, and then fails with
/// `EntryTooLarge`.
pub proof fn lemma_stream_with_large_entry(
    entries: Seq<EntryView>,
    w: Seq<u8>,
    fields: Seq<FieldSpan>,
    m: Scan,
    input: Seq<u8>,
    from: int,
    limits: JournalExportLimits,
)
    requires
        forall|i: int|
            0 <= i < entries.len() ==> is_entry(
                (#[trigger] entries[i]).text,
                entries[i].fields,
                limits,
            ),
        is_entry(w, fields, without_entry_limit(limits)),
        w.len() > limits.max_entry_size,
        holds(input, from, concat(entries) + w),
        m.state == ParserState::EntryStart,
    ensures
        yields(m, input, from, limits) == entries,
        last_run(m, input, from, limits).failure() == Some(JournalExportReadError::EntryTooLarge),
        !last_run(m, input, from, limits).complete,
    decreases entries.len(),
{
    let all = concat(entries) + w;
    assert forall|j: int| 0 <= j < all.len() implies input[from + j] == all[j] by {
        assert(input.subrange(from, from + all.len())[j] == input[from + j]);
    }
    if entries.len() == 0 {
        assert(input.subrange(from, from + w.len()) =~= w);
        lemma_entry_too_large(w, fields, m, input, from, limits);
        assert(yields(m, input, from, limits) =~= entries);
    } else {
        let e = entries[0];
        let rest = entries.drop_first();
        assert(input.subrange(from, from + e.text.len()) =~= e.text);
        lemma_round_trip(e.text, e.fields, m, input, from, limits);
        let next = from + e.text.len();
        let tail = concat(rest) + w;
        assert(input.subrange(next, next + tail.len()) =~= tail) by {
            assert forall|j: int| 0 <= j < tail.len() implies input[next + j] == tail[j] by {
                assert(all[e.text.len() + j] == tail[j]);
            }
        }
        assert forall|i: int| 0 <= i < rest.len() implies is_entry(
            (#[trigger] rest[i]).text,
            rest[i].fields,
            limits,
        ) by {
            assert(rest[i] == entries[i + 1]);
        }
        let cleared = behind_entry(e.text, e.fields).cleared();
        lemma_stream_with_large_entry(rest, w, fields, cleared, input, next, limits);
        assert(seq![e] + rest =~= entries);
    }
}

/// Limit enforcement, for a reader. Where an entry that is larger than an
/// entry may be stands behind entries in wire format, [read_entries]
/// returns the entries before it and the failure `EntryTooLarge`, whatever
/// follows the large entry.
pub proof fn lemma_reads_up_to_large_entry(
    entries: Seq<EntryView>,
    w: Seq<u8>,
    fields: Seq<FieldSpan>,
    input: Seq<u8>,
    limits: JournalExportLimits,
)
    requires
        forall|i: int|
            0 <= i < entries.len() ==> is_entry(
                (#[trigger] entries[i]).text,
                entries[i].fields,
                limits,
            ),
        is_entry(w, fields, without_entry_limit(limits)),
        w.len() > limits.max_entry_size,
        holds(input, 0, concat(entries) + w),
    ensures
        yields(Scan::start(), input, 0, limits) == entries,
        ending(input, limits) == Some(JournalExportReadError::EntryTooLarge),
{
    lemma_stream_with_large_entry(entries, w, fields, Scan::start(), input, 0, limits);
}

/// Copies as many of the bytes of `input` from `from` on as there is room
/// for, and tells how many.
fn fill(room: &mut [u8], input: &[u8], from: usize) -> (n: usize)
    requires
        from <= input@.len(),
    ensures
        final(room)@.len() == old(room)@.len(),
        n <= old(room)@.len(),
        from + n <= input@.len(),
        n == old(room)@.len() || from + n == input@.len(),
        final(room)@.subrange(0, n as int) == input@.subrange(from as int, from + n),
{
    let mut n: usize = 0;
    while n < room.len() && n < input.len() - from
        invariant
            from <= input@.len(),
            room@.len() == old(room)@.len(),
            n <= room@.len(),
            from + n <= input@.len(),
            room@.subrange(0, n as int) == input@.subrange(from as int, from + n),
        decreases room@.len() - n,
    {
        let ghost before = room@;
        room[n] = input[from + n];
        n = n + 1;
        assert(room@.subrange(0, n as int) =~= before.subrange(0, n - 1).push(input@[from + n - 1]));
        assert(input@.subrange(from as int, from + n) =~= input@.subrange(
            from as int,
            from + n - 1,
        ).push(input@[from + n - 1]));
    }
    n
}

/// Reads every entry out of `input` with a parser whose buffer has
/// `buf_size` bytes at first.
///
/// The entries come in the order in which they stand in the input, up to
/// the place where the input ends or the parser fails; the second part of
/// the result is the failure, if there was one. Each entry is what one run
/// of the scanner completes, begun where the entry before it ended: the
/// size of the buffer, and the pieces in which the parser gets the input,
/// have no part in the result. The bounds on `buf_size` and on the input
/// keep twice the size of the buffer within `usize`, however it grows.
pub fn read_entries(limits: JournalExportLimits, buf_size: usize, input: &[u8]) -> (r: (
    Vec<OwnedEntry>,
    Option<JournalExportReadError>,
))
    requires
        0 < buf_size <= usize::MAX / 2,
        input@.len() <= usize::MAX / 4,
    ensures
        r.0@.len() == yields(Scan::start(), input@, 0, limits).len(),
        forall|i: int|
            0 <= i < r.0@.len() ==> (#[trigger] r.0@[i]).wf() && r.0@[i].entry() == yields(
                Scan::start(),
                input@,
                0,
                limits,
            )[i],
        r.1 == ending(input@, limits),
{
    let mut parser = JournalExportParser::new(limits, buf_size);
    let mut entries: Vec<OwnedEntry> = Vec::new();
    let mut fed: usize = 0;
    let ghost mut found: Seq<EntryView> = Seq::empty();
    proof {
        assert(parser.pending() =~= input@.subrange(0, 0));
        assert(found + yields(Scan::start(), input@, 0, limits) =~= yields(
            Scan::start(),
            input@,
            0,
            limits,
        ));
    }
    loop
        invariant
            parser.wf(),
            parser.limits() == limits,
            !(parser.scan().state is Eof),
            fed <= input@.len() <= usize::MAX / 4,
            parser.buffer().upper == fed,
            parser.pending() == input@.subrange(parser.cursor() as int, fed as int),
            parser.exhausted() ==> fed == input@.len(),
            0 < parser.buffer().capacity() <= usize::MAX / 2,
            parser.buffer().capacity() <= buf_size || parser.buffer().capacity() <= 2
                * input@.len(),
            found + yields(parser.scan(), input@, parser.cursor() as int, limits) == yields(
                Scan::start(),
                input@,
                0,
                limits,
            ),
            found.len() == entries@.len(),
            last_run(parser.scan(), input@, parser.cursor() as int, limits) == last_run(
                Scan::start(),
                input@,
                0,
                limits,
            ),
            forall|i: int|
                0 <= i < entries@.len() ==> (#[trigger] entries@[i]).wf() && entries@[i].entry()
                    == found[i],
        decreases
                input@.len() - parser.cursor(),
                input@.len() - fed,
                if parser.exhausted() {
                    0int
                } else {
                    1int
                },
    {
        let ghost m = parser.scan();
        let ghost at = parser.cursor() as int;
        let ghost ran = run(m, parser.pending(), limits);
        proof {
            lemma_run_inv(m, parser.pending(), 0, limits);
            lemma_window(m, input@, at, fed as int, 0, limits);
            lemma_complete_moves(m, parser.pending(), 0, limits);
        }
        match parser.parse() {
            ParseResult::Complete(_) => {
                let entry = parser.get_entry().to_owned();
                let ghost earlier = found;
                entries.push(entry);
                parser.clear_entry();
                proof {
                    found = earlier.push(EntryView { text: ran.scan.text, fields: ran.scan.fields });
                    assert(parser.pending() =~= input@.subrange(at + ran.used, fed as int));
                    let whole = run_from(m, input@, at, limits);
                    assert(whole == Progress { used: at + ran.used, ..ran });
                    assert(yields(m, input@, at, limits) == seq![
                        EntryView { text: ran.scan.text, fields: ran.scan.fields },
                    ] + yields(ran.scan.cleared(), input@, at + ran.used, limits));
                    assert(last_run(m, input@, at, limits) == last_run(
                        ran.scan.cleared(),
                        input@,
                        at + ran.used,
                        limits,
                    ));
                    assert(found + yields(
                        parser.scan(),
                        input@,
                        parser.cursor() as int,
                        limits,
                    ) =~= earlier + yields(m, input@, at, limits));
                }
            },
            ParseResult::Failed(e) => {
                proof {
                    assert(found =~= yields(Scan::start(), input@, 0, limits));
                }
                return (entries, Some(e));
            },
            ParseResult::Eof => {
                proof {
                    assert(found =~= yields(Scan::start(), input@, 0, limits));
                }
                return (entries, None);
            },
            ParseResult::Underfilled(free) => {
                let n = fill(free, input, fed);
                parser.extend(n);
                fed = fed + n;
                proof {
                    assert(parser.pending() =~= input@.subrange(parser.cursor() as int, fed as int));
                    let whole = run_from(m, input@, at, limits);
                    assert(whole == run_from(ran.scan, input@, at + ran.used, limits));
                    lemma_complete_moves(ran.scan, input@, at + ran.used, limits);
                    assert(yields(m, input@, at, limits) == yields(
                        ran.scan,
                        input@,
                        at + ran.used,
                        limits,
                    ));
                    assert(last_run(m, input@, at, limits) == last_run(
                        ran.scan,
                        input@,
                        at + ran.used,
                        limits,
                    ));
                }
            },
        }
    }
}

} // verus!
