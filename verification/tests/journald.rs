use loginus::config::JournalExportLimits;
use loginus::config::JournalExportLimitsBuilder;
use loginus::journald::parser::FieldType;
use loginus::journald::parser::JournalExportParser;
use loginus::journald::parser::ParseResult;
use loginus::journald::Entry;
use loginus::journald::JournalExportReadError;
use loginus::journald::DEFAULT_BUF_SIZE;

type Fields = Vec<(Vec<u8>, Vec<u8>, FieldType)>;

/// A source that hands out its bytes in pieces of at most `chunk` bytes.
struct Source<'a> {
    data: &'a [u8],
    pos: usize,
    chunk: usize,
}

#[derive(Debug, PartialEq)]
enum Step {
    Entry,
    Failed(JournalExportReadError),
    End,
}

fn source(data: &[u8], chunk: usize) -> Source<'_> {
    Source { data, pos: 0, chunk }
}

/// Runs the parser until it has something to say, filling its buffer
/// from the source whenever it asks.
fn advance(parser: &mut JournalExportParser, src: &mut Source<'_>) -> Step {
    loop {
        assert!(parser.capacity() <= usize::MAX / 2);
        let n = match parser.parse() {
            ParseResult::Complete(()) => return Step::Entry,
            ParseResult::Failed(e) => return Step::Failed(e),
            ParseResult::Eof => return Step::End,
            ParseResult::Underfilled(free) => {
                let n = src.chunk.min(free.len()).min(src.data.len() - src.pos);
                free[..n].copy_from_slice(&src.data[src.pos..src.pos + n]);
                src.pos += n;
                n
            }
        };
        parser.extend(n);
    }
}

fn next_entry(parser: &mut JournalExportParser, src: &mut Source<'_>) -> Step {
    parser.clear_entry();
    advance(parser, src)
}

fn fields_of<E: Entry>(entry: &E) -> Fields {
    let mut out = vec![];
    let mut it = entry.iter();
    while let Some((name, value, kind)) = it.next() {
        out.push((name.to_vec(), value.to_vec(), kind));
    }
    out
}

fn text(name: &str, value: &str) -> (Vec<u8>, Vec<u8>, FieldType) {
    (name.as_bytes().to_vec(), value.as_bytes().to_vec(), FieldType::String)
}

fn binary_field(name: &str, payload: &[u8]) -> Vec<u8> {
    let mut out = name.as_bytes().to_vec();
    out.push(b'\n');
    out.extend_from_slice(&(payload.len() as u64).to_le_bytes());
    out.extend_from_slice(payload);
    out.push(b'\n');
    out
}

fn parser(buf_size: usize) -> JournalExportParser {
    JournalExportParser::new(JournalExportLimits::default(), buf_size)
}

/// The default limits with room for entries of up to `size` bytes.
fn roomy(size: usize) -> JournalExportLimits {
    JournalExportLimitsBuilder::new().with_max_entry_size(size).build()
}

/// Every entry of the input as its bytes and its fields, and how the
/// input ended.
fn read_all(input: &[u8], buf_size: usize, chunk: usize) -> (Vec<(Vec<u8>, Fields)>, Step) {
    read_all_within(JournalExportLimits::default(), input, buf_size, chunk)
}

fn read_all_within(
    limits: JournalExportLimits,
    input: &[u8],
    buf_size: usize,
    chunk: usize,
) -> (Vec<(Vec<u8>, Fields)>, Step) {
    let mut p = JournalExportParser::new(limits, buf_size);
    let mut src = source(input, chunk);
    let mut out = vec![];
    loop {
        match next_entry(&mut p, &mut src) {
            Step::Entry => {
                assert!(p.has_entry());
                let e = p.get_entry();
                out.push((e.as_bytes().to_vec(), fields_of(&e)));
            }
            end => return (out, end),
        }
    }
}

#[test]
fn two_text_fields_make_one_entry() {
    let input = b"MESSAGE=hi\n__CURSOR=abc\n\n";
    let (entries, end) = read_all(input, 64, 64);
    assert_eq!(end, Step::End);
    assert_eq!(entries.len(), 1);
    assert_eq!(entries[0].1, vec![text("MESSAGE", "hi"), text("__CURSOR", "abc")]);
    assert_eq!(entries[0].0, b"MESSAGE=hi\n__CURSOR=abc\n");
}

#[test]
fn a_binary_field_is_read_by_its_length() {
    let mut input = b"KEY\n".to_vec();
    input.extend_from_slice(&[3, 0, 0, 0, 0, 0, 0, 0]);
    input.extend_from_slice(b"xyz\n\n");
    let (entries, end) = read_all(&input, 64, 64);
    assert_eq!(end, Step::End);
    assert_eq!(entries.len(), 1);
    assert_eq!(entries[0].1, vec![(b"KEY".to_vec(), b"xyz".to_vec(), FieldType::Binary)]);
    assert_eq!(entries[0].0, &input[..input.len() - 1]);
}

#[test]
fn a_truncated_entry_is_an_unexpected_end() {
    let (entries, end) = read_all(b"MESSAGE=hi\n", 64, 64);
    assert!(entries.is_empty());
    assert_eq!(end, Step::Failed(JournalExportReadError::UnexpectedEof));
}

#[test]
fn empty_input_is_a_clean_end() {
    let (entries, end) = read_all(b"", 64, 64);
    assert!(entries.is_empty());
    assert_eq!(end, Step::End);
}

fn big_entry(size: usize) -> Vec<u8> {
    // One entry of exactly `size` bytes, blank line included, made of
    // text fields of a kilobyte each.
    let mut out = vec![];
    while out.len() + 1024 + 5 <= size {
        out.extend_from_slice(b"FIELD=");
        out.extend(std::iter::repeat(b'v').take(1024 - 7));
        out.push(b'\n');
    }
    let left = size - out.len();
    assert!(left >= 5);
    out.extend_from_slice(b"Z=");
    out.extend(std::iter::repeat(b'w').take(left - 4));
    out.extend_from_slice(b"\n\n");
    assert_eq!(out.len(), size);
    out
}

#[test]
fn entries_beyond_the_buffer_grow_it_and_later_ones_shift() {
    let first = big_entry(20 * 1024);
    let second = b"AB=12345\n\n".to_vec();
    assert_eq!(second.len(), 10);
    let mut input = first.clone();
    input.extend_from_slice(&second);

    // An entry of 20 KiB is beyond the default limit on entries.
    let mut p = JournalExportParser::new(roomy(20 * 1024), DEFAULT_BUF_SIZE);
    assert_eq!(p.capacity(), 16 * 1024);
    let mut src = source(&input, usize::MAX);
    assert_eq!(next_entry(&mut p, &mut src), Step::Entry);
    // The first entry did not fit: the buffer was doubled, not shifted.
    assert_eq!(p.capacity(), 32 * 1024);
    assert_eq!(p.get_entry().as_bytes(), &first[..first.len() - 1]);
    assert_eq!(fields_of(&p.get_entry()).len(), 20);
    assert_eq!(next_entry(&mut p, &mut src), Step::Entry);
    assert_eq!(p.get_entry().as_bytes(), b"AB=12345\n");
    assert_eq!(fields_of(&p.get_entry()), vec![text("AB", "12345")]);
    assert_eq!(next_entry(&mut p, &mut src), Step::End);
    assert_eq!(p.capacity(), 32 * 1024);

    // The same two entries with more behind them: once the doubled
    // buffer is full the entries that were read make room, and the
    // buffer stays as large as it is.
    let mut long = input.clone();
    for _ in 0..4000 {
        long.extend_from_slice(&second);
    }
    let (entries, end) = read_all_within(roomy(20 * 1024), &long, DEFAULT_BUF_SIZE, usize::MAX);
    assert_eq!(end, Step::End);
    assert_eq!(entries.len(), 4002);
    assert_eq!(entries[0].0, &first[..first.len() - 1]);
    assert!(entries[1..].iter().all(|e| e.0 == b"AB=12345\n"));
    let mut p = JournalExportParser::new(roomy(20 * 1024), DEFAULT_BUF_SIZE);
    let mut src = source(&long, usize::MAX);
    while next_entry(&mut p, &mut src) == Step::Entry {}
    assert_eq!(p.capacity(), 32 * 1024);
    assert_eq!(p.received(), long.len());
}

fn sample_stream() -> (Vec<u8>, Vec<Vec<u8>>, Vec<Fields>) {
    let mut e1 = b"MESSAGE=hello world\n_PID=42\n".to_vec();
    e1.extend_from_slice(&binary_field("BLOB", b"a\nb\n\n=c"));
    e1.extend_from_slice(b"EMPTY=\n\n");
    let mut e2 = binary_field("_B", b"");
    e2.extend_from_slice(b"9LIVES=x=y\n\n");
    let e3 = b"__CURSOR=s=1;i=2\n\n".to_vec();
    let f1 = vec![
        text("MESSAGE", "hello world"),
        text("_PID", "42"),
        (b"BLOB".to_vec(), b"a\nb\n\n=c".to_vec(), FieldType::Binary),
        text("EMPTY", ""),
    ];
    let f2 = vec![(b"_B".to_vec(), vec![], FieldType::Binary), text("9LIVES", "x=y")];
    let f3 = vec![text("__CURSOR", "s=1;i=2")];
    let mut all = e1.clone();
    all.extend_from_slice(&e2);
    all.extend_from_slice(&e3);
    (all, vec![e1, e2, e3], vec![f1, f2, f3])
}

#[test]
fn round_trip_in_pieces_of_any_size() {
    let (input, wire, fields) = sample_stream();
    for buf_size in [1, 2, 5, 64, 4096] {
        for chunk in [1, 2, 3, 7, 64, usize::MAX] {
            let (entries, end) = read_all(&input, buf_size, chunk);
            assert_eq!(end, Step::End);
            assert_eq!(entries.len(), 3);
            for i in 0..3 {
                assert_eq!(entries[i].0, &wire[i][..wire[i].len() - 1]);
                assert_eq!(entries[i].1, fields[i]);
            }
        }
    }
}

#[test]
fn a_parse_resumes_wherever_the_input_was_cut() {
    let (input, wire, fields) = sample_stream();
    for cut in 0..=input.len() {
        let mut p = parser(16);
        let mut got = vec![];
        let mut halves = [source(&input[..cut], usize::MAX), source(&input[cut..], usize::MAX)];
        let mut half = 0;
        p.clear_entry();
        loop {
            assert!(p.capacity() <= usize::MAX / 2);
            let n = match p.parse() {
                ParseResult::Complete(()) => {
                    let e = p.get_entry();
                    got.push((e.as_bytes().to_vec(), fields_of(&e)));
                    p.clear_entry();
                    continue;
                }
                ParseResult::Failed(e) => panic!("failed with {:?} at cut {}", e, cut),
                ParseResult::Eof => break,
                ParseResult::Underfilled(free) => {
                    if half == 0 && halves[0].pos == cut {
                        half = 1;
                    }
                    let src = &mut halves[half];
                    let n = free.len().min(src.data.len() - src.pos);
                    free[..n].copy_from_slice(&src.data[src.pos..src.pos + n]);
                    src.pos += n;
                    n
                }
            };
            p.extend(n);
        }
        assert_eq!(got.len(), 3);
        for i in 0..3 {
            assert_eq!(got[i].0, &wire[i][..wire[i].len() - 1]);
            assert_eq!(got[i].1, fields[i]);
        }
    }
}

#[test]
fn iterating_twice_yields_the_same_fields() {
    let (input, _, fields) = sample_stream();
    let mut p = parser(64);
    let mut src = source(&input, 5);
    assert_eq!(next_entry(&mut p, &mut src), Step::Entry);
    let e = p.get_entry();
    let once = fields_of(&e);
    let twice = fields_of(&e);
    assert_eq!(once, twice);
    assert_eq!(once, fields[0]);
    assert_eq!(fields_of(&p.get_entry()), fields[0]);
    let mut it = e.iter();
    for _ in 0..4 {
        assert!(it.next().is_some());
    }
    assert!(it.next().is_none());
    assert!(it.next().is_none());
}

#[test]
fn an_owned_entry_outlives_the_parse_that_made_it() {
    let (input, wire, fields) = sample_stream();
    let mut p = parser(8);
    let mut src = source(&input, 3);
    assert_eq!(next_entry(&mut p, &mut src), Step::Entry);
    let first = p.get_entry().to_owned();
    assert_eq!(next_entry(&mut p, &mut src), Step::Entry);
    let second = p.get_entry().to_owned();
    assert_eq!(next_entry(&mut p, &mut src), Step::Entry);
    assert_eq!(next_entry(&mut p, &mut src), Step::End);
    assert_eq!(first.as_bytes(), &wire[0][..wire[0].len() - 1]);
    assert_eq!(fields_of(&first), fields[0]);
    assert_eq!(second.as_bytes(), &wire[1][..wire[1].len() - 1]);
    assert_eq!(fields_of(&second), fields[1]);
    assert_eq!(fields_of(&second), fields_of(&second));
}

fn limits(name: usize, value: usize) -> JournalExportLimits {
    JournalExportLimitsBuilder::new()
        .with_max_field_name_len(name)
        .with_max_field_value_size(value)
        .build()
}

#[test]
fn a_text_value_may_fill_the_limit_and_no_more() {
    let mut p = JournalExportParser::new(limits(8, 4), 64);
    let mut src = source(b"A=1234\nB=\n\n", usize::MAX);
    assert_eq!(next_entry(&mut p, &mut src), Step::Entry);
    assert_eq!(fields_of(&p.get_entry()), vec![text("A", "1234"), text("B", "")]);

    let mut p = JournalExportParser::new(limits(8, 4), 64);
    let mut src = source(b"A=12345\n\n", usize::MAX);
    assert_eq!(
        next_entry(&mut p, &mut src),
        Step::Failed(JournalExportReadError::FieldValueTooLong)
    );
}

#[test]
fn a_text_value_beyond_the_limit_fails_before_it_is_buffered() {
    // The value never ends; the parser must give up at the first byte
    // beyond the limit instead of asking for more and more.
    let mut input = b"MESSAGE=".to_vec();
    input.extend(std::iter::repeat(b'x').take(1 << 20));
    let mut p = JournalExportParser::new(limits(128, 100), 16);
    let mut src = source(&input, 16);
    assert_eq!(
        next_entry(&mut p, &mut src),
        Step::Failed(JournalExportReadError::FieldValueTooLong)
    );
    // "MESSAGE=" and a hundred bytes were scanned; the byte that is one
    // too many was looked at but nothing behind it was asked for.
    assert!(src.pos <= 8 + 100 + 16);
    assert!(p.capacity() <= 256);
}

#[test]
fn a_binary_length_beyond_the_limit_fails_without_the_value() {
    let mut input = b"BLOB\n".to_vec();
    input.extend_from_slice(&101u64.to_le_bytes());
    // Nothing of the value is there, and nothing is needed.
    let mut p = JournalExportParser::new(limits(128, 100), 64);
    let mut src = source(&input, usize::MAX);
    p.clear_entry();
    let n = match p.parse() {
        ParseResult::Underfilled(free) => {
            free[..input.len()].copy_from_slice(&input);
            input.len()
        }
        _ => panic!("the parser did not ask for input"),
    };
    p.extend(n);
    assert!(matches!(
        p.parse(),
        ParseResult::Failed(JournalExportReadError::FieldValueTooLong)
    ));

    // A hostile length of 2^64 - 1 is refused the same way, byte by byte.
    let mut input = b"BLOB\n".to_vec();
    input.extend_from_slice(&u64::MAX.to_le_bytes());
    input.extend_from_slice(b"payload");
    let mut p = JournalExportParser::new(limits(128, 100), 4);
    src = source(&input, 1);
    assert_eq!(
        next_entry(&mut p, &mut src),
        Step::Failed(JournalExportReadError::FieldValueTooLong)
    );
    assert_eq!(src.pos, 5 + 8);
}

#[test]
fn a_binary_value_may_fill_the_limit() {
    let payload = vec![b'\n'; 100];
    let mut input = binary_field("BLOB", &payload);
    input.push(b'\n');
    let mut p = JournalExportParser::new(limits(128, 100), 8);
    let mut src = source(&input, 3);
    assert_eq!(next_entry(&mut p, &mut src), Step::Entry);
    assert_eq!(fields_of(&p.get_entry()), vec![(b"BLOB".to_vec(), payload, FieldType::Binary)]);
}

#[test]
fn a_name_may_fill_the_limit_and_no_more() {
    let mut p = JournalExportParser::new(limits(4, 10), 64);
    let mut src = source(b"ABCD=1\n\n", usize::MAX);
    assert_eq!(next_entry(&mut p, &mut src), Step::Entry);
    assert_eq!(fields_of(&p.get_entry()), vec![text("ABCD", "1")]);

    let mut p = JournalExportParser::new(limits(4, 10), 64);
    let mut src = source(b"ABCDE=1\n\n", usize::MAX);
    assert_eq!(
        next_entry(&mut p, &mut src),
        Step::Failed(JournalExportReadError::FieldNameTooLong)
    );

    let mut p = JournalExportParser::new(limits(4, 10), 64);
    let mut src = source(b"OK=1\nABCDEFGHIJKLMNOP", 1);
    assert_eq!(
        next_entry(&mut p, &mut src),
        Step::Failed(JournalExportReadError::FieldNameTooLong)
    );
    assert_eq!(src.pos, 5 + 6);
}

fn failure_of(input: &[u8]) -> Step {
    let (entries, end) = read_all(input, 4, 3);
    assert!(entries.is_empty());
    end
}

#[test]
fn bytes_that_break_the_grammar() {
    let bad = |c: u8| Step::Failed(JournalExportReadError::UnexpectedCharacter(c));
    // The first byte of an entry is a letter or an underscore.
    assert_eq!(failure_of(b"1A=x\n\n"), bad(b'1'));
    assert_eq!(failure_of(b"=x\n\n"), bad(b'='));
    assert_eq!(failure_of(b"\n"), bad(b'\n'));
    assert_eq!(failure_of(b" A=x\n\n"), bad(b' '));
    // A name holds letters, digits and underscores.
    assert_eq!(failure_of(b"A-B=x\n\n"), bad(b'-'));
    assert_eq!(failure_of(b"A b=x\n\n"), bad(b' '));
    // Behind a field comes a name or the blank line.
    assert_eq!(failure_of(b"A=x\n=y\n\n"), bad(b'='));
    assert_eq!(failure_of(b"A=x\n-\n"), bad(b'-'));
    // Behind a binary value comes a line feed.
    let mut input = b"B\n".to_vec();
    input.extend_from_slice(&2u64.to_le_bytes());
    input.extend_from_slice(b"xyz\n\n");
    assert_eq!(failure_of(&input), bad(b'z'));
}

#[test]
fn names_behind_the_first_may_begin_with_a_digit() {
    let (entries, end) = read_all(b"_A1=x\n2B=y\n\n", 4, 1);
    assert_eq!(end, Step::End);
    assert_eq!(entries[0].1, vec![text("_A1", "x"), text("2B", "y")]);
}

#[test]
fn input_that_ends_inside_an_entry() {
    let eof = Step::Failed(JournalExportReadError::UnexpectedEof);
    assert_eq!(failure_of(b"M"), eof);
    assert_eq!(failure_of(b"MESSAGE"), eof);
    assert_eq!(failure_of(b"MESSAGE="), eof);
    assert_eq!(failure_of(b"MESSAGE=hi"), eof);
    assert_eq!(failure_of(b"MESSAGE\n\x03\0\0"), eof);
    assert_eq!(failure_of(b"MESSAGE\n\x03\0\0\0\0\0\0\0xy"), eof);
    assert_eq!(failure_of(b"MESSAGE\n\x03\0\0\0\0\0\0\0xyz"), eof);
    let (entries, end) = read_all(b"A=1\n\nB=2\n", 4, 3);
    assert_eq!(entries.len(), 1);
    assert_eq!(end, eof);
}

#[test]
fn a_failure_is_final() {
    let mut p = parser(8);
    let mut src = source(b"A=1\n\n?B=2\n\nC=3\n\n", usize::MAX);
    assert_eq!(next_entry(&mut p, &mut src), Step::Entry);
    let failed = Step::Failed(JournalExportReadError::UnexpectedCharacter(b'?'));
    assert_eq!(next_entry(&mut p, &mut src), failed);
    assert!(!p.has_entry());
    for _ in 0..3 {
        assert_eq!(next_entry(&mut p, &mut src), failed);
        assert_eq!(advance(&mut p, &mut src), failed);
    }
    let mut p = parser(8);
    let mut src = source(b"A=1", usize::MAX);
    let eof = Step::Failed(JournalExportReadError::UnexpectedEof);
    assert_eq!(next_entry(&mut p, &mut src), eof);
    assert_eq!(next_entry(&mut p, &mut src), eof);
}

#[test]
fn the_end_of_the_input_is_told_again() {
    let mut p = parser(8);
    let mut src = source(b"A=1\n\n", usize::MAX);
    assert!(!p.has_entry());
    assert_eq!(next_entry(&mut p, &mut src), Step::Entry);
    assert!(p.has_entry());
    assert_eq!(next_entry(&mut p, &mut src), Step::End);
    assert!(!p.has_entry());
    assert_eq!(next_entry(&mut p, &mut src), Step::End);
}

#[test]
fn an_entry_stays_until_it_is_cleared_or_the_next_begins() {
    let mut p = parser(64);
    let mut src = source(b"A=1\n\nB=2\nC=3\n\n", usize::MAX);
    assert_eq!(advance(&mut p, &mut src), Step::Entry);
    assert_eq!(fields_of(&p.get_entry()), vec![text("A", "1")]);
    // Without a call of `clear_entry` the next entry replaces this one.
    assert_eq!(advance(&mut p, &mut src), Step::Entry);
    assert_eq!(fields_of(&p.get_entry()), vec![text("B", "2"), text("C", "3")]);
    assert_eq!(p.get_entry().as_bytes(), b"B=2\nC=3\n");
    p.clear_entry();
    assert!(!p.has_entry());
}

#[test]
fn clearing_inside_an_entry_loses_nothing() {
    let input = b"A=1\nB=2\n\n";
    let mut p = parser(64);
    p.clear_entry();
    let n = match p.parse() {
        ParseResult::Underfilled(free) => {
            free[..6].copy_from_slice(&input[..6]);
            6
        }
        _ => panic!("the parser did not ask for input"),
    };
    p.extend(n);
    // The parser scans "A=1\nB=" and asks for more in the middle of the
    // second field.
    let n = match p.parse() {
        ParseResult::Underfilled(free) => {
            free[..3].copy_from_slice(&input[6..]);
            3
        }
        _ => panic!("the parser did not ask for input"),
    };
    assert!(!p.has_entry());
    p.clear_entry();
    p.extend(n);
    assert!(matches!(p.parse(), ParseResult::Complete(())));
    assert_eq!(fields_of(&p.get_entry()), vec![text("A", "1"), text("B", "2")]);
    assert_eq!(p.get_entry().as_bytes(), b"A=1\nB=2\n");
}

#[test]
fn a_record_larger_than_the_buffer_grows_it() {
    let entry = big_entry(5000);
    let mut p = parser(1024);
    let mut src = source(&entry, usize::MAX);
    assert_eq!(next_entry(&mut p, &mut src), Step::Entry);
    assert_eq!(p.get_entry().as_bytes(), &entry[..entry.len() - 1]);
    // 1024 -> 2048 -> 4096 -> 8192
    assert_eq!(p.capacity(), 8192);
}

#[test]
fn a_run_of_small_records_shifts_and_does_not_grow() {
    let mut input = vec![];
    for i in 0..10_000 {
        input.extend_from_slice(format!("N={}\n\n", i).as_bytes());
    }
    for chunk in [1, 5, 64, usize::MAX] {
        let mut p = parser(64);
        let mut src = source(&input, chunk);
        let mut count = 0;
        while next_entry(&mut p, &mut src) == Step::Entry {
            let fields = fields_of(&p.get_entry());
            assert_eq!(fields, vec![text("N", &format!("{}", count))]);
            count += 1;
        }
        assert_eq!(count, 10_000);
        assert_eq!(p.capacity(), 64);
        assert_eq!(p.received(), input.len());
    }
}

#[test]
fn a_parser_without_a_buffer_sees_no_input() {
    let mut p = parser(0);
    let mut src = source(b"A=1\n\n", usize::MAX);
    assert_eq!(next_entry(&mut p, &mut src), Step::End);
    assert_eq!(p.capacity(), 0);
}

fn sized(name: usize, value: usize, entry: usize) -> JournalExportLimits {
    JournalExportLimitsBuilder::new()
        .with_max_field_name_len(name)
        .with_max_field_value_size(value)
        .with_max_entry_size(entry)
        .build()
}

const TOO_LARGE: Step = Step::Failed(JournalExportReadError::EntryTooLarge);

#[test]
fn an_entry_may_fill_the_limit_and_no_more() {
    let input = b"A=xy\n\n";
    assert_eq!(input.len(), 6);
    let (entries, end) = read_all_within(sized(8, 8, 6), input, 4, 1);
    assert_eq!(end, Step::End);
    assert_eq!(entries.len(), 1);
    assert_eq!(entries[0].0, b"A=xy\n");
    assert_eq!(entries[0].1, vec![text("A", "xy")]);
    for cap in 1..6 {
        let (entries, end) = read_all_within(sized(8, 8, cap), input, 4, 1);
        assert!(entries.is_empty());
        assert_eq!(end, TOO_LARGE, "limit {}", cap);
    }
    // The limit holds of each entry, not of the stream.
    let (entries, end) = read_all_within(sized(8, 8, 6), b"A=xy\n\nB=1\nC=\n\n", 4, 3);
    assert_eq!(end, TOO_LARGE);
    assert_eq!(entries.len(), 1);
    let (entries, end) = read_all_within(sized(8, 8, 9), b"A=xy\n\nB=1\nC=\n\nD=12345\n\n", 4, 3);
    assert_eq!(end, Step::End);
    assert_eq!(entries.len(), 3);
}

#[test]
fn the_default_limit_on_entries_is_sixteen_kilobytes() {
    let fits = big_entry(16 * 1024);
    let (entries, end) = read_all(&fits, 1024, 1000);
    assert_eq!(end, Step::End);
    assert_eq!(entries.len(), 1);
    assert_eq!(entries[0].0, &fits[..fits.len() - 1]);
    let over = big_entry(16 * 1024 + 1);
    let (entries, end) = read_all(&over, 1024, 1000);
    assert!(entries.is_empty());
    assert_eq!(end, TOO_LARGE);
}

#[test]
fn fields_without_end_do_not_grow_the_buffer_without_end() {
    // Small fields, each within its limit, and never a blank line.
    let mut input = vec![];
    for _ in 0..100_000 {
        input.extend_from_slice(b"A=1\n");
    }
    let mut p = JournalExportParser::new(sized(8, 8, 64), 16);
    let mut src = source(&input, 16);
    assert_eq!(next_entry(&mut p, &mut src), TOO_LARGE);
    // Sixty-four bytes were scanned, and the byte that is one too many
    // was looked at; the buffer holds the entry at hand and no more.
    assert!(src.pos <= 64 + 32);
    assert_eq!(p.capacity(), 128);
    assert_eq!(next_entry(&mut p, &mut src), TOO_LARGE);
    assert!(!p.has_entry());
}

#[test]
fn a_binary_value_that_cannot_fit_the_entry_fails_without_the_value() {
    // The value is within its own limit, but the entry has no room for
    // it, the line feed behind it and the blank line.
    let mut input = b"A=1\nBLOB\n".to_vec();
    input.extend_from_slice(&100u64.to_le_bytes());
    let mut p = JournalExportParser::new(sized(8, 1000, 118), 64);
    let mut src = source(&input, 1);
    assert_eq!(next_entry(&mut p, &mut src), TOO_LARGE);
    assert_eq!(src.pos, input.len());

    // With one byte more the entry may come.
    let mut whole = input.clone();
    whole.extend(std::iter::repeat(0u8).take(100));
    whole.extend_from_slice(b"\n\n");
    assert_eq!(whole.len(), 119);
    let (entries, end) = read_all_within(sized(8, 1000, 119), &whole, 8, 5);
    assert_eq!(end, Step::End);
    assert_eq!(entries.len(), 1);
    assert_eq!(entries[0].1[1], (b"BLOB".to_vec(), vec![0u8; 100], FieldType::Binary));
    let (entries, end) = read_all_within(sized(8, 1000, 118), &whole, 8, 5);
    assert!(entries.is_empty());
    assert_eq!(end, TOO_LARGE);
}

#[test]
fn the_limit_on_entries_may_fall_inside_a_length() {
    let mut input = b"AB\n".to_vec();
    input.extend_from_slice(&1u64.to_le_bytes());
    input.extend_from_slice(b"x\n\n");
    for cap in 3..input.len() {
        for chunk in [1, 2, 64] {
            let mut p = JournalExportParser::new(sized(8, 8, cap), 4);
            let mut src = source(&input, chunk);
            assert_eq!(next_entry(&mut p, &mut src), TOO_LARGE, "limit {}", cap);
        }
    }
    let (entries, end) = read_all_within(sized(8, 8, input.len()), &input, 4, 1);
    assert_eq!(end, Step::End);
    assert_eq!(entries[0].1, vec![(b"AB".to_vec(), b"x".to_vec(), FieldType::Binary)]);
}

#[test]
fn the_limits_on_names_and_values_come_before_the_limit_on_entries() {
    // The byte that is one too many for the entry is also one too many
    // for the value, or for the name.
    let (_, end) = read_all_within(sized(8, 2, 4), b"A=xyz\n\n", 4, 1);
    assert_eq!(end, Step::Failed(JournalExportReadError::FieldValueTooLong));
    let (_, end) = read_all_within(sized(2, 8, 3), b"ABCD=x\n\n", 4, 1);
    assert_eq!(end, Step::Failed(JournalExportReadError::FieldNameTooLong));
    let (_, end) = read_all_within(sized(8, 8, 3), b"A=x?", 4, 1);
    assert_eq!(end, TOO_LARGE);
    let (_, end) = read_all_within(sized(8, 8, 1), b"A?", 4, 1);
    assert_eq!(end, Step::Failed(JournalExportReadError::UnexpectedCharacter(b'?')));
    let mut input = b"B\n".to_vec();
    input.extend_from_slice(&9u64.to_le_bytes());
    let (_, end) = read_all_within(sized(8, 8, 12), &input, 4, 1);
    assert_eq!(end, Step::Failed(JournalExportReadError::FieldValueTooLong));
}
