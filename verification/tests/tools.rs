use loginus::config::JournalExportLimits;
use loginus::journald::parser::JournalExportParser;
use loginus::journald::parser::ParseResult;
use loginus::tools::digest_name;
use loginus::tools::get_time_stamp;
use loginus::tools::next_to_merge;
use loginus::tools::parse_number;
use loginus::tools::to_hex;

fn parsed(input: &[u8]) -> JournalExportParser {
    let mut p = JournalExportParser::new(JournalExportLimits::default(), 256);
    let n = match p.parse() {
        ParseResult::Underfilled(free) => {
            free[..input.len()].copy_from_slice(input);
            input.len()
        }
        _ => panic!("the parser did not ask for input"),
    };
    p.extend(n);
    assert!(matches!(p.parse(), ParseResult::Complete(())));
    p
}

#[test]
fn numbers_as_they_are_spelled() {
    assert_eq!(parse_number(b"0"), Some(0));
    assert_eq!(parse_number(b"42"), Some(42));
    assert_eq!(parse_number(b"+42"), Some(42));
    assert_eq!(parse_number(b"007"), Some(7));
    assert_eq!(parse_number(b"1700000000000000"), Some(1_700_000_000_000_000));
    assert_eq!(parse_number(b"18446744073709551615"), Some(u64::MAX));
    assert_eq!(parse_number(b"00018446744073709551615"), Some(u64::MAX));
    assert_eq!(parse_number(b"18446744073709551616"), None);
    assert_eq!(parse_number(b"99999999999999999999999"), None);
    assert_eq!(parse_number(b""), None);
    assert_eq!(parse_number(b"+"), None);
    assert_eq!(parse_number(b"-1"), None);
    assert_eq!(parse_number(b"++1"), None);
    assert_eq!(parse_number(b"1+"), None);
    assert_eq!(parse_number(b" 1"), None);
    assert_eq!(parse_number(b"1 "), None);
    assert_eq!(parse_number(b"12a"), None);
    assert_eq!(parse_number(b"\xff"), None);
}

#[test]
fn numbers_agree_with_the_standard_parser() {
    for s in ["0", "+0", "10", "+", "", "1e3", "0x10", "18446744073709551615", "18446744073709551616", "٣"] {
        assert_eq!(parse_number(s.as_bytes()), s.parse::<u64>().ok(), "{}", s);
    }
}

#[test]
fn the_time_stamp_of_an_entry() {
    let p = parsed(b"MESSAGE=hi\n__REALTIME_TIMESTAMP=1700000000000000\n\n");
    assert_eq!(get_time_stamp(p.get_entry()), 1_700_000_000_000_000);
    let p = parsed(b"__REALTIME_TIMESTAMP=5\n__REALTIME_TIMESTAMP=6\n\n");
    assert_eq!(get_time_stamp(p.get_entry()), 5);
}

#[test]
fn an_entry_without_a_time_stamp_comes_last() {
    let p = parsed(b"MESSAGE=hi\n\n");
    assert_eq!(get_time_stamp(p.get_entry()), u64::MAX);
    let p = parsed(b"__REALTIME_TIMESTAMP=soon\n\n");
    assert_eq!(get_time_stamp(p.get_entry()), u64::MAX);
    let p = parsed(b"__REALTIME_TIMESTAMP=\n__REALTIME_TIMESTAMP=7\n\n");
    assert_eq!(get_time_stamp(p.get_entry()), u64::MAX);
    let p = parsed(b"_REALTIME_TIMESTAMP=7\n__REALTIME_TIMESTAMPS=8\n\n");
    assert_eq!(get_time_stamp(p.get_entry()), u64::MAX);
}

#[test]
fn the_earliest_journal_is_merged_next() {
    assert_eq!(next_to_merge(&[5, 3, 9]), 1);
    assert_eq!(next_to_merge(&[3, 5, 3]), 0);
    assert_eq!(next_to_merge(&[9, 7, 7, 8]), 1);
    assert_eq!(next_to_merge(&[u64::MAX, 4]), 1);
    assert_eq!(next_to_merge(&[7]), 0);
    assert_eq!(next_to_merge(&[u64::MAX - 2, u64::MAX]), 0);
    assert_eq!(next_to_merge(&[u64::MAX, u64::MAX - 2]), 1);
}

#[test]
fn journals_without_a_time_are_taken_in_order() {
    assert_eq!(next_to_merge(&[]), 0);
    assert_eq!(next_to_merge(&[u64::MAX, u64::MAX]), 0);
    assert_eq!(next_to_merge(&[u64::MAX, u64::MAX - 1]), 0);
}

#[test]
fn bytes_in_hexadecimal() {
    assert_eq!(to_hex(b""), "");
    assert_eq!(to_hex(&[0]), "00");
    assert_eq!(to_hex(&[0x0f, 0xf0, 0xab, 0x09, 0xff]), "0ff0ab09ff");
    assert_eq!(to_hex(b"Az"), "417a");
}

#[test]
fn the_name_of_an_entry_is_the_digest_of_its_bytes() {
    assert_eq!(
        digest_name(b""),
        "e3b0c44298fc1c149afbf4c8996fb92427ae41e4649b934ca495991b7852b855"
    );
    assert_eq!(
        digest_name(b"abc"),
        "ba7816bf8f01cfea414140de5dae2223b00361a396177a9cb410ff61f20015ad"
    );
    let p = parsed(b"MESSAGE=hi\n\n");
    let entry = p.get_entry();
    let name = digest_name(loginus::journald::Entry::as_bytes(&entry));
    assert_eq!(name.len(), 64);
    assert_eq!(name, digest_name(b"MESSAGE=hi\n"));
    assert_ne!(name, digest_name(b"MESSAGE=hi\n\n"));
}
