use loginus::config::JournalExportLimits;
use loginus::config::JournalExportLimitsBuilder;
use loginus::journald::memory::read_entries;
use loginus::journald::parser::FieldType;
use loginus::journald::parser::OwnedEntry;
use loginus::journald::Entry;
use loginus::journald::JournalExportReadError;

fn texts(entries: &[OwnedEntry]) -> Vec<Vec<u8>> {
    entries.iter().map(|e| e.as_bytes().to_vec()).collect()
}

fn stream() -> Vec<u8> {
    let mut input = b"MESSAGE=hi\n__CURSOR=abc\n\n".to_vec();
    input.extend_from_slice(b"KEY\n");
    input.extend_from_slice(&3u64.to_le_bytes());
    input.extend_from_slice(b"x\nz\n\n");
    input.extend_from_slice(b"A=\n\n");
    input
}

fn written() -> Vec<Vec<u8>> {
    let mut second = b"KEY\n".to_vec();
    second.extend_from_slice(&3u64.to_le_bytes());
    second.extend_from_slice(b"x\nz\n");
    vec![b"MESSAGE=hi\n__CURSOR=abc\n".to_vec(), second, b"A=\n".to_vec()]
}

#[test]
fn a_stream_is_read_entry_by_entry() {
    let (entries, failure) = read_entries(JournalExportLimits::default(), 64, &stream());
    assert_eq!(failure, None);
    assert_eq!(texts(&entries), written());
    let mut it = entries[1].iter();
    assert_eq!(it.next(), Some((&b"KEY"[..], &b"x\nz"[..], FieldType::Binary)));
    assert_eq!(it.next(), None);
    let mut it = entries[0].iter();
    assert_eq!(it.next(), Some((&b"MESSAGE"[..], &b"hi"[..], FieldType::String)));
    assert_eq!(it.next(), Some((&b"__CURSOR"[..], &b"abc"[..], FieldType::String)));
    assert_eq!(it.next(), None);
}

#[test]
fn the_size_of_the_buffer_does_not_show_in_what_is_read() {
    let input = stream();
    for size in 1..80 {
        let (entries, failure) = read_entries(JournalExportLimits::default(), size, &input);
        assert_eq!(failure, None, "buffer of {size}");
        assert_eq!(texts(&entries), written(), "buffer of {size}");
    }
}

#[test]
fn nothing_is_read_out_of_nothing() {
    let (entries, failure) = read_entries(JournalExportLimits::default(), 16, b"");
    assert!(entries.is_empty());
    assert_eq!(failure, None);
}

#[test]
fn what_stands_before_a_failure_is_read() {
    let mut input = stream();
    input.extend_from_slice(b"MESSAGE=hi\n");
    for size in [1, 5, 4096] {
        let (entries, failure) = read_entries(JournalExportLimits::default(), size, &input);
        assert_eq!(failure, Some(JournalExportReadError::UnexpectedEof));
        assert_eq!(texts(&entries), written());
    }
    let mut input = stream();
    input.extend_from_slice(b"=x\n\nA=b\n\n");
    let (entries, failure) = read_entries(JournalExportLimits::default(), 8, &input);
    assert_eq!(failure, Some(JournalExportReadError::UnexpectedCharacter(b'=')));
    assert_eq!(texts(&entries), written());
}

#[test]
fn an_entry_beyond_the_limit_ends_the_reading() {
    let limits = JournalExportLimitsBuilder::new().with_max_entry_size(25).build();
    let mut input = b"MESSAGE=hi\n__CURSOR=abc\n\n".to_vec();
    input.extend_from_slice(b"A=b\n\n");
    input.extend_from_slice(b"MESSAGE=hi\n__CURSOR=abcd\n\n");
    input.extend_from_slice(b"A=b\n\n");
    for size in [1, 3, 26, 1024] {
        let (entries, failure) = read_entries(
            JournalExportLimitsBuilder::new().with_max_entry_size(25).build(),
            size,
            &input,
        );
        assert_eq!(failure, Some(JournalExportReadError::EntryTooLarge));
        assert_eq!(
            texts(&entries),
            vec![b"MESSAGE=hi\n__CURSOR=abc\n".to_vec(), b"A=b\n".to_vec()]
        );
    }
    assert_eq!(limits.max_entry_size, 25);
}
