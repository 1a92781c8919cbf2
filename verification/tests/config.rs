use loginus::config::JournalExportLimits;
use loginus::config::JournalExportLimitsBuilder;

#[test]
fn default_limits() {
    let l = JournalExportLimits::default();
    assert_eq!(l.max_field_name_len, 128);
    assert_eq!(l.max_field_value_size, 12 * 1024);
    assert_eq!(l.max_entry_size, 16 * 1024);
}

#[test]
fn builder_without_choices_builds_the_defaults() {
    let l = JournalExportLimitsBuilder::new().build();
    assert_eq!(l.max_field_name_len, 128);
    assert_eq!(l.max_field_value_size, 12288);
    assert_eq!(l.max_entry_size, 16384);
    let d = JournalExportLimitsBuilder::default().build();
    assert_eq!(d.max_field_name_len, 128);
}

#[test]
fn builder_keeps_each_choice() {
    let l = JournalExportLimitsBuilder::new()
        .with_max_field_name_len(5)
        .with_max_entry_size(99)
        .build();
    assert_eq!(l.max_field_name_len, 5);
    assert_eq!(l.max_field_value_size, 12288);
    assert_eq!(l.max_entry_size, 99);
    let m = JournalExportLimitsBuilder::new()
        .with_max_field_value_size(7)
        .with_max_field_value_size(8)
        .build();
    assert_eq!(m.max_field_value_size, 8);
    assert_eq!(m.max_field_name_len, 128);
}
