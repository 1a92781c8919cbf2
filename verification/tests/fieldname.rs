use loginus::fieldname::Fieldname;
use loginus::fieldname::Known;
use loginus::fieldname::KNOWN_NAMES;
use std::borrow::Cow;

#[test]
fn simple_lookup_succceeds() {
    let s = "__CURSOR".to_string();
    let f = Fieldname::from(s.as_bytes());
    assert!(f == Fieldname::Known(Known::__Cursor))
}

#[test]
fn unknown_field_parsed() {
    let s = "__CURSORS".to_string();
    let f = Fieldname::from(s.as_bytes()).to_owned();
    assert!(matches!(f, Fieldname::Unknown(Cow::Owned(x)) if x == b"__CURSORS"));
}

#[test]
fn known_names_spell_themselves() {
    assert_eq!(Known::Message.as_bytes(), b"MESSAGE");
    assert_eq!(Known::_SourceRealtimeTimestamp.as_bytes(), b"_SOURCE_REALTIME_TIMESTAMP");
    assert_eq!(Known::ObjectSystemdOwnerUid.as_bytes(), b"OBJECT_SYSTEMD_OWNER_UID");
    assert_eq!(Known::__SeqnumId.as_bytes(), b"__SEQNUM_ID");
}

#[test]
fn every_known_name_is_found_again() {
    let mut seen = 0;
    for i in 0..KNOWN_NAMES {
        let k = Known::nth(i).unwrap();
        assert_eq!(Known::lookup(k.as_bytes()), Some(k));
        assert_eq!(Fieldname::from(k.as_bytes()), Fieldname::Known(k));
        seen += 1;
    }
    assert_eq!(seen, 70);
    assert_eq!(Known::nth(KNOWN_NAMES), None);
}

#[test]
fn lookup_is_exact() {
    assert_eq!(Known::lookup(b"MESSAGE"), Some(Known::Message));
    assert_eq!(Known::lookup(b"MESSAGE_ID"), Some(Known::MessageId));
    assert_eq!(Known::lookup(b"MESSAG"), None);
    assert_eq!(Known::lookup(b"message"), None);
    assert_eq!(Known::lookup(b""), None);
    assert_eq!(Known::lookup(b"_PID "), None);
}

#[test]
fn unknown_name_borrows_until_owned() {
    let bytes = b"MY_FIELD".to_vec();
    let f = Fieldname::from(bytes.as_slice());
    assert!(matches!(&f, Fieldname::Unknown(Cow::Borrowed(x)) if *x == b"MY_FIELD"));
    let owned = f.to_owned();
    assert_eq!(owned, f);
    let known = Fieldname::from(b"_PID".as_slice()).to_owned();
    assert_eq!(known, Fieldname::Known(Known::_Pid));
}
