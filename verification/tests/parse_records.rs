//! Parsing manifest records, and the codec round-trip.

use ndbam::contents::parser::parse_entry;
use ndbam::contents::parser::Field;
use ndbam::contents::parser::ParseError;
use ndbam::contents::writer::ContentsWriter;
use ndbam::contents::Entry;

fn written(entry: &Entry) -> Vec<u8> {
    let mut out = ContentsWriter::new();
    out.write_entry(entry);
    out.into_inner()
}

fn assert_round_trip(entry: Entry) {
    let line = written(&entry);
    let parsed = parse_entry(&line).expect("written record parses");
    assert!(parsed == entry);
}

#[test]
fn round_trip_plain_records() {
    assert_round_trip(Entry::Dir { path: b"/usr/share/doc".to_vec() });
    assert_round_trip(Entry::File {
        path: b"/etc/app.conf".to_vec(),
        md5: b"5d41402abc4b2a76b9719d911017c592".to_vec(),
        mtime: 1234567890,
        extra: Vec::new(),
    });
    assert_round_trip(Entry::Sym {
        path: b"/usr/lib/libam.so".to_vec(),
        target: b"libam.so.1".to_vec(),
        mtime: 7,
        extra: vec![(b"part".to_vec(), b"development".to_vec())],
    });
}

#[test]
fn round_trip_hostile_paths() {
    assert_round_trip(Entry::Dir { path: b"/some spaces".to_vec() });
    assert_round_trip(Entry::Dir { path: b"/some\ttabs".to_vec() });
    assert_round_trip(Entry::Dir { path: b"/-=A\\B=-".to_vec() });
    assert_round_trip(Entry::Dir { path: b"/multiple\nlines".to_vec() });
    assert_round_trip(Entry::Dir { path: b"/bad\x9cbyte".to_vec() });
    assert_round_trip(Entry::Sym {
        path: b"/spaced link".to_vec(),
        target: b"odd\\target=with specials\n".to_vec(),
        mtime: 0,
        extra: vec![(b"key with space".to_vec(), b"value=with\tspecials".to_vec())],
    });
}

#[test]
fn lone_invalid_byte_escapes_and_parses_back() {
    let entry = Entry::Dir { path: b"/\x9c".to_vec() };
    let line = written(&entry);
    assert_eq!(line, b"type=dir path=/\\\x9c\n".to_vec());
    let parsed = parse_entry(&line).expect("parses");
    assert!(parsed == entry);
}

#[test]
fn duplicate_key_fails() {
    let err = parse_entry(&b"type=dir path=/a path=/b".to_vec()).unwrap_err();
    assert!(matches!(err, ParseError::DuplicateKey(ref k) if k == b"path"));
}

#[test]
fn missing_file_fields_fail() {
    let err = parse_entry(&b"type=file path=/a".to_vec()).unwrap_err();
    assert!(matches!(err, ParseError::MissingField(Field::Md5Key)));

    let err = parse_entry(&b"type=file path=/a md5=d41d8cd98f00b204e9800998ecf8427e".to_vec())
        .unwrap_err();
    assert!(matches!(err, ParseError::MissingField(Field::MtimeKey)));

    let err = parse_entry(&b"path=/a".to_vec()).unwrap_err();
    assert!(matches!(err, ParseError::MissingField(Field::TypeKey)));

    let err = parse_entry(&b"type=sym path=/a mtime=0".to_vec()).unwrap_err();
    assert!(matches!(err, ParseError::MissingField(Field::TargetKey)));
}

#[test]
fn structural_failures() {
    let err = parse_entry(&b"type=dir path=/a\\".to_vec()).unwrap_err();
    assert!(matches!(err, ParseError::TrailingBackslash));

    let err = parse_entry(&b"type=dir path".to_vec()).unwrap_err();
    assert!(matches!(err, ParseError::KeyWithoutValue(ref k) if k == b"path"));

    let err = parse_entry(&b"type=dir =x".to_vec()).unwrap_err();
    assert!(matches!(err, ParseError::EmptyKey));

    let err = parse_entry(&b"type=dir path=/a\nmore".to_vec()).unwrap_err();
    assert!(matches!(err, ParseError::StrayNewline));
}

#[test]
fn schema_failures() {
    let err = parse_entry(&b"type=socket path=/a".to_vec()).unwrap_err();
    assert!(matches!(err, ParseError::UnknownType(ref t) if t == b"socket"));

    let err = parse_entry(&b"type=dir path=/a part=extra".to_vec()).unwrap_err();
    assert!(matches!(err, ParseError::UnexpectedKey(ref k) if k == b"part"));

    let err = parse_entry(&b"type=file path=/a md5=x mtime=soon".to_vec()).unwrap_err();
    assert!(matches!(err, ParseError::BadMtime(ref v) if v == b"soon"));

    let err = parse_entry(&b"type=dir path=relative".to_vec()).unwrap_err();
    assert!(matches!(err, ParseError::BadPath(ref p) if p == b"relative"));
}

#[test]
fn unrecognized_keys_are_preserved() {
    let parsed = parse_entry(
        &b"type=file path=/a md5=5d41402abc4b2a76b9719d911017c592 mtime=3 b=2 a=1\n".to_vec(),
    )
    .expect("parses");
    match parsed {
        Entry::File { ref path, ref md5, mtime, ref extra } => {
            assert_eq!(path, &b"/a".to_vec());
            assert_eq!(md5, &b"5d41402abc4b2a76b9719d911017c592".to_vec());
            assert_eq!(mtime, 3);
            assert_eq!(
                extra,
                &vec![(b"b".to_vec(), b"2".to_vec()), (b"a".to_vec(), b"1".to_vec())]
            );
        },
        _ => panic!("expected a file entry"),
    }
}

#[test]
fn mtime_is_seconds_since_epoch() {
    let parsed = parse_entry(
        &b"type=sym path=/l target=t mtime=1234567890".to_vec(),
    )
    .expect("parses");
    assert_eq!(parsed.mtime(), Some(1234567890));
}
