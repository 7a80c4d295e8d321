//! Serialization of manifest records.

use ndbam::contents::writer::ContentsWriter;
use ndbam::contents::Entry;

fn written(entry: &Entry) -> Vec<u8> {
    let mut out = ContentsWriter::new();
    out.write_entry(entry);
    out.into_inner()
}

#[test]
fn basic() {
    assert_eq!(
        written(&Entry::Dir { path: b"/abc".to_vec() }),
        b"type=dir path=/abc\n".to_vec()
    );

    assert_eq!(
        written(&Entry::Sym {
            path: b"/abc".to_vec(),
            target: b"/def".to_vec(),
            mtime: 0,
            extra: Vec::new(),
        }),
        b"type=sym path=/abc target=/def mtime=0\n".to_vec()
    );
}

#[test]
fn extra_tokens() {
    let extra = vec![(b"part".to_vec(), b"development".to_vec())];
    assert_eq!(
        written(&Entry::Sym {
            path: b"/libam.so".to_vec(),
            target: b"libam.so.1".to_vec(),
            mtime: 0,
            extra,
        }),
        b"type=sym path=/libam.so target=libam.so.1 mtime=0 part=development\n".to_vec()
    );
}

#[test]
fn special_chars() {
    assert_eq!(
        written(&Entry::Dir { path: b"/some spaces".to_vec() }),
        b"type=dir path=/some\\ spaces\n".to_vec()
    );

    assert_eq!(
        written(&Entry::Dir { path: b"/some\ttabs".to_vec() }),
        b"type=dir path=/some\\\ttabs\n".to_vec()
    );

    assert_eq!(
        written(&Entry::Dir { path: b"/multiple\nlines".to_vec() }),
        b"type=dir path=/multiple\\nlines\n".to_vec()
    );

    assert_eq!(
        written(&Entry::Dir { path: b"/-=A\\B=-".to_vec() }),
        b"type=dir path=/-\\=A\\\\B\\=-\n".to_vec()
    );
}

#[test]
fn multibyte_chars() {
    assert_eq!(
        written(&Entry::Dir { path: "/multi☠byte".as_bytes().to_vec() }),
        "type=dir path=/multi☠byte\n".as_bytes().to_vec()
    );
}

#[test]
fn writer_invalid_utf8() {
    assert_eq!(
        written(&Entry::Dir { path: b"/bad\x9cbyte".to_vec() }),
        b"type=dir path=/bad\\\x9cbyte\n".to_vec()
    );
}

#[test]
fn mtime_renders_in_decimal() {
    assert_eq!(
        written(&Entry::File {
            path: b"/f".to_vec(),
            md5: b"d41d8cd98f00b204e9800998ecf8427e".to_vec(),
            mtime: 1234567890,
            extra: Vec::new(),
        }),
        b"type=file path=/f md5=d41d8cd98f00b204e9800998ecf8427e mtime=1234567890\n".to_vec()
    );
}

#[test]
fn one_line_per_record() {
    // even a path with an embedded line break yields exactly one line
    let line = written(&Entry::Dir { path: b"/multiple\nlines".to_vec() });
    assert_eq!(line.iter().filter(|b| **b == b'\n').count(), 1);
    assert_eq!(*line.last().unwrap(), b'\n');
}

#[test]
fn records_accumulate_in_order() {
    let mut out = ContentsWriter::new();
    out.write_entry(&Entry::Dir { path: b"/a".to_vec() });
    out.write_entry(&Entry::Dir { path: b"/b".to_vec() });
    assert_eq!(out.into_inner(), b"type=dir path=/a\ntype=dir path=/b\n".to_vec());
}
