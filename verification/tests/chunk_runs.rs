//! Splitting raw bytes into valid-UTF-8 runs and raw-byte runs.

use ndbam::utils::semi_binary::iter_utf8_chunks;
use ndbam::utils::semi_binary::Utf8Chunk;

fn valid(s: &str) -> Utf8Chunk {
    Utf8Chunk::Valid(s.as_bytes().to_vec())
}

fn raw(b: &[u8]) -> Utf8Chunk {
    Utf8Chunk::Bytes(b.to_vec())
}

fn chunks(bytes: &[u8]) -> Vec<Utf8Chunk> {
    let owned = bytes.to_vec();
    iter_utf8_chunks(&owned).into_vec()
}

fn same(a: &[Utf8Chunk], b: &[Utf8Chunk]) -> bool {
    a.len() == b.len() && a.iter().zip(b.iter()).all(|(x, y)| match (x, y) {
        (Utf8Chunk::Valid(u), Utf8Chunk::Valid(v)) => u == v,
        (Utf8Chunk::Bytes(u), Utf8Chunk::Bytes(v)) => u == v,
        _ => false,
    })
}

#[test]
fn ascii() {
    assert!(chunks(b"").is_empty());
    assert!(same(&chunks(b"abc"), &[valid("abc")]));
}

#[test]
fn multibyte_utf8() {
    assert!(same(&chunks(b".o(\xd1\x97\xd0\xb6\xd0\xb0)"), &[valid(".o(їжа)")]));
}

#[test]
fn semi_binary_invalid_utf8() {
    assert!(same(
        &chunks(b"abc\xc9def"),
        &[valid("abc"), raw(b"\xc9"), valid("def")],
    ));
}

#[test]
fn truncated_tail_is_a_raw_run() {
    assert!(same(&chunks(b"a\xe0\xa0"), &[valid("a"), raw(b"\xe0\xa0")]));
}
