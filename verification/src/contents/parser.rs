//! Manifest parser: turns one escaped record back into an [`Entry`].
//!
//! A record is tokenized into `key=value` pairs by a small scanner with an
//! explicit escape state; the pairs are then validated against the record
//! schema.  Structural errors return a descriptive value identifying the
//! offending bytes or keys; the parser never panics.

use vstd::prelude::*;

use crate::contents::Entry;
use crate::contents::EntryV;
use crate::contents::bytes_eq;
use crate::contents::key_md5;
use crate::contents::key_mtime;
use crate::contents::key_path;
use crate::contents::key_target;
use crate::contents::key_type;
use crate::contents::lit_dir;
use crate::contents::lit_file;
use crate::contents::lit_md5;
use crate::contents::lit_mtime;
use crate::contents::lit_path;
use crate::contents::lit_sym;
use crate::contents::lit_target;
use crate::contents::lit_type;
use crate::contents::pairs_view;
use crate::contents::required_keys;
use crate::contents::tag_dir;
use crate::contents::tag_file;
use crate::contents::tag_sym;

verus! {

/// A required field of the record schema.
#[derive(Clone, Copy, PartialEq, Eq, Structural, Debug)]
pub enum Field {
    TypeKey,
    PathKey,
    Md5Key,
    MtimeKey,
    TargetKey,
}

/// Why a record failed to parse, naming the offending bytes or keys.
#[derive(Debug)]
pub enum ParseError {
    /// The record ends in an unescaped backslash.
    TrailingBackslash,
    /// An unescaped line break sits inside the record.
    StrayNewline,
    /// A token starts with `=`.
    EmptyKey,
    /// A token has no `=` at all; its bytes are reported.
    KeyWithoutValue(Vec<u8>),
    /// The named key occurs twice.
    DuplicateKey(Vec<u8>),
    /// A required field of the record schema is missing.
    MissingField(Field),
    /// The value of `type` names no known record kind.
    UnknownType(Vec<u8>),
    /// A key that a `dir` record does not permit.
    UnexpectedKey(Vec<u8>),
    /// The value of `mtime` is no non-negative integer of seconds.
    BadMtime(Vec<u8>),
    /// The value of `path` is empty or not absolute.
    BadPath(Vec<u8>),
}

/// Model of a [`ParseError`].
pub enum ParseErrorV {
    TrailingBackslash,
    StrayNewline,
    EmptyKey,
    KeyWithoutValue(Seq<u8>),
    DuplicateKey(Seq<u8>),
    MissingField(Field),
    UnknownType(Seq<u8>),
    UnexpectedKey(Seq<u8>),
    BadMtime(Seq<u8>),
    BadPath(Seq<u8>),
}

impl View for ParseError {
    type V = ParseErrorV;

    open spec fn view(&self) -> ParseErrorV {
        match self {
            ParseError::TrailingBackslash => ParseErrorV::TrailingBackslash,
            ParseError::StrayNewline => ParseErrorV::StrayNewline,
            ParseError::EmptyKey => ParseErrorV::EmptyKey,
            ParseError::KeyWithoutValue(k) => ParseErrorV::KeyWithoutValue(k@),
            ParseError::DuplicateKey(k) => ParseErrorV::DuplicateKey(k@),
            ParseError::MissingField(f) => ParseErrorV::MissingField(*f),
            ParseError::UnknownType(t) => ParseErrorV::UnknownType(t@),
            ParseError::UnexpectedKey(k) => ParseErrorV::UnexpectedKey(k@),
            ParseError::BadMtime(v) => ParseErrorV::BadMtime(v@),
            ParseError::BadPath(p) => ParseErrorV::BadPath(p@),
        }
    }
}

/// Decimal value of a digit string.
pub open spec fn dec_val(s: Seq<u8>) -> nat
    decreases s.len(),
{
    if s.len() == 0 {
        0
    } else {
        dec_val(s.drop_last()) * 10 + (s.last() - 48) as nat
    }
}

/// Is every byte of `s` an ASCII decimal digit?
pub open spec fn all_digits(s: Seq<u8>) -> bool {
    forall|i: int| 0 <= i < s.len() ==> 48 <= #[trigger] s[i] <= 57
}

/// Reading a non-empty digit string as a non-negative integer of seconds:
/// `None` when a byte is no digit or the value does not fit.
pub open spec fn spec_parse_dec(s: Seq<u8>) -> Option<u64> {
    if s.len() > 0 && all_digits(s) && dec_val(s) <= u64::MAX {
        Some(dec_val(s) as u64)
    } else {
        None
    }
}

/// Parses a decimal byte string.
pub fn parse_dec(s: &Vec<u8>) -> (r: Option<u64>)
    ensures
        r == spec_parse_dec(s@),
{
    let n: usize = s.len();
    if n == 0 {
        return None;
    }
    let mut acc: u64 = 0;
    let mut i: usize = 0;
    while i < n
        invariant
            n == s@.len(),
            0 <= i <= n,
            all_digits(s@.subrange(0, i as int)),
            acc == dec_val(s@.subrange(0, i as int)),
        decreases n - i,
    {
        let b = s[i];
        if b < 48 || b > 57 {
            assert(!all_digits(s@));
            return None;
        }
        let d: u64 = (b - 48) as u64;
        if acc > (u64::MAX - d) / 10 {
            proof {
                assert(s@.subrange(0, i + 1).drop_last() =~= s@.subrange(0, i as int));
                assert(dec_val(s@.subrange(0, i + 1)) == dec_val(s@.subrange(0, i as int)) * 10
                    + d);
                assert(acc * 10 + d > u64::MAX);
                lemma_dec_val_monotonic(s@, i + 1);
            }
            return None;
        }
        assert(acc * 10 + d <= u64::MAX);
        acc = acc * 10 + d;
        proof {
            assert(s@.subrange(0, i + 1).drop_last() =~= s@.subrange(0, i as int));
            assert(all_digits(s@.subrange(0, i + 1)));
        }
        i = i + 1;
    }
    proof {
        assert(s@.subrange(0, n as int) =~= s@);
    }
    Some(acc)
}

/// A longer digit prefix never shrinks the value.
proof fn lemma_dec_val_monotonic(s: Seq<u8>, i: int)
    requires
        0 <= i <= s.len(),
    ensures
        dec_val(s.subrange(0, i)) <= dec_val(s),
    decreases s.len() - i,
{
    if i == s.len() {
        assert(s.subrange(0, i) =~= s);
    } else {
        lemma_dec_val_monotonic(s, i + 1);
        assert(s.subrange(0, i + 1).drop_last() =~= s.subrange(0, i));
        assert(dec_val(s.subrange(0, i + 1)) == dec_val(s.subrange(0, i)) * 10 + (s[i]
            - 48) as nat);
    }
}

/// The scanner's position inside a record: between tokens, inside a key,
/// or inside a value.
pub enum ScanState {
    Sep,
    Key(Seq<u8>),
    Val(Seq<u8>, Seq<u8>),
}

/// Appends one decoded byte to the part being scanned; between tokens it
/// starts a new key.
pub open spec fn scan_push(st: ScanState, b: u8) -> ScanState {
    match st {
        ScanState::Sep => ScanState::Key(seq![b]),
        ScanState::Key(k) => ScanState::Key(k.push(b)),
        ScanState::Val(k, v) => ScanState::Val(k, v.push(b)),
    }
}

/// The token scanner: splits `s` at unescaped spaces and tabs, splits each
/// token at its first unescaped `=`, and decodes `\` `n` to a newline and
/// `\` `x` to the byte `x`.  An unescaped trailing backslash, a token
/// without `=`, an empty key and a stray newline are failures.
pub open spec fn spec_scan(s: Seq<u8>, st: ScanState, acc: Seq<(Seq<u8>, Seq<u8>)>) -> Result<
    Seq<(Seq<u8>, Seq<u8>)>,
    ParseErrorV,
>
    decreases s.len(),
{
    if s.len() == 0 {
        match st {
            ScanState::Sep => Ok(acc),
            ScanState::Key(k) => Err(ParseErrorV::KeyWithoutValue(k)),
            ScanState::Val(k, v) => Ok(acc.push((k, v))),
        }
    } else {
        let b = s[0];
        if b == 92 {
            if s.len() == 1 {
                Err(ParseErrorV::TrailingBackslash)
            } else {
                let d: u8 = if s[1] == 110 {
                    10
                } else {
                    s[1]
                };
                spec_scan(s.skip(2), scan_push(st, d), acc)
            }
        } else if b == 32 || b == 9 {
            match st {
                ScanState::Sep => spec_scan(s.skip(1), ScanState::Sep, acc),
                ScanState::Key(k) => Err(ParseErrorV::KeyWithoutValue(k)),
                ScanState::Val(k, v) => spec_scan(s.skip(1), ScanState::Sep, acc.push((k, v))),
            }
        } else if b == 61 {
            match st {
                ScanState::Sep => Err(ParseErrorV::EmptyKey),
                ScanState::Key(k) => spec_scan(s.skip(1), ScanState::Val(k, Seq::empty()), acc),
                ScanState::Val(k, v) => spec_scan(s.skip(1), ScanState::Val(k, v.push(61)), acc),
            }
        } else if b == 10 {
            Err(ParseErrorV::StrayNewline)
        } else {
            spec_scan(s.skip(1), scan_push(st, b), acc)
        }
    }
}

/// The first key that repeats an earlier one.
pub open spec fn first_dup(ts: Seq<(Seq<u8>, Seq<u8>)>, seen: Seq<Seq<u8>>) -> Option<Seq<u8>>
    decreases ts.len(),
{
    if ts.len() == 0 {
        None
    } else if seen.contains(ts[0].0) {
        Some(ts[0].0)
    } else {
        first_dup(ts.skip(1), seen.push(ts[0].0))
    }
}

/// The value of the first token with key `k`.
pub open spec fn lookup(ts: Seq<(Seq<u8>, Seq<u8>)>, k: Seq<u8>) -> Option<Seq<u8>>
    decreases ts.len(),
{
    if ts.len() == 0 {
        None
    } else if ts[0].0 == k {
        Some(ts[0].1)
    } else {
        lookup(ts.skip(1), k)
    }
}

/// The first key outside the allowed set.
pub open spec fn first_unexpected(ts: Seq<(Seq<u8>, Seq<u8>)>, allowed: Seq<Seq<u8>>) -> Option<
    Seq<u8>,
>
    decreases ts.len(),
{
    if ts.len() == 0 {
        None
    } else if !allowed.contains(ts[0].0) {
        Some(ts[0].0)
    } else {
        first_unexpected(ts.skip(1), allowed)
    }
}

/// The tokens left over once the required keys are taken out, in order.
pub open spec fn extras_of(ts: Seq<(Seq<u8>, Seq<u8>)>, required: Seq<Seq<u8>>) -> Seq<
    (Seq<u8>, Seq<u8>),
>
    decreases ts.len(),
{
    if ts.len() == 0 {
        Seq::empty()
    } else if required.contains(ts[0].0) {
        extras_of(ts.skip(1), required)
    } else {
        seq![ts[0]] + extras_of(ts.skip(1), required)
    }
}

/// Validates a scanned token list against the record schema.  A repeated
/// key, a missing required key, an unknown `type`, a relative path, a
/// malformed `mtime` and a leftover key on a `dir` record are failures;
/// leftover keys of `file` and `sym` records are preserved.
pub open spec fn spec_validate(ts: Seq<(Seq<u8>, Seq<u8>)>) -> Result<EntryV, ParseErrorV> {
    if first_dup(ts, Seq::empty()) is Some {
        Err(ParseErrorV::DuplicateKey(first_dup(ts, Seq::empty()).unwrap()))
    } else {
        match lookup(ts, lit_type()) {
            Option::None => Err(ParseErrorV::MissingField(Field::TypeKey)),
            Option::Some(tag) => match lookup(ts, lit_path()) {
                Option::None => Err(ParseErrorV::MissingField(Field::PathKey)),
                Option::Some(path) => {
                    if !(path.len() > 0 && path[0] == 47) {
                        Err(ParseErrorV::BadPath(path))
                    } else if tag == lit_dir() {
                        match first_unexpected(ts, required_keys(lit_dir())) {
                            Option::Some(k) => Err(ParseErrorV::UnexpectedKey(k)),
                            Option::None => Ok(EntryV::Dir { path }),
                        }
                    } else if tag == lit_file() {
                        match lookup(ts, lit_md5()) {
                            Option::None => Err(ParseErrorV::MissingField(Field::Md5Key)),
                            Option::Some(md5) => match lookup(ts, lit_mtime()) {
                                Option::None => Err(ParseErrorV::MissingField(Field::MtimeKey)),
                                Option::Some(mt) => match spec_parse_dec(mt) {
                                    Option::None => Err(ParseErrorV::BadMtime(mt)),
                                    Option::Some(mtime) => Ok(
                                        EntryV::File {
                                            path,
                                            md5,
                                            mtime,
                                            extra: extras_of(ts, required_keys(lit_file())),
                                        },
                                    ),
                                },
                            },
                        }
                    } else if tag == lit_sym() {
                        match lookup(ts, lit_target()) {
                            Option::None => Err(ParseErrorV::MissingField(Field::TargetKey)),
                            Option::Some(target) => match lookup(ts, lit_mtime()) {
                                Option::None => Err(ParseErrorV::MissingField(Field::MtimeKey)),
                                Option::Some(mt) => match spec_parse_dec(mt) {
                                    Option::None => Err(ParseErrorV::BadMtime(mt)),
                                    Option::Some(mtime) => Ok(
                                        EntryV::Sym {
                                            path,
                                            target,
                                            mtime,
                                            extra: extras_of(ts, required_keys(lit_sym())),
                                        },
                                    ),
                                },
                            },
                        }
                    } else {
                        Err(ParseErrorV::UnknownType(tag))
                    }
                },
            },
        }
    }
}

/// The record body: the line with one terminating newline taken off.
pub open spec fn record_body(line: Seq<u8>) -> Seq<u8> {
    if line.len() > 0 && line.last() == 10 {
        line.drop_last()
    } else {
        line
    }
}

/// Reading one record: scan, then validate.
pub open spec fn spec_parse_entry(line: Seq<u8>) -> Result<EntryV, ParseErrorV> {
    match spec_scan(record_body(line), ScanState::Sep, Seq::empty()) {
        Result::Ok(ts) => spec_validate(ts),
        Result::Err(e) => Err(e),
    }
}

/// The scanner state that the tokenizer's mode and buffers stand for.
pub open spec fn st_of(mode: u8, k: Seq<u8>, v: Seq<u8>) -> ScanState {
    if mode == 0 {
        ScanState::Sep
    } else if mode == 1 {
        ScanState::Key(k)
    } else {
        ScanState::Val(k, v)
    }
}

/// Splits one record into its decoded `key=value` tokens.
pub fn tokenize(line: &Vec<u8>) -> (r: Result<Vec<(Vec<u8>, Vec<u8>)>, ParseError>)
    ensures
        match r {
            Ok(ts) => spec_scan(record_body(line@), ScanState::Sep, Seq::empty()) == Ok::<
                Seq<(Seq<u8>, Seq<u8>)>,
                ParseErrorV,
            >(pairs_view(ts@)),
            Err(e) => spec_scan(record_body(line@), ScanState::Sep, Seq::empty()) == Err::<
                Seq<(Seq<u8>, Seq<u8>)>,
                ParseErrorV,
            >(e@),
        },
{
    let mut end: usize = line.len();
    if end > 0 && line[end - 1] == 10 {
        end = end - 1;
    }
    let ghost body = record_body(line@);
    proof {
        assert(body =~= line@.take(end as int));
    }
    let mut toks: Vec<(Vec<u8>, Vec<u8>)> = Vec::new();
    let mut key: Vec<u8> = Vec::new();
    let mut val: Vec<u8> = Vec::new();
    let mut mode: u8 = 0;
    let mut i: usize = 0;
    proof {
        assert(body.skip(0) =~= body);
        assert(pairs_view(toks@) =~= Seq::<(Seq<u8>, Seq<u8>)>::empty());
    }
    while i < end
        invariant
            end <= line@.len(),
            body == record_body(line@),
            body == line@.take(end as int),
            0 <= i <= end,
            mode == 0 || mode == 1 || mode == 2,
            mode == 0 ==> key@.len() == 0 && val@.len() == 0,
            mode == 1 ==> val@.len() == 0,
            spec_scan(body.skip(i as int), st_of(mode, key@, val@), pairs_view(toks@))
                == spec_scan(body, ScanState::Sep, Seq::empty()),
        decreases end - i,
    {
        let ghost rest = body.skip(i as int);
        let ghost st0 = st_of(mode, key@, val@);
        let ghost acc0 = pairs_view(toks@);
        proof {
            assert(rest.len() == end - i);
            assert(rest[0] == line@[i as int]);
            assert(rest.skip(1) =~= body.skip(i + 1));
        }
        let b = line[i];
        if b == 92 {
            if i + 1 >= end {
                proof {
                    assert(rest.len() == 1 && rest[0] == 92);
                    assert(spec_scan(rest, st0, acc0) == Err::<
                        Seq<(Seq<u8>, Seq<u8>)>,
                        ParseErrorV,
                    >(ParseErrorV::TrailingBackslash));
                }
                return Err(ParseError::TrailingBackslash);
            }
            proof {
                assert(rest[1] == line@[i + 1]);
                assert(rest.skip(2) =~= body.skip(i + 2));
            }
            let x = line[i + 1];
            let d: u8 = if x == 110 {
                10
            } else {
                x
            };
            proof {
                assert(spec_scan(rest, st0, acc0) == spec_scan(rest.skip(2), scan_push(st0, d), acc0));
            }
            if mode == 0 {
                key.push(d);
                mode = 1;
                assert(key@ =~= seq![d]);
            } else if mode == 1 {
                key.push(d);
            } else {
                val.push(d);
            }
            assert(st_of(mode, key@, val@) == scan_push(st0, d));
            i = i + 2;
        } else if b == 32 || b == 9 {
            if mode == 0 {
                // separator run between tokens
                proof {
                    assert(spec_scan(rest, st0, acc0) == spec_scan(rest.skip(1), ScanState::Sep, acc0));
                }
            } else if mode == 1 {
                proof {
                    assert(spec_scan(rest, st0, acc0) == Err::<
                        Seq<(Seq<u8>, Seq<u8>)>,
                        ParseErrorV,
                    >(ParseErrorV::KeyWithoutValue(key@)));
                }
                return Err(ParseError::KeyWithoutValue(key));
            } else {
                let ghost kk = key@;
                let ghost vv = val@;
                proof {
                    assert(spec_scan(rest, st0, acc0) == spec_scan(
                        rest.skip(1),
                        ScanState::Sep,
                        acc0.push((kk, vv)),
                    ));
                }
                toks.push((key, val));
                key = Vec::new();
                val = Vec::new();
                mode = 0;
                assert(pairs_view(toks@) =~= acc0.push((kk, vv)));
            }
            i = i + 1;
        } else if b == 61 {
            if mode == 0 {
                proof {
                    assert(spec_scan(rest, st0, acc0) == Err::<
                        Seq<(Seq<u8>, Seq<u8>)>,
                        ParseErrorV,
                    >(ParseErrorV::EmptyKey));
                }
                return Err(ParseError::EmptyKey);
            } else if mode == 1 {
                proof {
                    assert(spec_scan(rest, st0, acc0) == spec_scan(
                        rest.skip(1),
                        ScanState::Val(key@, Seq::empty()),
                        acc0,
                    ));
                }
                mode = 2;
                assert(val@ =~= Seq::<u8>::empty());
                assert(st_of(mode, key@, val@) == ScanState::Val(key@, Seq::empty()));
            } else {
                proof {
                    assert(spec_scan(rest, st0, acc0) == spec_scan(
                        rest.skip(1),
                        ScanState::Val(key@, val@.push(61)),
                        acc0,
                    ));
                }
                val.push(61);
            }
            i = i + 1;
        } else if b == 10 {
            proof {
                assert(spec_scan(rest, st0, acc0) == Err::<
                    Seq<(Seq<u8>, Seq<u8>)>,
                    ParseErrorV,
                >(ParseErrorV::StrayNewline));
            }
            return Err(ParseError::StrayNewline);
        } else {
            proof {
                assert(spec_scan(rest, st0, acc0) == spec_scan(rest.skip(1), scan_push(st0, b), acc0));
            }
            if mode == 0 {
                key.push(b);
                mode = 1;
                assert(key@ =~= seq![b]);
            } else if mode == 1 {
                key.push(b);
            } else {
                val.push(b);
            }
            assert(st_of(mode, key@, val@) == scan_push(st0, b));
            i = i + 1;
        }
    }
    proof {
        assert(body.skip(end as int) =~= Seq::<u8>::empty());
    }
    if mode == 0 {
        Ok(toks)
    } else if mode == 1 {
        Err(ParseError::KeyWithoutValue(key))
    } else {
        let ghost tsv = pairs_view(toks@);
        let ghost kk = key@;
        let ghost vv = val@;
        toks.push((key, val));
        assert(pairs_view(toks@) =~= tsv.push((kk, vv)));
        Ok(toks)
    }
}

/// The keys of a token list, in order.
pub open spec fn keys_of(ts: Seq<(Seq<u8>, Seq<u8>)>) -> Seq<Seq<u8>> {
    ts.map(|i: int, t: (Seq<u8>, Seq<u8>)| t.0)
}

/// Model of a list of keys.
pub open spec fn keyset_view(ks: Seq<Vec<u8>>) -> Seq<Seq<u8>> {
    ks.map(|i: int, k: Vec<u8>| k@)
}

/// Does the key list contain `k`?
fn keyset_contains(ks: &Vec<Vec<u8>>, k: &Vec<u8>) -> (r: bool)
    ensures
        r == keyset_view(ks@).contains(k@),
{
    let n: usize = ks.len();
    let mut i: usize = 0;
    while i < n
        invariant
            n == ks@.len(),
            0 <= i <= n,
            forall|j: int| 0 <= j < i ==> keyset_view(ks@)[j] != k@,
        decreases n - i,
    {
        if bytes_eq(&ks[i], k) {
            assert(keyset_view(ks@)[i as int] == k@);
            return true;
        }
        assert(keyset_view(ks@)[i as int] != k@);
        i = i + 1;
    }
    assert(!keyset_view(ks@).contains(k@)) by {
        if keyset_view(ks@).contains(k@) {
            let j = choose|j: int| 0 <= j < keyset_view(ks@).len() && keyset_view(ks@)[j] == k@;
            assert(keyset_view(ks@)[j] != k@);
        }
    }
    false
}

/// The keys a `dir` record permits.
fn req_keys_dir() -> (r: Vec<Vec<u8>>)
    ensures
        keyset_view(r@) == required_keys(lit_dir()),
{
    let mut v: Vec<Vec<u8>> = Vec::new();
    v.push(key_type());
    v.push(key_path());
    assert(keyset_view(v@) =~= required_keys(lit_dir()));
    v
}

/// The required keys of a `file` record.
fn req_keys_file() -> (r: Vec<Vec<u8>>)
    ensures
        keyset_view(r@) == required_keys(lit_file()),
{
    let mut v: Vec<Vec<u8>> = Vec::new();
    v.push(key_type());
    v.push(key_path());
    v.push(key_md5());
    v.push(key_mtime());
    assert(keyset_view(v@) =~= required_keys(lit_file()));
    v
}

/// The required keys of a `sym` record.
fn req_keys_sym() -> (r: Vec<Vec<u8>>)
    ensures
        keyset_view(r@) == required_keys(lit_sym()),
{
    let mut v: Vec<Vec<u8>> = Vec::new();
    v.push(key_type());
    v.push(key_path());
    v.push(key_target());
    v.push(key_mtime());
    assert(keyset_view(v@) =~= required_keys(lit_sym()));
    v
}

/// Finds the first repeated key, if any.
fn find_dup(toks: &Vec<(Vec<u8>, Vec<u8>)>) -> (r: Option<Vec<u8>>)
    ensures
        match r {
            Some(k) => first_dup(pairs_view(toks@), Seq::empty()) == Some(k@),
            None => first_dup(pairs_view(toks@), Seq::empty()) is None,
        },
{
    let ghost ts = pairs_view(toks@);
    let n: usize = toks.len();
    let mut j: usize = 0;
    proof {
        assert(ts.skip(0) =~= ts);
        assert(keys_of(ts.take(0)) =~= Seq::<Seq<u8>>::empty());
    }
    while j < n
        invariant
            ts == pairs_view(toks@),
            n == toks@.len(),
            0 <= j <= n,
            first_dup(ts, Seq::empty()) == first_dup(ts.skip(j as int), keys_of(ts.take(j as int))),
        decreases n - j,
    {
        let ghost seen = keys_of(ts.take(j as int));
        proof {
            assert(ts.skip(j as int)[0] == ts[j as int]);
            assert(ts.skip(j as int).skip(1) =~= ts.skip(j + 1));
        }
        let mut i: usize = 0;
        while i < j
            invariant
                ts == pairs_view(toks@),
                n == toks@.len(),
                0 <= i <= j < n,
                seen == keys_of(ts.take(j as int)),
                first_dup(ts, Seq::empty()) == first_dup(ts.skip(j as int), seen),
                ts.skip(j as int)[0] == ts[j as int],
                forall|ii: int| 0 <= ii < i ==> seen[ii] != ts[j as int].0,
            decreases j - i,
        {
            if bytes_eq(&toks[i].0, &toks[j].0) {
                proof {
                    assert(seen[i as int] == ts[i as int].0);
                    assert(seen.contains(ts[j as int].0));
                    assert(first_dup(ts.skip(j as int), seen) == Some(ts[j as int].0));
                }
                return Some(crate::contents::clone_bytes(&toks[j].0));
            }
            assert(seen[i as int] != ts[j as int].0);
            i = i + 1;
        }
        proof {
            assert(!seen.contains(ts[j as int].0)) by {
                if seen.contains(ts[j as int].0) {
                    let jj = choose|jj: int|
                        0 <= jj < seen.len() && seen[jj] == ts[j as int].0;
                    assert(seen[jj] != ts[j as int].0);
                }
            }
            assert(first_dup(ts.skip(j as int), seen) == first_dup(
                ts.skip(j + 1),
                seen.push(ts[j as int].0),
            ));
            assert(keys_of(ts.take(j + 1)) =~= seen.push(ts[j as int].0));
        }
        j = j + 1;
    }
    proof {
        assert(ts.skip(n as int) =~= Seq::<(Seq<u8>, Seq<u8>)>::empty());
        assert(first_dup(ts.skip(n as int), keys_of(ts.take(n as int))) is None);
    }
    None
}

/// The value of the first token with the given key.
fn lookup_val(toks: &Vec<(Vec<u8>, Vec<u8>)>, k: &Vec<u8>) -> (r: Option<Vec<u8>>)
    ensures
        match r {
            Some(v) => lookup(pairs_view(toks@), k@) == Some(v@),
            None => lookup(pairs_view(toks@), k@) is None,
        },
{
    let ghost ts = pairs_view(toks@);
    let n: usize = toks.len();
    let mut i: usize = 0;
    proof {
        assert(ts.skip(0) =~= ts);
    }
    while i < n
        invariant
            ts == pairs_view(toks@),
            n == toks@.len(),
            0 <= i <= n,
            lookup(ts, k@) == lookup(ts.skip(i as int), k@),
        decreases n - i,
    {
        proof {
            assert(ts.skip(i as int)[0] == ts[i as int]);
            assert(ts.skip(i as int).skip(1) =~= ts.skip(i + 1));
        }
        if bytes_eq(&toks[i].0, k) {
            return Some(crate::contents::clone_bytes(&toks[i].1));
        }
        i = i + 1;
    }
    proof {
        assert(ts.skip(n as int) =~= Seq::<(Seq<u8>, Seq<u8>)>::empty());
    }
    None
}

/// Finds the first key outside the allowed set, if any.
fn find_unexpected(toks: &Vec<(Vec<u8>, Vec<u8>)>, allowed: &Vec<Vec<u8>>) -> (r: Option<Vec<u8>>)
    ensures
        match r {
            Some(k) => first_unexpected(pairs_view(toks@), keyset_view(allowed@)) == Some(k@),
            None => first_unexpected(pairs_view(toks@), keyset_view(allowed@)) is None,
        },
{
    let ghost ts = pairs_view(toks@);
    let ghost aks = keyset_view(allowed@);
    let n: usize = toks.len();
    let mut i: usize = 0;
    proof {
        assert(ts.skip(0) =~= ts);
    }
    while i < n
        invariant
            ts == pairs_view(toks@),
            aks == keyset_view(allowed@),
            n == toks@.len(),
            0 <= i <= n,
            first_unexpected(ts, aks) == first_unexpected(ts.skip(i as int), aks),
        decreases n - i,
    {
        proof {
            assert(ts.skip(i as int)[0] == ts[i as int]);
            assert(ts.skip(i as int).skip(1) =~= ts.skip(i + 1));
        }
        if !keyset_contains(allowed, &toks[i].0) {
            return Some(crate::contents::clone_bytes(&toks[i].0));
        }
        i = i + 1;
    }
    proof {
        assert(ts.skip(n as int) =~= Seq::<(Seq<u8>, Seq<u8>)>::empty());
    }
    None
}

/// Collects the tokens left over once the required keys are taken out.
fn collect_extras(toks: &Vec<(Vec<u8>, Vec<u8>)>, required: &Vec<Vec<u8>>) -> (r: Vec<
    (Vec<u8>, Vec<u8>),
>)
    ensures
        pairs_view(r@) == extras_of(pairs_view(toks@), keyset_view(required@)),
{
    let ghost ts = pairs_view(toks@);
    let ghost req = keyset_view(required@);
    let n: usize = toks.len();
    let mut acc: Vec<(Vec<u8>, Vec<u8>)> = Vec::new();
    let mut i: usize = 0;
    proof {
        assert(ts.skip(0) =~= ts);
        assert(pairs_view(acc@) =~= Seq::<(Seq<u8>, Seq<u8>)>::empty());
        assert(Seq::<(Seq<u8>, Seq<u8>)>::empty() + extras_of(ts, req) =~= extras_of(ts, req));
    }
    while i < n
        invariant
            ts == pairs_view(toks@),
            req == keyset_view(required@),
            n == toks@.len(),
            0 <= i <= n,
            extras_of(ts, req) == pairs_view(acc@) + extras_of(ts.skip(i as int), req),
        decreases n - i,
    {
        proof {
            assert(ts.skip(i as int)[0] == ts[i as int]);
            assert(ts.skip(i as int).skip(1) =~= ts.skip(i + 1));
        }
        let ghost acc0 = pairs_view(acc@);
        if !keyset_contains(required, &toks[i].0) {
            acc.push(
                (
                    crate::contents::clone_bytes(&toks[i].0),
                    crate::contents::clone_bytes(&toks[i].1),
                ),
            );
            proof {
                assert(pairs_view(acc@) =~= acc0.push(ts[i as int]));
                assert(extras_of(ts.skip(i as int), req) == seq![ts[i as int]] + extras_of(
                    ts.skip(i + 1),
                    req,
                ));
                assert(pairs_view(acc@) + extras_of(ts.skip(i + 1), req) =~= acc0 + extras_of(
                    ts.skip(i as int),
                    req,
                ));
            }
        } else {
            proof {
                assert(extras_of(ts.skip(i as int), req) == extras_of(ts.skip(i + 1), req));
            }
        }
        i = i + 1;
    }
    proof {
        assert(ts.skip(n as int) =~= Seq::<(Seq<u8>, Seq<u8>)>::empty());
        assert(pairs_view(acc@) + extras_of(ts.skip(n as int), req) =~= pairs_view(acc@));
    }
    acc
}

/// Reads one manifest record.  The result is exactly what the record
/// model prescribes: the parsed entry, or the error that names the
/// offending bytes or keys.
pub fn parse_entry(line: &Vec<u8>) -> (r: Result<Entry, ParseError>)
    ensures
        match r {
            Ok(e) => spec_parse_entry(line@) == Ok::<EntryV, ParseErrorV>(e@),
            Err(err) => spec_parse_entry(line@) == Err::<EntryV, ParseErrorV>(err@),
        },
{
    let toks = match tokenize(line) {
        Ok(t) => t,
        Err(e) => {
            return Err(e);
        },
    };
    let ghost ts = pairs_view(toks@);
    match find_dup(&toks) {
        Some(k) => {
            return Err(ParseError::DuplicateKey(k));
        },
        None => {},
    }
    let tag = match lookup_val(&toks, &key_type()) {
        Some(t) => t,
        None => {
            return Err(ParseError::MissingField(Field::TypeKey));
        },
    };
    let path = match lookup_val(&toks, &key_path()) {
        Some(p) => p,
        None => {
            return Err(ParseError::MissingField(Field::PathKey));
        },
    };
    if path.len() == 0 || path[0] != 47 {
        return Err(ParseError::BadPath(path));
    }
    if bytes_eq(&tag, &tag_dir()) {
        match find_unexpected(&toks, &req_keys_dir()) {
            Some(k) => Err(ParseError::UnexpectedKey(k)),
            None => Ok(Entry::Dir { path }),
        }
    } else if bytes_eq(&tag, &tag_file()) {
        let md5 = match lookup_val(&toks, &key_md5()) {
            Some(m) => m,
            None => {
                return Err(ParseError::MissingField(Field::Md5Key));
            },
        };
        let mt_raw = match lookup_val(&toks, &key_mtime()) {
            Some(m) => m,
            None => {
                return Err(ParseError::MissingField(Field::MtimeKey));
            },
        };
        let mtime = match parse_dec(&mt_raw) {
            Some(m) => m,
            None => {
                return Err(ParseError::BadMtime(mt_raw));
            },
        };
        let extra = collect_extras(&toks, &req_keys_file());
        Ok(Entry::File { path, md5, mtime, extra })
    } else if bytes_eq(&tag, &tag_sym()) {
        let target = match lookup_val(&toks, &key_target()) {
            Some(t) => t,
            None => {
                return Err(ParseError::MissingField(Field::TargetKey));
            },
        };
        let mt_raw = match lookup_val(&toks, &key_mtime()) {
            Some(m) => m,
            None => {
                return Err(ParseError::MissingField(Field::MtimeKey));
            },
        };
        let mtime = match parse_dec(&mt_raw) {
            Some(m) => m,
            None => {
                return Err(ParseError::BadMtime(mt_raw));
            },
        };
        let extra = collect_extras(&toks, &req_keys_sym());
        Ok(Entry::Sym { path, target, mtime, extra })
    } else {
        Err(ParseError::UnknownType(tag))
    }
}

} // verus!
