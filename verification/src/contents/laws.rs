//! The codec's round-trip law: parsing a written record gives the entry
//! back, for every representable entry — paths with spaces, tabs, `=`,
//! backslashes, embedded newlines and invalid-UTF-8 bytes included.

use vstd::prelude::*;

use crate::contents::EntryV;
use crate::contents::lit_dir;
use crate::contents::lit_file;
use crate::contents::lit_md5;
use crate::contents::lit_mtime;
use crate::contents::lit_path;
use crate::contents::lit_sym;
use crate::contents::lit_target;
use crate::contents::lit_type;
use crate::contents::required_keys;
use crate::contents::wf_entry;
use crate::contents::wf_extra;
use crate::contents::wf_path;
use crate::contents::parser::ParseErrorV;
use crate::contents::parser::ScanState;
use crate::contents::parser::all_digits;
use crate::contents::parser::dec_val;
use crate::contents::parser::extras_of;
use crate::contents::parser::first_dup;
use crate::contents::parser::first_unexpected;
use crate::contents::parser::lookup;
use crate::contents::parser::record_body;
use crate::contents::parser::scan_push;
use crate::contents::parser::spec_parse_dec;
use crate::contents::parser::spec_parse_entry;
use crate::contents::parser::spec_scan;
use crate::contents::parser::spec_validate;
use crate::contents::writer::esc;
use crate::contents::writer::is_special;
use crate::contents::writer::spec_dec;
use crate::contents::writer::spec_write_entry;
use crate::contents::writer::tok;
use crate::contents::writer::tokens_of;
use crate::contents::writer::toks_rest;
use crate::utils::semi_binary::spec_char_len_at;

verus! {

/// Appending decoded content to the scanner state: between tokens it
/// starts a key, inside a part it extends the part.
pub open spec fn st_append(st: ScanState, q: Seq<u8>) -> ScanState {
    match st {
        ScanState::Sep => if q.len() == 0 {
            ScanState::Sep
        } else {
            ScanState::Key(q)
        },
        ScanState::Key(k) => ScanState::Key(k + q),
        ScanState::Val(k, v) => ScanState::Val(k, v + q),
    }
}

/// Appending nothing changes nothing.
proof fn lemma_st_append_empty(st: ScanState)
    ensures
        st_append(st, Seq::empty()) == st,
{
    match st {
        ScanState::Sep => {},
        ScanState::Key(k) => {
            assert(k + Seq::<u8>::empty() =~= k);
        },
        ScanState::Val(k, v) => {
            assert(v + Seq::<u8>::empty() =~= v);
        },
    }
}

/// Pushing the head byte and appending the tail appends the whole.
proof fn lemma_st_append_step(st: ScanState, q: Seq<u8>)
    requires
        q.len() > 0,
    ensures
        st_append(scan_push(st, q[0]), q.skip(1)) == st_append(st, q),
{
    match st {
        ScanState::Sep => {
            assert(seq![q[0]] + q.skip(1) =~= q);
        },
        ScanState::Key(k) => {
            assert(k.push(q[0]) + q.skip(1) =~= k + q);
        },
        ScanState::Val(k, v) => {
            assert(v.push(q[0]) + q.skip(1) =~= v + q);
        },
    }
}

/// Appending twice appends the concatenation.
proof fn lemma_st_append_concat(st: ScanState, a: Seq<u8>, b: Seq<u8>)
    ensures
        st_append(st_append(st, a), b) == st_append(st, a + b),
{
    match st {
        ScanState::Sep => {
            if a.len() == 0 {
                assert(a + b =~= b);
            } else {
                assert((a + b).len() > 0);
            }
        },
        ScanState::Key(k) => {
            assert(k + a + b =~= k + (a + b));
        },
        ScanState::Val(k, v) => {
            assert(v + a + b =~= v + (a + b));
        },
    }
}

/// A byte the scanner treats as plain content.
pub open spec fn is_plain(b: u8) -> bool {
    b != 92 && b != 61 && b != 32 && b != 9 && b != 10
}

/// Scanning plain content appends it to the current part.
proof fn lemma_scan_raw(q: Seq<u8>, tail: Seq<u8>, st: ScanState, acc: Seq<(Seq<u8>, Seq<u8>)>)
    requires
        forall|i: int| 0 <= i < q.len() ==> is_plain(#[trigger] q[i]),
    ensures
        spec_scan(q + tail, st, acc) == spec_scan(tail, st_append(st, q), acc),
    decreases q.len(),
{
    if q.len() == 0 {
        assert(q + tail =~= tail);
        lemma_st_append_empty(st);
    } else {
        let s = q + tail;
        assert(s[0] == q[0]);
        assert(s.len() > 0);
        assert(is_plain(q[0]));
        assert(spec_scan(s, st, acc) == spec_scan(s.skip(1), scan_push(st, q[0]), acc));
        assert(s.skip(1) =~= q.skip(1) + tail);
        lemma_scan_raw(q.skip(1), tail, scan_push(st, q[0]), acc);
        lemma_st_append_step(st, q);
    }
}

/// Scanning the escaped form of any byte string appends exactly that byte
/// string to the current part: escaping loses nothing and the scanner
/// decodes it back.
proof fn lemma_scan_esc(p: Seq<u8>, tail: Seq<u8>, st: ScanState, acc: Seq<(Seq<u8>, Seq<u8>)>)
    ensures
        spec_scan(esc(p) + tail, st, acc) == spec_scan(tail, st_append(st, p), acc),
    decreases p.len(),
{
    if p.len() == 0 {
        assert(esc(p) + tail =~= tail);
        lemma_st_append_empty(st);
    } else {
        let l = spec_char_len_at(p, 0);
        let s = esc(p) + tail;
        if l == 1 {
            let b = p[0];
            if b == 10 || is_special(b) || l == 0 {
                // a two-byte escape pair
                let d: u8 = b;
                let x: u8 = if b == 10 {
                    110
                } else {
                    b
                };
                assert(esc(p) =~= seq![92u8, x] + esc(p.skip(1)));
                assert(s[0] == 92 && s[1] == x);
                assert(s.len() >= 2);
                assert(x == 110 ==> d == 10) by {
                    assert(b < 0x80);
                }
                assert(spec_scan(s, st, acc) == spec_scan(s.skip(2), scan_push(st, b), acc));
                assert(s.skip(2) =~= esc(p.skip(1)) + tail);
                lemma_scan_esc(p.skip(1), tail, scan_push(st, b), acc);
                lemma_st_append_step(st, p);
            } else {
                assert(esc(p) =~= seq![b] + esc(p.skip(1)));
                assert(s[0] == b);
                assert(is_plain(b));
                assert(spec_scan(s, st, acc) == spec_scan(s.skip(1), scan_push(st, b), acc));
                assert(s.skip(1) =~= esc(p.skip(1)) + tail);
                lemma_scan_esc(p.skip(1), tail, scan_push(st, b), acc);
                lemma_st_append_step(st, p);
            }
        } else if l > 1 {
            let raw = p.subrange(0, l);
            assert(esc(p) =~= raw + esc(p.skip(l)));
            assert(forall|i: int| 0 <= i < raw.len() ==> is_plain(#[trigger] raw[i])) by {
                assert(p[0] >= 0xC2);
                assert(raw[0] == p[0]);
                assert(forall|i: int| 1 <= i < l ==> 0x80 <= #[trigger] p[i] <= 0xBF);
            }
            assert(raw + esc(p.skip(l)) + tail =~= raw + (esc(p.skip(l)) + tail));
            lemma_scan_raw(raw, esc(p.skip(l)) + tail, st, acc);
            lemma_scan_esc(p.skip(l), tail, st_append(st, raw), acc);
            lemma_st_append_concat(st, raw, p.skip(l));
            assert(raw + p.skip(l) =~= p);
        } else {
            // one invalid byte, escaped raw; it is never an ASCII byte
            let b = p[0];
            assert(b >= 0x80);
            assert(esc(p) =~= seq![92u8, b] + esc(p.skip(1)));
            assert(s[0] == 92 && s[1] == b);
            assert(s.len() >= 2);
            assert(spec_scan(s, st, acc) == spec_scan(s.skip(2), scan_push(st, b), acc));
            assert(s.skip(2) =~= esc(p.skip(1)) + tail);
            lemma_scan_esc(p.skip(1), tail, scan_push(st, b), acc);
            lemma_st_append_step(st, p);
        }
    }
}

/// Scanning a serialized token list, from between tokens, yields exactly
/// those tokens.
proof fn lemma_scan_record(ts: Seq<(Seq<u8>, Seq<u8>)>, acc: Seq<(Seq<u8>, Seq<u8>)>)
    requires
        ts.len() > 0,
        forall|i: int| 0 <= i < ts.len() ==> (#[trigger] ts[i]).0.len() > 0,
    ensures
        spec_scan(tok(ts[0].0, ts[0].1) + toks_rest(ts.skip(1)), ScanState::Sep, acc) == Ok::<
            Seq<(Seq<u8>, Seq<u8>)>,
            ParseErrorV,
        >(acc + ts),
    decreases ts.len(),
{
    let k0 = ts[0].0;
    let v0 = ts[0].1;
    let rest = toks_rest(ts.skip(1));
    let line = tok(k0, v0) + rest;
    assert(line =~= esc(k0) + (seq![61u8] + (esc(v0) + rest)));
    lemma_scan_esc(k0, seq![61u8] + (esc(v0) + rest), ScanState::Sep, acc);
    assert(st_append(ScanState::Sep, k0) == ScanState::Key(k0));
    let s1 = seq![61u8] + (esc(v0) + rest);
    assert(s1[0] == 61);
    assert(spec_scan(s1, ScanState::Key(k0), acc) == spec_scan(
        s1.skip(1),
        ScanState::Val(k0, Seq::empty()),
        acc,
    ));
    assert(s1.skip(1) =~= esc(v0) + rest);
    lemma_scan_esc(v0, rest, ScanState::Val(k0, Seq::empty()), acc);
    assert(st_append(ScanState::Val(k0, Seq::empty()), v0) == ScanState::Val(k0, v0)) by {
        assert(Seq::<u8>::empty() + v0 =~= v0);
    }
    if ts.len() == 1 {
        assert(ts.skip(1) =~= Seq::<(Seq<u8>, Seq<u8>)>::empty());
        assert(rest =~= Seq::<u8>::empty());
        assert(spec_scan(rest, ScanState::Val(k0, v0), acc) == Ok::<
            Seq<(Seq<u8>, Seq<u8>)>,
            ParseErrorV,
        >(acc.push((k0, v0))));
        assert(acc.push((k0, v0)) =~= acc + ts);
    } else {
        let ts1 = ts.skip(1);
        assert(ts1.len() > 0);
        assert(rest == seq![32u8] + tok(ts1[0].0, ts1[0].1) + toks_rest(ts1.skip(1)));
        assert(rest[0] == 32);
        assert(spec_scan(rest, ScanState::Val(k0, v0), acc) == spec_scan(
            rest.skip(1),
            ScanState::Sep,
            acc.push((k0, v0)),
        ));
        assert(rest.skip(1) =~= tok(ts1[0].0, ts1[0].1) + toks_rest(ts1.skip(1)));
        lemma_scan_record(ts1, acc.push((k0, v0)));
        assert(acc.push((k0, v0)) + ts1 =~= acc + ts);
    }
}

/// The five record keys and three type tags are pairwise distinct.
proof fn lemma_literals_distinct()
    ensures
        lit_type() != lit_path(),
        lit_type() != lit_md5(),
        lit_type() != lit_mtime(),
        lit_type() != lit_target(),
        lit_path() != lit_md5(),
        lit_path() != lit_mtime(),
        lit_path() != lit_target(),
        lit_md5() != lit_mtime(),
        lit_md5() != lit_target(),
        lit_mtime() != lit_target(),
        lit_dir() != lit_file(),
        lit_dir() != lit_sym(),
        lit_file() != lit_sym(),
{
    assert(lit_type()[0] == 116 && lit_path()[0] == 112 && lit_md5()[0] == 109 && lit_mtime()[0]
        == 109 && lit_target()[0] == 116);
    assert(lit_type().len() == 4 && lit_path().len() == 4 && lit_md5().len() == 3
        && lit_mtime().len() == 5 && lit_target().len() == 6);
    assert(lit_dir()[0] == 100 && lit_file()[0] == 102 && lit_sym()[0] == 115);
}

/// A token list with pairwise distinct keys, none seen before, has no
/// duplicate.
proof fn lemma_first_dup_none(ts: Seq<(Seq<u8>, Seq<u8>)>, seen: Seq<Seq<u8>>)
    requires
        forall|i: int, j: int| 0 <= i < j < ts.len() ==> (#[trigger] ts[i]).0 != (#[trigger] ts[j]).0,
        forall|i: int| 0 <= i < ts.len() ==> !seen.contains((#[trigger] ts[i]).0),
    ensures
        first_dup(ts, seen) is None,
    decreases ts.len(),
{
    if ts.len() > 0 {
        let seen1 = seen.push(ts[0].0);
        assert forall|i: int| 0 <= i < ts.skip(1).len() implies !seen1.contains(
            (#[trigger] ts.skip(1)[i]).0,
        ) by {
            assert(ts.skip(1)[i] == ts[i + 1]);
            assert(ts[0].0 != ts[i + 1].0);
            if seen1.contains(ts[i + 1].0) {
                let w = choose|w: int| 0 <= w < seen1.len() && seen1[w] == ts[i + 1].0;
                if w < seen.len() {
                    assert(seen.contains(ts[i + 1].0));
                } else {
                    assert(seen1[w] == ts[0].0);
                }
            }
        }
        assert forall|i: int, j: int| 0 <= i < j < ts.skip(1).len() implies (#[trigger] ts.skip(
            1,
        )[i]).0 != (#[trigger] ts.skip(1)[j]).0 by {
            assert(ts.skip(1)[i] == ts[i + 1] && ts.skip(1)[j] == ts[j + 1]);
        }
        lemma_first_dup_none(ts.skip(1), seen1);
    }
}

/// Leftover keys that avoid the required set pass through unchanged.
proof fn lemma_extras_identity(extra: Seq<(Seq<u8>, Seq<u8>)>, required: Seq<Seq<u8>>)
    requires
        forall|i: int| 0 <= i < extra.len() ==> !required.contains((#[trigger] extra[i]).0),
    ensures
        extras_of(extra, required) == extra,
    decreases extra.len(),
{
    if extra.len() > 0 {
        assert forall|i: int| 0 <= i < extra.skip(1).len() implies !required.contains(
            (#[trigger] extra.skip(1)[i]).0,
        ) by {
            assert(extra.skip(1)[i] == extra[i + 1]);
        }
        lemma_extras_identity(extra.skip(1), required);
        assert(extra[0].0 == extra[0].0);
        assert(!required.contains(extra[0].0));
        assert(seq![extra[0]] + extra.skip(1) =~= extra);
    }
}

/// Rendering a number and reading it back gives the number, and the
/// rendering is a non-empty digit string.
proof fn lemma_dec_round_trip(n: u64)
    ensures
        spec_dec(n as nat).len() > 0,
        all_digits(spec_dec(n as nat)),
        dec_val(spec_dec(n as nat)) == n,
        spec_parse_dec(spec_dec(n as nat)) == Some(n),
    decreases n,
{
    lemma_dec_digits(n as nat);
    lemma_dec_value(n as nat);
}

/// Decimal renderings are non-empty digit strings.
proof fn lemma_dec_digits(n: nat)
    ensures
        spec_dec(n).len() > 0,
        all_digits(spec_dec(n)),
    decreases n,
{
    if n >= 10 {
        lemma_dec_digits(n / 10);
        assert forall|i: int| 0 <= i < spec_dec(n).len() implies 48 <= #[trigger] spec_dec(n)[i]
            <= 57 by {
            if i < spec_dec(n / 10).len() {
                assert(spec_dec(n)[i] == spec_dec(n / 10)[i]);
            } else {
                assert(spec_dec(n)[i] == (48 + n % 10) as u8);
            }
        }
    }
}

/// Escaping yields no line break: a literal newline becomes the two
/// characters `\` `n`.
proof fn lemma_esc_newline_free(p: Seq<u8>)
    ensures
        forall|i: int| 0 <= i < esc(p).len() ==> #[trigger] esc(p)[i] != 10,
    decreases p.len(),
{
    if p.len() > 0 {
        let l = spec_char_len_at(p, 0);
        if l == 1 || l == 0 {
            lemma_esc_newline_free(p.skip(1));
            assert forall|i: int| 0 <= i < esc(p).len() implies #[trigger] esc(p)[i] != 10 by {
                if i >= esc(p).len() - esc(p.skip(1)).len() {
                    assert(esc(p)[i] == esc(p.skip(1))[i - (esc(p).len() - esc(p.skip(1)).len())]);
                }
            }
        } else {
            lemma_esc_newline_free(p.skip(l));
            assert(forall|i: int| 0 <= i < l ==> #[trigger] p.subrange(0, l)[i] >= 0x80);
            assert forall|i: int| 0 <= i < esc(p).len() implies #[trigger] esc(p)[i] != 10 by {
                if i < l {
                    assert(esc(p)[i] == p.subrange(0, l)[i]);
                } else {
                    assert(esc(p)[i] == esc(p.skip(l))[i - l]);
                }
            }
        }
    }
}

/// A serialized token list holds no line break.
proof fn lemma_toks_rest_newline_free(ts: Seq<(Seq<u8>, Seq<u8>)>)
    ensures
        forall|i: int| 0 <= i < toks_rest(ts).len() ==> #[trigger] toks_rest(ts)[i] != 10,
    decreases ts.len(),
{
    if ts.len() > 0 {
        lemma_esc_newline_free(ts[0].0);
        lemma_esc_newline_free(ts[0].1);
        lemma_toks_rest_newline_free(ts.skip(1));
        let head = seq![32u8] + tok(ts[0].0, ts[0].1);
        assert(toks_rest(ts) == head + toks_rest(ts.skip(1)));
        assert forall|i: int| 0 <= i < toks_rest(ts).len() implies #[trigger] toks_rest(ts)[i]
            != 10 by {
            if i < head.len() {
                assert(toks_rest(ts)[i] == head[i]);
                if 1 <= i < 1 + esc(ts[0].0).len() {
                    assert(head[i] == esc(ts[0].0)[i - 1]);
                } else if i > 1 + esc(ts[0].0).len() {
                    assert(head[i] == esc(ts[0].1)[i - 2 - esc(ts[0].0).len()]);
                }
            } else {
                assert(toks_rest(ts)[i] == toks_rest(ts.skip(1))[i - head.len()]);
            }
        }
    }
}

/// One entry per manifest line: a written record ends in exactly one line
/// break and holds no other, so records can be framed by splitting at
/// line breaks.
pub proof fn lemma_record_is_one_line(v: EntryV)
    ensures
        spec_write_entry(v).len() > 0,
        spec_write_entry(v).last() == 10,
        forall|i: int|
            0 <= i < spec_write_entry(v).len() - 1 ==> #[trigger] spec_write_entry(v)[i] != 10,
{
    let ts = tokens_of(v);
    let line = spec_write_entry(v);
    lemma_esc_newline_free(ts[0].0);
    lemma_esc_newline_free(ts[0].1);
    lemma_toks_rest_newline_free(ts.skip(1));
    let head = tok(ts[0].0, ts[0].1);
    assert forall|i: int| 0 <= i < line.len() - 1 implies #[trigger] line[i] != 10 by {
        if i < head.len() {
            assert(line[i] == head[i]);
            if i < esc(ts[0].0).len() {
                assert(head[i] == esc(ts[0].0)[i]);
            } else if i > esc(ts[0].0).len() {
                assert(head[i] == esc(ts[0].1)[i - 1 - esc(ts[0].0).len()]);
            }
        } else {
            assert(line[i] == toks_rest(ts.skip(1))[i - head.len()]);
        }
    }
}

/// One unfolding step of `lookup`.
proof fn lemma_lookup_cons(ts: Seq<(Seq<u8>, Seq<u8>)>, k: Seq<u8>)
    requires
        ts.len() > 0,
    ensures
        ts[0].0 == k ==> lookup(ts, k) == Some(ts[0].1),
        ts[0].0 != k ==> lookup(ts, k) == lookup(ts.skip(1), k),
{
}

/// Round-trip: parsing a written record gives the entry back, for every
/// representable entry — paths with spaces, tabs, `=`, backslashes,
/// embedded newlines and invalid-UTF-8 byte sequences included.
pub proof fn lemma_entry_round_trip(v: EntryV)
    requires
        wf_entry(v),
    ensures
        spec_parse_entry(spec_write_entry(v)) == Ok::<EntryV, ParseErrorV>(v),
{
    lemma_literals_distinct();
    let ts = tokens_of(v);
    let body = tok(ts[0].0, ts[0].1) + toks_rest(ts.skip(1));
    let line = spec_write_entry(v);
    assert(line =~= body + seq![10u8]);
    assert(line.len() > 0 && line.last() == 10);
    assert(record_body(line) =~= body);
    match v {
        EntryV::Dir { path } => {
            assert(ts =~= seq![(lit_type(), lit_dir()), (lit_path(), path)]);
            assert(ts[0].0.len() > 0 && ts[1].0.len() > 0);
            assert(forall|i: int| 0 <= i < ts.len() ==> (#[trigger] ts[i]).0.len() > 0);
            lemma_scan_record(ts, Seq::empty());
            assert(Seq::<(Seq<u8>, Seq<u8>)>::empty() + ts =~= ts);
            assert(spec_scan(record_body(line), ScanState::Sep, Seq::empty()) == Ok::<
                Seq<(Seq<u8>, Seq<u8>)>,
                ParseErrorV,
            >(ts));
            // no repeated key
            assert(forall|i: int, j: int|
                0 <= i < j < ts.len() ==> (#[trigger] ts[i]).0 != (#[trigger] ts[j]).0);
            lemma_first_dup_none(ts, Seq::empty());
            // the required lookups
            assert(ts.skip(1) =~= seq![(lit_path(), path)]);
            lemma_lookup_cons(ts, lit_type());
            lemma_lookup_cons(ts, lit_path());
            lemma_lookup_cons(ts.skip(1), lit_path());
            assert(lookup(ts, lit_type()) == Some(lit_dir()));
            assert(lookup(ts, lit_path()) == Some(path));
            // no leftover key
            let allowed = required_keys(lit_dir());
            assert(allowed[0] == lit_type() && allowed[1] == lit_path());
            assert(allowed.contains(lit_type()) && allowed.contains(lit_path()));
            assert(ts.skip(1).skip(1) =~= Seq::<(Seq<u8>, Seq<u8>)>::empty());
            assert(first_unexpected(Seq::<(Seq<u8>, Seq<u8>)>::empty(), allowed) is None);
            assert(first_unexpected(ts.skip(1), allowed) == first_unexpected(
                ts.skip(1).skip(1),
                allowed,
            ));
            assert(first_unexpected(ts, allowed) is None);
            assert(spec_validate(ts) == Ok::<EntryV, ParseErrorV>(v));
        },
        EntryV::File { path, md5, mtime, extra } => {
            let req = required_keys(lit_file());
            let base = seq![
                (lit_type(), lit_file()),
                (lit_path(), path),
                (lit_md5(), md5),
                (lit_mtime(), spec_dec(mtime as nat)),
            ];
            assert(ts == base + extra);
            assert(req[0] == lit_type() && req[1] == lit_path() && req[2] == lit_md5() && req[3]
                == lit_mtime());
            assert(req.contains(lit_type()) && req.contains(lit_path()) && req.contains(lit_md5())
                && req.contains(lit_mtime()));
            lemma_tokens_file_sym(ts, base, extra, req, v);
            // the required lookups walk over the head tokens
            assert(ts[0] == base[0] && ts[1] == base[1] && ts[2] == base[2] && ts[3] == base[3]);
            assert(ts.skip(1) =~= base.skip(1) + extra);
            assert(ts.skip(2) =~= base.skip(2) + extra);
            assert(ts.skip(3) =~= base.skip(3) + extra);
            assert(ts.skip(4) =~= extra);
            assert(ts.skip(1)[0] == base[1] && ts.skip(2)[0] == base[2] && ts.skip(3)[0]
                == base[3]);
            lemma_lookup_cons(ts, lit_type());
            lemma_lookup_cons(ts, lit_path());
            lemma_lookup_cons(ts.skip(1), lit_path());
            lemma_lookup_cons(ts, lit_md5());
            lemma_lookup_cons(ts.skip(1), lit_md5());
            lemma_lookup_cons(ts.skip(1).skip(1), lit_md5());
            assert(ts.skip(1).skip(1) =~= ts.skip(2));
            lemma_lookup_cons(ts, lit_mtime());
            lemma_lookup_cons(ts.skip(1), lit_mtime());
            lemma_lookup_cons(ts.skip(2), lit_mtime());
            lemma_lookup_cons(ts.skip(2).skip(1), lit_mtime());
            assert(ts.skip(2).skip(1) =~= ts.skip(3));
            assert(ts.skip(3).skip(1) =~= ts.skip(4));
            assert(lookup(ts, lit_type()) == Some(lit_file()));
            assert(lookup(ts, lit_path()) == Some(path));
            assert(lookup(ts, lit_md5()) == Some(md5));
            assert(lookup(ts, lit_mtime()) == Some(spec_dec(mtime as nat)));
            lemma_dec_round_trip(mtime);
            // the leftover keys are exactly the preserved ones
            assert(extras_of(ts, req) == extras_of(ts.skip(1), req));
            assert(extras_of(ts.skip(1), req) == extras_of(ts.skip(2), req));
            assert(extras_of(ts.skip(2), req) == extras_of(ts.skip(3), req));
            assert(extras_of(ts.skip(3), req) == extras_of(ts.skip(4), req));
            lemma_extras_identity(extra, req);
            assert(spec_validate(ts) == Ok::<EntryV, ParseErrorV>(v));
        },
        EntryV::Sym { path, target, mtime, extra } => {
            let req = required_keys(lit_sym());
            let base = seq![
                (lit_type(), lit_sym()),
                (lit_path(), path),
                (lit_target(), target),
                (lit_mtime(), spec_dec(mtime as nat)),
            ];
            assert(ts == base + extra);
            assert(req[0] == lit_type() && req[1] == lit_path() && req[2] == lit_target() && req[3]
                == lit_mtime());
            assert(req.contains(lit_type()) && req.contains(lit_path()) && req.contains(
                lit_target(),
            ) && req.contains(lit_mtime()));
            lemma_tokens_file_sym(ts, base, extra, req, v);
            assert(ts[0] == base[0] && ts[1] == base[1] && ts[2] == base[2] && ts[3] == base[3]);
            assert(ts.skip(1) =~= base.skip(1) + extra);
            assert(ts.skip(2) =~= base.skip(2) + extra);
            assert(ts.skip(3) =~= base.skip(3) + extra);
            assert(ts.skip(4) =~= extra);
            assert(ts.skip(1)[0] == base[1] && ts.skip(2)[0] == base[2] && ts.skip(3)[0]
                == base[3]);
            lemma_lookup_cons(ts, lit_type());
            lemma_lookup_cons(ts, lit_path());
            lemma_lookup_cons(ts.skip(1), lit_path());
            lemma_lookup_cons(ts, lit_target());
            lemma_lookup_cons(ts.skip(1), lit_target());
            lemma_lookup_cons(ts.skip(1).skip(1), lit_target());
            assert(ts.skip(1).skip(1) =~= ts.skip(2));
            lemma_lookup_cons(ts, lit_mtime());
            lemma_lookup_cons(ts.skip(1), lit_mtime());
            lemma_lookup_cons(ts.skip(2), lit_mtime());
            lemma_lookup_cons(ts.skip(2).skip(1), lit_mtime());
            assert(ts.skip(2).skip(1) =~= ts.skip(3));
            assert(ts.skip(3).skip(1) =~= ts.skip(4));
            assert(lookup(ts, lit_type()) == Some(lit_sym()));
            assert(lookup(ts, lit_path()) == Some(path));
            assert(lookup(ts, lit_target()) == Some(target));
            assert(lookup(ts, lit_mtime()) == Some(spec_dec(mtime as nat)));
            lemma_dec_round_trip(mtime);
            assert(extras_of(ts, req) == extras_of(ts.skip(1), req));
            assert(extras_of(ts.skip(1), req) == extras_of(ts.skip(2), req));
            assert(extras_of(ts.skip(2), req) == extras_of(ts.skip(3), req));
            assert(extras_of(ts.skip(3), req) == extras_of(ts.skip(4), req));
            lemma_extras_identity(extra, req);
            assert(spec_validate(ts) == Ok::<EntryV, ParseErrorV>(v));
        },
    }
}

/// Serialization is injective: distinct representable entries write
/// distinct records.
pub proof fn lemma_write_injective(a: EntryV, b: EntryV)
    requires
        wf_entry(a),
        wf_entry(b),
        spec_write_entry(a) == spec_write_entry(b),
    ensures
        a == b,
{
    lemma_entry_round_trip(a);
    lemma_entry_round_trip(b);
}

/// The token list of a `file` or `sym` record scans back to itself and has
/// no repeated key: its head keys are the four distinct required keys and
/// its preserved keys avoid them.
proof fn lemma_tokens_file_sym(
    ts: Seq<(Seq<u8>, Seq<u8>)>,
    base: Seq<(Seq<u8>, Seq<u8>)>,
    extra: Seq<(Seq<u8>, Seq<u8>)>,
    req: Seq<Seq<u8>>,
    v: EntryV,
)
    requires
        ts == base + extra,
        base.len() == 4,
        req.len() == 4,
        forall|i: int| 0 <= i < 4 ==> (#[trigger] base[i]).0 == req[i],
        forall|i: int, j: int| 0 <= i < j < 4 ==> req[i] != req[j],
        forall|i: int| 0 <= i < 4 ==> (#[trigger] req[i]).len() > 0,
        wf_extra(extra, req),
        tokens_of(v) == ts,
        spec_write_entry(v) =~= tok(ts[0].0, ts[0].1) + toks_rest(ts.skip(1)) + seq![10u8],
    ensures
        spec_scan(record_body(spec_write_entry(v)), ScanState::Sep, Seq::empty()) == Ok::<
            Seq<(Seq<u8>, Seq<u8>)>,
            ParseErrorV,
        >(ts),
        first_dup(ts, Seq::empty()) is None,
{
    let line = spec_write_entry(v);
    let body = tok(ts[0].0, ts[0].1) + toks_rest(ts.skip(1));
    assert(line.len() > 0 && line.last() == 10);
    assert(record_body(line) =~= body);
    assert(forall|i: int| 0 <= i < ts.len() ==> (#[trigger] ts[i]).0.len() > 0) by {
        assert(forall|i: int|
            0 <= i < extra.len() ==> (#[trigger] extra[i]).0.len() > 0 && !req.contains(
                extra[i].0,
            ));
        assert(forall|i: int| 0 <= i < 4 ==> (#[trigger] ts[i]).0 == req[i]);
        assert(forall|i: int| 4 <= i < ts.len() ==> (#[trigger] ts[i]).0 == extra[i - 4].0);
    }
    lemma_scan_record(ts, Seq::empty());
    assert(Seq::<(Seq<u8>, Seq<u8>)>::empty() + ts =~= ts);
    assert forall|i: int, j: int| 0 <= i < j < ts.len() implies (#[trigger] ts[i]).0 != (
    #[trigger] ts[j]).0 by {
        if j < 4 {
            assert(ts[i].0 == req[i] && ts[j].0 == req[j]);
        } else if i < 4 {
            assert(ts[j].0 == extra[j - 4].0);
            assert(!req.contains(extra[j - 4].0));
            assert(ts[i].0 == req[i]);
            assert(req.contains(req[i]));
        } else {
            assert(ts[i].0 == extra[i - 4].0 && ts[j].0 == extra[j - 4].0);
        }
    }
    lemma_first_dup_none(ts, Seq::empty());
}

/// The value of a decimal rendering is the rendered number.
proof fn lemma_dec_value(n: nat)
    ensures
        dec_val(spec_dec(n)) == n,
    decreases n,
{
    if n < 10 {
        assert(spec_dec(n) == seq![(48 + n) as u8]);
        assert(spec_dec(n).drop_last() =~= Seq::<u8>::empty());
        assert(dec_val(Seq::<u8>::empty()) == 0);
        assert(dec_val(spec_dec(n)) == 0 * 10 + ((48 + n) as u8 - 48) as nat);
    } else {
        lemma_dec_value(n / 10);
        assert(spec_dec(n) == spec_dec(n / 10) + seq![(48 + n % 10) as u8]);
        assert(spec_dec(n).drop_last() =~= spec_dec(n / 10));
        assert(spec_dec(n).last() == (48 + n % 10) as u8);
        assert(dec_val(spec_dec(n)) == dec_val(spec_dec(n / 10)) * 10 + ((48 + n % 10) as u8
            - 48) as nat);
    }
}

} // verus!
