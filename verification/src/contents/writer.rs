//! Manifest writer: serializes an [`Entry`] as one escaped, newline
//! terminated record.
//!
//! Escaping works on the path's raw bytes, not on an assumed-UTF-8 string:
//! backslash, `=`, space and tab are backslash-escaped, a literal newline
//! becomes the two characters `\` `n`, and any byte that is not part of a
//! valid UTF-8 run is escaped byte-for-byte as `\` plus the raw byte.

use vstd::prelude::*;

use crate::contents::Entry;
use crate::contents::EntryV;
use crate::contents::key_md5;
use crate::contents::key_mtime;
use crate::contents::key_path;
use crate::contents::key_target;
use crate::contents::key_type;
use crate::contents::lit_dir;
use crate::contents::lit_file;
use crate::contents::lit_md5;
use crate::contents::lit_mtime;
use crate::contents::lit_path;
use crate::contents::lit_sym;
use crate::contents::lit_target;
use crate::contents::lit_type;
use crate::contents::pairs_view;
use crate::contents::tag_dir;
use crate::contents::tag_file;
use crate::contents::tag_sym;
use crate::utils::semi_binary::char_len_at;
use crate::utils::semi_binary::spec_char_len_at;

verus! {

/// The bytes that must always be escaped inside a token: backslash, `=`,
/// space and tab.
pub open spec fn is_special(b: u8) -> bool {
    b == 92 || b == 61 || b == 32 || b == 9
}

/// Decimal rendering of a natural number, most significant digit first.
pub open spec fn spec_dec(n: nat) -> Seq<u8>
    decreases n,
{
    if n < 10 {
        seq![(48 + n) as u8]
    } else {
        spec_dec(n / 10) + seq![(48 + n % 10) as u8]
    }
}

/// Renders `n` in decimal.
pub fn u64_to_dec(n: u64) -> (r: Vec<u8>)
    ensures
        r@ == spec_dec(n as nat),
    decreases n,
{
    if n < 10 {
        let mut v: Vec<u8> = Vec::new();
        v.push(48 + (n as u8));
        v
    } else {
        let mut v = u64_to_dec(n / 10);
        v.push(48 + ((n % 10) as u8));
        assert(v@ =~= spec_dec((n / 10) as nat) + seq![(48 + (n as nat) % 10) as u8]);
        v
    }
}

/// The escape code of the one-byte item `b` outside any valid multi-byte
/// UTF-8 character: a newline becomes `\` `n`, the reserved bytes are
/// backslash-escaped, invalid bytes are escaped raw, and everything else is
/// copied through.
pub open spec fn esc_one(b: u8, valid: bool) -> Seq<u8> {
    if b == 10 {
        seq![92u8, 110u8]
    } else if is_special(b) {
        seq![92u8, b]
    } else if valid {
        seq![b]
    } else {
        seq![92u8, b]
    }
}

/// Escaped form of the byte string `s`.
pub open spec fn esc(s: Seq<u8>) -> Seq<u8>
    decreases s.len(),
{
    if s.len() == 0 {
        Seq::empty()
    } else {
        let l = spec_char_len_at(s, 0);
        if l == 1 {
            esc_one(s[0], true) + esc(s.skip(1))
        } else if l > 1 {
            s.subrange(0, l) + esc(s.skip(l))
        } else {
            esc_one(s[0], false) + esc(s.skip(1))
        }
    }
}

/// Appends the escaped form of `s` to `out`.
pub fn escape_into(out: &mut Vec<u8>, s: &Vec<u8>)
    ensures
        final(out)@ == old(out)@ + esc(s@),
{
    let n: usize = s.len();
    let mut i: usize = 0;
    proof {
        assert(s@.skip(0) =~= s@);
        assert(out@ + esc(s@) =~= old(out)@ + esc(s@));
    }
    while i < n
        invariant
            n == s@.len(),
            0 <= i <= n,
            out@ + esc(s@.skip(i as int)) == old(out)@ + esc(s@),
        decreases n - i,
    {
        let ghost t = s@.skip(i as int);
        proof {
            crate::utils::semi_binary::lemma_char_len_shift(s@, i as int);
            assert(t[0] == s@[i as int]);
        }
        let l = char_len_at(s, i);
        let b = s[i];
        if l == 1 {
            if b == 10 {
                out.push(92);
                out.push(110);
            } else if b == 92 || b == 61 || b == 32 || b == 9 {
                out.push(92);
                out.push(b);
            } else {
                out.push(b);
            }
            proof {
                assert(esc(t) == esc_one(t[0], true) + esc(t.skip(1)));
                assert(t.skip(1) =~= s@.skip(i + 1));
                assert(out@ + esc(s@.skip(i + 1)) =~= old(out)@ + esc(s@));
            }
            i = i + 1;
        } else if l > 1 {
            let ghost before = out@;
            let mut j: usize = 0;
            while j < l
                invariant
                    n == s@.len(),
                    0 <= i,
                    0 <= j <= l,
                    i + l <= n,
                    out@ == before + s@.subrange(i as int, i + j),
                decreases l - j,
            {
                out.push(s[i + j]);
                assert(out@ =~= before + s@.subrange(i as int, i + j + 1));
                j = j + 1;
            }
            proof {
                assert(out@ == before + s@.subrange(i as int, i + l));
                assert(esc(t) == t.subrange(0, l as int) + esc(t.skip(l as int)));
                assert(t.subrange(0, l as int) =~= s@.subrange(i as int, i + l));
                assert(t.skip(l as int) =~= s@.skip(i + l));
                assert(out@ + esc(s@.skip(i + l)) =~= old(out)@ + esc(s@));
            }
            i = i + l;
        } else {
            out.push(92);
            out.push(b);
            proof {
                assert(esc(t) == esc_one(t[0], false) + esc(t.skip(1)));
                assert(t.skip(1) =~= s@.skip(i + 1));
                assert(out@ + esc(s@.skip(i + 1)) =~= old(out)@ + esc(s@));
            }
            i = i + 1;
        }
    }
    proof {
        assert(s@.skip(n as int) =~= Seq::<u8>::empty());
        assert(out@ =~= old(out)@ + esc(s@));
    }
}

/// One serialized `key=value` token: both sides escaped, joined by `=`.
pub open spec fn tok(k: Seq<u8>, v: Seq<u8>) -> Seq<u8> {
    esc(k) + seq![61u8] + esc(v)
}

/// The serialized form of a token list, each token preceded by one space.
pub open spec fn toks_rest(ts: Seq<(Seq<u8>, Seq<u8>)>) -> Seq<u8>
    decreases ts.len(),
{
    if ts.len() == 0 {
        Seq::empty()
    } else {
        seq![32u8] + tok(ts[0].0, ts[0].1) + toks_rest(ts.skip(1))
    }
}

/// Serialization distributes over concatenation of token lists.
pub proof fn lemma_toks_rest_concat(a: Seq<(Seq<u8>, Seq<u8>)>, b: Seq<(Seq<u8>, Seq<u8>)>)
    ensures
        toks_rest(a + b) == toks_rest(a) + toks_rest(b),
    decreases a.len(),
{
    if a.len() == 0 {
        assert(a + b =~= b);
        assert(toks_rest(a) + toks_rest(b) =~= toks_rest(b));
    } else {
        lemma_toks_rest_concat(a.skip(1), b);
        assert((a + b).skip(1) =~= a.skip(1) + b);
        assert(toks_rest(a + b) =~= toks_rest(a) + toks_rest(b));
    }
}

/// Serialized form of a single-token list.
pub proof fn lemma_toks_rest_one(t: (Seq<u8>, Seq<u8>))
    ensures
        toks_rest(seq![t]) == seq![32u8] + tok(t.0, t.1),
{
    assert(seq![t].skip(1) =~= Seq::<(Seq<u8>, Seq<u8>)>::empty());
    assert(toks_rest(Seq::<(Seq<u8>, Seq<u8>)>::empty()) == Seq::<u8>::empty());
    assert(toks_rest(seq![t]) =~= seq![32u8] + tok(t.0, t.1));
}

/// Serialized form of a three-token list.
pub proof fn lemma_toks_rest_three(
    t1: (Seq<u8>, Seq<u8>),
    t2: (Seq<u8>, Seq<u8>),
    t3: (Seq<u8>, Seq<u8>),
)
    ensures
        toks_rest(seq![t1, t2, t3]) == seq![32u8] + tok(t1.0, t1.1) + seq![32u8] + tok(t2.0, t2.1)
            + seq![32u8] + tok(t3.0, t3.1),
{
    lemma_toks_rest_one(t3);
    assert(seq![t2, t3].skip(1) =~= seq![t3]);
    assert(toks_rest(seq![t2, t3]) =~= seq![32u8] + tok(t2.0, t2.1) + toks_rest(seq![t3]));
    assert(seq![t1, t2, t3].skip(1) =~= seq![t2, t3]);
    assert(toks_rest(seq![t1, t2, t3]) =~= seq![32u8] + tok(t1.0, t1.1) + seq![32u8] + tok(
        t2.0,
        t2.1,
    ) + seq![32u8] + tok(t3.0, t3.1));
}

/// The token list of an entry: `type`, `path`, the type-specific keys,
/// then the preserved keys in their stored order.
pub open spec fn tokens_of(v: EntryV) -> Seq<(Seq<u8>, Seq<u8>)> {
    match v {
        EntryV::Dir { path } => seq![(lit_type(), lit_dir()), (lit_path(), path)],
        EntryV::File { path, md5, mtime, extra } => seq![
            (lit_type(), lit_file()),
            (lit_path(), path),
            (lit_md5(), md5),
            (lit_mtime(), spec_dec(mtime as nat)),
        ] + extra,
        EntryV::Sym { path, target, mtime, extra } => seq![
            (lit_type(), lit_sym()),
            (lit_path(), path),
            (lit_target(), target),
            (lit_mtime(), spec_dec(mtime as nat)),
        ] + extra,
    }
}

/// The serialized record of an entry: its tokens, space separated, with a
/// terminating newline.
pub open spec fn spec_write_entry(v: EntryV) -> Seq<u8> {
    let ts = tokens_of(v);
    tok(ts[0].0, ts[0].1) + toks_rest(ts.skip(1)) + seq![10u8]
}

/// Appends one `key=value` token, preceded by a space unless it is the
/// first of the record.
fn emit_token(out: &mut Vec<u8>, first: bool, key: &Vec<u8>, value: &Vec<u8>)
    ensures
        final(out)@ == old(out)@ + (if first {
            Seq::<u8>::empty()
        } else {
            seq![32u8]
        }) + tok(key@, value@),
{
    if !first {
        out.push(32);
    }
    escape_into(out, key);
    out.push(61);
    escape_into(out, value);
    assert(out@ =~= old(out)@ + (if first {
        Seq::<u8>::empty()
    } else {
        seq![32u8]
    }) + tok(key@, value@));
}

/// Serializes one entry as one manifest record.
pub fn write_line(entry: &Entry) -> (r: Vec<u8>)
    ensures
        r@ == spec_write_entry(entry@),
{
    let mut out: Vec<u8> = Vec::new();
    match entry {
        Entry::Dir { path } => {
            emit_token(&mut out, true, &key_type(), &tag_dir());
            emit_token(&mut out, false, &key_path(), path);
            proof {
                let ts = tokens_of(entry@);
                assert(ts.skip(1) =~= seq![(lit_path(), path@)]);
                lemma_toks_rest_one((lit_path(), path@));
            }
        },
        Entry::File { path, md5, mtime, extra } => {
            emit_token(&mut out, true, &key_type(), &tag_file());
            emit_token(&mut out, false, &key_path(), path);
            emit_token(&mut out, false, &key_md5(), md5);
            emit_token(&mut out, false, &key_mtime(), &u64_to_dec(*mtime));
            emit_extra(&mut out, extra);
            proof {
                let base = seq![
                    (lit_type(), lit_file()),
                    (lit_path(), path@),
                    (lit_md5(), md5@),
                    (lit_mtime(), spec_dec(*mtime as nat)),
                ];
                lemma_base_then_extra(base, pairs_view(extra@));
                assert(base.skip(1) =~= seq![base[1], base[2], base[3]]);
                lemma_toks_rest_three(base[1], base[2], base[3]);
                assert(tokens_of(entry@) == base + pairs_view(extra@));
            }
        },
        Entry::Sym { path, target, mtime, extra } => {
            emit_token(&mut out, true, &key_type(), &tag_sym());
            emit_token(&mut out, false, &key_path(), path);
            emit_token(&mut out, false, &key_target(), target);
            emit_token(&mut out, false, &key_mtime(), &u64_to_dec(*mtime));
            emit_extra(&mut out, extra);
            proof {
                let base = seq![
                    (lit_type(), lit_sym()),
                    (lit_path(), path@),
                    (lit_target(), target@),
                    (lit_mtime(), spec_dec(*mtime as nat)),
                ];
                lemma_base_then_extra(base, pairs_view(extra@));
                assert(base.skip(1) =~= seq![base[1], base[2], base[3]]);
                lemma_toks_rest_three(base[1], base[2], base[3]);
                assert(tokens_of(entry@) == base + pairs_view(extra@));
            }
        },
    }
    out.push(10);
    assert(out@ =~= spec_write_entry(entry@));
    out
}

/// A four-token record head followed by preserved keys serializes as the
/// head tokens, then the preserved tokens.
proof fn lemma_base_then_extra(base: Seq<(Seq<u8>, Seq<u8>)>, extra: Seq<(Seq<u8>, Seq<u8>)>)
    requires
        base.len() == 4,
    ensures
        tok((base + extra)[0].0, (base + extra)[0].1) + toks_rest((base + extra).skip(1)) == tok(
            base[0].0,
            base[0].1,
        ) + toks_rest(base.skip(1)) + toks_rest(extra),
{
    lemma_toks_rest_concat(base.skip(1), extra);
    assert((base + extra).skip(1) =~= base.skip(1) + extra);
    assert(tok((base + extra)[0].0, (base + extra)[0].1) + toks_rest((base + extra).skip(1)) =~= tok(
        base[0].0,
        base[0].1,
    ) + toks_rest(base.skip(1)) + toks_rest(extra));
}

/// Appends the preserved `key=value` tokens in their stored order.
fn emit_extra(out: &mut Vec<u8>, extra: &Vec<(Vec<u8>, Vec<u8>)>)
    ensures
        final(out)@ == old(out)@ + toks_rest(pairs_view(extra@)),
{
    let n: usize = extra.len();
    let mut j: usize = 0;
    while j < n
        invariant
            n == extra@.len(),
            0 <= j <= n,
            out@ == old(out)@ + toks_rest(pairs_view(extra@).take(j as int)),
        decreases n - j,
    {
        emit_token(out, false, &extra[j].0, &extra[j].1);
        proof {
            let all = pairs_view(extra@);
            lemma_toks_rest_concat(all.take(j as int), seq![all[j as int]]);
            assert(all.take(j + 1) =~= all.take(j as int) + seq![all[j as int]]);
            lemma_toks_rest_one(all[j as int]);
            assert(out@ =~= old(out)@ + toks_rest(all.take(j + 1)));
        }
        j = j + 1;
    }
    assert(pairs_view(extra@).take(n as int) =~= pairs_view(extra@));
}

/// Accumulates serialized records for one package manifest.
pub struct ContentsWriter {
    buf: Vec<u8>,
}

impl ContentsWriter {
    /// The records written so far.
    pub closed spec fn buf_view(&self) -> Seq<u8> {
        self.buf@
    }

    /// An empty manifest.
    pub fn new() -> (r: ContentsWriter)
        ensures
            r.buf_view() == Seq::<u8>::empty(),
    {
        ContentsWriter { buf: Vec::new() }
    }

    /// Appends one serialized entry record.
    pub fn write_entry(&mut self, entry: &Entry)
        ensures
            final(self).buf_view() == old(self).buf_view() + spec_write_entry(entry@),
    {
        let line = write_line(entry);
        let ghost before = self.buf@;
        let n: usize = line.len();
        let mut i: usize = 0;
        while i < n
            invariant
                n == line@.len(),
                0 <= i <= n,
                self.buf@ == before + line@.take(i as int),
            decreases n - i,
        {
            self.buf.push(line[i]);
            assert(self.buf@ =~= before + line@.take(i + 1));
            i = i + 1;
        }
        assert(self.buf@ =~= before + line@);
    }

    /// Hands the accumulated manifest bytes out.
    pub fn into_inner(self) -> (r: Vec<u8>)
        ensures
            r@ == self.buf_view(),
    {
        self.buf
    }
}

} // verus!
