//! Splits raw bytes into valid-UTF-8 runs and raw-byte runs.
//!
//! File names are arbitrary byte strings.  The manifest codec copies valid
//! UTF-8 through and escapes everything else byte-for-byte, so it needs to
//! know, for every position, whether a valid UTF-8 character starts there.

use vstd::prelude::*;

verus! {

/// Is `b` a UTF-8 continuation byte?
pub open spec fn is_cont(b: u8) -> bool {
    0x80 <= b && b <= 0xBF
}

/// Length of the valid UTF-8 character starting at `s[i]`, or 0 when no
/// valid character starts there.  Follows the encoding exactly: overlong
/// forms, surrogates and values above U+10FFFF are invalid.
pub open spec fn spec_char_len_at(s: Seq<u8>, i: int) -> int {
    if i < 0 || i >= s.len() {
        0
    } else if s[i] < 0x80 {
        1
    } else if 0xC2 <= s[i] && s[i] <= 0xDF {
        if i + 2 <= s.len() && is_cont(s[i + 1]) {
            2
        } else {
            0
        }
    } else if 0xE0 <= s[i] && s[i] <= 0xEF {
        if i + 3 <= s.len() && is_cont(s[i + 2]) && (if s[i] == 0xE0 {
            0xA0 <= s[i + 1] && s[i + 1] <= 0xBF
        } else if s[i] == 0xED {
            0x80 <= s[i + 1] && s[i + 1] <= 0x9F
        } else {
            is_cont(s[i + 1])
        }) {
            3
        } else {
            0
        }
    } else if 0xF0 <= s[i] && s[i] <= 0xF4 {
        if i + 4 <= s.len() && is_cont(s[i + 2]) && is_cont(s[i + 3]) && (if s[i] == 0xF0 {
            0x90 <= s[i + 1] && s[i + 1] <= 0xBF
        } else if s[i] == 0xF4 {
            0x80 <= s[i + 1] && s[i + 1] <= 0x8F
        } else {
            is_cont(s[i + 1])
        }) {
            4
        } else {
            0
        }
    } else {
        0
    }
}

/// Length of the valid UTF-8 character starting at `s[i]`, or 0 when no
/// valid character starts there.
pub fn char_len_at(s: &Vec<u8>, i: usize) -> (r: usize)
    requires
        i < s@.len(),
    ensures
        r == spec_char_len_at(s@, i as int),
        i + r <= s@.len(),
{
    let n: usize = s.len();
    let b = s[i];
    if b < 0x80 {
        1
    } else if 0xC2 <= b && b <= 0xDF {
        if n - i >= 2 && 0x80 <= s[i + 1] && s[i + 1] <= 0xBF {
            2
        } else {
            0
        }
    } else if 0xE0 <= b && b <= 0xEF {
        if n - i >= 3 && 0x80 <= s[i + 2] && s[i + 2] <= 0xBF && (if b == 0xE0 {
            0xA0 <= s[i + 1] && s[i + 1] <= 0xBF
        } else if b == 0xED {
            0x80 <= s[i + 1] && s[i + 1] <= 0x9F
        } else {
            0x80 <= s[i + 1] && s[i + 1] <= 0xBF
        }) {
            3
        } else {
            0
        }
    } else if 0xF0 <= b && b <= 0xF4 {
        if n - i >= 4 && 0x80 <= s[i + 2] && s[i + 2] <= 0xBF && 0x80 <= s[i + 3] && s[i + 3]
            <= 0xBF && (if b == 0xF0 {
            0x90 <= s[i + 1] && s[i + 1] <= 0xBF
        } else if b == 0xF4 {
            0x80 <= s[i + 1] && s[i + 1] <= 0x8F
        } else {
            0x80 <= s[i + 1] && s[i + 1] <= 0xBF
        }) {
            4
        } else {
            0
        }
    } else {
        0
    }
}

/// Character lengths only depend on the bytes from the position on.
pub proof fn lemma_char_len_shift(s: Seq<u8>, i: int)
    requires
        0 <= i <= s.len(),
    ensures
        spec_char_len_at(s.skip(i), 0) == spec_char_len_at(s, i),
{
    let t = s.skip(i);
    assert(t.len() == s.len() - i);
    if i < s.len() {
        assert(t[0] == s[i]);
        if i + 1 < s.len() {
            assert(t[1] == s[i + 1]);
        }
        if i + 2 < s.len() {
            assert(t[2] == s[i + 2]);
        }
        if i + 3 < s.len() {
            assert(t[3] == s[i + 3]);
        }
    }
}

/// Length of the maximal run of valid UTF-8 characters starting at `i`.
pub open spec fn valid_run_len(s: Seq<u8>, i: int) -> nat
    decreases s.len() - i,
{
    if i < 0 || i >= s.len() {
        0
    } else {
        let l = spec_char_len_at(s, i);
        if l > 0 {
            (l + valid_run_len(s, i + l)) as nat
        } else {
            0
        }
    }
}

/// Length of the maximal run of bytes at `i` on which no valid UTF-8
/// character starts.
pub open spec fn invalid_run_len(s: Seq<u8>, i: int) -> nat
    decreases s.len() - i,
{
    if i < 0 || i >= s.len() {
        0
    } else if spec_char_len_at(s, i) == 0 {
        (1 + invalid_run_len(s, i + 1)) as nat
    } else {
        0
    }
}

/// One maximal run of input bytes: either a valid UTF-8 run or a raw-byte
/// run.
pub enum Utf8Chunk {
    Valid(Vec<u8>),
    Bytes(Vec<u8>),
}

/// Model of a [`Utf8Chunk`].
pub enum Utf8ChunkV {
    Valid(Seq<u8>),
    Bytes(Seq<u8>),
}

impl View for Utf8Chunk {
    type V = Utf8ChunkV;

    open spec fn view(&self) -> Utf8ChunkV {
        match self {
            Utf8Chunk::Valid(v) => Utf8ChunkV::Valid(v@),
            Utf8Chunk::Bytes(v) => Utf8ChunkV::Bytes(v@),
        }
    }
}

/// A run never extends past the end of the string.
pub proof fn lemma_valid_run_len_bounds(s: Seq<u8>, i: int)
    requires
        0 <= i <= s.len(),
    ensures
        i + valid_run_len(s, i) <= s.len(),
    decreases s.len() - i,
{
    if i < s.len() {
        let l = spec_char_len_at(s, i);
        if l > 0 {
            lemma_valid_run_len_bounds(s, i + l);
        }
    }
}

/// A raw-byte run never extends past the end of the string.
pub proof fn lemma_invalid_run_len_bounds(s: Seq<u8>, i: int)
    requires
        0 <= i <= s.len(),
    ensures
        i + invalid_run_len(s, i) <= s.len(),
    decreases s.len() - i,
{
    if i < s.len() && spec_char_len_at(s, i) == 0 {
        lemma_invalid_run_len_bounds(s, i + 1);
    }
}

/// The chunks of `s` from position `i` on: alternating maximal valid and
/// raw-byte runs whose concatenation is `s`.
pub open spec fn spec_chunks_from(s: Seq<u8>, i: int) -> Seq<Utf8ChunkV>
    decreases s.len() - i,
    via spec_chunks_from_dec
{
    if i < 0 || i >= s.len() {
        Seq::empty()
    } else if spec_char_len_at(s, i) > 0 {
        seq![Utf8ChunkV::Valid(s.subrange(i, i + valid_run_len(s, i)))] + spec_chunks_from(
            s,
            i + valid_run_len(s, i),
        )
    } else {
        seq![Utf8ChunkV::Bytes(s.subrange(i, i + invalid_run_len(s, i)))] + spec_chunks_from(
            s,
            i + invalid_run_len(s, i),
        )
    }
}

#[via_fn]
proof fn spec_chunks_from_dec(s: Seq<u8>, i: int) {
    if 0 <= i < s.len() {
        if spec_char_len_at(s, i) > 0 {
            assert(valid_run_len(s, i) >= spec_char_len_at(s, i));
            lemma_valid_run_len_bounds(s, i);
        } else {
            assert(invalid_run_len(s, i) >= 1);
            lemma_invalid_run_len_bounds(s, i);
        }
    }
}

/// The chunks of `s`.
pub open spec fn spec_chunks(s: Seq<u8>) -> Seq<Utf8ChunkV> {
    spec_chunks_from(s, 0)
}

/// Model of a list of chunks.
pub open spec fn chunks_view(cs: Seq<Utf8Chunk>) -> Seq<Utf8ChunkV> {
    cs.map(|i: int, c: Utf8Chunk| c@)
}

/// A cursor over the chunks of a byte string.
pub struct Utf8ChunksIter<'s> {
    bytes: &'s Vec<u8>,
    pos: usize,
}

impl<'s> Utf8ChunksIter<'s> {
    /// The byte string being split.
    pub closed spec fn bytes_view(&self) -> Seq<u8> {
        self.bytes@
    }

    /// The current position of the cursor.
    pub closed spec fn pos_view(&self) -> int {
        self.pos as int
    }

    /// The next chunk, advancing the cursor past it.
    pub fn next(&mut self) -> (r: Option<Utf8Chunk>)
        requires
            old(self).pos_view() <= old(self).bytes_view().len(),
        ensures
            final(self).bytes_view() == old(self).bytes_view(),
            old(self).pos_view() >= old(self).bytes_view().len() ==> r is None
                && final(self).pos_view() == old(self).pos_view(),
            old(self).pos_view() < old(self).bytes_view().len() ==> {
                &&& r is Some
                &&& old(self).pos_view() < final(self).pos_view() <= old(self).bytes_view().len()
                &&& spec_chunks_from(old(self).bytes_view(), old(self).pos_view()) == seq![
                    r.unwrap()@,
                ] + spec_chunks_from(old(self).bytes_view(), final(self).pos_view())
            },
    {
        let n: usize = self.bytes.len();
        if self.pos >= n {
            return None;
        }
        let ghost s = self.bytes@;
        let start: usize = self.pos;
        let mut buf: Vec<u8> = Vec::new();
        if char_len_at(self.bytes, self.pos) > 0 {
            while self.pos < n && char_len_at(self.bytes, self.pos) > 0
                invariant
                    s == self.bytes@,
                    n == s.len(),
                    start <= self.pos <= n,
                    buf@ == s.subrange(start as int, self.pos as int),
                    valid_run_len(s, start as int) == (self.pos - start) + valid_run_len(
                        s,
                        self.pos as int,
                    ),
                decreases n - self.pos,
            {
                let l = char_len_at(self.bytes, self.pos);
                let mut j: usize = 0;
                while j < l
                    invariant
                        s == self.bytes@,
                        n == s.len(),
                        self.pos + l <= n,
                        0 <= j <= l,
                        buf@ == s.subrange(start as int, self.pos + j),
                        start <= self.pos,
                    decreases l - j,
                {
                    buf.push(self.bytes[self.pos + j]);
                    assert(buf@ =~= s.subrange(start as int, self.pos + j + 1));
                    j = j + 1;
                }
                self.pos = self.pos + l;
            }
            assert(valid_run_len(s, self.pos as int) == 0);
            Some(Utf8Chunk::Valid(buf))
        } else {
            while self.pos < n && char_len_at(self.bytes, self.pos) == 0
                invariant
                    s == self.bytes@,
                    n == s.len(),
                    start <= self.pos <= n,
                    buf@ == s.subrange(start as int, self.pos as int),
                    invalid_run_len(s, start as int) == (self.pos - start) + invalid_run_len(
                        s,
                        self.pos as int,
                    ),
                decreases n - self.pos,
            {
                buf.push(self.bytes[self.pos]);
                assert(buf@ =~= s.subrange(start as int, self.pos + 1));
                self.pos = self.pos + 1;
            }
            assert(invalid_run_len(s, self.pos as int) == 0);
            Some(Utf8Chunk::Bytes(buf))
        }
    }

    /// Collects the remaining chunks.
    pub fn into_vec(self) -> (r: Vec<Utf8Chunk>)
        requires
            self.pos_view() == 0,
        ensures
            chunks_view(r@) == spec_chunks(self.bytes_view()),
    {
        let ghost s = self.bytes_view();
        let mut it = self;
        let mut chunks: Vec<Utf8Chunk> = Vec::new();
        #[verifier::loop_isolation(false)]
        loop
            invariant
                it.bytes_view() == s,
                0 <= it.pos_view() <= s.len(),
                chunks_view(chunks@) + spec_chunks_from(s, it.pos_view()) == spec_chunks(s),
            decreases s.len() - it.pos_view(),
        {
            let ghost prev = chunks@;
            match it.next() {
                Some(chunk) => {
                    chunks.push(chunk);
                    assert(chunks_view(chunks@) =~= chunks_view(prev).push(
                        chunks@[prev.len() as int]@,
                    ));
                    assert(chunks_view(chunks@) + spec_chunks_from(s, it.pos_view())
                        =~= spec_chunks(s));
                },
                None => {
                    proof {
                        assert(chunks_view(chunks@) =~= spec_chunks(s));
                    }
                    return chunks;
                },
            }
        }
    }
}

/// Starts splitting `bytes` into valid-UTF-8 runs and raw-byte runs.
pub fn iter_utf8_chunks<'s>(bytes: &'s Vec<u8>) -> (r: Utf8ChunksIter<'s>)
    ensures
        r.bytes_view() == bytes@,
        r.pos_view() == 0,
{
    Utf8ChunksIter { bytes, pos: 0 }
}

} // verus!
