//! Content digests for file integrity: MD5 through `crypto_hash`,
//! rendered as hexadecimal through `hex`.

use vstd::prelude::*;

verus! {

/// The MD5 digest of a byte string.  What the digest is takes pages to
/// state; it is a pure function of the input bytes alone, computed by an
/// outside library, so it only gets a name here.
pub uninterp spec fn md5_of(data: Seq<u8>) -> Seq<u8>;

/// Relies on `crypto_hash::digest` with the MD5 algorithm: the digest
/// depends on the input bytes alone and is 16 bytes long.
#[verifier::external_body]
fn digest_md5(data: &Vec<u8>) -> (r: Vec<u8>)
    ensures
        r@ == md5_of(data@),
        r@.len() == 16,
{
    crypto_hash::digest(crypto_hash::Algorithm::MD5, data.as_slice())
}

/// The lowercase hexadecimal digit of a value below 16, as a byte.
pub open spec fn hex_digit(d: u8) -> u8 {
    if d < 10 {
        (48 + d) as u8
    } else {
        (87 + d) as u8
    }
}

/// The lowercase hexadecimal rendering of a byte string: two digits per
/// byte, high nibble first.
pub open spec fn spec_hex_lower(data: Seq<u8>) -> Seq<u8>
    decreases data.len(),
{
    if data.len() == 0 {
        Seq::empty()
    } else {
        seq![hex_digit(data[0] / 16), hex_digit(data[0] % 16)] + spec_hex_lower(data.skip(1))
    }
}

/// Relies on `hex::encode`: two lowercase hexadecimal digits for each
/// byte, in order.
#[verifier::external_body]
fn hex_encode(data: &Vec<u8>) -> (r: Vec<u8>)
    ensures
        r@ == spec_hex_lower(data@),
{
    hex::encode(data).into_bytes()
}

/// Is `b` the byte of a lowercase hexadecimal digit?
pub open spec fn is_hex_digit(b: u8) -> bool {
    (48 <= b && b <= 57) || (97 <= b && b <= 102)
}

/// A hexadecimal rendering doubles the length and yields digits only.
pub proof fn lemma_hex_lower_shape(data: Seq<u8>)
    ensures
        spec_hex_lower(data).len() == 2 * data.len(),
        forall|i: int|
            0 <= i < spec_hex_lower(data).len() ==> is_hex_digit(
                #[trigger] spec_hex_lower(data)[i],
            ),
    decreases data.len(),
{
    if data.len() > 0 {
        lemma_hex_lower_shape(data.skip(1));
        assert forall|i: int| 0 <= i < spec_hex_lower(data).len() implies is_hex_digit(
            #[trigger] spec_hex_lower(data)[i],
        ) by {
            if i >= 2 {
                assert(spec_hex_lower(data)[i] == spec_hex_lower(data.skip(1))[i - 2]);
            }
        }
    }
}

/// The content digest used by manifests: the MD5 of the data, as 32
/// lowercase hexadecimal digit bytes.
pub open spec fn spec_file_hash(data: Seq<u8>) -> Seq<u8> {
    spec_hex_lower(md5_of(data))
}

/// Computes the content digest of `data`.
pub fn file_hash(data: &Vec<u8>) -> (r: Vec<u8>)
    ensures
        r@ == spec_file_hash(data@),
        r@.len() == 32,
        forall|i: int| 0 <= i < r@.len() ==> is_hex_digit(#[trigger] r@[i]),
{
    let digest = digest_md5(data);
    let hex = hex_encode(&digest);
    proof {
        lemma_hex_lower_shape(digest@);
    }
    hex
}

} // verus!
