//! HMAC-MD5 of the password, keyed with the portal's challenge.

use vstd::prelude::*;
use vstd::utf8::encode_utf8;

use crate::hex::{hex_spec, lemma_hex_shape, to_hex};

verus! {

/// The 16-byte HMAC-MD5 tag of `data` under `key` (RFC 2104 over MD5).
pub uninterp spec fn hmac_md5_tag(key: Seq<u8>, data: Seq<u8>) -> Seq<u8>;

/// Trusted: HMAC-MD5 from the `hmac` and `md-5` crates
/// (`Hmac::<Md5>::new_from_slice`, `Mac::update`, `Mac::finalize`).
/// The contract claims only that the tag is a function of the key and the
/// data, named `hmac_md5_tag`, and that it is 16 bytes long, as the MD5
/// output size shows; `new_from_slice` accepts keys of every length.
#[verifier::external_body]
fn hmac_md5_bytes(key: &[u8], data: &[u8]) -> (tag: Vec<u8>)
    ensures
        tag@ == hmac_md5_tag(key@, data@),
        tag@.len() == 16,
{
    let mut mac = <::hmac::Hmac<::md5::Md5> as ::hmac::Mac>::new_from_slice(key).unwrap();
    ::hmac::Mac::update(&mut mac, data);
    ::hmac::Mac::finalize(mac).into_bytes().to_vec()
}

/// The HMAC-MD5 of the UTF-8 bytes of `data` under those of `key`, as
/// lowercase hexadecimal text.
pub open spec fn hmac_md5_hex(key: Seq<char>, data: Seq<char>) -> Seq<char> {
    hex_spec(hmac_md5_tag(encode_utf8(key), encode_utf8(data)))
}

/// Computes the HMAC-MD5 of `data` keyed with `key` and writes it as 32
/// lowercase hexadecimal digits.
pub fn hmac_md5(key: &str, data: &str) -> (code: String)
    ensures
        code@ == hmac_md5_hex(key@, data@),
        code@.len() == 32,
{
    let tag = hmac_md5_bytes(key.as_bytes(), data.as_bytes());
    proof {
        lemma_hex_shape(tag@);
    }
    to_hex(tag.as_slice())
}

} // verus!
