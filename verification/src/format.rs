//! The login request's `info` and `chksum` fields and the protocol's fixed
//! parameters.

use vstd::prelude::*;
use vstd::string::StringExecFns;
use vstd::utf8::encode_utf8;

use crate::hex::{hex_spec, lemma_hex_shape, to_hex};
use crate::xencode::{
    get_xencode, lemma_xencode_text_injective, message_fits, xencode_fits, xencode_text,
};

verus! {

/// The access-controller id sent with every login.
pub const DEFAULT_AC_ID: &'static str = "1";

/// The portal's `n` parameter.
pub const DEFAULT_N: &'static str = "200";

/// The portal's `type` parameter.
pub const DEFAULT_RTYPE: &'static str = "1";

/// The user agent sent with every request.
pub const DEFAULT_UA: &'static str = "Mozilla/5.0 (Windows NT 10.0; Win64; x64) AppleWebKit/537.36 (KHTML, like Gecko) Chrome/91.0.4472.124 Safari/537.36";

/// The 20-byte SHA-1 digest of `data` (FIPS 180-4).
pub uninterp spec fn sha1_digest(data: Seq<u8>) -> Seq<u8>;

/// Trusted: SHA-1 from the `sha1` crate (`Sha1::new`, `Digest::update`,
/// `Digest::finalize`).  The contract claims only that the digest is a
/// function of the data, named `sha1_digest`, and that it is 20 bytes long,
/// as the SHA-1 output size shows.
#[verifier::external_body]
fn sha1_bytes(data: &[u8]) -> (digest: Vec<u8>)
    ensures
        digest@ == sha1_digest(data@),
        digest@.len() == 20,
{
    let mut hasher = <::sha1::Sha1 as ::sha1::Digest>::new();
    ::sha1::Digest::update(&mut hasher, data);
    ::sha1::Digest::finalize(hasher).to_vec()
}

/// The text whose SHA-1 is the checksum: every field, each preceded by the
/// token.
pub open spec fn chksum_input(
    token: Seq<char>,
    username: Seq<char>,
    hmd5: Seq<char>,
    ac_id: Seq<char>,
    ip: Seq<char>,
    n: Seq<char>,
    rtype: Seq<char>,
    info: Seq<char>,
) -> Seq<char> {
    token + username + token + hmd5 + token + ac_id + token + ip + token + n + token + rtype + token
        + info
}

/// The checksum: SHA-1 of the UTF-8 bytes of `chksum_input`, in lowercase
/// hexadecimal.
pub open spec fn chksum_spec(
    token: Seq<char>,
    username: Seq<char>,
    hmd5: Seq<char>,
    ac_id: Seq<char>,
    ip: Seq<char>,
    n: Seq<char>,
    rtype: Seq<char>,
    info: Seq<char>,
) -> Seq<char> {
    hex_spec(sha1_digest(encode_utf8(chksum_input(token, username, hmd5, ac_id, ip, n, rtype, info))))
}

/// Computes the login request's checksum: the SHA-1 hex digest of all fields,
/// each preceded by the token.
pub fn get_chksum(
    token: &str,
    username: &str,
    hmd5: &str,
    ac_id: &str,
    ip: &str,
    n: &str,
    rtype: &str,
    i: &str,
) -> (chksum: String)
    ensures
        chksum@ == chksum_spec(token@, username@, hmd5@, ac_id@, ip@, n@, rtype@, i@),
        chksum@.len() == 40,
{
    let mut original = String::new();
    original.append(token);
    original.append(username);
    original.append(token);
    original.append(hmd5);
    original.append(token);
    original.append(ac_id);
    original.append(token);
    original.append(ip);
    original.append(token);
    original.append(n);
    original.append(token);
    original.append(rtype);
    original.append(token);
    original.append(i);
    assert(original@ =~= chksum_input(token@, username@, hmd5@, ac_id@, ip@, n@, rtype@, i@));
    let digest = sha1_bytes(original.as_str().as_bytes());
    proof {
        lemma_hex_shape(digest@);
    }
    to_hex(digest.as_slice())
}

/// The JSON text that is encrypted into the `info` field.
pub open spec fn info_json(
    username: Seq<char>,
    password: Seq<char>,
    ip: Seq<char>,
    ac_id: Seq<char>,
) -> Seq<char> {
    "{\"username\":\""@ + username + "\",\"password\":\""@ + password + "\",\"ip\":\""@ + ip
        + "\",\"acid\":\""@ + ac_id + "\",\"enc_ver\":\"srun_bx1\"}"@
}

/// Writes the JSON text that is encrypted into the `info` field.
pub fn info_json_text(username: &str, password: &str, ip: &str, ac_id: &str) -> (json: String)
    ensures
        json@ == info_json(username@, password@, ip@, ac_id@),
{
    let mut json = String::from_str("{\"username\":\"");
    json.append(username);
    json.append("\",\"password\":\"");
    json.append(password);
    json.append("\",\"ip\":\"");
    json.append(ip);
    json.append("\",\"acid\":\"");
    json.append(ac_id);
    json.append("\",\"enc_ver\":\"srun_bx1\"}");
    assert(json@ =~= info_json(username@, password@, ip@, ac_id@));
    json
}

/// Tells whether the credentials are small enough for `get_info`.
pub fn info_fits(username: &str, password: &str, ip: &str, ac_id: &str) -> (fits: bool)
    ensures
        fits == xencode_fits(encode_utf8(info_json(username@, password@, ip@, ac_id@)).len()),
{
    let json = info_json_text(username, password, ip, ac_id);
    message_fits(json.as_str().as_bytes().len())
}

/// The `info` field: the marker `{SRBX1}` followed by the encrypted JSON.
pub open spec fn info_spec(
    username: Seq<char>,
    password: Seq<char>,
    ip: Seq<char>,
    ac_id: Seq<char>,
    challenge: Seq<char>,
) -> Seq<char> {
    "{SRBX1}"@ + xencode_text(info_json(username, password, ip, ac_id), challenge)
}

/// Builds the login request's `info` field: the credentials as JSON,
/// encrypted under the challenge.
pub fn get_info(username: &str, password: &str, ip: &str, ac_id: &str, challenge: &str) -> (info:
    String)
    requires
        xencode_fits(encode_utf8(info_json(username@, password@, ip@, ac_id@)).len()),
    ensures
        info@ == info_spec(username@, password@, ip@, ac_id@, challenge@),
{
    let json = info_json_text(username, password, ip, ac_id);
    let encoded = get_xencode(json.as_str(), challenge);
    String::from_str("{SRBX1}").concat(encoded.as_str())
}

/// The access-controller id goes into the JSON verbatim, right after
/// `"acid":"`, so two different ids give two different JSON texts.
pub proof fn lemma_info_json_acid(
    username: Seq<char>,
    password: Seq<char>,
    ip: Seq<char>,
    a1: Seq<char>,
    a2: Seq<char>,
)
    ensures
        ({
            let head = "{\"username\":\""@ + username + "\",\"password\":\""@ + password
                + "\",\"ip\":\""@ + ip + "\",\"acid\":\""@;
            let json = info_json(username, password, ip, a1);
            &&& json.take(head.len() as int) == head
            &&& json.subrange(head.len() as int, (head.len() + a1.len()) as int) == a1
        }),
        info_json(username, password, ip, a1) == info_json(username, password, ip, a2) ==> a1 == a2,
{
    let head = "{\"username\":\""@ + username + "\",\"password\":\""@ + password + "\",\"ip\":\""@
        + ip + "\",\"acid\":\""@;
    let tail = "\",\"enc_ver\":\"srun_bx1\"}"@;
    let j1 = info_json(username, password, ip, a1);
    let j2 = info_json(username, password, ip, a2);
    assert(j1 =~= head + a1 + tail);
    assert(j2 =~= head + a2 + tail);
    assert(j1.take(head.len() as int) =~= head);
    assert(j1.subrange(head.len() as int, (head.len() + a1.len()) as int) =~= a1);
    if j1 == j2 {
        assert(a1.len() == a2.len());
        assert(a1 =~= j1.subrange(head.len() as int, (head.len() + a1.len()) as int));
        assert(a2 =~= j2.subrange(head.len() as int, (head.len() + a2.len()) as int));
    }
}

/// Two `info` fields built for different access-controller ids, with the
/// other fields and the challenge the same, differ.
pub proof fn lemma_info_acid(
    username: Seq<char>,
    password: Seq<char>,
    ip: Seq<char>,
    a1: Seq<char>,
    a2: Seq<char>,
    challenge: Seq<char>,
)
    requires
        encode_utf8(info_json(username, password, ip, a1)).len() <= u32::MAX,
        encode_utf8(info_json(username, password, ip, a2)).len() <= u32::MAX,
        info_spec(username, password, ip, a1, challenge) == info_spec(
            username,
            password,
            ip,
            a2,
            challenge,
        ),
    ensures
        a1 == a2,
{
    let m = "{SRBX1}"@;
    let x1 = xencode_text(info_json(username, password, ip, a1), challenge);
    let x2 = xencode_text(info_json(username, password, ip, a2), challenge);
    assert(x1 =~= info_spec(username, password, ip, a1, challenge).skip(m.len() as int));
    assert(x2 =~= info_spec(username, password, ip, a2, challenge).skip(m.len() as int));
    lemma_xencode_text_injective(
        info_json(username, password, ip, a1),
        info_json(username, password, ip, a2),
        challenge,
    );
    lemma_info_json_acid(username, password, ip, a1, a2);
}

} // verus!
