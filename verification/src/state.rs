//! The two stages of a login: credentials ready, then a challenge received.

use vstd::prelude::*;
use vstd::string::*;
use vstd::utf8::encode_utf8;

use crate::format::{
    chksum_spec, get_chksum, get_info, info_json, info_spec, DEFAULT_AC_ID, DEFAULT_N,
    DEFAULT_RTYPE,
};
use crate::hmac::{hmac_md5, hmac_md5_hex};
use crate::response::ChallengeString;
use crate::xencode::xencode_fits;

verus! {

/// Trusted declaration of `reqwest::Client`, an HTTP client.
#[verifier::external_type_specification]
#[verifier::external_body]
pub struct ExClient(::reqwest::Client);

/// Trusted declaration of `reqwest::RequestBuilder`, a request being built.
#[verifier::external_type_specification]
#[verifier::external_body]
pub struct ExRequestBuilder(::reqwest::RequestBuilder);

/// The request that `reqwest::Client::get` starts on `client` for `url`.
pub uninterp spec fn get_request(client: ::reqwest::Client, url: Seq<char>) -> ::reqwest::RequestBuilder;

/// The request that `reqwest::RequestBuilder::query` makes of `request` by
/// appending the pairs to its query string.
pub uninterp spec fn queried(
    request: ::reqwest::RequestBuilder,
    pairs: Seq<(Seq<char>, Seq<char>)>,
) -> ::reqwest::RequestBuilder;

/// Trusted: `reqwest::Client::get`, which starts a GET request to `url`.
/// The contract claims only that the request is a function of the client and
/// the address, named `get_request`; the source builds it from a clone of the
/// client and the parsed address, keeping a parse error in the request
/// instead of panicking.
#[verifier::external_body]
fn client_get(client: &::reqwest::Client, url: &str) -> (request: ::reqwest::RequestBuilder)
    ensures
        request == get_request(*client, url@),
{
    client.get(url)
}

/// Trusted: `reqwest::RequestBuilder::query`, which appends the pairs to the
/// request's query string.  The contract claims only that the new request is
/// a function of the old one and the pairs, named `queried`; the source keeps
/// a serialisation error in the request instead of panicking.
#[verifier::external_body]
fn with_query(request: ::reqwest::RequestBuilder, pairs: &[(String, String)]) -> (queried_request:
    ::reqwest::RequestBuilder)
    ensures
        queried_request == queried(request, pairs_view(pairs@)),
{
    request.query(pairs)
}

/// The views of query pairs.
pub open spec fn pairs_view(pairs: Seq<(String, String)>) -> Seq<(Seq<char>, Seq<char>)> {
    pairs.map_values(|p: (String, String)| (p.0@, p.1@))
}

fn push_pair(pairs: &mut Vec<(String, String)>, key: &str, value: &str)
    ensures
        pairs_view(final(pairs)@) == pairs_view(old(pairs)@).push((key@, value@)),
{
    pairs.push((String::from_str(key), String::from_str(value)));
    assert(pairs_view(pairs@) =~= pairs_view(old(pairs)@).push((key@, value@)));
}

/// `http://{host}{path}`.
pub open spec fn portal_url(host: Seq<char>, path: Seq<char>) -> Seq<char> {
    "http://"@ + host + path
}

/// Builds `http://{host}{path}`.
pub fn make_portal_url(host: &str, path: &str) -> (url: String)
    ensures
        url@ == portal_url(host@, path@),
{
    let mut url = String::from_str("http://");
    url.append(host);
    url.append(path);
    url
}

/// The query of the challenge request.
pub open spec fn challenge_query_spec(username: Seq<char>, ip: Seq<char>) -> Seq<
    (Seq<char>, Seq<char>),
> {
    seq![
        ("callback"@, "nd_portal"@),
        ("username"@, username),
        ("ip"@, ip),
        ("double_stack"@, "1"@),
        ("n"@, "200"@),
        ("type"@, "1"@),
    ]
}

/// The query of the login request.
pub open spec fn login_query_spec(
    username: Seq<char>,
    hmd5: Seq<char>,
    ip: Seq<char>,
    chksum: Seq<char>,
    info: Seq<char>,
) -> Seq<(Seq<char>, Seq<char>)> {
    seq![
        ("callback"@, "nd_portal"@),
        ("action"@, "login"@),
        ("username"@, username),
        ("password"@, "{MD5}"@ + hmd5),
        ("ac_id"@, DEFAULT_AC_ID@),
        ("ip"@, ip),
        ("chksum"@, chksum),
        ("info"@, info),
        ("n"@, DEFAULT_N@),
        ("type"@, DEFAULT_RTYPE@),
        ("os"@, "Windows 10"@),
        ("name"@, "Windows"@),
        ("double_stack"@, "0"@),
    ]
}

/// Builds the query of the login request; the password travels as `{MD5}`
/// followed by its HMAC-MD5.
pub fn login_query(username: &str, hmd5: &str, ip: &str, chksum: &str, info: &str) -> (pairs: Vec<
    (String, String),
>)
    ensures
        pairs_view(pairs@) == login_query_spec(username@, hmd5@, ip@, chksum@, info@),
{
    let mut password = String::from_str("{MD5}");
    password.append(hmd5);
    let mut pairs: Vec<(String, String)> = Vec::new();
    push_pair(&mut pairs, "callback", "nd_portal");
    push_pair(&mut pairs, "action", "login");
    push_pair(&mut pairs, "username", username);
    push_pair(&mut pairs, "password", password.as_str());
    push_pair(&mut pairs, "ac_id", DEFAULT_AC_ID);
    push_pair(&mut pairs, "ip", ip);
    push_pair(&mut pairs, "chksum", chksum);
    push_pair(&mut pairs, "info", info);
    push_pair(&mut pairs, "n", DEFAULT_N);
    push_pair(&mut pairs, "type", DEFAULT_RTYPE);
    push_pair(&mut pairs, "os", "Windows 10");
    push_pair(&mut pairs, "name", "Windows");
    push_pair(&mut pairs, "double_stack", "0");
    assert(pairs_view(pairs@) =~= login_query_spec(username@, hmd5@, ip@, chksum@, info@));
    pairs
}

/// The credentials, ready to ask the portal for a challenge.
pub struct PreparedState<'a> {
    host: &'a str,
    username: &'a str,
    password: &'a str,
    ip: &'a str,
}

impl<'a> PreparedState<'a> {
    /// The portal's host.
    pub closed spec fn host_view(&self) -> Seq<char> {
        self.host@
    }

    /// The user name.
    pub closed spec fn username_view(&self) -> Seq<char> {
        self.username@
    }

    /// The password.
    pub closed spec fn password_view(&self) -> Seq<char> {
        self.password@
    }

    /// The address to log in.
    pub closed spec fn ip_view(&self) -> Seq<char> {
        self.ip@
    }

    /// The credentials are small enough for the `info` field to be built.
    pub open spec fn fits(&self) -> bool {
        xencode_fits(
            encode_utf8(
                info_json(self.username_view(), self.password_view(), self.ip_view(), DEFAULT_AC_ID@),
            ).len(),
        )
    }

    /// Holds the credentials.
    pub fn new(host: &'a str, username: &'a str, password: &'a str, ip: &'a str) -> (state: Self)
        ensures
            state.host_view() == host@,
            state.username_view() == username@,
            state.password_view() == password@,
            state.ip_view() == ip@,
    {
        Self { host, username, password, ip }
    }

    /// The address of the challenge request.
    pub fn get_challenge_url(&self) -> (url: String)
        ensures
            url@ == portal_url(self.host_view(), "/cgi-bin/get_challenge"@),
    {
        make_portal_url(self.host, "/cgi-bin/get_challenge")
    }

    /// The query of the challenge request.
    pub fn get_challenge_query(&self) -> (pairs: Vec<(String, String)>)
        ensures
            pairs_view(pairs@) == challenge_query_spec(self.username_view(), self.ip_view()),
    {
        let mut pairs: Vec<(String, String)> = Vec::new();
        push_pair(&mut pairs, "callback", "nd_portal");
        push_pair(&mut pairs, "username", self.username);
        push_pair(&mut pairs, "ip", self.ip);
        push_pair(&mut pairs, "double_stack", "1");
        push_pair(&mut pairs, "n", "200");
        push_pair(&mut pairs, "type", "1");
        assert(pairs_view(pairs@) =~= challenge_query_spec(self.username_view(), self.ip_view()));
        pairs
    }

    /// The challenge request: a GET of `get_challenge_url` with
    /// `get_challenge_query`.
    pub fn to_get_challenge_request(&self, client: &::reqwest::Client) -> (request:
        ::reqwest::RequestBuilder)
        ensures
            request == queried(
                get_request(*client, portal_url(self.host_view(), "/cgi-bin/get_challenge"@)),
                challenge_query_spec(self.username_view(), self.ip_view()),
            ),
    {
        let url = self.get_challenge_url();
        let pairs = self.get_challenge_query();
        with_query(client_get(client, url.as_str()), pairs.as_slice())
    }

    /// Moves on to the second stage with the challenge the portal handed out.
    pub fn with_challenge(self, challenge: &'a ChallengeString) -> (state: ChallengeGotState<'a>)
        requires
            self.fits(),
        ensures
            state.credentials_view() == self,
            state.derived_from(challenge.0@),
    {
        ChallengeGotState::new(self, challenge.0.as_str())
    }
}

/// The credentials together with what the challenge derives from them.
pub struct ChallengeGotState<'a> {
    credentials: PreparedState<'a>,
    hmac_md5: String,
    info: String,
    chksum: String,
}

impl<'a> ChallengeGotState<'a> {
    /// The credentials.
    pub closed spec fn credentials_view(&self) -> PreparedState<'a> {
        self.credentials
    }

    /// The HMAC-MD5 of the password.
    pub closed spec fn hmac_md5_view(&self) -> Seq<char> {
        self.hmac_md5@
    }

    /// The encrypted `info` field.
    pub closed spec fn info_view(&self) -> Seq<char> {
        self.info@
    }

    /// The checksum.
    pub closed spec fn chksum_view(&self) -> Seq<char> {
        self.chksum@
    }

    /// The derived fields are those of `challenge`: the password's HMAC-MD5
    /// keyed with it, the `info` field encrypted under it, and the checksum
    /// of all fields with it as the token.
    pub open spec fn derived_from(&self, challenge: Seq<char>) -> bool {
        let c = self.credentials_view();
        &&& self.hmac_md5_view() == hmac_md5_hex(challenge, c.password_view())
        &&& self.info_view() == info_spec(
            c.username_view(),
            c.password_view(),
            c.ip_view(),
            DEFAULT_AC_ID@,
            challenge,
        )
        &&& self.chksum_view() == chksum_spec(
            challenge,
            c.username_view(),
            self.hmac_md5_view(),
            DEFAULT_AC_ID@,
            c.ip_view(),
            DEFAULT_N@,
            DEFAULT_RTYPE@,
            self.info_view(),
        )
    }

    /// Derives the login fields from the credentials and the challenge.
    pub fn new(credentials: PreparedState<'a>, challenge: &'a str) -> (state: Self)
        requires
            credentials.fits(),
        ensures
            state.credentials_view() == credentials,
            state.derived_from(challenge@),
    {
        let hmac_md5 = hmac_md5(challenge, credentials.password);
        let info = get_info(
            credentials.username,
            credentials.password,
            credentials.ip,
            DEFAULT_AC_ID,
            challenge,
        );
        let chksum = get_chksum(
            challenge,
            credentials.username,
            hmac_md5.as_str(),
            DEFAULT_AC_ID,
            credentials.ip,
            DEFAULT_N,
            DEFAULT_RTYPE,
            info.as_str(),
        );
        Self { credentials, hmac_md5, info, chksum }
    }

    /// The HMAC-MD5 of the password.
    pub fn hmac_md5(&self) -> (code: &str)
        ensures
            code@ == self.hmac_md5_view(),
    {
        self.hmac_md5.as_str()
    }

    /// The encrypted `info` field.
    pub fn info(&self) -> (info: &str)
        ensures
            info@ == self.info_view(),
    {
        self.info.as_str()
    }

    /// The checksum.
    pub fn chksum(&self) -> (chksum: &str)
        ensures
            chksum@ == self.chksum_view(),
    {
        self.chksum.as_str()
    }

    /// The address of the login request.
    pub fn login_url(&self) -> (url: String)
        ensures
            url@ == portal_url(self.credentials_view().host_view(), "/cgi-bin/srun_portal"@),
    {
        make_portal_url(self.credentials.host, "/cgi-bin/srun_portal")
    }

    /// The query of the login request.
    pub fn get_login_query(&self) -> (pairs: Vec<(String, String)>)
        ensures
            pairs_view(pairs@) == login_query_spec(
                self.credentials_view().username_view(),
                self.hmac_md5_view(),
                self.credentials_view().ip_view(),
                self.chksum_view(),
                self.info_view(),
            ),
    {
        login_query(
            self.credentials.username,
            self.hmac_md5.as_str(),
            self.credentials.ip,
            self.chksum.as_str(),
            self.info.as_str(),
        )
    }

    /// The login request: a GET of `login_url` with `get_login_query`.
    pub fn to_login_request(&self, client: &::reqwest::Client) -> (request:
        ::reqwest::RequestBuilder)
        ensures
            request == queried(
                get_request(
                    *client,
                    portal_url(self.credentials_view().host_view(), "/cgi-bin/srun_portal"@),
                ),
                login_query_spec(
                    self.credentials_view().username_view(),
                    self.hmac_md5_view(),
                    self.credentials_view().ip_view(),
                    self.chksum_view(),
                    self.info_view(),
                ),
            ),
    {
        let url = self.login_url();
        let pairs = self.get_login_query();
        with_query(client_get(client, url.as_str()), pairs.as_slice())
    }
}

/// The login fields are fixed by the credentials and the challenge: two
/// states derived from the same ones carry the same fields, whether they were
/// made by `ChallengeGotState::new` or by `PreparedState::with_challenge`.
pub proof fn lemma_derivation_is_determined(
    a: ChallengeGotState,
    b: ChallengeGotState,
    challenge: Seq<char>,
)
    requires
        a.credentials_view() == b.credentials_view(),
        a.derived_from(challenge),
        b.derived_from(challenge),
    ensures
        a.hmac_md5_view() == b.hmac_md5_view(),
        a.info_view() == b.info_view(),
        a.chksum_view() == b.chksum_view(),
{
}

/// The login query sends every field as it is given: the user name, the
/// address, the checksum and the `info` text verbatim (nothing added or
/// removed), and the password as `{MD5}` followed by the HMAC; so queries for
/// different `info` texts differ.
pub proof fn lemma_login_query_fields(
    username: Seq<char>,
    hmd5: Seq<char>,
    ip: Seq<char>,
    chksum: Seq<char>,
    info: Seq<char>,
    other_info: Seq<char>,
)
    ensures
        login_query_spec(username, hmd5, ip, chksum, info).contains(("info"@, info)),
        login_query_spec(username, hmd5, ip, chksum, info)[7] == ("info"@, info),
        login_query_spec(username, hmd5, ip, chksum, info)[2] == ("username"@, username),
        login_query_spec(username, hmd5, ip, chksum, info)[3] == ("password"@, "{MD5}"@ + hmd5),
        login_query_spec(username, hmd5, ip, chksum, info)[5] == ("ip"@, ip),
        login_query_spec(username, hmd5, ip, chksum, info)[6] == ("chksum"@, chksum),
        login_query_spec(username, hmd5, ip, chksum, info) == login_query_spec(
            username,
            hmd5,
            ip,
            chksum,
            other_info,
        ) ==> info == other_info,
{
    let q = login_query_spec(username, hmd5, ip, chksum, info);
    assert(q[7] == ("info"@, info));
    if q == login_query_spec(username, hmd5, ip, chksum, other_info) {
        assert(login_query_spec(username, hmd5, ip, chksum, other_info)[7].1 == other_info);
    }
}

} // verus!
