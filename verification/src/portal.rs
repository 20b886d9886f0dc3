//! The addresses and queries of the requests that the command-line client
//! sends, each stamped with the time in milliseconds.

use vstd::prelude::*;
use vstd::string::*;

use crate::hex::push_char;
use crate::format::{chksum_spec, info_spec, DEFAULT_AC_ID, DEFAULT_N, DEFAULT_RTYPE};
use crate::hmac::hmac_md5_hex;
use crate::state::{login_query, login_query_spec, pairs_view, portal_url, ChallengeGotState};

verus! {

/// The decimal digit of a value below 10.
pub open spec fn digit_char(v: nat) -> char {
    ((v + 48) as u8) as char
}

/// The decimal digits of `n`, without leading zeros.
pub open spec fn digits(n: nat) -> Seq<char>
    decreases n,
{
    if n < 10 {
        seq![digit_char(n)]
    } else {
        digits(n / 10) + seq![digit_char(n % 10)]
    }
}

/// `n` in decimal, as `format!("{}", n)` writes it.
pub open spec fn decimal(n: int) -> Seq<char> {
    if n < 0 {
        seq!['-'] + digits((-n) as nat)
    } else {
        digits(n as nat)
    }
}

fn push_digits(text: &mut String, n: u64)
    ensures
        final(text)@ == old(text)@ + digits(n as nat),
    decreases n,
{
    if n >= 10 {
        push_digits(text, n / 10);
    }
    let d = (n % 10) as u8;
    push_char(text, (d + 48) as char);
    assert(final(text)@ =~= old(text)@ + digits(n as nat));
}

/// Writes `n` in decimal.
pub fn decimal_string(n: i64) -> (text: String)
    ensures
        text@ == decimal(n as int),
{
    let mut text = String::new();
    if n < 0 {
        push_char(&mut text, '-');
        let magnitude: u64 = (-(n + 1)) as u64 + 1;
        push_digits(&mut text, magnitude);
    } else {
        push_digits(&mut text, n as u64);
    }
    assert(text@ =~= decimal(n as int));
    text
}

/// The address of the user-info request.
pub open spec fn user_info_url_spec(host: Seq<char>, timestamp: int) -> Seq<char> {
    portal_url(host, "/cgi-bin/rad_user_info?callback=nd_portal&_="@) + decimal(timestamp)
}

/// Builds the address of the user-info request.
pub fn user_info_url(host: &str, timestamp: i64) -> (url: String)
    ensures
        url@ == user_info_url_spec(host@, timestamp as int),
{
    let mut url = String::from_str("http://");
    url.append(host);
    url.append("/cgi-bin/rad_user_info?callback=nd_portal&_=");
    let stamp = decimal_string(timestamp);
    url.append(stamp.as_str());
    url
}

/// The address of the challenge request; its fields are written as they are.
pub open spec fn challenge_url_spec(
    host: Seq<char>,
    username: Seq<char>,
    ip: Seq<char>,
    timestamp: int,
) -> Seq<char> {
    portal_url(host, "/cgi-bin/get_challenge?callback=nd_portal&username="@) + username + "&ip="@
        + ip + "&_="@ + decimal(timestamp)
}

/// Builds the address of the challenge request.
pub fn challenge_url(host: &str, username: &str, ip: &str, timestamp: i64) -> (url: String)
    ensures
        url@ == challenge_url_spec(host@, username@, ip@, timestamp as int),
{
    let mut url = String::from_str("http://");
    url.append(host);
    url.append("/cgi-bin/get_challenge?callback=nd_portal&username=");
    url.append(username);
    url.append("&ip=");
    url.append(ip);
    url.append("&_=");
    let stamp = decimal_string(timestamp);
    url.append(stamp.as_str());
    url
}

/// The query of the login request, stamped with the time.
pub fn stamped_login_query(
    username: &str,
    hmd5: &str,
    ip: &str,
    chksum: &str,
    info: &str,
    timestamp: i64,
) -> (pairs: Vec<(String, String)>)
    ensures
        pairs_view(pairs@) == login_query_spec(username@, hmd5@, ip@, chksum@, info@).push(
            ("_"@, decimal(timestamp as int)),
        ),
{
    let mut pairs = login_query(username, hmd5, ip, chksum, info);
    let stamp = decimal_string(timestamp);
    let ghost before = pairs@;
    pairs.push((String::from_str("_"), stamp));
    assert(pairs_view(pairs@) =~= pairs_view(before).push(("_"@, decimal(timestamp as int))));
    pairs
}

/// The query of `ChallengeGotState::to_login_request` is the query that the
/// client's own login sends (`stamped_login_query`) for the same credentials
/// and challenge, without its closing time stamp.
pub proof fn lemma_login_queries_agree(state: ChallengeGotState, challenge: Seq<char>, timestamp: int)
    requires
        state.derived_from(challenge),
    ensures
        ({
            let c = state.credentials_view();
            let hmd5 = hmac_md5_hex(challenge, c.password_view());
            let info = info_spec(
                c.username_view(),
                c.password_view(),
                c.ip_view(),
                DEFAULT_AC_ID@,
                challenge,
            );
            let chksum = chksum_spec(
                challenge,
                c.username_view(),
                hmd5,
                DEFAULT_AC_ID@,
                c.ip_view(),
                DEFAULT_N@,
                DEFAULT_RTYPE@,
                info,
            );
            login_query_spec(
                c.username_view(),
                state.hmac_md5_view(),
                c.ip_view(),
                state.chksum_view(),
                state.info_view(),
            ) == login_query_spec(c.username_view(), hmd5, c.ip_view(), chksum, info).push(
                ("_"@, decimal(timestamp)),
            ).drop_last()
        }),
{
    let c = state.credentials_view();
    let q = login_query_spec(
        c.username_view(),
        state.hmac_md5_view(),
        c.ip_view(),
        state.chksum_view(),
        state.info_view(),
    );
    assert(q.push(("_"@, decimal(timestamp))).drop_last() =~= q);
}

} // verus!
