//! Reading the portal's JSONP replies.

use vstd::prelude::*;
use vstd::string::*;

verus! {

/// Trusted declaration of `serde_json::Error`, the parse error of `serde_json`.
#[verifier::external_type_specification]
#[verifier::external_body]
pub struct ExJsonError(::serde_json::Error);

/// What `serde_json` reads as the string member `key` of the JSON text:
/// `None` when `serde_json` does not parse the text (it is not JSON, or it
/// nests deeper than the parser's recursion limit), `Some(None)` when the value is not an
/// object or its member `key` is missing or not a string, and
/// `Some(Some(s))` when that member is the string `s`.
pub uninterp spec fn json_string_member(text: Seq<char>, key: Seq<char>) -> Option<
    Option<Seq<char>>,
>;

/// The view of an optional string.
pub open spec fn opt_view(s: Option<String>) -> Option<Seq<char>> {
    match s {
        Some(s) => Some(s@),
        None => None,
    }
}

/// Trusted: `serde_json::from_str::<serde_json::Value>`, then indexing the
/// value with `key` and `Value::as_str`.  The contract claims that the
/// outcome is a function of the text and the key, named
/// `json_string_member`; `from_str` is deterministic, and indexing gives
/// `Value::Null` where there is no such member.
#[verifier::external_body]
fn parse_string_member(text: &str, key: &str) -> (member: Result<Option<String>, ::serde_json::Error>)
    ensures
        match member {
            Ok(v) => json_string_member(text@, key@) == Some(opt_view(v)),
            Err(_) => json_string_member(text@, key@) is None,
        },
{
    let json: ::serde_json::Value = ::serde_json::from_str(text)?;
    Ok(json[key].as_str().map(String::from))
}

/// `s` with every leading copy of `pat` removed, as `str::trim_start_matches`
/// does; an empty pattern removes nothing.
pub open spec fn strip_prefixes(s: Seq<char>, pat: Seq<char>) -> Seq<char>
    decreases s.len(),
{
    if 0 < pat.len() <= s.len() && s.take(pat.len() as int) == pat {
        strip_prefixes(s.skip(pat.len() as int), pat)
    } else {
        s
    }
}

/// `s` with every trailing `c` removed, as `str::trim_end_matches` does.
pub open spec fn strip_suffix_char(s: Seq<char>, c: char) -> Seq<char>
    decreases s.len(),
{
    if s.len() > 0 && s.last() == c {
        strip_suffix_char(s.drop_last(), c)
    } else {
        s
    }
}

/// The JSON inside a `nd_portal(...)` reply.
pub open spec fn portal_payload(body: Seq<char>) -> Seq<char> {
    strip_suffix_char(strip_prefixes(body, "nd_portal("@), ')')
}

fn matches_at(s: &str, start: usize, pat: &str) -> (found: bool)
    requires
        start + pat@.len() <= s@.len() <= usize::MAX,
    ensures
        found == (s@.subrange(start as int, start + pat@.len()) == pat@),
{
    let m = pat.unicode_len();
    let mut j: usize = 0;
    while j < m
        invariant
            m == pat@.len(),
            start + m <= s@.len() <= usize::MAX,
            j <= m,
            forall|k: int| 0 <= k < j ==> s@[start + k] == pat@[k],
        decreases m - j,
    {
        if s.get_char(start + j) != pat.get_char(j) {
            assert(s@.subrange(start as int, start + pat@.len())[j as int] != pat@[j as int]);
            return false;
        }
        j = j + 1;
    }
    assert(s@.subrange(start as int, start + pat@.len()) =~= pat@);
    true
}

/// Removes every leading copy of `pat` from `s`.
pub fn trim_start_matches<'a>(s: &'a str, pat: &str) -> (rest: &'a str)
    ensures
        rest@ == strip_prefixes(s@, pat@),
{
    let n = s.unicode_len();
    let m = pat.unicode_len();
    if m == 0 {
        return s;
    }
    let mut start: usize = 0;
    assert(s@.skip(0) =~= s@);
    while start <= n && m <= n - start && matches_at(s, start, pat)
        invariant
            n == s@.len(),
            m == pat@.len(),
            m > 0,
            start <= n,
            strip_prefixes(s@, pat@) == strip_prefixes(s@.skip(start as int), pat@),
        decreases n - start,
    {
        assert(s@.skip(start as int).take(m as int) =~= s@.subrange(start as int, start + m));
        assert(s@.skip(start as int).skip(m as int) =~= s@.skip(start + m));
        start = start + m;
    }
    proof {
        if m <= n - start {
            assert(s@.skip(start as int).take(m as int) =~= s@.subrange(start as int, start + m));
        }
    }
    let rest = s.substring_char(start, n);
    assert(rest@ =~= s@.skip(start as int));
    rest
}

/// Removes every trailing `c` from `s`.
pub fn trim_end_char<'a>(s: &'a str, c: char) -> (rest: &'a str)
    ensures
        rest@ == strip_suffix_char(s@, c),
{
    let n = s.unicode_len();
    let mut end: usize = n;
    assert(s@.take(n as int) =~= s@);
    while end > 0 && s.get_char(end - 1) == c
        invariant
            n == s@.len(),
            end <= n,
            strip_suffix_char(s@, c) == strip_suffix_char(s@.take(end as int), c),
        decreases end,
    {
        assert(s@.take(end as int).drop_last() =~= s@.take(end - 1));
        end = end - 1;
    }
    let rest = s.substring_char(0, end);
    assert(rest@ =~= s@.take(end as int));
    rest
}

/// Takes the JSON out of a `nd_portal(...)` reply.
pub fn portal_json(body: &str) -> (json: &str)
    ensures
        json@ == portal_payload(body@),
{
    trim_end_char(trim_start_matches(body, "nd_portal("), ')')
}

/// Why a portal reply was refused.
#[derive(Debug)]
pub enum ResponseError {
    /// The reply does not hold JSON: the parse error, and for a challenge
    /// reply the whole reply as context.
    InvalidJson { reply: Option<String>, error: ::serde_json::Error },
    /// The challenge reply has no string member `challenge`.
    MissingChallenge,
    /// The portal refused the login, with this `error_msg`.
    LoginFailed(String),
}

/// Trusted: the `Display` text of a `serde_json::Error`, written with
/// `ToString::to_string`.  Nothing is claimed of the text.
#[verifier::external_body]
fn json_error_text(error: &::serde_json::Error) -> String {
    error.to_string()
}

impl ResponseError {
    /// The message that reports the error: the parse error's own text, the
    /// missing challenge, or the portal's `error_msg`.
    pub fn message(&self) -> (text: String)
        ensures
            self matches ResponseError::MissingChallenge ==> text@
                == "Failed to get challenge from JSON response."@,
            self matches ResponseError::LoginFailed(msg) ==> text@ == msg@,
    {
        match self {
            ResponseError::InvalidJson { error, .. } => json_error_text(error),
            ResponseError::MissingChallenge => String::from_str(
                "Failed to get challenge from JSON response.",
            ),
            ResponseError::LoginFailed(msg) => msg.clone(),
        }
    }
}

/// The challenge that the portal hands out before a login.
pub struct ChallengeString(pub String);

/// What reading the challenge reply `reply` gives.
pub open spec fn challenge_outcome(reply: Seq<char>, r: Result<ChallengeString, ResponseError>) -> bool {
    match json_string_member(portal_payload(reply), "challenge"@) {
        None => r matches Err(ResponseError::InvalidJson { reply: Some(text), .. }) && text@ == reply,
        Some(None) => r matches Err(ResponseError::MissingChallenge),
        Some(Some(c)) => r matches Ok(ch) && ch.0@ == c,
    }
}

impl ChallengeString {
    /// Reads the challenge out of the portal's `nd_portal({...})` reply.
    pub fn from_str(s: &str) -> (r: Result<ChallengeString, ResponseError>)
        ensures
            challenge_outcome(s@, r),
    {
        let json = portal_json(s);
        match parse_string_member(json, "challenge") {
            Err(error) => Err(ResponseError::InvalidJson { reply: Some(String::from_str(s)), error }),
            Ok(None) => Err(ResponseError::MissingChallenge),
            Ok(Some(challenge)) => Ok(ChallengeString(challenge)),
        }
    }
}

impl ::std::str::FromStr for ChallengeString {
    type Err = ResponseError;

    fn from_str(s: &str) -> Result<Self, Self::Err> {
        ChallengeString::from_str(s)
    }
}

/// A login reply with JSON `payload` can be read without a panic: its member
/// `error` is a string if it is JSON, and where that is not `ok`, its member
/// `error_msg` is a string too.
pub open spec fn login_reply_readable(payload: Seq<char>) -> bool {
    match json_string_member(payload, "error"@) {
        Some(None) => false,
        Some(Some(e)) => e != "ok"@ ==> json_string_member(payload, "error_msg"@) != Some(
            None::<Seq<char>>,
        ),
        None => true,
    }
}

/// What reading a login reply with JSON `payload` gives: success when the
/// member `error` is `ok`, else the portal's `error_msg`.
pub open spec fn login_outcome(payload: Seq<char>, r: Result<(), ResponseError>) -> bool {
    match json_string_member(payload, "error"@) {
        None => r matches Err(ResponseError::InvalidJson { reply: None, .. }),
        Some(None) => false,
        Some(Some(e)) => if e == "ok"@ {
            r is Ok
        } else {
            match json_string_member(payload, "error_msg"@) {
                Some(Some(m)) => r matches Err(ResponseError::LoginFailed(msg)) && msg@ == m,
                _ => r matches Err(ResponseError::InvalidJson { reply: None, .. }),
            }
        },
    }
}

/// Decides from the portal's reply whether the login succeeded.
pub fn parse_login_response(body: &str) -> (r: Result<(), ResponseError>)
    requires
        login_reply_readable(portal_payload(body@)),
    ensures
        login_outcome(portal_payload(body@), r),
{
    let json = portal_json(body);
    match parse_string_member(json, "error") {
        Err(error) => Err(ResponseError::InvalidJson { reply: None, error }),
        Ok(None) => {
            assert(false);
            Ok(())
        },
        Ok(Some(error)) => {
            if error == String::from_str("ok") {
                Ok(())
            } else {
                match parse_string_member(json, "error_msg") {
                    Ok(Some(msg)) => Err(ResponseError::LoginFailed(msg)),
                    Ok(None) => {
                        assert(false);
                        Ok(())
                    },
                    Err(error) => Err(ResponseError::InvalidJson { reply: None, error }),
                }
            }
        },
    }
}

/// Like `parse_login_response`, but gives `None` for a reply that
/// `parse_login_response` cannot read.
pub fn try_parse_login_response(body: &str) -> (r: Option<Result<(), ResponseError>>)
    ensures
        r is None <==> !login_reply_readable(portal_payload(body@)),
        r matches Some(outcome) ==> login_outcome(portal_payload(body@), outcome),
{
    let json = portal_json(body);
    match parse_string_member(json, "error") {
        Ok(None) => None,
        Ok(Some(error)) => {
            if error == String::from_str("ok") {
                Some(parse_login_response(body))
            } else {
                match parse_string_member(json, "error_msg") {
                    Ok(None) => None,
                    _ => Some(parse_login_response(body)),
                }
            }
        },
        Err(_) => Some(parse_login_response(body)),
    }
}

/// The portal's answer to a user-info request.
pub struct UserInfo {
    /// The portal already counts this machine as logged in.
    pub logged_in: bool,
    /// The address under which the portal sees this machine.
    pub online_ip: String,
}

/// A user-info reply with JSON `payload` can be read without a panic: if it
/// is JSON, its members `error` and `online_ip` are strings.
pub open spec fn user_info_readable(payload: Seq<char>) -> bool {
    &&& json_string_member(payload, "error"@) != Some(None::<Seq<char>>)
    &&& json_string_member(payload, "error"@) is Some ==> json_string_member(payload, "online_ip"@)
        != Some(None::<Seq<char>>)
}

/// What reading a user-info reply with JSON `payload` gives.
pub open spec fn user_info_outcome(payload: Seq<char>, r: Result<UserInfo, ResponseError>) -> bool {
    match json_string_member(payload, "error"@) {
        Some(Some(e)) => match json_string_member(payload, "online_ip"@) {
            Some(Some(ip)) => r matches Ok(info) && info.logged_in == (e == "ok"@)
                && info.online_ip@ == ip,
            Some(None) => false,
            None => r matches Err(ResponseError::InvalidJson { reply: None, .. }),
        },
        Some(None) => false,
        None => r matches Err(ResponseError::InvalidJson { reply: None, .. }),
    }
}

/// Reads the user-info reply: whether this machine is already logged in, and
/// its online address.
pub fn parse_user_info(body: &str) -> (r: Result<UserInfo, ResponseError>)
    requires
        user_info_readable(portal_payload(body@)),
    ensures
        user_info_outcome(portal_payload(body@), r),
{
    let json = portal_json(body);
    match parse_string_member(json, "error") {
        Ok(Some(error)) => {
            let logged_in = error == String::from_str("ok");
            match parse_string_member(json, "online_ip") {
                Ok(Some(online_ip)) => Ok(UserInfo { logged_in, online_ip }),
                Ok(None) => {
                    assert(false);
                    Ok(UserInfo { logged_in, online_ip: String::new() })
                },
                Err(error) => Err(ResponseError::InvalidJson { reply: None, error }),
            }
        },
        Ok(None) => {
            assert(false);
            Ok(UserInfo { logged_in: false, online_ip: String::new() })
        },
        Err(error) => Err(ResponseError::InvalidJson { reply: None, error }),
    }
}

/// Like `parse_user_info`, but gives `None` for a reply that
/// `parse_user_info` cannot read.
pub fn try_parse_user_info(body: &str) -> (r: Option<Result<UserInfo, ResponseError>>)
    ensures
        r is None <==> !user_info_readable(portal_payload(body@)),
        r matches Some(outcome) ==> user_info_outcome(portal_payload(body@), outcome),
{
    let json = portal_json(body);
    match parse_string_member(json, "error") {
        Ok(None) => None,
        Ok(Some(_)) => match parse_string_member(json, "online_ip") {
            Ok(None) => None,
            _ => Some(parse_user_info(body)),
        },
        Err(_) => Some(parse_user_info(body)),
    }
}

proof fn lemma_strip_prefixes_shape(s: Seq<char>, pat: Seq<char>)
    ensures
        strip_prefixes(s, pat).len() <= s.len(),
        strip_prefixes(s, pat) == s.skip(s.len() - strip_prefixes(s, pat).len()),
        pat.len() > 0 ==> !(pat.len() <= strip_prefixes(s, pat).len() && strip_prefixes(
            s,
            pat,
        ).take(pat.len() as int) == pat),
    decreases s.len(),
{
    if 0 < pat.len() <= s.len() && s.take(pat.len() as int) == pat {
        let rest = s.skip(pat.len() as int);
        lemma_strip_prefixes_shape(rest, pat);
        let r = strip_prefixes(rest, pat);
        assert(rest.skip(rest.len() - r.len()) =~= s.skip(s.len() - r.len()));
    } else {
        assert(s.skip(0) =~= s);
    }
}

proof fn lemma_strip_suffix_shape(s: Seq<char>, c: char)
    ensures
        strip_suffix_char(s, c).len() <= s.len(),
        strip_suffix_char(s, c) == s.take(strip_suffix_char(s, c).len() as int),
        strip_suffix_char(s, c).len() > 0 ==> strip_suffix_char(s, c).last() != c,
    decreases s.len(),
{
    if s.len() > 0 && s.last() == c {
        lemma_strip_suffix_shape(s.drop_last(), c);
        let r = strip_suffix_char(s.drop_last(), c);
        assert(s.drop_last().take(r.len() as int) =~= s.take(r.len() as int));
    } else {
        assert(s.take(s.len() as int) =~= s);
    }
}

/// The JSON taken out of a reply is one stretch of the reply, and neither
/// starts with `nd_portal(` nor ends with `)`.
pub proof fn lemma_portal_payload_shape(body: Seq<char>)
    ensures
        exists|i: int, j: int|
            0 <= i <= j <= body.len() && portal_payload(body) == body.subrange(i, j),
        !("nd_portal("@.len() <= portal_payload(body).len() && portal_payload(body).take(
            "nd_portal("@.len() as int,
        ) == "nd_portal("@),
        portal_payload(body).len() > 0 ==> portal_payload(body).last() != ')',
{
    let pat = "nd_portal("@;
    reveal_strlit("nd_portal(");
    let r = strip_prefixes(body, pat);
    lemma_strip_prefixes_shape(body, pat);
    lemma_strip_suffix_shape(r, ')');
    let p = portal_payload(body);
    let i = body.len() - r.len();
    let j = i + p.len();
    assert(p =~= body.subrange(i, j));
    if pat.len() <= p.len() && p.take(pat.len() as int) == pat {
        assert(r.take(pat.len() as int) =~= p.take(pat.len() as int));
    }
}

/// Two results read from the same login reply agree: both succeed, both
/// report the same `error_msg`, or both report a reply that is not JSON.
pub open spec fn same_login_outcome(r1: Result<(), ResponseError>, r2: Result<(), ResponseError>) -> bool {
    match r1 {
        Ok(()) => r2 is Ok,
        Err(ResponseError::LoginFailed(m1)) => r2 matches Err(ResponseError::LoginFailed(m2)) && m1@
            == m2@,
        Err(ResponseError::InvalidJson { reply: reply1, .. }) => r2 matches Err(
            ResponseError::InvalidJson { reply: reply2, .. },
        ) && opt_view(reply1) == opt_view(reply2),
        Err(ResponseError::MissingChallenge) => r2 matches Err(ResponseError::MissingChallenge),
    }
}

/// A login reply determines what reading it gives, up to the parse error's
/// own value: so `try_parse_login_response` gives what `parse_login_response`
/// gives wherever the latter can read the reply, and the client's login
/// ends as `parse_login_response` does.
pub proof fn lemma_login_outcome_determined(
    payload: Seq<char>,
    r1: Result<(), ResponseError>,
    r2: Result<(), ResponseError>,
)
    requires
        login_outcome(payload, r1),
        login_outcome(payload, r2),
    ensures
        same_login_outcome(r1, r2),
{
}

/// Where the reply's JSON has a string member `challenge`, the challenge read
/// is exactly that string: the same length and the same characters.
pub proof fn lemma_challenge_read_whole(
    reply: Seq<char>,
    c: Seq<char>,
    r: Result<ChallengeString, ResponseError>,
)
    requires
        json_string_member(portal_payload(reply), "challenge"@) == Some(Some(c)),
        challenge_outcome(reply, r),
    ensures
        r is Ok,
        r->Ok_0.0@.len() == c.len(),
        forall|i: int| 0 <= i < c.len() ==> r->Ok_0.0@[i] == c[i],
{
}

/// A login succeeds exactly when the reply's `error` member is `ok`; any other
/// string there is a refused login, reported with the reply's `error_msg`.
pub proof fn lemma_login_success_iff_ok(
    payload: Seq<char>,
    e: Seq<char>,
    r: Result<(), ResponseError>,
)
    requires
        json_string_member(payload, "error"@) == Some(Some(e)),
        login_outcome(payload, r),
    ensures
        r is Ok <==> e == "ok"@,
        e != "ok"@ ==> forall|m: Seq<char>|
            json_string_member(payload, "error_msg"@) == Some(Some(m)) ==> (r matches Err(
                ResponseError::LoginFailed(msg),
            ) && msg@ == m),
{
}

} // verus!
