//! The login fields computed for a fixed challenge, checked against a login
//! request whose fields were computed independently for the same inputs.

use std::collections::HashMap;

use srun_login::format::{get_chksum, get_info};
use srun_login::hmac::hmac_md5;

const CHALLENGE_REQ_URL: &str = "http://10.0.0.1/cgi-bin/get_challenge?callback=jQuery112404953340710317009_1700000000000&username=2021310721&ip=10.12.34.56&_=1700000000000";

const CHALLENGE_RES_BODY: &str = "jQuery112404953340710317009_1700000000000({\"challenge\":\"8f2a3c9e41b7d05a6e1f93c2b48d7a60e5c1f2093b8a4d6e7f01c2b3a4d5e6f7\",\"client_ip\":\"10.12.34.56\",\"ecode\":0,\"error\":\"ok\",\"error_msg\":\"\",\"expire\":\"56\",\"online_ip\":\"10.12.34.56\",\"res\":\"ok\",\"srun_ver\":\"SRunCGIAuthIntfSvr V1.18 B20180306\",\"st\":1700000000})";

const LOGIN_USERNAME: &str = "2021310721";
const LOGIN_PASSWORD: &str = "Passw0rd!";

const LOGIN_REQ_URL: &str = "http://10.0.0.1/cgi-bin/srun_portal?callback=jQuery112404953340710317009_1700000000000&action=login&username=2021310721&password=%7BMD5%7D3eaa3caf7c0d3ad0bbbd2908d63cd3f1&ac_id=1&ip=10.12.34.56&chksum=a22274831e6c22ef5a4b4b563d2079b1284b0838&info=%7BSRBX1%7D8fp10UwIxxJ2SmwxMsKgAv3qJjFsWeRrnqd3QCPg7a6SeZHsviskr%2Btv%2FFBw7YcKXcqYlaVZygiq8unr2pwiIpXVxFN64VeetNIHCevt8X5wSAF3cRLLGcT0GVLRdm04d1xYb%2F7zur2%3D&n=200&type=1&os=Windows+10&name=Windows&double_stack=0&_=1700000000001";

fn percent_decode(s: &str) -> String {
    let bytes = s.as_bytes();
    let mut out = Vec::new();
    let mut i = 0;
    while i < bytes.len() {
        match bytes[i] {
            b'+' => {
                out.push(b' ');
                i += 1;
            }
            b'%' => {
                let hex = std::str::from_utf8(&bytes[i + 1..i + 3]).unwrap();
                out.push(u8::from_str_radix(hex, 16).unwrap());
                i += 3;
            }
            b => {
                out.push(b);
                i += 1;
            }
        }
    }
    String::from_utf8(out).unwrap()
}

fn query_params(url: &str) -> HashMap<String, String> {
    let mut s = url.split('?');
    let _ = s.next();
    let query = s.next().unwrap();
    query
        .split('&')
        .map(|pair| {
            let (k, v) = pair.split_once('=').unwrap();
            (percent_decode(k), percent_decode(v))
        })
        .collect()
}

struct ChallengeRequest {
    username: String,
    ip: String,
}

struct ChallengeResponse {
    challenge: String,
    client_ip: String,
    ecode: i32,
    error: String,
    error_msg: String,
    expire: String,
    online_ip: String,
    res: String,
    srun_ver: String,
    st: i32,
}

struct LoginData {
    username: String,
    password: String,
}

struct LoginRequest {
    callback: String,
    action: String,
    username: String,
    password: String,
    ac_id: i32,
    ip: String,
    chksum: String,
    info: String,
    n: i32,
    rtype: i32,
    os: String,
    name: String,
    double_stack: i32,
}

impl From<&str> for ChallengeRequest {
    fn from(s: &str) -> Self {
        let params = query_params(s);
        ChallengeRequest {
            username: params.get("username").unwrap().to_string(),
            ip: params.get("ip").unwrap().to_string(),
        }
    }
}

impl Default for ChallengeRequest {
    fn default() -> Self {
        Self::from(CHALLENGE_REQ_URL)
    }
}

impl From<&str> for ChallengeResponse {
    fn from(s: &str) -> Self {
        let (_, s) = s.split_once('(').unwrap();
        let s = s.trim_end_matches(')');
        let json: serde_json::Value = serde_json::from_str(s).unwrap();
        ChallengeResponse {
            challenge: json["challenge"].as_str().unwrap().to_string(),
            client_ip: json["client_ip"].as_str().unwrap().to_string(),
            ecode: json["ecode"].as_i64().unwrap() as i32,
            error: json["error"].as_str().unwrap().to_string(),
            error_msg: json["error_msg"].as_str().unwrap().to_string(),
            expire: json["expire"].as_str().unwrap().to_string(),
            online_ip: json["online_ip"].as_str().unwrap().to_string(),
            res: json["res"].as_str().unwrap().to_string(),
            srun_ver: json["srun_ver"].as_str().unwrap().to_string(),
            st: json["st"].as_i64().unwrap() as i32,
        }
    }
}

impl Default for ChallengeResponse {
    fn default() -> Self {
        Self::from(CHALLENGE_RES_BODY)
    }
}

impl From<(&str, &str)> for LoginData {
    fn from(s: (&str, &str)) -> Self {
        LoginData {
            username: s.0.to_string(),
            password: s.1.to_string(),
        }
    }
}

impl Default for LoginData {
    fn default() -> Self {
        Self::from((LOGIN_USERNAME, LOGIN_PASSWORD))
    }
}

impl From<&str> for LoginRequest {
    fn from(s: &str) -> Self {
        let params = query_params(s);
        LoginRequest {
            callback: params.get("callback").unwrap().to_string(),
            action: params.get("action").unwrap().to_string(),
            username: params.get("username").unwrap().to_string(),
            password: params.get("password").unwrap().to_string(),
            ac_id: params.get("ac_id").unwrap().parse().unwrap(),
            ip: params.get("ip").unwrap().to_string(),
            chksum: params.get("chksum").unwrap().to_string(),
            info: params.get("info").unwrap().to_string(),
            n: params.get("n").unwrap().parse().unwrap(),
            rtype: params.get("type").unwrap().parse().unwrap(),
            os: params.get("os").unwrap().to_string(),
            name: params.get("name").unwrap().to_string(),
            double_stack: params.get("double_stack").unwrap().parse().unwrap(),
        }
    }
}

impl Default for LoginRequest {
    fn default() -> Self {
        Self::from(LOGIN_REQ_URL)
    }
}

#[test]
fn test_info() {
    let username = LoginData::default().username;
    let password = LoginData::default().password;
    let _hmac = hmac_md5(&ChallengeResponse::default().challenge, &password);
    let ip = LoginRequest::default().ip;
    let ac_id = LoginRequest::default().ac_id.to_string();
    let info = get_info(&username, &password, &ip, &ac_id, &ChallengeResponse::default().challenge);
    assert_eq!(info, LoginRequest::default().info);
}

#[test]
fn test_chksum() {
    let challenge = ChallengeResponse::default().challenge;
    let username = LoginData::default().username;
    let password = LoginData::default().password;
    let hmd5 = hmac_md5(&challenge, &password);
    let ac_id = LoginRequest::default().ac_id.to_string();
    let ip = LoginRequest::default().ip;
    let n = LoginRequest::default().n.to_string();
    let rtype = LoginRequest::default().rtype.to_string();
    let info = get_info(&username, &password, &ip, &ac_id, &challenge);
    let chksum = get_chksum(&challenge, &username, &hmd5, &ac_id, &ip, &n, &rtype, &info);
    assert_eq!(chksum, LoginRequest::default().chksum);
}

#[test]
fn test_hash_password() {
    let challenge = ChallengeResponse::default().challenge;
    let password = LoginData::default().password;
    let hash = hmac_md5(&challenge, &password);
    assert_eq!(hash, LoginRequest::default().password.trim_start_matches("{MD5}"));
}

#[test]
fn test_deserialize_test_content() {
    let _ = ChallengeRequest::default();
    let _ = ChallengeResponse::default();
    let _ = LoginData::default();
    let _ = LoginRequest::default();
}

#[test]
fn fixtures_agree_with_each_other() {
    let challenge_request = ChallengeRequest::default();
    let challenge_response = ChallengeResponse::default();
    let login = LoginRequest::default();
    assert_eq!(challenge_request.username, login.username);
    assert_eq!(challenge_request.ip, login.ip);
    assert_eq!(challenge_response.client_ip, login.ip);
    assert_eq!(challenge_response.online_ip, login.ip);
    assert_eq!(challenge_response.ecode, 0);
    assert_eq!(challenge_response.error, "ok");
    assert_eq!(challenge_response.error_msg, "");
    assert_eq!(challenge_response.expire, "56");
    assert_eq!(challenge_response.res, "ok");
    assert!(challenge_response.srun_ver.starts_with("SRunCGIAuthIntfSvr"));
    assert_eq!(challenge_response.st, 1700000000);
    assert_eq!(login.action, "login");
    assert!(login.callback.starts_with("jQuery"));
    assert_eq!(login.os, "Windows 10");
    assert_eq!(login.name, "Windows");
    assert_eq!(login.double_stack, 0);
}
