//! Concrete checks of the library's functions, their edge cases and laws.

use srun_login::base64::base64_encode;
use srun_login::config::{validate_config, ConfigError, ConfigItem};
use srun_login::format::{get_chksum, get_info, DEFAULT_AC_ID, DEFAULT_N, DEFAULT_RTYPE};
use srun_login::hex::to_hex;
use srun_login::hmac::hmac_md5;
use srun_login::portal::{challenge_url, decimal_string, stamped_login_query, user_info_url};
use srun_login::response::{
    parse_login_response, parse_user_info, portal_json, trim_end_char, trim_start_matches,
    try_parse_login_response, try_parse_user_info, ChallengeString, ResponseError,
};
use srun_login::state::{login_query, ChallengeGotState, PreparedState};
use srun_login::xencode::{get_xencode, u32_array_to_u8_array, u8_array_to_u32_array, xencode};

fn pairs(list: &[(&str, &str)]) -> Vec<(String, String)> {
    list.iter().map(|(k, v)| (k.to_string(), v.to_string())).collect()
}

#[test]
fn base64_uses_the_portal_alphabet_with_padding() {
    assert_eq!(base64_encode(b""), "");
    assert_eq!(base64_encode(b"a"), "Z+==");
    assert_eq!(base64_encode(b"ab"), "Za2=");
    assert_eq!(base64_encode(b"abc"), "ZaRk");
    assert_eq!(base64_encode(b"hello"), "OCubWC4=");
    assert_eq!(base64_encode(&[0xff, 0xee, 0xdd, 0xcc]), "AQEnzL==");
}

#[test]
fn base64_length_is_four_per_started_triple() {
    for n in 0..20usize {
        let input = vec![7u8; n];
        assert_eq!(base64_encode(&input).len(), (n + 2) / 3 * 4);
    }
}

#[test]
fn bytes_become_little_endian_words() {
    assert_eq!(u8_array_to_u32_array(&[]), Vec::<u32>::new());
    assert_eq!(u8_array_to_u32_array(&[1, 2, 3, 4, 5]), vec![0x0403_0201, 5]);
    assert_eq!(u8_array_to_u32_array(&[0xff; 4]), vec![u32::MAX]);
}

#[test]
fn words_become_little_endian_bytes() {
    assert_eq!(u32_array_to_u8_array(&[]), Vec::<u8>::new());
    assert_eq!(
        u32_array_to_u8_array(&[0x0403_0201, 0xdead_beef]),
        vec![1, 2, 3, 4, 0xef, 0xbe, 0xad, 0xde]
    );
}

#[test]
fn word_and_byte_conversions_undo_each_other() {
    let words = vec![0, 1, 0x8000_0000, u32::MAX, 0x1234_5678];
    assert_eq!(u8_array_to_u32_array(&u32_array_to_u8_array(&words)), words);
    let bytes = vec![9u8, 8, 7, 6, 5, 4, 3];
    assert_eq!(u32_array_to_u8_array(&u8_array_to_u32_array(&bytes)), vec![9, 8, 7, 6, 5, 4, 3, 0]);
}

#[test]
fn xencode_mixes_the_words() {
    let mut message = vec![1, 2, 3];
    xencode(&mut message, &[0x11, 0x22, 0x33, 0x44]);
    assert_eq!(message, vec![350987839, 2995679192, 396439361]);
    let mut single = vec![u32::MAX];
    xencode(&mut single, &[1, 2, 3, 4]);
    assert_eq!(single, vec![3130846246]);
}

#[test]
fn xencode_reads_only_four_key_words() {
    let mut a = vec![5, 6, 7, 8, 9];
    let mut b = a.clone();
    xencode(&mut a, &[1, 2, 3, 4]);
    xencode(&mut b, &[1, 2, 3, 4, 99, 100]);
    assert_eq!(a, b);
}

#[test]
fn get_xencode_of_texts() {
    assert_eq!(get_xencode("", ""), "Yb3aDL==");
    assert_eq!(get_xencode("a", "k"), "P0C27CimGZH=");
    assert_eq!(get_xencode("hello world", "0123456789abcdef0123"), "GFRr4Bl6uC923cH2jlZFDS==");
    assert_eq!(get_xencode("xxxxxxxxxxxxx", "kk"), "I0WaYadwlC6/PHi9OTq9XEWrkYD=");
}

#[test]
fn hex_has_two_lowercase_digits_per_byte() {
    assert_eq!(to_hex(&[]), "");
    assert_eq!(to_hex(&[0x00, 0x0f, 0xa0, 0xff]), "000fa0ff");
}

#[test]
fn hmac_md5_of_known_inputs() {
    assert_eq!(hmac_md5("", ""), "74e6f7298a9c2d168935f58c001bad88");
    assert_eq!(
        hmac_md5("key", "The quick brown fox jumps over the lazy dog"),
        "80070713463e7749b90c2dc24911e275"
    );
    assert_eq!(hmac_md5("challenge", "secret"), "8986f4f353d3e02b9e58a823596690f4");
}

#[test]
fn chksum_is_sha1_of_the_token_separated_fields() {
    assert_eq!(get_chksum("", "abc", "", "", "", "", "", ""), "a9993e364706816aba3e25717850c26c9cd0d89d");
    let hmd5 = hmac_md5("challenge", "secret");
    let info = get_info("alice", "secret", "192.168.1.2", "1", "challenge");
    assert_eq!(
        get_chksum("challenge", "alice", &hmd5, "1", "192.168.1.2", "200", "1", &info),
        "283ee714c4a5ecf9e993476d52a75e2522e0aefb"
    );
}

#[test]
fn info_is_marked_and_encrypted() {
    assert_eq!(
        get_info("alice", "secret", "192.168.1.2", "1", "challenge"),
        "{SRBX1}ETGMfuqvgx+IGHFlmx0kjDLq3SKnOtG1gIdXtdbd/kLDGCn+3tS10z9P/X+S0Qn9Yk1IE9OSR3RaLvhjiY1IlqDnMM/hOgqjKvdMIQ73PrlD0PLT9YbA2BR4f1dIK1Bk"
    );
    assert_eq!(
        get_info("张三", "密码", "10.0.0.1", "1", "abc"),
        "{SRBX1}dOeKEBxFu2SfF6EghTGToCo5/zRRHXvBzrOBPXThDz9Lz2T8tSLDQ/apspbSera/3IaXdRI/ikD2KFDvS9nTSB9TEeDSt3GfNtspZL7bnc1rRBIxxpLfVQ0E07JiUBC7"
    );
}

#[test]
fn trims_remove_every_repeat() {
    assert_eq!(trim_start_matches("nd_portal(nd_portal(x)", "nd_portal("), "x)");
    assert_eq!(trim_start_matches("abc", ""), "abc");
    assert_eq!(trim_start_matches("nd_porta", "nd_portal("), "nd_porta");
    assert_eq!(trim_end_char("x)))", ')'), "x");
    assert_eq!(trim_end_char(")))", ')'), "");
    assert_eq!(portal_json("nd_portal({\"a\":1}))"), "{\"a\":1}");
    assert_eq!(portal_json("{}"), "{}");
}

#[test]
fn challenge_is_read_from_the_reply() {
    let c = ChallengeString::from_str("nd_portal({\"challenge\":\"abc123\",\"error\":\"ok\"})").unwrap();
    assert_eq!(c.0, "abc123");
    assert!(matches!(
        ChallengeString::from_str("nd_portal({\"error\":\"ok\"})"),
        Err(ResponseError::MissingChallenge)
    ));
    assert!(matches!(
        ChallengeString::from_str("nd_portal({\"challenge\":5})"),
        Err(ResponseError::MissingChallenge)
    ));
    match ChallengeString::from_str("nd_portal(oops)") {
        Err(ResponseError::InvalidJson { reply, .. }) => assert_eq!(reply.as_deref(), Some("nd_portal(oops)")),
        _ => panic!("expected a JSON error"),
    }
}

#[test]
fn login_reply_decides_success() {
    assert!(parse_login_response("nd_portal({\"error\":\"ok\"})").is_ok());
    match parse_login_response("nd_portal({\"error\":\"login_error\",\"error_msg\":\"E2901: wrong\"})") {
        Err(ResponseError::LoginFailed(msg)) => assert_eq!(msg, "E2901: wrong"),
        _ => panic!("expected a refused login"),
    }
    assert!(matches!(parse_login_response("nd_portal(<html>)"), Err(ResponseError::InvalidJson { reply: None, .. })));
    assert!(try_parse_login_response("nd_portal({\"error\":1})").is_none());
    assert!(try_parse_login_response("nd_portal({\"error\":\"no\"})").is_none());
    assert!(matches!(try_parse_login_response("nd_portal({\"error\":\"ok\"})"), Some(Ok(()))));
}

#[test]
fn user_info_reply_gives_address() {
    let info = parse_user_info("nd_portal({\"error\":\"ok\",\"online_ip\":\"10.1.2.3\"})").unwrap();
    assert!(info.logged_in);
    assert_eq!(info.online_ip, "10.1.2.3");
    let info = parse_user_info("nd_portal({\"error\":\"not_online_error\",\"online_ip\":\"10.1.2.4\"})").unwrap();
    assert!(!info.logged_in);
    assert_eq!(info.online_ip, "10.1.2.4");
    assert!(matches!(parse_user_info("nd_portal(x)"), Err(ResponseError::InvalidJson { reply: None, .. })));
    assert!(try_parse_user_info("nd_portal({\"error\":\"ok\"})").is_none());
}

fn item(username: &str, password: &str, host: &str, ip: Option<&str>, interface: Option<&str>) -> ConfigItem {
    ConfigItem {
        username: username.to_string(),
        password: password.to_string(),
        host: host.to_string(),
        ip: ip.map(String::from),
        interface: interface.map(String::from),
    }
}

#[test]
fn config_rules_are_checked_in_order() {
    assert_eq!(validate_config(&[item("u", "p", "h", None, None)]), Ok(()));
    assert_eq!(validate_config(&[]), Ok(()));
    assert_eq!(validate_config(&[item("", "", "", None, None)]), Err(ConfigError::EmptyUsername));
    assert_eq!(validate_config(&[item("u", "", "h", None, None)]), Err(ConfigError::EmptyPassword));
    assert_eq!(validate_config(&[item("u", "p", "", None, None)]), Err(ConfigError::EmptyHost));
    assert_eq!(
        validate_config(&[item("u", "p", "h", Some("1.2.3.4"), Some("eth0"))]),
        Err(ConfigError::BothIpAndInterface)
    );
    assert_eq!(
        validate_config(&[item("u", "p", "h", Some("1.2.3.4"), None), item("v", "q", "h", None, None)]),
        Err(ConfigError::NeitherIpNorInterface)
    );
    assert_eq!(
        validate_config(&[item("u", "p", "h", Some("1.2.3.4"), None), item("v", "q", "h", None, Some("eth1"))]),
        Ok(())
    );
    assert_eq!(ConfigError::EmptyHost.message(), "Empty host.");
}

#[test]
fn states_derive_the_login_fields() {
    let prepared = PreparedState::new("10.0.0.1", "alice", "secret", "192.168.1.2");
    assert_eq!(prepared.get_challenge_url(), "http://10.0.0.1/cgi-bin/get_challenge");
    assert_eq!(
        prepared.get_challenge_query(),
        pairs(&[
            ("callback", "nd_portal"),
            ("username", "alice"),
            ("ip", "192.168.1.2"),
            ("double_stack", "1"),
            ("n", "200"),
            ("type", "1"),
        ])
    );
    let challenge = ChallengeString("challenge".to_string());
    let got = prepared.with_challenge(&challenge);
    assert_eq!(got.hmac_md5(), hmac_md5("challenge", "secret"));
    assert_eq!(got.info(), get_info("alice", "secret", "192.168.1.2", DEFAULT_AC_ID, "challenge"));
    assert_eq!(got.chksum(), "283ee714c4a5ecf9e993476d52a75e2522e0aefb");
    assert_eq!(got.login_url(), "http://10.0.0.1/cgi-bin/srun_portal");
    let direct = ChallengeGotState::new(PreparedState::new("10.0.0.1", "alice", "secret", "192.168.1.2"), "challenge");
    assert_eq!(direct.chksum(), got.chksum());
    assert_eq!(direct.info(), got.info());
    let query = got.get_login_query();
    assert_eq!(query[3], ("password".to_string(), format!("{{MD5}}{}", got.hmac_md5())));
    assert_eq!(query.len(), 13);
    assert_eq!(query[8], ("n".to_string(), DEFAULT_N.to_string()));
    assert_eq!(query[9], ("type".to_string(), DEFAULT_RTYPE.to_string()));
}

#[test]
fn requests_carry_address_and_query() {
    let client = reqwest::Client::new();
    let prepared = PreparedState::new("10.0.0.1", "alice", "secret", "192.168.1.2");
    let request = prepared.to_get_challenge_request(&client).build().unwrap();
    assert_eq!(
        request.url().as_str(),
        "http://10.0.0.1/cgi-bin/get_challenge?callback=nd_portal&username=alice&ip=192.168.1.2&double_stack=1&n=200&type=1"
    );
    let challenge = ChallengeString("challenge".to_string());
    let got = prepared.with_challenge(&challenge);
    let request = got.to_login_request(&client).build().unwrap();
    let url = request.url().as_str().to_string();
    assert!(url.starts_with("http://10.0.0.1/cgi-bin/srun_portal?callback=nd_portal&action=login&username=alice&password=%7BMD5%7D8986f4f353d3e02b9e58a823596690f4&ac_id=1&ip=192.168.1.2&chksum=283ee714c4a5ecf9e993476d52a75e2522e0aefb&info=%7BSRBX1%7D"));
    assert!(url.ends_with("&n=200&type=1&os=Windows+10&name=Windows&double_stack=0"));
}

#[test]
fn portal_addresses_are_stamped() {
    assert_eq!(decimal_string(0), "0");
    assert_eq!(decimal_string(1700000000001), "1700000000001");
    assert_eq!(decimal_string(-42), "-42");
    assert_eq!(decimal_string(i64::MIN), "-9223372036854775808");
    assert_eq!(decimal_string(i64::MAX), "9223372036854775807");
    assert_eq!(user_info_url("10.0.0.1", 17), "http://10.0.0.1/cgi-bin/rad_user_info?callback=nd_portal&_=17");
    assert_eq!(
        challenge_url("10.0.0.1", "alice", "1.2.3.4", 99),
        "http://10.0.0.1/cgi-bin/get_challenge?callback=nd_portal&username=alice&ip=1.2.3.4&_=99"
    );
    let stamped = stamped_login_query("u", "h", "ip", "c", "i", 5);
    let mut expected = login_query("u", "h", "ip", "c", "i");
    expected.push(("_".to_string(), "5".to_string()));
    assert_eq!(stamped, expected);
}

#[test]
fn encodings_keep_inputs_apart() {
    let inputs: Vec<&[u8]> = vec![b"", b"a", b"b", b"ab", b"a\0", b"abc", b"abd", b"abcd"];
    for (i, a) in inputs.iter().enumerate() {
        for b in inputs.iter().skip(i + 1) {
            assert_ne!(base64_encode(a), base64_encode(b));
        }
    }
    let messages = ["", "a", "b", "a\0", "ab", "hello", "hello world"];
    for (i, a) in messages.iter().enumerate() {
        for b in messages.iter().skip(i + 1) {
            assert_ne!(get_xencode(a, "key"), get_xencode(b, "key"));
        }
    }
    let mut x = vec![1, 2];
    let mut y = vec![2, 1];
    xencode(&mut x, &[7, 7, 7, 7]);
    xencode(&mut y, &[7, 7, 7, 7]);
    assert_ne!(x, y);
}

#[test]
fn only_sixteen_key_bytes_count() {
    assert_eq!(get_xencode("hello", "abc"), get_xencode("hello", "abc\0"));
    assert_eq!(
        get_xencode("hello", "0123456789abcdefXYZ"),
        get_xencode("hello", "0123456789abcdef")
    );
    assert_ne!(get_xencode("hello", "0123456789abcdeX"), get_xencode("hello", "0123456789abcdef"));
}

#[test]
fn requests_name_the_login_query() {
    let prepared = PreparedState::new("10.0.0.1", "alice", "secret", "192.168.1.2");
    let challenge = ChallengeString("challenge".to_string());
    let got = prepared.with_challenge(&challenge);
    let stamped = stamped_login_query("alice", got.hmac_md5(), "192.168.1.2", got.chksum(), got.info(), 3);
    assert_eq!(got.get_login_query(), stamped[..stamped.len() - 1].to_vec());
}

#[test]
fn response_errors_have_messages() {
    assert_eq!(ResponseError::MissingChallenge.message(), "Failed to get challenge from JSON response.");
    assert_eq!(ResponseError::LoginFailed("E2901: wrong".to_string()).message(), "E2901: wrong");
    match ChallengeString::from_str("nd_portal(oops)") {
        Err(e) => assert!(!e.message().is_empty()),
        Ok(_) => panic!("expected a JSON error"),
    }
}

#[test]
fn challenge_parses_through_from_str_trait() {
    let c: ChallengeString = "nd_portal({\"challenge\":\"xyz\"})".parse().unwrap();
    assert_eq!(c.0, "xyz");
    assert!("nd_portal({})".parse::<ChallengeString>().is_err());
}

#[test]
fn try_parse_login_agrees_with_parse() {
    let bodies = [
        "nd_portal({\"error\":\"ok\"})",
        "nd_portal({\"error\":\"x\",\"error_msg\":\"bad\"})",
        "nd_portal(not json)",
    ];
    for body in bodies {
        let direct = parse_login_response(body);
        let tried = try_parse_login_response(body).unwrap();
        match (direct, tried) {
            (Ok(()), Ok(())) => {}
            (Err(ResponseError::LoginFailed(a)), Err(ResponseError::LoginFailed(b))) => assert_eq!(a, b),
            (Err(ResponseError::InvalidJson { .. }), Err(ResponseError::InvalidJson { .. })) => {}
            _ => panic!("the two readers disagree"),
        }
    }
    let item = ConfigItem {
        username: "u".to_string(),
        password: "p".to_string(),
        host: "h".to_string(),
        ip: None,
        interface: None,
    };
    assert!(format!("{:?}", item).contains("username"));
}
