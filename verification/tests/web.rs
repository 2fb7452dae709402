use trmnl_display::config::{bind_address, parse_whole_number, refresh_rate, Config, Settings};
use trmnl_display::devices::{friendly_id, mac_to_api_key, DeviceRegistry};
use trmnl_display::headers::{access_token_header, auth_check, device_mac};
use trmnl_display::oauth::{OAuthTokenManager, TokenError, TokenReply, TokenStep};
use trmnl_display::urlencoding::encode;

fn decode(s: &str) -> Vec<u8> {
    let bytes = s.as_bytes();
    let mut out = Vec::new();
    let mut i = 0;
    while i < bytes.len() {
        if bytes[i] == b'%' {
            out.push(u8::from_str_radix(&s[i + 1..i + 3], 16).unwrap());
            i += 3;
        } else {
            out.push(bytes[i]);
            i += 1;
        }
    }
    out
}

#[test]
fn unreserved_characters_stand_for_themselves() {
    assert_eq!(encode("AZaz09-_.~"), "AZaz09-_.~");
    assert_eq!(encode(""), "");
}

#[test]
fn other_bytes_are_percent_encoded() {
    assert_eq!(encode("a b&c=d/e"), "a%20b%26c%3Dd%2Fe");
    assert_eq!(encode("é€"), "%C3%A9%E2%82%AC");
    assert_eq!(encode("me@example.com\u{0}\u{7f}"), "me%40example.com%00%7F");
}

#[test]
fn encoded_text_decodes() {
    let text = "Zoë: 100% — ½ \t~ok";
    assert_eq!(decode(&encode(text)), text.as_bytes());
}

#[test]
fn keys_are_fnv1a_hashes() {
    assert_eq!(mac_to_api_key(""), "cbf29ce484222325");
    assert_eq!(mac_to_api_key("a"), "af63dc4c8601ec8c");
    assert_eq!(mac_to_api_key("foobar"), "85944171f73967e8");
}

#[test]
fn keys_have_sixteen_digits() {
    for mac in ["aa:bb:cc:dd:ee:ff", "0", "é"] {
        let key = mac_to_api_key(mac);
        assert_eq!(key.len(), 16);
        assert!(key.chars().all(|c| c.is_ascii_digit() || ('a'..='f').contains(&c)));
    }
}

#[test]
fn friendly_names() {
    assert_eq!(friendly_id("aa:bb:cc:dd:ee:ff"), "AABB");
    assert_eq!(friendly_id("a1b2c3d4"), "A1B2C3");
    assert_eq!(friendly_id("x:"), "X");
    assert_eq!(friendly_id(""), "");
}

fn entries(r: &DeviceRegistry) -> Vec<(String, String)> {
    r.devices().iter().map(|d| (d.mac.clone(), d.access_token.clone())).collect()
}

fn pair(mac: &str, token: &str) -> (String, String) {
    (mac.to_string(), token.to_string())
}

#[test]
fn setup_registers_once() {
    let mut r = DeviceRegistry::new();
    assert!(r.devices().is_empty());
    r.setup("a");
    r.setup("a");
    assert_eq!(entries(&r), vec![pair("a", "af63dc4c8601ec8c")]);
}

#[test]
fn display_stores_the_shown_token() {
    let mut r = DeviceRegistry::new();
    r.setup("a");
    r.setup("b");
    r.display("a", "secret");
    r.display("a", "secret");
    assert_eq!(entries(&r), vec![pair("a", "secret"), pair("b", &mac_to_api_key("b"))]);
    r.display("a", "");
    assert_eq!(entries(&r)[0], pair("a", "secret"));
    r.setup("a");
    assert_eq!(entries(&r)[0], pair("a", "secret"));
}

#[test]
fn display_registers_unknown_devices() {
    let mut r = DeviceRegistry::new();
    r.display("a", "t");
    r.display("b", "");
    assert_eq!(entries(&r), vec![pair("a", "t"), pair("b", &mac_to_api_key("b"))]);
}

#[test]
fn the_key_from_setup_is_kept_on_display() {
    let mut r = DeviceRegistry::new();
    r.setup("a");
    let before = entries(&r);
    r.display("a", &mac_to_api_key("a"));
    assert_eq!(entries(&r), before);
}

#[test]
fn addresses_are_lowered() {
    assert_eq!(device_mac(Some(b"AA:Bb:0Z")), Some("aa:bb:0z".to_string()));
    assert_eq!(device_mac(Some(b"")), Some(String::new()));
    assert_eq!(device_mac(Some(b" \t~")), Some(" \t~".to_string()));
    assert_eq!(device_mac(None), None);
}

#[test]
fn headers_with_other_bytes_count_as_missing() {
    assert_eq!(device_mac(Some(b"aa\x7f")), None);
    assert_eq!(device_mac(Some(b"aa\xc3\xa9")), None);
    assert_eq!(device_mac(Some(b"aa\n")), None);
    assert_eq!(access_token_header(Some(b"\x80")), None);
    assert!(!auth_check(Some("k"), Some(b"k\x80"), Some(b"k\x00")));
}

#[test]
fn header_text_agrees_with_the_http_crate() {
    for b in 0u8..=255 {
        let visible = (32..127).contains(&b) || b == 9;
        assert_eq!(device_mac(Some(&[b])).is_some(), visible);
        if let Ok(value) = axum::http::HeaderValue::from_bytes(&[b]) {
            assert_eq!(value.to_str().is_ok(), visible);
        } else {
            assert!(!visible);
        }
    }
}

#[test]
fn tokens_are_trimmed() {
    assert_eq!(access_token_header(Some(b" \tab c\t ")), Some("ab c".to_string()));
    assert_eq!(access_token_header(Some(b"  \t")), Some(String::new()));
    assert_eq!(access_token_header(Some(b"x")), Some("x".to_string()));
    assert_eq!(access_token_header(None), None);
}

#[test]
fn auth_is_open_without_a_key() {
    assert!(auth_check(None, None, None));
    assert!(auth_check(None, Some(b"Bearer x"), None));
}

#[test]
fn auth_asks_for_the_key() {
    assert!(!auth_check(Some("key"), None, None));
    assert!(auth_check(Some("key"), Some(b"Bearer key"), None));
    assert!(auth_check(Some("key"), Some(b"key"), None));
    assert!(auth_check(Some("key"), Some(b"Bearer Bearer key"), None));
    assert!(auth_check(Some("key"), None, Some(b"key")));
    assert!(auth_check(Some("key"), Some(b"no"), Some(b"key")));
    assert!(!auth_check(Some("key"), Some(b"bearer key"), None));
    assert!(!auth_check(Some("key"), Some(b"Bearer  key"), None));
    assert!(!auth_check(Some("key"), Some(b"Bearer"), Some(b"Bearer key")));
    assert!(!auth_check(Some("Bearer key"), Some(b"Bearer key"), None));
}

fn manager() -> OAuthTokenManager {
    OAuthTokenManager::new("id 1".to_string(), "s&s".to_string(), "r=t".to_string())
}

const SEC: u128 = 1_000_000_000;

#[test]
fn a_token_is_requested_with_the_credentials() {
    match manager().access_token(0) {
        TokenStep::Request(body) => assert_eq!(
            body,
            "client_id=id%201&client_secret=s%26s&refresh_token=r%3Dt&grant_type=refresh_token"
        ),
        TokenStep::Use(_) => panic!("there is no token yet"),
    }
}

#[test]
fn a_granted_token_is_used_until_a_minute_is_left() {
    let mut m = manager();
    let reply = TokenReply::Granted { token: "tok".to_string(), expires_in: 100 };
    assert!(matches!(m.take_reply(reply, 5 * SEC), Ok(t) if t == "tok"));
    assert!(matches!(m.access_token(5 * SEC), TokenStep::Use(t) if t == "tok"));
    assert!(matches!(m.access_token(44 * SEC), TokenStep::Use(_)));
    assert!(matches!(m.access_token(44 * SEC + 1), TokenStep::Request(_)));
    assert!(matches!(m.access_token(200 * SEC), TokenStep::Request(_)));
}

#[test]
fn failed_requests_keep_the_cached_token() {
    let mut m = manager();
    let reply = TokenReply::Granted { token: "tok".to_string(), expires_in: 3600 };
    assert!(m.take_reply(reply, 0).is_ok());
    let e = m.take_reply(TokenReply::Unreachable, SEC).unwrap_err();
    assert!(matches!(e, TokenError::Request));
    assert_eq!(e.message(), "OAuth2 token request failed");
    let e = m.take_reply(TokenReply::Refused("bad".to_string()), SEC).unwrap_err();
    assert_eq!(e.message(), "OAuth2 token refresh failed: bad");
    let e = m.take_reply(TokenReply::Unreadable, SEC).unwrap_err();
    assert_eq!(e.message(), "Parsing OAuth2 token response");
    assert!(matches!(m.access_token(SEC), TokenStep::Use(t) if t == "tok"));
}

fn no_settings() -> Settings {
    Settings {
        calendar_id: None,
        google_api_key: None,
        google_oauth_token: None,
        google_refresh_token: None,
        google_client_id: None,
        google_client_secret: None,
        trmnl_api_key: None,
        display_tz: None,
        base_url: None,
    }
}

#[test]
fn settings_have_defaults() {
    let c = Config::from_settings(no_settings());
    assert_eq!(c.calendar_id, "primary");
    assert_eq!(c.base_url, "http://localhost:3000");
    assert!(c.trmnl_api_key.is_none());
    assert!(c.token_manager().is_none());
    assert!(c.lacks_credentials());
    assert_eq!(bind_address(None), "0.0.0.0:3000");
    assert_eq!(bind_address(Some("[::]:80".to_string())), "[::]:80");
}

#[test]
fn settings_are_taken_over() {
    let mut s = no_settings();
    s.calendar_id = Some("me@x".to_string());
    s.base_url = Some("http://h".to_string());
    s.google_refresh_token = Some("r".to_string());
    s.google_client_id = Some("i".to_string());
    let c = Config::from_settings(s);
    assert_eq!(c.calendar_id, "me@x");
    assert_eq!(c.base_url, "http://h");
    assert!(c.token_manager().is_none());
    assert!(c.lacks_credentials());
    let mut s = no_settings();
    s.google_refresh_token = Some("r".to_string());
    s.google_client_id = Some("i".to_string());
    s.google_client_secret = Some("s".to_string());
    let c = Config::from_settings(s);
    let m = c.token_manager().unwrap();
    assert_eq!((m.client_id, m.client_secret, m.refresh_token), ("i".into(), "s".into(), "r".into()));
    assert!(!c.lacks_credentials());
    let mut s = no_settings();
    s.google_oauth_token = Some("o".to_string());
    assert!(!Config::from_settings(s).lacks_credentials());
}

#[test]
fn whole_numbers_read_as_std_reads_them() {
    let texts = [
        "", "+", "-", "0", "+7", "-0", "007", "900", "4294967295", "4294967296", "42949672950",
        "99999999999999999999", " 1", "1 ", "1.0", "٣", "+-1", "++1", "1e3",
    ];
    for text in texts {
        assert_eq!(parse_whole_number(text), text.parse::<u32>().ok(), "{text}");
    }
}

#[test]
fn refresh_rates() {
    assert_eq!(refresh_rate(None), 900);
    assert_eq!(refresh_rate(Some("60")), 60);
    assert_eq!(refresh_rate(Some("soon")), 900);
}
