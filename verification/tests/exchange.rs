use trmnl_display::calendar::CalendarEvent;
use trmnl_display::clock::UtcTime;
use trmnl_display::devices::{mac_to_api_key, DeviceRegistry};
use trmnl_display::server::{
    begin_display, begin_month_picture, ensure_refreshed_image, finish_display, handle_log,
    handle_setup, log_message, DisplayCache, DisplayRequest, Refusal,
};
use trmnl_display::weather::{read_forecast, Weather};

fn event(summary: &str) -> CalendarEvent {
    let start = UtcTime { secs: 0, nanos: 0 };
    CalendarEvent { summary: summary.to_string(), start, end: start, all_day: false }
}

fn request<'a>(id: Option<&'a [u8]>, token: Option<&'a [u8]>) -> DisplayRequest<'a> {
    DisplayRequest { id, access_token: token, authorization: None, api_key: None, refresh: None }
}

#[test]
fn pictures_are_named_by_the_second() {
    let (url, name) = ensure_refreshed_image("http://192.168.1.10:3000", 1700000000);
    assert_eq!(name, "calendar_1700000000.bmp");
    assert_eq!(url, "http://192.168.1.10:3000/api/image/calendar_1700000000.bmp");
    assert_ne!(ensure_refreshed_image("", 1), ensure_refreshed_image("", 11));
    assert_eq!(ensure_refreshed_image("", 0).1, "calendar_0.bmp");
    assert_eq!(ensure_refreshed_image("", u64::MAX).1, "calendar_18446744073709551615.bmp");
}

#[test]
fn setup_answers_with_key_and_picture() {
    let mut r = DeviceRegistry::new();
    let a = handle_setup(&mut r, Some(b"AA:BB:CC"), "http://h", 5).ok().unwrap();
    assert_eq!(a.api_key, mac_to_api_key("aa:bb:cc"));
    assert_eq!(a.friendly_id, "AABB");
    assert_eq!(a.image_url, "http://h/api/image/calendar_5.bmp");
    assert_eq!(a.filename, "calendar_5.bmp");
    assert_eq!(r.devices().len(), 1);
    assert_eq!(r.devices()[0].mac, "aa:bb:cc");
    assert_eq!(r.devices()[0].access_token, a.api_key);
}

#[test]
fn setup_gives_the_same_key_again() {
    let mut r = DeviceRegistry::new();
    let a = handle_setup(&mut r, Some(b"AA:BB"), "", 5).ok().unwrap();
    let b = handle_setup(&mut r, Some(b"aa:bb"), "", 6).ok().unwrap();
    assert_eq!(a.api_key, b.api_key);
    assert_ne!(a.filename, b.filename);
    assert_eq!(r.devices().len(), 1);
}

#[test]
fn setup_without_an_address_is_refused() {
    let mut r = DeviceRegistry::new();
    for id in [None, Some(&b"\xff"[..])] {
        let e = handle_setup(&mut r, id, "", 5).err().unwrap();
        assert!(matches!(e, Refusal::MissingId));
        assert_eq!(e.status(), 400);
        assert_eq!(e.message(), "missing ID header");
    }
    assert!(r.devices().is_empty());
}

#[test]
fn display_registers_any_device() {
    let mut r = DeviceRegistry::new();
    let cache = DisplayCache::new();
    let q = request(Some(b"AA"), Some(b" tok "));
    assert!(matches!(begin_display(&mut r, None, &q, &cache), Ok(true)));
    assert_eq!((r.devices()[0].mac.as_str(), r.devices()[0].access_token.as_str()), ("aa", "tok"));
    let q = request(Some(b"bb"), None);
    assert!(begin_display(&mut r, None, &q, &cache).is_ok());
    assert_eq!(r.devices()[1].access_token, mac_to_api_key("bb"));
}

#[test]
fn display_without_an_address_is_refused() {
    let mut r = DeviceRegistry::new();
    let e = begin_display(&mut r, None, &request(None, Some(b"t")), &DisplayCache::new());
    assert!(matches!(e, Err(Refusal::MissingId)));
    assert!(r.devices().is_empty());
}

#[test]
fn display_asks_for_the_key_where_one_is_set() {
    let mut r = DeviceRegistry::new();
    let cache = DisplayCache::new();
    let mut q = request(Some(b"aa"), Some(b"other"));
    let e = begin_display(&mut r, Some("key"), &q, &cache).err().unwrap();
    assert!(matches!(e, Refusal::Unauthorized));
    assert_eq!((e.status(), e.message().as_str()), (401, "Unauthorized"));
    assert!(r.devices().is_empty());
    q.api_key = Some(b"key");
    assert!(begin_display(&mut r, Some("key"), &q, &cache).is_ok());
    q.api_key = None;
    q.authorization = Some(b"Bearer key");
    assert!(begin_display(&mut r, Some("key"), &q, &cache).is_ok());
    assert_eq!(r.devices().len(), 1);
}

#[test]
fn the_access_token_may_be_the_key() {
    let mut r = DeviceRegistry::new();
    let cache = DisplayCache::new();
    let q = request(Some(b"aa"), Some(b" key "));
    assert!(matches!(begin_display(&mut r, Some("key"), &q, &cache), Ok(true)));
    assert_eq!(r.devices()[0].access_token, "key");
    let q = request(Some(b"aa"), Some(b"Bearer key"));
    let e = begin_display(&mut r, Some("key"), &q, &cache);
    assert!(matches!(e, Err(Refusal::Unauthorized)));
    assert_eq!(r.devices()[0].access_token, "key");
}

#[test]
fn a_missing_address_is_told_before_a_missing_key() {
    let mut r = DeviceRegistry::new();
    let cache = DisplayCache::new();
    for id in [None, Some(&b"\xff"[..])] {
        let e = begin_display(&mut r, Some("key"), &request(id, None), &cache);
        assert!(matches!(e, Err(Refusal::MissingId)));
    }
    assert!(r.devices().is_empty());
}

#[test]
fn data_is_fetched_first_and_on_request() {
    let mut r = DeviceRegistry::new();
    let mut cache = DisplayCache::new();
    let mut q = request(Some(b"aa"), None);
    assert!(matches!(begin_display(&mut r, None, &q, &cache), Ok(true)));
    let now = UtcTime { secs: 7, nanos: 0 };
    cache.refresh(None, now);
    assert!(matches!(begin_display(&mut r, None, &q, &cache), Ok(false)));
    q.refresh = Some(false);
    assert!(matches!(begin_display(&mut r, None, &q, &cache), Ok(false)));
    q.refresh = Some(true);
    assert!(matches!(begin_display(&mut r, None, &q, &cache), Ok(true)));
    assert!(!cache.needs_refresh(None));
    assert!(cache.needs_refresh(Some(true)));
}

#[test]
fn failed_fetches_leave_no_events() {
    let mut cache = DisplayCache::new();
    assert!(cache.events.is_empty() && cache.weather.is_none() && cache.last_updated.is_none());
    cache.refresh(Some(vec![event("a"), event("b")]), UtcTime { secs: 1, nanos: 2 });
    assert_eq!(cache.events.len(), 2);
    assert_eq!(cache.events[1].summary, "b");
    assert_eq!(cache.last_updated.unwrap().nanos, 2);
    cache.refresh(None, UtcTime { secs: 3, nanos: 0 });
    assert!(cache.events.is_empty());
    assert_eq!(cache.last_updated.unwrap().secs, 3);
}

#[test]
fn weather_is_fetched_for_the_month_only() {
    let mut cache = DisplayCache::new();
    let weather = Weather {
        forecast: read_forecast(0, 40, 0, 0, &vec![], 0),
        temperature: "1".to_string(),
        feels_like: "2".to_string(),
        wind: "3".to_string(),
        bars: vec![],
    };
    let now = UtcTime { secs: 0, nanos: 0 };
    cache.refresh_with_weather(Some(vec![event("a")]), Some(weather), now);
    assert_eq!(cache.events.len(), 1);
    assert_eq!(cache.weather.as_ref().unwrap().wind, "3");
    cache.refresh(None, now);
    assert!(cache.weather.is_some());
    cache.refresh_with_weather(None, None, now);
    assert!(cache.weather.is_none());
}

#[test]
fn the_month_picture_asks_for_the_key() {
    let cache = DisplayCache::new();
    let begin = |auth: Option<&[u8]>| begin_month_picture(Some("k"), auth, None, None, &cache);
    assert!(matches!(begin(None), Err(Refusal::Unauthorized)));
    assert!(matches!(begin(Some(b"Bearer k")), Ok(true)));
    assert!(matches!(begin_month_picture(None, None, None, Some(true), &cache), Ok(true)));
}

#[test]
fn display_answers_with_the_picture() {
    let a = finish_display("http://your-server", 1700000000, None);
    assert_eq!(a.image_url, "http://your-server/api/image/calendar_1700000000.bmp");
    assert_eq!(a.filename, "calendar_1700000000.bmp");
    assert_eq!(a.refresh_rate, 900);
    assert!(!a.update_firmware && a.firmware_url.is_none() && !a.reset_firmware);
    assert_eq!(finish_display("", 0, Some("300")).refresh_rate, 300);
    assert_eq!(finish_display("", 0, Some("-1")).refresh_rate, 900);
}

#[test]
fn logs_hold_json_without_blanks() {
    let line = handle_log(Some(b"AA:BB"), b" { \"log\" : [1, 2 , \"x y\"] } ");
    assert_eq!(line, "Device log [MAC=aa:bb]: {\"log\":[1,2,\"x y\"]}");
    assert_eq!(handle_log(None, b"123 "), "Device log [MAC=unknown]: 123");
}

#[test]
fn logs_hold_text_that_is_not_json() {
    assert_eq!(handle_log(Some(b"a"), "héllo {".as_bytes()), "Device log [MAC=a]: héllo {");
    assert_eq!(handle_log(Some(b"a"), b""), "Device log [MAC=a]: ");
}

#[test]
fn logs_count_bytes_that_are_not_text() {
    let line = handle_log(Some(b"a"), &[0xff; 12]);
    assert_eq!(line, "Device log [MAC=a]: <12 bytes binary>");
    assert_eq!(handle_log(None, b"\xc3"), "Device log [MAC=unknown]: <1 bytes binary>");
}

#[test]
fn log_messages() {
    assert_eq!(log_message(Some("t"), Some("j".to_string()), 9), "j");
    assert_eq!(log_message(Some("t"), None, 9), "t");
    assert_eq!(log_message(None, None, 9), "<9 bytes binary>");
    assert_eq!(log_message(None, Some("j".to_string()), 0), "<0 bytes binary>");
}
