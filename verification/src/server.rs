//! What the server answers: the exchange with a device, and the cache behind it.

use crate::calendar::{event_views, CalendarEvent, EventView};
use crate::clock::UtcTime;
use crate::config::{refresh_rate, whole_number};
use crate::devices::{
    after_display, after_setup, api_key, friendly_id, friendly_name, mac_to_api_key, DeviceRegistry,
};
use crate::headers::{
    access_token_header, admitted, auth_check, device_mac, header_text, stated_mac, stated_token,
};
use crate::text::{decimal, law_decimal_reads_back, push_decimal, same_text, text_of};
use crate::weather::Weather;
use vstd::prelude::*;
use vstd::string::*;
use vstd::utf8::{decode_utf8, is_ascii_chars, valid_utf8};

verus! {

/// The name of the picture of a moment, in seconds since 1970.
pub open spec fn picture_name(ts: nat) -> Seq<char> {
    "calendar_"@ + decimal(ts) + ".bmp"@
}

/// Where a device fetches a picture.
pub open spec fn picture_url(base_url: Seq<char>, filename: Seq<char>) -> Seq<char> {
    base_url + "/api/image/"@ + filename
}

/// The address and the name of the picture of a moment, in seconds since 1970.
pub fn ensure_refreshed_image(base_url: &str, ts: u64) -> (r: (String, String))
    ensures
        r.0@ == picture_url(base_url@, picture_name(ts as nat)),
        r.1@ == picture_name(ts as nat),
{
    let mut filename: String = "calendar_".to_owned();
    push_decimal(&mut filename, ts);
    filename.append(".bmp");
    let mut url: String = base_url.to_owned();
    url.append("/api/image/");
    url.append(filename.as_str());
    (url, filename)
}

/// Pictures of different seconds have different names and addresses, so no device is shown an
/// old one from a cache.
pub proof fn law_new_picture_new_name(base_url: Seq<char>, a: nat, b: nat)
    requires
        a != b,
    ensures
        picture_name(a) != picture_name(b),
        picture_url(base_url, picture_name(a)) != picture_url(base_url, picture_name(b)),
{
    reveal_strlit("calendar_");
    reveal_strlit(".bmp");
    reveal_strlit("/api/image/");
    law_decimal_reads_back(a);
    law_decimal_reads_back(b);
    let na = picture_name(a);
    let nb = picture_name(b);
    assert(na.subrange(9, na.len() - 4) =~= decimal(a));
    assert(nb.subrange(9, nb.len() - 4) =~= decimal(b));
    let ua = picture_url(base_url, na);
    let ub = picture_url(base_url, nb);
    assert(ua.skip(base_url.len() as int + 11) =~= na);
    assert(ub.skip(base_url.len() as int + 11) =~= nb);
}

/// Why a request is turned away.
pub enum Refusal {
    MissingId,
    Unauthorized,
}

impl Refusal {
    pub open spec fn status_code(&self) -> u16 {
        match self {
            Refusal::MissingId => 400,
            Refusal::Unauthorized => 401,
        }
    }

    pub open spec fn text(&self) -> Seq<char> {
        match self {
            Refusal::MissingId => "missing ID header"@,
            Refusal::Unauthorized => "Unauthorized"@,
        }
    }

    /// The status of the answer.
    pub fn status(&self) -> (r: u16)
        ensures
            r == self.status_code(),
    {
        match self {
            Refusal::MissingId => 400,
            Refusal::Unauthorized => 401,
        }
    }

    /// The text of the answer.
    pub fn message(&self) -> (r: String)
        ensures
            r@ == self.text(),
    {
        match self {
            Refusal::MissingId => "missing ID header".to_owned(),
            Refusal::Unauthorized => "Unauthorized".to_owned(),
        }
    }
}

/// The answer to a device that sets itself up.
pub struct SetupResponse {
    pub api_key: String,
    pub friendly_id: String,
    pub image_url: String,
    pub filename: String,
}

/// The answer to the device with this address.
pub open spec fn answers_setup(
    r: SetupResponse,
    mac: Seq<char>,
    base_url: Seq<char>,
    ts: nat,
) -> bool {
    &&& r.api_key@ == api_key(mac)
    &&& r.friendly_id@ == friendly_name(mac)
    &&& r.image_url@ == picture_url(base_url, picture_name(ts))
    &&& r.filename@ == picture_name(ts)
}

/// The address that a header states is ASCII.
proof fn lemma_mac_is_ascii(id: Option<&[u8]>)
    ensures
        stated_mac(id) matches Some(mac) ==> is_ascii_chars(mac),
{
    if let Some(mac) = stated_mac(id) {
        assert forall|i: int| 0 <= i < mac.len() implies (#[trigger] mac[i]) as nat <= 127 by {
            assert(crate::headers::visible(id->0@[i]));
        }
    }
}

/// A device sets itself up: it is registered and told its key and where the picture is.
/// Without an address in its `ID` header it is turned away, and nothing changes.
pub fn handle_setup(
    registry: &mut DeviceRegistry,
    id: Option<&[u8]>,
    base_url: &str,
    ts: u64,
) -> (r: Result<SetupResponse, Refusal>)
    ensures
        match stated_mac(id) {
            Some(mac) => {
                &&& r matches Ok(answer) && answers_setup(answer, mac, base_url@, ts as nat)
                &&& final(registry)@ == after_setup(old(registry)@, mac)
            },
            None => {
                &&& r matches Err(refusal) && refusal is MissingId
                &&& final(registry)@ == old(registry)@
            },
        },
{
    let mac: String = match device_mac(id) {
        Some(mac) => mac,
        None => {
            return Err(Refusal::MissingId);
        },
    };
    registry.setup(mac.as_str());
    proof {
        lemma_mac_is_ascii(id);
    }
    let (image_url, filename) = ensure_refreshed_image(base_url, ts);
    Ok(
        SetupResponse {
            api_key: mac_to_api_key(mac.as_str()),
            friendly_id: friendly_id(mac.as_str()),
            image_url,
            filename,
        },
    )
}

/// What the display shows, as last fetched.
pub struct DisplayCache {
    pub events: Vec<CalendarEvent>,
    pub weather: Option<Weather>,
    pub last_updated: Option<UtcTime>,
}

/// A request fetches anew where it asks for it, or where nothing was fetched yet.
pub open spec fn refresh_due(refresh: Option<bool>, last_updated: Option<UtcTime>) -> bool {
    refresh == Some(true) || last_updated is None
}

/// The events that are kept: those that were fetched, or none where that failed.
pub open spec fn kept_events(fetched: Option<Vec<CalendarEvent>>) -> Seq<EventView> {
    match fetched {
        Some(events) => event_views(events@),
        None => Seq::empty(),
    }
}

impl DisplayCache {
    /// A cache into which nothing was fetched yet.
    pub fn new() -> (r: DisplayCache)
        ensures
            r.events@ == Seq::<CalendarEvent>::empty(),
            r.weather is None,
            r.last_updated is None,
    {
        DisplayCache { events: Vec::new(), weather: None, last_updated: None }
    }

    /// Whether a request fetches anew.
    pub fn needs_refresh(&self, refresh: Option<bool>) -> (r: bool)
        ensures
            r == refresh_due(refresh, self.last_updated),
    {
        let asked: bool = match refresh {
            Some(asked) => asked,
            None => false,
        };
        asked || self.last_updated.is_none()
    }

    /// Takes in the events that were fetched, or none where that failed. The weather stays.
    pub fn refresh(&mut self, fetched: Option<Vec<CalendarEvent>>, now: UtcTime)
        ensures
            event_views(final(self).events@) == kept_events(fetched),
            final(self).weather == old(self).weather,
            final(self).last_updated == Some(now),
    {
        let events: Vec<CalendarEvent> = match fetched {
            Some(events) => events,
            None => Vec::new(),
        };
        assert(event_views(events@) =~= kept_events(fetched));
        self.events = events;
        self.last_updated = Some(now);
    }

    /// Takes in the events and the weather that were fetched, or none where that failed.
    pub fn refresh_with_weather(
        &mut self,
        fetched: Option<Vec<CalendarEvent>>,
        weather: Option<Weather>,
        now: UtcTime,
    )
        ensures
            event_views(final(self).events@) == kept_events(fetched),
            final(self).weather == weather,
            final(self).last_updated == Some(now),
    {
        self.refresh(fetched, now);
        self.weather = weather;
    }
}

/// A request that asks for it always fetches anew. Once something was fetched, whatever came
/// of it, only such a request does.
pub proof fn law_refresh_on_request(last_updated: Option<UtcTime>, now: UtcTime)
    ensures
        refresh_due(Some(true), last_updated),
        !refresh_due(None, Some(now)),
        !refresh_due(Some(false), Some(now)),
{
}

/// What a device sends when it asks for its picture.
pub struct DisplayRequest<'a> {
    pub id: Option<&'a [u8]>,
    pub access_token: Option<&'a [u8]>,
    pub authorization: Option<&'a [u8]>,
    pub api_key: Option<&'a [u8]>,
    pub refresh: Option<bool>,
}

impl<'a> DisplayRequest<'a> {
    /// The request may pass a server that asks for this key: one of its headers shows it, the
    /// `Access-Token` header among them.
    pub open spec fn passes(&self, expected: Option<&str>) -> bool {
        ||| admitted(
            match expected {
                Some(key) => Some(key@),
                None => None,
            },
            header_text(self.authorization),
            header_text(self.api_key),
        )
        ||| expected matches Some(key) && stated_token(self.access_token) == Some(key@)
    }

    /// The token that the device shows, empty where it shows none.
    pub open spec fn token(&self) -> Seq<char> {
        match stated_token(self.access_token) {
            Some(token) => token,
            None => Seq::empty(),
        }
    }
}

/// A device asks for its picture: whether to fetch anew before the answer. The device is
/// registered under its address with the token that it shows; any address and any token will
/// do. A request without an address is turned away. Where the server asks for a key, so is one
/// that does not show it. Neither changes anything.
pub fn begin_display(
    registry: &mut DeviceRegistry,
    expected: Option<&str>,
    request: &DisplayRequest,
    cache: &DisplayCache,
) -> (r: Result<bool, Refusal>)
    ensures
        stated_mac(request.id) is None ==> {
            &&& r matches Err(refusal) && refusal is MissingId
            &&& final(registry)@ == old(registry)@
        },
        stated_mac(request.id) is Some && !request.passes(expected) ==> {
            &&& r matches Err(refusal) && refusal is Unauthorized
            &&& final(registry)@ == old(registry)@
        },
        request.passes(expected) && stated_mac(request.id) is Some ==> {
            &&& r matches Ok(fetch) && fetch == refresh_due(request.refresh, cache.last_updated)
            &&& final(registry)@ == after_display(
                old(registry)@,
                stated_mac(request.id)->0,
                request.token(),
            )
        },
{
    let mac: String = match device_mac(request.id) {
        Some(mac) => mac,
        None => {
            return Err(Refusal::MissingId);
        },
    };
    let stated: Option<String> = access_token_header(request.access_token);
    let shows_key: bool = match (expected, &stated) {
        (Some(key), Some(token)) => same_text(token.as_str(), key),
        _ => false,
    };
    if !shows_key && !auth_check(expected, request.authorization, request.api_key) {
        return Err(Refusal::Unauthorized);
    }
    let token: String = match stated {
        Some(token) => token,
        None => String::new(),
    };
    assert(token@ =~= request.token());
    registry.display(mac.as_str(), token.as_str());
    Ok(cache.needs_refresh(request.refresh))
}

/// A device fetches the picture of the month: whether to fetch the data anew before. Where the
/// server asks for a key, a request without it is turned away.
pub fn begin_month_picture(
    expected: Option<&str>,
    authorization: Option<&[u8]>,
    key: Option<&[u8]>,
    refresh: Option<bool>,
    cache: &DisplayCache,
) -> (r: Result<bool, Refusal>)
    ensures
        ({
            let expected = match expected {
                Some(key) => Some(key@),
                None => None,
            };
            if admitted(expected, header_text(authorization), header_text(key)) {
                r matches Ok(fetch) && fetch == refresh_due(refresh, cache.last_updated)
            } else {
                r matches Err(refusal) && refusal is Unauthorized
            }
        }),
{
    if auth_check(expected, authorization, key) {
        Ok(cache.needs_refresh(refresh))
    } else {
        Err(Refusal::Unauthorized)
    }
}

/// The answer to a device that asks for its picture.
pub struct DisplayApiResponse {
    pub image_url: String,
    pub filename: String,
    pub refresh_rate: u32,
    pub update_firmware: bool,
    pub firmware_url: Option<String>,
    pub reset_firmware: bool,
}

/// The answer to a device that asks for its picture: where it is, and when to ask again.
pub fn finish_display(base_url: &str, ts: u64, refresh_setting: Option<&str>) -> (r:
    DisplayApiResponse)
    ensures
        r.image_url@ == picture_url(base_url@, picture_name(ts as nat)),
        r.filename@ == picture_name(ts as nat),
        r.refresh_rate == (match refresh_setting {
            Some(s) => match whole_number(s@) {
                Some(n) => n,
                None => 900u32,
            },
            None => 900u32,
        }),
        !r.update_firmware,
        r.firmware_url is None,
        !r.reset_firmware,
{
    let (image_url, filename) = ensure_refreshed_image(base_url, ts);
    DisplayApiResponse {
        image_url,
        filename,
        refresh_rate: refresh_rate(refresh_setting),
        update_firmware: false,
        firmware_url: None,
        reset_firmware: false,
    }
}

/// What `serde_json` makes of a text: read as JSON and written out again without blanks
/// between the tokens, or nothing where it is not JSON.
pub uninterp spec fn compact_json(text: Seq<char>) -> Option<Seq<char>>;

/// `serde_json::from_str` into a `serde_json::Value`, and that value's text. The result is a
/// function of the text alone; `compact_json` is its name.
#[verifier::external_body]
fn reprint_json(text: &str) -> (r: Option<String>)
    ensures
        text_of(r) == compact_json(text@),
{
    serde_json::from_str::<serde_json::Value>(text).ok().map(|value| value.to_string())
}

/// `std::str::from_utf8`: the text that the bytes encode, if and only if they are valid UTF-8.
#[verifier::external_body]
fn text_in(bytes: &[u8]) -> (r: Option<&str>)
    ensures
        r is Some <==> valid_utf8(bytes@),
        r matches Some(text) ==> text@ == decode_utf8(bytes@),
{
    std::str::from_utf8(bytes).ok()
}

/// What is written to the log of a message of `size` bytes: its JSON, or its text where it is
/// not JSON, or only its size where it is not text.
pub open spec fn logged(text: Option<Seq<char>>, json: Option<Seq<char>>, size: nat) -> Seq<char> {
    match (text, json) {
        (Some(_), Some(json)) => json,
        (Some(text), None) => text,
        (None, _) => "<"@ + decimal(size) + " bytes binary>"@,
    }
}

/// What is written to the log of a message, from its text and its JSON, if it has them.
pub fn log_message(text: Option<&str>, json: Option<String>, size: usize) -> (r: String)
    ensures
        r@ == logged(
            match text {
                Some(text) => Some(text@),
                None => None,
            },
            text_of(json),
            size as nat,
        ),
{
    match text {
        Some(text) => match json {
            Some(json) => json,
            None => text.to_owned(),
        },
        None => {
            let mut out: String = "<".to_owned();
            push_decimal(&mut out, size as u64);
            out.append(" bytes binary>");
            out
        },
    }
}

/// The text of a message, where it is one.
pub open spec fn message_text(body: Seq<u8>) -> Option<Seq<char>> {
    if valid_utf8(body) {
        Some(decode_utf8(body))
    } else {
        None
    }
}

/// The JSON of a message, where it is some.
pub open spec fn message_json(body: Seq<u8>) -> Option<Seq<char>> {
    match message_text(body) {
        Some(text) => compact_json(text),
        None => None,
    }
}

/// The line in the log for a message of a device.
pub open spec fn log_line(mac: Option<Seq<char>>, message: Seq<char>) -> Seq<char> {
    "Device log [MAC="@ + match mac {
        Some(mac) => mac,
        None => "unknown"@,
    } + "]: "@ + message
}

/// The line in the log for a message that a device sends.
pub fn handle_log(id: Option<&[u8]>, body: &[u8]) -> (r: String)
    ensures
        r@ == log_line(
            stated_mac(id),
            logged(message_text(body@), message_json(body@), body@.len()),
        ),
{
    let text: Option<&str> = text_in(body);
    let json: Option<String> = match text {
        Some(text) => reprint_json(text),
        None => None,
    };
    let message: String = log_message(text, json, body.len());
    let mac: String = match device_mac(id) {
        Some(mac) => mac,
        None => "unknown".to_owned(),
    };
    let mut line: String = "Device log [MAC=".to_owned();
    line.append(mac.as_str());
    line.append("]: ");
    line.append(message.as_str());
    line
}

/// A picture's name is the word, the second in decimal and the ending; its address is the
/// server's, the path and the name.
pub proof fn law_picture_names(base_url: Seq<char>, name: Seq<char>, ts: nat)
    ensures
        picture_name(ts) == "calendar_"@ + decimal(ts) + ".bmp"@,
        picture_url(base_url, name) == base_url + "/api/image/"@ + name,
{
}

/// A request without an address is a bad one, and one without the key is not authorized.
pub proof fn law_refusals()
    ensures
        Refusal::MissingId.status_code() == 400,
        Refusal::MissingId.text() == "missing ID header"@,
        Refusal::Unauthorized.status_code() == 401,
        Refusal::Unauthorized.text() == "Unauthorized"@,
{
}

/// A device that sets itself up is told the key and the name that belong to its address, and
/// the picture of the second.
pub proof fn law_setup_answers(r: SetupResponse, mac: Seq<char>, base_url: Seq<char>, ts: nat)
    ensures
        answers_setup(r, mac, base_url, ts) <==> {
            &&& r.api_key@ == api_key(mac)
            &&& r.friendly_id@ == friendly_name(mac)
            &&& r.filename@ == "calendar_"@ + decimal(ts) + ".bmp"@
            &&& r.image_url@ == base_url + "/api/image/"@ + r.filename@
        },
{
}

/// Data is fetched before an answer if and only if the request asks for it or nothing was
/// fetched yet; how long ago that was does not matter.
pub proof fn law_fetched_when_asked_or_first(refresh: Option<bool>, last_updated: Option<UtcTime>)
    ensures
        refresh_due(refresh, last_updated) <==> (refresh is Some && refresh->0) || last_updated
            is None,
{
}

/// What was fetched is kept whole, in its order; a failed fetch leaves nothing.
pub proof fn law_fetched_events_are_kept(events: Vec<CalendarEvent>, i: int)
    ensures
        kept_events(None) == Seq::<EventView>::empty(),
        kept_events(Some(events)).len() == events@.len(),
        0 <= i < events@.len() ==> {
            &&& kept_events(Some(events))[i].summary == events@[i].summary@
            &&& kept_events(Some(events))[i].start == events@[i].start
            &&& kept_events(Some(events))[i].end == events@[i].end
            &&& kept_events(Some(events))[i].all_day == events@[i].all_day
        },
{
}

/// Without a key every request passes. With one, a request passes if and only if it shows
/// exactly that key: behind `Bearer `, in the header for it, or as its token.
pub proof fn law_requests_that_pass(request: &DisplayRequest, key: &str)
    ensures
        request.passes(None),
        request.passes(Some(key)) <==> {
            ||| header_text(request.authorization) is Some && crate::headers::bearer(
                header_text(request.authorization)->0,
            ) == key@
            ||| header_text(request.api_key) == Some(key@)
            ||| stated_token(request.access_token) == Some(key@)
        },
        request.token() == match stated_token(request.access_token) {
            Some(token) => token,
            None => ""@,
        },
{
    reveal_strlit("");
    assert(""@ =~= Seq::<char>::empty());
}

/// What is logged of a message: its JSON, if it is some; else the text itself, if it is one;
/// else how many bytes it has. The line names the device by its address.
pub proof fn law_log_lines(body: Seq<u8>, mac: Seq<char>, message: Seq<char>)
    ensures
        valid_utf8(body) ==> message_text(body) == Some(decode_utf8(body)),
        !valid_utf8(body) ==> message_text(body) is None && message_json(body) is None,
        valid_utf8(body) ==> message_json(body) == compact_json(decode_utf8(body)),
        logged(message_text(body), message_json(body), body.len()) == if !valid_utf8(body) {
            "<"@ + decimal(body.len()) + " bytes binary>"@
        } else {
            match compact_json(decode_utf8(body)) {
                Some(json) => json,
                None => decode_utf8(body),
            }
        },
        log_line(Some(mac), message) == "Device log [MAC="@ + mac + "]: "@ + message,
        log_line(None, message) == "Device log [MAC="@ + "unknown"@ + "]: "@ + message,
{
}

} // verus!
