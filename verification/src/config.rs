//! The server's settings and their defaults.

use crate::clock::{zone_known, Zone};
use crate::oauth::OAuthTokenManager;
use crate::text::{all_digits, decimal, decimal_value, law_decimal_reads_back};
use vstd::prelude::*;
use vstd::string::*;

verus! {

/// The settings as they are given: each may be missing.
pub struct Settings {
    pub calendar_id: Option<String>,
    pub google_api_key: Option<String>,
    pub google_oauth_token: Option<String>,
    pub google_refresh_token: Option<String>,
    pub google_client_id: Option<String>,
    pub google_client_secret: Option<String>,
    pub trmnl_api_key: Option<String>,
    pub display_tz: Option<String>,
    pub base_url: Option<String>,
}

pub struct Config {
    pub calendar_id: String,
    pub google_api_key: Option<String>,
    /// A token that is not renewed.
    pub google_oauth_token: Option<String>,
    pub google_refresh_token: Option<String>,
    pub google_client_id: Option<String>,
    pub google_client_secret: Option<String>,
    /// A secret that callers have to know, where there is one.
    pub trmnl_api_key: Option<String>,
    /// The time zone of the display.
    pub display_tz: Zone,
    /// The address at which devices reach this server.
    pub base_url: String,
}

/// A setting, or its default.
pub open spec fn or_default(setting: Option<String>, default: Seq<char>) -> Seq<char> {
    match setting {
        Some(s) => s@,
        None => default,
    }
}

fn setting_or(setting: Option<String>, default: &str) -> (r: String)
    ensures
        r@ == or_default(setting, default@),
{
    match setting {
        Some(s) => s,
        None => default.to_owned(),
    }
}

impl Config {
    pub fn from_settings(s: Settings) -> (r: Config)
        ensures
            r.calendar_id@ == or_default(s.calendar_id, "primary"@),
            r.google_api_key == s.google_api_key,
            r.google_oauth_token == s.google_oauth_token,
            r.google_refresh_token == s.google_refresh_token,
            r.google_client_id == s.google_client_id,
            r.google_client_secret == s.google_client_secret,
            r.trmnl_api_key == s.trmnl_api_key,
            r.base_url@ == or_default(s.base_url, "http://localhost:3000"@),
            r.display_tz@ == (match s.display_tz {
                Some(name) => if zone_known(name@) {
                    name@
                } else {
                    "UTC"@
                },
                None => "UTC"@,
            }),
    {
        let display_tz: Zone = match &s.display_tz {
            Some(name) => Zone::from_setting(Some(name.as_str())),
            None => Zone::from_setting(None),
        };
        Config {
            calendar_id: setting_or(s.calendar_id, "primary"),
            google_api_key: s.google_api_key,
            google_oauth_token: s.google_oauth_token,
            google_refresh_token: s.google_refresh_token,
            google_client_id: s.google_client_id,
            google_client_secret: s.google_client_secret,
            trmnl_api_key: s.trmnl_api_key,
            display_tz,
            base_url: setting_or(s.base_url, "http://localhost:3000"),
        }
    }

    /// The manager of access tokens, where all three of its credentials are set.
    pub fn token_manager(&self) -> (r: Option<OAuthTokenManager>)
        ensures
            r is Some <==> self.google_refresh_token is Some && self.google_client_id is Some
                && self.google_client_secret is Some,
            r matches Some(m) ==> m.client_id == self.google_client_id->0 && m.client_secret
                == self.google_client_secret->0 && m.refresh_token == self.google_refresh_token->0
                && m.cached is None,
    {
        match (&self.google_refresh_token, &self.google_client_id, &self.google_client_secret) {
            (Some(refresh), Some(id), Some(secret)) => Some(
                OAuthTokenManager::new(id.clone(), secret.clone(), refresh.clone()),
            ),
            _ => None,
        }
    }

    /// Nothing is set with which the calendar could be read.
    pub fn lacks_credentials(&self) -> (r: bool)
        ensures
            r == (self.google_api_key is None && self.google_oauth_token is None && !(
            self.google_refresh_token is Some && self.google_client_id is Some
                && self.google_client_secret is Some)),
    {
        self.token_manager().is_none() && self.google_api_key.is_none()
            && self.google_oauth_token.is_none()
    }
}

/// The address to listen on.
pub fn bind_address(setting: Option<String>) -> (r: String)
    ensures
        r@ == or_default(setting, "0.0.0.0:3000"@),
{
    setting_or(setting, "0.0.0.0:3000")
}

/// The number that a text of decimal digits stands for, after an optional plus sign, where
/// it fits in 32 bits.
pub open spec fn whole_number(s: Seq<char>) -> Option<u32> {
    let digits = if s.len() > 0 && s[0] == '+' {
        s.skip(1)
    } else {
        s
    };
    if digits.len() > 0 && all_digits(digits) && decimal_value(digits) <= u32::MAX {
        Some(decimal_value(digits) as u32)
    } else {
        None
    }
}

/// The digits up to `n` read as a number, as far as it fits.
proof fn lemma_value_grows(s: Seq<char>, n: int)
    requires
        0 <= n <= s.len(),
        all_digits(s),
    ensures
        0 <= decimal_value(s.take(n)) <= decimal_value(s),
    decreases s.len(),
{
    if s.len() == 0 {
        assert(s.take(n) =~= s);
    } else if n == s.len() {
        assert(s.take(n) =~= s);
        lemma_value_grows(s.drop_last(), 0);
    } else {
        lemma_value_grows(s.drop_last(), n);
        assert(s.drop_last().take(n) =~= s.take(n));
    }
}

/// Reads a whole number that fits in 32 bits.
pub fn parse_whole_number(s: &str) -> (r: Option<u32>)
    ensures
        r == whole_number(s@),
{
    let n: usize = s.unicode_len();
    let mut start: usize = 0;
    if n > 0 && s.get_char(0) == '+' {
        start = 1;
    }
    let ghost digits = s@.skip(start as int);
    assert(s@.skip(0) =~= s@);
    if start == n {
        return None;
    }
    let mut value: u32 = 0;
    let mut i: usize = start;
    assert(digits.take(0) =~= Seq::empty());
    while i < n
        invariant
            n == s@.len(),
            start <= i <= n,
            start < n,
            digits == s@.skip(start as int),
            digits == (if s@.len() > 0 && s@[0] == '+' {
                s@.skip(1)
            } else {
                s@
            }),
            all_digits(digits.take(i - start)),
            value == decimal_value(digits.take(i - start)),
        decreases n - i,
    {
        let c: char = s.get_char(i);
        let ghost next = digits.take(i - start + 1);
        assert(c == digits[i - start]);
        assert(next =~= digits.take(i - start).push(c));
        if c < '0' || c > '9' {
            assert(!all_digits(digits));
            return None;
        }
        let d: u32 = c as u32 - 48;
        assert(next.drop_last() =~= digits.take(i - start));
        assert(decimal_value(next) == 10 * value + d);
        if value > (u32::MAX - d) / 10 {
            proof {
                if all_digits(digits) {
                    lemma_value_grows(digits, i - start + 1);
                }
            }
            return None;
        }
        value = value * 10 + d;
        i += 1;
    }
    assert(digits.take(n - start) =~= digits);
    Some(value)
}

/// The seconds between two refreshes of a device, as set, or 900.
pub fn refresh_rate(setting: Option<&str>) -> (r: u32)
    ensures
        r == (match setting {
            Some(s) => match whole_number(s@) {
                Some(n) => n,
                None => 900u32,
            },
            None => 900u32,
        }),
{
    match setting {
        Some(s) => match parse_whole_number(s) {
            Some(n) => n,
            None => 900,
        },
        None => 900,
    }
}

/// A number written in decimal is read back, where it fits in 32 bits.
pub proof fn law_whole_number_reads_back(n: nat)
    requires
        n <= u32::MAX,
    ensures
        whole_number(decimal(n)) == Some(n as u32),
{
    law_decimal_reads_back(n);
    assert(decimal(n)[0] != '+');
}

/// A setting that is given is taken as it is; only one that is missing has its default.
pub proof fn law_settings_are_taken(setting: String, default: Seq<char>)
    ensures
        or_default(Some(setting), default) == setting@,
        or_default(None, default) == default,
{
}

/// A text is a whole number if and only if it is made of digits, one at least, with or without
/// a plus sign in front, and the number fits in 32 bits. It is then that number.
pub proof fn law_whole_numbers(digits: Seq<char>)
    ensures
        digits.len() > 0 && (forall|i: int|
            0 <= i < digits.len() ==> '0' <= #[trigger] digits[i] <= '9') && decimal_value(digits)
            <= 0xffff_ffff ==> {
            &&& whole_number(digits) == Some(decimal_value(digits) as u32)
            &&& whole_number(seq!['+'] + digits) == Some(decimal_value(digits) as u32)
        },
        decimal_value(digits) > 0xffff_ffff && (forall|i: int|
            0 <= i < digits.len() ==> '0' <= #[trigger] digits[i] <= '9') ==> {
            &&& whole_number(digits) is None
            &&& whole_number(seq!['+'] + digits) is None
        },
        digits.len() == 0 ==> whole_number(digits) is None && whole_number(seq!['+'] + digits)
            is None,
        (exists|i: int| 0 < i < digits.len() && !('0' <= #[trigger] digits[i] <= '9'))
            ==> whole_number(digits) is None,
        digits.len() > 0 && digits[0] != '+' && !('0' <= digits[0] <= '9') ==> whole_number(digits)
            is None,
{
    let signed = seq!['+'] + digits;
    assert(signed.skip(1) =~= digits);
    if exists|i: int| 0 < i < digits.len() && !('0' <= #[trigger] digits[i] <= '9') {
        let i = choose|i: int| 0 < i < digits.len() && !('0' <= #[trigger] digits[i] <= '9');
        if digits[0] == '+' {
            assert(digits.skip(1)[i - 1] == digits[i]);
        }
    }
}

} // verus!
