//! The headers of a request: their text, and what callers show with them.

use crate::text::{same_text, text_of};
use vstd::prelude::*;
use vstd::string::*;

verus! {

/// A byte that may stand in the text of a header: visible ASCII, a space or a tab.
pub open spec fn visible(b: u8) -> bool {
    32 <= b < 127 || b == 9
}

/// Every byte may stand in the text of a header.
pub open spec fn all_visible(value: Seq<u8>) -> bool {
    forall|i: int| 0 <= i < value.len() ==> visible(#[trigger] value[i])
}

/// ASCII bytes as characters.
pub open spec fn ascii_text(value: Seq<u8>) -> Seq<char> {
    value.map_values(|b: u8| b as char)
}

/// The text of a header that may be missing. One that holds other than visible characters
/// counts as missing.
pub open spec fn header_text(value: Option<&[u8]>) -> Option<Seq<char>> {
    match value {
        Some(bytes) => if all_visible(bytes@) {
            Some(ascii_text(bytes@))
        } else {
            None
        },
        None => None,
    }
}

fn is_visible(value: &[u8]) -> (r: bool)
    ensures
        r == all_visible(value@),
{
    let n: usize = value.len();
    let mut i: usize = 0;
    while i < n
        invariant
            n == value@.len(),
            i <= n,
            forall|j: int| 0 <= j < i ==> visible(#[trigger] value@[j]),
        decreases n - i,
    {
        let b: u8 = value[i];
        if !((b >= 32 && b < 127) || b == 9) {
            assert(!visible(value@[i as int]));
            return false;
        }
        i += 1;
    }
    true
}

/// The characters of some of the bytes.
fn text_between(value: &[u8], from: usize, to: usize) -> (r: String)
    requires
        from <= to <= value@.len(),
    ensures
        r@ == ascii_text(value@.subrange(from as int, to as int)),
{
    let mut out = String::new();
    let mut i: usize = from;
    assert(out@ =~= ascii_text(value@.subrange(from as int, from as int)));
    while i < to
        invariant
            from <= i <= to <= value@.len(),
            out@ == ascii_text(value@.subrange(from as int, i as int)),
        decreases to - i,
    {
        out.push(value[i] as char);
        assert(out@ =~= ascii_text(value@.subrange(from as int, i + 1)));
        i += 1;
    }
    out
}

pub open spec fn lower(c: char) -> char {
    if 'A' <= c <= 'Z' {
        (c as u32 + 32) as char
    } else {
        c
    }
}

/// A text in small letters.
pub open spec fn lowered(s: Seq<char>) -> Seq<char> {
    s.map_values(|c: char| lower(c))
}

/// The address that a device states in its `ID` header, in small letters.
pub open spec fn stated_mac(id: Option<&[u8]>) -> Option<Seq<char>> {
    match header_text(id) {
        Some(text) => Some(lowered(text)),
        None => None,
    }
}

/// The address of a device, from its `ID` header.
pub fn device_mac(id: Option<&[u8]>) -> (r: Option<String>)
    ensures
        text_of(r) == stated_mac(id),
{
    let value: &[u8] = match id {
        Some(value) => value,
        None => {
            return None;
        },
    };
    if !is_visible(value) {
        return None;
    }
    let mut out = String::new();
    let n: usize = value.len();
    let mut i: usize = 0;
    while i < n
        invariant
            n == value@.len(),
            i <= n,
            all_visible(value@),
            out@ == lowered(ascii_text(value@)).take(i as int),
        decreases n - i,
    {
        let b: u8 = value[i];
        if b >= 65 && b <= 90 {
            out.push((b + 32) as char);
        } else {
            out.push(b as char);
        }
        assert(lowered(ascii_text(value@))[i as int] == lower(b as char));
        assert(lowered(ascii_text(value@)).take(i + 1) =~= lowered(ascii_text(value@)).take(
            i as int,
        ).push(lower(b as char)));
        i += 1;
    }
    assert(lowered(ascii_text(value@)).take(n as int) =~= lowered(ascii_text(value@)));
    Some(out)
}

pub open spec fn blank(c: char) -> bool {
    c == ' ' || c == '\t'
}

/// Without the spaces and tabs in front.
pub open spec fn trim_start(s: Seq<char>) -> Seq<char>
    decreases s.len(),
{
    if s.len() > 0 && blank(s[0]) {
        trim_start(s.skip(1))
    } else {
        s
    }
}

/// Without the spaces and tabs at the end.
pub open spec fn trim_end(s: Seq<char>) -> Seq<char>
    decreases s.len(),
{
    if s.len() > 0 && blank(s.last()) {
        trim_end(s.drop_last())
    } else {
        s
    }
}

/// The token in an `Access-Token` header, without blanks around it.
pub open spec fn stated_token(value: Option<&[u8]>) -> Option<Seq<char>> {
    match header_text(value) {
        Some(text) => Some(trim_end(trim_start(text))),
        None => None,
    }
}

/// The token that a device shows, from its `Access-Token` header.
pub fn access_token_header(value: Option<&[u8]>) -> (r: Option<String>)
    ensures
        text_of(r) == stated_token(value),
{
    let value: &[u8] = match value {
        Some(value) => value,
        None => {
            return None;
        },
    };
    if !is_visible(value) {
        return None;
    }
    let ghost text = ascii_text(value@);
    let n: usize = value.len();
    let mut from: usize = 0;
    assert(text.subrange(0, n as int) =~= text);
    while from < n && (value[from] == 32 || value[from] == 9)
        invariant
            n == value@.len(),
            text == ascii_text(value@),
            from <= n,
            trim_start(text) == trim_start(text.subrange(from as int, n as int)),
        decreases n - from,
    {
        let ghost rest = text.subrange(from as int, n as int);
        assert(rest[0] == value@[from as int] as char);
        assert(rest.skip(1) =~= text.subrange(from + 1, n as int));
        from += 1;
    }
    assert(trim_start(text) == text.subrange(from as int, n as int)) by {
        if from < n {
            assert(text.subrange(from as int, n as int)[0] == value@[from as int] as char);
        }
    }
    let mut to: usize = n;
    while from < to && (value[to - 1] == 32 || value[to - 1] == 9)
        invariant
            n == value@.len(),
            text == ascii_text(value@),
            from <= to <= n,
            trim_end(trim_start(text)) == trim_end(text.subrange(from as int, to as int)),
        decreases to,
    {
        let ghost rest = text.subrange(from as int, to as int);
        assert(rest.last() == value@[to - 1] as char);
        assert(rest.drop_last() =~= text.subrange(from as int, to - 1));
        to -= 1;
    }
    assert(trim_end(text.subrange(from as int, to as int)) == text.subrange(
        from as int,
        to as int,
    )) by {
        if from < to {
            assert(text.subrange(from as int, to as int).last() == value@[to - 1] as char);
        }
    }
    let token: String = text_between(value, from, to);
    assert(token@ =~= text.subrange(from as int, to as int));
    Some(token)
}

/// `prefix` stands at the start of `s`.
pub open spec fn starts_with(s: Seq<char>, prefix: Seq<char>) -> bool {
    prefix.len() <= s.len() && s.take(prefix.len() as int) == prefix
}

/// Without `prefix` in front, however often it stands there.
pub open spec fn without_prefixes(s: Seq<char>, prefix: Seq<char>) -> Seq<char>
    decreases s.len(),
{
    if prefix.len() > 0 && starts_with(s, prefix) {
        without_prefixes(s.skip(prefix.len() as int), prefix)
    } else {
        s
    }
}

/// What an `Authorization` header shows, without the word for the scheme in front.
pub open spec fn bearer(text: Seq<char>) -> Seq<char> {
    without_prefixes(text, "Bearer "@)
}

/// A caller may pass: no key is asked for, or one of the two headers shows it.
pub open spec fn admitted(
    expected: Option<Seq<char>>,
    authorization: Option<Seq<char>>,
    key: Option<Seq<char>>,
) -> bool {
    match expected {
        Some(expected) => {
            ||| authorization matches Some(text) && bearer(text) == expected
            ||| key matches Some(text) && text == expected
        },
        None => true,
    }
}

/// The bytes from `at` on begin with `Bearer `.
fn bearer_at(value: &[u8], at: usize) -> (r: bool)
    requires
        at <= value@.len(),
    ensures
        r == starts_with(ascii_text(value@).skip(at as int), "Bearer "@),
{
    proof {
        reveal_strlit("Bearer ");
    }
    let ghost rest = ascii_text(value@).skip(at as int);
    if value.len() - at < 7 {
        return false;
    }
    let r: bool = value[at] == 66 && value[at + 1] == 101 && value[at + 2] == 97 && value[at + 3]
        == 114 && value[at + 4] == 101 && value[at + 5] == 114 && value[at + 6] == 32;
    proof {
        let front = rest.take(7);
        assert forall|i: int| 0 <= i < 7 implies front[i] == value@[at + i] as char by {}
        assert(front[0] == value@[at + 0] as char);
        if r {
            assert(front =~= "Bearer "@);
        } else if front == "Bearer "@ {
            assert(front[0] == 'B' && front[1] == 'e' && front[2] == 'a' && front[3] == 'r'
                && front[4] == 'e' && front[5] == 'r' && front[6] == ' ');
        }
    }
    r
}

/// The text after `Bearer ` in an `Authorization` header.
fn bearer_text(value: &[u8]) -> (r: String)
    ensures
        r@ == bearer(ascii_text(value@)),
{
    proof {
        reveal_strlit("Bearer ");
    }
    let ghost text = ascii_text(value@);
    let n: usize = value.len();
    let mut at: usize = 0;
    assert(text.skip(0) =~= text);
    while bearer_at(value, at)
        invariant
            at <= n,
            n == value@.len(),
            text == ascii_text(value@),
            "Bearer "@.len() == 7,
            bearer(text) == bearer(text.skip(at as int)),
        decreases n - at,
    {
        assert(text.skip(at as int).skip(7) =~= text.skip(at + 7));
        at += 7;
    }
    let r: String = text_between(value, at, n);
    assert(r@ =~= text.skip(at as int));
    r
}

/// Whether a caller may pass, from the key that the server asks for and the `Authorization`
/// and `X-TRMNL-Api-Key` headers.
pub fn auth_check(
    expected: Option<&str>,
    authorization: Option<&[u8]>,
    key: Option<&[u8]>,
) -> (r: bool)
    ensures
        r == admitted(
            match expected {
                Some(text) => Some(text@),
                None => None,
            },
            header_text(authorization),
            header_text(key),
        ),
{
    let expected: &str = match expected {
        Some(text) => text,
        None => {
            return true;
        },
    };
    let ok_bearer: bool = match authorization {
        Some(value) => is_visible(value) && same_text(bearer_text(value).as_str(), expected),
        None => false,
    };
    let ok_key: bool = match key {
        Some(value) => {
            if is_visible(value) {
                let text: String = text_between(value, 0, value.len());
                assert(text@ =~= ascii_text(value@));
                same_text(text.as_str(), expected)
            } else {
                false
            }
        },
        None => false,
    };
    ok_bearer || ok_key
}

/// A key that does not itself begin with `Bearer ` is accepted as it is and behind `Bearer `.
pub proof fn law_key_is_accepted(key: Seq<char>, other: Option<Seq<char>>)
    requires
        !starts_with(key, "Bearer "@),
    ensures
        admitted(Some(key), Some("Bearer "@ + key), other),
        admitted(Some(key), Some(key), other),
        admitted(Some(key), other, Some(key)),
{
    reveal_strlit("Bearer ");
    let shown = "Bearer "@ + key;
    assert(shown.take(7) =~= "Bearer "@);
    assert(shown.skip(7) =~= key);
    assert(bearer(shown) == bearer(key));
}

/// Where a key is asked for, a caller who shows none is turned away.
pub proof fn law_silence_is_refused(key: Seq<char>)
    ensures
        !admitted(Some(key), None, None),
{
}

/// An address is the same however its letters are written.
pub proof fn law_address_ignores_case(a: Seq<char>, b: Seq<char>)
    requires
        a.len() == b.len(),
        forall|i: int|
            0 <= i < a.len() ==> #[trigger] a[i] == b[i] || (('A' <= a[i] <= 'Z') && b[i] as int
                == a[i] as int + 32),
    ensures
        lowered(a) == lowered(b),
{
    assert(lowered(a) =~= lowered(b));
}

/// A header is text if and only if all its bytes are visible ASCII, spaces or tabs. Its text is
/// then those bytes, each as a character.
pub proof fn law_header_is_its_bytes(value: &[u8])
    ensures
        header_text(Some(value)) is Some <==> forall|i: int|
            0 <= i < value@.len() ==> 32 <= #[trigger] value@[i] <= 126 || value@[i] == 9,
        header_text(Some(value)) matches Some(text) ==> text.len() == value@.len() && forall|i: int|
            0 <= i < text.len() ==> #[trigger] text[i] as int == value@[i] as int,
        header_text(None) is None,
{
    if forall|i: int| 0 <= i < value@.len() ==> 32 <= #[trigger] value@[i] <= 126 || value@[i] == 9 {
        assert(all_visible(value@));
    }
    if all_visible(value@) {
        assert forall|i: int| 0 <= i < value@.len() implies 32 <= #[trigger] value@[i] <= 126
            || value@[i] == 9 by {
            assert(visible(value@[i]));
        }
    }
}

/// An address has all the characters of its header, in their order; only capitals change, to
/// the small letters of the same name.
pub proof fn law_address_characters(id: &[u8])
    ensures
        stated_mac(Some(id)) is Some <==> header_text(Some(id)) is Some,
        stated_mac(None) is None,
        stated_mac(Some(id)) matches Some(mac) ==> mac.len() == id@.len() && forall|i: int|
            0 <= i < mac.len() ==> #[trigger] mac[i] as int == if 'A' as int <= id@[i] as int
                <= 'Z' as int {
                id@[i] as int + 32
            } else {
                id@[i] as int
            },
{
    law_header_is_its_bytes(id);
}

/// A token is its header without the spaces and tabs at both ends, and no more is taken away.
pub proof fn law_token_is_trimmed(value: &[u8], a: int, b: int)
    requires
        header_text(Some(value)) is Some,
        0 <= a <= b <= value@.len(),
        forall|i: int| 0 <= i < a ==> #[trigger] value@[i] == 32 || value@[i] == 9,
        forall|i: int| b <= i < value@.len() ==> #[trigger] value@[i] == 32 || value@[i] == 9,
        a < b ==> value@[a] != 32 && value@[a] != 9,
        a < b ==> value@[b - 1] != 32 && value@[b - 1] != 9,
    ensures
        stated_token(Some(value)) matches Some(token) && token.len() == b - a && forall|i: int|
            0 <= i < token.len() ==> #[trigger] token[i] as int == value@[a + i] as int,
{
    let text = ascii_text(value@);
    let n = text.len() as int;
    assert(text.skip(0) =~= text);
    if a < b {
        lemma_trim_start(text, 0, a);
        let rest = text.skip(a);
        lemma_trim_end(rest, b - a);
        assert(rest.take(b - a) =~= text.subrange(a, b));
    } else {
        assert forall|i: int| 0 <= i < n implies blank(#[trigger] text[i]) by {
            if i < a {
                assert(value@[i] == 32 || value@[i] == 9);
            } else {
                assert(value@[i] == 32 || value@[i] == 9);
            }
        }
        lemma_trim_start(text, 0, n);
        assert(text.skip(n) =~= Seq::empty());
    }
}

proof fn lemma_trim_start(s: Seq<char>, from: int, to: int)
    requires
        0 <= from <= to <= s.len(),
        forall|i: int| from <= i < to ==> blank(#[trigger] s[i]),
        to < s.len() ==> !blank(s[to]),
    ensures
        trim_start(s.skip(from)) == s.skip(to),
    decreases to - from,
{
    if from < to {
        assert(s.skip(from)[0] == s[from]);
        assert(s.skip(from).skip(1) =~= s.skip(from + 1));
        lemma_trim_start(s, from + 1, to);
    } else if to < s.len() {
        assert(s.skip(to)[0] == s[to]);
    }
}

proof fn lemma_trim_end(s: Seq<char>, to: int)
    requires
        0 < to <= s.len(),
        forall|i: int| to <= i < s.len() ==> blank(#[trigger] s[i]),
        !blank(s[to - 1]),
    ensures
        trim_end(s) == s.take(to),
    decreases s.len(),
{
    if to < s.len() {
        let front = s.drop_last();
        assert(blank(s[s.len() - 1]));
        lemma_trim_end(front, to);
        assert(front.take(to) =~= s.take(to));
    } else {
        assert(s.take(to) =~= s);
    }
}

/// A header that cannot be read shows no token.
pub proof fn law_unreadable_header_shows_nothing(value: &[u8])
    requires
        header_text(Some(value)) is None,
    ensures
        stated_token(Some(value)) is None,
        stated_token(None) is None,
{
}

/// `Bearer ` in front makes no difference, and nothing else is taken off.
pub proof fn law_bearer_is_taken_off(s: Seq<char>)
    ensures
        bearer("Bearer "@ + s) == bearer(s),
        !(s.len() >= 7 && s.take(7) == "Bearer "@) ==> bearer(s) == s,
{
    reveal_strlit("Bearer ");
    let shown = "Bearer "@ + s;
    assert(shown.take(7) =~= "Bearer "@);
    assert(shown.skip(7) =~= s);
}

/// A server without a key lets everyone pass. One with a key lets those pass, and only those,
/// who show exactly that key, in one header behind `Bearer ` or in the other as it is.
pub proof fn law_admitted_by_the_key(
    key: Seq<char>,
    authorization: Option<Seq<char>>,
    shown: Option<Seq<char>>,
)
    ensures
        admitted(None, authorization, shown),
        admitted(Some(key), authorization, shown) <==> (authorization is Some && bearer(
            authorization->0,
        ) == key) || shown == Some(key),
{
}

} // verus!
