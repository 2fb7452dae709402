//! The devices that have called: their keys, their names and the registry.

use crate::text::same_text;
use vstd::prelude::*;
use vstd::string::*;
use vstd::utf8::encode_utf8;

verus! {

pub const FNV_START: u64 = 14695981039346656037;

pub const FNV_PRIME: u64 = 1099511628211;

/// The 64-bit FNV-1a hash of a row of bytes.
pub open spec fn fnv1a(bytes: Seq<u8>) -> u64
    decreases bytes.len(),
{
    if bytes.len() == 0 {
        FNV_START
    } else {
        let mixed = fnv1a(bytes.drop_last()) ^ (bytes.last() as u64);
        ((mixed as nat * FNV_PRIME as nat) % 0x1_0000_0000_0000_0000) as u64
    }
}

/// The lower-case hexadecimal digit of `d`.
pub open spec fn hex_lower(d: int) -> char {
    if d < 10 {
        (48 + d) as char
    } else {
        (87 + d) as char
    }
}

/// The last `width` hexadecimal digits of a number, zeros in front where it has fewer.
pub open spec fn hex(n: nat, width: nat) -> Seq<char>
    decreases width,
{
    if width == 0 {
        Seq::empty()
    } else {
        hex(n / 16, (width - 1) as nat).push(hex_lower((n % 16) as int))
    }
}

/// The key of a device, from its address.
pub open spec fn api_key(mac: Seq<char>) -> Seq<char> {
    hex(fnv1a(encode_utf8(mac)) as nat, 16)
}

fn push_hex(out: &mut String, n: u64, width: u8)
    ensures
        final(out)@ == old(out)@ + hex(n as nat, width as nat),
    decreases width,
{
    if width > 0 {
        push_hex(out, n / 16, width - 1);
        let d: u8 = (n % 16) as u8;
        if d < 10 {
            out.push((48 + d) as char);
        } else {
            out.push((87 + d) as char);
        }
    }
    assert(out@ =~= old(out)@ + hex(n as nat, width as nat));
}

/// The key of a device: the FNV-1a hash of its address in sixteen hexadecimal digits.
pub fn mac_to_api_key(mac: &str) -> (r: String)
    ensures
        r@ == api_key(mac@),
{
    let bytes: &[u8] = mac.as_bytes();
    let n: usize = bytes.len();
    let mut hash: u64 = FNV_START;
    let mut i: usize = 0;
    while i < n
        invariant
            n == bytes@.len(),
            i <= n,
            hash == fnv1a(bytes@.take(i as int)),
        decreases n - i,
    {
        let ghost front = bytes@.take(i + 1);
        assert(front.drop_last() =~= bytes@.take(i as int));
        assert(front.last() == bytes@[i as int]);
        hash = (hash ^ (bytes[i] as u64)).wrapping_mul(FNV_PRIME);
        i += 1;
    }
    assert(bytes@.take(n as int) =~= encode_utf8(mac@));
    let mut out = String::new();
    push_hex(&mut out, hash, 16);
    assert(out@ =~= api_key(mac@));
    out
}

pub open spec fn upper(c: char) -> char {
    if 'a' <= c <= 'z' {
        (c as u32 - 32) as char
    } else {
        c
    }
}

/// A text in capitals, without colons.
pub open spec fn capitals(s: Seq<char>) -> Seq<char>
    decreases s.len(),
{
    if s.len() == 0 {
        Seq::empty()
    } else if s.last() == ':' {
        capitals(s.drop_last())
    } else {
        capitals(s.drop_last()).push(upper(s.last()))
    }
}

/// The name by which people know a device: the start of its address.
pub open spec fn friendly_name(mac: Seq<char>) -> Seq<char> {
    capitals(mac.take(
        if mac.len() < 6 {
            mac.len() as int
        } else {
            6
        },
    ))
}

/// The name by which people know a device: the first six characters of its address, in
/// capitals and without colons.
pub fn friendly_id(mac: &str) -> (r: String)
    requires
        is_ascii(mac),
    ensures
        r@ == friendly_name(mac@),
{
    let count: usize = mac.unicode_len();
    let n: usize = if count < 6 {
        count
    } else {
        6
    };
    let mut out = String::new();
    let mut i: usize = 0;
    while i < n
        invariant
            n <= mac@.len(),
            i <= n,
            is_ascii(mac),
            out@ == capitals(mac@.take(i as int)),
        decreases n - i,
    {
        let ghost front = mac@.take(i + 1);
        assert(front.drop_last() =~= mac@.take(i as int));
        assert(front.last() == mac@[i as int]);
        let c: char = mac.get_char(i);
        if c != ':' {
            if 'a' <= c && c <= 'z' {
                out.push((c as u8 - 32) as char);
            } else {
                out.push(c);
            }
        }
        i += 1;
    }
    out
}

/// A device that has called, and the token by which it is known.
#[derive(Debug)]
pub struct Device {
    pub mac: String,
    pub access_token: String,
}

pub struct DeviceView {
    pub mac: Seq<char>,
    pub access_token: Seq<char>,
}

impl View for Device {
    type V = DeviceView;

    open spec fn view(&self) -> DeviceView {
        DeviceView { mac: self.mac@, access_token: self.access_token@ }
    }
}

pub open spec fn device_views(devices: Seq<Device>) -> Seq<DeviceView> {
    devices.map_values(|d: Device| d@)
}

/// No address stands in two entries.
pub open spec fn distinct_macs(devices: Seq<DeviceView>) -> bool {
    forall|i: int, j: int|
        0 <= i < j < devices.len() ==> #[trigger] devices[i].mac != #[trigger] devices[j].mac
}

/// The place of the first entry with this address, or the number of entries.
pub open spec fn place_of(devices: Seq<DeviceView>, mac: Seq<char>) -> int
    decreases devices.len(),
{
    if devices.len() == 0 {
        0
    } else if devices[0].mac == mac {
        0
    } else {
        1 + place_of(devices.skip(1), mac)
    }
}

/// Some entry has this address.
pub open spec fn registered(devices: Seq<DeviceView>, mac: Seq<char>) -> bool {
    place_of(devices, mac) < devices.len()
}

/// The registry after a device has set itself up: known already, or added with its key.
pub open spec fn after_setup(devices: Seq<DeviceView>, mac: Seq<char>) -> Seq<DeviceView> {
    if registered(devices, mac) {
        devices
    } else {
        devices.push(DeviceView { mac, access_token: api_key(mac) })
    }
}

/// The registry after a device has asked for its picture. A token that it shows replaces the
/// one that is stored. A device that is not known is added, with the token or, where it shows
/// none, with its key.
pub open spec fn after_display(
    devices: Seq<DeviceView>,
    mac: Seq<char>,
    token: Seq<char>,
) -> Seq<DeviceView> {
    if registered(devices, mac) {
        if token.len() == 0 {
            devices
        } else {
            devices.update(place_of(devices, mac), DeviceView { mac, access_token: token })
        }
    } else {
        devices.push(
            DeviceView {
                mac,
                access_token: if token.len() == 0 {
                    api_key(mac)
                } else {
                    token
                },
            },
        )
    }
}

/// What `place_of` finds: the address, and none before it.
proof fn lemma_place_of(devices: Seq<DeviceView>, mac: Seq<char>)
    ensures
        0 <= place_of(devices, mac) <= devices.len(),
        registered(devices, mac) ==> devices[place_of(devices, mac)].mac == mac,
        forall|i: int| 0 <= i < place_of(devices, mac) ==> #[trigger] devices[i].mac != mac,
    decreases devices.len(),
{
    if devices.len() > 0 && devices[0].mac != mac {
        let rest = devices.skip(1);
        lemma_place_of(rest, mac);
        assert forall|i: int| 0 <= i < place_of(devices, mac) implies #[trigger] devices[i].mac
            != mac by {
            if i > 0 {
                assert(devices[i] == rest[i - 1]);
            }
        }
        if registered(devices, mac) {
            assert(devices[place_of(devices, mac)] == rest[place_of(rest, mac)]);
        }
    }
}

/// An address found with none before it is the place.
proof fn lemma_first_place(devices: Seq<DeviceView>, mac: Seq<char>, at: int)
    requires
        0 <= at <= devices.len(),
        at < devices.len() ==> devices[at].mac == mac,
        forall|i: int| 0 <= i < at ==> #[trigger] devices[i].mac != mac,
    ensures
        place_of(devices, mac) == at,
{
    lemma_place_of(devices, mac);
    let place = place_of(devices, mac);
    if place < at {
        assert(devices[place].mac == mac);
    }
    if at < place {
        assert(devices[at].mac == mac);
    }
}

fn find(devices: &Vec<Device>, mac: &str) -> (r: usize)
    ensures
        r == place_of(device_views(devices@), mac@),
        r <= devices.len(),
{
    let ghost views = device_views(devices@);
    let n: usize = devices.len();
    let mut i: usize = 0;
    while i < n
        invariant
            n == devices.len(),
            i <= n,
            views == device_views(devices@),
            forall|j: int| 0 <= j < i ==> #[trigger] views[j].mac != mac@,
        decreases n - i,
    {
        if same_text(devices[i].mac.as_str(), mac) {
            proof {
                lemma_first_place(views, mac@, i as int);
            }
            return i;
        }
        assert(views[i as int].mac != mac@);
        i += 1;
    }
    proof {
        lemma_first_place(views, mac@, i as int);
    }
    n
}

/// The devices that have called, one entry for each address.
pub struct DeviceRegistry {
    devices: Vec<Device>,
}

impl View for DeviceRegistry {
    type V = Seq<DeviceView>;

    closed spec fn view(&self) -> Seq<DeviceView> {
        device_views(self.devices@)
    }
}

impl DeviceRegistry {
    #[verifier::type_invariant]
    spec fn one_entry_each(self) -> bool {
        distinct_macs(device_views(self.devices@))
    }

    pub fn new() -> (r: DeviceRegistry)
        ensures
            r@ == Seq::<DeviceView>::empty(),
    {
        let r = DeviceRegistry { devices: Vec::new() };
        assert(r@ =~= Seq::<DeviceView>::empty());
        r
    }

    /// The entries, in the order in which the devices first called.
    pub fn devices(&self) -> (r: &Vec<Device>)
        ensures
            device_views(r@) == self@,
            distinct_macs(self@),
    {
        proof {
            use_type_invariant(self);
        }
        &self.devices
    }

    /// A device sets itself up.
    pub fn setup(&mut self, mac: &str)
        ensures
            final(self)@ == after_setup(old(self)@, mac@),
    {
        proof {
            use_type_invariant(&*self);
        }
        let ghost before = device_views(self.devices@);
        let mut devices: Vec<Device> = Vec::new();
        std::mem::swap(&mut devices, &mut self.devices);
        if find(&devices, mac) == devices.len() {
            let device = Device { mac: mac.to_owned(), access_token: mac_to_api_key(mac) };
            devices.push(device);
            assert(device_views(devices@) =~= before.push(device@));
        }
        proof {
            law_setup_keeps_one_entry_each(before, mac@);
        }
        self.devices = devices;
    }

    /// A device asks for its picture and shows a token, which may be empty.
    pub fn display(&mut self, mac: &str, token: &str)
        ensures
            final(self)@ == after_display(old(self)@, mac@, token@),
    {
        proof {
            use_type_invariant(&*self);
        }
        let ghost before = device_views(self.devices@);
        let mut devices: Vec<Device> = Vec::new();
        std::mem::swap(&mut devices, &mut self.devices);
        let place: usize = find(&devices, mac);
        let shows_token: bool = token.unicode_len() > 0;
        if place < devices.len() {
            proof {
                lemma_place_of(before, mac@);
            }
            if shows_token {
                if same_text(devices[place].access_token.as_str(), token) {
                    assert(before =~= before.update(place as int, before[place as int]));
                } else {
                    let device = Device { mac: mac.to_owned(), access_token: token.to_owned() };
                    devices.set(place, device);
                    assert(device_views(devices@) =~= before.update(place as int, device@));
                }
            }
        } else {
            let access_token: String = if shows_token {
                token.to_owned()
            } else {
                mac_to_api_key(mac)
            };
            let device = Device { mac: mac.to_owned(), access_token };
            devices.push(device);
            assert(device_views(devices@) =~= before.push(device@));
        }
        proof {
            law_display_keeps_one_entry_each(before, mac@, token@);
        }
        self.devices = devices;
    }
}

/// Setting a device up leaves at most one entry for each address.
pub proof fn law_setup_keeps_one_entry_each(devices: Seq<DeviceView>, mac: Seq<char>)
    requires
        distinct_macs(devices),
    ensures
        distinct_macs(after_setup(devices, mac)),
{
    lemma_place_of(devices, mac);
}

/// Asking for the picture leaves at most one entry for each address.
pub proof fn law_display_keeps_one_entry_each(
    devices: Seq<DeviceView>,
    mac: Seq<char>,
    token: Seq<char>,
)
    requires
        distinct_macs(devices),
    ensures
        distinct_macs(after_display(devices, mac, token)),
{
    lemma_place_of(devices, mac);
}

/// The entry of a device.
pub open spec fn entry(devices: Seq<DeviceView>, mac: Seq<char>) -> Option<DeviceView> {
    if registered(devices, mac) {
        Some(devices[place_of(devices, mac)])
    } else {
        None
    }
}

/// A device that has set itself up is registered: with its key, if it was not known before.
pub proof fn law_setup_registers(devices: Seq<DeviceView>, mac: Seq<char>)
    ensures
        entry(after_setup(devices, mac), mac) == match entry(devices, mac) {
            Some(device) => Some(device),
            None => Some(DeviceView { mac, access_token: api_key(mac) }),
        },
{
    lemma_place_of(devices, mac);
    if !registered(devices, mac) {
        lemma_first_place(after_setup(devices, mac), mac, devices.len() as int);
    }
}

/// A device that has asked for its picture is registered: with the token that it showed, or
/// with the one that was stored, or with its key.
pub proof fn law_display_registers(devices: Seq<DeviceView>, mac: Seq<char>, token: Seq<char>)
    ensures
        entry(after_display(devices, mac, token), mac) == Some(
            DeviceView {
                mac,
                access_token: if token.len() > 0 {
                    token
                } else {
                    match entry(devices, mac) {
                        Some(device) => device.access_token,
                        None => api_key(mac),
                    }
                },
            },
        ),
{
    lemma_place_of(devices, mac);
    lemma_first_place(after_display(devices, mac, token), mac, place_of(devices, mac));
}

/// A call changes no other device's entry.
pub proof fn law_others_are_untouched(
    devices: Seq<DeviceView>,
    mac: Seq<char>,
    token: Seq<char>,
    other: Seq<char>,
)
    requires
        other != mac,
    ensures
        entry(after_setup(devices, mac), other) == entry(devices, other),
        entry(after_display(devices, mac, token), other) == entry(devices, other),
{
    lemma_place_of(devices, mac);
    lemma_other_stays(devices, after_setup(devices, mac), mac, other);
    lemma_other_stays(devices, after_display(devices, mac, token), mac, other);
}

/// What differs only in entries of `mac`, or has one more of it, has the same entry for others.
proof fn lemma_other_stays(
    devices: Seq<DeviceView>,
    after: Seq<DeviceView>,
    mac: Seq<char>,
    other: Seq<char>,
)
    requires
        other != mac,
        devices.len() <= after.len(),
        forall|i: int|
            0 <= i < devices.len() && devices[i].mac != mac ==> #[trigger] after[i] == devices[i],
        forall|i: int|
            0 <= i < devices.len() && devices[i].mac == mac ==> #[trigger] after[i].mac == mac,
        forall|i: int| devices.len() <= i < after.len() ==> #[trigger] after[i].mac == mac,
    ensures
        entry(after, other) == entry(devices, other),
{
    lemma_place_of(devices, other);
    let place = place_of(devices, other);
    assert forall|i: int| 0 <= i < place implies #[trigger] after[i].mac != other by {
        assert(devices[i].mac != other);
    }
    if place < devices.len() {
        lemma_first_place(after, other, place);
    } else {
        lemma_first_place(after, other, after.len() as int);
    }
}

/// Setting up a second time changes nothing.
pub proof fn law_setup_twice_is_once(devices: Seq<DeviceView>, mac: Seq<char>)
    ensures
        after_setup(after_setup(devices, mac), mac) == after_setup(devices, mac),
{
    law_setup_registers(devices, mac);
}

/// Asking a second time with the same token changes nothing.
pub proof fn law_display_twice_is_once(devices: Seq<DeviceView>, mac: Seq<char>, token: Seq<char>)
    ensures
        after_display(after_display(devices, mac, token), mac, token) == after_display(
            devices,
            mac,
            token,
        ),
{
    law_display_registers(devices, mac, token);
    let after = after_display(devices, mac, token);
    lemma_place_of(after, mac);
    assert(after.update(place_of(after, mac), after[place_of(after, mac)]) =~= after);
}

/// A new device that sets itself up and then shows the key it was given is known by that key,
/// and asking for the picture changes nothing.
pub proof fn law_setup_key_is_kept(devices: Seq<DeviceView>, mac: Seq<char>)
    requires
        !registered(devices, mac),
    ensures
        after_display(after_setup(devices, mac), mac, api_key(mac)) == after_setup(devices, mac),
{
    law_setup_registers(devices, mac);
    law_key_shape(mac);
    let after = after_setup(devices, mac);
    lemma_place_of(after, mac);
    assert(after.update(place_of(after, mac), after[place_of(after, mac)]) =~= after);
}

/// A hexadecimal digit in small letters.
pub open spec fn is_hex_lower(c: char) -> bool {
    '0' <= c <= '9' || 'a' <= c <= 'f'
}

/// The number that hexadecimal digits in small letters stand for.
pub open spec fn hex_number(s: Seq<char>) -> int
    decreases s.len(),
{
    if s.len() == 0 {
        0
    } else {
        16 * hex_number(s.drop_last()) + if s.last() <= '9' {
            s.last() as int - 48
        } else {
            s.last() as int - 87
        }
    }
}

/// Every key is sixteen hexadecimal digits, and the hash of the address can be read from it.
pub proof fn law_key_shape(mac: Seq<char>)
    ensures
        api_key(mac).len() == 16,
        forall|i: int| 0 <= i < 16 ==> is_hex_lower(#[trigger] api_key(mac)[i]),
        hex_number(api_key(mac)) == fnv1a(encode_utf8(mac)),
{
    let hash = fnv1a(encode_utf8(mac)) as nat;
    lemma_hex(hash, 16);
    assert(power16(16) == 0x1_0000_0000_0000_0000) by {
        reveal_with_fuel(power16, 17);
    }
}

spec fn power16(n: nat) -> int
    decreases n,
{
    if n == 0 {
        1
    } else {
        16 * power16((n - 1) as nat)
    }
}

proof fn lemma_hex(n: nat, width: nat)
    ensures
        hex(n, width).len() == width,
        forall|i: int| 0 <= i < width ==> is_hex_lower(#[trigger] hex(n, width)[i]),
        n < power16(width) ==> hex_number(hex(n, width)) == n,
    decreases width,
{
    if width > 0 {
        lemma_hex(n / 16, (width - 1) as nat);
        assert(hex(n, width).drop_last() =~= hex(n / 16, (width - 1) as nat));
    }
}

/// Every byte counts: one more byte, whatever it is, is mixed into the hash and the result
/// multiplied by the prime, modulo two to the sixty-fourth.
pub proof fn law_hash_mixes_every_byte(s: Seq<u8>, b: u8)
    ensures
        fnv1a(Seq::<u8>::empty()) == 14695981039346656037u64,
        fnv1a(s.push(b)) as nat == ((fnv1a(s) ^ (b as u64)) as nat * 1099511628211)
            % 0x1_0000_0000_0000_0000,
{
    assert(s.push(b).drop_last() =~= s);
}

/// The digits of a key, first to last, are those of the hash of the whole address in UTF-8, in
/// hexadecimal and small letters: each is worth sixteen times the one after it.
pub proof fn law_key_digits(mac: Seq<char>, i: int)
    requires
        0 <= i < 16,
    ensures
        ({
            let weight = vstd::arithmetic::power::pow(16, (15 - i) as nat);
            let d = fnv1a(encode_utf8(mac)) as int / weight % 16;
            api_key(mac)[i] as int == if d < 10 {
                '0' as int + d
            } else {
                'a' as int + d - 10
            }
        }),
        api_key(mac).len() == 16,
{
    let hash = fnv1a(encode_utf8(mac)) as nat;
    lemma_hex(hash, 16);
    lemma_hex_digit(hash, 16, i);
}

proof fn lemma_hex_digit(n: nat, width: nat, i: int)
    requires
        0 <= i < width,
    ensures
        hex(n, width)[i] == hex_lower(
            n as int / vstd::arithmetic::power::pow(16, (width - 1 - i) as nat) % 16,
        ),
    decreases width,
{
    lemma_hex(n, width);
    let rest = hex(n / 16, (width - 1) as nat);
    lemma_hex(n / 16, (width - 1) as nat);
    if i == width - 1 {
        vstd::arithmetic::power::lemma_pow0(16);
        assert(n as int / 1 == n);
    } else {
        let k = (width - 2 - i) as nat;
        lemma_hex_digit(n / 16, (width - 1) as nat, i);
        vstd::arithmetic::power::lemma_pow_positive(16, k);
        vstd::arithmetic::power::lemma_pow_adds(16, 1, k);
        vstd::arithmetic::power::lemma_pow1(16);
        vstd::arithmetic::div_mod::lemma_div_denominator(
            n as int,
            16,
            vstd::arithmetic::power::pow(16, k),
        );
        assert(hex(n, width)[i] == rest[i]);
    }
}

/// Of an address the first six characters count, one by one: a colon is left out, a small
/// letter becomes a capital, and anything else stays.
pub proof fn law_friendly_name_by_character(mac: Seq<char>, c: char)
    ensures
        friendly_name(Seq::<char>::empty()) == Seq::<char>::empty(),
        mac.len() >= 6 ==> friendly_name(mac.push(c)) == friendly_name(mac),
        mac.len() < 6 && c == ':' ==> friendly_name(mac.push(c)) == friendly_name(mac),
        mac.len() < 6 && 'a' <= c <= 'z' ==> friendly_name(mac.push(c)) == friendly_name(mac).push(
            (c as u32 - 32) as char,
        ),
        mac.len() < 6 && c != ':' && !('a' <= c <= 'z') ==> friendly_name(mac.push(c))
            == friendly_name(mac).push(c),
{
    let none = Seq::<char>::empty();
    assert(none.take(0) =~= none);
    let more = mac.push(c);
    if mac.len() >= 6 {
        assert(more.take(6) =~= mac.take(6));
    } else {
        assert(more.take(mac.len() as int + 1) =~= more);
        assert(mac.take(mac.len() as int) =~= mac);
        assert(more.drop_last() =~= mac);
    }
}

/// A device is registered if and only if some entry has its address, and its entry is one of
/// those. The entries are those of the list, as they stand there.
pub proof fn law_registered_means_listed(devices: Seq<DeviceView>, mac: Seq<char>)
    ensures
        registered(devices, mac) <==> exists|i: int|
            0 <= i < devices.len() && #[trigger] devices[i].mac == mac,
        entry(devices, mac) is Some <==> registered(devices, mac),
        entry(devices, mac) matches Some(device) ==> device.mac == mac && devices.contains(device),
{
    lemma_place_of(devices, mac);
    if registered(devices, mac) {
        let at = place_of(devices, mac);
        assert(devices[at].mac == mac);
        assert(devices.contains(devices[at]));
    }
}

/// A known device changes nothing by setting itself up. An unknown one stands at the end of the
/// list afterwards, with its key, and no other entry has changed.
pub proof fn law_setup_appends_unknown_devices(devices: Seq<DeviceView>, mac: Seq<char>)
    ensures
        (exists|i: int| 0 <= i < devices.len() && #[trigger] devices[i].mac == mac) ==> after_setup(
            devices,
            mac,
        ) == devices,
        (forall|i: int| 0 <= i < devices.len() ==> #[trigger] devices[i].mac != mac) ==> {
            let after = after_setup(devices, mac);
            &&& after.drop_last() == devices
            &&& after.len() == devices.len() + 1
            &&& after.last().mac == mac
            &&& after.last().access_token == api_key(mac)
        },
{
    law_registered_means_listed(devices, mac);
    if !registered(devices, mac) {
        assert(after_setup(devices, mac).drop_last() =~= devices);
    }
}

/// A known device that shows a token keeps its place and its address and is known by that token;
/// one that shows none changes nothing. An unknown one stands at the end of the list
/// afterwards, with the token that it showed or else its key. No other entry changes.
pub proof fn law_display_stores_tokens(
    devices: Seq<DeviceView>,
    mac: Seq<char>,
    token: Seq<char>,
    i: int,
)
    requires
        forall|j: int, k: int|
            0 <= j < k < devices.len() ==> #[trigger] devices[j].mac != #[trigger] devices[k].mac,
    ensures
        0 <= i < devices.len() && devices[i].mac == mac ==> {
            let after = after_display(devices, mac, token);
            &&& after.len() == devices.len()
            &&& after[i].mac == mac
            &&& after[i].access_token == if token.len() > 0 {
                token
            } else {
                devices[i].access_token
            }
            &&& forall|j: int|
                0 <= j < devices.len() && j != i ==> #[trigger] after[j] == devices[j]
        },
        (forall|j: int| 0 <= j < devices.len() ==> #[trigger] devices[j].mac != mac) ==> {
            let after = after_display(devices, mac, token);
            &&& after.drop_last() == devices
            &&& after.len() == devices.len() + 1
            &&& after.last().mac == mac
            &&& after.last().access_token == if token.len() > 0 {
                token
            } else {
                api_key(mac)
            }
        },
{
    law_registered_means_listed(devices, mac);
    lemma_place_of(devices, mac);
    if !registered(devices, mac) {
        assert(after_display(devices, mac, token).drop_last() =~= devices);
    }
}

/// Nothing of an entry is left out of its view, and nothing of a list.
pub proof fn law_device_views_are_whole(devices: Seq<Device>, i: int)
    requires
        0 <= i < devices.len(),
    ensures
        device_views(devices).len() == devices.len(),
        device_views(devices)[i].mac == devices[i].mac@,
        device_views(devices)[i].access_token == devices[i].access_token@,
{
}

/// Addresses are distinct if no two entries have the same.
pub proof fn law_distinct_addresses(devices: Seq<DeviceView>)
    ensures
        distinct_macs(devices) <==> forall|i: int, j: int|
            0 <= i < devices.len() && 0 <= j < devices.len() && i != j
                ==> #[trigger] devices[i].mac != #[trigger] devices[j].mac,
{
    if distinct_macs(devices) {
        assert forall|i: int, j: int|
            0 <= i < devices.len() && 0 <= j < devices.len() && i != j implies #[trigger] devices[i].mac
            != #[trigger] devices[j].mac by {
            if i > j {
                assert(devices[j].mac != devices[i].mac);
            }
        }
    }
}

} // verus!
