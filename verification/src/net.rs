//! Network adapters: which of them have an address that can reach the portal, and which of
//! those to send from.
use vstd::prelude::*;
use crate::common::{upper_hex, upper_hex_digit};
use crate::ipv4::{ip_text, Ipv4};
use crate::text::{
    chars_of, contains, contains_text, first_where, join_texts, joined, lemma_first_where, lemma_somes, lower,
    lower_chars, same_ignoring_case, same_ignoring_case_spec, somes, texts,
};
use crate::utf16::{text_of_utf16, utf16_text};

verus! {

// ---------------------------------------------------------------------------
// What the system tells
// ---------------------------------------------------------------------------

/// An address of an adapter as the system gives it: a family, and bytes that mean what the
/// family says.
#[derive(Debug)]
pub struct RawAddress {
    pub family: u16,
    pub data: [u8; 14],
}

/// An adapter as the system gives it. The texts are in UTF-16, without a null.
#[derive(Debug)]
pub struct RawAdapter {
    pub name: Vec<u16>,
    pub desc: Vec<u16>,
    pub mac: Vec<u8>,
    pub oper_status: i32,
    pub addresses: Vec<RawAddress>,
}

/// The IPv4 address in a socket address of family 2: behind the port.
pub open spec fn raw_ipv4(a: RawAddress) -> Option<Ipv4> {
    if a.family == 2 {
        Some(Ipv4 { a: a.data@[2], b: a.data@[3], c: a.data@[4], d: a.data@[5] })
    } else {
        None
    }
}

/// The IPv4 address in a socket address, if it holds one.
pub fn sockaddr_to_ipv4(sa: &RawAddress) -> (r: Option<Ipv4>)
    ensures
        r == raw_ipv4(*sa),
{
    if sa.family != 2 {
        return None;
    }
    Some(Ipv4 { a: sa.data[2], b: sa.data[3], c: sa.data[4], d: sa.data[5] })
}

/// An address that only this link or this machine knows: 169.254.0.0/16 and 127.0.0.0/8.
pub open spec fn is_local_only(ip: Ipv4) -> bool {
    (ip.a == 169 && ip.b == 254) || ip.a == 127
}

/// The address of an adapter, if it is one that can reach the portal.
pub open spec fn usable_ipv4(a: RawAddress) -> Option<Ipv4> {
    match raw_ipv4(a) {
        Some(ip) => if is_local_only(ip) {
            None
        } else {
            Some(ip)
        },
        None => None,
    }
}

/// The addresses of an adapter that can reach the portal.
pub open spec fn usable_addresses(addresses: Seq<RawAddress>) -> Seq<Ipv4> {
    somes(addresses.map_values(|a: RawAddress| usable_ipv4(a)))
}

/// A byte in two hexadecimal digits.
pub open spec fn byte_hex(b: u8) -> Seq<char> {
    seq![upper_hex_digit(b as int / 16), upper_hex_digit(b as int % 16)]
}

/// A hardware address as text: `XX-XX-..`.
pub open spec fn mac_text(mac: Seq<u8>) -> Seq<char> {
    joined(mac.map_values(|b: u8| byte_hex(b)), "-"@)
}

/// The name of an adapter's state.
pub open spec fn status_text(oper_status: int) -> Seq<char> {
    if oper_status == 1 {
        "Up"@
    } else if oper_status == 2 {
        "Down"@
    } else if oper_status == 3 {
        "Testing"@
    } else if oper_status == 5 {
        "Dormant"@
    } else if oper_status == 6 {
        "NotPresent"@
    } else if oper_status == 7 {
        "LowerLayerDown"@
    } else {
        "Unknown"@
    }
}

// ---------------------------------------------------------------------------
// Adapters
// ---------------------------------------------------------------------------

/// An adapter with an address that can reach the portal.
#[derive(Debug, Clone)]
pub struct Adapter {
    pub name: String,
    pub desc: String,
    pub mac: String,
    pub status: String,
    pub ipv4: Vec<Ipv4>,
}

/// An adapter, as plain values.
#[verifier::ext_equal]
pub struct AdapterView {
    pub name: Seq<char>,
    pub desc: Seq<char>,
    pub mac: Seq<char>,
    pub status: Seq<char>,
    pub ipv4: Seq<Ipv4>,
}

impl View for Adapter {
    type V = AdapterView;

    open spec fn view(&self) -> AdapterView {
        AdapterView {
            name: self.name@,
            desc: self.desc@,
            mac: self.mac@,
            status: self.status@,
            ipv4: self.ipv4@,
        }
    }
}

/// The plain values of adapters.
pub open spec fn adapters_view(s: Seq<Adapter>) -> Seq<AdapterView> {
    s.map_values(|a: Adapter| a@)
}

/// An address in the network of the campus: 10.200.0.0/16 or 10.202.0.0/16.
pub open spec fn is_campus_ip(ip: Ipv4) -> bool {
    ip.a == 10 && (ip.b == 200 || ip.b == 202)
}

/// An adapter with an address in the network of the campus.
pub open spec fn on_campus(a: AdapterView) -> bool {
    exists|i: int| 0 <= i < a.ipv4.len() && is_campus_ip(#[trigger] a.ipv4[i])
}

/// The adapter that the system tells of. One without a name, or without an address that
/// can reach the portal, is left out.
pub open spec fn adapter_of(raw: RawAdapter) -> Option<AdapterView> {
    if utf16_text(raw.name@).len() == 0 || usable_addresses(raw.addresses@).len() == 0 {
        None
    } else {
        Some(
            AdapterView {
                name: utf16_text(raw.name@),
                desc: utf16_text(raw.desc@),
                mac: mac_text(raw.mac@),
                status: status_text(raw.oper_status as int),
                ipv4: usable_addresses(raw.addresses@),
            },
        )
    }
}

/// The adapters that the system tells of.
pub open spec fn listed_adapters(raw: Seq<RawAdapter>) -> Seq<AdapterView> {
    somes(raw.map_values(|a: RawAdapter| adapter_of(a)))
}

impl Adapter {
    /// Whether the adapter has an address in the network of the campus.
    pub fn is_campus(&self) -> (r: bool)
        ensures
            r == on_campus(self@),
    {
        let mut i: usize = 0;
        while i < self.ipv4.len()
            invariant
                i <= self.ipv4@.len(),
                forall|k: int| 0 <= k < i ==> !is_campus_ip(#[trigger] self.ipv4@[k]),
            decreases self.ipv4@.len() - i,
        {
            let ip = self.ipv4[i];
            if ip.a == 10 && (ip.b == 200 || ip.b == 202) {
                assert(is_campus_ip(self@.ipv4[i as int]));
                return true;
            }
            i += 1;
        }
        false
    }
}

/// The addresses of an adapter that can reach the portal.
fn addresses_of(addresses: &Vec<RawAddress>) -> (r: Vec<Ipv4>)
    ensures
        r@ == usable_addresses(addresses@),
{
    let ghost found = addresses@.map_values(|a: RawAddress| usable_ipv4(a));
    let mut out: Vec<Ipv4> = Vec::new();
    let mut i: usize = 0;
    assert(found.take(0) == Seq::<Option<Ipv4>>::empty());
    while i < addresses.len()
        invariant
            i <= addresses@.len(),
            found == addresses@.map_values(|a: RawAddress| usable_ipv4(a)),
            out@ == somes(found.take(i as int)),
        decreases addresses@.len() - i,
    {
        assert(found.take(i + 1).drop_last() == found.take(i as int));
        assert(found.take(i + 1).last() == usable_ipv4(addresses@[i as int]));
        if let Some(ip) = sockaddr_to_ipv4(&addresses[i]) {
            if !((ip.a == 169 && ip.b == 254) || ip.a == 127) {
                out.push(ip);
            }
        }
        i += 1;
    }
    assert(found.take(found.len() as int) == found);
    out
}

/// A hardware address as text.
fn text_of_mac(mac: &Vec<u8>) -> (r: String)
    ensures
        r@ == mac_text(mac@),
{
    let ghost views = mac@.map_values(|b: u8| byte_hex(b));
    let mut parts: Vec<String> = Vec::new();
    let mut i: usize = 0;
    assert(texts(parts@) == views.take(0));
    while i < mac.len()
        invariant
            i <= mac@.len(),
            views == mac@.map_values(|b: u8| byte_hex(b)),
            texts(parts@) == views.take(i as int),
        decreases mac@.len() - i,
    {
        let ghost before = texts(parts@);
        let b = mac[i];
        let mut part = String::new();
        part.push(upper_hex(b / 16));
        part.push(upper_hex(b % 16));
        assert(part@ == byte_hex(b));
        assert(views[i as int] == byte_hex(b));
        parts.push(part);
        assert(texts(parts@) == before.push(part@));
        i += 1;
        assert(texts(parts@) == views.take(i as int));
    }
    assert(views.take(views.len() as int) == views);
    join_texts(&parts, "-")
}

/// The name of an adapter's state.
fn status_name(oper_status: i32) -> (r: &'static str)
    ensures
        r@ == status_text(oper_status as int),
{
    if oper_status == 1 {
        "Up"
    } else if oper_status == 2 {
        "Down"
    } else if oper_status == 3 {
        "Testing"
    } else if oper_status == 5 {
        "Dormant"
    } else if oper_status == 6 {
        "NotPresent"
    } else if oper_status == 7 {
        "LowerLayerDown"
    } else {
        "Unknown"
    }
}

/// The adapters that the system tells of: those with a name and with an address that can
/// reach the portal, with those addresses alone.
pub fn list_adapters(raw: &[RawAdapter]) -> (r: Vec<Adapter>)
    ensures
        adapters_view(r@) == listed_adapters(raw@),
{
    let ghost found = raw@.map_values(|a: RawAdapter| adapter_of(a));
    let mut out: Vec<Adapter> = Vec::new();
    let mut i: usize = 0;
    assert(found.take(0) == Seq::<Option<AdapterView>>::empty());
    assert(adapters_view(out@) == somes(found.take(0)));
    while i < raw.len()
        invariant
            i <= raw@.len(),
            found == raw@.map_values(|a: RawAdapter| adapter_of(a)),
            adapters_view(out@) == somes(found.take(i as int)),
        decreases raw@.len() - i,
    {
        let ghost before = adapters_view(out@);
        let a = &raw[i];
        assert(found.take(i + 1).drop_last() == found.take(i as int));
        assert(found.take(i + 1).last() == adapter_of(*a));
        let name = text_of_utf16(&a.name);
        let ipv4 = addresses_of(&a.addresses);
        if !name.as_str().is_empty() && ipv4.len() > 0 {
            let adapter = Adapter {
                name,
                desc: text_of_utf16(&a.desc),
                mac: text_of_mac(&a.mac),
                status: status_name(a.oper_status).to_owned(),
                ipv4,
            };
            out.push(adapter);
            assert(adapters_view(out@) == before.push(adapter@));
        }
        i += 1;
    }
    assert(found.take(found.len() as int) == found);
    out
}

/// Adapters with a name, the case of letters aside.
pub open spec fn adapter_named(name: Seq<char>) -> spec_fn(AdapterView) -> bool {
    |a: AdapterView| same_ignoring_case_spec(a.name, name)
}

/// The first adapter with a name, the case of letters aside.
pub fn find_adapter<'a>(adapters: &'a [Adapter], name: &str) -> (r: Option<&'a Adapter>)
    ensures
        match first_where(adapters_view(adapters@), adapter_named(name@), 0) {
            Some(i) => r == Some(&adapters@[i]),
            None => r is None,
        },
{
    let ghost views = adapters_view(adapters@);
    let mut i: usize = 0;
    while i < adapters.len()
        invariant
            i <= adapters@.len(),
            views == adapters_view(adapters@),
            first_where(views, adapter_named(name@), 0) == first_where(
                views,
                adapter_named(name@),
                i as int,
            ),
        decreases adapters@.len() - i,
    {
        assert(views[i as int] == adapters@[i as int]@);
        if same_ignoring_case(&adapters[i].name, name) {
            return Some(&adapters[i]);
        }
        i += 1;
    }
    None
}

/// The first address of the first adapter with a name, the case of letters aside.
pub open spec fn adapter_ip(adapters: Seq<AdapterView>, name: Seq<char>) -> Option<Ipv4> {
    match first_where(adapters, adapter_named(name), 0) {
        Some(i) => if adapters[i].ipv4.len() > 0 {
            Some(adapters[i].ipv4[0])
        } else {
            None
        },
        None => None,
    }
}

/// The first address of the adapter with a name, the case of letters aside.
pub fn resolve_adapter_ip(adapters: &[Adapter], name: &str) -> (r: Option<Ipv4>)
    ensures
        r == adapter_ip(adapters_view(adapters@), name@),
{
    proof {
        lemma_first_where(adapters_view(adapters@), adapter_named(name@), 0);
    }
    match find_adapter(adapters, name) {
        Some(a) => if a.ipv4.len() > 0 {
            Some(a.ipv4[0])
        } else {
            None
        },
        None => None,
    }
}

/// Adapters on the campus.
pub open spec fn campus_adapter() -> spec_fn(AdapterView) -> bool {
    |a: AdapterView| on_campus(a)
}

/// Adapters that are wireless by their name, and have an address.
pub open spec fn wireless_adapter() -> spec_fn(AdapterView) -> bool {
    |a: AdapterView|
        (contains(lower(a.name), "wlan"@) || contains(lower(a.name), "wifi"@) || contains(
            a.name,
            "无线"@,
        )) && a.ipv4.len() > 0
}

/// The adapter to send from where none is named: the first on the campus, or else the
/// first that is wireless by its name.
pub open spec fn guessed_adapter(adapters: Seq<AdapterView>) -> Option<int> {
    if first_where(adapters, campus_adapter(), 0) is Some {
        first_where(adapters, campus_adapter(), 0)
    } else {
        first_where(adapters, wireless_adapter(), 0)
    }
}

/// Whether an adapter is wireless by its name.
fn sounds_wireless(name: &str) -> (r: bool)
    ensures
        r == (contains(lower(name@), "wlan"@) || contains(lower(name@), "wifi"@) || contains(
            name@,
            "无线"@,
        )),
{
    let chars = chars_of(name);
    let small = lower_chars(&chars);
    contains_text(&small, &chars_of("wlan")) || contains_text(&small, &chars_of("wifi"))
        || contains_text(&chars, &chars_of("无线"))
}

/// The adapter to send from where none is named: the first on the campus, or else the
/// first that is wireless by its name. It has an address.
pub fn guess_campus_adapter(adapters: &[Adapter]) -> (r: Option<&Adapter>)
    ensures
        match guessed_adapter(adapters_view(adapters@)) {
            Some(i) => r == Some(&adapters@[i]),
            None => r is None,
        },
        r matches Some(a) ==> a.ipv4@.len() > 0,
{
    let ghost views = adapters_view(adapters@);
    let mut i: usize = 0;
    while i < adapters.len()
        invariant
            i <= adapters@.len(),
            views == adapters_view(adapters@),
            first_where(views, campus_adapter(), 0) == first_where(
                views,
                campus_adapter(),
                i as int,
            ),
        decreases adapters@.len() - i,
    {
        assert(views[i as int] == adapters@[i as int]@);
        if adapters[i].is_campus() {
            return Some(&adapters[i]);
        }
        i += 1;
    }
    i = 0;
    while i < adapters.len()
        invariant
            i <= adapters@.len(),
            views == adapters_view(adapters@),
            first_where(views, campus_adapter(), 0) is None,
            first_where(views, wireless_adapter(), 0) == first_where(
                views,
                wireless_adapter(),
                i as int,
            ),
        decreases adapters@.len() - i,
    {
        assert(views[i as int] == adapters@[i as int]@);
        if adapters[i].ipv4.len() > 0 && sounds_wireless(&adapters[i].name) {
            return Some(&adapters[i]);
        }
        i += 1;
    }
    None
}

/// Addresses as text, with `sep` between them.
pub open spec fn ips_text(ips: Seq<Ipv4>, sep: Seq<char>) -> Seq<char> {
    joined(ips.map_values(|ip: Ipv4| ip_text(ip)), sep)
}

/// Addresses as text, with `sep` between them.
pub fn join_ips(ips: &Vec<Ipv4>, sep: &str) -> (r: String)
    ensures
        r@ == ips_text(ips@, sep@),
{
    let ghost views = ips@.map_values(|ip: Ipv4| ip_text(ip));
    let mut parts: Vec<String> = Vec::new();
    let mut i: usize = 0;
    assert(texts(parts@) == views.take(0));
    while i < ips.len()
        invariant
            i <= ips@.len(),
            views == ips@.map_values(|ip: Ipv4| ip_text(ip)),
            texts(parts@) == views.take(i as int),
        decreases ips@.len() - i,
    {
        let ghost before = texts(parts@);
        let part = ips[i].text();
        assert(views[i as int] == part@);
        parts.push(part);
        assert(texts(parts@) == before.push(part@));
        i += 1;
        assert(texts(parts@) == views.take(i as int));
    }
    assert(views.take(views.len() as int) == views);
    join_texts(&parts, sep)
}

// ---------------------------------------------------------------------------
// Laws
// ---------------------------------------------------------------------------

/// Every adapter that is listed can be used: it has a name and an address, and none of its
/// addresses is one that only this link or this machine knows.
pub proof fn law_listed_adapters_can_be_used(raw: Seq<RawAdapter>, i: int, k: int)
    requires
        0 <= i < listed_adapters(raw).len(),
        0 <= k < listed_adapters(raw)[i].ipv4.len(),
    ensures
        listed_adapters(raw)[i].name.len() > 0,
        listed_adapters(raw)[i].ipv4.len() > 0,
        !is_local_only(listed_adapters(raw)[i].ipv4[k]),
{
    let found = raw.map_values(|a: RawAdapter| adapter_of(a));
    let n = lemma_somes(found, i);
    assert(found[n] == adapter_of(raw[n]));
    let addresses = raw[n].addresses@;
    let usable = addresses.map_values(|a: RawAddress| usable_ipv4(a));
    let m = lemma_somes(usable, k);
    assert(usable[m] == usable_ipv4(addresses[m]));
}

/// An adapter on the campus is sent from before any other.
pub proof fn law_campus_comes_first(adapters: Seq<AdapterView>, k: int)
    requires
        0 <= k < adapters.len(),
        on_campus(adapters[k]),
    ensures
        guessed_adapter(adapters) matches Some(i) && 0 <= i <= k && on_campus(adapters[i]),
{
    lemma_first_where(adapters, campus_adapter(), 0);
    assert(campus_adapter()(adapters[k]));
}

} // verus!
