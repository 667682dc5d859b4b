//! Which adapter to send from, and what is known of it.
use vstd::prelude::*;
use crate::common::upper_hex_digit;
use crate::ipv4::{ip_text, Ipv4};
use crate::laws::text::{is_free_of, law_contained_or_free, law_joined_one_by_one};
use crate::net::{
    adapter_ip, adapter_named, adapter_of, byte_hex, campus_adapter, guessed_adapter, ips_text,
    is_campus_ip, mac_text, on_campus, status_text, usable_addresses, usable_ipv4, wireless_adapter,
    AdapterView, RawAdapter, RawAddress,
};
use crate::text::{digit_value, digits_value, first_where, lemma_first_where, lower};
use crate::utf16::utf16_text;

verus! {

// ---------------------------------------------------------------------------
// The campus
// ---------------------------------------------------------------------------

/// An adapter that holds an address of the campus is on the campus, whatever the last two
/// numbers of the address and whatever other addresses it holds.
pub proof fn law_campus_address_is_on_campus(a: AdapterView, i: int, b: u8, c: u8, d: u8)
    requires
        0 <= i < a.ipv4.len(),
        b == 200 || b == 202,
        a.ipv4[i] == (Ipv4 { a: 10, b, c, d }),
    ensures
        on_campus(a),
{
    assert(is_campus_ip(a.ipv4[i]));
}

/// An adapter whose addresses all begin otherwise is not on the campus.
pub proof fn law_other_address_is_off_campus(a: AdapterView)
    requires
        forall|i: int|
            0 <= i < a.ipv4.len() ==> (#[trigger] a.ipv4[i]).a != 10 || (a.ipv4[i].b != 200
                && a.ipv4[i].b != 202),
    ensures
        !on_campus(a),
{
}

/// Of several adapters, the first that holds an address of the campus is the one to send
/// from.
pub proof fn law_first_campus_adapter_is_chosen(adapters: Seq<AdapterView>, k: int, i: int)
    requires
        0 <= k < adapters.len(),
        0 <= i < adapters[k].ipv4.len(),
        adapters[k].ipv4[i].a == 10,
        adapters[k].ipv4[i].b == 200 || adapters[k].ipv4[i].b == 202,
        forall|j: int, n: int|
            0 <= j < k && 0 <= n < adapters[j].ipv4.len() ==> (#[trigger] adapters[j].ipv4[n]).a
                != 10 || (adapters[j].ipv4[n].b != 200 && adapters[j].ipv4[n].b != 202),
    ensures
        guessed_adapter(adapters) == Some(k),
{
    lemma_first_where(adapters, campus_adapter(), 0);
    assert(is_campus_ip(adapters[k].ipv4[i]));
    assert(campus_adapter()(adapters[k]));
    let f = first_where(adapters, campus_adapter(), 0)->0;
    if f < k {
        assert(campus_adapter()(adapters[f]));
        let n = choose|n: int| 0 <= n < adapters[f].ipv4.len() && is_campus_ip(
            #[trigger] adapters[f].ipv4[n],
        );
        assert(adapters[f].ipv4[n].a != 10 || adapters[f].ipv4[n].b != 200);
    }
    if f > k {
        assert(!campus_adapter()(adapters[k]));
    }
}

/// A name speaks of a wireless network.
pub open spec fn speaks_of_wireless(name: Seq<char>) -> bool {
    !is_free_of(lower(name), "wlan"@) || !is_free_of(lower(name), "wifi"@) || !is_free_of(
        name,
        "无线"@,
    )
}

/// Without an adapter on the campus, the first with an address whose name speaks of a
/// wireless network is the one; without that, none is.
pub proof fn law_wireless_adapter_comes_second(adapters: Seq<AdapterView>, k: int)
    requires
        forall|j: int, n: int|
            0 <= j < adapters.len() && 0 <= n < adapters[j].ipv4.len()
                ==> (#[trigger] adapters[j].ipv4[n]).a != 10 || (adapters[j].ipv4[n].b != 200
                && adapters[j].ipv4[n].b != 202),
        0 <= k <= adapters.len(),
        forall|j: int|
            0 <= j < k ==> (#[trigger] adapters[j]).ipv4.len() == 0 || !speaks_of_wireless(
                adapters[j].name,
            ),
        k < adapters.len() ==> adapters[k].ipv4.len() > 0 && speaks_of_wireless(adapters[k].name),
    ensures
        guessed_adapter(adapters) == (if k < adapters.len() {
            Some(k)
        } else {
            None
        }),
{
    lemma_first_where(adapters, campus_adapter(), 0);
    if let Some(f) = first_where(adapters, campus_adapter(), 0) {
        assert(campus_adapter()(adapters[f]));
        let n = choose|n: int| 0 <= n < adapters[f].ipv4.len() && is_campus_ip(
            #[trigger] adapters[f].ipv4[n],
        );
        assert(adapters[f].ipv4[n].a != 10 || adapters[f].ipv4[n].b != 200);
        assert(false);
    }
    lemma_first_where(adapters, wireless_adapter(), 0);
    assert forall|j: int| 0 <= j < adapters.len() implies wireless_adapter()(
        #[trigger] adapters[j],
    ) == (adapters[j].ipv4.len() > 0 && speaks_of_wireless(adapters[j].name)) by {
        let name = adapters[j].name;
        law_contained_or_free(lower(name), "wlan"@);
        law_contained_or_free(lower(name), "wifi"@);
        law_contained_or_free(name, "无线"@);
    }
    if k < adapters.len() {
        assert(wireless_adapter()(adapters[k]));
    }
    if let Some(f) = first_where(adapters, wireless_adapter(), 0) {
        assert(wireless_adapter()(adapters[f]));
        if f > k {
            assert(!wireless_adapter()(adapters[k]));
        }
    }
}

/// The address of an adapter that is named, in letters of either case, is its first; a name
/// that no adapter has gives none.
pub proof fn law_named_adapter_gives_its_first_address(
    adapters: Seq<AdapterView>,
    k: int,
    name: Seq<char>,
)
    requires
        0 <= k <= adapters.len(),
        forall|j: int| 0 <= j < k ==> lower((#[trigger] adapters[j]).name) != lower(name),
        k < adapters.len() ==> lower(adapters[k].name) == lower(name) && adapters[k].ipv4.len() > 0,
    ensures
        adapter_ip(adapters, name) == (if k < adapters.len() {
            Some(adapters[k].ipv4[0])
        } else {
            None
        }),
{
    let p = adapter_named(name);
    lemma_first_where(adapters, p, 0);
    if k < adapters.len() {
        assert(p(adapters[k]));
    }
    if let Some(f) = first_where(adapters, p, 0) {
        assert(p(adapters[f]));
        if f > k {
            assert(!p(adapters[k]));
        }
    }
}

// ---------------------------------------------------------------------------
// What the system tells
// ---------------------------------------------------------------------------

/// An address of the fourth version is the four bytes behind the port. It is of use unless
/// it is of this link or of this machine alone.
pub proof fn law_address_is_read(raw: RawAddress)
    ensures
        raw.family == 2 && raw.data@[2] != 127 && !(raw.data@[2] == 169 && raw.data@[3] == 254)
            ==> usable_ipv4(raw) == Some(
            Ipv4 { a: raw.data@[2], b: raw.data@[3], c: raw.data@[4], d: raw.data@[5] },
        ),
        raw.family != 2 || raw.data@[2] == 127 || (raw.data@[2] == 169 && raw.data@[3] == 254)
            ==> usable_ipv4(raw) is None,
{
}

/// The addresses of an adapter that are of use are kept, in their order.
pub proof fn law_usable_addresses_are_kept(addresses: Seq<RawAddress>, next: RawAddress)
    ensures
        usable_ipv4(next) matches Some(ip) ==> usable_addresses(addresses.push(next))
            == usable_addresses(addresses).push(ip),
        usable_ipv4(next) is None ==> usable_addresses(addresses.push(next)) == usable_addresses(
            addresses,
        ),
{
    let read = |a: RawAddress| usable_ipv4(a);
    let found = addresses.push(next).map_values(read);
    assert(found.drop_last() == addresses.map_values(read));
    assert(found.last() == usable_ipv4(next));
}

/// An adapter with a name and an address of use is listed with what the system tells of it.
pub proof fn law_adapter_is_listed(raw: RawAdapter)
    requires
        utf16_text(raw.name@).len() > 0,
        usable_addresses(raw.addresses@).len() > 0,
    ensures
        adapter_of(raw) matches Some(a) && a.name == utf16_text(raw.name@) && a.desc == utf16_text(
            raw.desc@,
        ) && a.ipv4 == usable_addresses(raw.addresses@) && a.mac == mac_text(raw.mac@)
            && (raw.oper_status == 1 ==> a.status == "Up"@) && (raw.oper_status == 2 ==> a.status
            == "Down"@),
{
}

/// The text of a hardware address holds its bytes, two digits for each.
pub proof fn law_hardware_address_is_written(mac: Seq<u8>, b: u8)
    ensures
        mac_text(seq![b]) == byte_hex(b),
        mac.len() > 0 ==> mac_text(seq![b] + mac) == byte_hex(b) + "-"@ + mac_text(mac),
        mac_text(Seq::empty()) == Seq::<char>::empty(),
        byte_hex(b).len() == 2,
        digits_value(byte_hex(b), 16) == Some(b as int),
        forall|i: int| 0 <= i < 2 ==> !('a' <= #[trigger] byte_hex(b)[i] && byte_hex(b)[i] <= 'z'),
{
    let hex = |x: u8| byte_hex(x);
    assert(seq![b].map_values(hex) == seq![byte_hex(b)]);
    assert((seq![b] + mac).map_values(hex) == seq![byte_hex(b)] + mac.map_values(hex));
    assert((seq![byte_hex(b)] + mac.map_values(hex)).skip(1) == mac.map_values(hex));
    assert(Seq::<u8>::empty().map_values(hex) == Seq::<Seq<char>>::empty());
    let (h, l) = (b as int / 16, b as int % 16);
    let s = byte_hex(b);
    assert(s.drop_last() == seq![upper_hex_digit(h)]);
    assert(s.drop_last().drop_last() == Seq::<char>::empty());
    assert(digits_value(s.drop_last().drop_last(), 16) == Some(0int));
    assert(digit_value(upper_hex_digit(h), 16) == Some(h));
    assert(digit_value(upper_hex_digit(l), 16) == Some(l));
    assert(digits_value(s.drop_last(), 16) == Some(h));
}

/// Each state of an adapter has its name, and one that has none is unknown.
pub proof fn law_state_is_named(state: int)
    ensures
        status_text(1) == "Up"@,
        status_text(2) == "Down"@,
        status_text(3) == "Testing"@,
        status_text(5) == "Dormant"@,
        status_text(6) == "NotPresent"@,
        status_text(7) == "LowerLayerDown"@,
        state <= 0 || state == 4 || state > 7 ==> status_text(state) == "Unknown"@,
{
}

/// Addresses are written one after the other, with the separator between them.
pub proof fn law_addresses_are_written(ip: Ipv4, rest: Seq<Ipv4>, sep: Seq<char>)
    ensures
        ips_text(seq![ip], sep) == ip_text(ip),
        rest.len() > 0 ==> ips_text(seq![ip] + rest, sep) == ip_text(ip) + sep + ips_text(
            rest,
            sep,
        ),
        ips_text(Seq::empty(), sep) == Seq::<char>::empty(),
{
    let write = |x: Ipv4| ip_text(x);
    assert(seq![ip].map_values(write) =~= seq![ip_text(ip)]);
    assert((seq![ip] + rest).map_values(write) =~= seq![ip_text(ip)] + rest.map_values(write));
    assert(Seq::<Ipv4>::empty().map_values(write) =~= Seq::<Seq<char>>::empty());
    law_joined_one_by_one(ip_text(ip), rest.map_values(write), sep);
}

} // verus!
