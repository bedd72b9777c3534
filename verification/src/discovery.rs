//! Finding other devices on the local network: what is announced of this one, and
//! what is made of the announcements of others.
use vstd::prelude::*;
use vstd::string::*;

use crate::codec::is_hex;
use crate::driver::commands::{is_pair_pin, is_pin};
use crate::driver::dialing::Advert;
use crate::net::{socket, IpAddr, SocketAddr};
use crate::text::{before_first, chars_of, same_text, split_first};
use crate::wire::{opt_view, views};

verus! {

/// Under which type of service the daemon announces itself.
pub const SERVICE_TYPE: &'static str = "_fluxsync._udp.local.";

/// The time between two attempts at browsing the network.
pub const DISCOVERY_RETRY: u64 = 2_000;

/// What happened on the network.
#[derive(Debug)]
pub enum DiscoveryEvent {
    /// A device announced itself.
    Resolved {
        peer_id_hex: String,
        static_pub_hex: String,
        name: String,
        addr: SocketAddr,
        /// The code under which it can be paired with, while it shows one.
        pair_pin: Option<String>,
    },
    /// An announcement ended.
    Removed { fullname: String },
}

/// View of a [`DiscoveryEvent`].
#[verifier::ext_equal]
pub ghost enum DiscoveryView {
    Resolved {
        peer_id_hex: Seq<char>,
        static_pub_hex: Seq<char>,
        name: Seq<char>,
        addr: SocketAddr,
        pair_pin: Option<Seq<char>>,
    },
    Removed { fullname: Seq<char> },
}

impl View for DiscoveryEvent {
    type V = DiscoveryView;

    open spec fn view(&self) -> DiscoveryView {
        match *self {
            DiscoveryEvent::Resolved { peer_id_hex, static_pub_hex, name, addr, pair_pin } =>
                DiscoveryView::Resolved {
                peer_id_hex: peer_id_hex@,
                static_pub_hex: static_pub_hex@,
                name: name@,
                addr,
                pair_pin: opt_view(pair_pin),
            },
            DiscoveryEvent::Removed { fullname } => DiscoveryView::Removed { fullname: fullname@ },
        }
    }
}

/// 64 hexadecimal digits.
pub open spec fn hex_id(s: Seq<char>) -> bool {
    s.len() == 64 && forall|i: int| 0 <= i < s.len() ==> hex_char(#[trigger] s[i])
}

/// A hexadecimal digit.
pub open spec fn hex_char(c: char) -> bool {
    '0' <= c <= '9' || 'a' <= c <= 'f' || 'A' <= c <= 'F'
}

/// Decides whether a text is an id in hexadecimal.
pub fn is_valid_hex_id(s: &str) -> (r: bool)
    ensures
        r == hex_id(s@),
{
    let cs = chars_of(s);
    if cs.len() != 64 {
        return false;
    }
    let mut i: usize = 0;
    while i < cs.len()
        invariant
            i <= cs@.len(),
            cs@ == s@,
            forall|j: int| 0 <= j < i ==> hex_char(#[trigger] s@[j]),
        decreases cs@.len() - i,
    {
        let c = cs[i];
        let digit = ('0' <= c && c <= '9') || ('a' <= c && c <= 'f') || ('A' <= c && c <= 'F');
        if !digit {
            assert(!hex_char(s@[i as int]));
            return false;
        }
        i = i + 1;
    }
    true
}

/// What passes as an id here is one that can be read.
pub proof fn valid_ids_can_be_read(s: Seq<char>)
    requires
        hex_id(s),
    ensures
        crate::driver::resync::id_of_text(s) is Ok,
{
    assert forall|i: int| 0 <= i < s.len() implies (#[trigger] crate::codec::hex_value(s[i])) is Some by {
        assert(hex_char(s[i]));
    }
    assert(is_hex(s));
}

/// The announcement of a service, as it was resolved.
#[derive(Debug)]
pub struct ServiceRecord {
    /// Its properties, those that are texts.
    pub peer_id: Option<String>,
    pub static_pub: Option<String>,
    pub pair_pin: Option<String>,
    /// The first of its addresses.
    pub ip: Option<IpAddr>,
    pub port: u16,
    pub fullname: String,
}

/// A pairing code, if it is one.
pub open spec fn sound_pin(pin: Option<Seq<char>>) -> Option<Seq<char>> {
    match pin {
        Some(p) => if is_pin(p) {
            Some(p)
        } else {
            None
        },
        None => None,
    }
}

/// What an announcement comes to: nothing where it is this device's own, or lacks
/// an id, a key or an address.
pub open spec fn resolved(own_id: Seq<char>, s: ServiceRecord) -> Option<DiscoveryView> {
    match (s.peer_id, s.static_pub, s.ip) {
        (Some(peer_id), Some(static_pub), Some(ip)) => if peer_id@ != own_id && hex_id(peer_id@)
            && hex_id(static_pub@) {
            Some(
                DiscoveryView::Resolved {
                    peer_id_hex: peer_id@,
                    static_pub_hex: static_pub@,
                    name: before_first(s.fullname@, '.'),
                    addr: socket(ip, s.port),
                    pair_pin: sound_pin(opt_view(s.pair_pin)),
                },
            )
        } else {
            None
        },
        _ => None,
    }
}

/// Computes [`resolved`].
pub fn resolve_service(own_id: &str, record: ServiceRecord) -> (r: Option<DiscoveryEvent>)
    ensures
        opt_view(r) == resolved(own_id@, record),
{
    match (record.peer_id, record.static_pub, record.ip) {
        (Some(peer_id), Some(static_pub), Some(ip)) => {
            if same_text(peer_id.as_str(), own_id) || !is_valid_hex_id(peer_id.as_str())
                || !is_valid_hex_id(static_pub.as_str()) {
                return None;
            }
            let (name, _) = split_first(record.fullname.as_str(), '.');
            let pair_pin = match record.pair_pin {
                Some(p) => if is_pair_pin(p.as_str()) {
                    Some(p)
                } else {
                    None
                },
                None => None,
            };
            Some(
                DiscoveryEvent::Resolved {
                    peer_id_hex: peer_id,
                    static_pub_hex: static_pub,
                    name,
                    addr: SocketAddr::new(ip, record.port),
                    pair_pin,
                },
            )
        },
        _ => None,
    }
}

/// An announcement as the daemon takes it in.
pub fn advert_of(
    peer_id_hex: String,
    static_pub_hex: String,
    name: String,
    addr: SocketAddr,
    pair_pin: Option<String>,
) -> (r: Advert)
    ensures
        r.peer_id_hex == peer_id_hex,
        r.static_pub_hex == static_pub_hex,
        r.name == name,
        r.addrs@ == seq![addr],
        r.pair_pin == pair_pin,
{
    let mut addrs: Vec<SocketAddr> = Vec::new();
    addrs.push(addr);
    assert(addrs@ =~= seq![addr]);
    Advert { peer_id_hex, static_pub_hex, name, addrs, pair_pin }
}

/// A property of an announcement.
#[derive(Debug)]
pub struct Property {
    pub key: String,
    pub value: String,
}

/// View of a [`Property`].
#[verifier::ext_equal]
pub ghost struct PropertyView {
    pub key: Seq<char>,
    pub value: Seq<char>,
}

impl View for Property {
    type V = PropertyView;

    open spec fn view(&self) -> PropertyView {
        PropertyView { key: self.key@, value: self.value@ }
    }
}

/// What this device announces of itself.
pub open spec fn announced(
    peer_id_hex: Seq<char>,
    static_pub_hex: Seq<char>,
    pair_pin: Option<Seq<char>>,
) -> Seq<PropertyView> {
    let id = seq![
        PropertyView { key: "peer_id"@, value: peer_id_hex },
        PropertyView { key: "static_pub"@, value: static_pub_hex },
    ];
    match pair_pin {
        Some(p) => id.push(PropertyView { key: "pair_pin"@, value: p }),
        None => id,
    }
}

/// Computes [`announced`].
pub fn service_properties(peer_id_hex: &str, static_pub_hex: &str, pair_pin: &Option<String>) -> (r: Vec<
    Property,
>)
    ensures
        views(r@) == announced(peer_id_hex@, static_pub_hex@, opt_view(*pair_pin)),
{
    let mut r: Vec<Property> = Vec::new();
    r.push(Property { key: "peer_id".to_owned(), value: peer_id_hex.to_owned() });
    r.push(Property { key: "static_pub".to_owned(), value: static_pub_hex.to_owned() });
    if let Some(p) = pair_pin {
        r.push(Property { key: "pair_pin".to_owned(), value: p.clone() });
    }
    assert(views(r@) =~= announced(peer_id_hex@, static_pub_hex@, opt_view(*pair_pin)));
    r
}

/// The host name under which an instance is announced.
pub fn host_name(instance: &str) -> (r: String)
    ensures
        r@ == instance@ + ".local."@,
{
    let mut r = instance.to_owned();
    r.append(".local.");
    r
}

/// What this device announces, another makes out of it again: its id, its key, and
/// the code while it shows one.
pub proof fn announcement_is_understood(
    own_id: Seq<char>,
    s: ServiceRecord,
    peer_id: Seq<char>,
    static_pub: Seq<char>,
    pair_pin: Option<Seq<char>>,
)
    requires
        hex_id(peer_id),
        hex_id(static_pub),
        pair_pin matches Some(p) ==> is_pin(p),
        opt_view(s.peer_id) == Some(peer_id),
        opt_view(s.static_pub) == Some(static_pub),
        opt_view(s.pair_pin) == pair_pin,
        s.ip is Some,
        peer_id != own_id,
    ensures
        resolved(own_id, s) matches Some(e) && e->peer_id_hex == peer_id && e->static_pub_hex
            == static_pub && e->pair_pin == pair_pin,
{
}

/// A device that announces itself is known by the first part of its name, at its first
/// address and its port. This device's own announcement, and one without an id, a key or
/// an address, come to nothing; a code that is none is left out.
pub proof fn announced_device_is_known(
    own_id: Seq<char>,
    s: ServiceRecord,
    name: Seq<char>,
    rest: Seq<char>,
)
    requires
        s.fullname@ == name + seq!['.'] + rest,
        !name.contains('.'),
    ensures
        resolved(own_id, s) is Some <==> {
            &&& s.ip is Some
            &&& s.peer_id matches Some(p) && hex_id(p@) && p@ != own_id
            &&& s.static_pub matches Some(k) && hex_id(k@)
        },
        resolved(own_id, s) matches Some(e) ==> (e matches DiscoveryView::Resolved {
            peer_id_hex,
            static_pub_hex,
            name: known,
            addr,
            pair_pin,
        } && {
            &&& peer_id_hex == (s.peer_id->0)@ && static_pub_hex == (s.static_pub->0)@
            &&& known == name
            &&& addr == socket(s.ip->0, s.port)
            &&& pair_pin == match s.pair_pin {
                Some(p) if is_pin(p@) => Some(p@),
                _ => None,
            }
        }),
{
    let full = s.fullname@;
    assert forall|j: int| 0 <= j < name.len() implies full[j] != '.' by {
        assert(name[j] != '.');
    }
    crate::text::lemma_first_at(full, '.', name.len() as int);
    assert(before_first(full, '.') =~= name);
}

/// What is announced of this device is its id and its key, and a pairing code while there
/// is one.
pub proof fn device_announces_itself(
    peer_id: Seq<char>,
    static_pub: Seq<char>,
    pin: Option<Seq<char>>,
    value: Seq<char>,
)
    ensures
        ({
            let all = announced(peer_id, static_pub, pin);
            &&& all.contains(PropertyView { key: "peer_id"@, value: peer_id })
            &&& all.contains(PropertyView { key: "static_pub"@, value: static_pub })
            &&& all.contains(PropertyView { key: "pair_pin"@, value }) == (pin == Some(value))
        }),
{
    reveal_strlit("peer_id");
    reveal_strlit("static_pub");
    reveal_strlit("pair_pin");
    let all = announced(peer_id, static_pub, pin);
    assert(all[0] == PropertyView { key: "peer_id"@, value: peer_id });
    assert(all[1] == PropertyView { key: "static_pub"@, value: static_pub });
    assert("pair_pin"@[1] != "peer_id"@[1]);
    assert("pair_pin"@[1] != "static_pub"@[1]);
    if pin == Some(value) {
        assert(all[2] == PropertyView { key: "pair_pin"@, value });
    }
}

/// Every id, written out, passes as one.
pub proof fn written_ids_are_valid(id: crate::ids::Id)
    ensures
        hex_id(crate::codec::hex_text(id@)),
{
    let s = crate::codec::hex_text(id@);
    assert forall|i: int| 0 <= i < s.len() implies hex_char(#[trigger] s[i]) by {
        let n = if i % 2 == 0 {
            id@[i / 2] as int / 16
        } else {
            id@[i / 2] as int % 16
        };
        assert(0 <= n < 16);
    }
}

} // verus!
