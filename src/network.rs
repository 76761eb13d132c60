//! Subnets, the host's interfaces, and the search for the interface that
//! reaches a device.
use crate::keepalive::{is_virtual_cdj_of, virtual_cdj, Device};
use crate::protocol::{Ipv4Address, MacAddr};
use std::collections::HashMap;
use vstd::prelude::*;

verus! {

/// The mask of the leading `prefix` bits, as `Ipv4Network::contains` of
/// ipnetwork builds it.
pub open spec fn prefix_mask(prefix: u8) -> u32 {
    (!(0xffff_ffffu64 >> (prefix as u64))) as u32
}

/// Whether the network `net`/`prefix` holds the address `addr`: both agree on
/// the leading `prefix` bits.
pub open spec fn subnet_contains(net: u32, prefix: u8, addr: u32) -> bool {
    (addr & prefix_mask(prefix)) == (net & prefix_mask(prefix))
}

/// Relies on ipnetwork's `Ipv4Network::new_checked` and `Ipv4Network::contains`:
/// a prefix of at most 32 bits makes a network, which holds an address when
/// the two agree under the prefix mask.
#[verifier::external_body]
fn ipv4_network_contains(net: u32, prefix: u8, addr: u32) -> (r: bool)
    requires
        prefix <= 32,
    ensures
        r == subnet_contains(net, prefix, addr),
{
    match ipnetwork::Ipv4Network::new_checked(net.into(), prefix) {
        Some(n) => n.contains(addr.into()),
        None => false,
    }
}

/// An IPv4 network: an address and a prefix length of at most 32 bits.
#[derive(Debug, Clone, Copy, PartialEq, Eq, Structural)]
pub struct Ipv4Net {
    addr: Ipv4Address,
    prefix: u8,
}

impl Ipv4Net {
    #[verifier::type_invariant]
    spec fn inv(self) -> bool {
        self.prefix <= 32
    }

    /// The address that the network was made with.
    pub closed spec fn spec_ip(self) -> Ipv4Address {
        self.addr
    }

    /// The prefix length.
    pub closed spec fn spec_prefix(self) -> u8 {
        self.prefix
    }

    /// Whether the network holds `a`.
    pub open spec fn spec_contains(self, a: Ipv4Address) -> bool {
        subnet_contains(self.spec_ip().bits, self.spec_prefix(), a.bits)
    }

    /// The network `addr`/`prefix`; `None` when the prefix is longer than 32.
    pub fn new(addr: Ipv4Address, prefix: u8) -> (r: Option<Ipv4Net>)
        ensures
            r is Some <==> prefix <= 32,
            r matches Some(n) ==> n.spec_ip() == addr && n.spec_prefix() == prefix,
    {
        if prefix <= 32 {
            Some(Ipv4Net { addr, prefix })
        } else {
            None
        }
    }

    pub fn ip(&self) -> (r: Ipv4Address)
        ensures
            r == self.spec_ip(),
    {
        self.addr
    }

    pub fn prefix(&self) -> (r: u8)
        ensures
            r == self.spec_prefix(),
            r <= 32,
    {
        proof {
            use_type_invariant(self);
        }
        self.prefix
    }

    /// Whether the network holds `a`.
    pub fn contains(&self, a: Ipv4Address) -> (r: bool)
        ensures
            r == self.spec_contains(a),
    {
        proof {
            use_type_invariant(self);
        }
        ipv4_network_contains(self.addr.bits, self.prefix, a.bits)
    }
}

/// A subnet configured on a host interface, with that interface's hardware
/// address.
#[derive(Debug, Clone, Copy, PartialEq, Eq, Structural)]
pub struct NetworkInterface {
    pub ip_network: Ipv4Net,
    pub mac: MacAddr,
}

/// A host interface as the operating system lists it: its hardware address,
/// if it has one, and its configured IPv4 networks in the order listed.
#[derive(Debug, PartialEq, Eq)]
pub struct HostInterface {
    pub mac: Option<MacAddr>,
    pub networks: Vec<Ipv4Net>,
}

/// The subnets that one interface offers, each paired with its hardware
/// address; none when it has no hardware address.
pub open spec fn interface_candidates(h: HostInterface) -> Seq<NetworkInterface> {
    match h.mac {
        Some(m) => h.networks@.map_values(|n: Ipv4Net| NetworkInterface { ip_network: n, mac: m }),
        None => Seq::empty(),
    }
}

/// The subnets of all interfaces, interface by interface, in the order listed.
pub open spec fn candidates(ifs: Seq<HostInterface>) -> Seq<NetworkInterface>
    decreases ifs.len(),
{
    if ifs.len() == 0 {
        Seq::empty()
    } else {
        candidates(ifs.drop_last()) + interface_candidates(ifs.last())
    }
}

/// The first of `c` whose subnet holds `addr`.
pub open spec fn first_owning(c: Seq<NetworkInterface>, addr: Ipv4Address) -> Option<NetworkInterface>
    decreases c.len(),
{
    if c.len() == 0 {
        None
    } else if c[0].ip_network.spec_contains(addr) {
        Some(c[0])
    } else {
        first_owning(c.drop_first(), addr)
    }
}

/// The interface subnet that reaches `addr`, searched over `ifs`.
pub open spec fn owning_interface(ifs: Seq<HostInterface>, addr: Ipv4Address) -> Option<
    NetworkInterface,
> {
    first_owning(candidates(ifs), addr)
}

proof fn lemma_first_owning(c: Seq<NetworkInterface>, addr: Ipv4Address)
    ensures
        first_owning(c, addr) is None <==> forall|i: int|
            0 <= i < c.len() ==> !(#[trigger] c[i]).ip_network.spec_contains(addr),
        first_owning(c, addr) matches Some(n) ==> exists|i: int|
            0 <= i < c.len() && c[i] == n && n.ip_network.spec_contains(addr) && forall|j: int|
                0 <= j < i ==> !(#[trigger] c[j]).ip_network.spec_contains(addr),
    decreases c.len(),
{
    if c.len() > 0 {
        lemma_first_owning(c.drop_first(), addr);
        if !c[0].ip_network.spec_contains(addr) {
            assert forall|i: int| 1 <= i < c.len() implies c[i] == c.drop_first()[i - 1] by {}
            if first_owning(c, addr) is None {
                assert forall|i: int| 0 <= i < c.len() implies !(#[trigger] c[i]).ip_network.spec_contains(addr) by {
                    if i > 0 {
                        assert(c[i] == c.drop_first()[i - 1]);
                    }
                }
            } else {
                let n = first_owning(c, addr)->Some_0;
                let k = choose|k: int|
                    0 <= k < c.drop_first().len() && c.drop_first()[k] == n
                        && n.ip_network.spec_contains(addr) && forall|j: int|
                        0 <= j < k ==> !(#[trigger] c.drop_first()[j]).ip_network.spec_contains(addr);
                assert forall|j: int| 0 <= j < k + 1 implies !(#[trigger] c[j]).ip_network.spec_contains(addr) by {
                    if j > 0 {
                        assert(c[j] == c.drop_first()[j - 1]);
                    }
                }
                assert(c[k + 1] == n);
            }
        }
    }
}

/// No subnet is found exactly when no subnet of an interface with a hardware
/// address holds the address; otherwise the one found holds it, and no
/// subnet listed before it does.
pub proof fn lemma_owning_interface(ifs: Seq<HostInterface>, addr: Ipv4Address)
    ensures
        owning_interface(ifs, addr) is None <==> forall|i: int|
            0 <= i < candidates(ifs).len() ==> !(#[trigger] candidates(ifs)[i]).ip_network.spec_contains(addr),
        owning_interface(ifs, addr) matches Some(n) ==> exists|i: int|
            0 <= i < candidates(ifs).len() && candidates(ifs)[i] == n && n.ip_network.spec_contains(addr)
                && forall|j: int|
                0 <= j < i ==> !(#[trigger] candidates(ifs)[j]).ip_network.spec_contains(addr),
{
    lemma_first_owning(candidates(ifs), addr);
}

/// Every subnet of every interface that has a hardware address, in the order
/// listed, with that address.
pub fn interface_networks(ifs: &Vec<HostInterface>) -> (r: Vec<NetworkInterface>)
    ensures
        r@ == candidates(ifs@),
{
    let mut out: Vec<NetworkInterface> = Vec::new();
    let mut i: usize = 0;
    while i < ifs.len()
        invariant
            i <= ifs@.len(),
            out@ == candidates(ifs@.subrange(0, i as int)),
        decreases ifs@.len() - i,
    {
        let h = &ifs[i];
        assert(ifs@.subrange(0, i + 1).drop_last() == ifs@.subrange(0, i as int));
        assert(ifs@.subrange(0, i + 1).last() == *h);
        match h.mac {
            Some(m) => {
                let ghost before = out@;
                let mut j: usize = 0;
                while j < h.networks.len()
                    invariant
                        j <= h.networks@.len(),
                        out@ == before + h.networks@.subrange(0, j as int).map_values(
                            |n: Ipv4Net| NetworkInterface { ip_network: n, mac: m },
                        ),
                    decreases h.networks@.len() - j,
                {
                    out.push(NetworkInterface { ip_network: h.networks[j], mac: m });
                    proof {
                        assert(h.networks@.subrange(0, j + 1) == h.networks@.subrange(0, j as int)
                            + seq![h.networks@[j as int]]);
                        assert(out@ =~= before + h.networks@.subrange(0, j + 1).map_values(
                            |n: Ipv4Net| NetworkInterface { ip_network: n, mac: m },
                        ));
                    }
                    j = j + 1;
                }
                assert(h.networks@.subrange(0, j as int) == h.networks@);
            },
            None => {
                assert(out@ =~= candidates(ifs@.subrange(0, i as int)) + interface_candidates(*h));
            },
        }
        i = i + 1;
    }
    assert(ifs@.subrange(0, i as int) == ifs@);
    out
}

/// The first subnet, over the interfaces that have a hardware address and in
/// the order listed, that holds `address`; `None` when none does.
pub fn find_ipv4_network_interface(ifs: &Vec<HostInterface>, address: &Ipv4Address) -> (r: Option<
    NetworkInterface,
>)
    ensures
        r == owning_interface(ifs@, *address),
{
    let c = interface_networks(ifs);
    let mut i: usize = 0;
    assert(c@.subrange(0, c@.len() as int) == c@);
    while i < c.len()
        invariant
            i <= c@.len(),
            c@ == candidates(ifs@),
            first_owning(c@, *address) == first_owning(c@.subrange(i as int, c@.len() as int), *address),
        decreases c@.len() - i,
    {
        let n = c[i];
        assert(c@.subrange(i as int, c@.len() as int)[0] == n);
        assert(c@.subrange(i as int, c@.len() as int).drop_first() == c@.subrange(i + 1, c@.len() as int));
        if n.ip_network.contains(*address) {
            assert(first_owning(c@.subrange(i as int, c@.len() as int), *address) == Some(n));
            return Some(n);
        }
        i = i + 1;
    }
    None
}

/// The registry of known devices, keyed by player number.
pub struct DeviceManager {
    pub devices: HashMap<u8, Device>,
}

impl DeviceManager {
    /// An empty registry.
    pub fn new() -> (r: DeviceManager)
        ensures
            r.devices@ == Map::<u8, Device>::empty(),
    {
        DeviceManager { devices: HashMap::new() }
    }

    /// Stores `device` under its identifier, replacing whatever was there.
    pub fn insert(&mut self, device: Device)
        ensures
            final(self).devices@ == old(self).devices@.insert(device.id, device),
    {
        broadcast use vstd::std_specs::hash::group_hash_axioms;

        self.devices.insert(device.id, device);
    }

    /// Whether a device with the identifier of `device` is known.
    pub fn contains(&self, device: &Device) -> (r: bool)
        ensures
            r == self.devices@.contains_key(device.id),
    {
        broadcast use vstd::std_specs::hash::group_hash_axioms;

        self.devices.contains_key(&device.id)
    }

    /// The device known under `id`.
    pub fn get(&self, id: u8) -> (r: Option<&Device>)
        ensures
            match r {
                Some(d) => self.devices@.contains_key(id) && *d == self.devices@[id],
                None => !self.devices@.contains_key(id),
            },
    {
        broadcast use vstd::std_specs::hash::group_hash_axioms;

        self.devices.get(&id)
    }
}

/// Storing two devices with the same identifier one after the other leaves
/// only the second: the entry is replaced, not merged.
pub proof fn lemma_insert_last_wins(devices: Map<u8, Device>, first: Device, second: Device)
    requires
        first.id == second.id,
    ensures
        devices.insert(first.id, first).insert(second.id, second) == devices.insert(second.id, second),
{
    assert(devices.insert(first.id, first).insert(second.id, second) =~= devices.insert(
        second.id,
        second,
    ));
}

/// Whether the host has found the interface that reaches the devices, and
/// which one.
pub struct NetworkState {
    connected: bool,
    network: Option<NetworkInterface>,
}

impl NetworkState {
    #[verifier::type_invariant]
    spec fn inv(self) -> bool {
        self.connected == self.network is Some
    }

    /// The interface subnet found, if any.
    pub closed spec fn spec_network(self) -> Option<NetworkInterface> {
        self.network
    }

    /// No interface found yet.
    pub fn new() -> (r: NetworkState)
        ensures
            r.spec_network() is None,
    {
        NetworkState { connected: false, network: None }
    }

    /// Associated with `network`.
    pub fn associated(network: NetworkInterface) -> (r: NetworkState)
        ensures
            r.spec_network() == Some(network),
    {
        NetworkState { connected: true, network: Some(network) }
    }

    pub fn is_connected(&self) -> (r: bool)
        ensures
            r == self.spec_network() is Some,
    {
        proof {
            use_type_invariant(self);
        }
        self.connected
    }

    pub fn network(&self) -> (r: Option<NetworkInterface>)
        ensures
            r == self.spec_network(),
    {
        self.network
    }
}

/// The association after a device at `addr` is seen while the host lists
/// `ifs`: kept once made, else the subnet that reaches the device, if any.
pub open spec fn associate(
    current: Option<NetworkInterface>,
    ifs: Seq<HostInterface>,
    addr: Ipv4Address,
) -> Option<NetworkInterface> {
    if current is Some {
        current
    } else {
        owning_interface(ifs, addr)
    }
}

/// What the coordinator holds: the registry, the association and the virtual
/// CDJ made when the association was.
pub struct ProlinkView {
    pub devices: Map<u8, Device>,
    pub network: Option<NetworkInterface>,
    pub vcdj: Option<Device>,
}

/// The discovery coordinator: it takes each announced device, associates
/// with the host interface that reaches it once, and keeps the registry.
pub struct ProlinkNetwork {
    device_manager: DeviceManager,
    network_state: NetworkState,
    vcdj: Option<Device>,
}

impl View for ProlinkNetwork {
    type V = ProlinkView;

    closed spec fn view(&self) -> ProlinkView {
        ProlinkView {
            devices: self.device_manager.devices@,
            network: self.network_state.spec_network(),
            vcdj: self.vcdj,
        }
    }
}

impl ProlinkNetwork {
    /// No device known, no association.
    pub fn new() -> (r: ProlinkNetwork)
        ensures
            r@.devices == Map::<u8, Device>::empty(),
            r@.network is None,
            r@.vcdj is None,
    {
        ProlinkNetwork {
            device_manager: DeviceManager::new(),
            network_state: NetworkState::new(),
            vcdj: None,
        }
    }

    /// Handles one announced device while the host lists `interfaces`: if
    /// not yet associated, associates with the first subnet that reaches the
    /// device and makes the virtual CDJ for it; then stores the device,
    /// replacing any earlier record with its identifier.
    pub fn on_device(&mut self, device: Device, interfaces: &Vec<HostInterface>)
        ensures
            final(self)@.devices == old(self)@.devices.insert(device.id, device),
            final(self)@.network == associate(old(self)@.network, interfaces@, device.ip_address),
            old(self)@.network is Some ==> final(self)@.vcdj == old(self)@.vcdj,
            old(self)@.network is None ==> match owning_interface(interfaces@, device.ip_address) {
                Some(n) => final(self)@.vcdj matches Some(v) && is_virtual_cdj_of(v, n),
                None => final(self)@.vcdj == old(self)@.vcdj,
            },
    {
        if !self.network_state.is_connected() {
            match find_ipv4_network_interface(interfaces, &device.ip_address) {
                Some(network) => {
                    self.network_state = NetworkState::associated(network);
                    self.vcdj = Some(virtual_cdj(network));
                },
                None => {},
            }
        }
        self.device_manager.insert(device);
    }

    /// Whether an interface has been associated.
    pub fn is_connected(&self) -> (r: bool)
        ensures
            r == self@.network is Some,
    {
        self.network_state.is_connected()
    }

    /// The associated interface subnet, if any.
    pub fn network(&self) -> (r: Option<NetworkInterface>)
        ensures
            r == self@.network,
    {
        self.network_state.network()
    }

    /// The registry.
    pub fn devices(&self) -> (r: &DeviceManager)
        ensures
            r.devices@ == self@.devices,
    {
        &self.device_manager
    }

    /// The virtual CDJ made on association, if any.
    pub fn vcdj(&self) -> (r: &Option<Device>)
        ensures
            *r == self@.vcdj,
    {
        &self.vcdj
    }
}

/// The association after a run of announcements, each an address and the
/// interfaces that the host lists when it arrives.
pub open spec fn association_after(
    current: Option<NetworkInterface>,
    events: Seq<(Ipv4Address, Seq<HostInterface>)>,
) -> Option<NetworkInterface>
    decreases events.len(),
{
    if events.len() == 0 {
        current
    } else {
        association_after(associate(current, events[0].1, events[0].0), events.drop_first())
    }
}

/// The subnet of the first announcement in `events` that some subnet reaches.
pub open spec fn first_success(events: Seq<(Ipv4Address, Seq<HostInterface>)>) -> Option<
    NetworkInterface,
>
    decreases events.len(),
{
    if events.len() == 0 {
        None
    } else if owning_interface(events[0].1, events[0].0) is Some {
        owning_interface(events[0].1, events[0].0)
    } else {
        first_success(events.drop_first())
    }
}

/// Once made, the association never changes, whatever devices are announced
/// later and whatever subnets reach them.
pub proof fn lemma_association_is_final(
    network: NetworkInterface,
    events: Seq<(Ipv4Address, Seq<HostInterface>)>,
)
    ensures
        association_after(Some(network), events) == Some(network),
    decreases events.len(),
{
    if events.len() > 0 {
        lemma_association_is_final(network, events.drop_first());
    }
}

/// Starting unassociated, the association is that of the first announcement
/// that a subnet reaches; later candidates are ignored.
pub proof fn lemma_first_success_wins(events: Seq<(Ipv4Address, Seq<HostInterface>)>)
    ensures
        association_after(None, events) == first_success(events),
    decreases events.len(),
{
    if events.len() > 0 {
        match owning_interface(events[0].1, events[0].0) {
            Some(n) => lemma_association_is_final(n, events.drop_first()),
            None => lemma_first_success_wins(events.drop_first()),
        }
    }
}

} // verus!
