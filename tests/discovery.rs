use prolink::keepalive::{virtual_cdj, Device};
use prolink::network::{
    find_ipv4_network_interface, DeviceManager, HostInterface, Ipv4Net, NetworkInterface,
    ProlinkNetwork,
};
use prolink::protocol::{decode, status_package, DeviceType, Ipv4Address, MacAddr};

fn mac(last: u8) -> MacAddr {
    MacAddr { a: 2, b: 0, c: 0, d: 0, e: 0, f: last }
}

fn net(a: u8, b: u8, c: u8, d: u8, prefix: u8) -> Ipv4Net {
    Ipv4Net::new(Ipv4Address::new(a, b, c, d), prefix).unwrap()
}

fn device(id: u8, name: &str, ip: Ipv4Address) -> Device {
    Device {
        name: name.to_string(),
        id,
        mac_addr: mac(id),
        ip_address: ip,
        device_type: DeviceType::Cdj,
    }
}

fn host() -> Vec<HostInterface> {
    vec![
        HostInterface { mac: None, networks: vec![net(192, 168, 10, 1, 24)] },
        HostInterface { mac: Some(mac(1)), networks: vec![net(10, 0, 0, 5, 8)] },
        HostInterface {
            mac: Some(mac(2)),
            networks: vec![net(172, 16, 3, 4, 16), net(192, 168, 10, 2, 24)],
        },
        HostInterface { mac: Some(mac(3)), networks: vec![net(192, 168, 0, 9, 16)] },
    ]
}

#[test]
fn subnet_membership() {
    let n = net(192, 168, 10, 1, 24);
    assert!(n.contains(Ipv4Address::new(192, 168, 10, 78)));
    assert!(!n.contains(Ipv4Address::new(192, 168, 11, 78)));
    assert!(net(0, 0, 0, 0, 0).contains(Ipv4Address::new(8, 8, 8, 8)));
    assert!(net(8, 8, 8, 8, 32).contains(Ipv4Address::new(8, 8, 8, 8)));
    assert!(!net(8, 8, 8, 8, 32).contains(Ipv4Address::new(8, 8, 8, 9)));
    assert!(Ipv4Net::new(Ipv4Address::new(1, 2, 3, 4), 33).is_none());
    assert_eq!(n.prefix(), 24);
    assert_eq!(n.ip(), Ipv4Address::new(192, 168, 10, 1));
}

#[test]
fn owning_interface_is_the_first_match() {
    let ifs = host();
    assert_eq!(
        find_ipv4_network_interface(&ifs, &Ipv4Address::new(192, 168, 10, 78)),
        Some(NetworkInterface { ip_network: net(192, 168, 10, 2, 24), mac: mac(2) })
    );
    assert_eq!(
        find_ipv4_network_interface(&ifs, &Ipv4Address::new(192, 168, 200, 1)),
        Some(NetworkInterface { ip_network: net(192, 168, 0, 9, 16), mac: mac(3) })
    );
    assert_eq!(
        find_ipv4_network_interface(&ifs, &Ipv4Address::new(169, 254, 1, 1)),
        None
    );
    assert_eq!(
        find_ipv4_network_interface(&vec![], &Ipv4Address::new(10, 0, 0, 1)),
        None
    );
}

#[test]
fn upsert_keeps_only_the_latest() {
    let mut m = DeviceManager::new();
    let first = device(2, "CDJ-2000", Ipv4Address::new(192, 168, 10, 2));
    assert!(!m.contains(&first));
    m.insert(first);
    let second = device(2, "XDJ-700", Ipv4Address::new(192, 168, 10, 78));
    assert!(m.contains(&second));
    m.insert(second);
    assert_eq!(m.devices.len(), 1);
    let d = m.get(2).unwrap();
    assert_eq!(d.name, "XDJ-700");
    assert_eq!(d.ip_address, Ipv4Address::new(192, 168, 10, 78));
    assert!(m.get(3).is_none());
}

#[test]
fn virtual_cdj_takes_the_interface() {
    let ni = NetworkInterface { ip_network: net(192, 168, 10, 2, 24), mac: mac(9) };
    let v = virtual_cdj(ni);
    assert_eq!(v.id, 5);
    assert_eq!(v.name, "VirtualCDJ");
    assert_eq!(v.device_type, DeviceType::Cdj);
    assert_eq!(v.ip_address, Ipv4Address::new(192, 168, 10, 2));
    assert_eq!(v.mac_addr, mac(9));
}

#[test]
fn device_from_status_message() {
    let m = decode(&status_package()).unwrap();
    let d = Device::from_message(m).unwrap();
    assert_eq!(d.id, 2);
    assert_eq!(d.name, "XDJ-700");
    assert_eq!(d.ip_address, Ipv4Address::new(192, 168, 10, 78));
    assert_eq!(d.mac_addr, MacAddr { a: 200, b: 61, c: 252, d: 4, e: 30, f: 196 });
    let mut hello = status_package();
    hello[10] = 10;
    assert!(Device::from_message(decode(&hello).unwrap()).is_none());
}

#[test]
fn association_happens_once() {
    let ifs = host();
    let mut p = ProlinkNetwork::new();
    assert!(!p.is_connected());
    p.on_device(device(1, "CDJ", Ipv4Address::new(169, 254, 0, 1)), &ifs);
    assert!(!p.is_connected());
    assert!(p.vcdj().is_none());
    p.on_device(device(2, "CDJ", Ipv4Address::new(192, 168, 10, 78)), &ifs);
    let first = NetworkInterface { ip_network: net(192, 168, 10, 2, 24), mac: mac(2) };
    assert_eq!(p.network(), Some(first));
    p.on_device(device(3, "CDJ", Ipv4Address::new(10, 1, 2, 3)), &ifs);
    assert_eq!(p.network(), Some(first));
    let v = p.vcdj().as_ref().unwrap();
    assert_eq!(v.ip_address, Ipv4Address::new(192, 168, 10, 2));
    assert_eq!(v.mac_addr, mac(2));
    assert_eq!(p.devices().devices.len(), 3);
}

#[test]
fn repeated_device_is_refreshed() {
    let ifs = host();
    let mut p = ProlinkNetwork::new();
    p.on_device(device(2, "CDJ-2000", Ipv4Address::new(192, 168, 10, 78)), &ifs);
    p.on_device(device(2, "XDJ-700", Ipv4Address::new(192, 168, 10, 79)), &ifs);
    let d = p.devices().get(2).unwrap();
    assert_eq!(d.name, "XDJ-700");
    assert_eq!(d.ip_address, Ipv4Address::new(192, 168, 10, 79));
    assert_eq!(p.devices().devices.len(), 1);
}
