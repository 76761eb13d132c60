//! Devices as announced on the network.
use crate::network::NetworkInterface;
use crate::protocol::{DeviceType, Ipv4Address, KeepAliveMessage, MacAddr, MessageType};
use vstd::prelude::*;

verus! {

/// A device as last announced: its player number is its identifier.
#[derive(Debug, PartialEq, Eq)]
pub struct Device {
    pub name: String,
    pub id: u8,
    pub mac_addr: MacAddr,
    pub ip_address: Ipv4Address,
    pub device_type: DeviceType,
}

/// Whether `d` is the virtual CDJ that this host would present on the
/// network reached through `n`: player 5, named `VirtualCDJ`, with the
/// subnet's address and the interface's hardware address.
pub open spec fn is_virtual_cdj_of(d: Device, n: NetworkInterface) -> bool {
    &&& d.id == 5
    &&& d.name@ == "VirtualCDJ"@
    &&& d.device_type == DeviceType::Cdj
    &&& d.ip_address == n.ip_network.spec_ip()
    &&& d.mac_addr == n.mac
}

/// The identity that this host would announce on the network reached
/// through `network`.
pub fn virtual_cdj(network: NetworkInterface) -> (r: Device)
    ensures
        is_virtual_cdj_of(r, network),
{
    Device {
        id: 5,
        name: "VirtualCDJ".to_owned(),
        device_type: DeviceType::Cdj,
        ip_address: network.ip_network.ip(),
        mac_addr: network.mac,
    }
}

impl Device {
    /// The device that a status announcement describes; `None` for every
    /// other kind of announcement.
    pub fn from_message(message: KeepAliveMessage) -> (r: Option<Device>)
        ensures
            match message.msg_value {
                MessageType::Status(s) => r matches Some(d) && d.id == s.player_number && d.name@
                    == message.model_name@ && d.mac_addr == s.mac_address && d.ip_address
                    == s.ip_addr && d.device_type == message.device_type,
                _ => r is None,
            },
    {
        match message.msg_value {
            MessageType::Status(status) => Some(
                Device {
                    id: status.player_number,
                    name: message.model_name,
                    mac_addr: status.mac_address,
                    ip_address: status.ip_addr,
                    device_type: message.device_type,
                },
            ),
            _ => None,
        }
    }
}

} // verus!
