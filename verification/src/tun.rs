//! The virtual network interface. This build creates no system device: the
//! device only has a name, reads nothing and accepts every write.

use vstd::prelude::*;
use crate::errors::Error;
use crate::net::{IpAddress, ipv4};

verus! {

/// TUN device configuration.
#[derive(Debug)]
pub struct TunDeviceConfig {
    /// Device name.
    pub name: Option<String>,
    /// IP address.
    pub address: IpAddress,
    /// Netmask.
    pub netmask: IpAddress,
    /// MTU.
    pub mtu: u16,
}

impl Default for TunDeviceConfig {
    fn default() -> (c: Self)
        ensures
            c.name matches Some(n) && n@ == "mesh0"@,
            c.address matches IpAddress::V4(o) && o@ == seq![10u8, 0u8, 0u8, 1u8],
            c.netmask matches IpAddress::V4(o) && o@ == seq![255u8, 255u8, 255u8, 0u8],
            c.mtu == 1420,
    {
        TunDeviceConfig {
            name: Some(String::from_str("mesh0")),
            address: ipv4(10, 0, 0, 1),
            netmask: ipv4(255, 255, 255, 0),
            mtu: 1420,
        }
    }
}

/// A TUN device.
#[derive(Debug)]
pub struct TunDevice {
    name: String,
}

impl Clone for TunDevice {
    fn clone(&self) -> (r: Self)
        ensures
            r == *self,
    {
        TunDevice { name: self.name.clone() }
    }
}

impl TunDevice {
    /// The name of the device.
    pub closed spec fn device_name(&self) -> Seq<char> {
        self.name@
    }

    /// Creates the device: it is named as the configuration says, `mesh0`
    /// when it names none. It does not fail.
    pub fn new(config: TunDeviceConfig) -> (r: Result<Self, Error>)
        ensures
            r matches Ok(d) && d.device_name() == match config.name {
                Some(n) => n@,
                None => "mesh0"@,
            },
    {
        let name = match config.name {
            Some(n) => n,
            None => String::from_str("mesh0"),
        };
        Ok(TunDevice { name })
    }

    /// The device name.
    pub fn name(&self) -> (n: &str)
        ensures
            n@ == self.device_name(),
    {
        self.name.as_str()
    }

    /// Reads a packet: there is never one.
    pub fn read_packet(&self) -> (p: Option<Vec<u8>>)
        ensures
            p is None,
    {
        None
    }

    /// Writes a packet: it is accepted and dropped.
    pub fn write_packet(&self, _packet: &[u8]) -> (r: Result<(), Error>)
        ensures
            r is Ok,
    {
        Ok(())
    }
}

} // verus!
