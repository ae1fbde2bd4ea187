use vstd::prelude::*;

use crate::config::ArgonTunConfig;

verus! {

/// Why the device could not be created.
#[derive(Debug)]
pub enum ArgonTunError {
    TunError(tun::Error),
}

impl From<tun::Error> for ArgonTunError {
    fn from(error: tun::Error) -> (converted: Self) {
        ArgonTunError::TunError(error)
    }
}

impl vstd::std_specs::convert::FromSpecImpl<tun::Error> for ArgonTunError {
    open spec fn obeys_from_spec() -> bool {
        true
    }

    open spec fn from_spec(error: tun::Error) -> Self {
        ArgonTunError::TunError(error)
    }
}

/// How the device is set up: its MTU, its address and netmask, whether it is
/// brought up, and whether packets carry the packet-information header.
pub struct TunDeviceSettings {
    pub mtu: i32,
    pub address: (u8, u8, u8, u8),
    pub netmask: (u8, u8, u8, u8),
    pub up: bool,
    pub packet_information: bool,
}

/// The device settings for a configuration: its MTU, on 10.0.0.1/24, up, with
/// packet information.
pub fn device_settings(config: &ArgonTunConfig) -> (settings: TunDeviceSettings)
    ensures
        settings.mtu == config.mtu,
        settings.address == (10u8, 0u8, 0u8, 1u8),
        settings.netmask == (255u8, 255u8, 255u8, 0u8),
        settings.up,
        settings.packet_information,
{
    TunDeviceSettings {
        mtu: config.mtu as i32,
        address: (10, 0, 0, 1),
        netmask: (255, 255, 255, 0),
        up: true,
        packet_information: true,
    }
}

} // verus!
