use vstd::prelude::*;

use std::collections::HashMap;

verus! {

/// A JSON value: a slot's own configuration, which only the slot reads.
#[verifier::external_type_specification]
#[verifier::external_body]
pub struct ExJsonValue(serde_json::Value);

/// The whole configuration: the device, the rack and its slots by name.
#[derive(Debug)]
pub struct ArgonConfig {
    pub tun: ArgonTunConfig,
    pub rack: ArgonRackConfig,
    pub slots: HashMap<String, ArgonSlotConfig>,
}

impl Default for ArgonConfig {
    /// The default device and rack, and no slots.
    fn default() -> (config: Self)
        ensures
            config.tun.mtu == 1420,
            config.rack.channel_size == 4096,
            config.rack.layout@.len() == 0,
            config.slots@.len() == 0,
    {
        ArgonConfig {
            tun: ArgonTunConfig::default(),
            rack: ArgonRackConfig::default(),
            slots: HashMap::new(),
        }
    }
}

/// The device's configuration.
#[derive(Debug)]
pub struct ArgonTunConfig {
    pub mtu: u16,
}

impl Default for ArgonTunConfig {
    /// An MTU of 1420.
    fn default() -> (config: Self)
        ensures
            config.mtu == 1420,
    {
        Self { mtu: 1420 }
    }
}

/// The rack's configuration: the size of its channels and its slots in order.
#[derive(Debug)]
pub struct ArgonRackConfig {
    pub channel_size: usize,
    pub layout: Vec<ArgonSlotLayoutConfig>,
}

impl Default for ArgonRackConfig {
    /// Channels of 4096 packets and no slots.
    fn default() -> (config: Self)
        ensures
            config.channel_size == 4096,
            config.layout@.len() == 0,
    {
        Self { channel_size: 4096, layout: Vec::new() }
    }
}

/// One place in the rack: the slot (by name) that stands there, whether it is
/// a sink, and the slots nested under it.
#[derive(Debug)]
pub struct ArgonSlotLayoutConfig {
    pub slot: String,
    pub sink: bool,
    pub subslots: Vec<ArgonSlotLayoutConfig>,
}

/// One slot: the plugin that implements it, how it runs, with how many
/// workers, and its own configuration.
#[derive(Debug)]
pub struct ArgonSlotConfig {
    pub plugin: String,
    pub runtime: ArgonRuntimeType,
    pub workers: usize,
    pub config: serde_json::Value,
}

/// Whether a slot runs synchronously (the default) or asynchronously.
#[derive(Debug, Clone, Copy, PartialEq, Eq)]
pub enum ArgonRuntimeType {
    Sync,
    Async,
}

impl Default for ArgonRuntimeType {
    fn default() -> (runtime: Self)
        ensures
            runtime == ArgonRuntimeType::Sync,
    {
        ArgonRuntimeType::Sync
    }
}

impl ArgonRuntimeType {
    pub fn is_sync(&self) -> (sync: bool)
        ensures
            sync == (*self == ArgonRuntimeType::Sync),
    {
        match self {
            ArgonRuntimeType::Sync => true,
            ArgonRuntimeType::Async => false,
        }
    }
}

} // verus!
