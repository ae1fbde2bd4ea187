use argon::cli::Cli;
use argon::config::{ArgonConfig, ArgonRackConfig, ArgonRuntimeType, ArgonTunConfig};
use argon::device::device_settings;
use argon::runner::{AsyncSlotRunnerConfig, SequentialSlotRunnerConfig, SyncSlotRunnerConfig};
use argon::slots::log::LogSlotBuilder;
use argon::slots::ping::PingSlotBuilder;

#[test]
fn config_defaults() {
    assert_eq!(ArgonTunConfig::default().mtu, 1420);
    let rack = ArgonRackConfig::default();
    assert_eq!(rack.channel_size, 4096);
    assert!(rack.layout.is_empty());
    let config = ArgonConfig::default();
    assert_eq!(config.tun.mtu, 1420);
    assert_eq!(config.rack.channel_size, 4096);
    assert!(config.slots.is_empty());
    assert_eq!(ArgonRuntimeType::default(), ArgonRuntimeType::Sync);
}

#[test]
fn runtime_type_is_sync() {
    assert!(ArgonRuntimeType::Sync.is_sync());
    assert!(!ArgonRuntimeType::Async.is_sync());
}

#[test]
fn device_settings_from_config() {
    let settings = device_settings(&ArgonTunConfig { mtu: 1500 });
    assert_eq!(settings.mtu, 1500);
    assert_eq!(settings.address, (10, 0, 0, 1));
    assert_eq!(settings.netmask, (255, 255, 255, 0));
    assert!(settings.up);
    assert!(settings.packet_information);
    assert_eq!(device_settings(&ArgonTunConfig::default()).mtu, 1420);
}

#[test]
fn builders_and_runner_configs_construct() {
    let _ = PingSlotBuilder::new();
    let _ = LogSlotBuilder::new();
    let _ = AsyncSlotRunnerConfig::default();
    let _ = SequentialSlotRunnerConfig::default();
    let _ = SyncSlotRunnerConfig::default();
    let cli = Cli { mtu: None, channel_size: 16 };
    assert_eq!(cli.channel_size, 16);
}
