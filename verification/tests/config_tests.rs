use fuel_logger::config::{default_listen_addr, default_snapshot_dir, default_stations, Config};
use fuel_logger::tuf2000::{accumulator_request_frame, split_total_accumulator};
use fuel_logger::modbus::ModbusError;

#[test]
fn defaults() {
    assert_eq!(default_listen_addr(), "0.0.0.0:8000");
    assert_eq!(default_snapshot_dir(), "./snapshots");
    let s = default_stations();
    assert_eq!(s.len(), 2);
    assert_eq!(s[0].name, "S1");
    assert_eq!(s[0].relay_gpio, 10);
    assert_eq!(s[1].flow_meter_gpio, Some(26));
    assert_eq!(s[1].keyboard_d1_gpio, 8);
}

#[test]
fn config_from_environment_values() {
    let c = Config::from_env_values(None, Some("127.0.0.1:9".to_string()), None, Some("u".to_string()), None);
    assert_eq!(c.database_url, "sqlite:fuelloggerrs.db?mode=rwc");
    assert_eq!(c.listen_addr, "127.0.0.1:9");
    assert_eq!(c.snapshot_dir, "./snapshots");
    assert_eq!(c.auth_user.as_deref(), Some("u"));
    assert_eq!(c.auth_pass, None);
    assert_eq!(c.stations.len(), 2);
    assert!(c.modbus.is_none());
}

#[test]
fn flow_meter_slave_lookup() {
    let mut c = Config::from_env_values(None, None, None, None, None);
    c.stations[1].flow_meter_slave_id = Some(3);
    assert_eq!(c.flow_meter_slave_of(2), Some(3));
    assert_eq!(c.flow_meter_slave_of(1), None);
    assert_eq!(c.flow_meter_slave_of(-1), None);
}

#[test]
fn accumulator_request() {
    assert_eq!(String::from_utf8(accumulator_request_frame(1)).unwrap(), ":010300180004E0\r\n");
}

#[test]
fn accumulator_split() {
    let (int_part, frac_bits) = split_total_accumulator(&[0x0000, 0x04D2, 0x3F00, 0x0000]).unwrap();
    assert_eq!(int_part, 1234);
    assert_eq!(f32::from_bits(frac_bits), 0.5);
    assert_eq!(
        split_total_accumulator(&[1, 2, 3]),
        Err(ModbusError::NotEnoughRegisters { needed: 4, found: 3 })
    );
}
