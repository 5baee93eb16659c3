use std::collections::HashMap;

use fuel_logger::config::{Config, StationConfig};
use fuel_logger::gpio::Level;
use fuel_logger::localtime::LocalDateTime;
use fuel_logger::station::{ButtonLevels, StationManager, StationStatus, StationRuntime};
use fuel_logger::wiegand::WiegandEvent;

const SEC: u64 = 1_000_000_000;
const WALL0: i64 = 1_700_000_000_000_000_000;

fn station(id: u32, name: &str) -> StationConfig {
    StationConfig {
        id,
        name: name.to_string(),
        keyboard_d0_gpio: 17,
        keyboard_d1_gpio: 18,
        keyboard_led_gpio: 27,
        relay_gpio: 10,
        start_gpio: 22,
        stop_gpio: 23,
        pause_gpio: Some(24),
        buzzer_gpio: Some(9),
        flow_meter_gpio: None,
        flow_meter_slave_id: Some(5),
        camera_url: Some("rtsp://cam/1".to_string()),
    }
}

fn config(stations: Vec<StationConfig>) -> Config {
    Config {
        database_url: "sqlite::memory:".to_string(),
        listen_addr: "0.0.0.0:8000".to_string(),
        snapshot_dir: "./snapshots".to_string(),
        auth_user: None,
        auth_pass: None,
        stations,
        modbus: None,
    }
}

fn idle() -> ButtonLevels {
    ButtonLevels { start: Level::High, stop: Level::High, pause: Some(Level::High) }
}

fn start() -> ButtonLevels {
    ButtonLevels { start: Level::Low, ..idle() }
}

fn stop() -> ButtonLevels {
    ButtonLevels { stop: Level::Low, ..idle() }
}

fn pause() -> ButtonLevels {
    ButtonLevels { pause: Some(Level::Low), ..idle() }
}

fn first(m: &StationManager) -> &StationRuntime {
    m.station(1).unwrap()
}

/// Button levels of stations 1, 2, ... in that order.
fn readings(per_station: Vec<ButtonLevels>) -> HashMap<u32, ButtonLevels> {
    per_station.into_iter().enumerate().map(|(i, b)| (i as u32 + 1, b)).collect()
}

/// Authorizes user 7 ("alice", allowed on both stations) on station `id` at `mono_ns`.
fn authorize_alice(m: &mut StationManager, id: u32, mono_ns: u64) {
    assert!(m.authorize(id, 7, "alice".to_string(), true, true, mono_ns));
}

#[test]
fn stations_are_set_up_idle_with_later_duplicates_winning() {
    let m = StationManager::new(&config(vec![station(2, "B"), station(1, "A"), station(2, "C")]), 0);
    let st = m.stations();
    assert_eq!(st.len(), 2);
    assert_eq!(m.station(1).unwrap().cfg.name, "A");
    assert_eq!(m.station(2).unwrap().cfg.name, "C");
    assert!(m.station(3).is_none());
    let mut ids = m.station_ids();
    ids.sort();
    assert_eq!(ids, vec![1, 2]);
    for (id, s) in st.iter() {
        assert_eq!(s.cfg.id, *id);
        assert_eq!(s.status, StationStatus::Idle);
        assert_eq!(s.relay_pin.level, Level::High);
        assert_eq!(s.led_pin.level, Level::High);
        assert_eq!(s.buzzer_pin.unwrap().level, Level::High);
        assert_eq!(s.relay_pin.pin, 10);
    }
}

#[test]
fn start_pause_resume_stop_session() {
    let mut m = StationManager::new(&config(vec![station(1, "S1")]), 0);
    authorize_alice(&mut m, 1, SEC / 2);
    let out = m.poll_buttons(&readings(vec![start()]), SEC, WALL0);
    assert!(out.log.is_none());
    assert_eq!(out.flow_starts.len(), 1);
    assert_eq!(out.flow_starts[0].station_id, 1);
    assert_eq!(out.flow_starts[0].slave_id, 5);
    assert_eq!(out.snapshots.len(), 1);
    assert_eq!(out.snapshots[0].camera_url, "rtsp://cam/1");
    assert_eq!(out.snapshots[0].taken_at_ns, WALL0);
    assert_eq!(first(&m).status, StationStatus::On);
    assert_eq!(first(&m).relay_pin.level, Level::Low);
    assert_eq!(first(&m).buzzer_pin.unwrap().level, Level::Low);
    assert_eq!(first(&m).active_user_id, Some(7));
    assert_eq!(first(&m).active_user_name.as_deref(), Some("alice"));
    assert_eq!(first(&m).waiting_since_ns, None);
    assert_eq!(first(&m).relay_on_since_ns, Some(SEC));
    assert_eq!(first(&m).relay_start_ns, Some(WALL0));

    m.set_flow_meter_start(1, 12.5f32.to_bits());
    assert_eq!(f32::from_bits(first(&m).flow_meter_start), 12.5);

    // Pause after 3.5 s: 3 whole seconds accumulated.
    let out = m.poll_buttons(&readings(vec![pause()]), 4 * SEC, WALL0 + 3_500_000_000);
    assert!(out.log.is_none());
    assert_eq!(first(&m).status, StationStatus::Pause);
    assert_eq!(first(&m).relay_pin.level, Level::High);
    assert_eq!(first(&m).accumulated_length, 3);

    // Buzzer blinks: on for ticks 0..3, off for ticks 3..10.
    let mut levels = Vec::new();
    for k in 0..10u64 {
        m.poll_buttons(&readings(vec![idle()]), 5 * SEC + k, WALL0 + 4_000_000_000);
        levels.push(first(&m).buzzer_pin.unwrap().level);
    }
    assert_eq!(&levels[..4], &[Level::Low, Level::Low, Level::Low, Level::High]);
    assert_eq!(levels[9], Level::High);

    // Resume, then stop 2.9 s later: 3 + 2 = 5 seconds.
    m.poll_buttons(&readings(vec![start()]), 10 * SEC, WALL0 + 10_000_000_000);
    assert_eq!(first(&m).status, StationStatus::On);
    assert_eq!(first(&m).relay_pin.level, Level::Low);
    let out = m.poll_buttons(&readings(vec![stop()]), 13 * SEC, WALL0 + 12_900_000_000);
    let log = out.log.unwrap();
    assert_eq!(log.user_id, 7);
    assert_eq!(log.station, 1);
    // 1_700_000_000 s is 2023-11-14 22:13:20 UTC, 23:13:20 in Prague (CET).
    assert_eq!(
        log.created_at,
        Some(LocalDateTime { year: 2023, month: 11, day: 14, hour: 23, minute: 13, second: 20, nanosecond: 0 })
    );
    assert_eq!(log.length, 5);
    assert_eq!(f32::from_bits(log.flow_meter_start), 12.5);
    let s = first(&m);
    assert_eq!(s.status, StationStatus::Idle);
    assert_eq!(s.relay_pin.level, Level::High);
    assert_eq!(s.led_pin.level, Level::High);
    assert_eq!(s.buzzer_pin.unwrap().level, Level::High);
    assert_eq!(s.active_user_id, None);
    assert_eq!(s.accumulated_length, 0);
    assert_eq!(s.flow_meter_start, 0);
}

#[test]
fn stop_while_paused_keeps_accumulated_length() {
    let mut m = StationManager::new(&config(vec![station(1, "S1")]), 0);
    authorize_alice(&mut m, 1, SEC);
    m.poll_buttons(&readings(vec![start()]), SEC, WALL0);
    m.poll_buttons(&readings(vec![pause()]), 2 * SEC, WALL0 + 7_000_000_000);
    let out = m.poll_buttons(&readings(vec![stop()]), 100 * SEC, WALL0 + 90_000_000_000);
    assert_eq!(out.log.unwrap().length, 7);
}

#[test]
fn safety_timeout_turns_relay_off() {
    let mut m = StationManager::new(&config(vec![station(1, "S1")]), 0);
    authorize_alice(&mut m, 1, SEC);
    m.poll_buttons(&readings(vec![start()]), SEC, WALL0);
    let out = m.poll_buttons(&readings(vec![idle()]), SEC + 300 * SEC, WALL0 + 300_000_000_000);
    assert!(out.log.is_none());
    assert_eq!(first(&m).status, StationStatus::On);
    let out = m.poll_buttons(&readings(vec![idle()]), SEC + 300 * SEC + 1, WALL0 + 300_000_000_001);
    assert_eq!(out.log.unwrap().length, 300);
    assert_eq!(first(&m).status, StationStatus::Idle);
    assert_eq!(first(&m).relay_pin.level, Level::High);
}

#[test]
fn a_stopping_station_ends_the_round() {
    let mut m = StationManager::new(&config(vec![station(1, "S1"), station(2, "S2")]), 0);
    authorize_alice(&mut m, 1, SEC);
    m.poll_buttons(&readings(vec![start(), idle()]), SEC, WALL0);
    authorize_alice(&mut m, 2, SEC);
    let out = m.poll_buttons(&readings(vec![stop(), start()]), 2 * SEC, WALL0 + SEC as i64);
    assert_eq!(out.log.unwrap().station, 1);
    assert_eq!(first(&m).status, StationStatus::Idle);
    // Station 2 started only if the map walked it before station 1.
    let second = m.station(2).unwrap().status;
    assert!(second == StationStatus::On || second == StationStatus::Waiting);
    assert_eq!(out.flow_starts.is_empty(), second == StationStatus::Waiting);
    let out = m.poll_buttons(&readings(vec![idle(), start()]), 3 * SEC, WALL0 + 2 * SEC as i64);
    assert!(out.log.is_none());
    assert_eq!(m.station(2).unwrap().status, StationStatus::On);
}

fn key(station_id: u32, code: u32) -> WiegandEvent {
    WiegandEvent { station_id, bits: 4, code }
}

#[test]
fn keypad_password_is_zero_padded() {
    let mut m = StationManager::new(&config(vec![station(1, "S1")]), 0);
    assert_eq!(m.handle_wiegand_event(key(1, 1), 10), None);
    assert_eq!(m.handle_wiegand_event(key(1, 2), 20), None);
    assert_eq!(m.handle_wiegand_event(key(1, 3), 30), None);
    assert_eq!(first(&m).keypad_code, "123");
    assert_eq!(first(&m).keypad_last_key_ns, 30);
    assert_eq!(m.handle_wiegand_event(key(1, 11), 40).as_deref(), Some("0000000123"));
    assert_eq!(first(&m).keypad_code, "");
    // 10 clears, unknown keys are ignored.
    m.handle_wiegand_event(key(1, 4), 50);
    m.handle_wiegand_event(key(1, 12), 60);
    assert_eq!(first(&m).keypad_code, "4");
    m.handle_wiegand_event(key(1, 10), 70);
    assert_eq!(first(&m).keypad_code, "");
    // Unknown station and unknown bit counts are ignored.
    assert_eq!(m.handle_wiegand_event(key(9, 11), 80), None);
    assert_eq!(m.handle_wiegand_event(WiegandEvent { station_id: 1, bits: 8, code: 11 }, 90), None);
}

#[test]
fn long_keypad_input_is_not_truncated() {
    let mut m = StationManager::new(&config(vec![station(1, "S1")]), 0);
    for d in [1u32, 2, 3, 4, 5, 6, 7, 8, 9, 0, 1] {
        m.handle_wiegand_event(key(1, d), 1);
    }
    assert_eq!(m.handle_wiegand_event(key(1, 11), 2).as_deref(), Some("12345678901"));
}

#[test]
fn card_number_is_taken_from_26_bit_code() {
    let mut m = StationManager::new(&config(vec![station(1, "S1")]), 0);
    let code = (0xABu32 << 17) | (0x1234 << 1) | 1;
    let e = WiegandEvent { station_id: 1, bits: 26, code };
    assert_eq!(m.handle_wiegand_event(e, 1).as_deref(), Some("0000004660"));
}

#[test]
fn stale_keypad_input_is_dropped() {
    let mut m = StationManager::new(&config(vec![station(1, "S1")]), 0);
    m.handle_wiegand_event(key(1, 7), SEC);
    m.poll_buttons(&readings(vec![idle()]), 6 * SEC, WALL0);
    assert_eq!(first(&m).keypad_code, "7");
    m.poll_buttons(&readings(vec![idle()]), 6 * SEC + 1, WALL0);
    assert_eq!(first(&m).keypad_code, "");
}

#[test]
fn authorization_puts_station_waiting() {
    let mut m = StationManager::new(&config(vec![station(1, "S1"), station(2, "S2")]), 0);
    assert!(m.may_validate(1));
    assert!(m.may_validate(7));
    assert!(!m.authorize(2, 7, "alice".to_string(), true, false, 5));
    assert_eq!(m.station(2).unwrap().status, StationStatus::Idle);
    assert!(m.authorize(1, 7, "alice".to_string(), true, false, 5));
    let s = first(&m);
    assert_eq!(s.status, StationStatus::Waiting);
    assert_eq!(s.led_pin.level, Level::Low);
    assert_eq!(s.waiting_since_ns, Some(5));
    assert_eq!(s.active_user_id, Some(7));
    assert_eq!(s.active_user_name.as_deref(), Some("alice"));
    assert!(!m.may_validate(1));
    assert!(!m.authorize(3, 7, "alice".to_string(), true, true, 5));
}

#[test]
fn stations_info_shows_running_length() {
    let mut m = StationManager::new(&config(vec![station(2, "S2"), station(1, "S1")]), 0);
    authorize_alice(&mut m, 1, SEC);
    m.poll_buttons(&readings(vec![start(), idle()]), SEC, WALL0);
    let infos = m.get_stations_info(WALL0 + 61_900_000_000);
    assert_eq!(infos.len(), 2);
    assert_eq!(infos[0].id, 1);
    assert_eq!(infos[0].name, "S1");
    assert_eq!(infos[0].status, "on");
    assert_eq!(infos[0].current_length_secs, Some(61));
    assert_eq!(infos[0].active_user.as_deref(), Some("alice"));
    assert_eq!(infos[0].pulses_count, 0);
    assert_eq!(infos[1].id, 2);
    assert_eq!(infos[1].status, "idle");
    assert_eq!(infos[1].current_length_secs, None);
    assert_eq!(infos[1].active_user, None);
}

#[test]
fn status_names() {
    assert_eq!(StationStatus::Idle.to_string(), "idle");
    assert_eq!(StationStatus::Waiting.to_string(), "waiting");
    assert_eq!(StationStatus::On.to_string(), "on");
    assert_eq!(StationStatus::Pause.to_string(), "pause");
}

#[test]
fn shutdown_releases_every_output() {
    let mut m = StationManager::new(&config(vec![station(1, "S1")]), 0);
    authorize_alice(&mut m, 1, SEC);
    m.poll_buttons(&readings(vec![start()]), SEC, WALL0);
    m.authorize(1, 1, "x".to_string(), true, true, 2);
    m.shutdown();
    let s = first(&m);
    assert_eq!(s.relay_pin.level, Level::High);
    assert_eq!(s.led_pin.level, Level::High);
    assert_eq!(s.buzzer_pin.unwrap().level, Level::High);
}

#[test]
fn no_password_check_while_running() {
    let mut m = StationManager::new(&config(vec![station(1, "S1")]), 0);
    authorize_alice(&mut m, 1, SEC);
    m.poll_buttons(&readings(vec![start()]), SEC, WALL0);
    assert!(!m.may_validate(1));
    // The relay is energized exactly while the station is on.
    for s in m.stations().values() {
        assert_eq!(s.relay_pin.level == Level::Low, s.status == StationStatus::On);
    }
}

#[test]
fn start_on_an_idle_station_does_nothing() {
    let mut m = StationManager::new(&config(vec![station(1, "S1")]), 0);
    let out = m.poll_buttons(&readings(vec![start()]), SEC, WALL0);
    assert!(out.log.is_none());
    assert!(out.flow_starts.is_empty());
    assert!(out.snapshots.is_empty());
    let s = first(&m);
    assert_eq!(s.status, StationStatus::Idle);
    assert_eq!(s.relay_pin.level, Level::High);
    assert_eq!(s.buzzer_pin.unwrap().level, Level::High);
    assert_eq!(s.active_user_id, None);
    assert_eq!(s.relay_start_ns, None);
}

#[test]
fn authorization_expires_after_the_waiting_timeout() {
    let mut m = StationManager::new(&config(vec![station(1, "S1")]), 0);
    authorize_alice(&mut m, 1, SEC);
    // Exactly 10 s later the authorization still holds.
    m.poll_buttons(&readings(vec![idle()]), 11 * SEC, WALL0);
    assert_eq!(first(&m).status, StationStatus::Waiting);
    // Past 10 s the station returns to idle, even with START held.
    let out = m.poll_buttons(&readings(vec![start()]), 11 * SEC + 1, WALL0);
    assert!(out.log.is_none());
    assert!(out.flow_starts.is_empty());
    let s = first(&m);
    assert_eq!(s.status, StationStatus::Idle);
    assert_eq!(s.led_pin.level, Level::High);
    assert_eq!(s.relay_pin.level, Level::High);
    assert_eq!(s.buzzer_pin.unwrap().level, Level::High);
    assert_eq!(s.active_user_id, None);
    assert_eq!(s.active_user_name, None);
    assert_eq!(s.waiting_since_ns, None);
    assert!(m.may_validate(1));
}

#[test]
fn start_within_the_waiting_time_opens_the_session_of_the_authorized_user() {
    let mut m = StationManager::new(&config(vec![station(1, "S1")]), 0);
    authorize_alice(&mut m, 1, SEC);
    let out = m.poll_buttons(&readings(vec![start()]), 11 * SEC, WALL0);
    assert_eq!(out.snapshots.len(), 1);
    let s = first(&m);
    assert_eq!(s.status, StationStatus::On);
    assert_eq!(s.relay_pin.level, Level::Low);
    assert_eq!(s.led_pin.level, Level::Low);
    assert_eq!(s.active_user_id, Some(7));
    assert_eq!(s.last_resume_ns, Some(WALL0));
    assert_eq!(s.accumulated_length, 0);
}
