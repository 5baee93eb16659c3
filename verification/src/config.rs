use vstd::prelude::*;

use crate::text::clone_opt_string;

verus! {

/// Wiring and options of one fuel station.
#[derive(Debug, Clone)]
pub struct StationConfig {
    pub id: u32,
    pub name: String,
    pub keyboard_d0_gpio: u8,
    pub keyboard_d1_gpio: u8,
    pub keyboard_led_gpio: u8,
    pub relay_gpio: u8,
    pub start_gpio: u8,
    pub stop_gpio: u8,
    pub pause_gpio: Option<u8>,
    pub buzzer_gpio: Option<u8>,
    pub flow_meter_gpio: Option<u8>,
    /// MODBUS slave id of the station's TUF-2000 flow meter.
    pub flow_meter_slave_id: Option<u8>,
    pub camera_url: Option<String>,
}

/// RS485 line used to reach the flow meters.
#[derive(Debug, Clone)]
pub struct ModbusConfig {
    pub port: String,
    pub baud: u32,
    pub re_gpio: Option<u8>,
    pub de_gpio: Option<u8>,
}

/// Application configuration.
#[derive(Debug, Clone)]
pub struct Config {
    pub database_url: String,
    pub listen_addr: String,
    pub snapshot_dir: String,
    /// Optional HTTP Basic Auth username. Auth is disabled when not set.
    pub auth_user: Option<String>,
    pub auth_pass: Option<String>,
    pub stations: Vec<StationConfig>,
    pub modbus: Option<ModbusConfig>,
}

impl StationConfig {
    /// A field-by-field copy of the configuration.
    pub fn duplicate(&self) -> (r: StationConfig)
        ensures
            r == *self,
    {
        StationConfig {
            id: self.id,
            name: self.name.clone(),
            keyboard_d0_gpio: self.keyboard_d0_gpio,
            keyboard_d1_gpio: self.keyboard_d1_gpio,
            keyboard_led_gpio: self.keyboard_led_gpio,
            relay_gpio: self.relay_gpio,
            start_gpio: self.start_gpio,
            stop_gpio: self.stop_gpio,
            pause_gpio: self.pause_gpio,
            buzzer_gpio: self.buzzer_gpio,
            flow_meter_gpio: self.flow_meter_gpio,
            flow_meter_slave_id: self.flow_meter_slave_id,
            camera_url: clone_opt_string(&self.camera_url),
        }
    }
}

/// "0.0.0.0:8000"
pub open spec fn default_listen_addr_chars() -> Seq<char> {
    seq!['0', '.', '0', '.', '0', '.', '0', ':', '8', '0', '0', '0']
}

/// "./snapshots"
pub open spec fn default_snapshot_dir_chars() -> Seq<char> {
    seq!['.', '/', 's', 'n', 'a', 'p', 's', 'h', 'o', 't', 's']
}

/// "sqlite:fuelloggerrs.db?mode=rwc"
pub open spec fn default_database_url_chars() -> Seq<char> {
    seq![
        's', 'q', 'l', 'i', 't', 'e', ':', 'f', 'u', 'e', 'l', 'l', 'o', 'g', 'g', 'e', 'r', 'r',
        's', '.', 'd', 'b', '?', 'm', 'o', 'd', 'e', '=', 'r', 'w', 'c',
    ]
}

/// Address the web server listens on when none is configured.
pub fn default_listen_addr() -> (s: String)
    ensures
        s@ == default_listen_addr_chars(),
{
    proof {
        reveal_strlit("0.0.0.0:8000");
    }
    let s = String::from_str("0.0.0.0:8000");
    assert(s@ =~= default_listen_addr_chars());
    s
}

/// Directory for camera snapshots when none is configured.
pub fn default_snapshot_dir() -> (s: String)
    ensures
        s@ == default_snapshot_dir_chars(),
{
    proof {
        reveal_strlit("./snapshots");
    }
    let s = String::from_str("./snapshots");
    assert(s@ =~= default_snapshot_dir_chars());
    s
}

/// Database used when `DATABASE_URL` is not set.
pub fn default_database_url() -> (s: String)
    ensures
        s@ == default_database_url_chars(),
{
    proof {
        reveal_strlit("sqlite:fuelloggerrs.db?mode=rwc");
    }
    let s = String::from_str("sqlite:fuelloggerrs.db?mode=rwc");
    assert(s@ =~= default_database_url_chars());
    s
}

/// The built-in wiring of station `id` named `name`.
pub open spec fn is_default_station(
    c: StationConfig,
    id: u32,
    name: Seq<char>,
    pins: (u8, u8, u8, u8, u8, u8),
    pause: u8,
    buzzer: u8,
    flow: Option<u8>,
) -> bool {
    &&& c.id == id
    &&& c.name@ == name
    &&& c.keyboard_d0_gpio == pins.0
    &&& c.keyboard_d1_gpio == pins.1
    &&& c.keyboard_led_gpio == pins.2
    &&& c.relay_gpio == pins.3
    &&& c.start_gpio == pins.4
    &&& c.stop_gpio == pins.5
    &&& c.pause_gpio == Some(pause)
    &&& c.buzzer_gpio == Some(buzzer)
    &&& c.flow_meter_gpio == flow
    &&& c.flow_meter_slave_id.is_none()
    &&& c.camera_url.is_none()
}

/// Built-in station definitions, used when no configuration file exists.
pub fn default_stations() -> (v: Vec<StationConfig>)
    ensures
        v.len() == 2,
        is_default_station(v[0], 1, seq!['S', '1'], (17, 18, 27, 10, 22, 23), 24, 9, None),
        is_default_station(v[1], 2, seq!['S', '2'], (11, 8, 7, 13, 5, 6), 12, 19, Some(26u8)),
{
    proof {
        reveal_strlit("S1");
        reveal_strlit("S2");
    }
    let name1 = String::from_str("S1");
    assert(name1@ =~= seq!['S', '1']);
    let name2 = String::from_str("S2");
    assert(name2@ =~= seq!['S', '2']);
    let mut v: Vec<StationConfig> = Vec::new();
    v.push(
        StationConfig {
            id: 1,
            name: name1,
            keyboard_d0_gpio: 17,
            keyboard_d1_gpio: 18,
            keyboard_led_gpio: 27,
            relay_gpio: 10,
            start_gpio: 22,
            stop_gpio: 23,
            pause_gpio: Some(24),
            buzzer_gpio: Some(9),
            flow_meter_gpio: None,
            flow_meter_slave_id: None,
            camera_url: None,
        },
    );
    v.push(
        StationConfig {
            id: 2,
            name: name2,
            keyboard_d0_gpio: 11,
            keyboard_d1_gpio: 8,
            keyboard_led_gpio: 7,
            relay_gpio: 13,
            start_gpio: 5,
            stop_gpio: 6,
            pause_gpio: Some(12),
            buzzer_gpio: Some(19),
            flow_meter_gpio: Some(26),
            flow_meter_slave_id: None,
            camera_url: None,
        },
    );
    v
}

/// The value of an optional setting, or `default` when unset.
pub open spec fn setting_or(v: Option<String>, default: Seq<char>) -> Seq<char> {
    match v {
        Some(s) => s@,
        None => default,
    }
}

impl Config {
    /// Configuration from environment settings (each `None` when unset) and
    /// the built-in station definitions; MODBUS stays disabled.
    pub fn from_env_values(
        database_url: Option<String>,
        listen_addr: Option<String>,
        snapshot_dir: Option<String>,
        auth_user: Option<String>,
        auth_pass: Option<String>,
    ) -> (c: Config)
        ensures
            c.database_url@ == setting_or(database_url, default_database_url_chars()),
            c.listen_addr@ == setting_or(listen_addr, default_listen_addr_chars()),
            c.snapshot_dir@ == setting_or(snapshot_dir, default_snapshot_dir_chars()),
            c.auth_user == auth_user,
            c.auth_pass == auth_pass,
            c.stations.len() == 2,
            is_default_station(
                c.stations[0],
                1,
                seq!['S', '1'],
                (17, 18, 27, 10, 22, 23),
                24,
                9,
                None,
            ),
            is_default_station(
                c.stations[1],
                2,
                seq!['S', '2'],
                (11, 8, 7, 13, 5, 6),
                12,
                19,
                Some(26u8),
            ),
            c.modbus.is_none(),
    {
        let database_url = match database_url {
            Some(v) => v,
            None => default_database_url(),
        };
        let listen_addr = match listen_addr {
            Some(v) => v,
            None => default_listen_addr(),
        };
        let snapshot_dir = match snapshot_dir {
            Some(v) => v,
            None => default_snapshot_dir(),
        };
        Config {
            database_url,
            listen_addr,
            stations: default_stations(),
            snapshot_dir,
            auth_user,
            auth_pass,
            modbus: None,
        }
    }

    /// MODBUS slave id of the flow meter of the first configured station whose
    /// id, taken as `i32`, is `station`.
    pub fn flow_meter_slave_of(&self, station: i32) -> (r: Option<u8>)
        ensures
            r == spec_flow_meter_slave_of(self.stations@, station),
    {
        let mut i: usize = 0;
        while i < self.stations.len()
            invariant
                i <= self.stations.len(),
                forall|j: int| 0 <= j < i ==> self.stations@[j].id as i32 != station,
            decreases self.stations.len() - i,
        {
            if self.stations[i].id as i32 == station {
                proof {
                    lemma_first_station_with_id(self.stations@, station, i as int);
                }
                return self.stations[i].flow_meter_slave_id;
            }
            i += 1;
        }
        None
    }
}

/// `i` is the first station whose id, as `i32`, is `station`.
pub open spec fn is_first_station_with(stations: Seq<StationConfig>, station: i32, i: int) -> bool {
    &&& 0 <= i < stations.len()
    &&& stations[i].id as i32 == station
    &&& forall|j: int| 0 <= j < i ==> stations[j].id as i32 != station
}

/// Flow meter slave id of the first station whose id, as `i32`, is `station`.
pub open spec fn spec_flow_meter_slave_of(stations: Seq<StationConfig>, station: i32) -> Option<u8> {
    if exists|i: int| is_first_station_with(stations, station, i) {
        stations[choose|i: int| is_first_station_with(stations, station, i)].flow_meter_slave_id
    } else {
        None
    }
}

proof fn lemma_first_station_with_id(stations: Seq<StationConfig>, station: i32, i: int)
    requires
        is_first_station_with(stations, station, i),
    ensures
        spec_flow_meter_slave_of(stations, station) == stations[i].flow_meter_slave_id,
{
    let k = choose|k: int| is_first_station_with(stations, station, k);
    assert(is_first_station_with(stations, station, k));
    if k < i {
        assert(stations[k].id as i32 != station);
    }
    if i < k {
        assert(stations[i].id as i32 != station);
    }
}

} // verus!
