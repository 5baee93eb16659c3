use std::collections::HashMap;
use vstd::prelude::*;
use vstd::std_specs::iter::IteratorSpec;

use crate::config::{Config, StationConfig};
use crate::models::StationInfo;
use crate::gpio::{is_pressed, InputPin, Level, OutputPin};
use crate::localtime::{prague_local, prague_local_time, LocalDateTime};
use crate::text::{
    clone_opt_string, decimal_chars, decimal_string, digit_char, digit_str, pad_left_with_zeros,
    pad_left_zeros,
};
use crate::wiegand::{elapsed_ns, WiegandEvent};

verus! {

broadcast use vstd::std_specs::hash::group_hash_axioms;

/// Status of a fuel station.
#[derive(Debug, Clone, Copy, PartialEq, Eq, Structural)]
pub enum StationStatus {
    Idle,
    Waiting,
    On,
    Pause,
}

/// Lower-case name of a status, as shown by the web API.
pub open spec fn status_name(s: StationStatus) -> Seq<char> {
    match s {
        StationStatus::Idle => seq!['i', 'd', 'l', 'e'],
        StationStatus::Waiting => seq!['w', 'a', 'i', 't', 'i', 'n', 'g'],
        StationStatus::On => seq!['o', 'n'],
        StationStatus::Pause => seq!['p', 'a', 'u', 's', 'e'],
    }
}

impl StationStatus {
    /// The lower-case name of the status ("idle", "waiting", "on", "pause").
    pub fn to_string(&self) -> (s: String)
        ensures
            s@ == status_name(*self),
    {
        match self {
            StationStatus::Idle => {
                proof {
                    reveal_strlit("idle");
                }
                let s = String::from_str("idle");
                assert(s@ =~= status_name(*self));
                s
            },
            StationStatus::Waiting => {
                proof {
                    reveal_strlit("waiting");
                }
                let s = String::from_str("waiting");
                assert(s@ =~= status_name(*self));
                s
            },
            StationStatus::On => {
                proof {
                    reveal_strlit("on");
                }
                let s = String::from_str("on");
                assert(s@ =~= status_name(*self));
                s
            },
            StationStatus::Pause => {
                proof {
                    reveal_strlit("pause");
                }
                let s = String::from_str("pause");
                assert(s@ =~= status_name(*self));
                s
            },
        }
    }
}

/// Nanoseconds per second.
pub const NS_PER_SEC: u64 = 1_000_000_000;

/// Time a station may stay authorized but not started.
pub const WAIT_TIMEOUT_NS: u64 = 10 * NS_PER_SEC;

/// Safety limit for a relay kept on without interruption.
pub const SAFE_TIMEOUT_NS: u64 = 5 * 60 * NS_PER_SEC;

/// Time after the last key press when partial keypad input is dropped.
pub const KEYPAD_TIMEOUT_NS: u64 = 5 * NS_PER_SEC;

/// Runtime state of one station.
///
/// `*_ns` fields of type `u64` are monotonic clock readings; those of type
/// `i64` are wall-clock instants (nanoseconds since the Unix epoch).
#[derive(Debug)]
pub struct StationRuntime {
    pub cfg: StationConfig,
    pub status: StationStatus,
    pub relay_pin: OutputPin,
    pub led_pin: OutputPin,
    pub buzzer_pin: Option<OutputPin>,
    pub start_pin: InputPin,
    pub stop_pin: InputPin,
    pub pause_pin: Option<InputPin>,
    /// Flow meter total when the station started (bits of an `f32`).
    pub flow_meter_start: u32,
    /// Accumulated keypad digits (cleared on timeout / enter).
    pub keypad_code: String,
    pub keypad_last_key_ns: u64,
    /// When the station was activated (relay turned on).
    pub relay_start_ns: Option<i64>,
    pub last_resume_ns: Option<i64>,
    /// Accumulated length in seconds from previous ON segments (before pause).
    pub accumulated_length: i64,
    /// Database user id of the current session.
    pub active_user_id: Option<i32>,
    pub active_user_name: Option<String>,
    /// Timer for the WAITING to IDLE timeout.
    pub waiting_since_ns: Option<u64>,
    /// Timer for the safety auto-off.
    pub relay_on_since_ns: Option<u64>,
    /// Buzzer blink tick counter.
    pub buzzer_tick: u32,
}

/// Mathematical model of `StationRuntime`: strings are character sequences.
#[verifier::ext_equal]
pub struct StationState {
    pub cfg: StationConfig,
    pub status: StationStatus,
    pub relay_pin: OutputPin,
    pub led_pin: OutputPin,
    pub buzzer_pin: Option<OutputPin>,
    pub start_pin: InputPin,
    pub stop_pin: InputPin,
    pub pause_pin: Option<InputPin>,
    pub flow_meter_start: u32,
    pub keypad_code: Seq<char>,
    pub keypad_last_key_ns: u64,
    pub relay_start_ns: Option<i64>,
    pub last_resume_ns: Option<i64>,
    pub accumulated_length: i64,
    pub active_user_id: Option<i32>,
    pub active_user_name: Option<Seq<char>>,
    pub waiting_since_ns: Option<u64>,
    pub relay_on_since_ns: Option<u64>,
    pub buzzer_tick: u32,
}

/// View of an optional string.
pub open spec fn opt_str_view(s: Option<String>) -> Option<Seq<char>> {
    match s {
        Some(v) => Some(v@),
        None => None,
    }
}

impl View for StationRuntime {
    type V = StationState;

    open spec fn view(&self) -> StationState {
        StationState {
            cfg: self.cfg,
            status: self.status,
            relay_pin: self.relay_pin,
            led_pin: self.led_pin,
            buzzer_pin: self.buzzer_pin,
            start_pin: self.start_pin,
            stop_pin: self.stop_pin,
            pause_pin: self.pause_pin,
            flow_meter_start: self.flow_meter_start,
            keypad_code: self.keypad_code@,
            keypad_last_key_ns: self.keypad_last_key_ns,
            relay_start_ns: self.relay_start_ns,
            last_resume_ns: self.last_resume_ns,
            accumulated_length: self.accumulated_length,
            active_user_id: self.active_user_id,
            active_user_name: opt_str_view(self.active_user_name),
            waiting_since_ns: self.waiting_since_ns,
            relay_on_since_ns: self.relay_on_since_ns,
            buzzer_tick: self.buzzer_tick,
        }
    }
}

/// The pin driven high.
pub open spec fn pin_high(p: OutputPin) -> OutputPin {
    OutputPin { pin: p.pin, level: Level::High }
}

/// The pin driven low.
pub open spec fn pin_low(p: OutputPin) -> OutputPin {
    OutputPin { pin: p.pin, level: Level::Low }
}

pub open spec fn opt_pin_high(p: Option<OutputPin>) -> Option<OutputPin> {
    match p {
        Some(q) => Some(pin_high(q)),
        None => None,
    }
}

pub open spec fn opt_pin_low(p: Option<OutputPin>) -> Option<OutputPin> {
    match p {
        Some(q) => Some(pin_low(q)),
        None => None,
    }
}

/// `s` is the freshly set-up runtime of station `cfg`: idle, all outputs
/// released (high), no session.
pub open spec fn is_initial_state(s: StationState, cfg: StationConfig, now_ns: u64) -> bool {
    &&& s.cfg == cfg
    &&& s.status == StationStatus::Idle
    &&& s.relay_pin == (OutputPin { pin: cfg.relay_gpio, level: Level::High })
    &&& s.led_pin == (OutputPin { pin: cfg.keyboard_led_gpio, level: Level::High })
    &&& s.buzzer_pin == (match cfg.buzzer_gpio {
        Some(p) => Some(OutputPin { pin: p, level: Level::High }),
        None => None,
    })
    &&& s.start_pin == (InputPin { pin: cfg.start_gpio })
    &&& s.stop_pin == (InputPin { pin: cfg.stop_gpio })
    &&& s.pause_pin == (match cfg.pause_gpio {
        Some(p) => Some(InputPin { pin: p }),
        None => None,
    })
    &&& s.flow_meter_start == 0
    &&& s.keypad_code == Seq::<char>::empty()
    &&& s.keypad_last_key_ns == now_ns
    &&& s.relay_start_ns.is_none()
    &&& s.last_resume_ns.is_none()
    &&& s.accumulated_length == 0
    &&& s.active_user_id.is_none()
    &&& s.active_user_name.is_none()
    &&& s.waiting_since_ns.is_none()
    &&& s.relay_on_since_ns.is_none()
    &&& s.buzzer_tick == 0
}

/// State after a session ends: outputs released, idle, session data cleared.
/// Keypad input and configuration are kept.
pub open spec fn spec_reset(s: StationState) -> StationState {
    StationState {
        relay_pin: pin_high(s.relay_pin),
        led_pin: pin_high(s.led_pin),
        buzzer_pin: opt_pin_high(s.buzzer_pin),
        status: StationStatus::Idle,
        relay_start_ns: None,
        last_resume_ns: None,
        waiting_since_ns: None,
        relay_on_since_ns: None,
        active_user_id: None,
        active_user_name: None,
        accumulated_length: 0,
        flow_meter_start: 0,
        buzzer_tick: 0,
        ..s
    }
}

/// Whole seconds in a signed duration of `d` nanoseconds, truncated toward zero.
pub open spec fn whole_seconds(d: int) -> int {
    if d >= 0 {
        d / NS_PER_SEC as int
    } else {
        -((-d) / NS_PER_SEC as int)
    }
}

/// Length of the session in seconds at wall-clock `now_ns`: the accumulated
/// length plus the running segment since the last resume, if any.
pub open spec fn spec_length_at(s: StationState, now_ns: i64) -> int {
    match s.last_resume_ns {
        Some(r) => s.accumulated_length + whole_seconds(now_ns - r),
        None => s.accumulated_length as int,
    }
}

/// The session length at `now_ns` fits in an `i64`.
pub open spec fn length_fits(s: StationState, now_ns: i64) -> bool {
    i64::MIN <= spec_length_at(s, now_ns) <= i64::MAX
}

/// State after adding the running segment to the accumulated length.
pub open spec fn spec_accumulate(s: StationState, now_ns: i64) -> StationState {
    StationState { accumulated_length: spec_length_at(s, now_ns) as i64, ..s }
}

/// Log entry data taken from a station when its session ends.
#[derive(Debug, Clone, Copy, PartialEq, Eq, Structural)]
pub struct LogRecord {
    pub user_id: i32,
    pub station: i32,
    /// Start of the session in Prague local time, if it was started.
    pub created_at: Option<LocalDateTime>,
    pub length: i32,
    /// Flow meter total when the session started (bits of an `f32`).
    pub flow_meter_start: u32,
}

/// The log entry for the session of `s`.
pub open spec fn spec_log_record(s: StationState) -> LogRecord {
    LogRecord {
        user_id: match s.active_user_id {
            Some(u) => u,
            None => 0,
        },
        station: s.cfg.id as i32,
        created_at: match s.relay_start_ns {
            Some(ns) => Some(prague_local(ns)),
            None => None,
        },
        length: s.accumulated_length as i32,
        flow_meter_start: s.flow_meter_start,
    }
}

/// Levels read from a station's buttons (`pause` absent without a button).
#[derive(Debug, Clone, Copy, PartialEq, Eq, Structural)]
pub struct ButtonLevels {
    pub start: Level,
    pub stop: Level,
    pub pause: Option<Level>,
}

pub open spec fn pause_pressed(b: ButtonLevels) -> bool {
    match b.pause {
        Some(l) => is_pressed(l),
        None => false,
    }
}

/// What polling one station asks of the caller.
#[derive(Debug, Clone, Copy, PartialEq, Eq, Structural)]
pub enum StationStep {
    /// Go on with the next station; `started` tells that the station just
    /// started, so that a snapshot is wanted when it has a camera and the
    /// flow meter total when it has a flow meter.
    Proceed { started: bool },
    /// A session ended: save this log and stop polling for this round.
    Stop { log: LogRecord },
}

/// State after keypad input older than the keypad timeout is dropped.
pub open spec fn spec_keypad_timeout(s: StationState, mono_ns: u64) -> StationState {
    if s.keypad_code.len() > 0 && elapsed_ns(s.keypad_last_key_ns, mono_ns) > KEYPAD_TIMEOUT_NS {
        StationState { keypad_code: Seq::empty(), ..s }
    } else {
        s
    }
}

/// State after START on a waiting station: relay and buzzer on, the session
/// of the authorized user opened.
pub open spec fn spec_start(s: StationState, mono_ns: u64, wall_ns: i64) -> StationState {
    StationState {
        waiting_since_ns: None,
        relay_pin: pin_low(s.relay_pin),
        buzzer_pin: opt_pin_low(s.buzzer_pin),
        relay_start_ns: Some(wall_ns),
        last_resume_ns: Some(wall_ns),
        accumulated_length: 0,
        relay_on_since_ns: Some(mono_ns),
        status: StationStatus::On,
        ..s
    }
}

/// State after PAUSE on a running station: relay off, length accumulated.
pub open spec fn spec_pause(s: StationState, wall_ns: i64) -> StationState {
    StationState {
        relay_pin: pin_high(s.relay_pin),
        relay_on_since_ns: None,
        status: StationStatus::Pause,
        ..spec_accumulate(s, wall_ns)
    }
}

/// Buzzer blinking while paused: on for 3 ticks out of 10.
pub open spec fn spec_blink(s: StationState) -> StationState {
    match s.buzzer_pin {
        Some(p) => StationState {
            buzzer_pin: Some(
                if s.buzzer_tick % 10 < 3 {
                    pin_low(p)
                } else {
                    pin_high(p)
                },
            ),
            buzzer_tick: vstd::wrapping::u32_specs::wrapping_add(s.buzzer_tick, 1),
            ..s
        },
        None => s,
    }
}

/// State after START on a paused station: relay and buzzer on again.
pub open spec fn spec_resume(s: StationState, mono_ns: u64, wall_ns: i64) -> StationState {
    StationState {
        relay_pin: pin_low(s.relay_pin),
        buzzer_pin: opt_pin_low(s.buzzer_pin),
        last_resume_ns: Some(wall_ns),
        relay_on_since_ns: Some(mono_ns),
        status: StationStatus::On,
        ..s
    }
}

/// One poll of a station with button levels `b` at monotonic time `mono_ns`
/// and wall-clock time `wall_ns`.
pub open spec fn spec_poll_station(s0: StationState, b: ButtonLevels, mono_ns: u64, wall_ns: i64) -> (
    StationState,
    StationStep,
) {
    let s = spec_keypad_timeout(s0, mono_ns);
    let start = is_pressed(b.start);
    let stop = is_pressed(b.stop);
    match s.status {
        StationStatus::Idle => (s, StationStep::Proceed { started: false }),
        StationStatus::On => {
            if (s.relay_on_since_ns is Some && elapsed_ns(s.relay_on_since_ns.unwrap(), mono_ns)
                > SAFE_TIMEOUT_NS) || stop {
                let a = spec_accumulate(s, wall_ns);
                (spec_reset(a), StationStep::Stop { log: spec_log_record(a) })
            } else if pause_pressed(b) {
                (spec_pause(s, wall_ns), StationStep::Proceed { started: false })
            } else {
                (s, StationStep::Proceed { started: false })
            }
        },
        StationStatus::Pause => {
            let s1 = spec_blink(s);
            if stop {
                (spec_reset(s1), StationStep::Stop { log: spec_log_record(s1) })
            } else if start {
                (spec_resume(s1, mono_ns, wall_ns), StationStep::Proceed { started: false })
            } else {
                (s1, StationStep::Proceed { started: false })
            }
        },
        StationStatus::Waiting => {
            if s.waiting_since_ns is Some && elapsed_ns(s.waiting_since_ns.unwrap(), mono_ns)
                > WAIT_TIMEOUT_NS {
                (spec_reset(s), StationStep::Proceed { started: false })
            } else if start {
                (spec_start(s, mono_ns, wall_ns), StationStep::Proceed { started: true })
            } else {
                (s, StationStep::Proceed { started: false })
            }
        },
    }
}

impl StationRuntime {
    /// The runtime of station `cfg` as set up: idle, outputs released.
    pub fn new(cfg: StationConfig, now_ns: u64) -> (r: StationRuntime)
        ensures
            is_initial_state(r@, cfg, now_ns),
    {
        let relay_pin = OutputPin::new_high(cfg.relay_gpio);
        let led_pin = OutputPin::new_high(cfg.keyboard_led_gpio);
        let buzzer_pin = match cfg.buzzer_gpio {
            Some(p) => Some(OutputPin::new_high(p)),
            None => None,
        };
        let start_pin = InputPin::new(cfg.start_gpio);
        let stop_pin = InputPin::new(cfg.stop_gpio);
        let pause_pin = match cfg.pause_gpio {
            Some(p) => Some(InputPin::new(p)),
            None => None,
        };
        StationRuntime {
            cfg,
            status: StationStatus::Idle,
            relay_pin,
            led_pin,
            buzzer_pin,
            start_pin,
            stop_pin,
            pause_pin,
            flow_meter_start: 0,
            keypad_code: String::new(),
            keypad_last_key_ns: now_ns,
            relay_start_ns: None,
            last_resume_ns: None,
            accumulated_length: 0,
            active_user_id: None,
            active_user_name: None,
            waiting_since_ns: None,
            relay_on_since_ns: None,
            buzzer_tick: 0,
        }
    }

    /// Ends the session: releases all outputs and clears session data.
    pub fn reset_station(&mut self)
        ensures
            final(self)@ == spec_reset(old(self)@),
    {
        self.relay_pin.set_high();
        self.led_pin.set_high();
        match &mut self.buzzer_pin {
            Some(buz) => buz.set_high(),
            None => {},
        }
        self.status = StationStatus::Idle;
        self.relay_start_ns = None;
        self.last_resume_ns = None;
        self.waiting_since_ns = None;
        self.relay_on_since_ns = None;
        self.active_user_id = None;
        self.active_user_name = None;
        self.accumulated_length = 0;
        self.flow_meter_start = 0;
        self.buzzer_tick = 0;
    }

    /// Adds the running segment (since the last resume) to the accumulated length.
    pub fn accumulate_length(&mut self, now_ns: i64)
        requires
            length_fits(old(self)@, now_ns),
        ensures
            final(self)@ == spec_accumulate(old(self)@, now_ns),
    {
        match self.last_resume_ns {
            Some(resume) => {
                let delta = whole_seconds_between(resume, now_ns);
                self.accumulated_length = self.accumulated_length + delta;
            },
            None => {},
        }
    }

    /// The log entry data of the current session.
    pub fn extract_log_info(&self) -> (r: LogRecord)
        ensures
            r == spec_log_record(self@),
    {
        LogRecord {
            user_id: match self.active_user_id {
                Some(u) => u,
                None => 0,
            },
            station: self.cfg.id as i32,
            created_at: match self.relay_start_ns {
                Some(ns) => Some(prague_local_time(ns)),
                None => None,
            },
            length: self.accumulated_length as i32,
            flow_meter_start: self.flow_meter_start,
        }
    }
}

impl StationRuntime {
    /// Polls the station once: drops stale keypad input, then reacts to the
    /// buttons and timers according to the station status.
    pub fn poll_station(&mut self, b: ButtonLevels, mono_ns: u64, wall_ns: i64) -> (r: StationStep)
        requires
            length_fits(old(self)@, wall_ns),
        ensures
            (final(self)@, r) == spec_poll_station(old(self)@, b, mono_ns, wall_ns),
    {
        if !self.keypad_code.as_str().is_empty() && mono_ns.saturating_sub(
            self.keypad_last_key_ns,
        ) > KEYPAD_TIMEOUT_NS {
            self.keypad_code = String::new();
        }
        let start_pressed = b.start == Level::Low;
        let stop_pressed = b.stop == Level::Low;
        let pause_pressed = match b.pause {
            Some(l) => l == Level::Low,
            None => false,
        };
        match self.status {
            StationStatus::Idle => StationStep::Proceed { started: false },
            StationStatus::On => {
                let safety_expired = match self.relay_on_since_ns {
                    Some(since) => mono_ns.saturating_sub(since) > SAFE_TIMEOUT_NS,
                    None => false,
                };
                if safety_expired || stop_pressed {
                    self.accumulate_length(wall_ns);
                    let log = self.extract_log_info();
                    self.reset_station();
                    return StationStep::Stop { log };
                }
                if pause_pressed {
                    self.relay_pin.set_high();
                    self.accumulate_length(wall_ns);
                    self.relay_on_since_ns = None;
                    self.status = StationStatus::Pause;
                }
                StationStep::Proceed { started: false }
            },
            StationStatus::Pause => {
                match &mut self.buzzer_pin {
                    Some(buz) => {
                        let t = self.buzzer_tick;
                        self.buzzer_tick = t.wrapping_add(1);
                        if t % 10 < 3 {
                            buz.set_low();
                        } else {
                            buz.set_high();
                        }
                    },
                    None => {},
                }
                if stop_pressed {
                    let log = self.extract_log_info();
                    self.reset_station();
                    return StationStep::Stop { log };
                }
                if start_pressed {
                    self.relay_pin.set_low();
                    match &mut self.buzzer_pin {
                        Some(buz) => buz.set_low(),
                        None => {},
                    }
                    self.last_resume_ns = Some(wall_ns);
                    self.relay_on_since_ns = Some(mono_ns);
                    self.status = StationStatus::On;
                }
                StationStep::Proceed { started: false }
            },
            StationStatus::Waiting => {
                match self.waiting_since_ns {
                    Some(since) => {
                        if mono_ns.saturating_sub(since) > WAIT_TIMEOUT_NS {
                            self.reset_station();
                            return StationStep::Proceed { started: false };
                        }
                    },
                    None => {},
                }
                if start_pressed {
                    self.waiting_since_ns = None;
                    self.relay_pin.set_low();
                    match &mut self.buzzer_pin {
                        Some(buz) => buz.set_low(),
                        None => {},
                    }
                    self.relay_start_ns = Some(wall_ns);
                    self.last_resume_ns = Some(wall_ns);
                    self.accumulated_length = 0;
                    self.relay_on_since_ns = Some(mono_ns);
                    self.status = StationStatus::On;
                    return StationStep::Proceed { started: true };
                }
                StationStep::Proceed { started: false }
            },
        }
    }
}

/// A station with id `id` exists.
pub open spec fn has_station(st: Map<u32, StationState>, id: u32) -> bool {
    st.dom().contains(id)
}

/// Each station is filed under its own configured id.
pub open spec fn ids_match(st: Map<u32, StationState>) -> bool {
    forall|id: u32| #[trigger] st.dom().contains(id) ==> st[id].cfg.id == id
}

/// `order` walks the ids of `dom`, each exactly once.
pub open spec fn walk_order(order: Seq<u32>, dom: Set<u32>) -> bool {
    &&& order.no_duplicates()
    &&& forall|id: u32| dom.contains(id) <==> #[trigger] order.contains(id)
}

/// The stations of the fuel logger, in a hash map keyed by station id.
pub struct StationManager {
    stations: HashMap<u32, StationRuntime>,
}

/// Models of the station runtimes of a map.
pub open spec fn states_of(m: Map<u32, StationRuntime>) -> Map<u32, StationState> {
    m.map_values(|r: StationRuntime| r@)
}

impl View for StationManager {
    type V = Map<u32, StationState>;

    closed spec fn view(&self) -> Map<u32, StationState> {
        states_of(self.stations@)
    }
}

/// The last configuration in `cfgs` with id `id`: later entries replace
/// earlier ones.
pub open spec fn last_config_with_id(cfgs: Seq<StationConfig>, id: u32) -> Option<StationConfig>
    decreases cfgs.len(),
{
    if cfgs.len() == 0 {
        None
    } else if cfgs.last().id == id {
        Some(cfgs.last())
    } else {
        last_config_with_id(cfgs.drop_last(), id)
    }
}

/// Some entry of `cfgs` has id `id`.
pub open spec fn configured(cfgs: Seq<StationConfig>, id: u32) -> bool {
    exists|j: int| 0 <= j < cfgs.len() && cfgs[j].id == id
}

/// `st` holds one freshly set-up station for each id of `cfgs`, configured by
/// the last entry with that id.
pub open spec fn built_from(st: Map<u32, StationState>, cfgs: Seq<StationConfig>, now_ns: u64) -> bool {
    &&& forall|id: u32| #[trigger] st.dom().contains(id) <==> configured(cfgs, id)
    &&& forall|id: u32|
        #[trigger] st.dom().contains(id) ==> last_config_with_id(cfgs, id) == Some(st[id].cfg)
            && is_initial_state(st[id], st[id].cfg, now_ns)
}

proof fn lemma_states_insert(m: Map<u32, StationRuntime>, id: u32, r: StationRuntime)
    ensures
        states_of(m.insert(id, r)) == states_of(m).insert(id, r@),
{
    assert(states_of(m.insert(id, r)) =~= states_of(m).insert(id, r@));
}

proof fn lemma_states_remove(m: Map<u32, StationRuntime>, id: u32)
    ensures
        states_of(m.remove(id)) == states_of(m).remove(id),
{
    assert(states_of(m.remove(id)) =~= states_of(m).remove(id));
}

impl StationManager {
    /// The manager is well formed: each station is filed under its own id.
    pub open spec fn wf(&self) -> bool {
        ids_match(self@)
    }

    /// The station runtimes, keyed by station id.
    pub fn stations(&self) -> (r: &HashMap<u32, StationRuntime>)
        ensures
            states_of(r@) == self@,
    {
        &self.stations
    }

    /// The runtime of station `id`, if configured.
    pub fn station(&self, id: u32) -> (r: Option<&StationRuntime>)
        ensures
            match r {
                Some(s) => has_station(self@, id) && s@ == self@[id],
                None => !has_station(self@, id),
            },
    {
        self.stations.get(&id)
    }

    /// The station ids, in the order in which the map walks them.
    pub fn station_ids(&self) -> (ids: Vec<u32>)
        ensures
            walk_order(ids@, self@.dom()),
            ids@.len() == self@.dom().len(),
    {
        let mut v: Vec<u32> = Vec::new();
        let ghost ks = vstd::std_specs::hash::spec_keys_iter(&self.stations).remaining().unref();
        for k in it: self.stations.keys()
            invariant
                it.seq().unref() == ks,
                v@ == it.seq().take(it.index()).unref(),
                v@.len() == it.index(),
                ks.to_set() == self.stations@.dom(),
                ks.no_duplicates(),
                ks.len() == self.stations@.dom().len(),
        {
            v.push(*k);
            proof {
                assert(it.seq().take(it.index() + 1).unref() =~= v@);
            }
        }
        assert(v@ =~= ks);
        assert(self@.dom() =~= self.stations@.dom());
        assert forall|id: u32| self@.dom().contains(id) <==> #[trigger] v@.contains(id) by {
            if v@.contains(id) {
                assert(ks.to_set().contains(id));
            }
            if self@.dom().contains(id) {
                assert(ks.to_set().contains(id));
            }
        }
        v
    }

    /// Takes station `id` out of the map.
    fn take_out(&mut self, id: u32) -> (s: StationRuntime)
        requires
            has_station(old(self)@, id),
            old(self).wf(),
        ensures
            s@ == old(self)@[id],
            s.cfg.id == id,
            final(self)@ == old(self)@.remove(id),
            final(self).wf(),
    {
        assert(old(self)@.dom().contains(id));
        assert(old(self)@[id].cfg.id == id);
        let s = self.stations.remove(&id);
        proof {
            lemma_states_remove(old(self).stations@, id);
        }
        s.unwrap()
    }

    /// Puts station `id` back into the map.
    fn put_back(&mut self, id: u32, s: StationRuntime)
        requires
            old(self).wf(),
            s.cfg.id == id,
        ensures
            final(self)@ == old(self)@.insert(id, s@),
            final(self).wf(),
    {
        proof {
            lemma_states_insert(self.stations@, id, s);
        }
        self.stations.insert(id, s);
    }

    /// Sets up one station per configured id (a later entry with the same id
    /// replaces an earlier one), all idle with outputs released.
    pub fn new(config: &Config, now_ns: u64) -> (m: StationManager)
        ensures
            m.wf(),
            built_from(m@, config.stations@, now_ns),
            all_invariant(m@),
            relays_follow_status(m@),
    {
        let mut m = StationManager { stations: HashMap::new() };
        assert(m@ =~= Map::<u32, StationState>::empty());
        let mut k: usize = 0;
        while k < config.stations.len()
            invariant
                k <= config.stations@.len(),
                m.wf(),
                built_from(m@, config.stations@.take(k as int), now_ns),
            decreases config.stations.len() - k,
        {
            let cfg = config.stations[k].duplicate();
            let ghost prev = m@;
            let ghost cfgs = config.stations@.take(k + 1);
            assert(cfgs.drop_last() =~= config.stations@.take(k as int));
            assert(cfgs.last() == cfg);
            let id = cfg.id;
            let rt = StationRuntime::new(cfg, now_ns);
            m.put_back(id, rt);
            proof {
                let cur = m@;
                assert forall|i: u32| #[trigger] cur.dom().contains(i) <==> configured(cfgs, i) by {
                    if configured(config.stations@.take(k as int), i) {
                        let j = choose|j: int|
                            0 <= j < config.stations@.take(k as int).len()
                                && config.stations@.take(k as int)[j].id == i;
                        assert(cfgs[j] == config.stations@.take(k as int)[j]);
                    }
                    if configured(cfgs, i) && i != id {
                        let j = choose|j: int| 0 <= j < cfgs.len() && cfgs[j].id == i;
                        assert(j < k);
                        assert(config.stations@.take(k as int)[j] == cfgs[j]);
                    }
                    if i == id {
                        assert(cfgs[k as int].id == i);
                    }
                }
            }
            k += 1;
        }
        assert(config.stations@.take(config.stations@.len() as int) =~= config.stations@);
        proof {
            assert forall|id: u32| #[trigger] m@.dom().contains(id) implies station_invariant(m@[id]) by {
                lemma_initial_invariant(m@[id], m@[id].cfg, now_ns);
            }
            lemma_initial_relays(m@, config.stations@, now_ns);
        }
        m
    }
}

/// Session length shown for a station: the running length while on, the
/// accumulated length while paused, none otherwise.
pub open spec fn spec_current_length(s: StationState, wall_ns: i64) -> Option<i64> {
    match s.status {
        StationStatus::On => match s.last_resume_ns {
            Some(_) => Some(spec_length_at(s, wall_ns) as i64),
            None => None,
        },
        StationStatus::Pause => Some(s.accumulated_length),
        _ => None,
    }
}

/// `info` shows station `s` at wall-clock time `wall_ns`.
pub open spec fn info_shows(info: StationInfo, s: StationState, wall_ns: i64) -> bool {
    &&& info.id == s.cfg.id
    &&& info.name@ == s.cfg.name@
    &&& info.status@ == status_name(s.status)
    &&& info.current_length_secs == spec_current_length(s, wall_ns)
    &&& info.pulses_count == 0
    &&& opt_str_view(info.active_user) == s.active_user_name
}

/// Ids of a list of station infos.
pub open spec fn info_ids(infos: Seq<StationInfo>) -> Seq<u32> {
    infos.map_values(|x: StationInfo| x.id)
}

/// Every station's session length at `wall_ns` fits in an `i64`.
pub open spec fn all_lengths_fit(st: Map<u32, StationState>, wall_ns: i64) -> bool {
    forall|id: u32| #[trigger] st.dom().contains(id) ==> length_fits(st[id], wall_ns)
}

/// Outputs released, everything else unchanged.
pub open spec fn spec_release(s: StationState) -> StationState {
    StationState {
        relay_pin: pin_high(s.relay_pin),
        led_pin: pin_high(s.led_pin),
        buzzer_pin: opt_pin_high(s.buzzer_pin),
        ..s
    }
}

impl StationManager {
    /// What the dashboard shows of every station at `wall_ns`, sorted by id.
    pub fn get_stations_info(&self, wall_ns: i64) -> (infos: Vec<StationInfo>)
        requires
            self.wf(),
            all_lengths_fit(self@, wall_ns),
        ensures
            forall|id: u32| self@.dom().contains(id) <==> #[trigger] info_ids(infos@).contains(id),
            forall|i: int|
                0 <= i < infos@.len() ==> info_shows(
                    #[trigger] infos@[i],
                    self@[infos@[i].id],
                    wall_ns,
                ),
            forall|i: int, j: int| 0 <= i < j < infos@.len() ==> infos@[i].id < infos@[j].id,
            infos@.len() == self@.dom().len(),
    {
        let ids = self.station_ids();
        let mut infos: Vec<StationInfo> = Vec::new();
        let mut k: usize = 0;
        while k < ids.len()
            invariant
                k <= ids@.len(),
                walk_order(ids@, self@.dom()),
                ids@.len() == self@.dom().len(),
                self.wf(),
                all_lengths_fit(self@, wall_ns),
                infos@.len() == k,
                forall|id: u32| ids@.take(k as int).contains(id) <==> #[trigger] info_ids(infos@).contains(id),
                forall|i: int|
                    0 <= i < infos@.len() ==> self@.dom().contains(#[trigger] infos@[i].id) && info_shows(
                        infos@[i],
                        self@[infos@[i].id],
                        wall_ns,
                    ),
                forall|i: int, j: int| 0 <= i < j < infos@.len() ==> infos@[i].id < infos@[j].id,
            decreases ids.len() - k,
        {
            let id = ids[k];
            assert(ids@.contains(id));
            let s = self.stations.get(&id).unwrap();
            assert(s@ == self@[id]);
            let current = match s.status {
                StationStatus::On => match s.last_resume_ns {
                    Some(resume) => Some(s.accumulated_length + whole_seconds_between(resume, wall_ns)),
                    None => None,
                },
                StationStatus::Pause => Some(s.accumulated_length),
                _ => None,
            };
            let info = StationInfo {
                id: s.cfg.id,
                name: s.cfg.name.clone(),
                status: s.status.to_string(),
                current_length_secs: current,
                pulses_count: 0,
                active_user: clone_opt_string(&s.active_user_name),
            };
            // First position whose id is above `id`.
            let ghost prev = infos@;
            let mut pos: usize = 0;
            while pos < infos.len() && infos[pos].id < id
                invariant
                    pos <= infos@.len(),
                    infos@ == prev,
                    forall|j: int| 0 <= j < pos ==> prev[j].id < id,
                decreases infos.len() - pos,
            {
                pos += 1;
            }
            proof {
                assert(!ids@.take(k as int).contains(id)) by {
                    if ids@.take(k as int).contains(id) {
                        let j = choose|j: int| 0 <= j < k && ids@.take(k as int)[j] == id;
                        assert(ids@[j] == ids@[k as int]);
                    }
                }
                assert(!info_ids(prev).contains(id));
                if pos < prev.len() {
                    assert(prev[pos as int].id != id) by {
                        assert(info_ids(prev)[pos as int] == prev[pos as int].id);
                    }
                }
            }
            infos.insert(pos, info);
            proof {
                let cur = infos@;
                assert(cur =~= prev.insert(pos as int, info));
                let t0 = ids@.take(k as int);
                let t1 = ids@.take(k + 1);
                assert(t1 =~= t0.push(id));
                assert forall|x: u32| t1.contains(x) <==> #[trigger] info_ids(cur).contains(x) by {
                    if info_ids(cur).contains(x) {
                        let j = choose|j: int| 0 <= j < info_ids(cur).len() && info_ids(cur)[j] == x;
                        if j == pos {
                            assert(t1[k as int] == x);
                        } else {
                            let jj = if j < pos {
                                j
                            } else {
                                j - 1
                            };
                            assert(info_ids(prev)[jj] == x);
                            assert(info_ids(prev).contains(x));
                            assert(t0.contains(x));
                            let w = choose|w: int| 0 <= w < t0.len() && t0[w] == x;
                            assert(t1[w] == x);
                        }
                    }
                    if t1.contains(x) {
                        let w = choose|w: int| 0 <= w < t1.len() && t1[w] == x;
                        if w == k {
                            assert(info_ids(cur)[pos as int] == x);
                        } else {
                            assert(t0[w] == x);
                            assert(t0.contains(x));
                            assert(info_ids(prev).contains(x));
                            let j = choose|j: int|
                                0 <= j < info_ids(prev).len() && info_ids(prev)[j] == x;
                            if j < pos {
                                assert(info_ids(cur)[j] == x);
                            } else {
                                assert(info_ids(cur)[j + 1] == x);
                            }
                        }
                    }
                }
                assert forall|a: int, b: int| 0 <= a < b < cur.len() implies cur[a].id < cur[b].id by {
                    if b == pos {
                        assert(cur[a] == prev[a]);
                    } else if a == pos {
                        assert(cur[b] == prev[b - 1]);
                        assert(prev[pos as int].id >= id);
                        if b - 1 > pos {
                            assert(prev[pos as int].id < prev[b - 1].id);
                        }
                    } else if a < pos && b > pos {
                        assert(cur[a] == prev[a]);
                        assert(cur[b] == prev[b - 1]);
                    } else if a > pos {
                        assert(cur[a] == prev[a - 1]);
                        assert(cur[b] == prev[b - 1]);
                    }
                }
                assert forall|i: int| 0 <= i < cur.len() implies self@.dom().contains(
                    #[trigger] cur[i].id,
                ) && info_shows(cur[i], self@[cur[i].id], wall_ns) by {
                    if i < pos {
                        assert(cur[i] == prev[i]);
                    } else if i > pos {
                        assert(cur[i] == prev[i - 1]);
                    }
                }
            }
            k += 1;
        }
        assert(ids@.take(ids@.len() as int) =~= ids@);
        infos
    }

    /// Releases every output (relay, keypad LED, buzzer) of every station.
    pub fn shutdown(&mut self)
        requires
            old(self).wf(),
        ensures
            final(self).wf(),
            final(self)@.dom() == old(self)@.dom(),
            forall|id: u32|
                #[trigger] old(self)@.dom().contains(id) ==> final(self)@[id] == spec_release(
                    old(self)@[id],
                ),
    {
        let ghost orig = self@;
        let ids = self.station_ids();
        let mut k: usize = 0;
        while k < ids.len()
            invariant
                k <= ids@.len(),
                walk_order(ids@, orig.dom()),
                self.wf(),
                self@.dom() == orig.dom(),
                forall|j: int| 0 <= j < k ==> self@[#[trigger] ids@[j]] == spec_release(orig[ids@[j]]),
                forall|j: int| k <= j < ids@.len() ==> self@[#[trigger] ids@[j]] == orig[ids@[j]],
            decreases ids.len() - k,
        {
            let id = ids[k];
            assert(ids@.contains(id));
            let ghost before = self@;
            let mut s = self.take_out(id);
            s.relay_pin.set_high();
            s.led_pin.set_high();
            match &mut s.buzzer_pin {
                Some(buz) => buz.set_high(),
                None => {},
            }
            self.put_back(id, s);
            proof {
                assert(self@.dom() =~= orig.dom());
                assert forall|j: int| 0 <= j < k + 1 implies self@[#[trigger] ids@[j]] == spec_release(
                    orig[ids@[j]],
                ) by {
                    if j < k {
                        assert(ids@[j] != id);
                    }
                }
                assert forall|j: int| k + 1 <= j < ids@.len() implies self@[#[trigger] ids@[j]]
                    == orig[ids@[j]] by {
                    assert(ids@[j] != id);
                }
            }
            k += 1;
        }
        proof {
            assert forall|id: u32| #[trigger] orig.dom().contains(id) implies self@[id] == spec_release(
                orig[id],
            ) by {
                assert(ids@.contains(id));
                let j = choose|j: int| 0 <= j < ids@.len() && ids@[j] == id;
                assert(self@[ids@[j]] == spec_release(orig[ids@[j]]));
            }
        }
    }
}

/// Password entered on the keypad or read from a card: padded with leading
/// zeros to 10 characters.
pub open spec fn spec_password(code: Seq<char>) -> Seq<char> {
    pad_left_zeros(code, 10)
}

/// Card number carried by a 26-bit Wiegand code: the 16 bits after the
/// leading parity bit and facility code byte.
pub open spec fn card_number(code: u32) -> u32 {
    (code >> 1u32) & 0xFFFFu32
}

/// Effect of a Wiegand event on a station: 4-bit codes are key presses
/// (digits accumulate, 10 clears, 11 submits), 26-bit codes are card reads.
/// Returns the new state and the password to check, if any.
pub open spec fn spec_wiegand_station(s: StationState, bits: u32, code: u32, mono_ns: u64) -> (
    StationState,
    Option<Seq<char>>,
) {
    if bits == 4 {
        if code == 10 {
            (StationState { keypad_code: Seq::empty(), ..s }, None)
        } else if code == 11 {
            (StationState { keypad_code: Seq::empty(), ..s }, Some(spec_password(s.keypad_code)))
        } else if code <= 9 {
            (
                StationState {
                    keypad_code: s.keypad_code.push(digit_char(code as nat)),
                    keypad_last_key_ns: mono_ns,
                    ..s
                },
                None,
            )
        } else {
            (s, None)
        }
    } else if bits == 26 {
        (s, Some(spec_password(decimal_chars(card_number(code) as nat))))
    } else {
        (s, None)
    }
}

/// Effect of a Wiegand event on all stations; events for unknown stations
/// are ignored.
pub open spec fn spec_handle_wiegand(st: Map<u32, StationState>, e: WiegandEvent, mono_ns: u64) -> (
    Map<u32, StationState>,
    Option<Seq<char>>,
) {
    if has_station(st, e.station_id) {
        let (s2, p) = spec_wiegand_station(st[e.station_id], e.bits, e.code, mono_ns);
        (st.insert(e.station_id, s2), p)
    } else {
        (st, None)
    }
}

/// A password check may start unless the station exists and is not idle.
pub open spec fn spec_may_validate(st: Map<u32, StationState>, id: u32) -> bool {
    !(has_station(st, id) && st[id].status != StationStatus::Idle)
}

/// Whether a user with the given station permissions may use station `id`.
pub open spec fn station_allowed(id: u32, station1: bool, station2: bool) -> bool {
    if id == 1 {
        station1
    } else if id == 2 {
        station2
    } else {
        false
    }
}

/// State of a station after a user was authorized: waiting for START, LED on.
pub open spec fn spec_authorized(s: StationState, user_id: i32, user_name: Seq<char>, mono_ns: u64) -> StationState {
    StationState {
        status: StationStatus::Waiting,
        led_pin: pin_low(s.led_pin),
        waiting_since_ns: Some(mono_ns),
        active_user_id: Some(user_id),
        active_user_name: Some(user_name),
        accumulated_length: 0,
        ..s
    }
}

/// Effect of a found user on the stations.
pub open spec fn spec_authorize(
    st: Map<u32, StationState>,
    id: u32,
    user_id: i32,
    user_name: Seq<char>,
    station1: bool,
    station2: bool,
    mono_ns: u64,
) -> Map<u32, StationState> {
    if station_allowed(id, station1, station2) && has_station(st, id) {
        st.insert(id, spec_authorized(st[id], user_id, user_name, mono_ns))
    } else {
        st
    }
}

impl StationManager {
    /// Handles a decoded Wiegand event: updates keypad input and returns the
    /// password to check, if the event completes one.
    pub fn handle_wiegand_event(&mut self, event: WiegandEvent, mono_ns: u64) -> (r: Option<String>)
        requires
            old(self).wf(),
        ensures
            final(self).wf(),
            final(self)@ == spec_handle_wiegand(old(self)@, event, mono_ns).0,
            opt_str_view(r) == spec_handle_wiegand(old(self)@, event, mono_ns).1,
            all_invariant(old(self)@) ==> all_invariant(final(self)@),
            relays_follow_status(old(self)@) ==> relays_follow_status(final(self)@),
    {
        proof {
            if all_invariant(self@) {
                lemma_wiegand_invariant(self@, event, mono_ns);
            }
            if relays_follow_status(self@) {
                lemma_wiegand_keeps_relays(self@, event, mono_ns);
            }
        }
        let id = event.station_id;
        if !self.stations.contains_key(&id) {
            return None;
        }
        let ghost before = self@;
        let mut s = self.take_out(id);
        let password = if event.bits == 4 {
            let code = event.code;
            if code == 10 {
                s.keypad_code = String::new();
                None
            } else if code == 11 {
                let entered = s.keypad_code.clone();
                s.keypad_code = String::new();
                Some(pad_left_with_zeros(entered.as_str(), 10))
            } else if code <= 9 {
                s.keypad_code.append(digit_str(code));
                s.keypad_last_key_ns = mono_ns;
                None
            } else {
                None
            }
        } else if event.bits == 26 {
            let card = (event.code >> 1) & 0xFFFF;
            let digits = decimal_string(card);
            Some(pad_left_with_zeros(digits.as_str(), 10))
        } else {
            None
        };
        let ghost (s2, p) = spec_wiegand_station(before[id], event.bits, event.code, mono_ns);
        assert(s@ =~= s2);
        self.put_back(id, s);
        assert(self@ =~= before.insert(id, s2));
        password
    }

    /// Whether a password check may start for station `id`: it may unless the
    /// station exists and is not idle.
    pub fn may_validate(&self, id: u32) -> (r: bool)
        ensures
            r == spec_may_validate(self@, id),
    {
        match self.stations.get(&id) {
            Some(s) => s.status == StationStatus::Idle,
            None => true,
        }
    }

    /// Applies the user found for a password on station `id`: when the user
    /// may use that station, it waits for START with the LED on. Returns
    /// whether the user is allowed.
    pub fn authorize(
        &mut self,
        id: u32,
        user_id: i32,
        user_name: String,
        station1: bool,
        station2: bool,
        mono_ns: u64,
    ) -> (allowed: bool)
        requires
            old(self).wf(),
        ensures
            final(self).wf(),
            allowed == station_allowed(id, station1, station2),
            final(self)@ == spec_authorize(
                old(self)@,
                id,
                user_id,
                user_name@,
                station1,
                station2,
                mono_ns,
            ),
            all_invariant(old(self)@) && (has_station(old(self)@, id) ==> old(self)@[id].status
                != StationStatus::On) ==> all_invariant(final(self)@),
            relays_follow_status(old(self)@) && (has_station(old(self)@, id) ==> old(self)@[id].status
                != StationStatus::On) ==> relays_follow_status(final(self)@),
    {
        proof {
            if relays_follow_status(self@) && (has_station(self@, id) ==> self@[id].status
                != StationStatus::On) {
                lemma_authorize_keeps_relays(
                    self@,
                    id,
                    user_id,
                    user_name@,
                    station1,
                    station2,
                    mono_ns,
                );
            }
            if all_invariant(self@) && (has_station(self@, id) ==> self@[id].status
                != StationStatus::On) {
                lemma_authorize_invariant(
                    self@,
                    id,
                    user_id,
                    user_name@,
                    station1,
                    station2,
                    mono_ns,
                );
            }
        }
        let allowed = if id == 1 {
            station1
        } else if id == 2 {
            station2
        } else {
            false
        };
        if !allowed {
            return false;
        }
        if !self.stations.contains_key(&id) {
            return true;
        }
        let ghost before = self@;
        let ghost name = user_name@;
        let mut s = self.take_out(id);
        s.status = StationStatus::Waiting;
        s.led_pin.set_low();
        s.waiting_since_ns = Some(mono_ns);
        s.active_user_id = Some(user_id);
        s.active_user_name = Some(user_name);
        s.accumulated_length = 0;
        let ghost s2 = spec_authorized(before[id], user_id, name, mono_ns);
        assert(s@ =~= s2);
        self.put_back(id, s);
        assert(self@ =~= before.insert(id, s2));
        true
    }

    /// Records the flow meter total read when station `id` started.
    pub fn set_flow_meter_start(&mut self, id: u32, total: u32)
        requires
            old(self).wf(),
        ensures
            final(self).wf(),
            has_station(old(self)@, id) ==> final(self)@ == old(self)@.insert(
                id,
                StationState { flow_meter_start: total, ..old(self)@[id] },
            ),
            !has_station(old(self)@, id) ==> final(self)@ == old(self)@,
    {
        if !self.stations.contains_key(&id) {
            return;
        }
        let ghost before = self@;
        let mut s = self.take_out(id);
        s.flow_meter_start = total;
        let ghost s2 = StationState { flow_meter_start: total, ..before[id] };
        assert(s@ =~= s2);
        self.put_back(id, s);
        assert(self@ =~= before.insert(id, s2));
    }
}

/// A flow meter total to read for a station that just started.
#[derive(Debug, Clone, Copy, PartialEq, Eq, Structural)]
pub struct FlowStart {
    pub station_id: u32,
    pub slave_id: u8,
}

/// A camera snapshot to take for a station that just started.
#[derive(Debug, Clone)]
pub struct SnapshotRequest {
    pub station_id: u32,
    pub camera_url: String,
    /// Wall-clock time of the start, in nanoseconds since the Unix epoch.
    pub taken_at_ns: i64,
}

/// What one round of polling asks of the caller.
#[derive(Debug)]
pub struct PollOutcome {
    /// Log of a session that ended (at most one per round).
    pub log: Option<LogRecord>,
    /// Flow meter totals to read for stations that started.
    pub flow_starts: Vec<FlowStart>,
    /// Snapshots to take for stations that started.
    pub snapshots: Vec<SnapshotRequest>,
}

/// Model of a polling round.
pub struct PollSpec {
    pub states: Map<u32, StationState>,
    pub log: Option<LogRecord>,
    pub flow_starts: Seq<FlowStart>,
    pub snapshots: Seq<SnapshotRequest>,
}

/// Flow meter read wanted when station `s` started.
pub open spec fn started_flow(s: StationState, started: bool) -> Seq<FlowStart> {
    if started && s.cfg.flow_meter_slave_id is Some {
        seq![FlowStart { station_id: s.cfg.id, slave_id: s.cfg.flow_meter_slave_id.unwrap() }]
    } else {
        Seq::empty()
    }
}

/// Snapshot wanted when station `s` started at `wall_ns`.
pub open spec fn started_snapshot(s: StationState, started: bool, wall_ns: i64) -> Seq<SnapshotRequest> {
    if started && s.cfg.camera_url is Some {
        seq![
            SnapshotRequest {
                station_id: s.cfg.id,
                camera_url: s.cfg.camera_url.unwrap(),
                taken_at_ns: wall_ns,
            },
        ]
    } else {
        Seq::empty()
    }
}


/// Polling the stations `order[i..]` in turn, station `order[j]` reading
/// `readings[order[j]]`; a station whose session ends stops the round, so
/// that its log is saved before the next round.
pub open spec fn spec_poll_from(
    st: Map<u32, StationState>,
    order: Seq<u32>,
    readings: Map<u32, ButtonLevels>,
    mono_ns: u64,
    wall_ns: i64,
    i: int,
) -> PollSpec
    decreases order.len() - i,
{
    if i < 0 || i >= order.len() {
        PollSpec { states: st, log: None, flow_starts: Seq::empty(), snapshots: Seq::empty() }
    } else {
        let id = order[i];
        let (s2, step) = spec_poll_station(st[id], readings[id], mono_ns, wall_ns);
        let st2 = st.insert(id, s2);
        match step {
            StationStep::Stop { log } => PollSpec {
                states: st2,
                log: Some(log),
                flow_starts: Seq::empty(),
                snapshots: Seq::empty(),
            },
            StationStep::Proceed { started } => {
                let rest = spec_poll_from(st2, order, readings, mono_ns, wall_ns, i + 1);
                PollSpec {
                    states: rest.states,
                    log: rest.log,
                    flow_starts: started_flow(st[id], started) + rest.flow_starts,
                    snapshots: started_snapshot(st[id], started, wall_ns) + rest.snapshots,
                }
            },
        }
    }
}

/// One polling round over the stations in the order `order`.
pub open spec fn spec_poll(
    st: Map<u32, StationState>,
    order: Seq<u32>,
    readings: Map<u32, ButtonLevels>,
    mono_ns: u64,
    wall_ns: i64,
) -> PollSpec {
    spec_poll_from(st, order, readings, mono_ns, wall_ns, 0)
}

/// `(states, out)` is what the polling round `p` leaves and asks for.
pub open spec fn poll_matches(p: PollSpec, states: Map<u32, StationState>, out: PollOutcome) -> bool {
    &&& states == p.states
    &&& out.log == p.log
    &&& out.flow_starts@ == p.flow_starts
    &&& out.snapshots@ == p.snapshots
}

proof fn lemma_poll_keeps_cfg(s: StationState, b: ButtonLevels, mono_ns: u64, wall_ns: i64)
    ensures
        spec_poll_station(s, b, mono_ns, wall_ns).0.cfg == s.cfg,
{
}

impl StationManager {
    /// One polling round: the stations, in the order in which the map walks
    /// them, react to their button levels `readings[id]` and timers; the
    /// round stops at the first station whose session ends, whose log is
    /// returned for saving.
    pub fn poll_buttons(
        &mut self,
        readings: &HashMap<u32, ButtonLevels>,
        mono_ns: u64,
        wall_ns: i64,
    ) -> (out: PollOutcome)
        requires
            old(self).wf(),
            forall|id: u32| #[trigger] old(self)@.dom().contains(id) ==> readings@.contains_key(id),
            all_lengths_fit(old(self)@, wall_ns),
        ensures
            final(self).wf(),
            final(self)@.dom() == old(self)@.dom(),
            exists|order: Seq<u32>|
                #[trigger] walk_order(order, old(self)@.dom()) && poll_matches(
                    spec_poll(old(self)@, order, readings@, mono_ns, wall_ns),
                    final(self)@,
                    out,
                ),
            all_invariant(old(self)@) ==> all_invariant(final(self)@),
            relays_follow_status(old(self)@) ==> relays_follow_status(final(self)@),
    {
        let ghost orig = self@;
        let ids = self.station_ids();
        proof {
            assert forall|i: int| 0 <= i < ids@.len() implies orig.dom().contains(#[trigger] ids@[i]) by {
                assert(ids@.contains(ids@[i]));
            }
            if all_invariant(orig) {
                lemma_poll_invariant(orig, ids@, readings@, mono_ns, wall_ns);
            }
            if relays_follow_status(orig) {
                lemma_poll_keeps_relays(orig, ids@, readings@, mono_ns, wall_ns);
            }
        }
        let mut flow_starts: Vec<FlowStart> = Vec::new();
        let mut snapshots: Vec<SnapshotRequest> = Vec::new();
        let mut k: usize = 0;
        while k < ids.len()
            invariant
                k <= ids@.len(),
                walk_order(ids@, orig.dom()),
                self.wf(),
                self@.dom() == orig.dom(),
                orig == old(self)@,
                forall|id: u32| #[trigger] orig.dom().contains(id) ==> readings@.contains_key(id),
                all_lengths_fit(orig, wall_ns),
                forall|j: int| k <= j < ids@.len() ==> self@[#[trigger] ids@[j]] == orig[ids@[j]],
                all_invariant(orig) ==> all_invariant(
                    spec_poll(orig, ids@, readings@, mono_ns, wall_ns).states,
                ),
                relays_follow_status(orig) ==> relays_follow_status(
                    spec_poll(orig, ids@, readings@, mono_ns, wall_ns).states,
                ),
                ({
                    let whole = spec_poll(orig, ids@, readings@, mono_ns, wall_ns);
                    let rest = spec_poll_from(self@, ids@, readings@, mono_ns, wall_ns, k as int);
                    &&& whole.states == rest.states
                    &&& whole.log == rest.log
                    &&& whole.flow_starts == flow_starts@ + rest.flow_starts
                    &&& whole.snapshots == snapshots@ + rest.snapshots
                }),
            decreases ids.len() - k,
        {
            let id = ids[k];
            assert(ids@.contains(id));
            let ghost before = self@;
            let ghost old_flows = flow_starts@;
            let ghost old_snaps = snapshots@;
            let levels = *readings.get(&id).unwrap();
            assert(before[id] == orig[id]);
            assert(length_fits(orig[id], wall_ns));
            let mut s = self.take_out(id);
            let step = s.poll_station(levels, mono_ns, wall_ns);
            let ghost s2 = s@;
            proof {
                lemma_poll_keeps_cfg(before[id], levels, mono_ns, wall_ns);
            }
            let started = match step {
                StationStep::Proceed { started } => started,
                StationStep::Stop { .. } => false,
            };
            if started {
                match s.cfg.flow_meter_slave_id {
                    Some(slave_id) => flow_starts.push(FlowStart { station_id: s.cfg.id, slave_id }),
                    None => {},
                }
                match &s.cfg.camera_url {
                    Some(url) => snapshots.push(
                        SnapshotRequest {
                            station_id: s.cfg.id,
                            camera_url: url.clone(),
                            taken_at_ns: wall_ns,
                        },
                    ),
                    None => {},
                }
            }
            self.put_back(id, s);
            proof {
                assert(self@ =~= before.insert(id, s2));
                assert(self@.dom() =~= orig.dom());
                let fl = started_flow(before[id], started);
                let sn = started_snapshot(before[id], started, wall_ns);
                assert(flow_starts@ =~= old_flows + fl);
                assert(snapshots@ =~= old_snaps + sn);
                let (s2x, stepx) = spec_poll_station(before[id], readings@[id], mono_ns, wall_ns);
                assert(s2x == s2);
                assert(stepx == step);
                let r0 = spec_poll_from(before, ids@, readings@, mono_ns, wall_ns, k as int);
                let r1 = spec_poll_from(self@, ids@, readings@, mono_ns, wall_ns, k + 1);
                assert forall|j: int| k + 1 <= j < ids@.len() implies self@[#[trigger] ids@[j]]
                    == orig[ids@[j]] by {
                    assert(ids@[j] != id);
                }
                match step {
                    StationStep::Proceed { started: st } => {
                        assert(r0.flow_starts == fl + r1.flow_starts);
                        assert(r0.snapshots == sn + r1.snapshots);
                        assert(old_flows + (fl + r1.flow_starts) =~= (old_flows + fl)
                            + r1.flow_starts);
                        assert(old_snaps + (sn + r1.snapshots) =~= (old_snaps + sn) + r1.snapshots);
                    },
                    StationStep::Stop { log } => {
                        assert(r0.states == self@);
                        assert(r0.log == Some(log));
                        assert(fl =~= Seq::<FlowStart>::empty());
                        assert(sn =~= Seq::<SnapshotRequest>::empty());
                        assert(flow_starts@ =~= old_flows + Seq::<FlowStart>::empty());
                        assert(snapshots@ =~= old_snaps + Seq::<SnapshotRequest>::empty());
                    },
                }
            }
            match step {
                StationStep::Stop { log } => {
                    let out = PollOutcome { log: Some(log), flow_starts, snapshots };
                    assert(walk_order(ids@, orig.dom()));
                    return out;
                },
                StationStep::Proceed { .. } => {},
            }
            k += 1;
        }
        proof {
            assert(flow_starts@ =~= flow_starts@ + Seq::<FlowStart>::empty());
            assert(snapshots@ =~= snapshots@ + Seq::<SnapshotRequest>::empty());
        }
        let out = PollOutcome { log: None, flow_starts, snapshots };
        assert(walk_order(ids@, orig.dom()));
        out
    }
}

/// Safety invariant of a station: its outputs are its configured pins, the
/// relay is energized exactly while the station is ON, while ON the safety
/// timer is armed and the session timing is known, and a paused session has
/// a start time.
pub open spec fn station_invariant(s: StationState) -> bool {
    &&& s.relay_pin.pin == s.cfg.relay_gpio
    &&& s.led_pin.pin == s.cfg.keyboard_led_gpio
    &&& (match s.buzzer_pin {
        Some(p) => s.cfg.buzzer_gpio == Some(p.pin),
        None => s.cfg.buzzer_gpio.is_none(),
    })
    &&& (s.relay_pin.level == Level::Low <==> s.status == StationStatus::On)
    &&& (s.status == StationStatus::On ==> s.relay_on_since_ns is Some && s.last_resume_ns is Some
        && s.relay_start_ns is Some)
    &&& (s.status == StationStatus::Pause ==> s.relay_start_ns is Some)
}

/// The safety invariant holds for every station.
pub open spec fn all_invariant(st: Map<u32, StationState>) -> bool {
    forall|id: u32| #[trigger] st.dom().contains(id) ==> station_invariant(st[id])
}

/// A freshly set-up station satisfies the safety invariant.
pub proof fn lemma_initial_invariant(s: StationState, cfg: StationConfig, now_ns: u64)
    requires
        is_initial_state(s, cfg, now_ns),
    ensures
        station_invariant(s),
{
}

/// Polling a station keeps its safety invariant.
pub proof fn lemma_poll_station_invariant(s: StationState, b: ButtonLevels, mono_ns: u64, wall_ns: i64)
    requires
        station_invariant(s),
    ensures
        station_invariant(spec_poll_station(s, b, mono_ns, wall_ns).0),
{
}

/// A polling round, in any order of the stations, keeps the safety invariant
/// of every station and the set of stations.
pub proof fn lemma_poll_invariant(
    st: Map<u32, StationState>,
    order: Seq<u32>,
    readings: Map<u32, ButtonLevels>,
    mono_ns: u64,
    wall_ns: i64,
)
    requires
        all_invariant(st),
        forall|i: int| 0 <= i < order.len() ==> st.dom().contains(#[trigger] order[i]),
    ensures
        all_invariant(spec_poll(st, order, readings, mono_ns, wall_ns).states),
        spec_poll(st, order, readings, mono_ns, wall_ns).states.dom() == st.dom(),
{
    lemma_poll_from_invariant(st, order, readings, mono_ns, wall_ns, 0);
}

proof fn lemma_poll_from_invariant(
    st: Map<u32, StationState>,
    order: Seq<u32>,
    readings: Map<u32, ButtonLevels>,
    mono_ns: u64,
    wall_ns: i64,
    i: int,
)
    requires
        all_invariant(st),
        forall|j: int| 0 <= j < order.len() ==> st.dom().contains(#[trigger] order[j]),
        0 <= i,
    ensures
        all_invariant(spec_poll_from(st, order, readings, mono_ns, wall_ns, i).states),
        spec_poll_from(st, order, readings, mono_ns, wall_ns, i).states.dom() == st.dom(),
    decreases order.len() - i,
{
    if i < order.len() {
        let id = order[i];
        let (s2, step) = spec_poll_station(st[id], readings[id], mono_ns, wall_ns);
        lemma_poll_station_invariant(st[id], readings[id], mono_ns, wall_ns);
        let st2 = st.insert(id, s2);
        assert(st2.dom() =~= st.dom());
        assert forall|x: u32| #[trigger] st2.dom().contains(x) implies station_invariant(st2[x]) by {
            if x != id {
                assert(st2[x] == st[x]);
            }
        }
        match step {
            StationStep::Stop { .. } => {},
            StationStep::Proceed { .. } => {
                lemma_poll_from_invariant(st2, order, readings, mono_ns, wall_ns, i + 1);
            },
        }
    }
}

/// Wiegand events keep the safety invariant.
pub proof fn lemma_wiegand_invariant(st: Map<u32, StationState>, e: WiegandEvent, mono_ns: u64)
    requires
        all_invariant(st),
    ensures
        all_invariant(spec_handle_wiegand(st, e, mono_ns).0),
{
    let r = spec_handle_wiegand(st, e, mono_ns).0;
    assert forall|x: u32| #[trigger] r.dom().contains(x) implies station_invariant(r[x]) by {
        if has_station(st, e.station_id) && x == e.station_id {
            assert(station_invariant(st[x]));
        } else {
            assert(r[x] == st[x]);
        }
    }
}

/// Authorizing a user keeps the safety invariant, unless the station is ON
/// (it may have started while its user was being looked up).
pub proof fn lemma_authorize_invariant(
    st: Map<u32, StationState>,
    id: u32,
    user_id: i32,
    user_name: Seq<char>,
    station1: bool,
    station2: bool,
    mono_ns: u64,
)
    requires
        all_invariant(st),
        has_station(st, id) ==> st[id].status != StationStatus::On,
    ensures
        all_invariant(spec_authorize(st, id, user_id, user_name, station1, station2, mono_ns)),
{
    let r = spec_authorize(st, id, user_id, user_name, station1, station2, mono_ns);
    assert forall|x: u32| #[trigger] r.dom().contains(x) implies station_invariant(r[x]) by {
        if station_allowed(id, station1, station2) && has_station(st, id) && x == id {
            assert(station_invariant(st[x]));
        } else {
            assert(r[x] == st[x]);
        }
    }
}

/// The relay of station `s` is energized exactly while the station is ON.
pub open spec fn relay_follows_status(s: StationState) -> bool {
    s.relay_pin.level == Level::Low <==> s.status == StationStatus::On
}

/// Every station's relay is energized exactly while that station is ON.
pub open spec fn relays_follow_status(st: Map<u32, StationState>) -> bool {
    forall|id: u32| #[trigger] st.dom().contains(id) ==> relay_follows_status(st[id])
}

/// Stations as set up have every relay released and none ON.
pub proof fn lemma_initial_relays(st: Map<u32, StationState>, cfgs: Seq<StationConfig>, now_ns: u64)
    requires
        built_from(st, cfgs, now_ns),
    ensures
        relays_follow_status(st),
{
}

/// A polling round, in any order of the stations, keeps every relay
/// energized exactly while its station is ON, whatever the buttons and
/// timers.
pub proof fn lemma_poll_keeps_relays(
    st: Map<u32, StationState>,
    order: Seq<u32>,
    readings: Map<u32, ButtonLevels>,
    mono_ns: u64,
    wall_ns: i64,
)
    requires
        relays_follow_status(st),
        forall|i: int| 0 <= i < order.len() ==> st.dom().contains(#[trigger] order[i]),
    ensures
        relays_follow_status(spec_poll(st, order, readings, mono_ns, wall_ns).states),
{
    lemma_poll_from_keeps_relays(st, order, readings, mono_ns, wall_ns, 0);
}

proof fn lemma_poll_from_keeps_relays(
    st: Map<u32, StationState>,
    order: Seq<u32>,
    readings: Map<u32, ButtonLevels>,
    mono_ns: u64,
    wall_ns: i64,
    i: int,
)
    requires
        relays_follow_status(st),
        forall|j: int| 0 <= j < order.len() ==> st.dom().contains(#[trigger] order[j]),
        0 <= i,
    ensures
        relays_follow_status(spec_poll_from(st, order, readings, mono_ns, wall_ns, i).states),
    decreases order.len() - i,
{
    if i < order.len() {
        let id = order[i];
        let (s2, step) = spec_poll_station(st[id], readings[id], mono_ns, wall_ns);
        assert(relay_follows_status(st[id]));
        assert(relay_follows_status(s2));
        let st2 = st.insert(id, s2);
        assert(st2.dom() =~= st.dom());
        assert forall|x: u32| #[trigger] st2.dom().contains(x) implies relay_follows_status(st2[x]) by {
            if x != id {
                assert(st2[x] == st[x]);
            }
        }
        match step {
            StationStep::Stop { .. } => {},
            StationStep::Proceed { .. } => {
                lemma_poll_from_keeps_relays(st2, order, readings, mono_ns, wall_ns, i + 1);
            },
        }
    }
}

/// Wiegand events (key presses and card reads) never change a relay or a
/// station status.
pub proof fn lemma_wiegand_keeps_relays(st: Map<u32, StationState>, e: WiegandEvent, mono_ns: u64)
    requires
        relays_follow_status(st),
    ensures
        relays_follow_status(spec_handle_wiegand(st, e, mono_ns).0),
{
    let r = spec_handle_wiegand(st, e, mono_ns).0;
    assert forall|x: u32| #[trigger] r.dom().contains(x) implies relay_follows_status(r[x]) by {
        if has_station(st, e.station_id) && x == e.station_id {
            assert(relay_follows_status(st[x]));
        } else {
            assert(r[x] == st[x]);
        }
    }
}

/// Authorizing a user on a station that is not ON keeps every relay
/// energized exactly while its station is ON.
pub proof fn lemma_authorize_keeps_relays(
    st: Map<u32, StationState>,
    id: u32,
    user_id: i32,
    user_name: Seq<char>,
    station1: bool,
    station2: bool,
    mono_ns: u64,
)
    requires
        relays_follow_status(st),
        has_station(st, id) ==> st[id].status != StationStatus::On,
    ensures
        relays_follow_status(spec_authorize(st, id, user_id, user_name, station1, station2, mono_ns)),
{
    let r = spec_authorize(st, id, user_id, user_name, station1, station2, mono_ns);
    assert forall|x: u32| #[trigger] r.dom().contains(x) implies relay_follows_status(r[x]) by {
        if station_allowed(id, station1, station2) && has_station(st, id) && x == id {
            assert(relay_follows_status(st[x]));
        } else {
            assert(r[x] == st[x]);
        }
    }
}

/// A running station whose relay stayed on past the safety limit is stopped
/// by the next poll, whatever the buttons: its relay, LED and buzzer are
/// released, it is idle, and the log of its session is produced.
pub proof fn lemma_safety_timeout(s: StationState, b: ButtonLevels, mono_ns: u64, wall_ns: i64)
    requires
        s.status == StationStatus::On,
        s.relay_on_since_ns is Some,
        elapsed_ns(s.relay_on_since_ns.unwrap(), mono_ns) > SAFE_TIMEOUT_NS,
    ensures
        spec_poll_station(s, b, mono_ns, wall_ns).0.status == StationStatus::Idle,
        spec_poll_station(s, b, mono_ns, wall_ns).0.relay_pin.level == Level::High,
        spec_poll_station(s, b, mono_ns, wall_ns).0.led_pin.level == Level::High,
        spec_poll_station(s, b, mono_ns, wall_ns).0.buzzer_pin == opt_pin_high(s.buzzer_pin),
        spec_poll_station(s, b, mono_ns, wall_ns).1 == (StationStep::Stop {
            log: spec_log_record(spec_accumulate(spec_keypad_timeout(s, mono_ns), wall_ns)),
        }),
{
}

/// Whenever a poll ends a session, the station is left idle with every
/// output released and no session data.
pub proof fn lemma_stop_releases(s: StationState, b: ButtonLevels, mono_ns: u64, wall_ns: i64)
    requires
        spec_poll_station(s, b, mono_ns, wall_ns).1 is Stop,
    ensures
        ({
            let t = spec_poll_station(s, b, mono_ns, wall_ns).0;
            &&& t.status == StationStatus::Idle
            &&& t.relay_pin.level == Level::High
            &&& t.led_pin.level == Level::High
            &&& (t.buzzer_pin matches Some(p) ==> p.level == Level::High)
            &&& t.active_user_id.is_none()
            &&& t.relay_start_ns.is_none()
            &&& t.accumulated_length == 0
        }),
{
}

/// Station state after the keys `keys` (4-bit codes) were pressed, the i-th
/// at `times[i]`.
pub open spec fn spec_press_keys(s: StationState, keys: Seq<u32>, times: Seq<u64>) -> StationState
    decreases keys.len(),
{
    if keys.len() == 0 {
        s
    } else {
        spec_wiegand_station(
            spec_press_keys(s, keys.drop_last(), times),
            4,
            keys.last(),
            times[keys.len() - 1],
        ).0
    }
}

/// Characters of the digit keys `keys`.
pub open spec fn digit_chars(keys: Seq<u32>) -> Seq<char> {
    keys.map_values(|k: u32| digit_char(k as nat))
}

proof fn lemma_press_digits(s: StationState, keys: Seq<u32>, times: Seq<u64>)
    requires
        times.len() >= keys.len(),
        forall|i: int| 0 <= i < keys.len() ==> keys[i] <= 9,
    ensures
        spec_press_keys(s, keys, times).keypad_code == s.keypad_code + digit_chars(keys),
        spec_press_keys(s, keys, times).status == s.status,
        spec_press_keys(s, keys, times).relay_pin == s.relay_pin,
    decreases keys.len(),
{
    if keys.len() == 0 {
        assert(s.keypad_code + digit_chars(keys) =~= s.keypad_code);
    } else {
        let p = keys.drop_last();
        assert forall|i: int| 0 <= i < p.len() implies p[i] <= 9 by {
            assert(p[i] == keys[i]);
        }
        lemma_press_digits(s, p, times);
        assert(digit_chars(keys) =~= digit_chars(p).push(digit_char(keys.last() as nat)));
        assert(s.keypad_code + digit_chars(keys) =~= (s.keypad_code + digit_chars(p)).push(
            digit_char(keys.last() as nat),
        ));
    }
}

/// Typing digits on an empty keypad and then ENTER (code 11) submits those
/// digits, zero-padded to 10 characters, and empties the keypad; the station
/// status and relay are untouched.
pub proof fn lemma_keypad_entry(s: StationState, keys: Seq<u32>, times: Seq<u64>, enter_ns: u64)
    requires
        s.keypad_code.len() == 0,
        times.len() >= keys.len(),
        forall|i: int| 0 <= i < keys.len() ==> keys[i] <= 9,
    ensures
        ({
            let (t, pw) = spec_wiegand_station(spec_press_keys(s, keys, times), 4, 11, enter_ns);
            &&& pw == Some(spec_password(digit_chars(keys)))
            &&& t.keypad_code.len() == 0
            &&& t.status == s.status
            &&& t.relay_pin == s.relay_pin
        }),
{
    lemma_press_digits(s, keys, times);
    assert(s.keypad_code + digit_chars(keys) =~= digit_chars(keys));
}

proof fn lemma_decimal_len(n: nat)
    requires
        n < 100000,
    ensures
        1 <= decimal_chars(n).len() <= 5,
{
    reveal_with_fuel(decimal_chars, 6);
}

/// A card read always yields a 10-character password: the card number has at
/// most 5 decimal digits and is zero-padded.
pub proof fn lemma_card_password_length(s: StationState, code: u32, mono_ns: u64)
    ensures
        spec_wiegand_station(s, 26, code, mono_ns).1 matches Some(pw) && pw.len() == 10,
{
    let n = card_number(code);
    assert(n <= 0xFFFF) by (bit_vector)
        requires
            n == (code >> 1u32) & 0xFFFFu32,
    ;
    lemma_decimal_len(n as nat);
}

/// PAUSE on a running station (STOP not pressed, safety limit not reached)
/// switches the relay off and disarms the safety timer.
pub proof fn lemma_pause_disarms_safety_timer(s: StationState, b: ButtonLevels, mono_ns: u64, wall_ns: i64)
    requires
        s.status == StationStatus::On,
        b.stop == Level::High,
        pause_pressed(b),
        s.relay_on_since_ns matches Some(t) ==> elapsed_ns(t, mono_ns) <= SAFE_TIMEOUT_NS,
    ensures
        spec_poll_station(s, b, mono_ns, wall_ns).0.status == StationStatus::Pause,
        spec_poll_station(s, b, mono_ns, wall_ns).0.relay_pin.level == Level::High,
        spec_poll_station(s, b, mono_ns, wall_ns).0.relay_on_since_ns.is_none(),
{
}

/// START on a paused station (STOP not pressed) switches the relay on again
/// and re-arms the safety timer at that poll's time: afterwards, polls
/// without STOP or PAUSE keep the station ON, with no log, as long as at most
/// the safety limit has passed since the resume, whenever the session first
/// started.
pub proof fn lemma_resume_restarts_safety_timer(
    s: StationState,
    b1: ButtonLevels,
    m1: u64,
    w1: i64,
    b2: ButtonLevels,
    m2: u64,
    w2: i64,
)
    requires
        s.status == StationStatus::Pause,
        b1.start == Level::Low,
        b1.stop == Level::High,
        b2.stop == Level::High,
        !pause_pressed(b2),
        m1 <= m2 <= m1 + SAFE_TIMEOUT_NS,
    ensures
        spec_poll_station(s, b1, m1, w1).0.status == StationStatus::On,
        spec_poll_station(s, b1, m1, w1).0.relay_pin.level == Level::Low,
        spec_poll_station(s, b1, m1, w1).0.relay_on_since_ns == Some(m1),
        spec_poll_station(spec_poll_station(s, b1, m1, w1).0, b2, m2, w2).0.status
            == StationStatus::On,
        spec_poll_station(spec_poll_station(s, b1, m1, w1).0, b2, m2, w2).0.relay_pin.level
            == Level::Low,
        spec_poll_station(spec_poll_station(s, b1, m1, w1).0, b2, m2, w2).1 == (StationStep::Proceed {
            started: false,
        }),
{
}

/// What the dashboard shows of a paused station does not depend on the time
/// of the query: it is the accumulated length.
pub proof fn lemma_paused_length_is_frozen(
    s: StationState,
    i1: StationInfo,
    w1: i64,
    i2: StationInfo,
    w2: i64,
)
    requires
        s.status == StationStatus::Pause,
        info_shows(i1, s, w1),
        info_shows(i2, s, w2),
    ensures
        i1.current_length_secs == i2.current_length_secs,
        i1.current_length_secs == Some(s.accumulated_length),
{
}

/// Pausing freezes the length shown on the dashboard at the value it had at
/// the moment of the pause: a query at any later time `w2` shows the length
/// a query at the pause time `w1` showed of the running station.
pub proof fn lemma_pause_keeps_shown_length(
    s: StationState,
    b: ButtonLevels,
    m1: u64,
    w1: i64,
    running: StationInfo,
    paused: StationInfo,
    w2: i64,
)
    requires
        s.status == StationStatus::On,
        s.last_resume_ns is Some,
        length_fits(s, w1),
        b.stop == Level::High,
        pause_pressed(b),
        s.relay_on_since_ns matches Some(t) ==> elapsed_ns(t, m1) <= SAFE_TIMEOUT_NS,
        info_shows(running, s, w1),
        info_shows(paused, spec_poll_station(s, b, m1, w1).0, w2),
    ensures
        paused.current_length_secs == running.current_length_secs,
        paused.current_length_secs is Some,
{
}

/// A 26-bit card read on a configured station yields as password the card
/// number (the 16 bits above the lowest bit of the code) in decimal,
/// zero-padded to 10 characters, and changes no station.
pub proof fn lemma_card_read_password(st: Map<u32, StationState>, e: WiegandEvent, mono_ns: u64)
    requires
        has_station(st, e.station_id),
        e.bits == 26,
    ensures
        spec_handle_wiegand(st, e, mono_ns).1 == Some(
            pad_left_zeros(decimal_chars(((e.code as int / 2) % 65536) as nat), 10),
        ),
        spec_handle_wiegand(st, e, mono_ns).0 == st,
{
    let c = e.code;
    assert((c >> 1u32) & 0xFFFFu32 == (c / 2) % 65536) by (bit_vector);
    assert(st.insert(e.station_id, st[e.station_id]) =~= st);
}

/// Every card number from 0 to 65535, whatever the facility and parity bits
/// around it, comes out of a card read as its own decimal text, zero-padded
/// to 10 characters.
pub proof fn lemma_card_number_passes_unchanged(
    st: Map<u32, StationState>,
    e: WiegandEvent,
    mono_ns: u64,
    high: nat,
    number: nat,
    parity: nat,
)
    requires
        has_station(st, e.station_id),
        e.bits == 26,
        number < 65536,
        parity <= 1,
        e.code == high * 131072 + number * 2 + parity,
    ensures
        spec_handle_wiegand(st, e, mono_ns).1 == Some(pad_left_zeros(decimal_chars(number), 10)),
{
    lemma_card_read_password(st, e, mono_ns);
    let c = e.code as int;
    assert(c / 2 == high * 65536 + number) by (nonlinear_arith)
        requires
            c == high * 131072 + number * 2 + parity,
            parity <= 1,
    ;
    assert((high * 65536 + number) % 65536 == number) by (nonlinear_arith)
        requires
            number < 65536,
    ;
}

/// Station permissions: a user may use station 1 exactly when its station-1
/// flag is set and station 2 exactly when its station-2 flag is set, each
/// whatever the other flag; no other station. An allowed user on a
/// configured station leaves it waiting for START with that user active and
/// the keypad LED on; a refused user changes nothing.
pub proof fn lemma_authorize_permissions(
    st: Map<u32, StationState>,
    id: u32,
    user_id: i32,
    user_name: Seq<char>,
    station1: bool,
    station2: bool,
    mono_ns: u64,
)
    ensures
        station_allowed(id, station1, station2) <==> ((id == 1 && station1) || (id == 2
            && station2)),
        station_allowed(id, station1, station2) && has_station(st, id) ==> ({
            let t = spec_authorize(st, id, user_id, user_name, station1, station2, mono_ns)[id];
            &&& t.status == StationStatus::Waiting
            &&& t.active_user_id == Some(user_id)
            &&& t.active_user_name == Some(user_name)
            &&& t.waiting_since_ns == Some(mono_ns)
            &&& t.led_pin.level == Level::Low
        }),
        !station_allowed(id, station1, station2) ==> spec_authorize(
            st,
            id,
            user_id,
            user_name,
            station1,
            station2,
            mono_ns,
        ) == st,
        spec_authorize(st, id, user_id, user_name, station1, station2, mono_ns).dom() == st.dom(),
{
    if station_allowed(id, station1, station2) && has_station(st, id) {
        assert(spec_authorize(st, id, user_id, user_name, station1, station2, mono_ns).dom()
            =~= st.dom());
    }
}

/// An authorization older than the waiting timeout is dropped by the next
/// poll, whatever the buttons: the station is idle, every output released
/// and the user cleared. Within the timeout, without START, it keeps
/// waiting for the same user.
pub proof fn lemma_waiting_timeout(s: StationState, b: ButtonLevels, mono_ns: u64, wall_ns: i64, since: u64)
    requires
        s.status == StationStatus::Waiting,
        s.waiting_since_ns == Some(since),
    ensures
        elapsed_ns(since, mono_ns) > WAIT_TIMEOUT_NS ==> ({
            let t = spec_poll_station(s, b, mono_ns, wall_ns).0;
            &&& t.status == StationStatus::Idle
            &&& t.relay_pin.level == Level::High
            &&& t.led_pin.level == Level::High
            &&& t.active_user_id.is_none()
            &&& t.active_user_name.is_none()
            &&& t.waiting_since_ns.is_none()
        }),
        elapsed_ns(since, mono_ns) <= WAIT_TIMEOUT_NS && b.start == Level::High ==> ({
            let t = spec_poll_station(s, b, mono_ns, wall_ns).0;
            &&& t.status == StationStatus::Waiting
            &&& t.active_user_id == s.active_user_id
            &&& t.waiting_since_ns == Some(since)
        }),
        spec_poll_station(s, b, mono_ns, wall_ns).1 is Proceed,
{
}

/// A running station stays ON, with no log, while no more than the safety
/// limit has passed since its relay was switched on and neither STOP nor
/// PAUSE is pressed.
pub proof fn lemma_runs_within_safety_limit(
    s: StationState,
    b: ButtonLevels,
    mono_ns: u64,
    wall_ns: i64,
    since: u64,
)
    requires
        s.status == StationStatus::On,
        s.relay_on_since_ns == Some(since),
        elapsed_ns(since, mono_ns) <= SAFE_TIMEOUT_NS,
        b.stop == Level::High,
        !pause_pressed(b),
    ensures
        spec_poll_station(s, b, mono_ns, wall_ns).0.status == StationStatus::On,
        spec_poll_station(s, b, mono_ns, wall_ns).0.relay_pin == s.relay_pin,
        spec_poll_station(s, b, mono_ns, wall_ns).0.relay_on_since_ns == Some(since),
        spec_poll_station(s, b, mono_ns, wall_ns).1 == (StationStep::Proceed { started: false }),
{
}

/// Keypad digits survive a poll while at most the keypad timeout has passed
/// since the last key, and are dropped once it has.
pub proof fn lemma_keypad_timeout(s: StationState, b: ButtonLevels, mono_ns: u64, wall_ns: i64)
    requires
        s.keypad_code.len() > 0,
    ensures
        elapsed_ns(s.keypad_last_key_ns, mono_ns) > KEYPAD_TIMEOUT_NS ==> spec_poll_station(
            s,
            b,
            mono_ns,
            wall_ns,
        ).0.keypad_code.len() == 0,
        elapsed_ns(s.keypad_last_key_ns, mono_ns) <= KEYPAD_TIMEOUT_NS ==> spec_poll_station(
            s,
            b,
            mono_ns,
            wall_ns,
        ).0.keypad_code == s.keypad_code,
{
}

/// A session started by START on a waiting station at wall time `w1` and
/// ended by STOP at `w2` without a pause is logged for the authorized user
/// and this station, started at the Prague local time of `w1`, with the whole
/// seconds from `w1` to `w2` as its length; the station is left idle.
pub proof fn lemma_session_log(
    s: StationState,
    user: i32,
    since: u64,
    b1: ButtonLevels,
    m1: u64,
    w1: i64,
    b2: ButtonLevels,
    m2: u64,
    w2: i64,
)
    requires
        s.status == StationStatus::Waiting,
        s.active_user_id == Some(user),
        s.waiting_since_ns == Some(since),
        elapsed_ns(since, m1) <= WAIT_TIMEOUT_NS,
        b1.start == Level::Low,
        b2.stop == Level::Low,
    ensures
        ({
            let s1 = spec_poll_station(s, b1, m1, w1).0;
            let (s2, step) = spec_poll_station(s1, b2, m2, w2);
            &&& spec_poll_station(s, b1, m1, w1).1 == (StationStep::Proceed { started: true })
            &&& s1.status == StationStatus::On
            &&& s2.status == StationStatus::Idle
            &&& s2.relay_pin.level == Level::High
            &&& step matches StationStep::Stop { log } && {
                &&& log.user_id == user
                &&& log.station == s.cfg.id as i32
                &&& log.created_at == Some(prague_local(w1))
                &&& log.length == whole_seconds(w2 - w1) as i64 as i32
                &&& log.flow_meter_start == s.flow_meter_start
            }
        }),
{
}

/// Whole seconds from wall-clock instant `from_ns` to `to_ns`, truncated toward zero.
pub fn whole_seconds_between(from_ns: i64, to_ns: i64) -> (r: i64)
    ensures
        r == whole_seconds(to_ns - from_ns),
{
    let d: i128 = (to_ns as i128) - (from_ns as i128);
    let q: i128 = if d >= 0 {
        d / (NS_PER_SEC as i128)
    } else {
        -((-d) / (NS_PER_SEC as i128))
    };
    assert(-0x1_0000_0000_0000_0000int <= d < 0x1_0000_0000_0000_0000int);
    assert(-20_000_000_000int <= q <= 20_000_000_000int);
    q as i64
}

} // verus!
