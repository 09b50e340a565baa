use presence_dimmer::faults::{reaction_to, Fault, Reaction};
use presence_dimmer::mapper::NetworkInput;
use presence_dimmer::postprocess::{BoxDetection, Detections};
use presence_dimmer::presence::{
    device_commands, BrightnessCommand, DeviceCommand, Mode, PresenceController, PresencePolicy,
    PresenceState,
};
use presence_dimmer::settings::Settings;
use presence_dimmer::tensor::DecodeError;

fn policy() -> PresencePolicy {
    Settings::default().policy()
}

fn seen(class: usize) -> Result<Detections, DecodeError> {
    Ok(Detections {
        detections: vec![BoxDetection { xmin: 0, ymin: 0, xmax: 9, ymax: 9, class, conf: 1 }],
    })
}

#[test]
fn starts_active_with_a_human_just_seen() {
    let c = PresenceController::new(policy(), 42);
    assert_eq!(c.state, PresenceState { mode: Mode::Active, last_human_seen: 42 });
    assert_eq!(c.policy, policy());
}

#[test]
fn absence_within_the_window_changes_nothing() {
    let mut c = PresenceController::new(policy(), 0);
    let mut now = 0;
    while now < 4_900 {
        now += 100;
        assert_eq!(c.tick(false, now), None);
        assert_eq!(c.state.mode, Mode::Active);
    }
    assert_eq!(c.state, PresenceState { mode: Mode::Active, last_human_seen: 0 });
}

#[test]
fn absence_beyond_the_window_dims_exactly_once() {
    let mut c = PresenceController::new(policy(), 0);
    let mut commands = Vec::new();
    let mut now = 0;
    while now < 5_100 {
        now += 100;
        if let Some(cmd) = c.tick(false, now) {
            commands.push((now, cmd));
        }
    }
    assert_eq!(commands, vec![(5_100, BrightnessCommand { percent: 0 })]);
    assert_eq!(c.state.mode, Mode::PowerSaving);
    for later in [5_200, 9_000, 1_000_000] {
        assert_eq!(c.tick(false, later), None);
        assert_eq!(c.state.mode, Mode::PowerSaving);
    }
}

#[test]
fn the_window_itself_is_not_enough() {
    let mut c = PresenceController::new(policy(), 1_000);
    assert_eq!(c.tick(false, 6_000), None);
    assert_eq!(c.state.mode, Mode::Active);
    assert_eq!(c.tick(false, 6_001), Some(BrightnessCommand { percent: 0 }));
}

#[test]
fn one_sighting_restores_at_once() {
    let mut c = PresenceController::new(policy(), 0);
    assert_eq!(c.tick(false, 6_000), Some(BrightnessCommand { percent: 0 }));
    assert_eq!(c.tick(true, 6_100), Some(BrightnessCommand { percent: 100 }));
    assert_eq!(c.state, PresenceState { mode: Mode::Active, last_human_seen: 6_100 });
}

#[test]
fn repeated_sightings_while_active_are_quiet() {
    let mut c = PresenceController::new(policy(), 0);
    assert_eq!(c.tick(true, 100), None);
    assert_eq!(c.tick(true, 200), None);
    assert_eq!(c.state, PresenceState { mode: Mode::Active, last_human_seen: 200 });
    let mut d = PresenceController::new(policy(), 0);
    assert_eq!(d.observe(&seen(0), 100), None);
    assert_eq!(d.observe(&seen(0), 200), None);
    assert_eq!(d.state, PresenceState { mode: Mode::Active, last_human_seen: 200 });
}

#[test]
fn a_sighting_restarts_the_window() {
    let mut c = PresenceController::new(policy(), 0);
    assert_eq!(c.tick(false, 4_000), None);
    assert_eq!(c.tick(true, 4_500), None);
    assert_eq!(c.tick(false, 9_500), None);
    assert_eq!(c.tick(false, 9_501), Some(BrightnessCommand { percent: 0 }));
}

#[test]
fn a_clock_running_backwards_counts_as_no_time() {
    let mut c = PresenceController::new(policy(), 10_000);
    assert_eq!(c.tick(false, 0), None);
    assert_eq!(c.state, PresenceState { mode: Mode::Active, last_human_seen: 10_000 });
}

#[test]
fn only_the_human_class_counts() {
    let mut c = PresenceController::new(policy(), 0);
    assert_eq!(c.observe(&seen(1), 6_000), Some(BrightnessCommand { percent: 0 }));
    assert_eq!(c.observe(&seen(1), 6_100), None);
    assert_eq!(c.observe(&seen(0), 6_200), Some(BrightnessCommand { percent: 100 }));
    let mut other = PresenceController::new(
        PresencePolicy { human_class: 1, ..policy() },
        0,
    );
    assert_eq!(other.observe(&seen(0), 6_000), Some(BrightnessCommand { percent: 0 }));
    assert_eq!(other.observe(&seen(1), 6_100), Some(BrightnessCommand { percent: 100 }));
}

#[test]
fn an_undecodable_frame_is_skipped() {
    let mut c = PresenceController::new(policy(), 0);
    for e in [DecodeError::TooFewColumns, DecodeError::NoRows, DecodeError::SizeMismatch] {
        assert_eq!(c.observe(&Err(e), 60_000), None);
        assert_eq!(c.state, PresenceState { mode: Mode::Active, last_human_seen: 0 });
    }
    assert_eq!(c.tick(false, 60_000), Some(BrightnessCommand { percent: 0 }));
    assert_eq!(c.observe(&Err(DecodeError::NoRows), 60_100), None);
    assert_eq!(c.state.mode, Mode::PowerSaving);
}

#[test]
fn levels_and_window_come_from_the_policy() {
    let p = PresencePolicy { human_class: 0, hysteresis_window: 250, active_level: 80, saving_level: 15 };
    let mut c = PresenceController::new(p, 0);
    assert_eq!(c.tick(false, 250), None);
    assert_eq!(c.tick(false, 251), Some(BrightnessCommand { percent: 15 }));
    assert_eq!(c.tick(true, 252), Some(BrightnessCommand { percent: 80 }));
}

#[test]
fn one_order_for_each_display() {
    let orders = device_commands(Some(BrightnessCommand { percent: 0 }), 3);
    assert_eq!(
        orders,
        vec![
            DeviceCommand { device: 0, percent: 0 },
            DeviceCommand { device: 1, percent: 0 },
            DeviceCommand { device: 2, percent: 0 },
        ]
    );
    assert!(device_commands(Some(BrightnessCommand { percent: 100 }), 0).is_empty());
    assert!(device_commands(None, 3).is_empty());
}

#[test]
fn default_settings() {
    let s = Settings::default();
    assert_eq!(s.conf_thresh, 1_000);
    assert_eq!(s.nms_thresh, 1_000);
    assert_eq!(s.network_input, NetworkInput { width: 640, height: 640 });
    assert_eq!(s.human_class_index, 0);
    assert_eq!(s.hysteresis_window, 5_000);
    assert_eq!(s.poll_interval, 100);
    assert_eq!(s.active_brightness, 100);
    assert_eq!(s.power_saving_brightness, 0);
    assert!(s.is_valid());
    assert_eq!(
        s.policy(),
        PresencePolicy { human_class: 0, hysteresis_window: 5_000, active_level: 100, saving_level: 0 }
    );
}

#[test]
fn settings_are_checked() {
    let s = Settings::default();
    assert!(!Settings { network_input: NetworkInput { width: 0, height: 640 }, ..s }.is_valid());
    assert!(!Settings { network_input: NetworkInput { width: 640, height: 0 }, ..s }.is_valid());
    assert!(!Settings { active_brightness: 101, ..s }.is_valid());
    assert!(!Settings { power_saving_brightness: 101, ..s }.is_valid());
    assert!(Settings { active_brightness: 0, power_saving_brightness: 100, ..s }.is_valid());
}

#[test]
fn only_boundary_failures_end_the_process() {
    assert_eq!(reaction_to(Fault::Inference), Reaction::Terminate);
    assert_eq!(reaction_to(Fault::Capture), Reaction::Terminate);
    for e in [DecodeError::TooFewColumns, DecodeError::NoRows, DecodeError::SizeMismatch] {
        assert_eq!(reaction_to(Fault::Decode(e)), Reaction::SkipTick);
    }
    assert_eq!(reaction_to(Fault::Actuator), Reaction::NextDevice);
}
