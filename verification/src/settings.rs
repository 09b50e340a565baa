//! Everything about the loop that can be set from outside.

use vstd::prelude::*;
use crate::mapper::NetworkInput;
use crate::presence::PresencePolicy;

verus! {

/// The settings of the detection path and of the presence controller.
/// Thresholds count steps of `1 / UNIT`, times are milliseconds, brightness
/// levels are percentages.
#[derive(Debug, Clone, Copy, PartialEq, Eq, Structural)]
pub struct Settings {
    /// Least objectness of a row and least composite score of a detection.
    pub conf_thresh: i32,
    /// Overlap ratio above which the lower-ranking of two boxes is dropped.
    pub nms_thresh: i32,
    /// Resolution of the network's input.
    pub network_input: NetworkInput,
    /// Class index that counts as a human.
    pub human_class_index: usize,
    /// How long nobody must have been seen before the display is dimmed.
    pub hysteresis_window: u64,
    /// Pause between two frames.
    pub poll_interval: u64,
    /// Brightness while somebody is present.
    pub active_brightness: u8,
    /// Brightness while nobody is.
    pub power_saving_brightness: u8,
}

/// The settings that apply where nothing else is chosen: both thresholds at
/// one tenth, a network input of 640 by 640, class 0 as the human, a window
/// of five seconds, a frame every 100 milliseconds, and full brightness
/// against none.
pub open spec fn default_settings() -> Settings {
    Settings {
        conf_thresh: 1_000,
        nms_thresh: 1_000,
        network_input: NetworkInput { width: 640, height: 640 },
        human_class_index: 0,
        hysteresis_window: 5_000,
        poll_interval: 100,
        active_brightness: 100,
        power_saving_brightness: 0,
    }
}

impl Settings {
    /// The network input has an extent and both brightness levels are
    /// percentages.
    pub open spec fn valid(&self) -> bool {
        &&& self.network_input.valid()
        &&& self.active_brightness <= 100
        &&& self.power_saving_brightness <= 100
    }

    /// The part of the settings that the presence controller goes by.
    pub open spec fn policy_of(&self) -> PresencePolicy {
        PresencePolicy {
            human_class: self.human_class_index,
            hysteresis_window: self.hysteresis_window,
            active_level: self.active_brightness,
            saving_level: self.power_saving_brightness,
        }
    }

    /// Whether the settings can be used.
    pub fn is_valid(&self) -> (b: bool)
        ensures
            b == self.valid(),
    {
        self.network_input.width > 0 && self.network_input.height > 0 && self.active_brightness
            <= 100 && self.power_saving_brightness <= 100
    }

    /// The policy for a presence controller.
    pub fn policy(&self) -> (p: PresencePolicy)
        ensures
            p == self.policy_of(),
            self.valid() ==> p.valid(),
    {
        PresencePolicy {
            human_class: self.human_class_index,
            hysteresis_window: self.hysteresis_window,
            active_level: self.active_brightness,
            saving_level: self.power_saving_brightness,
        }
    }
}

impl Default for Settings {
    fn default() -> (s: Settings)
        ensures
            s == default_settings(),
            s.valid(),
    {
        Settings {
            conf_thresh: 1_000,
            nms_thresh: 1_000,
            network_input: NetworkInput { width: 640, height: 640 },
            human_class_index: 0,
            hysteresis_window: 5_000,
            poll_interval: 100,
            active_brightness: 100,
            power_saving_brightness: 0,
        }
    }
}

} // verus!
