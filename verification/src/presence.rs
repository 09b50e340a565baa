//! The two-state presence controller with its hysteresis.

use vstd::prelude::*;
use crate::postprocess::{has_class, Detections};
use crate::tensor::DecodeError;

verus! {

/// Whether the display is at its working brightness or dimmed.
#[derive(Debug, Clone, Copy, PartialEq, Eq, Structural)]
pub enum Mode {
    Active,
    PowerSaving,
}

/// The controller's memory between ticks. Times are milliseconds on a clock
/// of the caller's choice.
#[derive(Debug, Clone, Copy, PartialEq, Eq, Structural)]
pub struct PresenceState {
    pub mode: Mode,
    pub last_human_seen: u64,
}

/// What the controller was built with.
#[derive(Debug, Clone, Copy, PartialEq, Eq, Structural)]
pub struct PresencePolicy {
    /// Class index that counts as a human.
    pub human_class: usize,
    /// How long, in milliseconds, nobody must have been seen before the
    /// display is dimmed.
    pub hysteresis_window: u64,
    /// Brightness in percent while somebody is present.
    pub active_level: u8,
    /// Brightness in percent while nobody is.
    pub saving_level: u8,
}

/// The order to set every known display to one brightness, in percent.
#[derive(Debug, Clone, Copy, PartialEq, Eq, Structural)]
pub struct BrightnessCommand {
    pub percent: u8,
}

/// One brightness order for one display, named by its position among the
/// known displays.
#[derive(Debug, Clone, Copy, PartialEq, Eq, Structural)]
pub struct DeviceCommand {
    pub device: usize,
    pub percent: u8,
}

/// What one tick tells the controller.
#[derive(Debug, Clone, Copy, PartialEq, Eq, Structural)]
pub struct Tick {
    pub human_present: bool,
    pub now: u64,
}

/// The state machine, owned by the loop that drives it.
#[derive(Debug, Clone, Copy, PartialEq, Eq, Structural)]
pub struct PresenceController {
    pub state: PresenceState,
    pub policy: PresencePolicy,
}

impl PresencePolicy {
    /// Both brightness levels are percentages.
    pub open spec fn valid(&self) -> bool {
        self.active_level <= 100 && self.saving_level <= 100
    }
}

/// Time passed since somebody was last seen. A clock that ran backwards
/// counts as no time passed.
pub open spec fn elapsed(state: PresenceState, now: u64) -> int {
    if now >= state.last_human_seen {
        now - state.last_human_seen
    } else {
        0
    }
}

/// The tick dims the display: nobody is seen, the display is active, and
/// more than the window has passed since somebody was.
pub open spec fn dims(state: PresenceState, policy: PresencePolicy, tick: Tick) -> bool {
    !tick.human_present && state.mode == Mode::Active && elapsed(state, tick.now)
        > policy.hysteresis_window
}

/// The tick restores the display: somebody is seen while it is dimmed.
pub open spec fn restores(state: PresenceState, tick: Tick) -> bool {
    tick.human_present && state.mode == Mode::PowerSaving
}

/// The state after a tick.
pub open spec fn next_state(state: PresenceState, policy: PresencePolicy, tick: Tick) -> PresenceState {
    if tick.human_present {
        PresenceState { mode: Mode::Active, last_human_seen: tick.now }
    } else if dims(state, policy, tick) {
        PresenceState { mode: Mode::PowerSaving, last_human_seen: state.last_human_seen }
    } else {
        state
    }
}

/// The order that a tick gives, if it gives one.
pub open spec fn command_of(state: PresenceState, policy: PresencePolicy, tick: Tick) -> Option<
    BrightnessCommand,
> {
    if restores(state, tick) {
        Some(BrightnessCommand { percent: policy.active_level })
    } else if dims(state, policy, tick) {
        Some(BrightnessCommand { percent: policy.saving_level })
    } else {
        None
    }
}

/// The state after a run of ticks.
pub open spec fn state_after(state: PresenceState, policy: PresencePolicy, ticks: Seq<Tick>) -> PresenceState
    decreases ticks.len(),
{
    if ticks.len() == 0 {
        state
    } else {
        next_state(state_after(state, policy, ticks.drop_last()), policy, ticks.last())
    }
}

/// The orders given during a run of ticks, in the order given.
pub open spec fn commands_during(
    state: PresenceState,
    policy: PresencePolicy,
    ticks: Seq<Tick>,
) -> Seq<BrightnessCommand>
    decreases ticks.len(),
{
    if ticks.len() == 0 {
        Seq::empty()
    } else {
        let before = commands_during(state, policy, ticks.drop_last());
        match command_of(state_after(state, policy, ticks.drop_last()), policy, ticks.last()) {
            Some(c) => before.push(c),
            None => before,
        }
    }
}

/// The orders for each of `count` displays that one command stands for.
pub open spec fn fan_out(command: Option<BrightnessCommand>, count: usize) -> Seq<DeviceCommand> {
    match command {
        Some(c) => Seq::new(
            count as nat,
            |i: int| DeviceCommand { device: i as usize, percent: c.percent },
        ),
        None => Seq::empty(),
    }
}

/// An order is given exactly when the mode changes.
pub proof fn lemma_command_iff_mode_changes(state: PresenceState, policy: PresencePolicy, tick: Tick)
    ensures
        command_of(state, policy, tick).is_some() == (next_state(state, policy, tick).mode
            != state.mode),
        dims(state, policy, tick) ==> next_state(state, policy, tick).mode == Mode::PowerSaving,
        restores(state, tick) ==> next_state(state, policy, tick).mode == Mode::Active,
{
}

/// Under a valid policy every order names a percentage.
pub proof fn lemma_command_is_percentage(state: PresenceState, policy: PresencePolicy, tick: Tick)
    requires
        policy.valid(),
    ensures
        (match command_of(state, policy, tick) {
            Some(c) => c.percent <= 100,
            None => true,
        }),
{
}

/// One command becomes exactly one order for each display.
pub proof fn lemma_fan_out_covers_each_device(command: BrightnessCommand, count: usize, i: int)
    requires
        0 <= i < count,
    ensures
        fan_out(Some(command), count).len() == count,
        fan_out(Some(command), count)[i] == (DeviceCommand {
            device: i as usize,
            percent: command.percent,
        }),
        fan_out(Some(command), count)[i].device == i,
        fan_out(None, count).len() == 0,
{
}

/// One of the ticks comes more than the window after a human was last seen.
pub open spec fn window_crossed(state: PresenceState, policy: PresencePolicy, ticks: Seq<Tick>) -> bool {
    exists|i: int|
        0 <= i < ticks.len() && elapsed(state, (#[trigger] ticks[i]).now) > policy.hysteresis_window
}

/// A run of ticks without a human, starting from an active display: the
/// time a human was last seen stays. While no tick crosses the window,
/// nothing changes and no order is given; once one has, the display is
/// dimmed, by exactly one order.
pub proof fn lemma_absence_from_active(state: PresenceState, policy: PresencePolicy, ticks: Seq<Tick>)
    requires
        state.mode == Mode::Active,
        forall|i: int| 0 <= i < ticks.len() ==> !(#[trigger] ticks[i]).human_present,
    ensures
        state_after(state, policy, ticks).last_human_seen == state.last_human_seen,
        !window_crossed(state, policy, ticks) ==> state_after(state, policy, ticks) == state,
        !window_crossed(state, policy, ticks) ==> commands_during(state, policy, ticks) == Seq::<
            BrightnessCommand,
        >::empty(),
        window_crossed(state, policy, ticks) ==> state_after(state, policy, ticks).mode
            == Mode::PowerSaving,
        window_crossed(state, policy, ticks) ==> commands_during(state, policy, ticks) == seq![
            (BrightnessCommand { percent: policy.saving_level }),
        ],
    decreases ticks.len(),
{
    if ticks.len() > 0 {
        let front = ticks.drop_last();
        let last = ticks.last();
        lemma_absence_from_active(state, policy, front);
        if window_crossed(state, policy, front) {
            let i = choose|i: int|
                0 <= i < front.len() && elapsed(state, (#[trigger] front[i]).now)
                    > policy.hysteresis_window;
            assert(ticks[i] == front[i]);
        } else if elapsed(state, last.now) > policy.hysteresis_window {
            assert(ticks[ticks.len() - 1] == last);
            assert(commands_during(state, policy, ticks) =~= seq![
                (BrightnessCommand { percent: policy.saving_level }),
            ]);
        } else {
            assert forall|i: int| 0 <= i < ticks.len() implies elapsed(
                state,
                (#[trigger] ticks[i]).now,
            ) <= policy.hysteresis_window by {
                if i < front.len() {
                    assert(ticks[i] == front[i]);
                }
            }
        }
    }
}

/// A dimmed display that sees a human is restored by that very tick, with
/// one order to the active level.
pub proof fn lemma_presence_restores_at_once(state: PresenceState, policy: PresencePolicy, now: u64)
    requires
        state.mode == Mode::PowerSaving,
    ensures
        next_state(state, policy, Tick { human_present: true, now }) == (PresenceState {
            mode: Mode::Active,
            last_human_seen: now,
        }),
        command_of(state, policy, Tick { human_present: true, now }) == Some(
            BrightnessCommand { percent: policy.active_level },
        ),
{
}

/// After a tick with a human present, a second such tick changes no mode and
/// gives no order, whatever the state was before the first.
pub proof fn lemma_presence_twice_is_quiet(
    state: PresenceState,
    policy: PresencePolicy,
    first: u64,
    second: u64,
)
    ensures
        ({
            let mid = next_state(state, policy, Tick { human_present: true, now: first });
            &&& mid.mode == Mode::Active
            &&& command_of(mid, policy, Tick { human_present: true, now: second }).is_none()
            &&& next_state(mid, policy, Tick { human_present: true, now: second }).mode
                == Mode::Active
            &&& state.mode == Mode::Active ==> command_of(
                state,
                policy,
                Tick { human_present: true, now: first },
            ).is_none()
        }),
{
}

/// A dimmed display stays dimmed, without any order, for as long as nobody
/// is seen.
pub proof fn lemma_absence_keeps_dimmed(state: PresenceState, policy: PresencePolicy, ticks: Seq<Tick>)
    requires
        state.mode == Mode::PowerSaving,
        forall|i: int| 0 <= i < ticks.len() ==> !(#[trigger] ticks[i]).human_present,
    ensures
        state_after(state, policy, ticks) == state,
        commands_during(state, policy, ticks) == Seq::<BrightnessCommand>::empty(),
    decreases ticks.len(),
{
    if ticks.len() > 0 {
        lemma_absence_keeps_dimmed(state, policy, ticks.drop_last());
    }
}

impl PresenceController {
    /// A controller that starts active, with somebody seen at `now`.
    pub fn new(policy: PresencePolicy, now: u64) -> (c: PresenceController)
        ensures
            c.policy == policy,
            c.state == (PresenceState { mode: Mode::Active, last_human_seen: now }),
    {
        PresenceController { state: PresenceState { mode: Mode::Active, last_human_seen: now }, policy }
    }

    /// Takes one tick: whether a human is present at time `now`.
    ///
    /// A human present is always recorded and restores a dimmed display at
    /// once. Without one, an active display is dimmed once more than the
    /// window has passed since a human was last seen. Returns the order to
    /// carry out, if the tick changed the mode.
    pub fn tick(&mut self, human_present: bool, now: u64) -> (command: Option<BrightnessCommand>)
        ensures
            final(self).policy == old(self).policy,
            final(self).state == next_state(
                old(self).state,
                old(self).policy,
                Tick { human_present, now },
            ),
            command == command_of(old(self).state, old(self).policy, Tick { human_present, now }),
    {
        if human_present {
            let was_saving = self.state.mode == Mode::PowerSaving;
            self.state.last_human_seen = now;
            self.state.mode = Mode::Active;
            if was_saving {
                Some(BrightnessCommand { percent: self.policy.active_level })
            } else {
                None
            }
        } else {
            let since: u64 = if now >= self.state.last_human_seen {
                now - self.state.last_human_seen
            } else {
                0
            };
            if since > self.policy.hysteresis_window && self.state.mode == Mode::Active {
                self.state.mode = Mode::PowerSaving;
                Some(BrightnessCommand { percent: self.policy.saving_level })
            } else {
                None
            }
        }
    }

    /// Takes the outcome of one frame.
    ///
    /// Detections count as a tick with a human present exactly if one of
    /// them has the human class. A frame that could not be decoded is
    /// skipped: the state stays as it is and no order is given.
    pub fn observe(&mut self, outcome: &Result<Detections, DecodeError>, now: u64) -> (command: Option<
        BrightnessCommand,
    >)
        ensures
            final(self).policy == old(self).policy,
            (match outcome {
                Ok(d) => {
                    let tick = (Tick {
                        human_present: has_class(d.detections@, old(self).policy.human_class),
                        now,
                    });
                    &&& final(self).state == next_state(old(self).state, old(self).policy, tick)
                    &&& command == command_of(old(self).state, old(self).policy, tick)
                },
                Err(_) => final(self).state == old(self).state && command.is_none(),
            }),
    {
        match outcome {
            Ok(d) => {
                let human_present = d.contains_class(self.policy.human_class);
                self.tick(human_present, now)
            },
            Err(_) => None,
        }
    }
}

/// Spreads one command over `count` displays: one order for each, in their
/// order, and none where there is no command.
pub fn device_commands(command: Option<BrightnessCommand>, count: usize) -> (orders: Vec<
    DeviceCommand,
>)
    ensures
        orders@ == fan_out(command, count),
{
    let mut orders: Vec<DeviceCommand> = Vec::new();
    if let Some(c) = command {
        let mut i: usize = 0;
        while i < count
            invariant
                i <= count,
                orders@.len() == i,
                forall|j: int|
                    0 <= j < i ==> (#[trigger] orders@[j]) == (DeviceCommand {
                        device: j as usize,
                        percent: c.percent,
                    }),
            decreases count - i,
        {
            orders.push(DeviceCommand { device: i, percent: c.percent });
            i += 1;
        }
    }
    assert(orders@ =~= fan_out(command, count));
    orders
}

} // verus!
