//! The controller facade: the live configuration behind a
//! reader-writer lock, and the running flag.
//!
//! The lock's invariant keeps every stored configuration well formed,
//! so every snapshot is a whole, well-formed configuration: readers
//! see either the old or the new value, never a mix of fan entries.
//! The running flag is a shared atomic boolean; shutdown stores
//! `false` once and the polling loop observes it within one cycle.

use crate::config::{extract_hw_map, hw_map_of, Config, FanConfig};
use core::sync::atomic::{AtomicBool, Ordering};
use std::sync::Arc;
use vstd::prelude::*;
use vstd::rwlock::{RwLock, RwLockPredicate};

verus! {

/// The lock invariant of the shared configuration: well-formedness.
pub struct WfConfig {}

impl RwLockPredicate<Config> for WfConfig {
    open spec fn inv(self, v: Config) -> bool {
        v.wf()
    }
}

/// The fan controller: owner of the live configuration and the
/// running flag, shared between the control loop and the management
/// interface.
pub struct FanController {
    config: Arc<RwLock<Config, WfConfig>>,
    running: Arc<AtomicBool>,
}

impl Clone for FanController {
    fn clone(&self) -> Self {
        FanController { config: self.config.clone(), running: self.running.clone() }
    }
}

impl FanController {
    /// Start from a resolved configuration, with the running flag set.
    pub fn new(config: Config) -> Self
        requires
            config.wf(),
    {
        FanController {
            config: Arc::new(RwLock::new(config, Ghost(WfConfig {  }))),
            running: Arc::new(AtomicBool::new(true)),
        }
    }

    /// A handle to the running flag, for shutdown signalling.
    pub fn get_running(&self) -> Arc<AtomicBool> {
        self.running.clone()
    }

    /// Request shutdown: the flag goes false; the control loop winds
    /// down on its own schedule.
    pub fn stop(&self) {
        self.running.store(false, Ordering::SeqCst);
    }

    /// Whether a stop has not been requested at the moment of the
    /// load.
    pub fn is_running(&self) -> bool {
        self.running.load(Ordering::SeqCst)
    }

    /// A snapshot of the current configuration, taken under the read
    /// lock: always one whole, well-formed configuration, never a
    /// partial mix of two.
    pub fn get_config(&self) -> (c: Config)
        ensures
            c.wf(),
    {
        let handle = self.config.acquire_read();
        let c = handle.borrow().clone();
        handle.release_read();
        c
    }

    /// Replace the configuration wholesale.  The next snapshot anyone
    /// takes is either the old or the new value in full.
    pub fn update_config(&self, new_config: Config)
        requires
            new_config.wf(),
    {
        let (old_config, write_handle) = self.config.acquire_write();
        write_handle.release_write(new_config);
    }

    /// The fans whose PWM control mode is to be released at shutdown:
    /// every fan of the configuration at the moment of this call's
    /// own snapshot.  Which snapshot the lock yields cannot be pinned
    /// here, so a caller that must release the fans of a specific
    /// earlier mapping — as re-initialization must, for the previous
    /// mapping — should keep its own copy and call [`fans_of`] on it.
    pub fn cleanup_fans(&self) -> (r: Vec<FanConfig>)
        ensures
            forall|i: int| 0 <= i < r@.len() ==> (#[trigger] r@[i]).wf(),
    {
        let snap = self.get_config();
        fans_of(&snap)
    }
}

/// The fan records of a configuration, in entry order.
pub fn fans_of(c: &Config) -> (r: Vec<FanConfig>)
    ensures
        r@.len() == c.fan@.len(),
        forall|i: int| 0 <= i < r@.len() ==> (#[trigger] r@[i])@ == c.fan@[i].config@,
        c.wf() ==> forall|i: int| 0 <= i < r@.len() ==> (#[trigger] r@[i]).wf(),
{
    let mut out: Vec<FanConfig> = Vec::new();
    let mut i: usize = 0;
    while i < c.fan.len()
        invariant
            i <= c.fan@.len(),
            out@.len() == i,
            forall|j: int| 0 <= j < i ==> (#[trigger] out@[j])@ == c.fan@[j].config@,
        decreases c.fan@.len() - i,
    {
        out.push(c.fan[i].config.clone());
        i += 1;
    }
    proof {
        if c.wf() {
            assert forall|j: int| 0 <= j < out@.len() implies (#[trigger] out@[j]).wf() by {
                assert(c.fan@[j].config.wf());
                assert(out@[j]@.steps == c.fan@[j].config@.steps);
            }
        }
    }
    out
}

/// What one polling cycle does for one fan, given what reading its
/// sensor file returned: nothing when the reading is unusable (that
/// fan is skipped for the cycle), else the whole-degree temperature,
/// the power percentage the curve commands at it, and the duty value
/// to write to the device.
pub fn fan_cycle_action(fan: &FanConfig, sensor_content: &Option<String>) -> (r: Option<
    (i32, u8, u8),
>)
    requires
        fan.wf(),
    ensures
        match r {
            None => crate::actuator::degrees_of_content(
                crate::actuator::content_view(*sensor_content),
            ) is None,
            Some(a) => crate::actuator::degrees_of_content(
                crate::actuator::content_view(*sensor_content),
            ) == Some(a.0 as int) && a.1 as int == crate::curve::power_spec(
                fan@.steps,
                a.0 as int,
            ) && a.2 as int == crate::actuator::pwm_of_percent(a.1 as int),
        },
{
    match crate::actuator::degrees_from_content(sensor_content) {
        None => None,
        Some(t) => {
            let p = crate::curve::get_fan_power(&fan.steps, t);
            let v = crate::actuator::pwm_value_for(p);
            Some((t, p, v))
        },
    }
}

/// Whether the control loop must re-initialize its actuators: exactly
/// when the snapshot's hardware mapping differs from the one captured
/// at the last initialization.  A curve-only edit never differs.
pub fn needs_reinit(current: &Config, last_hw: &Config) -> (r: bool)
    requires
        current.wf(),
        last_hw.wf(),
    ensures
        r == (hw_map_of(current@) != last_hw@),
{
    let cur_hw = extract_hw_map(current);
    !crate::config::config_eq(&cur_hw, last_hw)
}

} // verus!
