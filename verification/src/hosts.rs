//! What the server reports about the hosts it manages, and what it can be
//! told to do with them.

use vstd::prelude::*;
use crate::ipmi::{ChassisControl, ChassisStatus, PowerRestorePolicy};

verus! {

/// The state of one host.
#[derive(Debug, Clone)]
pub struct HostState {
    pub power_is_on: bool,
    pub power_restore_policy: String,
    /// Sensor names with their readings.
    pub sensors: Vec<(String, String)>,
}

/// Why the state of a host could not be read.
#[derive(Debug, Clone)]
pub struct Error {
    pub error: String,
}

/// What a client asks of a host.
#[derive(Debug, Clone)]
pub struct HostCommand {
    /// The wanted power state, if it is to change.
    pub power: Option<bool>,
}

/// The states of all hosts, each under its name, or the reason why it is not
/// known.
#[derive(Debug)]
pub struct HostList {
    pub hosts: Vec<(String, Result<HostState, Error>)>,
}

/// The name under which a power restore policy is reported.
pub open spec fn policy_name(policy: PowerRestorePolicy) -> Seq<char> {
    match policy {
        PowerRestorePolicy::AlwaysOn => "always-on"@,
        PowerRestorePolicy::AlwaysOff => "always-off"@,
        PowerRestorePolicy::Previous => "previous"@,
    }
}

impl HostState {
    /// The state that is reported for a host whose chassis answered with
    /// `chassis` and whose sensors read `sensors`.
    pub fn from_chassis(chassis: &ChassisStatus, sensors: Vec<(String, String)>) -> (state:
        HostState)
        ensures
            state.power_is_on == chassis.power_is_on,
            state.power_restore_policy@ == policy_name(chassis.power_restore_policy),
            state.sensors == sensors,
    {
        HostState {
            power_is_on: chassis.power_is_on,
            power_restore_policy: chassis.power_restore_policy.name().to_owned(),
            sensors,
        }
    }
}

impl HostCommand {
    /// The chassis command that carries the request out: power up or power
    /// down where a power state is asked for, nothing otherwise.
    pub fn control(&self) -> (control: Option<ChassisControl>)
        ensures
            control == match self.power {
                Some(true) => Some(ChassisControl::PowerUp),
                Some(false) => Some(ChassisControl::PowerDown),
                None => None::<ChassisControl>,
            },
    {
        match self.power {
            Some(true) => Some(ChassisControl::PowerUp),
            Some(false) => Some(ChassisControl::PowerDown),
            None => None,
        }
    }
}

} // verus!
