//! Chassis commands of the host management protocol: what is sent, and what
//! the answer says.

use vstd::prelude::*;

verus! {

/// What a chassis does when power returns after a loss.
#[derive(Copy, Clone, Debug, PartialEq, Eq, Structural)]
pub enum PowerRestorePolicy {
    AlwaysOn,
    AlwaysOff,
    Previous,
}

/// The answer to a chassis status request.
#[derive(Copy, Clone, Debug, PartialEq, Eq, Structural)]
pub struct ChassisStatus {
    pub power_restore_policy: PowerRestorePolicy,
    pub power_control_fault: bool,
    pub power_fault: bool,
    pub interlock: bool,
    pub power_overload: bool,
    pub power_is_on: bool,
    pub last_power_on_by_command: bool,
    pub last_power_on_by_fault: bool,
    pub last_power_on_by_interlock_activated: bool,
    pub last_power_on_by_overload: bool,
    pub ac_failed: bool,
}

/// Whether bit `i` of `byte` is set, bit 0 being the lowest.
pub open spec fn bit(byte: u8, i: u8) -> bool {
    (byte >> i) & 1 == 1
}

/// The policy that bits 5 and 6 of the first status byte stand for: 0 keeps
/// the chassis off, 1 restores the previous state, 2 powers it on, and 3 is
/// not a policy.
pub open spec fn spec_policy(byte: u8) -> Option<PowerRestorePolicy> {
    let code = (byte >> 5) & 3;
    if code == 0 {
        Some(PowerRestorePolicy::AlwaysOff)
    } else if code == 1 {
        Some(PowerRestorePolicy::Previous)
    } else if code == 2 {
        Some(PowerRestorePolicy::AlwaysOn)
    } else {
        None
    }
}

/// What the bytes of a chassis status answer say.  The answer has at least
/// four bytes, of which the first two are read.
pub open spec fn spec_chassis_status(data: Seq<u8>) -> Option<ChassisStatus> {
    if data.len() < 4 {
        None
    } else {
        match spec_policy(data[0]) {
            None => None,
            Some(power_restore_policy) => Some(
                ChassisStatus {
                    power_restore_policy,
                    power_is_on: bit(data[0], 0),
                    power_overload: bit(data[0], 1),
                    interlock: bit(data[0], 2),
                    power_fault: bit(data[0], 3),
                    power_control_fault: bit(data[0], 4),
                    ac_failed: bit(data[1], 0),
                    last_power_on_by_overload: bit(data[1], 1),
                    last_power_on_by_interlock_activated: bit(data[1], 2),
                    last_power_on_by_fault: bit(data[1], 3),
                    last_power_on_by_command: bit(data[1], 4),
                },
            ),
        }
    }
}

fn test_bit(byte: u8, i: u8) -> (r: bool)
    requires
        i < 8,
    ensures
        r == bit(byte, i),
{
    (byte >> i) & 1 == 1
}

impl PowerRestorePolicy {
    /// The policy's name as it is shown to users.
    pub fn name(&self) -> (name: &'static str)
        ensures
            name@ == match self {
                PowerRestorePolicy::AlwaysOn => "always-on"@,
                PowerRestorePolicy::AlwaysOff => "always-off"@,
                PowerRestorePolicy::Previous => "previous"@,
            },
    {
        match self {
            PowerRestorePolicy::AlwaysOn => "always-on",
            PowerRestorePolicy::AlwaysOff => "always-off",
            PowerRestorePolicy::Previous => "previous",
        }
    }
}

impl ChassisStatus {
    /// Reads a chassis status answer.  An answer that is too short, or that
    /// names no power restore policy, gives nothing.
    pub fn from_data(data: &[u8]) -> (status: Option<ChassisStatus>)
        ensures
            status == spec_chassis_status(data@),
    {
        if data.len() < 4 {
            return None;
        }
        let code = (data[0] >> 5) & 3;
        let power_restore_policy = if code == 0 {
            PowerRestorePolicy::AlwaysOff
        } else if code == 1 {
            PowerRestorePolicy::Previous
        } else if code == 2 {
            PowerRestorePolicy::AlwaysOn
        } else {
            return None;
        };
        Some(
            ChassisStatus {
                power_restore_policy,
                power_is_on: test_bit(data[0], 0),
                power_overload: test_bit(data[0], 1),
                interlock: test_bit(data[0], 2),
                power_fault: test_bit(data[0], 3),
                power_control_fault: test_bit(data[0], 4),
                ac_failed: test_bit(data[1], 0),
                last_power_on_by_overload: test_bit(data[1], 1),
                last_power_on_by_interlock_activated: test_bit(data[1], 2),
                last_power_on_by_fault: test_bit(data[1], 3),
                last_power_on_by_command: test_bit(data[1], 4),
            },
        )
    }
}

/// A request as it goes on the wire: the network function, the command and
/// its data.
#[derive(Debug)]
pub struct Request {
    pub netfn: u8,
    pub command: u8,
    pub data: Vec<u8>,
}

/// The network function of chassis commands.
pub const NETFN_CHASSIS: u8 = 0x00;

/// The completion code of a command that succeeded.
pub const COMPLETION_SUCCESS: u8 = 0x00;

/// Why the answer to a command is of no use.
#[derive(Copy, Clone, Debug, PartialEq, Eq, Structural)]
pub enum ResponseError {
    /// The command did not succeed; this is its completion code.
    Failed { completion_code: u8 },
    /// The answer is too short, or makes no sense.
    NotEnoughData,
}

/// The request for the chassis status.
#[derive(Copy, Clone, Debug, PartialEq, Eq, Structural)]
pub struct GetChassisStatus;

impl GetChassisStatus {
    /// The request on the wire: chassis command 1, without data.
    pub fn request(&self) -> (r: Request)
        ensures
            r.netfn == NETFN_CHASSIS,
            r.command == 0x01,
            r.data@ == Seq::<u8>::empty(),
    {
        Request { netfn: NETFN_CHASSIS, command: 0x01, data: Vec::new() }
    }

    /// Reads the answer to the request.
    pub fn parse_response(completion_code: u8, data: &[u8]) -> (r: Result<
        ChassisStatus,
        ResponseError,
    >)
        ensures
            r == if completion_code != COMPLETION_SUCCESS {
                Err::<ChassisStatus, _>(ResponseError::Failed { completion_code })
            } else {
                match spec_chassis_status(data@) {
                    Some(status) => Ok(status),
                    None => Err(ResponseError::NotEnoughData),
                }
            },
    {
        if completion_code != COMPLETION_SUCCESS {
            return Err(ResponseError::Failed { completion_code });
        }
        match ChassisStatus::from_data(data) {
            Some(status) => Ok(status),
            None => Err(ResponseError::NotEnoughData),
        }
    }
}

/// What a chassis can be told to do.
#[derive(Copy, Clone, Debug, PartialEq, Eq, Structural)]
pub enum ChassisControl {
    PowerDown,
    PowerUp,
    PowerCycle,
    HardReset,
}

impl ChassisControl {
    /// The number that stands for the action on the wire.
    pub open spec fn spec_code(self) -> u8 {
        match self {
            ChassisControl::PowerDown => 0,
            ChassisControl::PowerUp => 1,
            ChassisControl::PowerCycle => 2,
            ChassisControl::HardReset => 3,
        }
    }

    /// The number that stands for the action on the wire.
    pub fn code(self) -> (code: u8)
        ensures
            code == self.spec_code(),
    {
        match self {
            ChassisControl::PowerDown => 0,
            ChassisControl::PowerUp => 1,
            ChassisControl::PowerCycle => 2,
            ChassisControl::HardReset => 3,
        }
    }

    /// The request on the wire: chassis command 2, with the action's number
    /// as its one byte of data.
    pub fn request(self) -> (r: Request)
        ensures
            r.netfn == NETFN_CHASSIS,
            r.command == 0x02,
            r.data@ == seq![self.spec_code()],
    {
        let mut data: Vec<u8> = Vec::new();
        data.push(self.code());
        Request { netfn: NETFN_CHASSIS, command: 0x02, data }
    }

    /// Reads the answer to the request, which carries nothing but its
    /// completion code.
    pub fn parse_response(completion_code: u8, data: &[u8]) -> (r: Result<(), ResponseError>)
        ensures
            r == if completion_code != COMPLETION_SUCCESS {
                Err::<(), _>(ResponseError::Failed { completion_code })
            } else {
                Ok(())
            },
    {
        if completion_code != COMPLETION_SUCCESS {
            return Err(ResponseError::Failed { completion_code });
        }
        Ok(())
    }
}

} // verus!
