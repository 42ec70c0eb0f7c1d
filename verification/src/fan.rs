//! The fan board's decisions: which remote command is in force, and whether
//! it drives the fan and the louvre servo or parks them.

use vstd::prelude::*;

verus! {

/// Whether the remote user wants the fan running.
#[derive(Clone, Copy, Debug, PartialEq, Eq, Structural)]
pub enum Power {
    On,
    Off,
}

impl Default for Power {
    /// A fan that has heard nothing yet stays off.
    fn default() -> (p: Self)
        ensures
            p == Power::Off,
    {
        Power::Off
    }
}

/// The command the remote side publishes: power, the target temperature in
/// whole degrees Celsius, and the louvre angle in radians, carried as the bit
/// pattern of its single-precision value (the angle only reaches the servo).
#[allow(non_snake_case)]
#[derive(Clone, Copy, Debug, PartialEq, Eq, Structural)]
pub struct ParamsSent {
    pub power: Power,
    pub targetTemp: u32,
    pub angle_bits: u32,
}

/// The command in force before any has been received: off, a target of zero
/// and an angle of `0.0`, whose bit pattern is zero.
pub open spec fn initial_params() -> ParamsSent {
    ParamsSent { power: Power::Off, targetTemp: 0, angle_bits: 0 }
}

impl Default for ParamsSent {
    fn default() -> (p: Self)
        ensures
            p == initial_params(),
    {
        ParamsSent { power: Power::default(), targetTemp: 0, angle_bits: 0 }
    }
}

/// What the fan board does with its actuators in one round.
#[derive(Clone, Copy, Debug, PartialEq, Eq, Structural)]
pub enum Drive {
    /// Power the fan and the servo, aim the louvre at the angle and blow
    /// toward the target temperature, then report the measurements.
    Run { target_temp: u32, angle_bits: u32 },
    /// Centre the louvre and cut power to the fan and the servo.
    Park,
}

/// The drive that a command calls for.
pub open spec fn drive_for(p: ParamsSent) -> Drive {
    match p.power {
        Power::On => Drive::Run { target_temp: p.targetTemp, angle_bits: p.angle_bits },
        Power::Off => Drive::Park,
    }
}

/// The command in force after a fetch: the fetched one, or, where the fetch
/// failed, the one in force before.
pub open spec fn next_params(current: ParamsSent, fetched: Option<ParamsSent>) -> ParamsSent {
    match fetched {
        Some(p) => p,
        None => current,
    }
}

/// Chooses the drive for a command.
pub fn plan(params: &ParamsSent) -> (d: Drive)
    ensures
        d == drive_for(*params),
        params.power == Power::On ==> d == (Drive::Run {
            target_temp: params.targetTemp,
            angle_bits: params.angle_bits,
        }),
        params.power == Power::Off ==> d == Drive::Park,
{
    if params.power == Power::On {
        Drive::Run { target_temp: params.targetTemp, angle_bits: params.angle_bits }
    } else {
        Drive::Park
    }
}

/// The fan board's memory between rounds: the command in force.
#[derive(Clone, Copy, Debug)]
pub struct FanController {
    pub params: ParamsSent,
}

impl FanController {
    /// A controller that has received no command yet.
    pub fn new() -> (c: Self)
        ensures
            c.params == initial_params(),
    {
        FanController { params: ParamsSent::default() }
    }

    /// One round: takes in the outcome of fetching the remote command
    /// (`None` where the fetch or its decoding failed) and returns what to do
    /// with the actuators.
    pub fn step(&mut self, fetched: Option<ParamsSent>) -> (d: Drive)
        ensures
            final(self).params == next_params(old(self).params, fetched),
            d == drive_for(final(self).params),
    {
        match fetched {
            Some(p) => {
                self.params = p;
            },
            None => {},
        }
        plan(&self.params)
    }
}

/// A failed fetch changes nothing: the command in force, and so the drive,
/// stay what they were.
pub proof fn lemma_failed_fetch_keeps_drive(current: ParamsSent)
    ensures
        next_params(current, None) == current,
        drive_for(next_params(current, None)) == drive_for(current),
{
}

/// A received command takes over whatever was in force before it.
pub proof fn lemma_received_command_wins(a: ParamsSent, b: ParamsSent, received: ParamsSent)
    ensures
        next_params(a, Some(received)) == next_params(b, Some(received)),
        drive_for(next_params(a, Some(received))) == drive_for(received),
{
}

/// The actuators run exactly while the command in force says on; before any
/// command arrives they are parked.
pub proof fn lemma_runs_only_when_on(p: ParamsSent)
    ensures
        (drive_for(p) == Drive::Park) <==> p.power == Power::Off,
        drive_for(initial_params()) == Drive::Park,
{
}


/// A running drive carries the command's target temperature and louvre
/// angle unchanged: for every command that says on, the drive is a run with
/// exactly that target and angle, so commands that differ in target or angle
/// give runs that differ alike.
pub proof fn lemma_run_carries_command(p: ParamsSent, q: ParamsSent)
    ensures
        p.power == Power::On ==> drive_for(p) == (Drive::Run {
            target_temp: p.targetTemp,
            angle_bits: p.angle_bits,
        }),
        p.power == Power::On && q.power == Power::On ==> (drive_for(p) == drive_for(q) <==> (
        p.targetTemp == q.targetTemp && p.angle_bits == q.angle_bits)),
{
}

} // verus!
