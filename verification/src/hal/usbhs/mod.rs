//! The USB port: bring-up, the same for both roles.

pub mod device;
pub mod host;

use vstd::prelude::*;

verus! {

/// The bring-up stage that failed.
#[derive(Clone, Copy, PartialEq, Eq, Structural, Debug)]
pub enum Error {
    /// The PHY's reference clock never started.
    Xo24mTimeout,
    /// Nothing is wired to the port.
    NoVbus,
    /// The core did not answer with its signature.
    CoreNotResponding,
    /// The bus never went idle for the reset.
    AhbNotIdle,
    /// The reset never completed.
    ResetTimeout,
    /// The core refused the role.
    ModeRefused,
}

/// Cycles of the counter per millisecond.
pub const CYC_PER_MS: u32 = 128_000;

/// Whether `ms` milliseconds have passed from `start` to `now` of a counter
/// that wraps.
pub fn elapsed_ms(start: u32, now: u32, ms: u32) -> (b: bool)
    requires
        ms <= 33_554,
    ensures
        b == ((now - start) % 0x1_0000_0000 >= 128_000 * ms),
{
    now.wrapping_sub(start) >= ms * CYC_PER_MS
}

/// Whether an identification word is the core's.
pub fn is_core(gsnpsid: u32) -> (b: bool)
    ensures
        b == (gsnpsid / 65536 == 0x4F54),
{
    gsnpsid / 65536 == 0x4F54
}

/// The waits of a bring-up, in order.
#[derive(Clone, Copy, PartialEq, Eq, Structural, Debug)]
pub enum PowerStage {
    Clock,
    Vbus,
    Core,
    Idle,
    Reset,
    IdleAgain,
    /// The core is reset and idle.
    Ready,
}

/// What follows a wait.
#[derive(Clone, Copy, PartialEq, Eq, Structural, Debug)]
pub enum PowerNext {
    Go(PowerStage),
    /// Give up; `down` says whether there is power to take away.
    Fail { error: Error, down: bool },
}

/// Milliseconds that a stage's wait may take.
pub fn stage_ms(s: PowerStage) -> (ms: u32)
    ensures
        ms == (match s {
            PowerStage::Clock => 100,
            PowerStage::Vbus => 100,
            PowerStage::Ready => 0,
            _ => 50u32,
        }),
{
    match s {
        PowerStage::Clock => 100,
        PowerStage::Vbus => 100,
        PowerStage::Ready => 0,
        _ => 50,
    }
}

pub open spec fn stage_after(s: PowerStage) -> PowerStage {
    match s {
        PowerStage::Clock => PowerStage::Vbus,
        PowerStage::Vbus => PowerStage::Core,
        PowerStage::Core => PowerStage::Idle,
        PowerStage::Idle => PowerStage::Reset,
        PowerStage::Reset => PowerStage::IdleAgain,
        PowerStage::IdleAgain => PowerStage::Ready,
        PowerStage::Ready => PowerStage::Ready,
    }
}

pub open spec fn stage_error(s: PowerStage) -> Error {
    match s {
        PowerStage::Clock => Error::Xo24mTimeout,
        PowerStage::Vbus => Error::NoVbus,
        PowerStage::Core => Error::CoreNotResponding,
        PowerStage::Idle => Error::AhbNotIdle,
        _ => Error::ResetTimeout,
    }
}

/// One wait of the bring-up is over; `ok` says that it was met.
pub fn power_up(s: PowerStage, ok: bool) -> (n: PowerNext)
    requires
        s != PowerStage::Ready,
    ensures
        n == (if ok {
            PowerNext::Go(stage_after(s))
        } else {
            PowerNext::Fail { error: stage_error(s), down: s != PowerStage::Clock }
        }),
{
    if ok {
        PowerNext::Go(
            match s {
                PowerStage::Clock => PowerStage::Vbus,
                PowerStage::Vbus => PowerStage::Core,
                PowerStage::Core => PowerStage::Idle,
                PowerStage::Idle => PowerStage::Reset,
                PowerStage::Reset => PowerStage::IdleAgain,
                _ => PowerStage::Ready,
            },
        )
    } else {
        let error = match s {
            PowerStage::Clock => Error::Xo24mTimeout,
            PowerStage::Vbus => Error::NoVbus,
            PowerStage::Core => Error::CoreNotResponding,
            PowerStage::Idle => Error::AhbNotIdle,
            _ => Error::ResetTimeout,
        };
        PowerNext::Fail { error, down: s != PowerStage::Clock }
    }
}

/// The stages left after one.
pub open spec fn stages_left(s: PowerStage) -> int {
    match s {
        PowerStage::Clock => 6,
        PowerStage::Vbus => 5,
        PowerStage::Core => 4,
        PowerStage::Idle => 3,
        PowerStage::Reset => 2,
        PowerStage::IdleAgain => 1,
        PowerStage::Ready => 0,
    }
}

/// A bring-up ends: every wait that is met leaves one stage fewer.
pub proof fn law_bring_up_ends(s: PowerStage)
    requires
        s != PowerStage::Ready,
    ensures
        stages_left(stage_after(s)) == stages_left(s) - 1,
{
}

} // verus!
