//! A set of GPU parameters and the device calls that apply it.

use vstd::prelude::*;

verus! {

/// The parameters to give one GPU; `None` leaves a parameter as it is.
/// Clocks are in MHz, the power limit in milliwatts.
#[derive(Clone, Copy, Debug, PartialEq, Eq, Structural)]
pub struct Sets {
    pub freq_offset: Option<i32>,
    pub mem_offset: Option<i32>,
    pub power_limit: Option<u32>,
    pub min_clock: Option<u32>,
    pub max_clock: Option<u32>,
    pub min_mem_clock: Option<u32>,
    pub max_mem_clock: Option<u32>,
}

/// One call into the GPU management library.
#[derive(Clone, Copy, Debug, PartialEq, Eq, Structural)]
pub enum GpuAction {
    /// Offset of the graphics clock's voltage/frequency curve.
    GpcClockOffset(i32),
    /// Offset of the memory clock's voltage/frequency curve.
    MemClockOffset(i32),
    /// Power management limit, in milliwatts.
    PowerLimit(u32),
    /// Lock the graphics clock to a range.
    LockedClocks { min_mhz: u32, max_mhz: u32 },
    /// Lock the memory clock to a range.
    LockedMemClocks { min_mhz: u32, max_mhz: u32 },
}

pub open spec fn when<T>(c: bool, x: T) -> Seq<T> {
    if c {
        seq![x]
    } else {
        seq![]
    }
}

/// The calls that apply `s`, in this order: the graphics clock offset, the
/// memory clock offset, the power limit, then each clock range whose both
/// ends are given.
pub open spec fn planned_actions(s: Sets) -> Seq<GpuAction> {
    when(s.freq_offset is Some, GpuAction::GpcClockOffset(s.freq_offset->0)) + when(
        s.mem_offset is Some,
        GpuAction::MemClockOffset(s.mem_offset->0),
    ) + when(s.power_limit is Some, GpuAction::PowerLimit(s.power_limit->0)) + when(
        s.min_clock is Some && s.max_clock is Some,
        GpuAction::LockedClocks { min_mhz: s.min_clock->0, max_mhz: s.max_clock->0 },
    ) + when(
        s.min_mem_clock is Some && s.max_mem_clock is Some,
        GpuAction::LockedMemClocks { min_mhz: s.min_mem_clock->0, max_mhz: s.max_mem_clock->0 },
    )
}

impl Sets {
    /// The device calls that apply these parameters, in order.
    pub fn actions(&self) -> (r: Vec<GpuAction>)
        ensures
            r@ == planned_actions(*self),
    {
        let mut r: Vec<GpuAction> = Vec::new();
        if let Some(f) = self.freq_offset {
            r.push(GpuAction::GpcClockOffset(f));
        }
        if let Some(m) = self.mem_offset {
            r.push(GpuAction::MemClockOffset(m));
        }
        if let Some(p) = self.power_limit {
            r.push(GpuAction::PowerLimit(p));
        }
        if let (Some(lo), Some(hi)) = (self.min_clock, self.max_clock) {
            r.push(GpuAction::LockedClocks { min_mhz: lo, max_mhz: hi });
        }
        if let (Some(lo), Some(hi)) = (self.min_mem_clock, self.max_mem_clock) {
            r.push(GpuAction::LockedMemClocks { min_mhz: lo, max_mhz: hi });
        }
        assert(r@ =~= planned_actions(*self));
        r
    }
}

} // verus!
