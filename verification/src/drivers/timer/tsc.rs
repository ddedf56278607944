//! The Time Stamp Counter (TSC) as the system timer: its frequency comes from CPUID, or from a
//! calibration against the legacy PIT when CPUID does not tell it.

use crate::arith::{sat_mul, sat_sub};
use raw_cpuid::CpuId;
use vstd::prelude::*;

verus! {

/// Reads CPUID leaf 0x15 (TSC and core crystal clock): the TSC/crystal ratio's numerator and
/// denominator and the crystal's nominal frequency in Hz. `None` when the leaf is not supported.
///
/// Trusted: calls `CpuId::get_tsc_info` of `raw-cpuid` and its `numerator`, `denominator` and
/// `nominal_frequency`. Nothing is claimed of the values: they come from the processor.
#[verifier::external_body]
fn cpuid_tsc_leaf() -> (r: Option<(u32, u32, u32)>) {
    match CpuId::new().get_tsc_info() {
        Some(info) => Some((info.numerator(), info.denominator(), info.nominal_frequency())),
        None => None,
    }
}

/// Reads CPUID leaf 0x16: the processor base frequency in MHz. `None` when the leaf is not
/// supported.
///
/// Trusted: calls `CpuId::get_processor_frequency_info` of `raw-cpuid` and its
/// `processor_base_frequency`. Nothing is claimed of the value: it comes from the processor.
#[verifier::external_body]
fn cpuid_base_frequency_mhz() -> (r: Option<u16>) {
    match CpuId::new().get_processor_frequency_info() {
        Some(info) => Some(info.processor_base_frequency()),
        None => None,
    }
}

/// Checks if the CPU TSC is invariant (ticks at a constant rate).
///
/// Trusted: calls `CpuId::get_advanced_power_mgmt_info` of `raw-cpuid` and `has_invariant_tsc`.
/// Nothing is claimed of the answer: it comes from the processor.
#[verifier::external_body]
pub fn has_tsc_invariant() -> (r: bool) {
    match CpuId::new().get_advanced_power_mgmt_info() {
        Some(info) => info.has_invariant_tsc(),
        None => false,
    }
}

/// The TSC frequency in Hz that CPUID leaves 0x15 and 0x16 give: crystal frequency times the
/// ratio when the crystal frequency and both terms of the ratio are nonzero (saturating, then
/// divided); else the base frequency in MHz times one million when it is nonzero; else none. A
/// ratio without a crystal frequency, as some VMs report, falls through to leaf 0x16.
pub open spec fn frequency_from_leaves(
    tsc_leaf: Option<(u32, u32, u32)>,
    base_mhz: Option<u16>,
) -> Option<u64> {
    let from_ratio = match tsc_leaf {
        Some((numerator, denominator, clock_hz)) => if denominator != 0 && numerator != 0 && clock_hz
            != 0 {
            Some(((sat_mul(clock_hz as int, numerator as int) as int) / (denominator as int)) as u64)
        } else {
            None
        },
        None => None,
    };
    if from_ratio is Some {
        from_ratio
    } else {
        match base_mhz {
            Some(mhz) => if mhz > 0 {
                Some(sat_mul(mhz as int, 1_000_000))
            } else {
                None
            },
            None => None,
        }
    }
}

/// Computes the TSC frequency from the values of CPUID leaves 0x15 and 0x16.
pub fn frequency_from_cpuid_values(tsc_leaf: Option<(u32, u32, u32)>, base_mhz: Option<u16>) -> (r:
    Option<u64>)
    ensures
        r == frequency_from_leaves(tsc_leaf, base_mhz),
{
    // Leaf 0x15: some VMs/CPUs return the ratio but lack the nominal frequency.
    if let Some((numerator, denominator, clock_hz)) = tsc_leaf {
        if denominator != 0 && numerator != 0 && clock_hz != 0 {
            let frequency = crate::arith::saturating_mul_u64(clock_hz as u64, numerator as u64)
                / (denominator as u64);
            return Some(frequency);
        }
    }
    // Leaf 0x16 as a fallback.
    if let Some(mhz) = base_mhz {
        if mhz > 0 {
            return Some(crate::arith::saturating_mul_u64(mhz as u64, 1_000_000));
        }
    }
    None
}

/// The TSC frequency computed from what a calibration measured: the TSC ticks counted over the
/// 10ms of a PIT countdown, scaled up to one second.
pub open spec fn calibrated_frequency(start_tsc: u64, end_tsc: u64) -> int {
    sat_sub(end_tsc as int, start_tsc as int) * 100
}

/// Why the TSC could not be set up from CPUID alone.
#[derive(Debug, Clone, Copy, PartialEq, Eq, Structural)]
pub enum TscInitError {
    /// The TSC does not tick at a constant rate.
    NotInvariant,
    /// CPUID does not give the frequency: it must be calibrated against the PIT.
    NeedsCalibration,
}

/// What setting up the TSC gives for what CPUID reports: `NotInvariant` when the TSC is not
/// invariant; else the frequency that leaves 0x15 and 0x16 give, or `NeedsCalibration` when they
/// give none.
pub open spec fn tsc_setup(
    tsc_invariant: bool,
    tsc_leaf: Option<(u32, u32, u32)>,
    base_mhz: Option<u16>,
) -> Result<u64, TscInitError> {
    if !tsc_invariant {
        Err(TscInitError::NotInvariant)
    } else {
        match frequency_from_leaves(tsc_leaf, base_mhz) {
            Some(f) => Ok(f),
            None => Err(TscInitError::NeedsCalibration),
        }
    }
}

/// A set-up result is the expected outcome: a TSC of the expected frequency, or the expected
/// error.
pub open spec fn setup_matches(r: Result<Tsc, TscInitError>, expected: Result<u64, TscInitError>) -> bool {
    match r {
        Ok(tsc) => expected == Ok::<u64, TscInitError>(tsc.frequency()),
        Err(e) => expected == Err::<u64, TscInitError>(e),
    }
}

/// The TSC driver.
pub struct Tsc {
    /// The frequency of the TSC in Hz (ticks per second).
    frequency_hz: u64,
}

impl Tsc {
    pub closed spec fn frequency(&self) -> u64 {
        self.frequency_hz
    }

    /// A TSC ticking at `frequency_hz`.
    pub fn from_frequency(frequency_hz: u64) -> (r: Self)
        ensures
            r.frequency() == frequency_hz,
    {
        Tsc { frequency_hz }
    }

    /// Attempts to read the TSC frequency directly from the CPU. Whatever CPUID reports, the
    /// frequency is the one its leaves 0x15 and 0x16 give.
    pub fn get_frequency_from_cpuid() -> (r: Option<u64>)
        ensures
            exists|tsc_leaf: Option<(u32, u32, u32)>, base_mhz: Option<u16>|
                r == #[trigger] frequency_from_leaves(tsc_leaf, base_mhz),
    {
        let tsc_leaf = cpuid_tsc_leaf();
        let base_mhz = cpuid_base_frequency_mhz();
        frequency_from_cpuid_values(tsc_leaf, base_mhz)
    }

    /// Sets up the TSC from what CPUID reports: whether the TSC is invariant, and leaves 0x15
    /// and 0x16.
    pub fn from_cpuid_values(
        tsc_invariant: bool,
        tsc_leaf: Option<(u32, u32, u32)>,
        base_mhz: Option<u16>,
    ) -> (r: Result<Self, TscInitError>)
        ensures
            setup_matches(r, tsc_setup(tsc_invariant, tsc_leaf, base_mhz)),
    {
        if !tsc_invariant {
            return Err(TscInitError::NotInvariant);
        }
        match frequency_from_cpuid_values(tsc_leaf, base_mhz) {
            Some(frequency_hz) => Ok(Tsc { frequency_hz }),
            None => Err(TscInitError::NeedsCalibration),
        }
    }

    /// Sets up the TSC: it must be invariant, and its frequency must come from CPUID; otherwise
    /// the caller calibrates it against the PIT and uses [Tsc::from_calibration]. Whatever
    /// CPUID reports, the outcome is the one [tsc_setup] gives for it.
    pub fn initialize() -> (r: Result<Self, TscInitError>)
        ensures
            exists|tsc_invariant: bool, tsc_leaf: Option<(u32, u32, u32)>, base_mhz: Option<u16>|
                setup_matches(r, #[trigger] tsc_setup(tsc_invariant, tsc_leaf, base_mhz)),
    {
        if !has_tsc_invariant() {
            let r = Err(TscInitError::NotInvariant);
            assert(setup_matches(r, tsc_setup(false, None, None)));
            return r;
        }
        let tsc_leaf = cpuid_tsc_leaf();
        let base_mhz = cpuid_base_frequency_mhz();
        let r = Self::from_cpuid_values(true, tsc_leaf, base_mhz);
        assert(setup_matches(r, tsc_setup(true, tsc_leaf, base_mhz)));
        r
    }

    /// A TSC whose frequency was calibrated: `start_tsc` and `end_tsc` were read around a 10ms
    /// countdown of the PIT.
    pub fn from_calibration(start_tsc: u64, end_tsc: u64) -> (r: Self)
        requires
            calibrated_frequency(start_tsc, end_tsc) <= u64::MAX,
        ensures
            r.frequency() == calibrated_frequency(start_tsc, end_tsc),
    {
        let ticks_in_10ms = end_tsc.saturating_sub(start_tsc);
        // Apply a scaling up to 1 second.
        Tsc { frequency_hz: ticks_in_10ms * 100 }
    }

    /// Returns the frequency of the TSC in Hz.
    pub fn frequency_hz(&self) -> (r: u64)
        ensures
            r == self.frequency(),
    {
        self.frequency_hz
    }

    /// Nanoseconds since boot at TSC value `tsc`: the value times 10^9 over the frequency (in 128
    /// bits, saturating), truncated to 64 bits.
    pub fn nanos_at(&self, tsc: u64) -> (r: u64)
        requires
            self.frequency() > 0,
        ensures
            r == (((tsc as int * 1_000_000_000) / (self.frequency() as int)) % 0x1_0000_0000_0000_0000),
    {
        let current = tsc as u128;
        assert(current * 1_000_000_000 <= u128::MAX) by (nonlinear_arith)
            requires
                current <= u64::MAX,
        ;
        let scaled = current * 1_000_000_000;
        let nanos = scaled / (self.frequency_hz as u128);
        proof {
            assert(nanos as u64 == nanos % 0x1_0000_0000_0000_0000) by (bit_vector);
        }
        nanos as u64
    }

    /// The TSC ticks a stall of `microseconds` waits: microseconds times the frequency
    /// (saturating) over one million.
    pub fn stall_ticks(&self, microseconds: u64) -> (r: u64)
        ensures
            r == (sat_mul(microseconds as int, self.frequency() as int) as int) / 1_000_000,
    {
        crate::arith::saturating_mul_u64(microseconds, self.frequency_hz) / 1_000_000
    }

    /// A stall that started at TSC value `start` is over once `ticks` have passed by `now`.
    pub fn stall_elapsed(start: u64, now: u64, ticks: u64) -> (r: bool)
        ensures
            r == (sat_sub(now as int, start as int) >= ticks),
    {
        now.saturating_sub(start) >= ticks
    }

    /// Microseconds of a sleep of `milliseconds` (saturating).
    pub fn sleep_us(milliseconds: u64) -> (r: u64)
        ensures
            r == sat_mul(milliseconds as int, 1_000),
    {
        crate::arith::saturating_mul_u64(milliseconds, 1_000)
    }
}

/// Law: the clock does not run backwards. Until the nanosecond count outgrows 64 bits, a later
/// TSC reading never gives fewer nanoseconds since boot.
pub proof fn lemma_nanos_monotone(frequency: u64, earlier: u64, later: u64)
    requires
        frequency > 0,
        earlier <= later,
        (later as int * 1_000_000_000) / (frequency as int) < 0x1_0000_0000_0000_0000,
    ensures
        ((earlier as int * 1_000_000_000) / (frequency as int)) % 0x1_0000_0000_0000_0000 <= ((
        later as int * 1_000_000_000) / (frequency as int)) % 0x1_0000_0000_0000_0000,
{
    let a = (earlier as int * 1_000_000_000) / (frequency as int);
    let b = (later as int * 1_000_000_000) / (frequency as int);
    assert(0 <= a <= b) by (nonlinear_arith)
        requires
            frequency > 0,
            earlier <= later,
            a == (earlier as int * 1_000_000_000) / (frequency as int),
            b == (later as int * 1_000_000_000) / (frequency as int),
            earlier >= 0,
    ;
}

} // verus!
