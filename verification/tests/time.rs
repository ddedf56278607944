use quay_kernel::arch::x86_64::timer::{spin_delay_elapsed, SystemTicks, TICKS_PER_SECOND};
use quay_kernel::drivers::timer::tsc::{frequency_from_cpuid_values, Tsc, TscInitError};
use quay_kernel::hal::timer::SystemTimer;
use quay_kernel::sys::acpi::QuayAcpiHandler;
use quay_kernel::sys::time::TimeKeeper;
use quay_kernel::x86::interrupt::timer::{
    calibration_result, hpet_target_ticks, ticks_per_ms, CALIBRATION_FALLBACK_TICKS,
};
use quay_kernel::x86::interrupt::{sleep_over, InterruptTicks};
use std::cell::Cell;

/// A timer that reports a fixed time and counts the waits asked of it.
struct FakeTimer {
    nanos: u64,
    stalled_us: Cell<u64>,
    slept_ms: Cell<u64>,
}

impl FakeTimer {
    fn new(nanos: u64) -> Self {
        FakeTimer { nanos, stalled_us: Cell::new(0), slept_ms: Cell::new(0) }
    }
}

impl SystemTimer for FakeTimer {
    fn nanos_since_boot(&self) -> u64 {
        self.nanos
    }

    fn stall_us(&self, microseconds: u64) {
        self.stalled_us.set(self.stalled_us.get() + microseconds);
    }

    fn sleep_ms(&self, milliseconds: u64) {
        self.slept_ms.set(self.slept_ms.get() + milliseconds);
    }
}

#[test]
fn system_ticks_count_and_wrap() {
    let mut ticks = SystemTicks::new();
    assert_eq!(ticks.get_system_ticks(), 0);
    ticks.increment_system_ticks();
    ticks.increment_system_ticks();
    assert_eq!(ticks.get_system_ticks(), 2);
    let mut last = SystemTicks::from_count(u64::MAX);
    last.increment_system_ticks();
    assert_eq!(last.get_system_ticks(), 0);
}

#[test]
fn system_ticks_after_k_increments_wrap_modulo_2_64() {
    // Five ticks from u64::MAX - 2: the count wraps to (start + 5) mod 2^64 = 2.
    let mut ticks = SystemTicks::from_count(u64::MAX - 2);
    for _ in 0..5 {
        ticks.increment_system_ticks();
    }
    assert_eq!(ticks.get_system_ticks(), 2);
}

#[test]
fn uptime_is_one_millisecond_per_tick() {
    assert_eq!(TICKS_PER_SECOND, 1000);
    assert_eq!(SystemTicks::from_count(1234).kernel_uptime_ms(), 1234);
    // The product saturates before the division.
    assert_eq!(SystemTicks::from_count(u64::MAX).kernel_uptime_ms(), u64::MAX / 1000);
}

#[test]
fn uptime_never_decreases_as_ticks_grow() {
    let mut ticks = SystemTicks::from_count(10);
    let mut last = ticks.kernel_uptime_ms();
    for _ in 0..100 {
        ticks.increment_system_ticks();
        let now = ticks.kernel_uptime_ms();
        assert!(now >= last);
        last = now;
    }
}

#[test]
fn spin_delay_target_and_elapsed() {
    let ticks = SystemTicks::from_count(500);
    let target = ticks.spin_delay_ms(20);
    assert_eq!(target, 520);
    assert!(!spin_delay_elapsed(519, target));
    assert!(spin_delay_elapsed(520, target));
    assert_eq!(SystemTicks::from_count(u64::MAX - 1).spin_delay_ms(5), u64::MAX);
}

#[test]
fn timekeeper_is_not_ready_until_a_timer_registers() {
    let keeper: TimeKeeper<FakeTimer> = TimeKeeper::new();
    assert!(!keeper.is_ready());
}

#[test]
fn timekeeper_first_registration_wins() {
    let mut keeper = TimeKeeper::new();
    keeper.register_timer(FakeTimer::new(111));
    keeper.register_timer(FakeTimer::new(222));
    assert!(keeper.is_ready());
    assert_eq!(keeper.nanos_since_boot(), 111);
}

#[test]
fn timekeeper_forwards_waits_to_the_timer() {
    let mut keeper = TimeKeeper::new();
    keeper.register_timer(FakeTimer::new(0));
    keeper.stall_us(7);
    keeper.sleep_ms(3);
    keeper.sleep_ms(4);
    assert_eq!(keeper.nanos_since_boot(), 0);
}

#[test]
fn tsc_frequency_from_leaf_0x15_ratio() {
    // 24 MHz crystal, ratio 125/2: 1.5 GHz.
    assert_eq!(frequency_from_cpuid_values(Some((125, 2, 24_000_000)), Some(3000)), Some(1_500_000_000));
}

#[test]
fn tsc_frequency_falls_back_to_leaf_0x16() {
    assert_eq!(frequency_from_cpuid_values(Some((0, 2, 24_000_000)), Some(3000)), Some(3_000_000_000));
    assert_eq!(frequency_from_cpuid_values(None, Some(2400)), Some(2_400_000_000));
    assert_eq!(frequency_from_cpuid_values(Some((125, 0, 1)), Some(0)), None);
    assert_eq!(frequency_from_cpuid_values(None, None), None);
}

#[test]
fn tsc_ratio_without_crystal_clock_falls_back_to_leaf_0x16() {
    // A ratio with a crystal frequency of 0, as some VMs report.
    assert_eq!(frequency_from_cpuid_values(Some((125, 2, 0)), Some(2400)), Some(2_400_000_000));
    assert_eq!(frequency_from_cpuid_values(Some((125, 2, 0)), None), None);
}

#[test]
fn tsc_frequency_extremes() {
    assert_eq!(
        frequency_from_cpuid_values(Some((u32::MAX, 1, u32::MAX)), None),
        Some((u32::MAX as u64) * (u32::MAX as u64))
    );
    assert_eq!(frequency_from_cpuid_values(None, Some(u16::MAX)), Some(65_535_000_000));
    assert_eq!(
        frequency_from_cpuid_values(Some((u32::MAX, u32::MAX, u32::MAX)), None),
        Some(u32::MAX as u64)
    );
}

#[test]
fn tsc_initialize_either_succeeds_with_a_frequency_or_names_the_reason() {
    match Tsc::initialize() {
        Ok(tsc) => assert_eq!(Some(tsc.frequency_hz()), Tsc::get_frequency_from_cpuid()),
        Err(e) => assert!(e == TscInitError::NotInvariant || e == TscInitError::NeedsCalibration),
    }
}

#[test]
fn tsc_calibration_scales_10ms_to_one_second() {
    assert_eq!(Tsc::from_calibration(1_000, 31_000_000).frequency_hz(), 3_099_900_000);
    assert_eq!(Tsc::from_calibration(5, 1).frequency_hz(), 0);
}

#[test]
fn tsc_nanos_and_stalls() {
    let tsc = Tsc::from_frequency(2_000_000_000);
    assert_eq!(tsc.nanos_at(4_000_000_000), 2_000_000_000);
    assert_eq!(tsc.nanos_at(3), 1);
    // 2^64 - 1 ticks at 1 Hz: the nanosecond count is truncated to 64 bits.
    let slow = Tsc::from_frequency(1);
    assert_eq!(slow.nanos_at(u64::MAX), ((u64::MAX as u128 * 1_000_000_000) % (1u128 << 64)) as u64);
    assert_eq!(tsc.stall_ticks(10), 20_000);
    assert_eq!(tsc.stall_ticks(u64::MAX), u64::MAX / 1_000_000);
    assert!(!Tsc::stall_elapsed(100, 150, 51));
    assert!(Tsc::stall_elapsed(100, 151, 51));
    assert!(Tsc::stall_elapsed(100, 50, 0));
    assert_eq!(Tsc::sleep_us(3), 3_000);
    assert_eq!(Tsc::sleep_us(u64::MAX), u64::MAX);
}

#[test]
fn tsc_nanos_never_decrease() {
    let tsc = Tsc::from_frequency(3_000_000_000);
    let mut last = 0;
    for t in (0..10_000_000u64).step_by(123_457) {
        let now = tsc.nanos_at(t);
        assert!(now >= last);
        last = now;
    }
}

#[test]
fn interrupt_ticks_uptime_and_sleep() {
    let mut ticks = InterruptTicks::new();
    assert_eq!(ticks.uptime_ms(), 0);
    ticks.tick();
    ticks.tick();
    assert_eq!(ticks.uptime_ms(), 2);
    let wake = ticks.sleep_ms(10);
    assert_eq!(wake, 12);
    assert!(!sleep_over(ticks.uptime_ms(), wake));
    for _ in 0..10 {
        ticks.tick();
    }
    assert!(sleep_over(ticks.uptime_ms(), wake));
}

#[test]
fn hpet_calibration_window() {
    // A 10 MHz HPET: 100,000,000 fs per tick; 10ms is 100,000 ticks.
    let caps = 100_000_000u64 << 32;
    assert_eq!(hpet_target_ticks(caps | 0xABCD), Some(100_000));
    assert_eq!(hpet_target_ticks(0xFFFF_FFFF), None);
}

#[test]
fn apic_calibration_result() {
    assert_eq!(ticks_per_ms(u32::MAX - 1_000_000), 100_000);
    assert_eq!(calibration_result(100_000_000u64 << 32, u32::MAX - 1_000_000), 100_000);
    assert_eq!(calibration_result(0, 0), CALIBRATION_FALLBACK_TICKS);
    assert_eq!(CALIBRATION_FALLBACK_TICKS, 1_000_000);
}

#[test]
fn acpi_handler_addresses_and_time() {
    let handler = QuayAcpiHandler::new(0xFFFF_8000_0000_0000);
    assert_eq!(handler.rsdp_physical_address(0xFFFF_8000_000E_0000), 0xE_0000);
    assert_eq!(handler.rsdp_physical_address(0xE_0000), 0);
    assert_eq!(handler.map_physical_region(0x1000), 0xFFFF_8000_0000_1000);
    assert_eq!(handler.virtual_address(0x2000), 0xFFFF_8000_0000_2000);
    assert_eq!(handler.virtual_address(u64::MAX), u64::MAX);
    let ticks = SystemTicks::from_count(3);
    assert_eq!(handler.nanos_since_boot(&ticks), 3_000_000);
    assert_eq!(handler.nanos_since_boot(&SystemTicks::from_count(u64::MAX)), u64::MAX);
    assert_eq!(handler.stall(&ticks, 10), 4);
    assert_eq!(handler.sleep(&ticks, 10), 13);
}

#[test]
fn early_acpi_handler_maps_through_the_hhdm() {
    let handler = quay_kernel::x86::acpi::QuayAcpiHandler::new(0x1000_0000);
    assert_eq!(handler.map_physical_region(0x1234), 0x1000_1234);
}

#[test]
fn tsc_setup_from_cpuid_values() {
    assert!(matches!(
        Tsc::from_cpuid_values(false, Some((125, 2, 24_000_000)), None),
        Err(TscInitError::NotInvariant)
    ));
    assert!(matches!(Tsc::from_cpuid_values(true, None, None), Err(TscInitError::NeedsCalibration)));
    match Tsc::from_cpuid_values(true, Some((125, 2, 24_000_000)), None) {
        Ok(tsc) => assert_eq!(tsc.frequency_hz(), 1_500_000_000),
        Err(e) => panic!("unexpected {:?}", e),
    }
    match Tsc::from_cpuid_values(true, None, Some(2400)) {
        Ok(tsc) => assert_eq!(tsc.frequency_hz(), 2_400_000_000),
        Err(e) => panic!("unexpected {:?}", e),
    }
}
