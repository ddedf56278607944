[package]
name = "quay-kernel"
version = "0.1.0"
edition = "2021"
publish = false

[dependencies]
x86_64 = { version = "=0.15.5", default-features = false, features = ["instructions"] }
raw-cpuid = "=11.6.0"
acpi = "=6.1.1"
limine = "=0.6.5"
log = "=0.4.35"
spin = "=0.12.3"
lazy_static = { version = "=1.5.1", features = ["spin_no_std"] }
uart_16550 = "=0.9.0"
talc = "=5.1.1"
thiserror-no-std = "=2.0.2"
virtio-drivers = "=0.13.0"
gpt_disk_io = "=0.17.0"
uguid = "=2.2.1"
x2apic = "=0.5.1"
bitflags = "=2.13.2"
edid-rs = "=0.1.0"
embedded-graphics = "=0.8.2"
