use quay_kernel::graphics::edid::{
    check_edid_timings, monitor_name, preferred_mode, read_edid, refresh_rate, serial_string, DetailedTiming,
    MonitorDescriptor, PreferredMode,
};
use quay_kernel::graphics::{DoubleBuffer, SliceReader};

fn timing(pixel_clock: u32, active: (u16, u16), blank_h: (u16, u16, u16), blank_v: (u16, u16, u16)) -> DetailedTiming {
    DetailedTiming {
        pixel_clock,
        active,
        front_porch: (blank_h.0, blank_v.0),
        sync_length: (blank_h.1, blank_v.1),
        back_porch: (blank_h.2, blank_v.2),
    }
}

/// A 128-byte EDID block: product 0x1234 of 2014, EDID 1.4, one 800x600 detailed timing at
/// 40 MHz, then a monitor name, a serial number and a dummy descriptor.
fn edid_block() -> Vec<u8> {
    let mut b = vec![0u8; 128];
    b[0..8].copy_from_slice(&[0x00, 0xFF, 0xFF, 0xFF, 0xFF, 0xFF, 0xFF, 0x00]);
    // Manufacturer ID: three 5-bit letters ('Q'=17, 'E'=5, 'M'=13).
    let id: u16 = (17 << 10) | (5 << 5) | 13;
    b[8] = (id >> 8) as u8;
    b[9] = (id & 0xFF) as u8;
    b[10] = 0x34; // product code 0x1234, little-endian
    b[11] = 0x12;
    b[16] = 42; // week
    b[17] = 24; // year 2014
    b[18] = 1; // EDID 1.4
    b[19] = 4;
    b[20] = 0x80; // digital input
    b[21] = 30; // 30 cm x 20 cm
    b[22] = 20;
    b[23] = 0x78; // gamma 2.2
    // Standard timings: all unused (0x01 0x01).
    for i in 0..8 {
        b[0x26 + 2 * i] = 1;
        b[0x26 + 2 * i + 1] = 1;
    }
    // Detailed timing: 40 MHz, 800x600, blanking 256x28, front porch 40/1, sync 128/4.
    let d = 0x36;
    b[d] = (4000 & 0xFF) as u8;
    b[d + 1] = (4000 >> 8) as u8;
    b[d + 2] = 0x20; // 800 & 0xFF
    b[d + 3] = 0x00; // 256 & 0xFF
    b[d + 4] = 0x31; // high nibbles: 800 >> 8 = 3, 256 >> 8 = 1
    b[d + 5] = 0x58; // 600 & 0xFF
    b[d + 6] = 28;
    b[d + 7] = 0x20; // 600 >> 8 = 2, 28 >> 8 = 0
    b[d + 8] = 40;
    b[d + 9] = 128;
    b[d + 10] = 0x14; // vertical front porch 1, sync 4
    b[d + 11] = 0x00;
    b[d + 17] = 0x18;
    // Monitor name descriptor.
    let n = 0x48;
    b[n + 3] = 0xFC;
    b[n + 5..n + 18].copy_from_slice(b"QEMU Monitor\n");
    // Serial number descriptor.
    let s = 0x5A;
    b[s + 3] = 0xFF;
    b[s + 5..s + 18].copy_from_slice(b"SN-0042\n     ");
    // Dummy descriptor.
    let u = 0x6C;
    b[u + 3] = 0x10;
    b
}

#[test]
fn double_buffer_starts_black_and_sizes_by_pitch() {
    let fb = DoubleBuffer::new(4, 3, 32, 32);
    assert_eq!(fb.size(), (4, 3));
    // Eight pixels per row (the pitch), three rows.
    assert_eq!(fb.back_buffer().len(), 24);
    assert!(fb.back_buffer().iter().all(|&p| p == 0));
}

#[test]
fn double_buffer_draws_packed_rgb_and_drops_offscreen_pixels() {
    let mut fb = DoubleBuffer::new(4, 3, 32, 32);
    fb.draw_pixel(2, 1, 0x12, 0x34, 0x56);
    assert_eq!(fb.back_buffer()[8 + 2], 0x0012_3456);
    fb.draw_pixel(-1, 0, 0xFF, 0xFF, 0xFF);
    fb.draw_pixel(4, 0, 0xFF, 0xFF, 0xFF);
    fb.draw_pixel(0, 3, 0xFF, 0xFF, 0xFF);
    fb.draw_pixel(0, -5, 0xFF, 0xFF, 0xFF);
    let lit: Vec<usize> = (0..24).filter(|&i| fb.back_buffer()[i] != 0).collect();
    assert_eq!(lit, vec![10]);
    fb.draw_pixel(3, 2, 0xFF, 0x00, 0x80);
    assert_eq!(fb.back_buffer()[16 + 3], 0x00FF_0080);
}

#[test]
fn slice_reader_hands_out_bytes_in_order() {
    let data = [1u8, 2, 3, 4, 5];
    let mut reader = SliceReader::new(&data);
    let mut buf = [0u8; 2];
    assert_eq!(reader.read(&mut buf), Some(2));
    assert_eq!(buf, [1, 2]);
    assert_eq!(reader.read(&mut buf), Some(2));
    assert_eq!(buf, [3, 4]);
    let mut big = [9u8; 4];
    assert_eq!(reader.read(&mut big), Some(1));
    assert_eq!(big, [5, 9, 9, 9]);
    assert_eq!(reader.read(&mut big), Some(0));
    assert_eq!(big, [5, 9, 9, 9]);
}

#[test]
fn slice_reader_reads_everything_in_one_large_read() {
    let data: Vec<u8> = (0..200).map(|i| i as u8).collect();
    let mut reader = SliceReader::new(&data);
    let mut buf = vec![0u8; 256];
    assert_eq!(reader.read(&mut buf), Some(200));
    assert_eq!(&buf[..200], &data[..]);
}

#[test]
fn monitor_name_and_serial_take_the_last_descriptor() {
    let descriptors = vec![
        MonitorDescriptor::MonitorName("first".to_string()),
        MonitorDescriptor::Other,
        MonitorDescriptor::SerialNumber("S1".to_string()),
        MonitorDescriptor::MonitorName("second".to_string()),
    ];
    assert_eq!(monitor_name(&descriptors), "second");
    assert_eq!(serial_string(&descriptors), "S1");
    assert_eq!(monitor_name(&vec![MonitorDescriptor::Other]), "Generic Monitor");
    assert_eq!(serial_string(&Vec::new()), "N/A");
}

#[test]
fn refresh_rate_of_a_vesa_mode() {
    // 1024x768 at 65 MHz: 1344 x 806 pixels per frame, 60 Hz.
    let t = timing(65_000_000, (1024, 768), (24, 136, 160), (3, 6, 29));
    assert_eq!(refresh_rate(&t), 60);
    assert_eq!(
        preferred_mode(&vec![t, timing(1, (1, 1), (0, 0, 0), (0, 0, 0))]),
        Some(PreferredMode { width: 1024, height: 768, refresh_rate: 60, pixel_clock_mhz: 65 })
    );
}

#[test]
fn preferred_mode_needs_a_computable_first_timing() {
    assert_eq!(preferred_mode(&Vec::new()), None);
    assert_eq!(preferred_mode(&vec![timing(1000, (0, 0), (0, 0, 0), (0, 0, 0))]), None);
    assert_eq!(
        preferred_mode(&vec![timing(1000, (0xFFFF, 10), (1, 0, 0), (0, 0, 0))]),
        None
    );
    // The largest frame that still fits in 32 bits.
    assert_eq!(
        preferred_mode(&vec![timing(1000, (0xFFFF, 0xFFFF), (0, 0, 0), (0, 0, 0))]),
        Some(PreferredMode { width: 0xFFFF, height: 0xFFFF, refresh_rate: 0, pixel_clock_mhz: 0 })
    );
}

#[test]
fn read_edid_summarizes_a_block() {
    let summary = read_edid(&edid_block()).expect("the block parses");
    assert_eq!(summary.monitor_name, "QEMU Monitor");
    assert_eq!(summary.serial_number, "SN-0042");
    assert_eq!(
        summary.preferred,
        Some(PreferredMode { width: 800, height: 600, refresh_rate: 60, pixel_clock_mhz: 40 })
    );
    assert_eq!(summary.product.product_code, 0x1234);
    assert_eq!(summary.product.manufacture_date.year, 2014);
    assert_eq!(summary.version.version, 1);
    assert_eq!(summary.version.revision, 4);
}

#[test]
fn read_edid_rejects_a_bad_header() {
    let mut block = edid_block();
    block[0] = 0x12;
    assert!(read_edid(&block).is_err());
    assert!(read_edid(&[]).is_err());
}

#[test]
fn edid_timings_check_accepts_a_sound_block() {
    assert!(check_edid_timings(&edid_block()));
    assert!(check_edid_timings(&[]));
}

#[test]
fn edid_timings_check_refuses_a_blanking_shorter_than_porch_and_sync() {
    // Horizontal: blanking 256, front porch 40, sync 255.
    let mut block = edid_block();
    block[0x36 + 9] = 255;
    assert!(!check_edid_timings(&block));
    // Vertical: blanking 28, front porch 15, sync 15.
    let mut block = edid_block();
    block[0x36 + 10] = 0xFF;
    assert!(!check_edid_timings(&block));
}

#[test]
fn edid_timings_check_reads_the_later_slots() {
    // A second detailed timing in the slot of the name, with a vertical blanking of 0.
    let mut block = edid_block();
    let t = 0x48;
    block[t..t + 18].copy_from_slice(&[0xA0, 0x0F, 0x20, 0x00, 0x31, 0x58, 0, 0x20, 40, 128, 0x14, 0, 0, 0, 0, 0, 0, 0x18]);
    assert!(!check_edid_timings(&block));
    // Without a preferred timing in the first slot the parser stops before the others.
    block[0x36] = 0;
    block[0x37] = 0;
    assert!(check_edid_timings(&block));
}
