//! What the monitor's EDID block tells the kernel: its name and serial number, and its preferred
//! video mode.

use edid_rs::parse;
use edid_rs::MonitorDescriptor as EdidDescriptor;
use std::io::Cursor;
use vstd::prelude::*;

verus! {

#[verifier::external_type_specification]
#[verifier::external_body]
pub struct ExProductInformation(edid_rs::ProductInformation);

#[verifier::external_type_specification]
#[verifier::external_body]
pub struct ExVersion(edid_rs::Version);

#[verifier::external_type_specification]
#[verifier::external_body]
pub struct ExDisplayParameters(edid_rs::DisplayParameters);

/// The name shown for a monitor whose EDID names none.
pub const DEFAULT_MONITOR_NAME: &'static str = "Generic Monitor";

/// The serial number shown for a monitor whose EDID gives none.
pub const DEFAULT_SERIAL: &'static str = "N/A";

/// A monitor descriptor of the EDID, as far as the kernel reads it.
pub enum MonitorDescriptor {
    SerialNumber(String),
    MonitorName(String),
    /// Any other descriptor.
    Other,
}

/// A detailed timing of the EDID: the pixel clock in Hz, and the active area, front porch,
/// sync pulse and back porch in pixels and lines.
#[derive(Debug, Clone, Copy, PartialEq, Eq)]
pub struct DetailedTiming {
    pub pixel_clock: u32,
    pub active: (u16, u16),
    pub front_porch: (u16, u16),
    pub sync_length: (u16, u16),
    pub back_porch: (u16, u16),
}

/// A parsed EDID block: the product, version and display fields as the parser gives them, and
/// the timings and descriptors the kernel reads.
pub struct EdidInfo {
    pub product: edid_rs::ProductInformation,
    pub version: edid_rs::Version,
    pub display: edid_rs::DisplayParameters,
    /// The detailed timings; the first one is the preferred mode.
    pub detailed_timings: Vec<DetailedTiming>,
    pub descriptors: Vec<MonitorDescriptor>,
}

/// Offset of the first of the four 18-byte descriptor slots of an EDID block.
pub const DESCRIPTORS_START: usize = 0x36;

/// The slot at `p` starts a detailed timing: its pixel clock and the low byte of its horizontal
/// active size are nonzero.
pub open spec fn is_timing_at(b: Seq<u8>, p: int) -> bool {
    &&& 0 <= p
    &&& p + 3 <= b.len()
    &&& (b[p] != 0 || b[p + 1] != 0)
    &&& b[p + 2] != 0
}

/// The timing at `p` has horizontal blanking at least its front porch plus its sync width, and
/// the same vertically (the parser computes each back porch as the difference), or is cut
/// short before its sync fields.
pub open spec fn timing_bytes_sound(b: Seq<u8>, p: int) -> bool {
    p < 0 || p + 12 > b.len() || {
        let hvs = b[p + 11] as int;
        let h_blank = b[p + 3] + (b[p + 4] % 16) * 256;
        let v_blank = b[p + 6] + (b[p + 7] % 16) * 256;
        let h_front = b[p + 8] + ((hvs / 64) % 4) * 256;
        let h_sync = b[p + 9] + ((hvs / 16) % 4) * 256;
        let v_front = b[p + 10] / 16 + ((hvs / 4) % 4) * 16;
        let v_sync = b[p + 10] % 16 + (hvs % 4) * 16;
        h_sync + h_front <= h_blank && v_sync + v_front <= v_blank
    }
}

/// Where the parser reads the slot after the one at `p`: 18 bytes on, except after a dummy
/// descriptor (tag 0x10, of which it reads 5 bytes) and after a white point descriptor (tag
/// 0xfb) whose first index is nonzero and second is zero (23 bytes).
pub open spec fn next_slot(b: Seq<u8>, p: int) -> int {
    if is_timing_at(b, p) || p < 0 || p + 4 > b.len() {
        p + 18
    } else if b[p + 3] == 0x10 {
        p + 5
    } else if b[p + 3] == 0xfb && p + 11 <= b.len() && b[p + 5] != 0 && b[p + 10] == 0 {
        p + 23
    } else {
        p + 18
    }
}

/// The `n` slots from `p` on hold only sound timings.
pub open spec fn slots_sound(b: Seq<u8>, p: int, n: nat) -> bool
    decreases n,
{
    n == 0 || ((is_timing_at(b, p) ==> timing_bytes_sound(b, p)) && slots_sound(
        b,
        next_slot(b, p),
        (n - 1) as nat,
    ))
}

/// Every detailed timing the parser would read in the EDID block `b` is sound: the first slot
/// (which must be a timing) and the three after it.
pub open spec fn edid_timings_ok(b: Seq<u8>) -> bool {
    is_timing_at(b, DESCRIPTORS_START as int) ==> (timing_bytes_sound(b, DESCRIPTORS_START as int)
        && slots_sound(b, next_slot(b, DESCRIPTORS_START as int), 3))
}

/// The result of parsing the EDID bytes `bytes`.
pub uninterp spec fn parsed_edid(bytes: Seq<u8>) -> Result<EdidInfo, &'static str>;

/// Parses an EDID block with `edid_rs::parse`. Trusted: the result is the parser's result on
/// these bytes, with the timings and descriptors copied one for one (descriptors other than the
/// monitor name and the serial number become `Other`). The parser subtracts the sync width and
/// the front porch of each detailed timing from its blanking in `u16`, which panics when they
/// exceed it; `edid_timings_ok` leaves such blocks out.
#[verifier::external_body]
fn parse_edid(bytes: &[u8]) -> (r: Result<EdidInfo, &'static str>)
    requires
        edid_timings_ok(bytes@),
    ensures
        r == parsed_edid(bytes@),
{
    let e = parse(&mut Cursor::new(bytes.to_vec()))?;
    Ok(EdidInfo {
        product: e.product,
        version: e.version,
        display: e.display,
        detailed_timings: e.timings.detailed_timings.iter().map(|t| DetailedTiming {
            pixel_clock: t.pixel_clock, active: t.active, front_porch: t.front_porch,
            sync_length: t.sync_length, back_porch: t.back_porch }).collect(),
        descriptors: e.descriptors.0.into_iter().map(|d| match d {
            EdidDescriptor::MonitorName(n) => MonitorDescriptor::MonitorName(n),
            EdidDescriptor::SerialNumber(s) => MonitorDescriptor::SerialNumber(s),
            _ => MonitorDescriptor::Other }).collect(),
    })
}

/// The monitor's name: that of the last name descriptor, or the default.
pub open spec fn monitor_name_of(descriptors: Seq<MonitorDescriptor>) -> Seq<char>
    decreases descriptors.len(),
{
    if descriptors.len() == 0 {
        DEFAULT_MONITOR_NAME@
    } else {
        match descriptors.last() {
            MonitorDescriptor::MonitorName(name) => name@,
            _ => monitor_name_of(descriptors.drop_last()),
        }
    }
}

/// The monitor's serial number: that of the last serial number descriptor, or the default.
pub open spec fn serial_of(descriptors: Seq<MonitorDescriptor>) -> Seq<char>
    decreases descriptors.len(),
{
    if descriptors.len() == 0 {
        DEFAULT_SERIAL@
    } else {
        match descriptors.last() {
            MonitorDescriptor::SerialNumber(serial) => serial@,
            _ => serial_of(descriptors.drop_last()),
        }
    }
}

/// Extracts the monitor name from the descriptors.
pub fn monitor_name(descriptors: &Vec<MonitorDescriptor>) -> (r: String)
    ensures
        r@ == monitor_name_of(descriptors@),
{
    let mut name = DEFAULT_MONITOR_NAME.to_owned();
    let mut i: usize = 0;
    while i < descriptors.len()
        invariant
            i <= descriptors@.len(),
            name@ == monitor_name_of(descriptors@.take(i as int)),
        decreases descriptors@.len() - i,
    {
        proof {
            assert(descriptors@.take(i as int + 1).drop_last() =~= descriptors@.take(i as int));
        }
        match &descriptors[i] {
            MonitorDescriptor::MonitorName(n) => {
                name = n.clone();
            },
            _ => {},
        }
        i = i + 1;
    }
    proof {
        assert(descriptors@.take(i as int) =~= descriptors@);
    }
    name
}

/// Extracts the serial number from the descriptors.
pub fn serial_string(descriptors: &Vec<MonitorDescriptor>) -> (r: String)
    ensures
        r@ == serial_of(descriptors@),
{
    let mut serial = DEFAULT_SERIAL.to_owned();
    let mut i: usize = 0;
    while i < descriptors.len()
        invariant
            i <= descriptors@.len(),
            serial@ == serial_of(descriptors@.take(i as int)),
        decreases descriptors@.len() - i,
    {
        proof {
            assert(descriptors@.take(i as int + 1).drop_last() =~= descriptors@.take(i as int));
        }
        match &descriptors[i] {
            MonitorDescriptor::SerialNumber(s) => {
                serial = s.clone();
            },
            _ => {},
        }
        i = i + 1;
    }
    proof {
        assert(descriptors@.take(i as int) =~= descriptors@);
    }
    serial
}

/// Total pixels per line, blanking (porches and sync) included.
pub open spec fn h_total(t: DetailedTiming) -> int {
    t.active.0 + t.front_porch.0 + t.sync_length.0 + t.back_porch.0
}

/// Total lines per frame, blanking (porches and sync) included.
pub open spec fn v_total(t: DetailedTiming) -> int {
    t.active.1 + t.front_porch.1 + t.sync_length.1 + t.back_porch.1
}

/// The refresh rate of a timing can be computed in the widths the EDID uses: both totals fit
/// in 16 bits, their product in 32 bits, and the product is not zero.
pub open spec fn timing_computable(t: DetailedTiming) -> bool {
    &&& h_total(t) <= u16::MAX
    &&& v_total(t) <= u16::MAX
    &&& 0 < h_total(t) * v_total(t) <= u32::MAX
}

/// The refresh rate in Hz: the pixel clock over the pixels per frame.
pub fn refresh_rate(t: &DetailedTiming) -> (r: u32)
    requires
        timing_computable(*t),
    ensures
        r == t.pixel_clock as int / (h_total(*t) * v_total(*t)),
{
    let h_total = t.active.0 + t.front_porch.0 + t.sync_length.0 + t.back_porch.0;
    let v_total = t.active.1 + t.front_porch.1 + t.sync_length.1 + t.back_porch.1;
    t.pixel_clock / (h_total as u32 * v_total as u32)
}

/// The preferred video mode: resolution, refresh rate in Hz and pixel clock in MHz.
#[derive(Debug, Clone, Copy, PartialEq, Eq, Structural)]
pub struct PreferredMode {
    pub width: u16,
    pub height: u16,
    pub refresh_rate: u32,
    pub pixel_clock_mhz: u32,
}

/// The preferred mode that a timing describes.
pub open spec fn mode_of(t: DetailedTiming) -> PreferredMode {
    PreferredMode {
        width: t.active.0,
        height: t.active.1,
        refresh_rate: (t.pixel_clock as int / (h_total(t) * v_total(t))) as u32,
        pixel_clock_mhz: t.pixel_clock / 1_000_000,
    }
}

/// The preferred mode: that of the first detailed timing. `None` when there is no timing, or
/// when its refresh rate cannot be computed (see `timing_computable`).
pub fn preferred_mode(timings: &Vec<DetailedTiming>) -> (r: Option<PreferredMode>)
    ensures
        r == if timings@.len() > 0 && timing_computable(timings@[0]) {
            Some(mode_of(timings@[0]))
        } else {
            None::<PreferredMode>
        },
{
    if timings.len() == 0 {
        return None;
    }
    let t = &timings[0];
    let h_total = t.active.0 as u64 + t.front_porch.0 as u64 + t.sync_length.0 as u64
        + t.back_porch.0 as u64;
    let v_total = t.active.1 as u64 + t.front_porch.1 as u64 + t.sync_length.1 as u64
        + t.back_porch.1 as u64;
    if h_total > 0xFFFF || v_total > 0xFFFF {
        return None;
    }
    assert(h_total * v_total <= 0xFFFF * 0xFFFF) by (nonlinear_arith)
        requires
            h_total <= 0xFFFF,
            v_total <= 0xFFFF,
    ;
    let frame = h_total * v_total;
    if frame == 0 || frame > 0xFFFF_FFFF {
        return None;
    }
    Some(
        PreferredMode {
            width: t.active.0,
            height: t.active.1,
            refresh_rate: refresh_rate(t),
            pixel_clock_mhz: t.pixel_clock / 1_000_000,
        },
    )
}

/// What the kernel reports of a monitor.
pub struct EdidSummary {
    pub monitor_name: String,
    pub serial_number: String,
    pub preferred: Option<PreferredMode>,
    pub product: edid_rs::ProductInformation,
    pub version: edid_rs::Version,
    pub display: edid_rs::DisplayParameters,
}

/// The report on a parsed EDID block.
pub open spec fn summary_matches(s: EdidSummary, info: EdidInfo) -> bool {
    &&& s.monitor_name@ == monitor_name_of(info.descriptors@)
    &&& s.serial_number@ == serial_of(info.descriptors@)
    &&& s.preferred == if info.detailed_timings@.len() > 0 && timing_computable(
        info.detailed_timings@[0],
    ) {
        Some(mode_of(info.detailed_timings@[0]))
    } else {
        None::<PreferredMode>
    }
    &&& s.product == info.product
    &&& s.version == info.version
    &&& s.display == info.display
}

/// Summarizes a parsed EDID block.
pub fn summarize_edid(info: EdidInfo) -> (r: EdidSummary)
    ensures
        summary_matches(r, info),
{
    let monitor_name = monitor_name(&info.descriptors);
    let serial_number = serial_string(&info.descriptors);
    let preferred = preferred_mode(&info.detailed_timings);
    EdidSummary {
        monitor_name,
        serial_number,
        preferred,
        product: info.product,
        version: info.version,
        display: info.display,
    }
}

/// Parses the EDID block `bytes` and summarizes it; the parser's error when it rejects the
/// bytes. Its detailed timings must be sound (see `check_edid_timings`).
pub fn read_edid(bytes: &[u8]) -> (r: Result<EdidSummary, &'static str>)
    requires
        edid_timings_ok(bytes@),
    ensures
        match parsed_edid(bytes@) {
            Ok(info) => r is Ok && summary_matches(r->Ok_0, info),
            Err(e) => r == Err::<EdidSummary, &'static str>(e),
        },
{
    match parse_edid(bytes) {
        Ok(info) => Ok(summarize_edid(info)),
        Err(e) => Err(e),
    }
}

/// Whether the slot at `p` starts a detailed timing.
fn timing_at(bytes: &[u8], p: usize) -> (r: bool)
    requires
        p <= 0x1000,
    ensures
        r == is_timing_at(bytes@, p as int),
{
    p + 3 <= bytes.len() && (bytes[p] != 0 || bytes[p + 1] != 0) && bytes[p + 2] != 0
}

/// Whether the timing at `p` is sound.
fn timing_sound(bytes: &[u8], p: usize) -> (r: bool)
    requires
        p <= 0x1000,
    ensures
        r == timing_bytes_sound(bytes@, p as int),
{
    if p + 12 > bytes.len() {
        return true;
    }
    let hvs = bytes[p + 11] as u32;
    let h_blank = bytes[p + 3] as u32 + (bytes[p + 4] as u32 % 16) * 256;
    let v_blank = bytes[p + 6] as u32 + (bytes[p + 7] as u32 % 16) * 256;
    let h_front = bytes[p + 8] as u32 + ((hvs / 64) % 4) * 256;
    let h_sync = bytes[p + 9] as u32 + ((hvs / 16) % 4) * 256;
    let v_front = bytes[p + 10] as u32 / 16 + ((hvs / 4) % 4) * 16;
    let v_sync = bytes[p + 10] as u32 % 16 + (hvs % 4) * 16;
    h_sync + h_front <= h_blank && v_sync + v_front <= v_blank
}

/// Where the slot after the one at `p` starts.
fn slot_after(bytes: &[u8], p: usize) -> (r: usize)
    requires
        p <= 0x1000,
    ensures
        r == next_slot(bytes@, p as int),
        r <= p + 23,
{
    if timing_at(bytes, p) || p + 4 > bytes.len() {
        p + 18
    } else if bytes[p + 3] == 0x10 {
        p + 5
    } else if bytes[p + 3] == 0xfb && p + 11 <= bytes.len() && bytes[p + 5] != 0 && bytes[p + 10]
        == 0 {
        p + 23
    } else {
        p + 18
    }
}

/// Checks that the parser can read every detailed timing of the EDID block `bytes` (see
/// `edid_timings_ok`).
pub fn check_edid_timings(bytes: &[u8]) -> (r: bool)
    ensures
        r == edid_timings_ok(bytes@),
{
    let start = DESCRIPTORS_START;
    if !timing_at(bytes, start) {
        return true;
    }
    if !timing_sound(bytes, start) {
        return false;
    }
    let mut p = slot_after(bytes, start);
    let mut left: usize = 3;
    while left > 0
        invariant
            left <= 3,
            p <= DESCRIPTORS_START + 23 * (4 - left),
            edid_timings_ok(bytes@) == slots_sound(bytes@, p as int, left as nat),
        decreases left,
    {
        if timing_at(bytes, p) && !timing_sound(bytes, p) {
            return false;
        }
        p = slot_after(bytes, p);
        left = left - 1;
    }
    true
}

} // verus!
