use vstd::prelude::*;

use crate::get_color::{Colors, RGB};

use vstd::arithmetic::div_mod::{lemma_basic_div, lemma_fundamental_div_mod_converse, lemma_small_mod};

verus! {

/// Bytes of one LED record on the serial line.
pub const RECORD_LEN: usize = 6;

/// Records in one serial packet.
pub const MAX_STRIP_LEDS: usize = 60;

/// Length of one serial packet.
pub const STRIP_PACKET_LEN: usize = 360;

/// The record type that marks an LED color.
pub const LED_RECORD_TYPE: u8 = 1;

/// Byte `j` (`0 <= j < 6`) of the record for LED `idx` showing color `c`:
/// type, index high byte, index low byte, red, green, blue.
pub open spec fn led_record_byte(idx: int, c: RGB, j: int) -> u8 {
    if j == 0 {
        LED_RECORD_TYPE
    } else if j == 1 {
        ((idx / 256) % 256) as u8
    } else if j == 2 {
        (idx % 256) as u8
    } else if j == 3 {
        c.r
    } else if j == 4 {
        c.g
    } else {
        c.b
    }
}

/// The two index bytes of a record give back the LED's index.
pub proof fn lemma_record_index_roundtrip(idx: int, c: RGB)
    requires
        0 <= idx < 0x1_0000,
    ensures
        led_record_byte(idx, c, 1) * 256 + led_record_byte(idx, c, 2) == idx,
{
}

/// Byte `k` of the serial packet for the given colors: the records of the colors one after
/// another, then zeros.
pub open spec fn strip_packet_byte(colors: Seq<RGB>, k: int) -> u8 {
    if k < RECORD_LEN * colors.len() {
        led_record_byte(k / RECORD_LEN as int, colors[k / RECORD_LEN as int], k % RECORD_LEN as int)
    } else {
        0
    }
}

/// The six bytes of record `i`.
proof fn lemma_record_bytes(colors: Seq<RGB>, i: int)
    requires
        colors.len() <= 60,
        0 <= i < colors.len(),
    ensures
        strip_packet_byte(colors, 6 * i) == 1,
        strip_packet_byte(colors, 6 * i + 1) == 0,
        strip_packet_byte(colors, 6 * i + 2) == i,
        strip_packet_byte(colors, 6 * i + 3) == colors[i].r,
        strip_packet_byte(colors, 6 * i + 4) == colors[i].g,
        strip_packet_byte(colors, 6 * i + 5) == colors[i].b,
{
    lemma_fundamental_div_mod_converse(6 * i, 6, i, 0);
    lemma_fundamental_div_mod_converse(6 * i + 1, 6, i, 1);
    lemma_fundamental_div_mod_converse(6 * i + 2, 6, i, 2);
    lemma_fundamental_div_mod_converse(6 * i + 3, 6, i, 3);
    lemma_fundamental_div_mod_converse(6 * i + 4, 6, i, 4);
    lemma_fundamental_div_mod_converse(6 * i + 5, 6, i, 5);
    lemma_small_mod(i as nat, 256);
    lemma_basic_div(i, 256);
}

/// The layout of the serial packet: record `i` occupies bytes `6 * i` to `6 * i + 5` and holds
/// the type byte 1, the index `i` as two big-endian bytes, and the red, green and blue of
/// color `i`; every byte after the last record is zero.
pub proof fn lemma_strip_packet_layout(colors: Seq<RGB>)
    requires
        colors.len() <= 60,
    ensures
        forall|i: int|
            0 <= i < colors.len() ==> {
                &&& #[trigger] strip_packet_byte(colors, 6 * i) == 1
                &&& strip_packet_byte(colors, 6 * i + 1) == 0
                &&& strip_packet_byte(colors, 6 * i + 2) == i
                &&& strip_packet_byte(colors, 6 * i + 3) == colors[i].r
                &&& strip_packet_byte(colors, 6 * i + 4) == colors[i].g
                &&& strip_packet_byte(colors, 6 * i + 5) == colors[i].b
            },
        forall|k: int| 6 * colors.len() <= k < 360 ==> #[trigger] strip_packet_byte(colors, k) == 0,
{
    assert forall|i: int| 0 <= i < colors.len() implies {
        &&& #[trigger] strip_packet_byte(colors, 6 * i) == 1
        &&& strip_packet_byte(colors, 6 * i + 1) == 0
        &&& strip_packet_byte(colors, 6 * i + 2) == i
        &&& strip_packet_byte(colors, 6 * i + 3) == colors[i].r
        &&& strip_packet_byte(colors, 6 * i + 4) == colors[i].g
        &&& strip_packet_byte(colors, 6 * i + 5) == colors[i].b
    } by {
        lemma_record_bytes(colors, i);
    }
}

/// The serial packet that sets the LED strip to the given colors.
pub fn led_strip_packet(colors: &Colors) -> (buf: [u8; 360])
    requires
        colors.color_vec@.len() <= MAX_STRIP_LEDS,
    ensures
        forall|k: int| 0 <= k < STRIP_PACKET_LEN ==> buf@[k] == strip_packet_byte(colors.color_vec@, k),
{
    let mut buf = [0u8; 360];
    let n = colors.color_vec.len();
    for idx in 0..n
        invariant
            n == colors.color_vec@.len(),
            n <= MAX_STRIP_LEDS,
            forall|k: int|
                0 <= k < STRIP_PACKET_LEN ==> buf@[k] == (if k < RECORD_LEN * idx {
                    strip_packet_byte(colors.color_vec@, k)
                } else {
                    0u8
                }),
    {
        let c = colors.color_vec[idx];
        let idx_1 = ((idx & 0xFF00) >> 8) as u8;
        let idx_2 = (idx & 0xFF) as u8;
        assert(idx_1 == ((idx / 256) % 256) as u8 && idx_2 == (idx % 256) as u8) by (bit_vector)
            requires
                idx_1 == ((idx & 0xFF00) >> 8) as u8,
                idx_2 == (idx & 0xFF) as u8,
        ;
        let base_idx = idx * RECORD_LEN;
        buf[base_idx] = LED_RECORD_TYPE;
        buf[base_idx + 1] = idx_1;
        buf[base_idx + 2] = idx_2;
        buf[base_idx + 3] = c.r;
        buf[base_idx + 4] = c.g;
        buf[base_idx + 5] = c.b;
        assert forall|k: int|
            0 <= k < STRIP_PACKET_LEN implies buf@[k] == (if k < RECORD_LEN * (idx + 1) {
                strip_packet_byte(colors.color_vec@, k)
            } else {
                0u8
            }) by {
            if base_idx <= k < base_idx + RECORD_LEN {
                assert(k / RECORD_LEN as int == idx);
                assert(k % RECORD_LEN as int == k - base_idx);
            }
        }
    }
    buf
}

/// A strip of `num_leds` LEDs, all off.
pub fn blank_colors(num_leds: u32) -> (colors: Colors)
    ensures
        colors.color_vec@.len() == num_leds,
        forall|i: int|
            0 <= i < num_leds ==> colors.color_vec@[i] == (RGB { r: 0, g: 0, b: 0 }),
{
    let mut color_vec: Vec<RGB> = Vec::new();
    for i in 0..num_leds
        invariant
            color_vec@.len() == i,
            forall|j: int| 0 <= j < i ==> color_vec@[j] == (RGB { r: 0, g: 0, b: 0 }),
    {
        color_vec.push(RGB { r: 0, b: 0, g: 0 });
    }
    Colors { color_vec }
}

/// The USB vendor and product id of a serial port.
#[derive(Debug, Clone, Copy, PartialEq, Eq, Structural)]
pub struct UsbIds {
    pub vid: u16,
    pub pid: u16,
}

/// A port is the target when it is a USB port whose ids equal the configured ids, each
/// taken to its low 16 bits.
pub open spec fn is_target_port(port: Option<UsbIds>, vid: u32, pid: u32) -> bool {
    match port {
        Some(ids) => ids.vid == vid as u16 && ids.pid == pid as u16,
        None => false,
    }
}

/// A port is the target exactly when it is a USB port whose vendor id and product id both
/// equal the low 16 bits of the configured ids.
pub proof fn lemma_target_port_ids(port: Option<UsbIds>, vid: u32, pid: u32)
    ensures
        is_target_port(port, vid, pid) <==> port == Some(
            UsbIds { vid: (vid % 0x1_0000) as u16, pid: (pid % 0x1_0000) as u16 },
        ),
{
    assert(vid as u16 == (vid % 0x1_0000) as u16 && pid as u16 == (pid % 0x1_0000) as u16)
        by (bit_vector);
}

/// The index of the last target port among the available ports (`None` for a port that is
/// not a USB port), or `None` when there is no target port.
pub fn find_target_port(ports: &Vec<Option<UsbIds>>, vid: u32, pid: u32) -> (found: Option<usize>)
    ensures
        match found {
            Some(i) => {
                &&& i < ports@.len()
                &&& is_target_port(ports@[i as int], vid, pid)
                &&& forall|j: int| i < j < ports@.len() ==> !is_target_port(ports@[j], vid, pid)
            },
            None => forall|j: int| 0 <= j < ports@.len() ==> !is_target_port(ports@[j], vid, pid),
        },
        match found {
            Some(i) => ports@[i as int] == Some(
                UsbIds { vid: (vid % 0x1_0000) as u16, pid: (pid % 0x1_0000) as u16 },
            ),
            None => forall|j: int|
                0 <= j < ports@.len() ==> ports@[j] != Some(
                    UsbIds { vid: (vid % 0x1_0000) as u16, pid: (pid % 0x1_0000) as u16 },
                ),
        },
{
    let target_vid = vid as u16;
    let target_pid = pid as u16;
    let mut found: Option<usize> = None;
    for i in 0..ports.len()
        invariant
            target_vid == vid as u16,
            target_pid == pid as u16,
            match found {
                Some(f) => {
                    &&& f < i
                    &&& is_target_port(ports@[f as int], vid, pid)
                    &&& forall|j: int| f < j < i ==> !is_target_port(ports@[j], vid, pid)
                },
                None => forall|j: int| 0 <= j < i ==> !is_target_port(ports@[j], vid, pid),
            },
    {
        match &ports[i] {
            Some(usb) => {
                if usb.vid == target_vid && usb.pid == target_pid {
                    found = Some(i);
                }
            },
            None => {},
        }
    }
    proof {
        match found {
            Some(i) => lemma_target_port_ids(ports@[i as int], vid, pid),
            None => {
                assert forall|j: int| 0 <= j < ports@.len() implies ports@[j] != Some(
                    UsbIds { vid: (vid % 0x1_0000) as u16, pid: (pid % 0x1_0000) as u16 },
                ) by {
                    lemma_target_port_ids(ports@[j], vid, pid);
                }
            },
        }
    }
    found
}

} // verus!
