use vstd::prelude::*;

use crate::get_color::{Colors, RGB};

verus! {

/// USB vendor id of the monitor whose backlight is driven.
pub const MONITOR_VID: u16 = 0x043e;

/// USB product id of the monitor whose backlight is driven.
pub const MONITOR_PID: u16 = 0x9a8a;

/// Number of monitor LEDs that take a color.
pub const MONITOR_LEDS: usize = 48;

/// Length of one HID report sent to the monitor.
pub const REPORT_LEN: usize = 64;

/// The bytes that switch the monitor's lighting mode.
pub open spec fn mode_command_bytes() -> Seq<u8> {
    seq![0x53u8, 0x43, 0xca, 0x02, 0x02, 0x03, 0x08, 0xd1, 0x45, 0x44]
}

/// The bytes of the lighting test command that follow the report id.
pub open spec fn test_command_bytes() -> Seq<u8> {
    seq![0x53u8, 0x43, 0xca, 0x02, 0x02, 0x03, 0x01, 0xd8, 0x45, 0x44]
}

/// The bytes that open a color message.
pub open spec fn color_header_bytes() -> Seq<u8> {
    seq![0x53u8, 0x43, 0xc1, 0x02, 0x91, 0x00]
}

/// The bytes that close a color message.
pub open spec fn color_tail_bytes() -> Seq<u8> {
    seq![0x45u8, 0x44]
}

/// The report that switches the monitor's lighting mode: the mode command, then zeros.
pub fn mon_mode_command() -> (cmd: [u8; 64])
    ensures
        forall|k: int|
            0 <= k < REPORT_LEN ==> cmd@[k] == (if k < 10 {
                mode_command_bytes()[k]
            } else {
                0u8
            }),
{
    let mut cmd = [0u8; 64];
    cmd[0] = 0x53;
    cmd[1] = 0x43;
    cmd[2] = 0xca;
    cmd[3] = 0x02;
    cmd[4] = 0x02;
    cmd[5] = 0x03;
    cmd[6] = 0x08;
    cmd[7] = 0xd1;
    cmd[8] = 0x45;
    cmd[9] = 0x44;
    cmd
}

/// The lighting test report with the given report id: the id, the test command, then zeros.
pub fn mon_test_command(report_id: u8) -> (cmd: [u8; 65])
    ensures
        cmd@[0] == report_id,
        forall|k: int|
            1 <= k < 65 ==> cmd@[k] == (if k < 11 {
                test_command_bytes()[k - 1]
            } else {
                0u8
            }),
{
    let mut cmd = [0u8; 65];
    cmd[1] = 0x53;
    cmd[2] = 0x43;
    cmd[3] = 0xca;
    cmd[4] = 0x02;
    cmd[5] = 0x02;
    cmd[6] = 0x03;
    cmd[7] = 0x01;
    cmd[8] = 0xd8;
    cmd[9] = 0x45;
    cmd[10] = 0x44;
    cmd[0] = report_id;
    cmd
}

/// Channel `j` of a color: red, green, then blue.
pub open spec fn channel(c: RGB, j: int) -> u8 {
    if j == 0 {
        c.r
    } else if j == 1 {
        c.g
    } else {
        c.b
    }
}

/// The channels of the first 48 colors, three bytes per color.
pub open spec fn monitor_color_bytes(colors: Seq<RGB>) -> Seq<u8> {
    Seq::new(144, |k: int| channel(colors[k / 3], k % 3))
}

/// Writes the channels of the first 48 colors into `out`, three bytes per color.
pub fn gen_monitor_colors(cur_colors: &Colors, out: &mut [u8; 144])
    requires
        cur_colors.color_vec@.len() >= MONITOR_LEDS,
    ensures
        final(out)@ == monitor_color_bytes(cur_colors.color_vec@),
{
    let mut out_idx: usize = 0;
    for i in 0..48usize
        invariant
            cur_colors.color_vec@.len() >= MONITOR_LEDS,
            out_idx == 3 * i,
            forall|k: int|
                0 <= k < 3 * i ==> out@[k] == monitor_color_bytes(cur_colors.color_vec@)[k],
    {
        let c = &cur_colors.color_vec[i];
        out[out_idx] = c.r;
        out_idx += 1;
        out[out_idx] = c.g;
        out_idx += 1;
        out[out_idx] = c.b;
        out_idx += 1;
        assert forall|k: int|
            0 <= k < 3 * (i + 1) implies out@[k] == monitor_color_bytes(
                cur_colors.color_vec@,
            )[k] by {
            if k >= 3 * i {
                assert(k / 3 == i);
                assert(k % 3 == k - 3 * i);
            }
        }
    }
    assert(out@ =~= monitor_color_bytes(cur_colors.color_vec@));
}

/// The exclusive or of all bytes of a sequence.
pub open spec fn xor_all(s: Seq<u8>) -> u8
    decreases s.len(),
{
    if s.len() == 0 {
        0
    } else {
        xor_all(s.drop_last()) ^ s.last()
    }
}

/// The exclusive or of a concatenation is the exclusive or of the two parts' values, and that
/// of a single byte is the byte.
pub proof fn lemma_xor_all_concat(a: Seq<u8>, b: Seq<u8>)
    ensures
        xor_all(a + b) == xor_all(a) ^ xor_all(b),
        xor_all(Seq::<u8>::empty()) == 0,
    decreases b.len(),
{
    if b.len() == 0 {
        assert(a + b =~= a);
        let x = xor_all(a);
        assert(x ^ 0u8 == x) by (bit_vector);
    } else {
        lemma_xor_all_concat(a, b.drop_last());
        assert((a + b).drop_last() =~= a + b.drop_last());
        let x = xor_all(a);
        let y = xor_all(b.drop_last());
        let z = b.last();
        assert((x ^ y) ^ z == x ^ (y ^ z)) by (bit_vector);
    }
}

/// The exclusive or of a single byte is that byte.
pub proof fn lemma_xor_all_single(x: u8)
    ensures
        xor_all(seq![x]) == x,
{
    assert(seq![x].drop_last() =~= Seq::<u8>::empty());
    assert(seq![x].last() == x);
    assert(xor_all(Seq::<u8>::empty()) == 0);
    assert(0u8 ^ x == x) by (bit_vector);
}

/// A message followed by its checksum has an exclusive or of zero.
pub proof fn lemma_checksum_cancels(msg: Seq<u8>)
    ensures
        xor_all(msg.push(xor_all(msg))) == 0,
{
    let x = xor_all(msg);
    assert(msg.push(x).drop_last() =~= msg);
    assert(x ^ x == 0) by (bit_vector);
}

/// One bit step of the checksum: shift left, and fold a carry out of the low byte back
/// into bit 0.
pub open spec fn crc_bit_step(crc: u32) -> u32 {
    let s = crc << 1u32;
    if s & 0x100u32 > 0 {
        s ^ 0x101u32
    } else {
        s
    }
}

/// `j` bit steps of the checksum.
pub open spec fn crc_bit_steps(crc: u32, j: nat) -> u32
    decreases j,
{
    if j == 0 {
        crc
    } else {
        crc_bit_step(crc_bit_steps(crc, (j - 1) as nat))
    }
}

/// On a byte, the bit step rotates left by one; eight of them give the byte back.
pub proof fn lemma_eight_bit_steps(crc: u32)
    requires
        crc < 256,
    ensures
        crc_bit_steps(crc, 8) == crc,
{
    reveal_with_fuel(crc_bit_steps, 9);
    assert(crc_bit_step(
        crc_bit_step(
            crc_bit_step(
                crc_bit_step(crc_bit_step(crc_bit_step(crc_bit_step(crc_bit_step(crc))))),
            ),
        ),
    ) == crc) by (bit_vector)
        requires
            crc < 256,
    ;
}

/// The checksum of a message: it equals the exclusive or of all its bytes.
pub fn calc_crc(v: &Vec<u8>) -> (crc: u32)
    ensures
        crc == xor_all(v@) as u32,
        crc < 256,
{
    let mut crc: u32 = 0;
    let n = v.len();
    for i in 0..n
        invariant
            n == v@.len(),
            crc == xor_all(v@.take(i as int)) as u32,
            crc < 256,
    {
        let byte = v[i];
        assert(v@.take(i + 1).drop_last() =~= v@.take(i as int));
        assert((crc ^ (byte as u32)) < 256) by (bit_vector)
            requires
                crc < 256,
        ;
        crc ^= byte as u32;
        let ghost start = crc;
        for _j in 0..8u32
            invariant
                start < 256,
                crc == crc_bit_steps(start, _j as nat),
                crc < 256,
        {
            assert(crc_bit_step(crc) < 256) by (bit_vector)
                requires
                    crc < 256,
            ;
            crc <<= 1;
            if crc & 0x100 > 0 {
                crc ^= 0x101;
            }
        }
        proof {
            lemma_eight_bit_steps(start);
        }
    }
    assert(v@.take(n as int) =~= v@);
    crc
}

/// The bytes of a color message before its checksum: the header, then the channels of the
/// first 48 colors.
pub open spec fn monitor_payload(colors: Seq<RGB>) -> Seq<u8> {
    color_header_bytes() + monitor_color_bytes(colors)
}

/// A complete color message: payload, the checksum as a big-endian `u32`, and the tail.
pub open spec fn monitor_message(colors: Seq<RGB>) -> Seq<u8> {
    monitor_payload(colors) + seq![0u8, 0u8, 0u8, xor_all(monitor_payload(colors))]
        + color_tail_bytes()
}

/// The layout of a color message: the header, then red, green and blue of each of the first
/// 48 colors in order, three zero bytes, the exclusive or of the first 150 bytes, and the tail.
pub proof fn lemma_monitor_message_layout(colors: Seq<RGB>)
    requires
        colors.len() >= 48,
    ensures
        ({
            let msg = monitor_message(colors);
            &&& msg.len() == 156
            &&& msg[0] == 0x53 && msg[1] == 0x43 && msg[2] == 0xc1
            &&& msg[3] == 0x02 && msg[4] == 0x91 && msg[5] == 0x00
            &&& forall|i: int|
                0 <= i < 48 ==> msg[6 + 3 * i] == colors[i].r && msg[7 + 3 * i] == colors[i].g
                    && msg[8 + 3 * i] == colors[i].b
            &&& msg[150] == 0 && msg[151] == 0 && msg[152] == 0
            &&& msg[153] == xor_all(msg.subrange(0, 150))
            &&& msg[154] == 0x45 && msg[155] == 0x44
        }),
{
    let msg = monitor_message(colors);
    let payload = monitor_payload(colors);
    assert(msg.subrange(0, 150) =~= payload);
    assert forall|i: int| 0 <= i < 48 implies msg[6 + 3 * i] == colors[i].r && msg[7 + 3 * i]
        == colors[i].g && msg[8 + 3 * i] == colors[i].b by {
        assert((3 * i) / 3 == i && (3 * i) % 3 == 0);
        assert((3 * i + 1) / 3 == i && (3 * i + 1) % 3 == 1);
        assert((3 * i + 2) / 3 == i && (3 * i + 2) % 3 == 2);
    }
}

/// The three reports that carry a color message to the monitor: bytes 0 to 63, bytes 64 to
/// 127, and bytes 128 to 152 followed by zeros.
pub fn monitor_packets(cur_colors: &Colors) -> (packets: ([u8; 64], [u8; 64], [u8; 64]))
    requires
        cur_colors.color_vec@.len() >= MONITOR_LEDS,
    ensures
        packets.0@ == monitor_message(cur_colors.color_vec@).subrange(0, 64),
        packets.1@ == monitor_message(cur_colors.color_vec@).subrange(64, 128),
        packets.2@ == monitor_message(cur_colors.color_vec@).subrange(128, 153) + Seq::new(
            39,
            |k: int| 0u8,
        ),
{
    let cmd_base: [u8; 6] = [0x53, 0x43, 0xc1, 0x02, 0x91, 0x00];
    let mut cmd_colors: [u8; 144] = [0; 144];
    gen_monitor_colors(cur_colors, &mut cmd_colors);
    let mut v: Vec<u8> = Vec::new();
    v.extend_from_slice(&cmd_base);
    v.extend_from_slice(&cmd_colors);
    assert(v@ =~= monitor_payload(cur_colors.color_vec@));
    let crc = calc_crc(&v);
    let crc_bytes: [u8; 4] = [(crc >> 24u32) as u8, (crc >> 16u32) as u8, (crc >> 8u32) as u8, crc as u8];
    assert(crc_bytes@ =~= seq![0u8, 0u8, 0u8, crc as u8]) by {
        assert((crc >> 24u32) as u8 == 0 && (crc >> 16u32) as u8 == 0 && (crc >> 8u32) as u8 == 0)
            by (bit_vector)
            requires
                crc < 256,
        ;
    }
    v.extend_from_slice(&crc_bytes);
    let cmd_tail: [u8; 2] = [0x45, 0x44];
    v.extend_from_slice(&cmd_tail);
    let ghost msg = monitor_message(cur_colors.color_vec@);
    assert(v@ =~= msg);

    let mut cmd1 = [0u8; 64];
    let mut cmd2 = [0u8; 64];
    let mut cmd3 = [0u8; 64];

    for i in 0..64usize
        invariant
            v@ == msg,
            v@.len() == 156,
            forall|k: int| 0 <= k < i ==> cmd1@[k] == msg[k],
    {
        cmd1[i] = v[i];
    }

    for i in 0..64usize
        invariant
            v@ == msg,
            v@.len() == 156,
            forall|k: int| 0 <= k < i ==> cmd2@[k] == msg[k + 64],
    {
        cmd2[i] = v[i + 64];
    }

    for i in 0usize..(64 - 39)
        invariant
            v@ == msg,
            v@.len() == 156,
            forall|k: int| 0 <= k < i ==> cmd3@[k] == msg[k + 128],
            forall|k: int| 25 <= k < 64 ==> cmd3@[k] == 0,
    {
        cmd3[i] = v[i + 128];
    }
    assert(cmd1@ =~= msg.subrange(0, 64));
    assert(cmd2@ =~= msg.subrange(64, 128));
    assert(cmd3@ =~= msg.subrange(128, 153) + Seq::new(39, |k: int| 0u8));
    (cmd1, cmd2, cmd3)
}

} // verus!
