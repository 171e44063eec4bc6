use led_screen_sync::config::{config_file_path, default_config};
use led_screen_sync::get_color::{Colors, RGB};
use led_screen_sync::monitor::{
    calc_crc, gen_monitor_colors, mon_mode_command, mon_test_command, monitor_packets,
    MONITOR_PID, MONITOR_VID,
};
use led_screen_sync::serial::{blank_colors, find_target_port, led_strip_packet, UsbIds};

fn rgb(r: u8, g: u8, b: u8) -> RGB {
    RGB { r, g, b }
}

fn ramp_colors(n: usize) -> Colors {
    let mut color_vec = Vec::new();
    for i in 0..n {
        let i = i as u8;
        color_vec.push(rgb(i, i.wrapping_add(100), i.wrapping_mul(3)));
    }
    Colors { color_vec }
}

#[test]
fn default_config_values() {
    let cfg = default_config();
    assert_eq!(cfg.num_leds, 60);
    assert_eq!(cfg.screen_id, 0);
    assert_eq!(cfg.update_interval_ms, 500);
    assert_eq!(cfg.net_cfg.dest_ip, [10, 0, 0, 128]);
    assert_eq!(cfg.net_cfg.dest_port, 6854);
    assert_eq!(cfg.target_usb_vid, 0x10C4);
    assert_eq!(cfg.target_usb_pid, 0xEA60);
    assert_eq!(cfg.games.len(), 1);
    let game = &cfg.games[0];
    assert_eq!(game.name, "League");
    let bar = &game.health_bar;
    assert_eq!(bar.program_name, "League of Legends.exe");
    assert_eq!(bar.healthy_color, rgb(0x00, 0xFF, 0x00));
    assert_eq!(bar.unhealthy_color, rgb(0x00, 0x00, 0x00));
    assert_eq!(bar.output_healthy, rgb(0x00, 0xFF, 0x00));
    assert_eq!(bar.output_unhealthy, rgb(0xAA, 0x00, 0x00));
    assert_eq!((bar.left_x, bar.right_x, bar.top_y, bar.bottom_y), (100, 500, 1800, 1900));
    assert!(bar.l2r);
    assert_eq!(f32::from_bits(bar.max_health_ratio_healthy_bits), 1.0f32);
    assert_eq!(bar.priority, 1);
}

#[test]
fn config_path_below_home() {
    assert_eq!(config_file_path("/home/user"), "/home/user/.config/kotu-m2-driver.yml");
    assert_eq!(config_file_path(""), "/.config/kotu-m2-driver.yml");
}

#[test]
fn blank_strip_is_black() {
    let colors = blank_colors(3);
    assert_eq!(colors.color_vec, vec![rgb(0, 0, 0); 3]);
    assert!(blank_colors(0).color_vec.is_empty());
}

#[test]
fn strip_packet_records() {
    let colors = Colors { color_vec: vec![rgb(5, 6, 7), rgb(8, 9, 10)] };
    let buf = led_strip_packet(&colors);
    assert_eq!(buf.len(), 360);
    assert_eq!(&buf[0..12], &[1, 0, 0, 5, 6, 7, 1, 0, 1, 8, 9, 10]);
    assert!(buf[12..].iter().all(|b| *b == 0));
}

#[test]
fn strip_packet_full_strip() {
    let colors = ramp_colors(60);
    let buf = led_strip_packet(&colors);
    for (i, c) in colors.color_vec.iter().enumerate() {
        let rec = &buf[i * 6..i * 6 + 6];
        assert_eq!(rec, &[1, 0, i as u8, c.r, c.g, c.b]);
    }
}

#[test]
fn strip_packet_empty() {
    let buf = led_strip_packet(&Colors { color_vec: Vec::new() });
    assert!(buf.iter().all(|b| *b == 0));
}

#[test]
fn target_port_last_match_wins() {
    let ports = vec![
        Some(UsbIds { vid: 0x10C4, pid: 0xEA60 }),
        None,
        Some(UsbIds { vid: 0x1234, pid: 0xEA60 }),
        Some(UsbIds { vid: 0x10C4, pid: 0xEA60 }),
        Some(UsbIds { vid: 0x10C4, pid: 0x0001 }),
    ];
    assert_eq!(find_target_port(&ports, 0x10C4, 0xEA60), Some(3));
}

#[test]
fn target_port_ids_truncated_to_16_bits() {
    let ports = vec![None, Some(UsbIds { vid: 0x10C4, pid: 0xEA60 })];
    assert_eq!(find_target_port(&ports, 0x7_10C4, 0x1_EA60), Some(1));
}

#[test]
fn target_port_absent() {
    let ports = vec![None, Some(UsbIds { vid: 1, pid: 2 })];
    assert_eq!(find_target_port(&ports, 0x10C4, 0xEA60), None);
    assert_eq!(find_target_port(&Vec::new(), 0x10C4, 0xEA60), None);
}

#[test]
fn monitor_ids() {
    assert_eq!(MONITOR_VID, 0x043e);
    assert_eq!(MONITOR_PID, 0x9a8a);
}

#[test]
fn mode_command_bytes() {
    let cmd = mon_mode_command();
    assert_eq!(&cmd[0..10], &[0x53, 0x43, 0xca, 0x02, 0x02, 0x03, 0x08, 0xd1, 0x45, 0x44]);
    assert!(cmd[10..].iter().all(|b| *b == 0));
}

#[test]
fn test_command_bytes() {
    let cmd = mon_test_command(7);
    assert_eq!(cmd.len(), 65);
    assert_eq!(cmd[0], 7);
    assert_eq!(&cmd[1..11], &[0x53, 0x43, 0xca, 0x02, 0x02, 0x03, 0x01, 0xd8, 0x45, 0x44]);
    assert!(cmd[11..].iter().all(|b| *b == 0));
}

#[test]
fn monitor_color_bytes_layout() {
    let colors = ramp_colors(50);
    let mut out = [0u8; 144];
    gen_monitor_colors(&colors, &mut out);
    for i in 0..48 {
        let c = colors.color_vec[i];
        assert_eq!(&out[3 * i..3 * i + 3], &[c.r, c.g, c.b]);
    }
}

#[test]
fn crc_is_xor_of_bytes() {
    assert_eq!(calc_crc(&Vec::new()), 0);
    assert_eq!(calc_crc(&vec![1, 2]), 3);
    assert_eq!(calc_crc(&vec![0xFF, 0x0F]), 0xF0);
    assert_eq!(calc_crc(&vec![0x53, 0x43, 0xc1, 0x02, 0x91, 0x00]), 0x53 ^ 0x43 ^ 0xc1 ^ 0x02 ^ 0x91);
    let data: Vec<u8> = (0..=255u8).collect();
    assert_eq!(calc_crc(&data), 0);
}

#[test]
fn crc_of_message_and_checksum_is_zero() {
    let mut msg = vec![0x53, 0x43, 0xc1, 0x02, 0x91, 0x00, 17, 200, 3];
    let crc = calc_crc(&msg);
    assert!(crc < 256);
    msg.push(crc as u8);
    assert_eq!(calc_crc(&msg), 0);
}

#[test]
fn monitor_packets_layout() {
    let colors = ramp_colors(48);
    let (p1, p2, p3) = monitor_packets(&colors);
    let mut msg: Vec<u8> = vec![0x53, 0x43, 0xc1, 0x02, 0x91, 0x00];
    for c in &colors.color_vec {
        msg.extend_from_slice(&[c.r, c.g, c.b]);
    }
    let crc = msg.iter().fold(0u8, |a, b| a ^ b);
    msg.extend_from_slice(&[0, 0, 0, crc, 0x45, 0x44]);
    assert_eq!(msg.len(), 156);
    assert_eq!(&p1[..], &msg[0..64]);
    assert_eq!(&p2[..], &msg[64..128]);
    assert_eq!(&p3[0..25], &msg[128..153]);
    assert!(p3[25..].iter().all(|b| *b == 0));
}
