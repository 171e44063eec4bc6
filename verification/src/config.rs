use vstd::prelude::*;

use crate::get_color::{HealthBar, RGB};

verus! {

/// Where the computed colors are sent over the network.
#[derive(Debug, Clone)]
pub struct NetConfig {
    /// The four octets of the destination IPv4 address.
    pub dest_ip: [u8; 4],
    pub dest_port: u16,
}

/// A game and the configuration of its health bar.
#[derive(Debug, Clone)]
pub struct GameEntry {
    pub name: String,
    pub health_bar: HealthBar,
}

/// The driver's configuration.
#[derive(Debug, Clone)]
pub struct Config {
    /// Number of LEDs in the strip being controlled.
    pub num_leds: u32,
    /// X11 screen id.
    pub screen_id: u32,
    /// Milliseconds between screenshots.
    pub update_interval_ms: u32,
    /// Where to send results to.
    pub net_cfg: NetConfig,
    /// The games and their health bar configurations, each name at most once.
    pub games: Vec<GameEntry>,
    pub target_usb_vid: u32,
    pub target_usb_pid: u32,
}

impl Config {
    /// No game name occurs twice.
    pub open spec fn wf(&self) -> bool {
        forall|i: int, j: int|
            0 <= i < j < self.games@.len() ==> self.games@[i].name@ != self.games@[j].name@
    }
}

/// The file, below the home directory, that holds the configuration.
pub const CONFIG_FILE_SUFFIX: &'static str = "/.config/kotu-m2-driver.yml";

/// The path of the configuration file for the given home directory.
pub fn config_file_path(home: &str) -> (path: String)
    ensures
        path@ == home@ + CONFIG_FILE_SUFFIX@,
{
    let mut path = String::from_str(home);
    path.append(CONFIG_FILE_SUFFIX);
    path
}

/// The health bar configured by default for League of Legends.
pub open spec fn is_default_league_bar(h: HealthBar) -> bool {
    &&& h.program_name@ == "League of Legends.exe"@
    &&& h.healthy_color == RGB { r: 0x00, g: 0xFF, b: 0x00 }
    &&& h.unhealthy_color == RGB { r: 0x00, g: 0x00, b: 0x00 }
    &&& h.output_healthy == RGB { r: 0x00, g: 0xFF, b: 0x00 }
    &&& h.output_unhealthy == RGB { r: 0xAA, g: 0x00, b: 0x00 }
    &&& h.left_x == 100
    &&& h.right_x == 500
    &&& h.top_y == 1800
    &&& h.bottom_y == 1900
    &&& h.l2r
    // 1.0 as an f32
    &&& h.max_health_ratio_healthy_bits == 0x3F80_0000
    &&& h.priority == 1
}

/// The configuration written when none exists yet.
pub fn default_config() -> (cfg: Config)
    ensures
        cfg.wf(),
        cfg.num_leds == 60,
        cfg.screen_id == 0,
        cfg.update_interval_ms == 500,
        cfg.net_cfg.dest_ip@ == seq![10u8, 0u8, 0u8, 128u8],
        cfg.net_cfg.dest_port == 6854,
        cfg.target_usb_vid == 0x10C4,
        cfg.target_usb_pid == 0xEA60,
        cfg.games@.len() == 1,
        cfg.games@[0].name@ == "League"@,
        is_default_league_bar(cfg.games@[0].health_bar),
{
    let mut cfg = Config {
        num_leds: 60,
        screen_id: 0,
        update_interval_ms: 500,
        net_cfg: NetConfig { dest_ip: [10, 0, 0, 128], dest_port: 6854 },
        games: Vec::new(),
        target_usb_vid: 0x10C4,
        target_usb_pid: 0xEA60,
    };

    cfg.games.push(
        GameEntry {
            name: String::from_str("League"),
            health_bar: HealthBar {
                program_name: String::from_str("League of Legends.exe"),
                healthy_color: RGB { r: 0x00, g: 0xFF, b: 0x00 },
                unhealthy_color: RGB { r: 0x00, g: 0x00, b: 0x00 },
                output_healthy: RGB { r: 0x00, g: 0xFF, b: 0x00 },
                output_unhealthy: RGB { r: 0xAA, g: 0x00, b: 0x00 },
                left_x: 100,
                right_x: 500,
                top_y: 1800,
                bottom_y: 1900,
                l2r: true,
                max_health_ratio_healthy_bits: 0x3F80_0000,
                priority: 1,
            },
        },
    );
    cfg
}

} // verus!
