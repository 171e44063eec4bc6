//! Screen-synchronised backlight: samples the screen in vertical strips, averages and
//! gamma-corrects each strip into one LED color, and frames the colors for an LED strip on a
//! serial line and for a monitor's lighting over HID.

pub mod config;
pub mod gamma;
pub mod get_color;
pub mod monitor;
pub mod serial;
