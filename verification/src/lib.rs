//! Verified core of a smartwatch firmware: real-time-clock arithmetic,
//! touch and power-management register logic, display state, page
//! navigation, playlist handling and the WireGuard transport.

pub mod axp2101;
pub mod co5300;
pub mod cpu_clock;
pub mod framebuffer;
pub mod ft3168;
pub mod gui;
pub mod keyboard;
pub mod pages;
pub mod pcf85063a;
pub mod png;
pub mod qspi;
pub mod shell;
pub mod ssh;
pub mod state;
pub mod storage;
pub mod text;
pub mod timer;
pub mod uptime;
pub mod wifi;
pub mod wireguard;
