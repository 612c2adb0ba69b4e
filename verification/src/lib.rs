//! Zügli: a 64×64 LED panel that counts down to the next departures at a Swiss stop.
//!
//! The device runs in three phases:
//!
//! * **provisioning** ([`portal`], [`dhcp`]): a captive portal to enter the home WiFi,
//! * **configuration** ([`httpd`]): a page to choose a stop, settings and a custom layout,
//! * **runtime** ([`poll`], [`weather`], [`display`]): polls the transport API and renders the
//!   countdown to the next departures.
//!
//! This crate holds the logic of all three: what is drawn, what is answered, what is kept, and
//! what each task does next. Reading sockets, flash and clocks is left to the program around it.

pub mod boot;
pub mod dhcp;
pub mod display;
pub mod httpd;
pub mod localtime;
pub mod mdns;
pub mod model;
pub mod poll;
pub mod portal;
pub mod shared;
pub mod sntp;
pub mod storage;
pub mod text;
pub mod weather;
pub mod wifi;
