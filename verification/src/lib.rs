//! Verified core of a low-latency LAN screen mirroring application.
pub mod autostart;
pub mod capture;
pub mod clock;
pub mod config;
pub mod control;
pub mod decoders;
pub mod diagnostics;
pub mod discovery;
pub mod elements;
pub mod encoders;
pub mod gpu;
pub mod journal;
pub mod lan;
pub mod logging;
pub mod monitors;
pub mod order;
pub mod pipeline;
pub mod precision;
pub mod reading;
pub mod receiver_window;
pub mod runtime;
pub mod search;
pub mod single_instance;
pub mod text;
pub mod topology;
pub mod tray_app;
pub mod tray_menu;
pub mod updater;
pub mod vdd;
pub mod wide;
