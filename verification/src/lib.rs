//! Verified core of a LAN scanner: target parsing, MAC and vendor handling,
//! result ordering, localized texts and the scan state machine.

pub mod ipv4;
pub mod text;
pub mod language;
pub mod targets;
pub mod mac;
pub mod records;
pub mod settings;
pub mod scan;
pub mod presets;
pub mod probe;
pub mod platform;
pub mod icon;
pub mod paths;
