//! A library for a UEFI boot picker: it decodes the firmware's `Boot####`
//! variables into structured entries, classifies each entry's device path,
//! and drives the interactive menu that resolves a single boot choice.
//!
//! Reading and writing firmware variables, terminal drawing and input
//! devices are left to the surrounding program; this crate holds the logic
//! that interprets bytes and events.

pub mod codec;
pub mod device_path;
pub mod entry;
pub mod ident;
pub mod menu;
