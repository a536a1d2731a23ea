//! Verified model of the Linux block-device topology: device numbers,
//! mountinfo parsing, the device-major table, the sysfs attribute
//! grammar, the devfs path cache, and the partition/slave/parent
//! resolution rules.
//!
//! Everything here is pure computation over values; the thin layer
//! that reads the live pseudo-filesystems hands those values in and
//! carries the answers out.

pub mod assoc;
pub mod blocks;
pub mod devfs;
pub mod device;
pub mod devices;
pub mod error;
pub mod mountinfo;
pub mod num;
pub mod procfs;
pub mod sysfs;
pub mod tokens;
