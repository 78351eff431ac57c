//! Verified core of a Linux memory monitor.
//!
//! The library parses the text of kernel-reported memory files
//! (`meminfo`-style key/value reports, `smaps`-style per-mapping
//! reports, NUL-separated command lines), derives secondary metrics,
//! and orders per-process records into a snapshot.  All file reading,
//! concurrency and rendering live outside the library: every function
//! here is a total, verified computation on plain values.

use vstd::prelude::*;

pub mod memory;
pub mod process;
pub mod utils;

pub use memory::MemoryStats;
pub use process::parse_pid;
pub use process::Process;
pub use process::Processes;
pub use process::ProcessMemoryStats;
pub use utils::format_size;
pub use utils::parse_value;

verus! {

/// Why a parse of kernel-reported memory text failed.
#[derive(Clone, Copy, Debug, PartialEq, Eq, Structural)]
pub enum Error {
    /// A line did not have the expected key/value shape.
    BadFormat,
    /// A value field held malformed numeric text.
    BadNumber,
}

} // verus!
