//! The rules of a backup tool for file servers: which volumes are backed up,
//! under which names archives are stored, which of them a restore reads and
//! which of them a retention policy removes, and when the next run is due.
//!
//! The crate decides; it performs no input or output. The program around it
//! carries out the requests that the crate makes and reports what came of them:
//! each machine, such as [`jobs::Run`], takes a reply and gives the next request,
//! until it has finished or stopped.

pub mod clock;
pub mod config;
pub mod connect;
pub mod jobs;
pub mod lists;
pub mod local;
pub mod packing;
pub mod paths;
pub mod refusal;
pub mod retention;
pub mod runs;
pub mod schedule;
pub mod scheduler;
pub mod sftp;
pub mod size;
pub mod sorting;
pub mod text;
pub mod volumes;
