//! Verified core of the sysMaster extension tools: udev-style rule
//! loading, string sanitisers, the init supervisor's state machine and
//! assorted argument and identifier parsers.

pub mod text;
pub mod rules;
pub mod utils;
pub mod getty;
pub mod hostname;
pub mod random_seed;
pub mod run;
pub mod init;
pub mod sctl;
pub mod sysmonitor;
pub mod machine_id;
pub mod switch_root;
