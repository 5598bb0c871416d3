//! What holds of parsing and of the scripts, proved from the definitions.

pub mod chains;
pub mod escaping;
pub mod reading;
pub mod scanning;
pub mod variables;
