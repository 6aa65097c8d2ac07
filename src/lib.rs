//! Resilient backup of dash-camera recordings to a messaging channel:
//! the ordering and resume rules for recordings, the upload worker's
//! state machine, drive detection and the persisted session form.

pub mod order;
pub mod files;
pub mod session;
pub mod worker;
pub mod drive;
pub mod progress;
