//! What an observer of a run shows, as it takes in the run's events one by
//! one.

use vstd::prelude::*;
use crate::session::BotErr;
use crate::worker::UploaderMsg;

verus! {

/// Why the backup failed, as the observer reports it.
#[derive(Debug)]
pub enum Failure {
    /// The recordings folder could not be read.
    BadFileSystem,
    /// The run was interrupted by this error.
    Interrupted(BotErr),
    /// An event came that the current state does not expect.
    Unexpected,
}

/// The observer's state.
#[derive(Debug)]
pub enum UploaderState {
    /// No run has started: the device is not there yet.
    WaitForDrive,
    /// Files are being uploaded.
    Uploading { current_name: Option<String>, current: usize, total: usize },
    /// The backup failed.
    Error(Failure),
    /// Every file was uploaded.
    Finished,
}

/// The state after event `m`.
pub open spec fn after_event(s: UploaderState, m: UploaderMsg) -> UploaderState {
    match (s, m) {
        (UploaderState::WaitForDrive, UploaderMsg::Start(total)) => UploaderState::Uploading {
            current_name: None,
            current: 0,
            total,
        },
        (UploaderState::Uploading { total, .. }, UploaderMsg::Update(u)) => UploaderState::Uploading {
            current_name: Some(u.uploading),
            current: u.current,
            total,
        },
        (UploaderState::Uploading { current_name, current, total }, UploaderMsg::Uploaded(_)) =>
            UploaderState::Uploading { current_name, current, total },
        (UploaderState::Uploading { .. }, UploaderMsg::Done) => UploaderState::Finished,
        (_, UploaderMsg::BadFileSystem) => UploaderState::Error(Failure::BadFileSystem),
        (_, UploaderMsg::Interrupted(e)) => UploaderState::Error(Failure::Interrupted(e)),
        _ => UploaderState::Error(Failure::Unexpected),
    }
}

impl UploaderState {
    /// Takes in one event. Returns the path to keep as the new resume marker
    /// when the event reports a file uploaded during a run.
    pub fn receive(&mut self, m: UploaderMsg) -> (r: Option<String>)
        ensures
            *final(self) == after_event(*old(self), m),
            r == (match (*old(self), m) {
                (UploaderState::Uploading { .. }, UploaderMsg::Uploaded(p)) => Some(p),
                _ => None,
            }),
    {
        let mut old_state = UploaderState::WaitForDrive;
        std::mem::swap(&mut old_state, self);
        let (next, marker) = match (old_state, m) {
            (UploaderState::WaitForDrive, UploaderMsg::Start(total)) => (
                UploaderState::Uploading { current_name: None, current: 0, total },
                None,
            ),
            (UploaderState::Uploading { total, .. }, UploaderMsg::Update(u)) => (
                UploaderState::Uploading {
                    current_name: Some(u.uploading),
                    current: u.current,
                    total,
                },
                None,
            ),
            (UploaderState::Uploading { current_name, current, total }, UploaderMsg::Uploaded(p)) => (
                UploaderState::Uploading { current_name, current, total },
                Some(p),
            ),
            (UploaderState::Uploading { .. }, UploaderMsg::Done) => (UploaderState::Finished, None),
            (_, UploaderMsg::BadFileSystem) => (UploaderState::Error(Failure::BadFileSystem), None),
            (_, UploaderMsg::Interrupted(e)) => (UploaderState::Error(Failure::Interrupted(e)), None),
            _ => (UploaderState::Error(Failure::Unexpected), None),
        };
        *self = next;
        marker
    }
}

} // verus!
