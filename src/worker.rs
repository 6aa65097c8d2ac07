//! The upload worker as a state machine. The caller performs each step that
//! the worker asks for (hand an event to the observer, or make one upload
//! attempt) and reports how it went; the worker decides what comes next.
//!
//! A run is: `Start`, then for each file an `Update` and, once the file is
//! uploaded, `Uploaded`, then `Done`. A failed attempt ends the run with
//! `Interrupted`; a timed-out attempt is tried again with one more minute.
//! Once the observer is gone the run stops without another event.

use vstd::prelude::*;
use crate::files::{Candidate, FilesystemError};
use crate::session::BotErr;

verus! {

/// Time allowed for the first upload attempt of a file, in seconds.
pub const FIRST_TIMEOUT_SECS: u64 = 600;

/// Time added after each attempt that ran out, in seconds.
pub const TIMEOUT_STEP_SECS: u64 = 60;

/// Pause before every upload attempt, in seconds, against rate limits.
pub const GUARD_SECS: u64 = 30;

/// Progress on the file being uploaded.
#[derive(Debug)]
pub struct Update {
    /// Name of the file.
    pub uploading: String,
    /// Its position among all the recordings, the skipped ones included.
    pub current: usize,
}

/// An event for the observer of a run.
#[derive(Debug)]
pub enum UploaderMsg {
    /// The recordings folder could not be read.
    BadFileSystem,
    /// The run failed.
    Interrupted(BotErr),
    /// The run begins, with this many recordings in all.
    Start(usize),
    /// A file's upload begins.
    Update(Update),
    /// A file was uploaded; its path is the new resume marker.
    Uploaded(String),
    /// Every file was uploaded.
    Done,
}

/// What the worker asks of its caller.
pub enum Step {
    /// Hand this event to the observer.
    Emit(UploaderMsg),
    /// Pause for `GUARD_SECS`, reconnect, then upload the file at `path`,
    /// giving up after `timeout_secs`.
    Attempt { path: String, timeout_secs: u64 },
    /// The run is over.
    Finish,
}

/// How the last step went.
pub enum Outcome {
    /// The event reached the channel.
    Sent,
    /// The observer is gone.
    Closed,
    /// The upload succeeded.
    Uploaded,
    /// The upload ran out of time.
    TimedOut,
    /// Reconnecting or uploading failed.
    Failed(BotErr),
}

/// Where a run stands.
#[derive(PartialEq, Eq, Structural, Clone, Copy, Debug)]
pub enum Phase {
    /// The folder could not be read; `BadFileSystem` is to be sent.
    ReportingBadFs,
    /// `Start` is to be sent.
    Starting,
    /// The current file's `Update` is to be sent.
    Announcing,
    /// The current file is to be uploaded.
    Uploading,
    /// The current file's `Uploaded` is to be sent.
    Reporting,
    /// `Done` is to be sent.
    Finishing,
    /// The failure is to be handed out as `Interrupted`.
    Failing,
    /// `Interrupted` was handed out and awaits its delivery.
    Interrupting,
    /// The run is over.
    Stopped,
}

/// An event that reached the observer; files by their position in the run.
pub enum Event {
    /// `BadFileSystem`.
    BadFileSystem,
    /// `Start`.
    Start,
    /// `Update` for the file at this position in `files`.
    Update(nat),
    /// `Uploaded` for the file at this position in `files`.
    Uploaded(nat),
    /// `Done`.
    Done,
    /// `Interrupted`.
    Interrupted,
}

/// The events of the first `n` files of a completed run.
pub open spec fn file_events(n: nat) -> Seq<Event>
    decreases n,
{
    if n == 0 {
        seq![]
    } else {
        file_events((n - 1) as nat) + seq![Event::Update((n - 1) as nat), Event::Uploaded((n - 1) as nat)]
    }
}

/// The events up to the upload of file `i`.
pub open spec fn events_before(i: nat) -> Seq<Event> {
    seq![Event::Start] + file_events(i)
}

/// The events up to and including the announcement of file `i`.
pub open spec fn events_during(i: nat) -> Seq<Event> {
    events_before(i).push(Event::Update(i))
}

/// The events that a run of `n` files can have delivered when it stops with
/// `i` files uploaded.
pub open spec fn stopped_log(log: Seq<Event>, i: nat, n: nat) -> bool {
    &&& i <= n
    &&& {
        ||| log == Seq::<Event>::empty()
        ||| log == seq![Event::BadFileSystem]
        ||| log == events_before(i)
        ||| (i < n && log == events_during(i))
        ||| (i < n && log == events_during(i).push(Event::Interrupted))
        ||| (i == n && log == events_before(n).push(Event::Done))
    }
}

/// The state of a run.
pub struct UploadWorker {
    /// The files to upload, in order.
    pub files: Vec<Candidate>,
    /// How many recordings were skipped as uploaded before.
    pub skip: usize,
    /// Position of the current file in `files`.
    pub index: usize,
    /// Time allowed for the next attempt, in seconds.
    pub timeout_secs: u64,
    /// What the run does next.
    pub phase: Phase,
    /// The error that ended the run, until it is handed out.
    pub failure: Option<BotErr>,
    /// The events that reached the observer.
    pub log: Ghost<Seq<Event>>,
}

impl UploadWorker {
    /// The state's fields agree with each other and with the events so far.
    pub open spec fn wf(&self) -> bool {
        let n = self.files@.len();
        let i = self.index as nat;
        let log = self.log@;
        &&& n + self.skip <= usize::MAX
        &&& i <= n
        &&& (self.phase == Phase::Failing <==> self.failure is Some)
        &&& match self.phase {
            Phase::ReportingBadFs => log == Seq::<Event>::empty() && n == 0,
            Phase::Starting => log == Seq::<Event>::empty() && i == 0,
            Phase::Announcing => log == events_before(i) && i < n,
            Phase::Uploading | Phase::Reporting | Phase::Failing | Phase::Interrupting => log
                == events_during(i) && i < n,
            Phase::Finishing => log == events_before(i) && i == n,
            Phase::Stopped => stopped_log(log, i, n),
        }
    }

    /// The state after the caller reports `o`. An outcome that does not
    /// answer the pending step changes nothing.
    pub open spec fn recorded(self, o: Outcome) -> UploadWorker {
        let n = self.files@.len();
        let i = self.index as nat;
        let stop = UploadWorker { phase: Phase::Stopped, ..self };
        match (self.phase, o) {
            (Phase::ReportingBadFs, Outcome::Sent) => UploadWorker {
                phase: Phase::Stopped,
                log: Ghost(self.log@.push(Event::BadFileSystem)),
                ..self
            },
            (Phase::Starting, Outcome::Sent) => UploadWorker {
                phase: if n > 0 {
                    Phase::Announcing
                } else {
                    Phase::Finishing
                },
                log: Ghost(self.log@.push(Event::Start)),
                ..self
            },
            (Phase::Announcing, Outcome::Sent) => UploadWorker {
                phase: Phase::Uploading,
                timeout_secs: FIRST_TIMEOUT_SECS,
                log: Ghost(self.log@.push(Event::Update(i))),
                ..self
            },
            (Phase::Uploading, Outcome::Uploaded) => UploadWorker { phase: Phase::Reporting, ..self },
            (Phase::Uploading, Outcome::TimedOut) => UploadWorker {
                timeout_secs: if self.timeout_secs + TIMEOUT_STEP_SECS <= u64::MAX {
                    (self.timeout_secs + TIMEOUT_STEP_SECS) as u64
                } else {
                    u64::MAX
                },
                ..self
            },
            (Phase::Uploading, Outcome::Failed(e)) => UploadWorker {
                phase: Phase::Failing,
                failure: Some(e),
                ..self
            },
            (Phase::Reporting, Outcome::Sent) => UploadWorker {
                phase: if i + 1 < n {
                    Phase::Announcing
                } else {
                    Phase::Finishing
                },
                index: (self.index + 1) as usize,
                log: Ghost(self.log@.push(Event::Uploaded(i))),
                ..self
            },
            (Phase::Finishing, Outcome::Sent) => UploadWorker {
                phase: Phase::Stopped,
                log: Ghost(self.log@.push(Event::Done)),
                ..self
            },
            (Phase::Interrupting, Outcome::Sent) => UploadWorker {
                phase: Phase::Stopped,
                log: Ghost(self.log@.push(Event::Interrupted)),
                ..self
            },
            (Phase::ReportingBadFs, Outcome::Closed) => stop,
            (Phase::Starting, Outcome::Closed) => stop,
            (Phase::Announcing, Outcome::Closed) => stop,
            (Phase::Reporting, Outcome::Closed) => stop,
            (Phase::Finishing, Outcome::Closed) => stop,
            (Phase::Interrupting, Outcome::Closed) => stop,
            _ => self,
        }
    }

    /// The state after the worker hands out its next step.
    pub open spec fn advanced(self) -> UploadWorker {
        match self.phase {
            Phase::Failing => UploadWorker { phase: Phase::Interrupting, failure: None, ..self },
            Phase::Interrupting => UploadWorker { phase: Phase::Stopped, ..self },
            _ => self,
        }
    }

    /// `s` is the step that the worker asks for in this state. In
    /// `Interrupting` the failure was handed out already: asking again stops
    /// the run.
    pub open spec fn asks(self, s: Step) -> bool {
        let i = self.index as int;
        match self.phase {
            Phase::ReportingBadFs => s matches Step::Emit(UploaderMsg::BadFileSystem),
            Phase::Starting => s matches Step::Emit(UploaderMsg::Start(t)) && t == self.files@.len()
                + self.skip,
            Phase::Announcing => s matches Step::Emit(UploaderMsg::Update(u)) && u.uploading@
                == self.files@[i].name@ && u.current == i + self.skip,
            Phase::Uploading => s matches Step::Attempt { path, timeout_secs } && path@
                == self.files@[i].path@ && timeout_secs == self.timeout_secs,
            Phase::Reporting => s matches Step::Emit(UploaderMsg::Uploaded(p)) && p@
                == self.files@[i].path@,
            Phase::Finishing => s matches Step::Emit(UploaderMsg::Done),
            Phase::Failing => s matches Step::Emit(UploaderMsg::Interrupted(e)) && self.failure
                == Some(e),
            Phase::Interrupting | Phase::Stopped => s matches Step::Finish,
        }
    }

    /// A run over what enumeration returned: the files left and the count
    /// skipped, or the failure to read the folder.
    pub fn new(listing: Result<(Vec<Candidate>, usize), FilesystemError>) -> (r: UploadWorker)
        requires
            listing matches Ok(p) ==> p.0@.len() + p.1 <= usize::MAX,
        ensures
            r.wf(),
            r.index == 0,
            r.log@ == Seq::<Event>::empty(),
            r.timeout_secs == FIRST_TIMEOUT_SECS,
            match listing {
                Ok(p) => r.phase == Phase::Starting && r.files == p.0 && r.skip == p.1,
                Err(_) => r.phase == Phase::ReportingBadFs && r.files@.len() == 0 && r.skip == 0,
            },
    {
        match listing {
            Ok((files, skip)) => UploadWorker {
                files,
                skip,
                index: 0,
                timeout_secs: FIRST_TIMEOUT_SECS,
                phase: Phase::Starting,
                failure: None,
                log: Ghost(Seq::empty()),
            },
            Err(_) => UploadWorker {
                files: Vec::new(),
                skip: 0,
                index: 0,
                timeout_secs: FIRST_TIMEOUT_SECS,
                phase: Phase::ReportingBadFs,
                failure: None,
                log: Ghost(Seq::empty()),
            },
        }
    }

    /// The step that the run asks for now.
    pub fn next(&mut self) -> (s: Step)
        requires
            old(self).wf(),
        ensures
            final(self).wf(),
            old(self).asks(s),
            *final(self) == old(self).advanced(),
    {
        let i = self.index;
        match self.phase {
            Phase::ReportingBadFs => Step::Emit(UploaderMsg::BadFileSystem),
            Phase::Starting => Step::Emit(UploaderMsg::Start(self.files.len() + self.skip)),
            Phase::Announcing => Step::Emit(
                UploaderMsg::Update(
                    Update { uploading: self.files[i].name.clone(), current: i + self.skip },
                ),
            ),
            Phase::Uploading => Step::Attempt {
                path: self.files[i].path.clone(),
                timeout_secs: self.timeout_secs,
            },
            Phase::Reporting => Step::Emit(UploaderMsg::Uploaded(self.files[i].path.clone())),
            Phase::Finishing => Step::Emit(UploaderMsg::Done),
            Phase::Failing => {
                let mut taken: Option<BotErr> = None;
                std::mem::swap(&mut taken, &mut self.failure);
                self.phase = Phase::Interrupting;
                match taken {
                    Some(e) => Step::Emit(UploaderMsg::Interrupted(e)),
                    None => Step::Finish,
                }
            },
            Phase::Interrupting => {
                self.phase = Phase::Stopped;
                Step::Finish
            },
            Phase::Stopped => Step::Finish,
        }
    }

    /// Takes in how the last step went.
    pub fn record(&mut self, o: Outcome)
        requires
            old(self).wf(),
        ensures
            final(self).wf(),
            *final(self) == old(self).recorded(o),
    {
        let ghost i = self.index as nat;
        let n = self.files.len();
        match (self.phase, o) {
            (Phase::ReportingBadFs, Outcome::Sent) => {
                self.phase = Phase::Stopped;
                self.log = Ghost(self.log@.push(Event::BadFileSystem));
            },
            (Phase::Starting, Outcome::Sent) => {
                self.phase = if n > 0 {
                    Phase::Announcing
                } else {
                    Phase::Finishing
                };
                self.log = Ghost(self.log@.push(Event::Start));
                assert(file_events(0) =~= Seq::<Event>::empty());
                assert(self.log@ =~= events_before(0));
            },
            (Phase::Announcing, Outcome::Sent) => {
                self.phase = Phase::Uploading;
                self.timeout_secs = FIRST_TIMEOUT_SECS;
                self.log = Ghost(self.log@.push(Event::Update(i)));
            },
            (Phase::Uploading, Outcome::Uploaded) => {
                self.phase = Phase::Reporting;
            },
            (Phase::Uploading, Outcome::TimedOut) => {
                self.timeout_secs = self.timeout_secs.saturating_add(TIMEOUT_STEP_SECS);
            },
            (Phase::Uploading, Outcome::Failed(e)) => {
                self.phase = Phase::Failing;
                self.failure = Some(e);
            },
            (Phase::Reporting, Outcome::Sent) => {
                self.phase = if self.index + 1 < n {
                    Phase::Announcing
                } else {
                    Phase::Finishing
                };
                self.index = self.index + 1;
                self.log = Ghost(self.log@.push(Event::Uploaded(i)));
                assert(self.log@ =~= events_before(i + 1));
            },
            (Phase::Finishing, Outcome::Sent) => {
                self.phase = Phase::Stopped;
                self.log = Ghost(self.log@.push(Event::Done));
            },
            (Phase::Interrupting, Outcome::Sent) => {
                self.phase = Phase::Stopped;
                self.log = Ghost(self.log@.push(Event::Interrupted));
            },
            (Phase::ReportingBadFs, Outcome::Closed) | (Phase::Starting, Outcome::Closed) | (
                Phase::Announcing,
                Outcome::Closed,
            ) | (Phase::Reporting, Outcome::Closed) | (Phase::Finishing, Outcome::Closed) | (
                Phase::Interrupting,
                Outcome::Closed,
            ) => {
                self.phase = Phase::Stopped;
            },
            _ => {},
        }
    }
}

/// The state after `k` attempts in a row ran out of time.
pub open spec fn timed_out(w: UploadWorker, k: nat) -> UploadWorker
    decreases k,
{
    if k == 0 {
        w
    } else {
        timed_out(w, (k - 1) as nat).recorded(Outcome::TimedOut)
    }
}

proof fn lemma_events_before(i: nat)
    ensures
        events_before(i).len() == 2 * i + 1,
        events_before(i)[0] is Start,
        forall|k: int|
            1 <= k <= 2 * i ==> #[trigger] events_before(i)[k] == (if k % 2 == 1 {
                Event::Update(((k - 1) / 2) as nat)
            } else {
                Event::Uploaded(((k - 1) / 2) as nat)
            }),
    decreases i,
{
    if i > 0 {
        lemma_events_before((i - 1) as nat);
        let p = events_before((i - 1) as nat);
        assert(events_before(i) =~= p + seq![Event::Update((i - 1) as nat), Event::Uploaded((i - 1) as nat)]);
        assert forall|k: int| 1 <= k <= 2 * i implies #[trigger] events_before(i)[k] == (if k % 2 == 1 {
            Event::Update(((k - 1) / 2) as nat)
        } else {
            Event::Uploaded(((k - 1) / 2) as nat)
        }) by {
            if k <= 2 * i - 2 {
                assert(events_before(i)[k] == p[k]);
            }
        }
    }
}

proof fn lemma_log_cases(w: UploadWorker)
    requires
        w.wf(),
    ensures
        ({
            let log = w.log@;
            let n = w.files@.len();
            let i = w.index as nat;
            ||| log == Seq::<Event>::empty()
            ||| log == seq![Event::BadFileSystem]
            ||| log == events_before(i)
            ||| (i < n && log == events_during(i))
            ||| (i < n && log == events_during(i).push(Event::Interrupted))
            ||| (i == n && log == events_before(n).push(Event::Done))
        }),
{
}

/// A file is reported uploaded only right after its announcement, with the
/// same position.
pub proof fn lemma_uploaded_follows_update(w: UploadWorker)
    requires
        w.wf(),
    ensures
        forall|k: int|
            0 <= k < w.log@.len() && (#[trigger] w.log@[k]) is Uploaded ==> k >= 1 && w.log@[k - 1]
                == Event::Update(w.log@[k]->Uploaded_0),
{
    let i = w.index as nat;
    lemma_events_before(i);
    lemma_log_cases(w);
    let log = w.log@;
    assert forall|k: int| 0 <= k < log.len() && (#[trigger] log[k]) is Uploaded implies k >= 1
        && log[k - 1] == Event::Update(log[k]->Uploaded_0) by {
        if k >= 1 && k <= 2 * i {
            assert(log[k] == events_before(i)[k]);
            assert(log[k - 1] == events_before(i)[k - 1]);
            if k % 2 == 1 {
                assert(false);
            } else {
                assert((k - 2) / 2 == (k - 1) / 2);
            }
        }
    }
}

/// A run delivers `Start` first and only once, unless the folder could not be
/// read; `Done` comes last, right after the last file's `Uploaded`, so it
/// comes at most once.
pub proof fn lemma_start_once_done_last(w: UploadWorker)
    requires
        w.wf(),
    ensures
        forall|k: int| 0 <= k < w.log@.len() && (#[trigger] w.log@[k]) is Start ==> k == 0,
        forall|k: int|
            0 <= k < w.log@.len() && (#[trigger] w.log@[k]) is Done ==> k == w.log@.len() - 1 && (
            w.files@.len() > 0 ==> w.log@[k - 1] == Event::Uploaded((w.files@.len() - 1) as nat)),
        w.log@.len() > 0 && !(w.log@[0] is BadFileSystem) ==> w.log@[0] is Start,
{
    let i = w.index as nat;
    let n = w.files@.len();
    lemma_events_before(i);
    lemma_log_cases(w);
    let log = w.log@;
    assert forall|k: int| 0 <= k < log.len() && (#[trigger] log[k]) is Start implies k == 0 by {
        if k >= 1 && k <= 2 * i {
            assert(log[k] == events_before(i)[k]);
        }
    }
    assert forall|k: int| 0 <= k < log.len() && (#[trigger] log[k]) is Done implies k == log.len() - 1
        && (n > 0 ==> log[k - 1] == Event::Uploaded((n - 1) as nat)) by {
        if k >= 1 && k <= 2 * i {
            assert(log[k] == events_before(i)[k]);
        }
        if k == 2 * i + 1 && n > 0 {
            assert(log[k - 1] == events_before(i)[2 * i as int]);
            assert((2 * i - 1) / 2 == i - 1);
        }
    }
}

/// Each attempt that runs out of time gives the next one `TIMEOUT_STEP_SECS`
/// more, on the same file, for as long as attempts keep running out: after
/// `k` of them the timeout is `k` steps above where it began, or the largest
/// `u64` where that does not fit.
pub proof fn lemma_timeouts_escalate(w: UploadWorker, k: nat)
    requires
        w.wf(),
        w.phase == Phase::Uploading,
    ensures
        timed_out(w, k).wf(),
        timed_out(w, k).phase == Phase::Uploading,
        timed_out(w, k).index == w.index,
        timed_out(w, k).log@ == w.log@,
        timed_out(w, k).timeout_secs == (if w.timeout_secs + TIMEOUT_STEP_SECS * k <= u64::MAX {
            w.timeout_secs + TIMEOUT_STEP_SECS * k
        } else {
            u64::MAX as int
        }),
    decreases k,
{
    if k > 0 {
        lemma_timeouts_escalate(w, (k - 1) as nat);
    }
}

/// While it fits in a `u64`, each timeout is strictly greater than the one
/// before, by exactly `TIMEOUT_STEP_SECS`.
pub proof fn lemma_timeouts_strictly_increase(w: UploadWorker, k: nat)
    requires
        w.wf(),
        w.phase == Phase::Uploading,
        w.timeout_secs + TIMEOUT_STEP_SECS * (k + 1) <= u64::MAX,
    ensures
        timed_out(w, k + 1).timeout_secs == timed_out(w, k).timeout_secs + TIMEOUT_STEP_SECS,
        timed_out(w, k + 1).timeout_secs > timed_out(w, k).timeout_secs,
{
    lemma_timeouts_escalate(w, k);
    lemma_timeouts_escalate(w, k + 1);
}

/// An announced file's first attempt gets `FIRST_TIMEOUT_SECS`.
pub proof fn lemma_first_attempt_timeout(w: UploadWorker)
    requires
        w.wf(),
        w.phase == Phase::Announcing,
    ensures
        w.recorded(Outcome::Sent).phase == Phase::Uploading,
        w.recorded(Outcome::Sent).timeout_secs == FIRST_TIMEOUT_SECS,
{
}

/// An attempt that fails other than by running out of time ends the run: the
/// next step hands out the failure, and no attempt follows.
pub proof fn lemma_failure_ends_run(w: UploadWorker, e: BotErr)
    requires
        w.wf(),
        w.phase == Phase::Uploading,
    ensures
        w.recorded(Outcome::Failed(e)).failure == Some(e),
        forall|s: Step| #[trigger] w.recorded(Outcome::Failed(e)).asks(s) ==> (s matches Step::Emit(
            UploaderMsg::Interrupted(x),
        ) && x == e),
        forall|o: Outcome, s: Step| #[trigger] w.recorded(Outcome::Failed(e)).advanced().recorded(o).asks(s)
            ==> s is Finish,
        forall|o: Outcome| #[trigger] w.recorded(Outcome::Failed(e)).advanced().recorded(o).advanced().phase
            == Phase::Stopped,
{
}

/// A stopped run asks for nothing more and stays stopped.
pub proof fn lemma_stopped_is_final(w: UploadWorker)
    requires
        w.phase == Phase::Stopped,
    ensures
        w.advanced() == w,
        forall|o: Outcome| #[trigger] w.recorded(o) == w,
        forall|s: Step| #[trigger] w.asks(s) ==> s is Finish,
{
}

/// Once the observer is gone the run stops, with no event more.
pub proof fn lemma_closed_channel_stops(w: UploadWorker)
    requires
        w.wf(),
        w.phase != Phase::Uploading,
        w.phase != Phase::Failing,
    ensures
        w.recorded(Outcome::Closed).phase == Phase::Stopped,
        w.recorded(Outcome::Closed).log@ == w.log@,
{
}

} // verus!
