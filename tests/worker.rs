use cardv_backup::files::{Candidate, FilesystemError};
use cardv_backup::session::BotErr;
use cardv_backup::worker::{Outcome, Step, UploadWorker, UploaderMsg};

fn cand(name: &str) -> Candidate {
    Candidate { path: format!("E:\\{}", name), name: name.to_string() }
}

fn two_files() -> UploadWorker {
    UploadWorker::new(Ok((vec![cand("a.mp4"), cand("b.mp4")], 1)))
}

#[test]
fn full_run_reports_in_order() {
    let mut w = two_files();
    assert!(matches!(w.next(), Step::Emit(UploaderMsg::Start(3))));
    w.record(Outcome::Sent);
    for (i, name) in ["a.mp4", "b.mp4"].iter().enumerate() {
        match w.next() {
            Step::Emit(UploaderMsg::Update(u)) => {
                assert_eq!(u.uploading, *name);
                assert_eq!(u.current, i + 1);
            }
            _ => panic!("expected an update"),
        }
        w.record(Outcome::Sent);
        match w.next() {
            Step::Attempt { path, timeout_secs } => {
                assert_eq!(path, format!("E:\\{}", name));
                assert_eq!(timeout_secs, 600);
            }
            _ => panic!("expected an attempt"),
        }
        w.record(Outcome::Uploaded);
        match w.next() {
            Step::Emit(UploaderMsg::Uploaded(p)) => assert_eq!(p, format!("E:\\{}", name)),
            _ => panic!("expected uploaded"),
        }
        w.record(Outcome::Sent);
    }
    assert!(matches!(w.next(), Step::Emit(UploaderMsg::Done)));
    w.record(Outcome::Sent);
    assert!(matches!(w.next(), Step::Finish));
    assert!(matches!(w.next(), Step::Finish));
}

#[test]
fn timeouts_grow_by_a_minute() {
    let mut w = two_files();
    w.next();
    w.record(Outcome::Sent);
    w.next();
    w.record(Outcome::Sent);
    let mut seen = Vec::new();
    for _ in 0..5 {
        match w.next() {
            Step::Attempt { timeout_secs, .. } => seen.push(timeout_secs),
            _ => panic!("expected an attempt"),
        }
        w.record(Outcome::TimedOut);
    }
    assert_eq!(seen, vec![600, 660, 720, 780, 840]);
    w.record(Outcome::Uploaded);
    w.next();
    w.record(Outcome::Sent);
    w.next();
    w.record(Outcome::Sent);
    match w.next() {
        Step::Attempt { timeout_secs, .. } => assert_eq!(timeout_secs, 600),
        _ => panic!("expected an attempt"),
    }
}

#[test]
fn failed_attempt_interrupts_the_run() {
    let mut w = two_files();
    w.next();
    w.record(Outcome::Sent);
    w.next();
    w.record(Outcome::Sent);
    assert!(matches!(w.next(), Step::Attempt { .. }));
    w.record(Outcome::Failed(BotErr::NoVideoAttribute));
    assert!(matches!(w.next(), Step::Emit(UploaderMsg::Interrupted(BotErr::NoVideoAttribute))));
    w.record(Outcome::Sent);
    assert!(matches!(w.next(), Step::Finish));
    w.record(Outcome::TimedOut);
    assert!(matches!(w.next(), Step::Finish));
}

#[test]
fn dropped_observer_stops_the_run() {
    let mut w = two_files();
    w.next();
    w.record(Outcome::Sent);
    w.next();
    w.record(Outcome::Sent);
    w.next();
    w.record(Outcome::Uploaded);
    assert!(matches!(w.next(), Step::Emit(UploaderMsg::Uploaded(_))));
    w.record(Outcome::Closed);
    assert!(matches!(w.next(), Step::Finish));
    w.record(Outcome::Sent);
    assert!(matches!(w.next(), Step::Finish));
}

#[test]
fn unreadable_folder_reports_bad_filesystem() {
    let mut w = UploadWorker::new(Err(FilesystemError));
    assert!(matches!(w.next(), Step::Emit(UploaderMsg::BadFileSystem)));
    w.record(Outcome::Sent);
    assert!(matches!(w.next(), Step::Finish));
}

#[test]
fn empty_run_starts_and_finishes() {
    let mut w = UploadWorker::new(Ok((Vec::new(), 4)));
    assert!(matches!(w.next(), Step::Emit(UploaderMsg::Start(4))));
    w.record(Outcome::Sent);
    assert!(matches!(w.next(), Step::Emit(UploaderMsg::Done)));
    w.record(Outcome::Sent);
    assert!(matches!(w.next(), Step::Finish));
}

#[test]
fn outcome_that_answers_nothing_changes_nothing() {
    let mut w = two_files();
    w.record(Outcome::Uploaded);
    assert!(matches!(w.next(), Step::Emit(UploaderMsg::Start(3))));
}

#[test]
fn unreadable_folder_skips_nothing() {
    let w = UploadWorker::new(Err(FilesystemError));
    assert_eq!(w.skip, 0);
    assert!(w.files.is_empty());
}
