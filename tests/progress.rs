use cardv_backup::progress::{Failure, UploaderState};
use cardv_backup::session::BotErr;
use cardv_backup::worker::{Update, UploaderMsg};

#[test]
fn observer_follows_a_run() {
    let mut s = UploaderState::WaitForDrive;
    assert_eq!(s.receive(UploaderMsg::Start(3)), None);
    assert!(matches!(s, UploaderState::Uploading { current_name: None, current: 0, total: 3 }));
    s.receive(UploaderMsg::Update(Update { uploading: "b.mp4".into(), current: 1 }));
    match &s {
        UploaderState::Uploading { current_name, current, total } => {
            assert_eq!(current_name.as_deref(), Some("b.mp4"));
            assert_eq!(*current, 1);
            assert_eq!(*total, 3);
        }
        _ => panic!("expected uploading"),
    }
    assert_eq!(s.receive(UploaderMsg::Uploaded("E:\\b.mp4".into())), Some("E:\\b.mp4".to_string()));
    assert!(matches!(s, UploaderState::Uploading { current: 1, .. }));
    assert_eq!(s.receive(UploaderMsg::Done), None);
    assert!(matches!(s, UploaderState::Finished));
}

#[test]
fn observer_reports_failures() {
    let mut s = UploaderState::WaitForDrive;
    s.receive(UploaderMsg::BadFileSystem);
    assert!(matches!(s, UploaderState::Error(Failure::BadFileSystem)));

    let mut s = UploaderState::WaitForDrive;
    s.receive(UploaderMsg::Start(1));
    s.receive(UploaderMsg::Interrupted(BotErr::NoTargetChat));
    assert!(matches!(s, UploaderState::Error(Failure::Interrupted(BotErr::NoTargetChat))));
}

#[test]
fn observer_rejects_out_of_order_events() {
    let mut s = UploaderState::WaitForDrive;
    assert_eq!(s.receive(UploaderMsg::Uploaded("x".into())), None);
    assert!(matches!(s, UploaderState::Error(Failure::Unexpected)));

    let mut s = UploaderState::WaitForDrive;
    s.receive(UploaderMsg::Done);
    assert!(matches!(s, UploaderState::Error(Failure::Unexpected)));
}
