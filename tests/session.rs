use cardv_backup::session::{is_identify_message, pack, unpack, BotErr, PackedBot, IDENTIFY_MESSAGE};
use grammers_session::{PackedChat, PackedType, Session};

fn chat() -> PackedChat {
    PackedChat { ty: PackedType::Broadcast, id: 12345, access_hash: Some(-7) }
}

#[test]
fn packed_session_restores() {
    let packed = pack(&Session::new(), &chat());
    assert_eq!(packed.target_chat.len(), 17);
    let (_, c) = unpack(&packed).unwrap();
    assert_eq!(c, chat());
}

#[test]
fn corrupted_destination_is_reported_first() {
    let packed = PackedBot { session: vec![1, 2, 3], target_chat: vec![0; 5] };
    assert!(matches!(unpack(&packed), Err(BotErr::CorruptedTargetChat)));
    let mut bytes = chat().to_bytes().to_vec();
    bytes[0] = 0x3f;
    let packed = PackedBot { session: Session::new().save(), target_chat: bytes };
    assert!(matches!(unpack(&packed), Err(BotErr::CorruptedTargetChat)));
}

#[test]
fn corrupted_session_is_reported() {
    let packed = PackedBot { session: vec![1, 2, 3], target_chat: chat().to_bytes().to_vec() };
    assert!(matches!(unpack(&packed), Err(BotErr::BadSession(_))));
}

#[test]
fn identify_message_must_be_outgoing() {
    assert!(is_identify_message(true, &IDENTIFY_MESSAGE.to_string()));
    assert!(!is_identify_message(false, &IDENTIFY_MESSAGE.to_string()));
    assert!(!is_identify_message(true, &"hello".to_string()));
}
