//! The errors of a backup run, and the packed form of an authenticated
//! session that is kept between runs.

use vstd::prelude::*;

verus! {

#[verifier::external_type_specification]
#[verifier::external_body]
pub struct ExSessionError(grammers_session::Error);

#[verifier::external_type_specification]
#[verifier::external_body]
pub struct ExInvocationError(grammers_mtsender::InvocationError);

#[verifier::external_type_specification]
#[verifier::external_body]
pub struct ExAuthorizationError(grammers_mtsender::AuthorizationError);

#[verifier::external_type_specification]
#[verifier::external_body]
pub struct ExIoError(std::io::Error);

/// Why talking to the messaging service, or a backup run, failed. Each cause
/// is kept as the error that reported it.
#[derive(Debug)]
pub enum BotErr {
    /// The servers could not be reached.
    Communication,
    /// A request failed.
    Invocation(grammers_mtsender::InvocationError),
    /// The saved session could not be read.
    BadSession(grammers_session::Error),
    /// The credentials were refused.
    BadAuth(grammers_mtsender::AuthorizationError),
    /// The saved destination could not be read.
    CorruptedTargetChat,
    /// The destination could not be found in time.
    NoTargetChat,
    /// Reading a file failed.
    Io(std::io::Error),
    /// The video's attributes could not be read from the file.
    NoVideoAttribute,
    /// No thumbnail could be made from the video.
    NoThumbnail,
}

#[verifier::external_type_specification]
#[verifier::external_body]
pub struct ExSession(grammers_session::Session);

#[verifier::external_type_specification]
#[verifier::external_body]
pub struct ExPackedChat(grammers_session::PackedChat);

/// An authenticated session and its destination, as bytes that can be kept
/// between runs.
#[derive(Debug)]
pub struct PackedBot {
    /// The session, as `Session::save` writes it.
    pub session: Vec<u8>,
    /// The destination chat, as `PackedChat::to_bytes` writes it.
    pub target_chat: Vec<u8>,
}

/// `Session::load` accepts these bytes.
pub uninterp spec fn session_loads(data: Seq<u8>) -> bool;

/// The bytes that `PackedChat::from_bytes` accepts: seventeen of them, the
/// first naming a kind of chat in its low six bits.
pub open spec fn chat_bytes_valid(b: Seq<u8>) -> bool {
    &&& b.len() == 17
    &&& {
        let kind = b[0] & 0x3f;
        kind == 0x02 || kind == 0x03 || kind == 0x04 || kind == 0x28 || kind == 0x30 || kind == 0x38
    }
}

/// Both parts of the packed form can be read back.
pub open spec fn restorable(p: PackedBot) -> bool {
    chat_bytes_valid(p.target_chat@) && session_loads(p.session@)
}

/// Relies on `grammers_session::Session::load`, which fails on bytes it
/// cannot read.
#[verifier::external_body]
fn load_session(data: &[u8]) -> (r: Result<grammers_session::Session, grammers_session::Error>)
    ensures
        r is Ok <==> session_loads(data@),
{
    grammers_session::Session::load(data)
}

/// Relies on `grammers_session::Session::save`, whose output `Session::load`
/// reads back.
#[verifier::external_body]
fn save_session(s: &grammers_session::Session) -> (r: Vec<u8>)
    ensures
        session_loads(r@),
{
    s.save()
}

/// Relies on `grammers_session::PackedChat::from_bytes`: seventeen bytes with
/// a known kind of chat in the first.
#[verifier::external_body]
fn chat_from_bytes(b: &[u8]) -> (r: Result<grammers_session::PackedChat, ()>)
    ensures
        r is Ok <==> chat_bytes_valid(b@),
{
    grammers_session::PackedChat::from_bytes(b)
}

/// Relies on `grammers_session::PackedChat::to_bytes`: the kind of chat in
/// the low six bits of the first of seventeen bytes.
#[verifier::external_body]
fn chat_to_bytes(c: &grammers_session::PackedChat) -> (r: Vec<u8>)
    ensures
        chat_bytes_valid(r@),
{
    c.to_bytes().to_vec()
}

/// Packs a session and its destination.
pub fn pack(session: &grammers_session::Session, chat: &grammers_session::PackedChat) -> (r: PackedBot)
    ensures
        restorable(r),
{
    PackedBot { session: save_session(session), target_chat: chat_to_bytes(chat) }
}

/// Reads back a packed session and destination. A destination that cannot be
/// read is reported first, then a session that cannot be.
pub fn unpack(packed: &PackedBot) -> (r: Result<(grammers_session::Session, grammers_session::PackedChat), BotErr>)
    ensures
        r is Ok <==> restorable(*packed),
        r matches Err(e) ==> (e is CorruptedTargetChat <==> !chat_bytes_valid(packed.target_chat@)),
        r matches Err(e) ==> (e is BadSession <==> (chat_bytes_valid(packed.target_chat@)
            && !session_loads(packed.session@))),
{
    let chat = match chat_from_bytes(packed.target_chat.as_slice()) {
        Ok(c) => c,
        Err(_) => {
            return Err(BotErr::CorruptedTargetChat);
        },
    };
    match load_session(packed.session.as_slice()) {
        Ok(s) => Ok((s, chat)),
        Err(e) => Err(BotErr::BadSession(e)),
    }
}

/// The text that the bot sends to its destination to find it.
pub const IDENTIFY_MESSAGE: &'static str = "this-message-is-used-by-the-bot-to-get-the-channel-hash";

/// Whether an incoming update is the bot's own identifying message.
pub fn is_identify_message(outgoing: bool, text: &String) -> (r: bool)
    ensures
        r == (outgoing && text@ == IDENTIFY_MESSAGE@),
{
    let expected = IDENTIFY_MESSAGE.to_owned();
    outgoing && *text == expected
}

} // verus!
