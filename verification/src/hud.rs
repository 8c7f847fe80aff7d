//! What the user reads in the headset while no stream is shown.
use vstd::prelude::*;

verus! {

/// While the streamer is looked for.
pub const INITIAL_MESSAGE: &'static str =
    "Searching for streamer...\nOpen ALVR on your PC then click \"Trust\"\nnext to the client entry";

/// When nothing can be broadcast.
pub const NETWORK_UNREACHABLE_MESSAGE: &'static str = "Cannot connect to the internet";

/// When the streamer announces the stream.
pub const STREAM_STARTING_MESSAGE: &'static str = "The stream will begin soon\nPlease wait...";

/// When the streamer announces that it restarts.
pub const SERVER_RESTART_MESSAGE: &'static str = "The streamer is restarting\nPlease wait...";

/// When the streamer is gone.
pub const SERVER_DISCONNECTED_MESSAGE: &'static str = "The streamer has disconnected.";

/// When the streamer announces something else than the stream.
pub const UNEXPECTED_PACKET_MESSAGE: &'static str = "Unexpected packet";

/// What there is to tell the user.
pub enum HudMessage {
    Initial,
    NetworkUnreachable,
    StreamStarting,
    ServerRestart,
    ServerDisconnected,
    UnexpectedPacket,
    /// A connection failed for the given reason.
    ConnectionError(String),
}

impl HudMessage {
    /// The words of the message.
    pub open spec fn spec_text(self) -> Seq<char> {
        match self {
            HudMessage::Initial => INITIAL_MESSAGE@,
            HudMessage::NetworkUnreachable => NETWORK_UNREACHABLE_MESSAGE@,
            HudMessage::StreamStarting => STREAM_STARTING_MESSAGE@,
            HudMessage::ServerRestart => SERVER_RESTART_MESSAGE@,
            HudMessage::ServerDisconnected => SERVER_DISCONNECTED_MESSAGE@,
            HudMessage::UnexpectedPacket => UNEXPECTED_PACKET_MESSAGE@,
            HudMessage::ConnectionError(reason) => "Connection error:\n"@ + reason@
                + "\nCheck the PC for more details"@,
        }
    }

    /// The words of the message.
    pub fn text(&self) -> (text: String)
        ensures
            text@ == self.spec_text(),
    {
        match self {
            HudMessage::Initial => INITIAL_MESSAGE.to_owned(),
            HudMessage::NetworkUnreachable => NETWORK_UNREACHABLE_MESSAGE.to_owned(),
            HudMessage::StreamStarting => STREAM_STARTING_MESSAGE.to_owned(),
            HudMessage::ServerRestart => SERVER_RESTART_MESSAGE.to_owned(),
            HudMessage::ServerDisconnected => SERVER_DISCONNECTED_MESSAGE.to_owned(),
            HudMessage::UnexpectedPacket => UNEXPECTED_PACKET_MESSAGE.to_owned(),
            HudMessage::ConnectionError(reason) => {
                let mut text = "Connection error:\n".to_owned();
                text.append(reason.as_str());
                text.append("\nCheck the PC for more details");
                text
            },
        }
    }
}

/// A message as it is shown, below what identifies the client.
pub open spec fn hud_text(
    version: Seq<char>,
    hostname: Seq<char>,
    ip: Seq<char>,
    message: Seq<char>,
) -> Seq<char> {
    "ALVR v"@ + version + "\nhostname: "@ + hostname + "\nIP: "@ + ip + "\n\n"@ + message
}

/// What is shown for a message to a client of this version, with this name and address.
pub fn set_hud_message(version: &str, hostname: &str, ip: &str, message: &str) -> (shown: String)
    ensures
        shown@ == hud_text(version@, hostname@, ip@, message@),
{
    let mut shown = "ALVR v".to_owned();
    shown.append(version);
    shown.append("\nhostname: ");
    shown.append(hostname);
    shown.append("\nIP: ");
    shown.append(ip);
    shown.append("\n\n");
    shown.append(message);
    shown
}

/// A failed connection is told with its reason, word for word, whatever the reason is.
pub proof fn law_reason_is_told(reason: String)
    ensures
        ({
            let text = HudMessage::ConnectionError(reason).spec_text();
            let before = "Connection error:\n"@;
            let behind = "\nCheck the PC for more details"@;
            let at = before.len() as int;
            &&& text.len() == before.len() + reason@.len() + behind.len()
            &&& text.take(at) == before
            &&& text.subrange(at, at + reason@.len()) == reason@
            &&& text.skip(at + reason@.len()) == behind
        }),
{
    let text = HudMessage::ConnectionError(reason).spec_text();
    let before = "Connection error:\n"@;
    let behind = "\nCheck the PC for more details"@;
    let at = before.len() as int;
    assert(text =~= before + reason@ + behind);
    assert(text.take(at) =~= before);
    assert(text.subrange(at, at + reason@.len()) =~= reason@);
    assert(text.skip(at + reason@.len()) =~= behind);
}

/// What is shown holds the version, the name and the address of the client and the message,
/// each whole and in its place.
pub proof fn law_all_is_shown(
    version: Seq<char>,
    hostname: Seq<char>,
    ip: Seq<char>,
    message: Seq<char>,
)
    ensures
        ({
            let shown = hud_text(version, hostname, ip, message);
            let at_version = "ALVR v"@.len() as int;
            let at_hostname = at_version + version.len() + "\nhostname: "@.len();
            let at_ip = at_hostname + hostname.len() + "\nIP: "@.len();
            let at_message = at_ip + ip.len() + "\n\n"@.len();
            &&& shown.len() == at_message + message.len()
            &&& shown.take(at_version) == "ALVR v"@
            &&& shown.subrange(at_version, at_version + version.len()) == version
            &&& shown.subrange(at_version + version.len(), at_hostname) == "\nhostname: "@
            &&& shown.subrange(at_hostname, at_hostname + hostname.len()) == hostname
            &&& shown.subrange(at_hostname + hostname.len(), at_ip) == "\nIP: "@
            &&& shown.subrange(at_ip, at_ip + ip.len()) == ip
            &&& shown.subrange(at_ip + ip.len(), at_message) == "\n\n"@
            &&& shown.skip(at_message) == message
        }),
{
    let shown = hud_text(version, hostname, ip, message);
    let at_version = "ALVR v"@.len() as int;
    let at_hostname = at_version + version.len() + "\nhostname: "@.len();
    let at_ip = at_hostname + hostname.len() + "\nIP: "@.len();
    let at_message = at_ip + ip.len() + "\n\n"@.len();
    assert(shown.take(at_version) =~= "ALVR v"@);
    assert(shown.subrange(at_version, at_version + version.len()) =~= version);
    assert(shown.subrange(at_version + version.len(), at_hostname) =~= "\nhostname: "@);
    assert(shown.subrange(at_hostname, at_hostname + hostname.len()) =~= hostname);
    assert(shown.subrange(at_hostname + hostname.len(), at_ip) =~= "\nIP: "@);
    assert(shown.subrange(at_ip, at_ip + ip.len()) =~= ip);
    assert(shown.subrange(at_ip + ip.len(), at_message) =~= "\n\n"@);
    assert(shown.skip(at_message) =~= message);
}

} // verus!
