//! The TLS side of the sonar: the names of its certificate files and the frames
//! that a server and its clients exchange.

use vstd::prelude::*;
use crate::run::DataEvent;

verus! {

/// A certificate file: the authority's or the entity's, private key or public
/// certificate.
#[derive(Debug, Clone, Copy, PartialEq, Eq, Structural)]
pub enum CertFileKind {
    AuthorityPrivate,
    AuthorityPublic,
    EntityPrivate,
    EntityPublic,
}

/// The file name of a certificate file of the certificate named `name`.
pub open spec fn cert_file_name(kind: CertFileKind, name: Seq<char>) -> Seq<char> {
    match kind {
        CertFileKind::AuthorityPrivate => "authority_"@ + name + ".key.pem"@,
        CertFileKind::AuthorityPublic => "authority_"@ + name + ".pem"@,
        CertFileKind::EntityPrivate => "entity_"@ + name + ".key.pem"@,
        CertFileKind::EntityPublic => "entity_"@ + name + ".pem"@,
    }
}

/// Whether `c` is an ASCII letter.
pub open spec fn ascii_letter(c: char) -> bool {
    ('a' <= c && c <= 'z') || ('A' <= c && c <= 'Z')
}

/// Whether `name` holds no `/`, backslash or `:`: no platform reads a separator or
/// a prefix in it, so it is a single component.
pub open spec fn single_component(name: Seq<char>) -> bool {
    !name.contains('/') && !name.contains('\\') && !name.contains(':')
}

/// Whether `s` ends with `t`.
pub open spec fn ends_with(s: Seq<char>, t: Seq<char>) -> bool {
    s.len() >= t.len() && s.subrange(s.len() - t.len(), s.len() as int) == t
}

/// Calls `std::path::Path::join` and reads the result as text. Trusted for this
/// alone: a name that is a single component (no separator, no prefix) and begins
/// with two ASCII letters (so it is neither `.`, `..`, a root nor a drive) is
/// relative on every platform and is appended whole, so the joined path ends with
/// it; what separates it from `dir` depends on the platform.
#[verifier::external_body]
pub(crate) fn path_join(dir: &str, name: &str) -> (r: String)
    ensures
        name@.len() >= 2 && ascii_letter(name@[0]) && ascii_letter(name@[1]) && single_component(
            name@,
        ) ==> ends_with(r@, name@),
{
    std::path::Path::new(dir).join(name).to_string_lossy().into_owned()
}

/// The characters of the fixed parts of certificate file names are no separators.
proof fn lemma_cert_file_name_single(kind: CertFileKind, name: Seq<char>)
    requires
        single_component(name),
    ensures
        single_component(cert_file_name(kind, name)),
{
    reveal_strlit("authority_");
    reveal_strlit("entity_");
    reveal_strlit(".key.pem");
    reveal_strlit(".pem");
    let f = cert_file_name(kind, name);
    let (pre, suf) = match kind {
        CertFileKind::AuthorityPrivate => ("authority_"@, ".key.pem"@),
        CertFileKind::AuthorityPublic => ("authority_"@, ".pem"@),
        CertFileKind::EntityPrivate => ("entity_"@, ".key.pem"@),
        CertFileKind::EntityPublic => ("entity_"@, ".pem"@),
    };
    assert(f == pre + name + suf);
    assert forall|i: int| 0 <= i < f.len() implies f[i] != '/' && f[i] != '\\' && f[i] != ':' by {
        if i < pre.len() {
            assert(f[i] == pre[i]);
        } else if i < pre.len() + name.len() {
            assert(f[i] == name[i - pre.len()]);
            assert(name.contains(name[i - pre.len()]));
        } else {
            assert(f[i] == suf[i - pre.len() - name.len()]);
        }
    }
}

impl CertFileKind {
    /// The file name of this file of the certificate named `name`.
    pub fn file_name(&self, name: &str) -> (r: String)
        ensures
            r@ == cert_file_name(*self, name@),
    {
        let (prefix, suffix) = match self {
            CertFileKind::AuthorityPrivate => ("authority_", ".key.pem"),
            CertFileKind::AuthorityPublic => ("authority_", ".pem"),
            CertFileKind::EntityPrivate => ("entity_", ".key.pem"),
            CertFileKind::EntityPublic => ("entity_", ".pem"),
        };
        let mut s = prefix.to_owned();
        s.append(name);
        s.append(suffix);
        s
    }

    /// The path of this file of the certificate named `name` in the directory
    /// `dir`: where the name is a single component, it ends with the file's name.
    pub fn filepath(&self, dir: &str, name: &str) -> (r: String)
        ensures
            single_component(name@) ==> ends_with(r@, cert_file_name(*self, name@)),
    {
        let file = self.file_name(name);
        proof {
            reveal_strlit("authority_");
            reveal_strlit("entity_");
            if single_component(name@) {
                lemma_cert_file_name_single(*self, name@);
            }
        }
        assert(ascii_letter(file@[0]) && ascii_letter(file@[1]));
        path_join(dir, file.as_str())
    }
}

/// The certificate files of a certificate.
#[derive(Debug, Clone, PartialEq, Eq)]
pub struct CertFiles {
    pub authority_private: String,
    pub authority_public: String,
    pub entity_private: String,
    pub entity_public: String,
}

impl CertFiles {
    /// The files of the certificate named `cert_name` in the directory `certs_dir`;
    /// where the name is a single component, each path ends with its file's name.
    pub fn new(certs_dir: &str, cert_name: &str) -> (r: Self)
        ensures
            single_component(cert_name@) ==> {
                &&& ends_with(r.authority_private@, cert_file_name(CertFileKind::AuthorityPrivate, cert_name@))
                &&& ends_with(r.authority_public@, cert_file_name(CertFileKind::AuthorityPublic, cert_name@))
                &&& ends_with(r.entity_private@, cert_file_name(CertFileKind::EntityPrivate, cert_name@))
                &&& ends_with(r.entity_public@, cert_file_name(CertFileKind::EntityPublic, cert_name@))
            },
    {
        CertFiles {
            authority_private: CertFileKind::AuthorityPrivate.filepath(certs_dir, cert_name),
            authority_public: CertFileKind::AuthorityPublic.filepath(certs_dir, cert_name),
            entity_private: CertFileKind::EntityPrivate.filepath(certs_dir, cert_name),
            entity_public: CertFileKind::EntityPublic.filepath(certs_dir, cert_name),
        }
    }
}

/// What a client sends its server.
#[derive(Debug, Clone, PartialEq, Eq)]
pub enum ClientToServer {
    Close,
}

/// What a server sends its clients.
#[derive(Debug, Clone, PartialEq, Eq)]
pub enum ServerToClient {
    Close,
    Event(DataEvent),
}


/// What a client's link to its server meets next: the run is cancelled, a frame
/// arrives, a frame cannot be read, or the server ends the stream.
#[derive(Debug)]
pub enum ClientInput {
    Cancelled,
    Frame(ServerToClient),
    FrameError,
    Ended,
}

/// What a client's link does next.
#[derive(Debug, PartialEq, Eq)]
pub enum ClientAction {
    /// Sends `Close`, waits a while for the server's `Close`, and stops.
    CloseThenStop,
    /// Hands the event on and goes on.
    Forward(DataEvent),
    /// Answers the server's `Close` with `Close`, and stops.
    ReplyCloseThenStop,
    /// Stops.
    Stop,
}

/// What a client's link does with what it meets.
pub fn client_step(input: ClientInput) -> (r: ClientAction)
    ensures
        match input {
            ClientInput::Cancelled => r == ClientAction::CloseThenStop,
            ClientInput::Frame(ServerToClient::Event(e)) => r == ClientAction::Forward(e),
            ClientInput::Frame(ServerToClient::Close) => r == ClientAction::ReplyCloseThenStop,
            ClientInput::FrameError => r == ClientAction::Stop,
            ClientInput::Ended => r == ClientAction::Stop,
        },
{
    match input {
        ClientInput::Cancelled => ClientAction::CloseThenStop,
        ClientInput::Frame(ServerToClient::Event(e)) => ClientAction::Forward(e),
        ClientInput::Frame(ServerToClient::Close) => ClientAction::ReplyCloseThenStop,
        ClientInput::FrameError => ClientAction::Stop,
        ClientInput::Ended => ClientAction::Stop,
    }
}

/// What a server's link to one client meets next: the run is cancelled, the client
/// sends `Close`, a frame cannot be read, the client ends the stream, an event is
/// to be sent, or events were lost.
#[derive(Debug)]
pub enum ServerInput {
    Cancelled,
    ClientClose,
    FrameError,
    Ended,
    Event(DataEvent),
    EventsLost,
}

/// What a server's link to one client does next.
#[derive(Debug, PartialEq, Eq)]
pub enum ServerAction {
    /// Sends `Close`, waits a while for the client's `Close`, and stops.
    CloseThenStop,
    /// Answers the client's `Close` with `Close`, and stops.
    ReplyCloseThenStop,
    /// Stops.
    Stop,
    /// Sends the frame and goes on, unless sending fails.
    Send(ServerToClient),
}

/// What a server's link to one client does with what it meets.
pub fn server_step(input: ServerInput) -> (r: ServerAction)
    ensures
        match input {
            ServerInput::Cancelled => r == ServerAction::CloseThenStop,
            ServerInput::ClientClose => r == ServerAction::ReplyCloseThenStop,
            ServerInput::FrameError => r == ServerAction::Stop,
            ServerInput::Ended => r == ServerAction::Stop,
            ServerInput::Event(e) => r == ServerAction::Send(ServerToClient::Event(e)),
            ServerInput::EventsLost => r == ServerAction::CloseThenStop,
        },
{
    match input {
        ServerInput::Cancelled => ServerAction::CloseThenStop,
        ServerInput::ClientClose => ServerAction::ReplyCloseThenStop,
        ServerInput::FrameError => ServerAction::Stop,
        ServerInput::Ended => ServerAction::Stop,
        ServerInput::Event(e) => ServerAction::Send(ServerToClient::Event(e)),
        ServerInput::EventsLost => ServerAction::CloseThenStop,
    }
}

/// While a client waits for its server's `Close`: whether what came ends the wait.
/// Any frame but an event ends it, and so does an error or the end of the stream.
pub fn client_close_wait_ends(frame: &Option<Result<ServerToClient, ()>>) -> (r: bool)
    ensures
        r == !(*frame matches Some(Ok(ServerToClient::Event(_)))),
{
    match frame {
        Some(Ok(ServerToClient::Event(_))) => false,
        _ => true,
    }
}

} // verus!
