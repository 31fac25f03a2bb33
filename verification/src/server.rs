//! What the WebSocket server decides: where it listens, whom it accepts, and what
//! becomes of the frames that come in.
use vstd::prelude::*;
use crate::backend::{bump, next_number};
use crate::config::Config;
use crate::session::OutFrame;
use crate::text::same_text;

verus! {

/// The address that the server listens on: without one it is every address.
pub fn bind_host(cfg: &Config) -> (r: String)
    ensures
        r@ == (if cfg@.address.len() == 0 {
            "0.0.0.0"@
        } else {
            cfg@.address
        }),
{
    proof {
        reveal_strlit("");
        assert(""@ =~= Seq::<char>::empty());
        assert(cfg@.address.len() == 0 ==> cfg@.address =~= ""@);
    }
    if same_text(cfg.address.as_str(), "") {
        "0.0.0.0".to_owned()
    } else {
        cfg.address.as_str().to_owned()
    }
}

/// Whether the server answers to a path: any path where its own is the root, else its
/// own.
pub open spec fn serves_path(url_path: Seq<char>, path: Seq<char>) -> bool {
    url_path == "/"@ || path == url_path
}

/// Whether a handshake for a path is accepted.
pub fn accepts_path(cfg: &Config, path: &str) -> (r: bool)
    ensures
        r == serves_path(cfg@.url_path, path@),
{
    same_text(cfg.url_path.as_str(), "/") || same_text(path, cfg.url_path.as_str())
}

/// Whether the address is bound again, after a pause, where binding it failed: where the
/// pause is one nanosecond or more, to the nearest nanosecond.
pub fn retries(cfg: &Config) -> (r: bool)
    ensures
        r == cfg@.retry_startup_delay.half_billionth(),
{
    cfg.retry_startup_delay.is_half_billionth()
}

/// Whether clients are pinged.
pub fn pings(cfg: &Config) -> (r: bool)
    ensures
        r == cfg@.websocket_ping_interval.above_zero(),
{
    cfg.websocket_ping_interval.is_above_zero()
}

/// Whether there is a pause after each frame that is sent.
pub fn pauses(cfg: &Config) -> (r: bool)
    ensures
        r == cfg@.delay_between_messages.above_zero(),
{
    cfg.delay_between_messages.is_above_zero()
}

/// A frame that came in.
#[derive(Debug)]
pub enum InFrame {
    Text(String),
    Binary(Vec<u8>),
    Ping(Vec<u8>),
    /// A pong, or a raw frame.
    Other,
    Close,
    /// The connection is broken.
    Broken,
}

/// What becomes of a frame that came in.
#[derive(Debug)]
pub enum Inbound {
    /// An operation in JSON.
    HandleText(String),
    /// An operation in CBOR.
    HandleBinary(Vec<u8>),
    /// A frame is sent back.
    Reply(OutFrame),
    /// Nothing.
    Ignore,
    /// The session ends.
    Stop,
}

/// Routes a frame that came in.
pub fn route(frame: InFrame) -> (r: Inbound)
    ensures
        match frame {
            InFrame::Text(s) => r == Inbound::HandleText(s),
            InFrame::Binary(b) => r == Inbound::HandleBinary(b),
            InFrame::Ping(b) => r == Inbound::Reply(OutFrame::Pong(b)),
            InFrame::Other => r == Inbound::Ignore,
            InFrame::Close => r == Inbound::Stop,
            InFrame::Broken => r == Inbound::Stop,
        },
{
    match frame {
        InFrame::Text(s) => Inbound::HandleText(s),
        InFrame::Binary(b) => Inbound::HandleBinary(b),
        InFrame::Ping(b) => Inbound::Reply(OutFrame::Pong(b)),
        InFrame::Other => Inbound::Ignore,
        InFrame::Close => Inbound::Stop,
        InFrame::Broken => Inbound::Stop,
    }
}

/// The clients of a server: the number that the next one gets, and how many are
/// connected.
#[derive(Debug, Clone, Copy, PartialEq, Eq, Structural)]
pub struct Clients {
    pub seq: u64,
    pub connected: u64,
}

impl Clients {
    /// No clients.
    pub fn new() -> (r: Self)
        ensures
            r == (Clients { seq: 0, connected: 0 }),
    {
        Clients { seq: 0, connected: 0 }
    }

    /// The number of a new client.
    pub fn next_id(&mut self) -> (r: u64)
        ensures
            r == old(self).seq,
            *final(self) == (Clients { seq: next_number(old(self).seq), ..*old(self) }),
    {
        let id = self.seq;
        self.seq = bump(id);
        id
    }

    /// A client has connected: how many there are now.
    pub fn connect(&mut self) -> (r: u64)
        requires
            old(self).connected < u64::MAX,
        ensures
            r == old(self).connected + 1,
            *final(self) == (Clients { connected: r, ..*old(self) }),
    {
        self.connected = self.connected + 1;
        self.connected
    }

    /// A client has left: how many there are now.
    pub fn disconnect(&mut self) -> (r: u64)
        requires
            old(self).connected > 0,
        ensures
            r == old(self).connected - 1,
            *final(self) == (Clients { connected: r, ..*old(self) }),
    {
        self.connected = self.connected - 1;
        self.connected
    }

    /// Number of currently connected clients.
    pub fn connected_clients(&self) -> (r: u64)
        ensures
            r == self.connected,
    {
        self.connected
    }
}

/// A server answers to its own path, at the root to every path, and elsewhere to no second
/// one.
pub proof fn own_path_is_served(url_path: Seq<char>, path: Seq<char>, other: Seq<char>)
    ensures
        serves_path(url_path, url_path),
        serves_path("/"@, path),
        path != other && serves_path(url_path, path) && serves_path(url_path, other) ==> url_path
            == "/"@,
{
}

} // verus!
