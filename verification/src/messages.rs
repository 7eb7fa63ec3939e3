//! What passes between the event loop and the world around it: the commands
//! it is given, what the network reports, and what it asks to be done.
//!
//! Queries, requests, listeners, response channels and reply sinks are known
//! here by number. Each type comes with its view, in which strings and byte
//! vectors are sequences.

use libp2p::{Multiaddr, PeerId};
use vstd::prelude::*;

verus! {

/// `libp2p`'s `Multiaddr`, an address in the network. It is passed on as it
/// comes; nothing is said of what is in it.
#[verifier::external_type_specification]
#[verifier::external_body]
pub struct ExMultiaddr(Multiaddr);

/// `libp2p`'s `PeerId`, the name of a peer. It is passed on as it comes;
/// nothing is said of what is in it.
#[verifier::external_type_specification]
#[verifier::external_body]
pub struct ExPeerId(PeerId);

/// The protocol over which blobs are asked for and handed out.
pub const FILE_EXCHANGE_PROTOCOL: &'static str = "/file-exchange/1";

/// The agent version under which a node identifies itself.
pub const AGENT_VERSION: &'static str = "disca/v1";

/// A peer's request for a blob.
#[derive(Debug, Clone, PartialEq, Eq, Hash)]
pub struct FileRequest {
    pub path: String,
}

/// The answer to a [`FileRequest`]: the blob, or nothing.
#[derive(Debug, Clone, PartialEq, Eq, Hash)]
pub struct FileResponse {
    pub content: Option<Vec<u8>>,
}

/// Bytes that may be there, as a plain value.
pub open spec fn content_view(content: Option<Vec<u8>>) -> Option<Seq<u8>> {
    match content {
        Some(bytes) => Some(bytes@),
        None => None,
    }
}

/// What a caller asks of the event loop. `sender` is the reply sink that
/// waits for the answer.
#[derive(Debug, PartialEq, Eq)]
pub enum Command {
    AddFile { path: String, sender: u64 },
    RemoveFile { path: String, sender: u64 },
    GetFile { path: String, sender: u64 },
    AddPeer { addr: Multiaddr, sender: u64 },
    StartListening { sender: u64, addr: Multiaddr },
}

/// A [`Command`] as a plain value.
pub enum CommandView {
    AddFile { path: Seq<char>, sender: u64 },
    RemoveFile { path: Seq<char>, sender: u64 },
    GetFile { path: Seq<char>, sender: u64 },
    AddPeer { addr: Multiaddr, sender: u64 },
    StartListening { sender: u64, addr: Multiaddr },
}

impl View for Command {
    type V = CommandView;

    open spec fn view(&self) -> CommandView {
        match *self {
            Command::AddFile { path, sender } => CommandView::AddFile { path: path@, sender },
            Command::RemoveFile { path, sender } => CommandView::RemoveFile { path: path@, sender },
            Command::GetFile { path, sender } => CommandView::GetFile { path: path@, sender },
            Command::AddPeer { addr, sender } => CommandView::AddPeer { addr, sender },
            Command::StartListening { sender, addr } => CommandView::StartListening {
                sender,
                addr,
            },
        }
    }
}

/// What a reply sink is handed. Failures are told in the network's words.
#[derive(Debug, PartialEq, Eq)]
pub enum Reply {
    /// The answer to `AddFile`, `RemoveFile` and `AddPeer`.
    Done(Result<(), String>),
    /// The answer to `GetFile`: the blob, or nothing where no peer has it.
    File(Result<Option<Vec<u8>>, String>),
    /// The answer to `StartListening`: the address that was assigned.
    Listening(Result<Multiaddr, String>),
}

/// A [`Reply`] as a plain value.
pub enum ReplyView {
    Done(Result<(), Seq<char>>),
    File(Result<Option<Seq<u8>>, Seq<char>>),
    Listening(Result<Multiaddr, Seq<char>>),
}

impl View for Reply {
    type V = ReplyView;

    open spec fn view(&self) -> ReplyView {
        match *self {
            Reply::Done(Ok(())) => ReplyView::Done(Ok(())),
            Reply::Done(Err(why)) => ReplyView::Done(Err(why@)),
            Reply::File(Ok(content)) => ReplyView::File(Ok(content_view(content))),
            Reply::File(Err(why)) => ReplyView::File(Err(why@)),
            Reply::Listening(Ok(addr)) => ReplyView::Listening(Ok(addr)),
            Reply::Listening(Err(why)) => ReplyView::Listening(Err(why@)),
        }
    }
}

/// What the event loop asks to be done. A call into the network that hands
/// something back is answered with the [`Outcome`] of the same name.
#[derive(Debug, PartialEq, Eq)]
pub enum Effect {
    /// Advertise `key` in the provider index; answer with `ProvidingStarted`.
    StartProviding { key: Vec<u8>, sender: u64 },
    /// Retract the advertisement of `key`.
    StopProviding { key: Vec<u8> },
    /// Ask the provider index who has `key`; answer with `ProvidersAsked`.
    GetProviders { key: Vec<u8>, sender: u64 },
    /// Dial `addr`; answer with `Dialed`.
    Dial { addr: Multiaddr, sender: u64 },
    /// Listen on `addr`; answer with `ListeningStarted`.
    ListenOn { addr: Multiaddr, sender: u64 },
    /// Enter `peer` under `addr` into the routing table.
    AddAddress { peer: PeerId, addr: Multiaddr },
    /// Ask `peer` for the blob `path`; answer with `RequestSent`.
    SendRequest { peer: PeerId, path: String, sender: u64 },
    /// Answer a peer's request on its response channel.
    SendResponse { channel: u64, content: Option<Vec<u8>> },
    /// Hand `reply` to the reply sink `sender`, which is then used up.
    Deliver { sender: u64, reply: Reply },
    /// Drop the reply sink `sender` unanswered: another one took its place.
    Forget { sender: u64 },
    /// Leave the loop: no more commands will come.
    Stop,
    /// Leave the loop: a peer broke the protocol.
    Abort,
}

/// An [`Effect`] as a plain value.
pub enum EffectView {
    StartProviding { key: Seq<u8>, sender: u64 },
    StopProviding { key: Seq<u8> },
    GetProviders { key: Seq<u8>, sender: u64 },
    Dial { addr: Multiaddr, sender: u64 },
    ListenOn { addr: Multiaddr, sender: u64 },
    AddAddress { peer: PeerId, addr: Multiaddr },
    SendRequest { peer: PeerId, path: Seq<char>, sender: u64 },
    SendResponse { channel: u64, content: Option<Seq<u8>> },
    Deliver { sender: u64, reply: ReplyView },
    Forget { sender: u64 },
    Stop,
    Abort,
}

impl View for Effect {
    type V = EffectView;

    open spec fn view(&self) -> EffectView {
        match *self {
            Effect::StartProviding { key, sender } => EffectView::StartProviding {
                key: key@,
                sender,
            },
            Effect::StopProviding { key } => EffectView::StopProviding { key: key@ },
            Effect::GetProviders { key, sender } => EffectView::GetProviders { key: key@, sender },
            Effect::Dial { addr, sender } => EffectView::Dial { addr, sender },
            Effect::ListenOn { addr, sender } => EffectView::ListenOn { addr, sender },
            Effect::AddAddress { peer, addr } => EffectView::AddAddress { peer, addr },
            Effect::SendRequest { peer, path, sender } => EffectView::SendRequest {
                peer,
                path: path@,
                sender,
            },
            Effect::SendResponse { channel, content } => EffectView::SendResponse {
                channel,
                content: content_view(content),
            },
            Effect::Deliver { sender, reply } => EffectView::Deliver { sender, reply: reply@ },
            Effect::Forget { sender } => EffectView::Forget { sender },
            Effect::Stop => EffectView::Stop,
            Effect::Abort => EffectView::Abort,
        }
    }
}

/// The effects of a vector as plain values.
pub open spec fn effect_views(effects: Seq<Effect>) -> Seq<EffectView> {
    Seq::new(effects.len(), |i: int| effects[i]@)
}

/// What came of a call into the network that an [`Effect`] asked for.
#[derive(Debug, PartialEq, Eq)]
pub enum Outcome {
    /// The query that advertises the key, or why none was started.
    ProvidingStarted { sender: u64, started: Result<u64, String> },
    /// The query that looks for providers.
    ProvidersAsked { sender: u64, query: u64 },
    /// Whether the dial could be started.
    Dialed { sender: u64, dialed: Result<(), String> },
    /// The listener that was set up, or why none was.
    ListeningStarted { sender: u64, started: Result<u64, String> },
    /// The request that went out to the provider.
    RequestSent { sender: u64, request: u64 },
}

/// An [`Outcome`] as a plain value.
pub enum OutcomeView {
    ProvidingStarted { sender: u64, started: Result<u64, Seq<char>> },
    ProvidersAsked { sender: u64, query: u64 },
    Dialed { sender: u64, dialed: Result<(), Seq<char>> },
    ListeningStarted { sender: u64, started: Result<u64, Seq<char>> },
    RequestSent { sender: u64, request: u64 },
}

impl View for Outcome {
    type V = OutcomeView;

    open spec fn view(&self) -> OutcomeView {
        match *self {
            Outcome::ProvidingStarted { sender, started } => OutcomeView::ProvidingStarted {
                sender,
                started: match started {
                    Ok(query) => Ok(query),
                    Err(why) => Err(why@),
                },
            },
            Outcome::ProvidersAsked { sender, query } => OutcomeView::ProvidersAsked {
                sender,
                query,
            },
            Outcome::Dialed { sender, dialed } => OutcomeView::Dialed {
                sender,
                dialed: match dialed {
                    Ok(()) => Ok(()),
                    Err(why) => Err(why@),
                },
            },
            Outcome::ListeningStarted { sender, started } => OutcomeView::ListeningStarted {
                sender,
                started: match started {
                    Ok(listener) => Ok(listener),
                    Err(why) => Err(why@),
                },
            },
            Outcome::RequestSent { sender, request } => OutcomeView::RequestSent {
                sender,
                request,
            },
        }
    }
}

/// What a query for providers found.
#[derive(Debug, PartialEq, Eq)]
pub enum Providers {
    /// Peers that advertise `key`, in the order in which the network's set
    /// of them was walked: an order that nothing is to be read into.
    Found { key: Vec<u8>, providers: Vec<PeerId> },
    /// The query ran out without a further record.
    Finished,
}

/// What the network reports.
#[derive(Debug, PartialEq, Eq)]
#[allow(inconsistent_fields)]
pub enum Event {
    /// A listener was assigned an address.
    NewListenAddr { listener_id: u64, address: Multiaddr },
    /// A peer told who it is and where it listens.
    IdentifyReceived { peer_id: PeerId, listen_addrs: Vec<Multiaddr> },
    /// The query that advertises a key went on.
    StartProviding { id: u64, result: Result<(), String> },
    /// The query that looks for providers went on.
    GetProviders { id: u64, result: Result<Providers, String> },
    /// A peer asks for a blob.
    Request { request: FileRequest, channel: u64 },
    /// A peer answered a request of ours.
    Response { request_id: u64, response: FileResponse },
    /// Anything else.
    Other,
}

/// A [`Providers`] as a plain value.
pub enum ProvidersView {
    Found { key: Seq<u8>, providers: Seq<PeerId> },
    Finished,
}

/// An [`Event`] as a plain value.
#[allow(inconsistent_fields)]
pub enum EventView {
    NewListenAddr { listener_id: u64, address: Multiaddr },
    IdentifyReceived { peer_id: PeerId, listen_addrs: Seq<Multiaddr> },
    StartProviding { id: u64, result: Result<(), Seq<char>> },
    GetProviders { id: u64, result: Result<ProvidersView, Seq<char>> },
    Request { path: Seq<char>, channel: u64 },
    Response { request_id: u64, content: Option<Seq<u8>> },
    Other,
}

impl View for Event {
    type V = EventView;

    open spec fn view(&self) -> EventView {
        match *self {
            Event::NewListenAddr { listener_id, address } => EventView::NewListenAddr {
                listener_id,
                address,
            },
            Event::IdentifyReceived { peer_id, listen_addrs } => EventView::IdentifyReceived {
                peer_id,
                listen_addrs: listen_addrs@,
            },
            Event::StartProviding { id, result } => EventView::StartProviding {
                id,
                result: match result {
                    Ok(()) => Ok(()),
                    Err(why) => Err(why@),
                },
            },
            Event::GetProviders { id, result } => EventView::GetProviders {
                id,
                result: match result {
                    Ok(Providers::Found { key, providers }) => Ok(
                        ProvidersView::Found { key: key@, providers: providers@ },
                    ),
                    Ok(Providers::Finished) => Ok(ProvidersView::Finished),
                    Err(why) => Err(why@),
                },
            },
            Event::Request { request, channel } => EventView::Request {
                path: request.path@,
                channel,
            },
            Event::Response { request_id, response } => EventView::Response {
                request_id,
                content: content_view(response.content),
            },
            Event::Other => EventView::Other,
        }
    }
}

} // verus!
