//! The book-keeping of the peer-to-peer file exchange: which reply sink
//! waits for which query, request or listener, and what each command and
//! each report of the network leads to.
//!
//! The event loop here owns no socket. It is told what happened and says
//! what is to be done; whoever drives it makes the calls into the network.

use crate::messages::{
    content_view, effect_views, Command, CommandView, Effect, EffectView, Event, EventView,
    FileRequest, FileResponse, Outcome, OutcomeView, Providers, ProvidersView, Reply, ReplyView,
};
use crate::pending::{table_entries, table_insert, table_new, table_remove, Pending};
use crate::FileProvider;
use vstd::prelude::*;
use vstd::utf8::{decode_utf8, encode_utf8, encode_utf8_decode_utf8, valid_utf8};

verus! {

/// The error of `String::from_utf8`. Nothing is said of what is in it.
#[verifier::external_type_specification]
#[verifier::external_body]
pub struct ExFromUtf8Error(std::string::FromUtf8Error);

/// `String::from_utf8`: succeeds exactly on well-formed UTF-8, and the string
/// it gives then consists of the very bytes it was given.
pub assume_specification[ String::from_utf8 ](bytes: Vec<u8>) -> (decoded: Result<
    String,
    std::string::FromUtf8Error,
>)
    ensures
        decoded is Ok <==> valid_utf8(bytes@),
        decoded matches Ok(text) ==> encode_utf8(text@) == bytes@,
;

/// The four tables of the event loop as plain values: under the number of
/// each query, request or listener that is still under way, the reply sink
/// that waits for it.
pub struct Tables {
    /// Queries that advertise a key.
    pub start_providing: Map<u64, u64>,
    /// Queries that look for the providers of a key.
    pub get_providers: Map<u64, u64>,
    /// Requests for a blob that went out to a provider.
    pub get_file: Map<u64, u64>,
    /// Listeners that have no address yet.
    pub start_listening: Map<u64, u64>,
}

/// What entering a sink under `id` does to the sink that waited there: it is
/// dropped unanswered.
pub open spec fn displaced(table: Map<u64, u64>, id: u64) -> Seq<EffectView> {
    if table.contains_key(id) {
        seq![EffectView::Forget { sender: table[id] }]
    } else {
        seq![]
    }
}

/// What the end of the exchange under `id` leads to: the sink that waited
/// there is handed `reply`; where none waited, nothing happens.
pub open spec fn answered(table: Map<u64, u64>, id: u64, reply: ReplyView) -> Seq<EffectView> {
    if table.contains_key(id) {
        seq![EffectView::Deliver { sender: table[id], reply }]
    } else {
        seq![]
    }
}

/// What is done with the providers that a query found, on behalf of the sink
/// `sender`: the first of them is asked for the blob that the key names; with
/// none to ask the answer is "nothing"; a key that is no UTF-8 ends the loop.
pub open spec fn fetched(key: Seq<u8>, providers: Seq<libp2p::PeerId>, sender: u64) -> Seq<
    EffectView,
> {
    if !valid_utf8(key) {
        seq![EffectView::Abort]
    } else if providers.len() > 0 {
        seq![EffectView::SendRequest { peer: providers[0], path: decode_utf8(key), sender }]
    } else {
        seq![EffectView::Deliver { sender, reply: ReplyView::File(Ok(None)) }]
    }
}

/// What a peer's request leads to: `served`, which is what the file provider
/// has for the blob, goes back on the request's channel.
pub open spec fn responded(channel: u64, served: Option<Seq<u8>>) -> Seq<EffectView> {
    seq![EffectView::SendResponse { channel, content: served }]
}

impl Tables {
    /// No exchange is under way.
    pub open spec fn empty() -> Tables {
        Tables {
            start_providing: Map::empty(),
            get_providers: Map::empty(),
            get_file: Map::empty(),
            start_listening: Map::empty(),
        }
    }

    /// What a command leads to. `None` stands for the end of the commands.
    /// The tables stay as they are: a sink is entered when the network has
    /// named the query that it waits for.
    pub open spec fn commanded(command: Option<CommandView>) -> Seq<EffectView> {
        match command {
            Some(CommandView::AddFile { path, sender }) => seq![
                EffectView::StartProviding { key: encode_utf8(path), sender },
            ],
            Some(CommandView::RemoveFile { path, sender }) => seq![
                EffectView::StopProviding { key: encode_utf8(path) },
                EffectView::Deliver { sender, reply: ReplyView::Done(Ok(())) },
            ],
            Some(CommandView::GetFile { path, sender }) => seq![
                EffectView::GetProviders { key: encode_utf8(path), sender },
            ],
            Some(CommandView::AddPeer { addr, sender }) => seq![EffectView::Dial { addr, sender }],
            Some(CommandView::StartListening { sender, addr }) => seq![
                EffectView::ListenOn { addr, sender },
            ],
            None => seq![EffectView::Stop],
        }
    }

    /// What the outcome of a call into the network leads to: the sink is
    /// entered under the number that the network gave, or told at once why
    /// there is none.
    pub open spec fn resolved(self, outcome: OutcomeView) -> (Tables, Seq<EffectView>) {
        match outcome {
            OutcomeView::ProvidingStarted { sender, started: Ok(query) } => (
                Tables { start_providing: self.start_providing.insert(query, sender), ..self },
                displaced(self.start_providing, query),
            ),
            OutcomeView::ProvidingStarted { sender, started: Err(why) } => (
                self,
                seq![EffectView::Deliver { sender, reply: ReplyView::Done(Err(why)) }],
            ),
            OutcomeView::ProvidersAsked { sender, query } => (
                Tables { get_providers: self.get_providers.insert(query, sender), ..self },
                displaced(self.get_providers, query),
            ),
            OutcomeView::Dialed { sender, dialed } => (
                self,
                seq![EffectView::Deliver { sender, reply: ReplyView::Done(dialed) }],
            ),
            OutcomeView::ListeningStarted { sender, started: Ok(listener) } => (
                Tables { start_listening: self.start_listening.insert(listener, sender), ..self },
                displaced(self.start_listening, listener),
            ),
            OutcomeView::ListeningStarted { sender, started: Err(why) } => (
                self,
                seq![EffectView::Deliver { sender, reply: ReplyView::Listening(Err(why)) }],
            ),
            OutcomeView::RequestSent { sender, request } => (
                Tables { get_file: self.get_file.insert(request, sender), ..self },
                displaced(self.get_file, request),
            ),
        }
    }

    /// What a report of the network leads to. `served` is what the file
    /// provider has for the blob that a peer asks for; it matters for a
    /// `Request` only.
    pub open spec fn progressed(self, event: EventView, served: Option<Seq<u8>>) -> (
        Tables,
        Seq<EffectView>,
    ) {
        match event {
            EventView::NewListenAddr { listener_id, address } => (
                Tables { start_listening: self.start_listening.remove(listener_id), ..self },
                answered(self.start_listening, listener_id, ReplyView::Listening(Ok(address))),
            ),
            EventView::IdentifyReceived { peer_id, listen_addrs } => (
                self,
                if listen_addrs.len() > 0 {
                    seq![EffectView::AddAddress { peer: peer_id, addr: listen_addrs[0] }]
                } else {
                    seq![]
                },
            ),
            EventView::StartProviding { id, result } => (
                Tables { start_providing: self.start_providing.remove(id), ..self },
                answered(self.start_providing, id, ReplyView::Done(result)),
            ),
            EventView::GetProviders { id, result } => (
                Tables { get_providers: self.get_providers.remove(id), ..self },
                if self.get_providers.contains_key(id) {
                    match result {
                        Ok(ProvidersView::Found { key, providers }) => fetched(
                            key,
                            providers,
                            self.get_providers[id],
                        ),
                        Ok(ProvidersView::Finished) => seq![
                            EffectView::Deliver {
                                sender: self.get_providers[id],
                                reply: ReplyView::File(Ok(None)),
                            },
                        ],
                        Err(why) => seq![
                            EffectView::Deliver {
                                sender: self.get_providers[id],
                                reply: ReplyView::File(Err(why)),
                            },
                        ],
                    }
                } else {
                    seq![]
                },
            ),
            EventView::Request { path, channel } => (self, responded(channel, served)),
            EventView::Response { request_id, content } => (
                Tables { get_file: self.get_file.remove(request_id), ..self },
                answered(self.get_file, request_id, ReplyView::File(Ok(content))),
            ),
            EventView::Other => (self, seq![]),
        }
    }
}

/// Whether `sender` waits somewhere in `table`.
pub open spec fn sink_in(table: Map<u64, u64>, sender: u64) -> bool {
    exists|id: u64| #[trigger] table.contains_key(id) && table[id] == sender
}

/// No sink waits under two numbers of `table`.
pub open spec fn one_to_one(table: Map<u64, u64>) -> bool {
    forall|a: u64, b: u64|
        #![trigger table[a], table[b]]
        table.contains_key(a) && table.contains_key(b) && a != b ==> table[a] != table[b]
}

/// No sink waits in both tables.
pub open spec fn apart(one: Map<u64, u64>, other: Map<u64, u64>) -> bool {
    forall|sender: u64| !(#[trigger] sink_in(one, sender) && #[trigger] sink_in(other, sender))
}

/// The sink that an effect uses up: the one that is handed its reply, or
/// dropped.
pub open spec fn settles(effect: EffectView) -> Option<u64> {
    match effect {
        EffectView::Deliver { sender, .. } => Some(sender),
        EffectView::Forget { sender } => Some(sender),
        _ => None,
    }
}

/// The sink on whose behalf an effect asks something of the network, and
/// which comes back with the outcome.
pub open spec fn carries(effect: EffectView) -> Option<u64> {
    match effect {
        EffectView::StartProviding { sender, .. } => Some(sender),
        EffectView::GetProviders { sender, .. } => Some(sender),
        EffectView::Dial { sender, .. } => Some(sender),
        EffectView::ListenOn { sender, .. } => Some(sender),
        EffectView::SendRequest { sender, .. } => Some(sender),
        _ => None,
    }
}

/// The sink of a command.
pub open spec fn sender_of(command: CommandView) -> u64 {
    match command {
        CommandView::AddFile { sender, .. } => sender,
        CommandView::RemoveFile { sender, .. } => sender,
        CommandView::GetFile { sender, .. } => sender,
        CommandView::AddPeer { sender, .. } => sender,
        CommandView::StartListening { sender, .. } => sender,
    }
}

/// The sink that comes back with an outcome.
pub open spec fn sink_of(outcome: OutcomeView) -> u64 {
    match outcome {
        OutcomeView::ProvidingStarted { sender, .. } => sender,
        OutcomeView::ProvidersAsked { sender, .. } => sender,
        OutcomeView::Dialed { sender, .. } => sender,
        OutcomeView::ListeningStarted { sender, .. } => sender,
        OutcomeView::RequestSent { sender, .. } => sender,
    }
}

proof fn lemma_entered_apart(table: Map<u64, u64>, id: u64, sender: u64, other: Map<u64, u64>)
    requires
        one_to_one(table),
        !sink_in(table, sender),
        !sink_in(other, sender),
        apart(table, other) || apart(other, table),
    ensures
        apart(table.insert(id, sender), other),
        apart(other, table.insert(id, sender)),
{
    lemma_entered(table, id, sender);
    let after = table.insert(id, sender);
    assert forall|sink: u64| !(#[trigger] sink_in(after, sink) && #[trigger] sink_in(
        other,
        sink,
    )) by {
        if sink_in(after, sink) && sink_in(other, sink) {
            assert(sink_in(table, sink));
        }
    }
}

proof fn lemma_taken_out_apart(table: Map<u64, u64>, id: u64, other: Map<u64, u64>)
    requires
        one_to_one(table),
        apart(table, other) || apart(other, table),
    ensures
        apart(table.remove(id), other),
        apart(other, table.remove(id)),
{
    lemma_taken_out(table, id);
    let after = table.remove(id);
    assert forall|sink: u64| !(#[trigger] sink_in(after, sink) && #[trigger] sink_in(
        other,
        sink,
    )) by {
        if sink_in(after, sink) && sink_in(other, sink) {
            assert(sink_in(table, sink));
        }
    }
}

proof fn lemma_entered(table: Map<u64, u64>, id: u64, sender: u64)
    requires
        one_to_one(table),
        !sink_in(table, sender),
    ensures
        one_to_one(table.insert(id, sender)),
        sink_in(table.insert(id, sender), sender),
        forall|other: u64|
            sink_in(table.insert(id, sender), other) ==> other == sender || sink_in(table, other),
        table.contains_key(id) ==> !sink_in(table.insert(id, sender), table[id]),
{
    let after = table.insert(id, sender);
    assert(after.contains_key(id));
    assert forall|a: u64, b: u64|
        #![trigger after[a], after[b]]
        after.contains_key(a) && after.contains_key(b) && a != b implies after[a] != after[b] by {
        if a != id {
            assert(table.contains_key(a));
        }
        if b != id {
            assert(table.contains_key(b));
        }
    }
    assert forall|other: u64| sink_in(after, other) implies other == sender || sink_in(
        table,
        other,
    ) by {
        let at = choose|at: u64| #[trigger] after.contains_key(at) && after[at] == other;
        if at != id {
            assert(table.contains_key(at));
        }
    }
    if table.contains_key(id) && sink_in(after, table[id]) {
        let at = choose|at: u64| #[trigger] after.contains_key(at) && after[at] == table[id];
        assert(table.contains_key(at));
    }
}

proof fn lemma_taken_out(table: Map<u64, u64>, id: u64)
    requires
        one_to_one(table),
    ensures
        one_to_one(table.remove(id)),
        forall|other: u64| sink_in(table.remove(id), other) ==> sink_in(table, other),
        table.contains_key(id) ==> sink_in(table, table[id]) && !sink_in(
            table.remove(id),
            table[id],
        ),
{
    let after = table.remove(id);
    assert forall|other: u64| sink_in(after, other) implies sink_in(table, other) by {
        let at = choose|at: u64| #[trigger] after.contains_key(at) && after[at] == other;
        assert(table.contains_key(at));
    }
    if table.contains_key(id) && sink_in(after, table[id]) {
        let at = choose|at: u64| #[trigger] after.contains_key(at) && after[at] == table[id];
        assert(table.contains_key(at));
    }
}

impl Tables {
    /// Whether the sink `sender` waits for something.
    pub open spec fn waits(self, sender: u64) -> bool {
        ||| sink_in(self.start_providing, sender)
        ||| sink_in(self.get_providers, sender)
        ||| sink_in(self.get_file, sender)
        ||| sink_in(self.start_listening, sender)
    }

    /// Every sink waits for one thing at most.
    pub open spec fn single(self) -> bool {
        &&& one_to_one(self.start_providing)
        &&& one_to_one(self.get_providers)
        &&& one_to_one(self.get_file)
        &&& one_to_one(self.start_listening)
        &&& apart(self.start_providing, self.get_providers)
        &&& apart(self.start_providing, self.get_file)
        &&& apart(self.start_providing, self.start_listening)
        &&& apart(self.get_providers, self.get_file)
        &&& apart(self.get_providers, self.start_listening)
        &&& apart(self.get_file, self.start_listening)
    }

    /// With nothing under way no sink waits, so that every sink waits for
    /// one thing at most.
    pub proof fn law_nothing_waits_at_first(sender: u64)
        ensures
            Tables::empty().single(),
            !Tables::empty().waits(sender),
    {
    }

    /// A command is either answered at once or handed on to the network,
    /// never both and never twice: exactly one of its effects names a sink,
    /// and that sink is the command's own.
    pub proof fn law_command_is_passed_on_once(command: CommandView)
        ensures
            exists|i: int|
                #![trigger Tables::commanded(Some(command))[i]]
                {
                    &&& 0 <= i < Tables::commanded(Some(command)).len()
                    &&& (settles(Tables::commanded(Some(command))[i]) == Some(sender_of(command))
                        || carries(Tables::commanded(Some(command))[i]) == Some(
                        sender_of(command),
                    ))
                    &&& forall|j: int|
                        0 <= j < Tables::commanded(Some(command)).len() && j != i ==> settles(
                            #[trigger] Tables::commanded(Some(command))[j],
                        ) is None && carries(Tables::commanded(Some(command))[j]) is None
                },
    {
        let effects = Tables::commanded(Some(command));
        let i = if command is RemoveFile {
            1int
        } else {
            0int
        };
        assert(settles(effects[i]) == Some(sender_of(command)) || carries(effects[i]) == Some(
            sender_of(command),
        ));
    }

    /// The outcome of a call into the network uses its sink once: the sink
    /// is told of the failure, or it waits from now on and for one thing
    /// only. A sink that is dropped for it waited before and waits no more.
    pub proof fn law_outcome_uses_sink_once(self, outcome: OutcomeView)
        requires
            self.single(),
            !self.waits(sink_of(outcome)),
        ensures
            self.resolved(outcome).0.single(),
            self.resolved(outcome).1.len() <= 1,
            forall|other: u64|
                self.resolved(outcome).0.waits(other) ==> other == sink_of(outcome) || self.waits(
                    other,
                ),
            forall|i: int|
                0 <= i < self.resolved(outcome).1.len() ==> carries(
                    #[trigger] self.resolved(outcome).1[i],
                ) is None,
            forall|i: int|
                0 <= i < self.resolved(outcome).1.len() ==> match settles(
                    #[trigger] self.resolved(outcome).1[i],
                ) {
                    Some(sender) => !self.resolved(outcome).0.waits(sender) && (sender == sink_of(
                        outcome,
                    ) || self.waits(sender)),
                    None => true,
                },
            (forall|i: int|
                0 <= i < self.resolved(outcome).1.len() ==> settles(
                    #[trigger] self.resolved(outcome).1[i],
                ) != Some(sink_of(outcome))) ==> self.resolved(outcome).0.waits(sink_of(outcome)),
    {
        let sender = sink_of(outcome);
        let effects = self.resolved(outcome).1;
        if effects.len() > 0 {
            assert(settles(effects[0]) is Some);
        }
        match outcome {
            OutcomeView::ProvidingStarted { started: Ok(query), .. } => {
                if self.start_providing.contains_key(query) {
                    assert(sink_in(self.start_providing, self.start_providing[query]));
                }
                lemma_entered(self.start_providing, query, sender);
                lemma_entered_apart(self.start_providing, query, sender, self.get_providers);
                lemma_entered_apart(self.start_providing, query, sender, self.get_file);
                lemma_entered_apart(self.start_providing, query, sender, self.start_listening);
            },
            OutcomeView::ProvidersAsked { query, .. } => {
                if self.get_providers.contains_key(query) {
                    assert(sink_in(self.get_providers, self.get_providers[query]));
                }
                lemma_entered(self.get_providers, query, sender);
                lemma_entered_apart(self.get_providers, query, sender, self.start_providing);
                lemma_entered_apart(self.get_providers, query, sender, self.get_file);
                lemma_entered_apart(self.get_providers, query, sender, self.start_listening);
            },
            OutcomeView::ListeningStarted { started: Ok(listener), .. } => {
                if self.start_listening.contains_key(listener) {
                    assert(sink_in(self.start_listening, self.start_listening[listener]));
                }
                lemma_entered(self.start_listening, listener, sender);
                lemma_entered_apart(self.start_listening, listener, sender, self.start_providing);
                lemma_entered_apart(self.start_listening, listener, sender, self.get_providers);
                lemma_entered_apart(self.start_listening, listener, sender, self.get_file);
            },
            OutcomeView::RequestSent { request, .. } => {
                if self.get_file.contains_key(request) {
                    assert(sink_in(self.get_file, self.get_file[request]));
                }
                lemma_entered(self.get_file, request, sender);
                lemma_entered_apart(self.get_file, request, sender, self.start_providing);
                lemma_entered_apart(self.get_file, request, sender, self.get_providers);
                lemma_entered_apart(self.get_file, request, sender, self.start_listening);
            },
            _ => {},
        }
    }

    /// A report of the network is answered once: it leads to one effect at
    /// most; the sink that is handed a reply, or that goes on to ask a
    /// provider, waited before and waits no more; and nothing waits
    /// afterwards that did not wait before.
    pub proof fn law_report_is_answered_once(self, event: EventView, served: Option<Seq<u8>>)
        requires
            self.single(),
        ensures
            self.progressed(event, served).0.single(),
            self.progressed(event, served).1.len() <= 1,
            forall|other: u64|
                self.progressed(event, served).0.waits(other) ==> self.waits(other),
            forall|i: int|
                0 <= i < self.progressed(event, served).1.len() ==> match settles(
                    #[trigger] self.progressed(event, served).1[i],
                ) {
                    Some(sender) => self.waits(sender) && !self.progressed(event, served).0.waits(
                        sender,
                    ),
                    None => true,
                },
            forall|i: int|
                0 <= i < self.progressed(event, served).1.len() ==> match carries(
                    #[trigger] self.progressed(event, served).1[i],
                ) {
                    Some(sender) => self.waits(sender) && !self.progressed(event, served).0.waits(
                        sender,
                    ),
                    None => true,
                },
    {
        match event {
            EventView::NewListenAddr { listener_id, .. } => {
                lemma_taken_out(self.start_listening, listener_id);
                lemma_taken_out_apart(self.start_listening, listener_id, self.start_providing);
                lemma_taken_out_apart(self.start_listening, listener_id, self.get_providers);
                lemma_taken_out_apart(self.start_listening, listener_id, self.get_file);
            },
            EventView::StartProviding { id, .. } => {
                lemma_taken_out(self.start_providing, id);
                lemma_taken_out_apart(self.start_providing, id, self.get_providers);
                lemma_taken_out_apart(self.start_providing, id, self.get_file);
                lemma_taken_out_apart(self.start_providing, id, self.start_listening);
            },
            EventView::GetProviders { id, .. } => {
                lemma_taken_out(self.get_providers, id);
                lemma_taken_out_apart(self.get_providers, id, self.start_providing);
                lemma_taken_out_apart(self.get_providers, id, self.get_file);
                lemma_taken_out_apart(self.get_providers, id, self.start_listening);
            },
            EventView::Response { request_id, .. } => {
                lemma_taken_out(self.get_file, request_id);
                lemma_taken_out_apart(self.get_file, request_id, self.start_providing);
                lemma_taken_out_apart(self.get_file, request_id, self.get_providers);
                lemma_taken_out_apart(self.get_file, request_id, self.start_listening);
            },
            _ => {},
        }
    }

    /// A report that comes a second time for the same query, request or
    /// listener leads to nothing: the first one took the sink out.
    pub proof fn law_repeated_report_is_dropped(
        self,
        event: EventView,
        served: Option<Seq<u8>>,
        again: Option<Seq<u8>>,
    )
        requires
            !(event is Request),
            !(event is IdentifyReceived),
        ensures
            self.progressed(event, served).0.progressed(event, again).1.len() == 0,
    {
    }
}

/// The event loop's share of the node: the four tables of what is under way,
/// and the provider that serves the blobs of this node to its peers.
pub struct EventLoop<T> {
    file_provider: T,
    pending_start_providing: Pending,
    pending_get_providers: Pending,
    pending_get_file: Pending,
    pending_start_listening: Pending,
}

impl<T> View for EventLoop<T> {
    type V = Tables;

    closed spec fn view(&self) -> Tables {
        Tables {
            start_providing: table_entries(self.pending_start_providing),
            get_providers: table_entries(self.pending_get_providers),
            get_file: table_entries(self.pending_get_file),
            start_listening: table_entries(self.pending_start_listening),
        }
    }
}

/// Enters `sender` under `id`; a sink that waited there is dropped.
fn register(table: &mut Pending, id: u64, sender: u64) -> (effects: Vec<Effect>)
    ensures
        table_entries(*final(table)) == table_entries(*old(table)).insert(id, sender),
        effect_views(effects@) == displaced(table_entries(*old(table)), id),
{
    let mut effects: Vec<Effect> = Vec::new();
    match table_insert(table, id, sender) {
        Some(former) => {
            effects.push(Effect::Forget { sender: former });
        },
        None => {},
    }
    assert(effect_views(effects@) =~= displaced(table_entries(*old(table)), id));
    effects
}

/// Takes out the sink that waits under `id` and hands it `reply`.
fn answer(table: &mut Pending, id: u64, reply: Reply) -> (effects: Vec<Effect>)
    ensures
        table_entries(*final(table)) == table_entries(*old(table)).remove(id),
        effect_views(effects@) == answered(table_entries(*old(table)), id, reply@),
{
    let mut effects: Vec<Effect> = Vec::new();
    match table_remove(table, id) {
        Some(sender) => {
            effects.push(Effect::Deliver { sender, reply });
        },
        None => {},
    }
    assert(effect_views(effects@) =~= answered(table_entries(*old(table)), id, reply@));
    effects
}

/// The one effect.
fn only(effect: Effect) -> (effects: Vec<Effect>)
    ensures
        effect_views(effects@) == seq![effect@],
{
    let mut effects: Vec<Effect> = Vec::new();
    effects.push(effect);
    assert(effect_views(effects@) =~= seq![effect@]);
    effects
}

/// No effect.
fn nothing() -> (effects: Vec<Effect>)
    ensures
        effect_views(effects@) == Seq::<EffectView>::empty(),
{
    let effects: Vec<Effect> = Vec::new();
    assert(effect_views(effects@) =~= Seq::<EffectView>::empty());
    effects
}

impl<T: FileProvider> EventLoop<T> {
    /// An event loop with nothing under way.
    pub fn new(file_provider: T) -> (event_loop: Self)
        ensures
            event_loop@ == Tables::empty(),
    {
        EventLoop {
            file_provider,
            pending_start_providing: table_new(),
            pending_get_providers: table_new(),
            pending_get_file: table_new(),
            pending_start_listening: table_new(),
        }
    }

    /// Says what a command asks of the network. `None` stands for the closed
    /// command channel, on which the loop ends.
    pub fn handle_command(&mut self, command: Option<Command>) -> (effects: Vec<Effect>)
        ensures
            final(self)@ == old(self)@,
            effect_views(effects@) == Tables::commanded(
                match command {
                    Some(command) => Some(command@),
                    None => None,
                },
            ),
    {
        match command {
            Some(Command::AddFile { path, sender }) => self.add_file(path, sender),
            Some(Command::RemoveFile { path, sender }) => self.remove_file(path, sender),
            Some(Command::GetFile { path, sender }) => self.get_providers(path, sender),
            Some(Command::AddPeer { addr, sender }) => only(Effect::Dial { addr, sender }),
            Some(Command::StartListening { sender, addr }) => self.start_listening(addr, sender),
            None => only(Effect::Stop),
        }
    }

    fn start_listening(&self, addr: libp2p::Multiaddr, sender: u64) -> (effects: Vec<Effect>)
        ensures
            effect_views(effects@) == seq![EffectView::ListenOn { addr, sender }],
    {
        only(Effect::ListenOn { addr, sender })
    }

    fn add_file(&self, path: String, sender: u64) -> (effects: Vec<Effect>)
        ensures
            effect_views(effects@) == seq![
                EffectView::StartProviding { key: encode_utf8(path@), sender },
            ],
    {
        only(Effect::StartProviding { key: path.as_str().as_bytes_vec(), sender })
    }

    fn remove_file(&self, path: String, sender: u64) -> (effects: Vec<Effect>)
        ensures
            effect_views(effects@) == seq![
                EffectView::StopProviding { key: encode_utf8(path@) },
                EffectView::Deliver { sender, reply: ReplyView::Done(Ok(())) },
            ],
    {
        let mut effects = only(Effect::StopProviding { key: path.as_str().as_bytes_vec() });
        let ghost first = effects@;
        effects.push(Effect::Deliver { sender, reply: Reply::Done(Ok(())) });
        assert(effect_views(first).len() == first.len());
        assert(effects@[0] == first[0]);
        assert(effect_views(effects@)[0] == effect_views(first)[0]);
        assert(effect_views(effects@) =~= seq![
            EffectView::StopProviding { key: encode_utf8(path@) },
            EffectView::Deliver { sender, reply: ReplyView::Done(Ok(())) },
        ]);
        effects
    }

    fn get_providers(&self, path: String, sender: u64) -> (effects: Vec<Effect>)
        ensures
            effect_views(effects@) == seq![
                EffectView::GetProviders { key: encode_utf8(path@), sender },
            ],
    {
        only(Effect::GetProviders { key: path.as_str().as_bytes_vec(), sender })
    }

    /// Decides whom to ask for the blob `key` on behalf of the sink `sender`:
    /// the first of the providers, or nobody where there is none, and then
    /// the answer is "nothing".
    pub fn get_file(&self, key: String, providers: Vec<libp2p::PeerId>, sender: u64) -> (effects:
        Vec<Effect>)
        ensures
            effect_views(effects@) == if providers@.len() > 0 {
                seq![EffectView::SendRequest { peer: providers@[0], path: key@, sender }]
            } else {
                seq![EffectView::Deliver { sender, reply: ReplyView::File(Ok(None)) }]
            },
    {
        if providers.len() > 0 {
            only(Effect::SendRequest { peer: providers[0], path: key, sender })
        } else {
            only(Effect::Deliver { sender, reply: Reply::File(Ok(None)) })
        }
    }

    /// The answer to a peer on its response channel.
    pub fn respond(channel: u64, content: Option<Vec<u8>>) -> (effect: Effect)
        ensures
            effect@ == (EffectView::SendResponse { channel, content: content_view(content) }),
    {
        Effect::SendResponse { channel, content }
    }

    /// Serves a peer's request: the file provider is asked for the blob, and
    /// what it has, or that it has nothing, goes back on the request's
    /// channel.
    pub fn handle_request(&mut self, request: FileRequest, channel: u64) -> (effects: Vec<Effect>)
        ensures
            final(self)@ == old(self)@,
            exists|served: Option<Seq<u8>>|
                effect_views(effects@) == #[trigger] responded(channel, served),
    {
        let content = self.file_provider.get_file(request.path);
        let effect = Self::respond(channel, content);
        let effects = only(effect);
        assert(effect_views(effects@) == responded(channel, content_view(content)));
        effects
    }

    /// Takes a peer's answer to a request of ours: the sink that waits for
    /// it is handed the content. An answer that nothing waits for is dropped.
    pub fn handle_response(&mut self, request_id: u64, response: FileResponse) -> (effects: Vec<
        Effect,
    >)
        ensures
            final(self)@ == (Tables {
                get_file: old(self)@.get_file.remove(request_id),
                ..old(self)@
            }),
            effect_views(effects@) == answered(
                old(self)@.get_file,
                request_id,
                ReplyView::File(Ok(content_view(response.content))),
            ),
    {
        answer(&mut self.pending_get_file, request_id, Reply::File(Ok(response.content)))
    }

    /// Takes a report of the network, whatever it is about. What it leads to
    /// is settled by the report and the tables, but for the content that the
    /// file provider serves on a peer's request.
    pub fn handle_event(&mut self, event: Event) -> (effects: Vec<Effect>)
        ensures
            exists|served: Option<Seq<u8>>|
                (final(self)@, effect_views(effects@)) == #[trigger] old(self)@.progressed(
                    event@,
                    served,
                ),
    {
        let ghost reported = event@;
        let ghost before = self@;
        let effects = match event {
            Event::NewListenAddr { listener_id, address } => answer(
                &mut self.pending_start_listening,
                listener_id,
                Reply::Listening(Ok(address)),
            ),
            Event::IdentifyReceived { peer_id, listen_addrs } => {
                let mut listen_addrs = listen_addrs;
                if listen_addrs.len() > 0 {
                    let addr = listen_addrs.swap_remove(0);
                    only(Effect::AddAddress { peer: peer_id, addr })
                } else {
                    nothing()
                }
            },
            Event::StartProviding { id, result } => answer(
                &mut self.pending_start_providing,
                id,
                Reply::Done(result),
            ),
            Event::GetProviders { id, result } => match table_remove(
                &mut self.pending_get_providers,
                id,
            ) {
                Some(sender) => match result {
                    Ok(Providers::Found { key, providers }) => match String::from_utf8(key) {
                        Ok(path) => {
                            proof {
                                encode_utf8_decode_utf8(path@);
                            }
                            self.get_file(path, providers, sender)
                        },
                        Err(_) => only(Effect::Abort),
                    },
                    Ok(Providers::Finished) => only(
                        Effect::Deliver { sender, reply: Reply::File(Ok(None)) },
                    ),
                    Err(why) => only(Effect::Deliver { sender, reply: Reply::File(Err(why)) }),
                },
                None => nothing(),
            },
            Event::Request { request, channel } => {
                let effects = self.handle_request(request, channel);
                proof {
                    let served = choose|served: Option<Seq<u8>>|
                        effect_views(effects@) == #[trigger] responded(channel, served);
                    assert((self@, effect_views(effects@)) == before.progressed(reported, served));
                }
                effects
            },
            Event::Response { request_id, response } => self.handle_response(
                request_id,
                response,
            ),
            Event::Other => nothing(),
        };
        proof {
            if !(reported is Request) {
                assert((self@, effect_views(effects@)) == before.progressed(reported, None));
            }
        }
        effects
    }

    /// Takes the outcome of a call into the network that an effect asked
    /// for: the sink is entered under the number of the query, listener or
    /// request, or told at once that the call failed.
    pub fn handle_outcome(&mut self, outcome: Outcome) -> (effects: Vec<Effect>)
        ensures
            (final(self)@, effect_views(effects@)) == old(self)@.resolved(outcome@),
    {
        match outcome {
            Outcome::ProvidingStarted { sender, started: Ok(query) } => register(
                &mut self.pending_start_providing,
                query,
                sender,
            ),
            Outcome::ProvidingStarted { sender, started: Err(why) } => only(
                Effect::Deliver { sender, reply: Reply::Done(Err(why)) },
            ),
            Outcome::ProvidersAsked { sender, query } => register(
                &mut self.pending_get_providers,
                query,
                sender,
            ),
            Outcome::Dialed { sender, dialed } => only(
                Effect::Deliver { sender, reply: Reply::Done(dialed) },
            ),
            Outcome::ListeningStarted { sender, started: Ok(listener) } => register(
                &mut self.pending_start_listening,
                listener,
                sender,
            ),
            Outcome::ListeningStarted { sender, started: Err(why) } => only(
                Effect::Deliver { sender, reply: Reply::Listening(Err(why)) },
            ),
            Outcome::RequestSent { sender, request } => register(
                &mut self.pending_get_file,
                request,
                sender,
            ),
        }
    }
}

} // verus!
