use disca::disk_cache::{Admission, Notice};
use disca::file_sharing::EventLoop;
use disca::messages::{
    Command, Effect, Event, FileRequest, FileResponse, Outcome, Providers, Reply,
};
use disca::{announce, Disca, DiscaError, Fetched, FileNotifier, FileProvider, IoFailure, Lookup};
use libp2p::PeerId;
use std::cell::RefCell;
use std::collections::HashMap;
use std::rc::Rc;

type Disk = Rc<RefCell<HashMap<String, Vec<u8>>>>;

/// Serves from a node's files, as a peer sees them.
struct Shelf {
    disk: Disk,
}

impl FileProvider for Shelf {
    fn get_file(&mut self, path: String) -> Option<Vec<u8>> {
        self.disk.borrow().get(&path).cloned()
    }
}

/// Writes down what it is told.
struct Recorder {
    heard: RefCell<Vec<String>>,
}

impl FileNotifier for Recorder {
    fn added(&self, path: String) {
        self.heard.borrow_mut().push(format!("added {}", path));
    }

    fn removed(&self, path: String) {
        self.heard.borrow_mut().push(format!("removed {}", path));
    }
}

/// One node: its cache, its files, its event loop.
struct Node {
    peer: PeerId,
    core: Disca,
    disk: Disk,
    event_loop: EventLoop<Shelf>,
    commands: usize,
    notices: Vec<Notice>,
}

/// Some nodes and the provider index they share.
struct World {
    nodes: Vec<Node>,
    providers: HashMap<Vec<u8>, Vec<PeerId>>,
    next: u64,
}

impl World {
    fn new() -> World {
        World { nodes: Vec::new(), providers: HashMap::new(), next: 0 }
    }

    fn node(&mut self, files_to_evict: u64, capacity: u64) -> usize {
        let disk: Disk = Rc::new(RefCell::new(HashMap::new()));
        self.nodes.push(Node {
            peer: PeerId::random(),
            core: Disca::new(files_to_evict, capacity),
            disk: disk.clone(),
            event_loop: EventLoop::new(Shelf { disk }),
            commands: 0,
            notices: Vec::new(),
        });
        self.nodes.len() - 1
    }

    fn fresh(&mut self) -> u64 {
        self.next += 1;
        self.next
    }

    fn index_of(&self, peer: PeerId) -> usize {
        self.nodes.iter().position(|node| node.peer == peer).unwrap()
    }

    /// Hands a command to a node's event loop and plays the network for it
    /// until the command's sink has its reply.
    fn command(&mut self, at: usize, command: Command, sender: u64) -> Reply {
        self.nodes[at].commands += 1;
        let mut queue = self.nodes[at].event_loop.handle_command(Some(command));
        let mut reply = None;
        while !queue.is_empty() {
            let effect = queue.remove(0);
            let more = match effect {
                Effect::StartProviding { key, sender } => {
                    let peer = self.nodes[at].peer;
                    self.providers.entry(key).or_default().push(peer);
                    let query = self.fresh();
                    let mut more = self.nodes[at]
                        .event_loop
                        .handle_outcome(Outcome::ProvidingStarted { sender, started: Ok(query) });
                    more.extend(
                        self.nodes[at]
                            .event_loop
                            .handle_event(Event::StartProviding { id: query, result: Ok(()) }),
                    );
                    more
                }
                Effect::StopProviding { key } => {
                    let peer = self.nodes[at].peer;
                    if let Some(peers) = self.providers.get_mut(&key) {
                        peers.retain(|other| *other != peer);
                    }
                    Vec::new()
                }
                Effect::GetProviders { key, sender } => {
                    let query = self.fresh();
                    let found = self.providers.get(&key).cloned().unwrap_or_default();
                    let result = if found.is_empty() {
                        Providers::Finished
                    } else {
                        Providers::Found { key, providers: found }
                    };
                    let mut more = self.nodes[at]
                        .event_loop
                        .handle_outcome(Outcome::ProvidersAsked { sender, query });
                    more.extend(
                        self.nodes[at]
                            .event_loop
                            .handle_event(Event::GetProviders { id: query, result: Ok(result) }),
                    );
                    more
                }
                Effect::SendRequest { peer, path, sender } => {
                    let request = self.fresh();
                    let channel = self.fresh();
                    let target = self.index_of(peer);
                    let served = self.nodes[target]
                        .event_loop
                        .handle_event(Event::Request { request: FileRequest { path }, channel });
                    assert_eq!(served.len(), 1);
                    let content = match served.into_iter().next() {
                        Some(Effect::SendResponse { channel: on, content }) => {
                            assert_eq!(on, channel);
                            content
                        }
                        other => panic!("no response: {:?}", other),
                    };
                    let mut more = self.nodes[at]
                        .event_loop
                        .handle_outcome(Outcome::RequestSent { sender, request });
                    more.extend(self.nodes[at].event_loop.handle_event(Event::Response {
                        request_id: request,
                        response: FileResponse { content },
                    }));
                    more
                }
                Effect::Deliver { sender: to, reply: given } => {
                    assert_eq!(to, sender);
                    assert!(reply.is_none());
                    reply = Some(given);
                    Vec::new()
                }
                other => panic!("unexpected effect: {:?}", other),
            };
            queue.extend(more);
        }
        reply.unwrap()
    }

    fn notify(&mut self, at: usize, notice: Notice) {
        self.nodes[at].notices.push(notice.clone());
        let sender = self.fresh();
        let command = match notice {
            Notice::Added(path) => Command::AddFile { path, sender },
            Notice::Removed(path) => Command::RemoveFile { path, sender },
        };
        assert_eq!(self.command(at, command, sender), Reply::Done(Ok(())));
    }

    fn write(&mut self, at: usize, key: &str, bytes: &[u8]) {
        self.nodes[at].disk.borrow_mut().insert(key.to_string(), bytes.to_vec());
        let notice = self.nodes[at].core.disk_cache.written(key, Ok(())).unwrap();
        self.notify(at, notice);
    }

    /// Sees an admission through: deletes, reports, writes, announces.
    fn settle(&mut self, at: usize, key: &str, bytes: &[u8], admission: Admission) {
        match admission {
            Admission::Present => {}
            Admission::Write => self.write(at, key, bytes),
            Admission::Evict { victims } => {
                let mut queue = victims;
                while !queue.is_empty() {
                    let victim = queue.remove(0);
                    self.nodes[at].disk.borrow_mut().remove(&victim);
                    let settled = self.nodes[at].core.disk_cache.evicted(&victim, true);
                    if let Some(notice) = settled.notice {
                        self.notify(at, notice);
                    }
                    queue.extend(settled.victims);
                    if let Some(waiting) = settled.write {
                        assert_eq!(waiting, key);
                        self.write(at, key, bytes);
                    }
                }
            }
        }
    }

    fn add(&mut self, at: usize, key: &str, bytes: &[u8]) {
        let admission = self.nodes[at].core.add(key, bytes);
        self.settle(at, key, bytes, admission);
    }

    fn open(&self, at: usize, key: &str) -> Result<Vec<u8>, IoFailure> {
        self.nodes[at].disk.borrow().get(key).cloned().ok_or(IoFailure::NotFound)
    }

    fn get(&mut self, at: usize, key: &str) -> Result<Option<Vec<u8>>, DiscaError> {
        let opened = self.open(at, key);
        match self.nodes[at].core.get(key, opened) {
            Lookup::Found(file) => return Ok(Some(file)),
            Lookup::Failed(failure) => return Err(failure),
            Lookup::Fetch => {}
        }
        let sender = self.fresh();
        let remote = match self.command(at, Command::GetFile { path: key.to_string(), sender }, sender) {
            Reply::File(remote) => remote,
            other => panic!("unexpected reply: {:?}", other),
        };
        match self.nodes[at].core.fetched(key, remote) {
            Fetched::Absent => Ok(None),
            Fetched::Failed(failure) => Err(failure),
            Fetched::Admit { content, admission } => {
                self.settle(at, key, &content, admission);
                let opened = self.open(at, key);
                self.nodes[at].core.reopened(key, opened)
            }
        }
    }
}

#[test]
fn local_round_trip() {
    let mut world = World::new();
    let x = world.node(10, 100);
    world.add(x, "hello", b"world");
    assert_eq!(world.get(x, "hello"), Ok(Some(b"world".to_vec())));
    assert_eq!(world.nodes[x].core.disk_cache.size(), 5);
}

#[test]
fn eviction_ordering() {
    let mut world = World::new();
    let x = world.node(3, 10);
    world.add(x, "a", b"AAA");
    world.add(x, "b", b"BBB");
    world.add(x, "c", b"CCC");
    world.nodes[x].core.disk_cache.touch("a");
    world.nodes[x].notices.clear();
    world.add(x, "d", b"DDDD");
    assert_eq!(
        world.nodes[x].notices,
        vec![
            Notice::Removed("b".to_string()),
            Notice::Removed("c".to_string()),
            Notice::Added("d".to_string()),
        ]
    );
    let cache = &world.nodes[x].core.disk_cache;
    assert!(cache.contains_key("a"));
    assert!(cache.contains_key("d"));
    assert!(!cache.contains_key("b"));
    assert!(!cache.contains_key("c"));
    let mut files: Vec<String> = world.nodes[x].disk.borrow().keys().cloned().collect();
    files.sort();
    assert_eq!(files, vec!["a".to_string(), "d".to_string()]);
}

#[test]
fn files_agree_with_the_index() {
    let mut world = World::new();
    let x = world.node(2, 8);
    for (key, bytes) in [("a", &b"AAA"[..]), ("b", &b"BB"[..]), ("c", &b"CCCC"[..]), ("d", &b"D"[..])] {
        world.add(x, key, bytes);
        let node = &world.nodes[x];
        let mut recorded = 0;
        for (name, content) in node.disk.borrow().iter() {
            if node.core.disk_cache.contains_key(name) {
                recorded += content.len() as u64;
            }
        }
        assert_eq!(recorded, node.core.disk_cache.size());
        assert!(node.core.disk_cache.contains_key(key));
        assert_eq!(node.disk.borrow().get(key).map(|content| content.len()), Some(bytes.len()));
    }
}

#[test]
fn advertised_keys_follow_the_index() {
    let mut world = World::new();
    let x = world.node(3, 10);
    for (key, bytes) in [("a", &b"AAA"[..]), ("b", &b"BBB"[..]), ("c", &b"CCC"[..]), ("d", &b"DDDD"[..])] {
        world.add(x, key, bytes);
    }
    let peer = world.nodes[x].peer;
    for key in ["a", "b", "c", "d"] {
        let advertised = world
            .providers
            .get(key.as_bytes())
            .map_or(false, |peers| peers.contains(&peer));
        assert_eq!(advertised, world.nodes[x].core.disk_cache.contains_key(key));
    }
}

#[test]
fn agreement_holds_where_more_than_the_batch_must_go() {
    let mut world = World::new();
    let x = world.node(2, 10);
    for (key, bytes) in [
        ("a", &b"AAA"[..]),
        ("b", &b"BBB"[..]),
        ("c", &b"CCC"[..]),
        ("d", &b"DDDDD"[..]),
        ("big", &b"0123456789ABC"[..]),
        ("e", &b"E"[..]),
    ] {
        world.add(x, key, bytes);
        let node = &world.nodes[x];
        assert!(node.core.disk_cache.contains_key(key));
        assert_eq!(node.disk.borrow().get(key).map(|content| content.to_vec()), Some(bytes.to_vec()));
        let peer = node.peer;
        let mut recorded = 0;
        for name in ["a", "b", "c", "d", "big", "e"] {
            let on_record = node.core.disk_cache.contains_key(name);
            let on_disk = node.disk.borrow().get(name).map(|content| content.len() as u64);
            let advertised = world
                .providers
                .get(name.as_bytes())
                .map_or(false, |peers| peers.contains(&peer));
            assert_eq!(on_record, on_disk.is_some());
            assert_eq!(on_record, advertised);
            recorded += on_disk.unwrap_or(0);
        }
        assert_eq!(recorded, node.core.disk_cache.size());
    }
}

#[test]
fn peer_fetch() {
    let mut world = World::new();
    let x = world.node(10, 100);
    let y = world.node(10, 100);
    world.add(x, "k", b"V");
    assert_eq!(world.get(y, "k"), Ok(Some(b"V".to_vec())));
    assert!(world.nodes[y].core.disk_cache.contains_key("k"));
    // Once fetched, the blob is at home: the next lookup asks nobody.
    let asked = world.nodes[y].commands;
    assert_eq!(world.get(y, "k"), Ok(Some(b"V".to_vec())));
    assert_eq!(world.nodes[y].commands, asked);
}

#[test]
fn fetched_blob_is_advertised_by_the_fetcher() {
    let mut world = World::new();
    let x = world.node(10, 100);
    let y = world.node(10, 100);
    world.add(x, "k", b"V");
    assert_eq!(world.get(y, "k"), Ok(Some(b"V".to_vec())));
    let peers = world.providers.get(&b"k".to_vec()).unwrap();
    assert!(peers.contains(&world.nodes[x].peer));
    assert!(peers.contains(&world.nodes[y].peer));
}

#[test]
fn missing_remote() {
    let mut world = World::new();
    let _x = world.node(10, 100);
    let y = world.node(10, 100);
    assert_eq!(world.get(y, "k"), Ok(None));
    assert!(!world.nodes[y].core.disk_cache.contains_key("k"));
}

#[test]
fn stop_providing() {
    let mut world = World::new();
    let x = world.node(2, 4);
    let y = world.node(10, 100);
    world.add(x, "k", b"VVV");
    world.add(x, "other", b"WW");
    assert!(!world.nodes[x].core.disk_cache.contains_key("k"));
    assert_eq!(world.get(y, "k"), Ok(None));
    assert_eq!(world.get(y, "other"), Ok(Some(b"WW".to_vec())));
}

#[test]
fn idempotent_re_add() {
    let mut world = World::new();
    let x = world.node(10, 100);
    world.add(x, "k", b"V1");
    world.add(x, "k", b"V2");
    assert_eq!(world.get(x, "k"), Ok(Some(b"V1".to_vec())));
    assert_eq!(world.nodes[x].core.disk_cache.size(), 2);
}

#[test]
fn lookup_goes_to_the_peers_only_on_a_miss() {
    let mut node = Disca::new(3, 10);
    assert_eq!(node.get("k", Ok(1u8)), Lookup::Found(1u8));
    assert_eq!(node.get::<u8>("k", Err(IoFailure::NotFound)), Lookup::Fetch);
    assert_eq!(
        node.get::<u8>("k", Err(IoFailure::Other("locked".to_string()))),
        Lookup::Failed(DiscaError::Io(IoFailure::Other("locked".to_string())))
    );
}

#[test]
fn what_the_peers_answer_decides_the_lookup() {
    let mut node = Disca::new(3, 10);
    assert_eq!(node.fetched("k", Ok(None)), Fetched::Absent);
    assert_eq!(
        node.fetched("k", Err("timeout".to_string())),
        Fetched::Failed(DiscaError::Network("timeout".to_string()))
    );
    assert!(!node.disk_cache.contains_key("k"));
    assert_eq!(
        node.fetched("k", Ok(Some(b"VVV".to_vec()))),
        Fetched::Admit { content: b"VVV".to_vec(), admission: Admission::Write }
    );
    assert!(node.disk_cache.contains_key("k"));
    assert_eq!(node.disk_cache.size(), 3);
    assert_eq!(node.reopened("k", Ok(5u8)), Ok(Some(5u8)));
    assert_eq!(node.reopened::<u8>("k", Err(IoFailure::NotFound)), Ok(None));
}

#[test]
fn fetched_blob_may_need_room() {
    let mut node = Disca::new(2, 4);
    assert_eq!(node.add("a", b"AAA"), Admission::Write);
    assert_eq!(
        node.fetched("k", Ok(Some(b"VV".to_vec()))),
        Fetched::Admit {
            content: b"VV".to_vec(),
            admission: Admission::Evict { victims: vec!["a".to_string()] },
        }
    );
}

#[test]
fn notices_reach_the_notifier_in_order() {
    let recorder = Recorder { heard: RefCell::new(Vec::new()) };
    announce(&recorder, Notice::Removed("b".to_string()));
    announce(&recorder, Notice::Removed("c".to_string()));
    announce(&recorder, Notice::Added("d".to_string()));
    assert_eq!(
        *recorder.heard.borrow(),
        vec!["removed b".to_string(), "removed c".to_string(), "added d".to_string()]
    );
}
