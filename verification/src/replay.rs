//! Replay candidates: the requests of a flow log, each paired with the
//! response that answered it.
use vstd::prelude::*;
use vstd::hash_map::StringHashMap;
use crate::api::ApiEvent;
use crate::digest::{base64_decode, decode_base64, hash_bytes, hash_headers, header_bytes, hex, sha256_digest};
use crate::order::{pair_order, pairs_view, sort_pairs};

verus! {

/// What was captured of a response.
#[derive(Debug, Clone)]
pub struct ResponseSnapshot {
    pub status: u16,
    pub body_size: Option<usize>,
    /// Hex SHA-256 of the response headers, sorted (see [`normalize_headers`]).
    pub headers_hash: String,
    /// Hex SHA-256 of the decoded response body, when it was captured.
    pub body_hash: Option<String>,
}

/// A captured request that can be replayed.
#[derive(Debug, Clone)]
pub struct ReplayCandidate {
    /// Line of the flow log that held the request.
    pub index: usize,
    pub timestamp_ms: u64,
    pub request_id: Option<String>,
    pub client: String,
    pub method: String,
    pub uri: String,
    pub headers: Vec<(String, String)>,
    /// The decoded request body, when it was captured and decodes.
    pub body: Option<Vec<u8>>,
    pub captured_response: Option<ResponseSnapshot>,
}

pub struct SnapshotModel {
    pub status: u16,
    pub body_size: Option<usize>,
    pub headers_hash: Seq<char>,
    pub body_hash: Option<Seq<char>>,
}

pub struct CandidateModel {
    pub index: usize,
    pub timestamp_ms: u64,
    pub request_id: Option<Seq<char>>,
    pub client: Seq<char>,
    pub method: Seq<char>,
    pub uri: Seq<char>,
    pub headers: Seq<(Seq<char>, Seq<char>)>,
    pub body: Option<Seq<u8>>,
    pub captured: Option<SnapshotModel>,
}

pub open spec fn opt_text(o: Option<String>) -> Option<Seq<char>> {
    match o {
        Some(s) => Some(s@),
        None => None,
    }
}

pub open spec fn opt_bytes(o: Option<Vec<u8>>) -> Option<Seq<u8>> {
    match o {
        Some(b) => Some(b@),
        None => None,
    }
}

impl ResponseSnapshot {
    pub open spec fn model(&self) -> SnapshotModel {
        SnapshotModel {
            status: self.status,
            body_size: self.body_size,
            headers_hash: self.headers_hash@,
            body_hash: opt_text(self.body_hash),
        }
    }
}

impl ReplayCandidate {
    pub open spec fn model(&self) -> CandidateModel {
        CandidateModel {
            index: self.index,
            timestamp_ms: self.timestamp_ms,
            request_id: opt_text(self.request_id),
            client: self.client@,
            method: self.method@,
            uri: self.uri@,
            headers: pairs_view(self.headers@),
            body: opt_bytes(self.body),
            captured: match self.captured_response {
                Some(s) => Some(s.model()),
                None => None,
            },
        }
    }
}

pub open spec fn candidates_view(v: Seq<ReplayCandidate>) -> Seq<CandidateModel> {
    v.map_values(|c: ReplayCandidate| c.model())
}

/// Header pairs sorted by name, then by value (the order in which they are hashed).
pub fn normalize_headers(headers: Vec<(String, String)>) -> (r: Vec<(String, String)>)
    ensures
        pairs_view(r@) == pairs_view(headers@).sort_by(pair_order()),
{
    sort_pairs(&headers)
}

/// The decoded Base64 text, if there is one and it decodes.
pub open spec fn decoded(b64: Option<String>) -> Option<Seq<u8>> {
    match b64 {
        Some(t) => base64_decode(t@),
        None => None,
    }
}

/// State of the pairing of responses with requests.
pub struct Pairing {
    /// The requests so far.
    pub out: Seq<CandidateModel>,
    /// For each request id, the latest request that carried it.
    pub ids: Map<Seq<char>, usize>,
    /// For each client, its requests not yet answered by a response that
    /// carried no known request id, oldest first.
    pub queues: Map<Seq<char>, Seq<usize>>,
}

pub open spec fn queue_of(queues: Map<Seq<char>, Seq<usize>>, c: Seq<char>) -> Seq<usize> {
    if queues.contains_key(c) {
        queues[c]
    } else {
        Seq::empty()
    }
}

/// What a response records on the request it answers.
pub open spec fn snapshot_of(
    status: u16,
    headers: Seq<(Seq<char>, Seq<char>)>,
    body_b64: Option<String>,
    body_size: Option<usize>,
) -> SnapshotModel {
    SnapshotModel {
        status,
        body_size,
        headers_hash: hex(sha256_digest(header_bytes(headers.sort_by(pair_order())))),
        body_hash: match decoded(body_b64) {
            Some(b) => Some(hex(sha256_digest(b))),
            None => None,
        },
    }
}

/// The request id's latest request, when the id is given and known.
pub open spec fn by_request_id(st: Pairing, request_id: Option<Seq<char>>) -> Option<usize> {
    match request_id {
        Some(id) => if st.ids.contains_key(id) {
            Some(st.ids[id])
        } else {
            None
        },
        None => None,
    }
}

/// The request that a response answers: by its request id when known, else
/// the oldest unanswered request of its client.
pub open spec fn response_target(st: Pairing, request_id: Option<Seq<char>>, client: Seq<char>) -> Option<usize> {
    match by_request_id(st, request_id) {
        Some(i) => Some(i),
        None => {
            let q = queue_of(st.queues, client);
            if q.len() > 0 {
                Some(q[0])
            } else {
                None
            }
        },
    }
}

/// The client queues after a response: the client's oldest request leaves its
/// queue when it was the one answered.
pub open spec fn response_queues(st: Pairing, request_id: Option<Seq<char>>, client: Seq<char>) -> Map<Seq<char>, Seq<usize>> {
    let q = queue_of(st.queues, client);
    if by_request_id(st, request_id) is None && q.len() > 0 {
        st.queues.insert(client, q.drop_first())
    } else {
        st.queues
    }
}

/// One event of the log, at line `line`. A request becomes a candidate. A
/// response answers the latest request with its request id when that id is
/// known; otherwise the oldest unanswered request of its client (which then
/// leaves the client's queue); its snapshot replaces any earlier one.
pub open spec fn pairing_step(st: Pairing, line: usize, ev: ApiEvent) -> Pairing {
    match ev {
        ApiEvent::HttpRequest {
            timestamp_ms,
            request_id,
            client,
            method,
            uri,
            headers,
            body_b64,
            ..
        } => {
            let idx = st.out.len() as usize;
            Pairing {
                out: st.out.push(
                    CandidateModel {
                        index: line,
                        timestamp_ms,
                        request_id: opt_text(request_id),
                        client: client@,
                        method: method@,
                        uri: uri@,
                        headers: pairs_view(headers@),
                        body: decoded(body_b64),
                        captured: None,
                    },
                ),
                ids: match request_id {
                    Some(id) => st.ids.insert(id@, idx),
                    None => st.ids,
                },
                queues: st.queues.insert(client@, queue_of(st.queues, client@).push(idx)),
            }
        },
        ApiEvent::HttpResponse { request_id, client, status, headers, body_b64, body_size, .. } => {
            let target = response_target(st, opt_text(request_id), client@);
            let snap = snapshot_of(status, pairs_view(headers@), body_b64, body_size);
            Pairing {
                out: match target {
                    Some(i) => if i < st.out.len() {
                        st.out.update(i as int, CandidateModel { captured: Some(snap), ..st.out[i as int] })
                    } else {
                        st.out
                    },
                    None => st.out,
                },
                ids: st.ids,
                queues: response_queues(st, opt_text(request_id), client@),
            }
        },
        ApiEvent::WebSocketFrame { .. } => st,
    }
}

/// The pairing after the first `n` events.
pub open spec fn pairing_upto(events: Seq<(usize, ApiEvent)>, n: int) -> Pairing
    decreases n,
{
    if n <= 0 {
        Pairing { out: Seq::empty(), ids: Map::empty(), queues: Map::empty() }
    } else {
        let p = pairing_upto(events, n - 1);
        pairing_step(p, events[n - 1].0, events[n - 1].1)
    }
}

/// The candidates of a log, given its parsed events with their line numbers.
pub open spec fn spec_candidates(events: Seq<(usize, ApiEvent)>) -> Seq<CandidateModel> {
    pairing_upto(events, events.len() as int).out
}

fn clone_opt_string(o: &Option<String>) -> (r: Option<String>)
    ensures
        opt_text(r) == opt_text(*o),
{
    match o {
        Some(s) => Some(s.clone()),
        None => None,
    }
}

fn clone_pairs(v: &Vec<(String, String)>) -> (r: Vec<(String, String)>)
    ensures
        pairs_view(r@) == pairs_view(v@),
{
    let mut out: Vec<(String, String)> = Vec::new();
    let n = v.len();
    let mut i: usize = 0;
    while i < n
        invariant
            n == v@.len(),
            i <= n,
            pairs_view(out@) == pairs_view(v@).take(i as int),
        decreases n - i,
    {
        let k = v[i].0.clone();
        let x = v[i].1.clone();
        let ghost before = out@;
        out.push((k, x));
        assert(out@ == before.push((k, x)));
        assert(pairs_view(out@) =~= pairs_view(before).push((k@, x@)));
        assert(pairs_view(v@).take(i + 1) =~= pairs_view(v@).take(i as int).push((k@, x@)));
        i = i + 1;
    }
    assert(pairs_view(v@).take(n as int) =~= pairs_view(v@));
    out
}

fn decode_opt(b64: &Option<String>) -> (r: Option<Vec<u8>>)
    ensures
        opt_bytes(r) == decoded(*b64),
{
    match b64 {
        Some(t) => decode_base64(t.as_str()),
        None => None,
    }
}

/// The pairing in progress: the candidates so far, the latest request for
/// each request id, and for each client a list of its requests with the
/// position of the oldest one not yet answered.
struct Collector {
    out: Vec<ReplayCandidate>,
    ids: StringHashMap<usize>,
    slots: StringHashMap<usize>,
    lists: Vec<Vec<usize>>,
    heads: Vec<usize>,
}

impl Collector {
    /// The queue of the client whose list is at `slot`.
    spec fn queue_at(&self, slot: int) -> Seq<usize> {
        self.lists@[slot]@.skip(self.heads@[slot] as int)
    }

    /// `self` holds the pairing `st`.
    spec fn holds(&self, st: Pairing) -> bool {
        &&& candidates_view(self.out@) == st.out
        &&& self.ids@ == st.ids
        &&& self.slots@.dom() == st.queues.dom()
        &&& self.lists@.len() == self.heads@.len()
        &&& forall|c: Seq<char>| #[trigger] self.slots@.contains_key(c) ==> {
            &&& self.slots@[c] < self.lists@.len()
            &&& self.heads@[self.slots@[c] as int] <= self.lists@[self.slots@[c] as int]@.len()
            &&& st.queues[c] == self.queue_at(self.slots@[c] as int)
        }
        &&& forall|c1: Seq<char>, c2: Seq<char>|
            #[trigger] self.slots@.contains_key(c1) && #[trigger] self.slots@.contains_key(c2)
                && self.slots@[c1] == self.slots@[c2] ==> c1 == c2
    }

    fn new() -> (r: Self)
        ensures
            r.holds(Pairing { out: Seq::empty(), ids: Map::empty(), queues: Map::empty() }),
    {
        let r = Collector {
            out: Vec::new(),
            ids: StringHashMap::new(),
            slots: StringHashMap::new(),
            lists: Vec::new(),
            heads: Vec::new(),
        };
        assert(candidates_view(r.out@) =~= Seq::<CandidateModel>::empty());
        assert(r.ids@ =~= Map::<Seq<char>, usize>::empty());
        assert(r.slots@.dom() =~= Map::<Seq<char>, Seq<usize>>::empty().dom());
        r
    }

    /// Appends `idx` to the queue of `client`.
    fn enqueue(&mut self, Ghost(queues): Ghost<Map<Seq<char>, Seq<usize>>>, client: &String, idx: usize)
        requires
            old(self).slots@.dom() == queues.dom(),
            old(self).lists@.len() == old(self).heads@.len(),
            forall|c: Seq<char>| #[trigger] old(self).slots@.contains_key(c) ==> {
                &&& old(self).slots@[c] < old(self).lists@.len()
                &&& old(self).heads@[old(self).slots@[c] as int] <= old(self).lists@[old(self).slots@[c] as int]@.len()
                &&& queues[c] == old(self).queue_at(old(self).slots@[c] as int)
            },
            forall|c1: Seq<char>, c2: Seq<char>|
                #[trigger] old(self).slots@.contains_key(c1) && #[trigger] old(self).slots@.contains_key(c2)
                    && old(self).slots@[c1] == old(self).slots@[c2] ==> c1 == c2,
        ensures
            final(self).out@ == old(self).out@,
            final(self).ids@ == old(self).ids@,
            ({
                let nq = queues.insert(client@, queue_of(queues, client@).push(idx));
                &&& final(self).slots@.dom() == nq.dom()
                &&& final(self).lists@.len() == final(self).heads@.len()
                &&& forall|c: Seq<char>| #[trigger] final(self).slots@.contains_key(c) ==> {
                    &&& final(self).slots@[c] < final(self).lists@.len()
                    &&& final(self).heads@[final(self).slots@[c] as int] <= final(self).lists@[final(self).slots@[c] as int]@.len()
                    &&& nq[c] == final(self).queue_at(final(self).slots@[c] as int)
                }
                &&& forall|c1: Seq<char>, c2: Seq<char>|
                    #[trigger] final(self).slots@.contains_key(c1) && #[trigger] final(self).slots@.contains_key(c2)
                        && final(self).slots@[c1] == final(self).slots@[c2] ==> c1 == c2
            }),
    {
        let ghost nq = queues.insert(client@, queue_of(queues, client@).push(idx));
        let ghost old_slots = self.slots@;
        let ghost old_lists = self.lists@;
        match self.slots.get(client.as_str()) {
            Some(s) => {
                let s = *s;
                let mut l = self.lists[s].clone();
                l.push(idx);
                self.lists.set(s, l);
                assert(self.slots@.dom() =~= nq.dom());
                assert forall|c: Seq<char>| #[trigger] self.slots@.contains_key(c) implies {
                    &&& self.slots@[c] < self.lists@.len()
                    &&& self.heads@[self.slots@[c] as int] <= self.lists@[self.slots@[c] as int]@.len()
                    &&& nq[c] == self.queue_at(self.slots@[c] as int)
                } by {
                    if c == client@ {
                        assert(self.queue_at(s as int) =~= old_lists[s as int]@.skip(self.heads@[s as int] as int).push(idx));
                    } else {
                        assert(self.slots@[c] != s);
                    }
                }
            },
            None => {
                let s = self.lists.len();
                let mut l: Vec<usize> = Vec::new();
                l.push(idx);
                self.lists.push(l);
                self.heads.push(0);
                self.slots.insert(client.clone(), s);
                assert(self.slots@.dom() =~= nq.dom());
                assert forall|c: Seq<char>| #[trigger] self.slots@.contains_key(c) implies {
                    &&& self.slots@[c] < self.lists@.len()
                    &&& self.heads@[self.slots@[c] as int] <= self.lists@[self.slots@[c] as int]@.len()
                    &&& nq[c] == self.queue_at(self.slots@[c] as int)
                } by {
                    if c == client@ {
                        assert(self.queue_at(s as int) =~= seq![idx]);
                        assert(queue_of(queues, c) =~= Seq::<usize>::empty());
                    } else {
                        assert(old_slots.contains_key(c));
                    }
                }
                assert forall|c1: Seq<char>, c2: Seq<char>|
                    #[trigger] self.slots@.contains_key(c1) && #[trigger] self.slots@.contains_key(c2)
                        && self.slots@[c1] == self.slots@[c2] implies c1 == c2 by {
                    if c1 != client@ {
                        assert(old_slots.contains_key(c1));
                    }
                    if c2 != client@ {
                        assert(old_slots.contains_key(c2));
                    }
                }
            },
        }
    }

    /// A request event at `line` becomes the next candidate.
    fn add_request(&mut self, Ghost(st): Ghost<Pairing>, line: usize, ev: &ApiEvent)
        requires
            old(self).holds(st),
            ev is HttpRequest,
        ensures
            final(self).holds(pairing_step(st, line, *ev)),
    {
        match ev {
            ApiEvent::HttpRequest {
                timestamp_ms,
                request_id,
                client,
                method,
                uri,
                headers,
                body_b64,
                ..
            } => {
                let idx = self.out.len();
                let cand = ReplayCandidate {
                    index: line,
                    timestamp_ms: *timestamp_ms,
                    request_id: clone_opt_string(request_id),
                    client: client.clone(),
                    method: method.clone(),
                    uri: uri.clone(),
                    headers: clone_pairs(headers),
                    body: decode_opt(body_b64),
                    captured_response: None,
                };
                let ghost before = self.out@;
                self.out.push(cand);
                assert(candidates_view(self.out@) =~= candidates_view(before).push(cand.model()));
                if let Some(id) = request_id {
                    self.ids.insert(id.clone(), idx);
                }
                self.enqueue(Ghost(st.queues), client, idx);
            },
            _ => {},
        }
    }

    /// A response event: its snapshot goes to the request it answers.
    fn add_response(&mut self, Ghost(st): Ghost<Pairing>, ev: &ApiEvent)
        requires
            old(self).holds(st),
            ev is HttpResponse,
        ensures
            final(self).holds(pairing_step(st, 0, *ev)),
    {
        match ev {
            ApiEvent::HttpResponse { request_id, client, status, headers, body_b64, body_size, .. } => {
                let mut target: Option<usize> = None;
                if let Some(id) = request_id {
                    if let Some(t) = self.ids.get(id.as_str()) {
                        target = Some(*t);
                    }
                }
                if target.is_none() {
                    match self.slots.get(client.as_str()) {
                        Some(s) => {
                            let s = *s;
                            if self.heads[s] < self.lists[s].len() {
                                let ghost old_heads = self.heads@;
                                let ghost q = self.queue_at(s as int);
                                target = Some(self.lists[s][self.heads[s]]);
                                let h = self.heads[s] + 1;
                                self.heads.set(s, h);
                                assert forall|c: Seq<char>| #[trigger] self.slots@.contains_key(c) implies {
                                    &&& self.slots@[c] < self.lists@.len()
                                    &&& self.heads@[self.slots@[c] as int] <= self.lists@[self.slots@[c] as int]@.len()
                                    &&& response_queues(st, opt_text(*request_id), client@)[c] == self.queue_at(self.slots@[c] as int)
                                } by {
                                    if c == client@ {
                                        assert(self.queue_at(s as int) =~= q.drop_first());
                                    } else {
                                        assert(self.slots@[c] != s);
                                    }
                                }
                            } else {
                                assert(queue_of(st.queues, client@) =~= Seq::<usize>::empty());
                            }
                        },
                        None => {},
                    }
                }
                assert(target == response_target(st, opt_text(*request_id), client@));
                let ghost nq = response_queues(st, opt_text(*request_id), client@);
                assert(self.slots@.dom() == nq.dom());
                assert(forall|c: Seq<char>| #[trigger] self.slots@.contains_key(c) ==> {
                    &&& self.slots@[c] < self.lists@.len()
                    &&& self.heads@[self.slots@[c] as int] <= self.lists@[self.slots@[c] as int]@.len()
                    &&& nq[c] == self.queue_at(self.slots@[c] as int)
                });
                let sorted = sort_pairs(headers);
                let snap = ResponseSnapshot {
                    status: *status,
                    body_size: *body_size,
                    headers_hash: hash_headers(&sorted),
                    body_hash: match decode_opt(body_b64) {
                        Some(b) => Some(hash_bytes(b.as_slice())),
                        None => None,
                    },
                };
                assert(snap.model() == snapshot_of(*status, pairs_view(headers@), *body_b64, *body_size));
                if let Some(t) = target {
                    if t < self.out.len() {
                        let mut c = self.out[t].clone_candidate();
                        c.captured_response = Some(snap);
                        let ghost before = candidates_view(self.out@);
                        self.out.set(t, c);
                        assert(candidates_view(self.out@) =~= before.update(t as int, c.model()));
                    }
                }
            },
            _ => {},
        }
    }
}

/// Pairs the responses of a log with its requests (see [`pairing_step`]);
/// `events` are the log's events with the numbers of their lines.
pub fn collect_candidates(events: &Vec<(usize, ApiEvent)>) -> (r: Vec<ReplayCandidate>)
    ensures
        candidates_view(r@) == spec_candidates(events@),
{
    let mut col = Collector::new();
    let n = events.len();
    let mut i: usize = 0;
    while i < n
        invariant
            n == events@.len(),
            i <= n,
            col.holds(pairing_upto(events@, i as int)),
        decreases n - i,
    {
        let ghost st = pairing_upto(events@, i as int);
        let line = events[i].0;
        let ev = &events[i].1;
        match ev {
            ApiEvent::HttpRequest { .. } => col.add_request(Ghost(st), line, ev),
            ApiEvent::HttpResponse { .. } => {
                col.add_response(Ghost(st), ev);
                assert(pairing_step(st, 0, *ev) == pairing_step(st, line, *ev));
            },
            ApiEvent::WebSocketFrame { .. } => {},
        }
        i = i + 1;
    }
    col.out
}

impl ReplayCandidate {
    /// A copy of the candidate.
    pub fn clone_candidate(&self) -> (r: Self)
        ensures
            r.model() == self.model(),
    {
        ReplayCandidate {
            index: self.index,
            timestamp_ms: self.timestamp_ms,
            request_id: clone_opt_string(&self.request_id),
            client: self.client.clone(),
            method: self.method.clone(),
            uri: self.uri.clone(),
            headers: clone_pairs(&self.headers),
            body: match &self.body {
                Some(b) => Some(b.clone()),
                None => None,
            },
            captured_response: match &self.captured_response {
                Some(s) => Some(
                    ResponseSnapshot {
                        status: s.status,
                        body_size: s.body_size,
                        headers_hash: s.headers_hash.clone(),
                        body_hash: clone_opt_string(&s.body_hash),
                    },
                ),
                None => None,
            },
        }
    }
}

/// The number of request events among the first `n` events.
pub open spec fn requests_upto(events: Seq<(usize, ApiEvent)>, n: int) -> nat
    decreases n,
{
    if n <= 0 {
        0
    } else {
        requests_upto(events, n - 1) + if events[n - 1].1 is HttpRequest {
            1nat
        } else {
            0nat
        }
    }
}

/// Each request event of a log gives exactly one candidate, in log order,
/// numbered by its line; responses and frames add none.
pub proof fn law_one_candidate_per_request(events: Seq<(usize, ApiEvent)>, n: int)
    requires
        0 <= n <= events.len(),
    ensures
        pairing_upto(events, n).out.len() == requests_upto(events, n),
        forall|j: int|
            0 <= j < n && events[j].1 is HttpRequest ==> #[trigger] pairing_upto(events, n).out[requests_upto(events, j) as int].index
                == events[j].0,
    decreases n,
{
    if n > 0 {
        law_one_candidate_per_request(events, n - 1);
        let prev = pairing_upto(events, n - 1);
        let cur = pairing_upto(events, n);
        assert forall|j: int| 0 <= j < n && events[j].1 is HttpRequest implies #[trigger] cur.out[requests_upto(events, j) as int].index
            == events[j].0 by {
            if j < n - 1 {
                lemma_requests_upto_mono(events, j + 1, n - 1);
                assert(requests_upto(events, j) < requests_upto(events, j + 1));
                assert(prev.out[requests_upto(events, j) as int].index == events[j].0);
                assert(cur.out[requests_upto(events, j) as int].index == prev.out[requests_upto(events, j) as int].index);
            }
        }
    }
}

proof fn lemma_requests_upto_mono(events: Seq<(usize, ApiEvent)>, i: int, n: int)
    requires
        0 <= i <= n,
    ensures
        requests_upto(events, i) <= requests_upto(events, n),
    decreases n - i,
{
    if n > i {
        lemma_requests_upto_mono(events, i, n - 1);
    }
}

} // verus!
