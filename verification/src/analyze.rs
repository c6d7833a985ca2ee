//! Flow-log diagnostics: responses are matched with the requests they answer,
//! and the completed exchanges are summarised.
use vstd::prelude::*;
use vstd::hash_map::StringHashMap;
use std::collections::VecDeque;
use crate::api::ApiEvent;
use crate::uri::{host_of_uri, parse_host_from_uri};

verus! {

/// A request whose response has arrived.
#[derive(Debug, Clone)]
pub struct CompletedReq {
    pub method: String,
    pub uri: String,
    /// The request URI's host, or `-` when it has none.
    pub host: String,
    pub status: u16,
    /// Response time minus request time, or 0 when the response is older.
    pub latency_ms: u64,
}

pub struct CompletedModel {
    pub method: Seq<char>,
    pub uri: Seq<char>,
    pub host: Seq<char>,
    pub status: u16,
    pub latency_ms: u64,
}

impl CompletedReq {
    pub open spec fn model(&self) -> CompletedModel {
        CompletedModel {
            method: self.method@,
            uri: self.uri@,
            host: self.host@,
            status: self.status,
            latency_ms: self.latency_ms,
        }
    }
}

pub open spec fn completed_view(v: Seq<CompletedReq>) -> Seq<CompletedModel> {
    v.map_values(|c: CompletedReq| c.model())
}

/// A request still waiting for its response.
struct Pending {
    request_id: Option<String>,
    client: String,
    method: String,
    uri: String,
    host: String,
    req_ts: u64,
}

pub struct PendingModel {
    pub request_id: Option<Seq<char>>,
    pub client: Seq<char>,
    pub method: Seq<char>,
    pub uri: Seq<char>,
    pub host: Seq<char>,
    pub req_ts: u64,
}

pub open spec fn opt_text(o: Option<String>) -> Option<Seq<char>> {
    match o {
        Some(s) => Some(s@),
        None => None,
    }
}

impl Pending {
    spec fn model(&self) -> PendingModel {
        PendingModel {
            request_id: opt_text(self.request_id),
            client: self.client@,
            method: self.method@,
            uri: self.uri@,
            host: self.host@,
            req_ts: self.req_ts,
        }
    }

    fn duplicate(&self) -> (r: Self)
        ensures
            r.model() == self.model(),
    {
        Pending {
            request_id: match &self.request_id {
                Some(s) => Some(s.clone()),
                None => None,
            },
            client: self.client.clone(),
            method: self.method.clone(),
            uri: self.uri.clone(),
            host: self.host.clone(),
            req_ts: self.req_ts,
        }
    }
}

spec fn pendings_view(v: Seq<Pending>) -> Seq<PendingModel> {
    v.map_values(|p: Pending| p.model())
}

/// What the correlation has seen so far.
pub struct CorrelationModel {
    /// For each request id, the latest pending request that carried it.
    pub by_id: Map<Seq<char>, PendingModel>,
    /// For each client, its pending requests, oldest first.
    pub queues: Map<Seq<char>, Seq<PendingModel>>,
    pub completed: Seq<CompletedModel>,
    pub ws_frames: usize,
    pub ws_bytes: usize,
}

pub open spec fn queue_of(queues: Map<Seq<char>, Seq<PendingModel>>, c: Seq<char>) -> Seq<PendingModel> {
    if queues.contains_key(c) {
        queues[c]
    } else {
        Seq::empty()
    }
}

/// The host recorded for a request URI.
pub open spec fn host_or_dash(uri: Seq<char>) -> Seq<char> {
    match host_of_uri(uri) {
        Some(h) => h,
        None => "-"@,
    }
}

/// Position of the first request in `q` with timestamp `ts` and URI `uri`,
/// searching from `from`.
pub open spec fn first_match(q: Seq<PendingModel>, ts: u64, uri: Seq<char>, from: int) -> Option<int>
    decreases q.len() - from,
{
    if from < 0 || from >= q.len() {
        None
    } else if q[from].req_ts == ts && q[from].uri == uri {
        Some(from)
    } else {
        first_match(q, ts, uri, from + 1)
    }
}

proof fn lemma_first_match_bounds(q: Seq<PendingModel>, ts: u64, uri: Seq<char>, from: int)
    ensures
        match first_match(q, ts, uri, from) {
            Some(k) => from <= k < q.len() && q[k].req_ts == ts && q[k].uri == uri,
            None => true,
        },
    decreases q.len() - from,
{
    if 0 <= from < q.len() && !(q[from].req_ts == ts && q[from].uri == uri) {
        lemma_first_match_bounds(q, ts, uri, from + 1);
    }
}

/// The queues once the first request of `client` with timestamp `ts` and URI
/// `uri` has left its queue (if there is one).
pub open spec fn drop_match(
    queues: Map<Seq<char>, Seq<PendingModel>>,
    client: Seq<char>,
    ts: u64,
    uri: Seq<char>,
) -> Map<Seq<char>, Seq<PendingModel>> {
    if queues.contains_key(client) {
        match first_match(queues[client], ts, uri, 0) {
            Some(pos) => queues.insert(client, queues[client].remove(pos)),
            None => queues,
        }
    } else {
        queues
    }
}

/// The state after a response that answers `p` at time `ts` with `status`.
pub open spec fn complete(
    st: CorrelationModel,
    p: PendingModel,
    ts: u64,
    status: u16,
) -> CorrelationModel {
    CorrelationModel {
        by_id: match p.request_id {
            Some(rid) => st.by_id.remove(rid),
            None => st.by_id,
        },
        queues: drop_match(st.queues, p.client, p.req_ts, p.uri),
        completed: st.completed.push(
            CompletedModel {
                method: p.method,
                uri: p.uri,
                host: p.host,
                status,
                latency_ms: ts.saturating_sub(p.req_ts),
            },
        ),
        ws_frames: st.ws_frames,
        ws_bytes: st.ws_bytes,
    }
}

/// One event. A request becomes pending under its id (if any) and at the end
/// of its client's queue. A response answers the pending request with its
/// request id when there is one, else the oldest pending request of its
/// client; the answered request then leaves both the id table and its
/// client's queue. A WebSocket frame is counted with its payload size.
pub open spec fn observe_step(st: CorrelationModel, ev: ApiEvent) -> CorrelationModel {
    match ev {
        ApiEvent::HttpRequest { timestamp_ms, request_id, client, method, uri, .. } => {
            let p = PendingModel {
                request_id: opt_text(request_id),
                client: client@,
                method: method@,
                uri: uri@,
                host: host_or_dash(uri@),
                req_ts: timestamp_ms,
            };
            CorrelationModel {
                by_id: match request_id {
                    Some(id) => st.by_id.insert(id@, p),
                    None => st.by_id,
                },
                queues: st.queues.insert(client@, queue_of(st.queues, client@).push(p)),
                ..st
            }
        },
        ApiEvent::HttpResponse { timestamp_ms, request_id, client, status, .. } => {
            let by_id = match request_id {
                Some(id) => st.by_id.contains_key(id@),
                None => false,
            };
            if by_id {
                let id = match request_id {
                    Some(i) => i@,
                    None => Seq::empty(),
                };
                complete(CorrelationModel { by_id: st.by_id.remove(id), ..st }, st.by_id[id], timestamp_ms, status)
            } else {
                let q = queue_of(st.queues, client@);
                if q.len() > 0 {
                    complete(
                        CorrelationModel { queues: st.queues.insert(client@, q.drop_first()), ..st },
                        q[0],
                        timestamp_ms,
                        status,
                    )
                } else {
                    st
                }
            }
        },
        ApiEvent::WebSocketFrame { payload_len, .. } => CorrelationModel {
            ws_frames: st.ws_frames.saturating_add(1),
            ws_bytes: st.ws_bytes.saturating_add(payload_len),
            ..st
        },
    }
}

/// The state after the events of `events`, in order.
pub open spec fn observe_all(events: Seq<ApiEvent>) -> CorrelationModel
    decreases events.len(),
{
    if events.len() == 0 {
        CorrelationModel {
            by_id: Map::empty(),
            queues: Map::empty(),
            completed: Seq::empty(),
            ws_frames: 0,
            ws_bytes: 0,
        }
    } else {
        observe_step(observe_all(events.drop_last()), events.last())
    }
}

/// Matches the responses of a flow log with its requests, one event at a time.
pub struct Correlator {
    by_id: StringHashMap<Pending>,
    slots: StringHashMap<usize>,
    lists: Vec<VecDeque<Pending>>,
    completed: Vec<CompletedReq>,
    ws_frames: usize,
    ws_bytes: usize,
}

impl View for Correlator {
    type V = CorrelationModel;

    /// The state the correlator holds.
    closed spec fn view(&self) -> CorrelationModel {
        CorrelationModel {
            by_id: Map::new(|k: Seq<char>| self.by_id@.contains_key(k), |k: Seq<char>| self.by_id@[k].model()),
            queues: Map::new(
                |c: Seq<char>| self.slots@.contains_key(c),
                |c: Seq<char>| self.queue_at(self.slots@[c] as int),
            ),
            completed: completed_view(self.completed@),
            ws_frames: self.ws_frames,
            ws_bytes: self.ws_bytes,
        }
    }
}

impl Correlator {
    spec fn queue_at(&self, slot: int) -> Seq<PendingModel> {
        pendings_view(self.lists@[slot]@)
    }

    spec fn queues_hold(&self, queues: Map<Seq<char>, Seq<PendingModel>>) -> bool {
        &&& self.slots@.dom() == queues.dom()
        &&& forall|c: Seq<char>| #[trigger] self.slots@.contains_key(c) ==> {
            &&& self.slots@[c] < self.lists@.len()
            &&& queues[c] == self.queue_at(self.slots@[c] as int)
        }
        &&& forall|c1: Seq<char>, c2: Seq<char>|
            #[trigger] self.slots@.contains_key(c1) && #[trigger] self.slots@.contains_key(c2)
                && self.slots@[c1] == self.slots@[c2] ==> c1 == c2
    }

    spec fn ids_hold(&self, by_id: Map<Seq<char>, PendingModel>) -> bool {
        &&& self.by_id@.dom() == by_id.dom()
        &&& forall|k: Seq<char>| #[trigger] self.by_id@.contains_key(k) ==> self.by_id@[k].model() == by_id[k]
    }

    /// The internal tables are consistent.
    pub closed spec fn wf(&self) -> bool {
        &&& forall|c: Seq<char>| #[trigger] self.slots@.contains_key(c) ==> self.slots@[c] < self.lists@.len()
        &&& forall|c1: Seq<char>, c2: Seq<char>|
            #[trigger] self.slots@.contains_key(c1) && #[trigger] self.slots@.contains_key(c2)
                && self.slots@[c1] == self.slots@[c2] ==> c1 == c2
    }

    proof fn lemma_view_holds(&self)
        requires
            self.wf(),
        ensures
            self.queues_hold(self@.queues),
            self.ids_hold(self@.by_id),
    {
        assert(self@.queues.dom() =~= self.slots@.dom());
        assert(self@.by_id.dom() =~= self.by_id@.dom());
    }

    proof fn lemma_holds_view(&self, st: CorrelationModel)
        requires
            self.queues_hold(st.queues),
            self.ids_hold(st.by_id),
            completed_view(self.completed@) == st.completed,
            self.ws_frames == st.ws_frames,
            self.ws_bytes == st.ws_bytes,
        ensures
            self.wf(),
            self@ == st,
    {
        assert(self@.by_id =~= st.by_id);
        assert(self@.queues =~= st.queues);
    }

    pub fn new() -> (r: Self)
        ensures
            r.wf(),
            r@ == observe_all(Seq::empty()),
    {
        let r = Correlator {
            by_id: StringHashMap::new(),
            slots: StringHashMap::new(),
            lists: Vec::new(),
            completed: Vec::new(),
            ws_frames: 0,
            ws_bytes: 0,
        };
        proof {
            let st = observe_all(Seq::<ApiEvent>::empty());
            assert(completed_view(r.completed@) =~= st.completed);
            r.lemma_holds_view(st);
        }
        r
    }
}

impl Correlator {
    /// Appends `p` to the queue of `client`.
    fn enqueue(&mut self, Ghost(qs): Ghost<Map<Seq<char>, Seq<PendingModel>>>, client: &String, p: Pending)
        requires
            old(self).queues_hold(qs),
        ensures
            final(self).queues_hold(qs.insert(client@, queue_of(qs, client@).push(p.model()))),
            final(self).by_id@ == old(self).by_id@,
            final(self).completed@ == old(self).completed@,
            final(self).ws_frames == old(self).ws_frames,
            final(self).ws_bytes == old(self).ws_bytes,
    {
        let ghost nq = qs.insert(client@, queue_of(qs, client@).push(p.model()));
        let ghost old_slots = self.slots@;
        let ghost old_lists = self.lists@;
        match self.slots.get(client.as_str()) {
            Some(s) => {
                let s = *s;
                let mut l = self.lists.remove(s);
                l.push_back(p);
                self.lists.insert(s, l);
                assert(self.lists@ =~= old_lists.update(s as int, l));
                assert(self.slots@.dom() =~= nq.dom());
                assert forall|c: Seq<char>| #[trigger] self.slots@.contains_key(c) implies {
                    &&& self.slots@[c] < self.lists@.len()
                    &&& nq[c] == self.queue_at(self.slots@[c] as int)
                } by {
                    if c == client@ {
                        assert(self.queue_at(s as int) =~= pendings_view(old_lists[s as int]@).push(p.model()));
                    } else {
                        assert(self.slots@[c] != s);
                    }
                }
            },
            None => {
                let s = self.lists.len();
                let mut l: VecDeque<Pending> = VecDeque::new();
                l.push_back(p);
                self.lists.push(l);
                self.slots.insert(client.clone(), s);
                assert(self.slots@.dom() =~= nq.dom());
                assert forall|c: Seq<char>| #[trigger] self.slots@.contains_key(c) implies {
                    &&& self.slots@[c] < self.lists@.len()
                    &&& nq[c] == self.queue_at(self.slots@[c] as int)
                } by {
                    if c == client@ {
                        assert(self.queue_at(s as int) =~= seq![p.model()]);
                        assert(queue_of(qs, c) =~= Seq::<PendingModel>::empty());
                    } else {
                        assert(old_slots.contains_key(c));
                        assert(self.lists@[self.slots@[c] as int] == old_lists[self.slots@[c] as int]);
                    }
                }
                assert forall|c1: Seq<char>, c2: Seq<char>|
                    #[trigger] self.slots@.contains_key(c1) && #[trigger] self.slots@.contains_key(c2)
                        && self.slots@[c1] == self.slots@[c2] implies c1 == c2 by {
                    if c1 != client@ {
                        assert(old_slots.contains_key(c1));
                    }
                    if c2 != client@ {
                        assert(old_slots.contains_key(c2));
                    }
                }
            },
        }
    }

    /// Takes the oldest pending request of `client`, if any.
    fn take_front(&mut self, Ghost(qs): Ghost<Map<Seq<char>, Seq<PendingModel>>>, client: &String) -> (r: Option<Pending>)
        requires
            old(self).queues_hold(qs),
        ensures
            match r {
                Some(p) => {
                    &&& queue_of(qs, client@).len() > 0
                    &&& p.model() == queue_of(qs, client@)[0]
                    &&& final(self).queues_hold(qs.insert(client@, queue_of(qs, client@).drop_first()))
                },
                None => {
                    &&& queue_of(qs, client@).len() == 0
                    &&& final(self).queues_hold(qs)
                },
            },
            final(self).by_id@ == old(self).by_id@,
            final(self).completed@ == old(self).completed@,
            final(self).ws_frames == old(self).ws_frames,
            final(self).ws_bytes == old(self).ws_bytes,
    {
        let ghost old_lists = self.lists@;
        match self.slots.get(client.as_str()) {
            Some(s) => {
                let s = *s;
                if self.lists[s].len() == 0 {
                    return None;
                }
                let mut l = self.lists.remove(s);
                let p = match l.pop_front() {
                    Some(p) => p,
                    None => {
                        self.lists.insert(s, l);
                        return None;
                    },
                };
                self.lists.insert(s, l);
                let ghost nq = qs.insert(client@, queue_of(qs, client@).drop_first());
                assert(self.lists@ =~= old_lists.update(s as int, l));
                assert(self.slots@.dom() =~= nq.dom());
                assert forall|c: Seq<char>| #[trigger] self.slots@.contains_key(c) implies {
                    &&& self.slots@[c] < self.lists@.len()
                    &&& nq[c] == self.queue_at(self.slots@[c] as int)
                } by {
                    if c == client@ {
                        assert(self.queue_at(s as int) =~= pendings_view(old_lists[s as int]@).drop_first());
                    } else {
                        assert(self.slots@[c] != s);
                    }
                }
                Some(p)
            },
            None => None,
        }
    }

    /// Index of the first pending request of `v` with timestamp `ts` and URI `uri`.
    fn find_match(v: &VecDeque<Pending>, ts: u64, uri: &String) -> (r: Option<usize>)
        ensures
            match r {
                Some(k) => first_match(pendings_view(v@), ts, uri@, 0) == Some(k as int),
                None => first_match(pendings_view(v@), ts, uri@, 0) is None,
            },
    {
        let ghost q = pendings_view(v@);
        let n = v.len();
        let mut i: usize = 0;
        while i < n
            invariant
                n == v.len(),
                q == pendings_view(v@),
                i <= n,
                first_match(q, ts, uri@, 0) == first_match(q, ts, uri@, i as int),
            decreases n - i,
        {
            if v[i].req_ts == ts && v[i].uri == *uri {
                return Some(i);
            }
            i = i + 1;
        }
        None
    }

    /// Removes the first pending request of `client` with timestamp `ts` and URI `uri`.
    fn drop_first_match(
        &mut self,
        Ghost(qs): Ghost<Map<Seq<char>, Seq<PendingModel>>>,
        client: &String,
        ts: u64,
        uri: &String,
    )
        requires
            old(self).queues_hold(qs),
        ensures
            final(self).queues_hold(drop_match(qs, client@, ts, uri@)),
            final(self).by_id@ == old(self).by_id@,
            final(self).completed@ == old(self).completed@,
            final(self).ws_frames == old(self).ws_frames,
            final(self).ws_bytes == old(self).ws_bytes,
    {
        let ghost old_lists = self.lists@;
        match self.slots.get(client.as_str()) {
            Some(s) => {
                let s = *s;
                match Self::find_match(&self.lists[s], ts, uri) {
                    Some(pos) => {
                        proof {
                            lemma_first_match_bounds(pendings_view(old_lists[s as int]@), ts, uri@, 0);
                        }
                        let mut l = self.lists.remove(s);
                        let _ = l.remove(pos);
                        self.lists.insert(s, l);
                        let ghost nq = drop_match(qs, client@, ts, uri@);
                        assert(self.lists@ =~= old_lists.update(s as int, l));
                        assert(self.slots@.dom() =~= nq.dom());
                        assert forall|c: Seq<char>| #[trigger] self.slots@.contains_key(c) implies {
                            &&& self.slots@[c] < self.lists@.len()
                            &&& nq[c] == self.queue_at(self.slots@[c] as int)
                        } by {
                            if c == client@ {
                                assert(self.queue_at(s as int) =~= pendings_view(old_lists[s as int]@).remove(pos as int));
                            } else {
                                assert(self.slots@[c] != s);
                            }
                        }
                    },
                    None => {},
                }
            },
            None => {},
        }
    }
}

impl Correlator {
    /// Records one event of the flow log (see [`observe_step`]).
    pub fn observe(&mut self, ev: &ApiEvent)
        requires
            old(self).wf(),
        ensures
            final(self).wf(),
            final(self)@ == observe_step(old(self)@, *ev),
    {
        let ghost st = self@;
        proof {
            self.lemma_view_holds();
        }
        match ev {
            ApiEvent::HttpRequest { timestamp_ms, request_id, client, method, uri, .. } => {
                let host = match parse_host_from_uri(uri.as_str()) {
                    Some(h) => h,
                    None => "-".to_owned(),
                };
                proof {
                    reveal_strlit("-");
                }
                let p = Pending {
                    request_id: match request_id {
                        Some(id) => Some(id.clone()),
                        None => None,
                    },
                    client: client.clone(),
                    method: method.clone(),
                    uri: uri.clone(),
                    host,
                    req_ts: *timestamp_ms,
                };
                let ghost pm = p.model();
                if let Some(id) = request_id {
                    let q = p.duplicate();
                    self.by_id.insert(id.clone(), q);
                }
                let ghost nst = observe_step(st, *ev);
                assert(self.ids_hold(nst.by_id));
                self.enqueue(Ghost(st.queues), client, p);
                proof {
                    self.lemma_holds_view(nst);
                }
            },
            ApiEvent::HttpResponse { timestamp_ms, request_id, client, status, .. } => {
                let mut pending: Option<Pending> = None;
                let ghost mut mid = st;
                if let Some(id) = request_id {
                    if let Some(p) = self.by_id.get(id.as_str()) {
                        pending = Some(p.duplicate());
                    }
                    if pending.is_some() {
                        self.by_id.remove(id.as_str());
                        proof {
                            mid = CorrelationModel { by_id: st.by_id.remove(id@), ..st };
                        }
                    }
                }
                if pending.is_none() {
                    pending = self.take_front(Ghost(st.queues), client);
                    proof {
                        let q = queue_of(st.queues, client@);
                        if q.len() > 0 {
                            mid = CorrelationModel { queues: st.queues.insert(client@, q.drop_first()), ..st };
                        }
                    }
                }
                assert(self.ids_hold(mid.by_id));
                assert(self.queues_hold(mid.queues));
                match pending {
                    Some(p) => {
                        let ghost nst = complete(mid, p.model(), *timestamp_ms, *status);
                        let latency_ms = timestamp_ms.saturating_sub(p.req_ts);
                        if let Some(rid) = &p.request_id {
                            self.by_id.remove(rid.as_str());
                        }
                        assert(self.ids_hold(nst.by_id));
                        self.drop_first_match(Ghost(mid.queues), &p.client, p.req_ts, &p.uri);
                        let ghost before = self.completed@;
                        self.completed.push(
                            CompletedReq { method: p.method, uri: p.uri, host: p.host, status: *status, latency_ms },
                        );
                        assert(completed_view(self.completed@) =~= completed_view(before).push(
                            self.completed@.last().model(),
                        ));
                        proof {
                            self.lemma_holds_view(nst);
                        }
                    },
                    None => {
                        proof {
                            self.lemma_holds_view(st);
                        }
                    },
                }
            },
            ApiEvent::WebSocketFrame { payload_len, .. } => {
                self.ws_frames = self.ws_frames.saturating_add(1);
                self.ws_bytes = self.ws_bytes.saturating_add(*payload_len);
                proof {
                    self.lemma_holds_view(observe_step(st, *ev));
                }
            },
        }
    }

    /// The exchanges completed so far, in the order their responses came.
    pub fn completed(&self) -> (r: &Vec<CompletedReq>)
        ensures
            completed_view(r@) == self@.completed,
    {
        &self.completed
    }

    /// Number of WebSocket frames seen (saturating).
    pub fn ws_frames(&self) -> (r: usize)
        ensures
            r == self@.ws_frames,
    {
        self.ws_frames
    }

    /// Total WebSocket payload bytes seen (saturating).
    pub fn ws_bytes(&self) -> (r: usize)
        ensures
            r == self@.ws_bytes,
    {
        self.ws_bytes
    }
}

/// Correlates a whole flow log (see [`observe_step`]).
pub fn correlate(events: &Vec<ApiEvent>) -> (r: Correlator)
    ensures
        r.wf(),
        r@ == observe_all(events@),
{
    let mut c = Correlator::new();
    let n = events.len();
    let mut i: usize = 0;
    while i < n
        invariant
            n == events@.len(),
            i <= n,
            c.wf(),
            c@ == observe_all(events@.take(i as int)),
        decreases n - i,
    {
        c.observe(&events[i]);
        proof {
            assert(events@.take(i + 1).drop_last() =~= events@.take(i as int));
        }
        i = i + 1;
    }
    assert(events@.take(n as int) =~= events@);
    c
}

/// The number of response events in `events`.
pub open spec fn responses_in(events: Seq<ApiEvent>) -> nat
    decreases events.len(),
{
    if events.len() == 0 {
        0
    } else {
        responses_in(events.drop_last()) + if events.last() is HttpResponse {
            1nat
        } else {
            0nat
        }
    }
}

/// Each response completes at most one request: there are never more
/// completed exchanges than responses, and completed exchanges are only
/// ever added.
pub proof fn law_completed_at_most_responses(events: Seq<ApiEvent>)
    ensures
        observe_all(events).completed.len() <= responses_in(events),
        events.len() > 0 ==> observe_all(events.drop_last()).completed
            == observe_all(events).completed.take(observe_all(events.drop_last()).completed.len() as int),
    decreases events.len(),
{
    if events.len() > 0 {
        law_completed_at_most_responses(events.drop_last());
        let prev = observe_all(events.drop_last());
        let cur = observe_all(events);
        assert(prev.completed =~= cur.completed.take(prev.completed.len() as int));
    }
}

} // verus!
