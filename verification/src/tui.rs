//! State of the flow browser: the flows seen on the event stream, the
//! filter, the selection and the key handling.
use vstd::prelude::*;
use vstd::hash_map::StringHashMap;
use crate::api::ApiEvent;
use crate::query::{parse, ContextModel, EvalContext, Expr, ExprModel, NumberError, ParseError, ParseErrorModel};
use crate::text::{push_decimal, push_str, trim, trim_to_string};
use crate::uri::{has_prefix, host_of_uri, parse_host_from_uri};
use crate::replay_tool::{method_accepted, method_parses};
use crate::report::{is_connect, is_connect_method};

verus! {

/// One row: a request and, once seen, the status of its response.
#[derive(Debug)]
pub struct Flow {
    pub client: String,
    pub method: Option<String>,
    pub uri: Option<String>,
    pub status: Option<u16>,
}

/// Model of a [`Flow`].
pub struct FlowModel {
    pub client: Seq<char>,
    pub method: Option<Seq<char>>,
    pub uri: Option<Seq<char>>,
    pub status: Option<u16>,
}

pub open spec fn opt_text(o: Option<String>) -> Option<Seq<char>> {
    match o {
        Some(s) => Some(s@),
        None => None,
    }
}

impl Flow {
    pub open spec fn model(&self) -> FlowModel {
        FlowModel {
            client: self.client@,
            method: opt_text(self.method),
            uri: opt_text(self.uri),
            status: self.status,
        }
    }
}

fn clone_opt(o: &Option<String>) -> (r: Option<String>)
    ensures
        opt_text(r) == opt_text(*o),
{
    match o {
        Some(s) => Some(s.clone()),
        None => None,
    }
}

impl Clone for Flow {
    fn clone(&self) -> (r: Self)
        ensures
            r.model() == self.model(),
    {
        Flow {
            client: self.client.clone(),
            method: clone_opt(&self.method),
            uri: clone_opt(&self.uri),
            status: self.status,
        }
    }
}

/// Whether keys move the selection or edit the filter.
#[derive(Debug, Clone, Copy, PartialEq, Eq)]
pub enum InputMode {
    Normal,
    Filter,
}

impl Default for InputMode {
    fn default() -> (r: Self)
        ensures
            r == InputMode::Normal,
    {
        InputMode::Normal
    }
}

/// A key press, as far as the browser distinguishes keys.
#[derive(Debug, Clone, Copy, PartialEq, Eq)]
pub enum Key {
    Char(char),
    Up,
    Down,
    Esc,
    Enter,
    Backspace,
    Other,
}

/// What the caller must do after a key press.
#[derive(Debug, Clone, Copy, PartialEq, Eq)]
pub enum KeyAction {
    /// Nothing more.
    Continue,
    /// Leave the browser.
    Quit,
    /// Replay the selected flow (see [`App::replay_target`]).
    Replay,
}

/// The evaluation context of a flow: its method, URI, the host of its URI
/// and its status.
pub open spec fn flow_context(f: FlowModel) -> ContextModel {
    ContextModel {
        req_method: f.method,
        req_uri: f.uri,
        req_host: match f.uri {
            Some(u) => host_of_uri(u),
            None => None,
        },
        res_status: f.status,
    }
}

/// Whether a flow passes the filter (every flow passes when there is none).
pub open spec fn flow_matches(filter: Option<ExprModel>, f: FlowModel) -> bool {
    match filter {
        None => true,
        Some(e) => e.holds(flow_context(f)),
    }
}

/// Whether a flow is shown: it passes the filter and, when CONNECT flows
/// are hidden, its method is not CONNECT (in any ASCII case).
pub open spec fn flow_passes(filter: Option<ExprModel>, hide_connect: bool, f: FlowModel) -> bool {
    &&& !(hide_connect && (f.method matches Some(m) && is_connect(m)))
    &&& flow_matches(filter, f)
}

/// Indices, in order, of the flows among the first `n` that are shown.
pub open spec fn visible(flows: Seq<FlowModel>, filter: Option<ExprModel>, hide_connect: bool, n: int) -> Seq<usize>
    decreases n,
{
    if n <= 0 {
        Seq::empty()
    } else if flow_passes(filter, hide_connect, flows[n - 1]) {
        visible(flows, filter, hide_connect, n - 1).push((n - 1) as usize)
    } else {
        visible(flows, filter, hide_connect, n - 1)
    }
}

/// The whole state of the browser, as the contracts see it.
pub struct AppState {
    pub flows: Seq<FlowModel>,
    pub selected: usize,
    pub mode: InputMode,
    pub filter_text: Seq<char>,
    pub filter: Option<ExprModel>,
    pub status: Seq<char>,
    pub latest: Map<Seq<char>, usize>,
    pub hide_connect: bool,
}

/// The rows a state shows.
pub open spec fn state_visible(s: AppState) -> Seq<usize> {
    visible(s.flows, s.filter, s.hide_connect, s.flows.len() as int)
}

/// One row down (staying on the last shown row; row 0 when none is shown).
pub open spec fn after_next(s: AppState) -> AppState {
    let n = state_visible(s).len();
    AppState {
        selected: if n == 0 {
            0usize
        } else if s.selected + 1 < n {
            (s.selected + 1) as usize
        } else {
            (n - 1) as usize
        },
        ..s
    }
}

/// One row up (staying on the first row).
pub open spec fn after_prev(s: AppState) -> AppState {
    AppState { selected: if s.selected > 0 { (s.selected - 1) as usize } else { 0usize }, ..s }
}

/// The first row.
pub open spec fn after_first(s: AppState) -> AppState {
    AppState { selected: 0usize, ..s }
}

/// The last shown row (row 0 when none is shown).
pub open spec fn after_last(s: AppState) -> AppState {
    let n = state_visible(s).len();
    AppState { selected: if n > 0 { (n - 1) as usize } else { 0usize }, ..s }
}

/// No flows, no per-client rows, row 0, and the status says so.
pub open spec fn after_clear(s: AppState) -> AppState {
    AppState {
        flows: Seq::empty(),
        latest: Map::empty(),
        selected: 0usize,
        status: "flows cleared"@,
        ..s
    }
}

/// The filter text applied: blank clears the filter; text that parses
/// becomes the filter; other text leaves the filter and says why.
pub open spec fn after_apply_filter(s: AppState) -> AppState {
    let t = trim(s.filter_text);
    if t.len() == 0 {
        AppState { filter: None, status: "filter cleared"@, ..s }
    } else {
        match crate::query::spec_parse(t) {
            Ok(e) => AppState { filter: Some(e), status: "filter applied: "@ + t, ..s },
            Err(x) => AppState { status: "invalid filter: "@ + parse_error_text(x), ..s },
        }
    }
}

/// The state after a key, and what is left to the caller.
///
/// Normal mode: `q` quits, `j`/Down and `k`/Up move, `g`/`G` go to the
/// first/last row, `r` asks for a replay, `/` starts a new filter text, `c`
/// clears the flows, `x` hides or shows CONNECT flows. Filter mode: Esc
/// abandons the text, Enter applies it, Backspace deletes, other characters
/// are typed. Every other key changes nothing.
pub open spec fn key_step(s: AppState, key: Key) -> (AppState, KeyAction) {
    match s.mode {
        InputMode::Normal => match key {
            Key::Char('q') => (s, KeyAction::Quit),
            Key::Down => (after_next(s), KeyAction::Continue),
            Key::Char('j') => (after_next(s), KeyAction::Continue),
            Key::Up => (after_prev(s), KeyAction::Continue),
            Key::Char('k') => (after_prev(s), KeyAction::Continue),
            Key::Char('g') => (after_first(s), KeyAction::Continue),
            Key::Char('G') => (after_last(s), KeyAction::Continue),
            Key::Char('r') => (s, KeyAction::Replay),
            Key::Char('/') => (
                AppState { mode: InputMode::Filter, filter_text: Seq::empty(), ..s },
                KeyAction::Continue,
            ),
            Key::Char('c') => (after_clear(s), KeyAction::Continue),
            Key::Char('x') => (AppState { hide_connect: !s.hide_connect, ..s }, KeyAction::Continue),
            _ => (s, KeyAction::Continue),
        },
        InputMode::Filter => match key {
            Key::Esc => (
                AppState { mode: InputMode::Normal, filter_text: Seq::empty(), ..s },
                KeyAction::Continue,
            ),
            Key::Enter => (AppState { mode: InputMode::Normal, ..after_apply_filter(s) }, KeyAction::Continue),
            Key::Backspace => (
                AppState {
                    filter_text: if s.filter_text.len() > 0 {
                        s.filter_text.drop_last()
                    } else {
                        s.filter_text
                    },
                    ..s
                },
                KeyAction::Continue,
            ),
            Key::Char(c) => (AppState { filter_text: s.filter_text.push(c), ..s }, KeyAction::Continue),
            _ => (s, KeyAction::Continue),
        },
    }
}

pub open spec fn mode_text(m: InputMode) -> Seq<char> {
    match m {
        InputMode::Normal => "NORMAL"@,
        InputMode::Filter => "FILTER"@,
    }
}

/// The footer line.
pub open spec fn footer(status: Seq<char>, m: InputMode, visible_count: nat, total: nat) -> Seq<char> {
    let tail = "mode="@ + mode_text(m) + "  visible="@ + crate::text::decimal(visible_count) + "/"@
        + crate::text::decimal(total);
    if status.len() == 0 {
        tail
    } else {
        status + " | "@ + tail
    }
}

/// Text of a number error, as `ParseIntError` displays it.
pub open spec fn number_error_text(e: NumberError) -> Seq<char> {
    match e {
        NumberError::Empty => "cannot parse integer from empty string"@,
        NumberError::InvalidDigit => "invalid digit found in string"@,
        NumberError::PosOverflow => "number too large to fit in target type"@,
        NumberError::NegOverflow => "number too small to fit in target type"@,
    }
}

/// Text shown for a rejected expression: what was wrong and where.
pub open spec fn parse_error_text(e: ParseErrorModel) -> Seq<char> {
    match e {
        ParseErrorModel::Empty => "empty expression"@,
        ParseErrorModel::UnsupportedOperator(t) => "unsupported operator in expression: "@ + t,
        ParseErrorModel::UnsupportedField(t) => "unsupported field: "@ + t,
        ParseErrorModel::InvalidNumber(k) => number_error_text(k),
    }
}

/// Text of a parse error.
pub fn parse_error_message(e: &ParseError) -> (r: String)
    ensures
        r@ == parse_error_text(e.model()),
{
    match e {
        ParseError::Empty => "empty expression".to_owned(),
        ParseError::UnsupportedOperator(t) => {
            let mut out = "unsupported operator in expression: ".to_owned();
            push_str(&mut out, t.as_str());
            out
        },
        ParseError::UnsupportedField(t) => {
            let mut out = "unsupported field: ".to_owned();
            push_str(&mut out, t.as_str());
            out
        },
        ParseError::InvalidNumber(k) => match k {
            NumberError::Empty => "cannot parse integer from empty string".to_owned(),
            NumberError::InvalidDigit => "invalid digit found in string".to_owned(),
            NumberError::PosOverflow => "number too large to fit in target type".to_owned(),
            NumberError::NegOverflow => "number too small to fit in target type".to_owned(),
        },
    }
}

/// Why the selected flow cannot be replayed.
#[derive(Debug, Clone, Copy, PartialEq, Eq)]
pub enum ReplayRefusal {
    NoFlowSelected,
    NoMethod,
    NoUri,
    NotAbsolute,
    /// The method is not a valid HTTP method.
    InvalidMethod,
}

pub open spec fn refusal_text(r: ReplayRefusal) -> Seq<char> {
    match r {
        ReplayRefusal::NoFlowSelected => "no flow selected for replay"@,
        ReplayRefusal::NoMethod => "selected flow has no method"@,
        ReplayRefusal::NoUri => "selected flow has no uri"@,
        ReplayRefusal::NotAbsolute => "selected uri is not absolute"@,
        ReplayRefusal::InvalidMethod => "invalid method for replay: "@,
    }
}

impl ReplayRefusal {
    /// The status line shown for the refusal; `method` is the selected
    /// flow's method, named after the text of an invalid one.
    pub fn message(&self, method: &str) -> (r: String)
        ensures
            r@ == refusal_text(*self) + (if *self is InvalidMethod {
                method@
            } else {
                Seq::<char>::empty()
            }),
    {
        let mut out = String::new();
        match self {
            ReplayRefusal::NoFlowSelected => push_str(&mut out, "no flow selected for replay"),
            ReplayRefusal::NoMethod => push_str(&mut out, "selected flow has no method"),
            ReplayRefusal::NoUri => push_str(&mut out, "selected flow has no uri"),
            ReplayRefusal::NotAbsolute => push_str(&mut out, "selected uri is not absolute"),
            ReplayRefusal::InvalidMethod => {
                push_str(&mut out, "invalid method for replay: ");
                push_str(&mut out, method);
            },
        }
        proof {
            reveal_strlit("no flow selected for replay");
            reveal_strlit("selected flow has no method");
            reveal_strlit("selected flow has no uri");
            reveal_strlit("selected uri is not absolute");
            reveal_strlit("invalid method for replay: ");
        }
        assert(out@ =~= refusal_text(*self) + (if *self is InvalidMethod {
            method@
        } else {
            Seq::<char>::empty()
        }));
        out
    }
}

/// The browser state.
pub struct App {
    flows: Vec<Flow>,
    selected: usize,
    input_mode: InputMode,
    filter_buffer: String,
    filter_expr: Option<Expr>,
    status_line: String,
    latest_req_idx_by_client: StringHashMap<usize>,
    hide_connect: bool,
}

/// `String::pop`, which vstd gives no specification.
#[verifier::external_body]
fn pop_char(s: &mut String)
    ensures
        old(s)@.len() > 0 ==> final(s)@ == old(s)@.drop_last(),
        old(s)@.len() == 0 ==> final(s)@ == old(s)@,
{
    s.pop();
}

impl App {
    pub closed spec fn flows(&self) -> Seq<FlowModel> {
        self.flows@.map_values(|f: Flow| f.model())
    }

    pub closed spec fn selected(&self) -> usize {
        self.selected
    }

    pub closed spec fn mode(&self) -> InputMode {
        self.input_mode
    }

    pub closed spec fn filter_text(&self) -> Seq<char> {
        self.filter_buffer@
    }

    pub closed spec fn filter(&self) -> Option<ExprModel> {
        match self.filter_expr {
            Some(e) => Some(e.model()),
            None => None,
        }
    }

    pub closed spec fn status_text(&self) -> Seq<char> {
        self.status_line@
    }

    /// The row of the latest request of each client.
    pub closed spec fn latest(&self) -> Map<Seq<char>, usize> {
        self.latest_req_idx_by_client@
    }

    /// Whether CONNECT flows are hidden.
    pub closed spec fn hides_connect(&self) -> bool {
        self.hide_connect
    }

    /// The indices of the rows that are shown.
    pub open spec fn visible_rows(&self) -> Seq<usize> {
        visible(self.flows(), self.filter(), self.hides_connect(), self.flows().len() as int)
    }

    /// The whole state.
    pub open spec fn state(&self) -> AppState {
        AppState {
            flows: self.flows(),
            selected: self.selected(),
            mode: self.mode(),
            filter_text: self.filter_text(),
            filter: self.filter(),
            status: self.status_text(),
            latest: self.latest(),
            hide_connect: self.hides_connect(),
        }
    }

    /// An empty browser.
    pub fn new() -> (r: Self)
        ensures
            r.flows().len() == 0,
            r.selected() == 0,
            r.mode() == InputMode::Normal,
            r.filter_text().len() == 0,
            r.filter() is None,
            r.status_text().len() == 0,
            r.latest() == Map::<Seq<char>, usize>::empty(),
            !r.hides_connect(),
    {
        let r = App {
            flows: Vec::new(),
            selected: 0,
            input_mode: InputMode::Normal,
            filter_buffer: String::new(),
            filter_expr: None,
            status_line: String::new(),
            latest_req_idx_by_client: StringHashMap::new(),
            hide_connect: false,
        };
        assert(r.flows() =~= Seq::<FlowModel>::empty());
        r
    }

    /// Whether a flow passes the current filter.
    pub fn matches(&self, flow: &Flow) -> (r: bool)
        ensures
            r == flow_matches(self.filter(), flow.model()),
    {
        match &self.filter_expr {
            None => true,
            Some(expr) => {
                let host = match &flow.uri {
                    Some(u) => parse_host_from_uri(u.as_str()),
                    None => None,
                };
                let ctx = EvalContext {
                    req_method: clone_opt(&flow.method),
                    req_uri: clone_opt(&flow.uri),
                    req_host: host,
                    res_status: flow.status,
                };
                assert(ctx.model() == flow_context(flow.model()));
                expr.eval(&ctx)
            },
        }
    }

    /// Whether a flow is shown (see [`flow_passes`]).
    pub fn passes(&self, flow: &Flow) -> (r: bool)
        ensures
            r == flow_passes(self.filter(), self.hides_connect(), flow.model()),
    {
        if self.hide_connect {
            if let Some(m) = &flow.method {
                if is_connect_method(m.as_str()) {
                    return false;
                }
            }
        }
        self.matches(flow)
    }

    /// Indices of the rows that are shown, in order.
    pub fn filtered_indices(&self) -> (r: Vec<usize>)
        ensures
            r@ == self.visible_rows(),
    {
        let n = self.flows.len();
        let mut out: Vec<usize> = Vec::new();
        let mut i: usize = 0;
        while i < n
            invariant
                n == self.flows@.len(),
                i <= n,
                out@ == visible(self.flows(), self.filter(), self.hides_connect(), i as int),
            decreases n - i,
        {
            let m = self.passes(&self.flows[i]);
            assert(self.flows()[i as int] == self.flows@[i as int].model());
            if m {
                out.push(i);
            }
            i = i + 1;
        }
        out
    }

    /// The selected row, among the visible ones.
    pub fn selected_flow(&self) -> (r: Option<&Flow>)
        ensures
            self.selected() < self.visible_rows().len() ==> (r matches Some(f) && f.model()
                == self.flows()[self.visible_rows()[self.selected() as int] as int]),
            self.selected() >= self.visible_rows().len() ==> r is None,
    {
        let idxs = self.filtered_indices();
        if self.selected < idxs.len() {
            let idx = idxs[self.selected];
            proof {
                lemma_visible_bounds(self.flows(), self.filter(), self.hides_connect(), self.flows().len() as int);
            }
            Some(&self.flows[idx])
        } else {
            None
        }
    }

    /// The selection as shown: `None` when no row is visible, else the
    /// selection clamped to the last visible row.
    pub fn selected_visible(&self) -> (r: Option<usize>)
        ensures
            self.visible_rows().len() == 0 ==> r is None,
            self.visible_rows().len() > 0 ==> r == Some(
                if self.selected() < self.visible_rows().len() {
                    self.selected()
                } else {
                    (self.visible_rows().len() - 1) as usize
                },
            ),
    {
        let len = self.filtered_indices().len();
        if len == 0 {
            None
        } else if self.selected < len {
            Some(self.selected)
        } else {
            Some(len - 1)
        }
    }

    /// Moves the selection down one visible row (it stays on the last one).
    pub fn next(&mut self)
        ensures
            final(self).state() == after_next(old(self).state()),
    {
        let len = self.filtered_indices().len();
        if len == 0 {
            self.selected = 0;
            return ;
        }
        if self.selected < len - 1 {
            self.selected = self.selected + 1;
        } else {
            self.selected = len - 1;
        }
    }

    /// Moves the selection up one row (it stays on the first one).
    pub fn prev(&mut self)
        ensures
            final(self).state() == after_prev(old(self).state()),
    {
        if self.selected > 0 {
            self.selected = self.selected - 1;
        }
    }

    /// Selects the first row.
    pub fn first(&mut self)
        ensures
            final(self).state() == after_first(old(self).state()),
    {
        self.selected = 0;
    }

    /// Selects the last visible row (row 0 when none is visible).
    pub fn last(&mut self)
        ensures
            final(self).state() == after_last(old(self).state()),
    {
        let len = self.filtered_indices().len();
        if len > 0 {
            self.selected = len - 1;
        } else {
            self.selected = 0;
        }
    }

    /// Forgets every flow.
    pub fn clear(&mut self)
        ensures
            final(self).state() == after_clear(old(self).state()),
    {
        self.flows = Vec::new();
        self.latest_req_idx_by_client.clear();
        self.selected = 0;
        self.status_line = "flows cleared".to_owned();
        proof {
            reveal_strlit("flows cleared");
        }
        assert(self.flows() =~= Seq::<FlowModel>::empty());
        assert(self.latest() =~= Map::<Seq<char>, usize>::empty());
    }

    /// The footer: the status line (if any), the mode and the visible and
    /// total row counts.
    pub fn footer_text(&self) -> (r: String)
        ensures
            r@ == footer(
                self.status_text(),
                self.mode(),
                self.visible_rows().len(),
                self.flows().len(),
            ),
    {
        let total = self.flows.len();
        let vis = self.filtered_indices().len();
        let mut out = String::new();
        if !self.status_line.as_str().is_empty() {
            push_str(&mut out, self.status_line.as_str());
            push_str(&mut out, " | ");
        }
        push_str(&mut out, "mode=");
        match self.input_mode {
            InputMode::Normal => push_str(&mut out, "NORMAL"),
            InputMode::Filter => push_str(&mut out, "FILTER"),
        }
        push_str(&mut out, "  visible=");
        push_decimal(&mut out, vis as u64);
        push_str(&mut out, "/");
        push_decimal(&mut out, total as u64);
        assert(out@ =~= footer(self.status_text(), self.mode(), vis as nat, total as nat));
        out
    }

    /// Applies the filter text: blank clears the filter; otherwise the
    /// trimmed text is parsed and, when it parses, becomes the filter.
    pub fn apply_filter(&mut self)
        ensures
            final(self).state() == after_apply_filter(old(self).state()),
    {
        let s = trim_to_string(self.filter_buffer.as_str());
        if s.as_str().is_empty() {
            self.filter_expr = None;
            self.status_line = "filter cleared".to_owned();
            return ;
        }
        proof {
            crate::text::lemma_trim_bounds(
                old(self).filter_text(),
                0,
                old(self).filter_text().len() as int,
            );
        }
        match parse(s.as_str()) {
            Ok(expr) => {
                self.filter_expr = Some(expr);
                let mut st = "filter applied: ".to_owned();
                push_str(&mut st, s.as_str());
                self.status_line = st;
            },
            Err(err) => {
                let mut st = "invalid filter: ".to_owned();
                push_str(&mut st, parse_error_message(&err).as_str());
                self.status_line = st;
            },
        }
    }

    /// Records an event of the stream: a request adds a row and becomes the
    /// latest request of its client; a response sets the status of the latest
    /// request of its client, or adds a status-only row when there is none.
    /// The selection is then clamped to the rows.
    pub fn ingest(&mut self, event: ApiEvent)
        ensures
            final(self).mode() == old(self).mode(),
            final(self).filter_text() == old(self).filter_text(),
            final(self).filter() == old(self).filter(),
            final(self).status_text() == old(self).status_text(),
            final(self).hides_connect() == old(self).hides_connect(),
            match event {
                ApiEvent::HttpRequest { client, method, uri, .. } => {
                    &&& final(self).flows() == old(self).flows().push(
                        FlowModel {
                            client: client@,
                            method: Some(method@),
                            uri: Some(uri@),
                            status: None,
                        },
                    )
                    &&& final(self).latest() == old(self).latest().insert(
                        client@,
                        old(self).flows().len() as usize,
                    )
                },
                ApiEvent::HttpResponse { client, status, .. } => {
                    &&& final(self).latest() == old(self).latest()
                    &&& if old(self).latest().contains_key(client@) {
                        let i = old(self).latest()[client@] as int;
                        final(self).flows() == if i < old(self).flows().len() {
                            old(self).flows().update(
                                i,
                                FlowModel { status: Some(status), ..old(self).flows()[i] },
                            )
                        } else {
                            old(self).flows()
                        }
                    } else {
                        final(self).flows() == old(self).flows().push(
                            FlowModel { client: client@, method: None, uri: None, status: Some(status) },
                        )
                    }
                },
                ApiEvent::WebSocketFrame { .. } => {
                    &&& final(self).flows() == old(self).flows()
                    &&& final(self).latest() == old(self).latest()
                },
            },
            final(self).flows().len() > 0 ==> final(self).selected() == if old(self).selected()
                < final(self).flows().len() {
                old(self).selected()
            } else {
                (final(self).flows().len() - 1) as usize
            },
            final(self).flows().len() == 0 ==> final(self).selected() == old(self).selected(),
    {
        let ghost before = self.flows();
        match event {
            ApiEvent::HttpRequest { client, method, uri, .. } => {
                let idx = self.flows.len();
                let key = client.clone();
                self.flows.push(Flow { client, method: Some(method), uri: Some(uri), status: None });
                self.latest_req_idx_by_client.insert(key, idx);
                assert(self.flows() =~= before.push(self.flows@[idx as int].model()));
            },
            ApiEvent::HttpResponse { client, status, .. } => {
                match self.latest_req_idx_by_client.get(client.as_str()) {
                    Some(i) => {
                        let idx = *i;
                        if idx < self.flows.len() {
                            let mut f = self.flows[idx].clone();
                            f.status = Some(status);
                            self.flows.set(idx, f);
                            assert(self.flows() =~= before.update(
                                idx as int,
                                FlowModel { status: Some(status), ..before[idx as int] },
                            ));
                        }
                    },
                    None => {
                        let idx = self.flows.len();
                        self.flows.push(Flow { client, method: None, uri: None, status: Some(status) });
                        assert(self.flows() =~= before.push(self.flows@[idx as int].model()));
                    },
                }
            },
            ApiEvent::WebSocketFrame { .. } => {},
        }
        let n = self.flows.len();
        if n > 0 && self.selected >= n {
            self.selected = n - 1;
        }
    }

    /// Handles a key press (see [`key_step`]; [`KeyAction`] says what is
    /// left to the caller).
    pub fn on_key(&mut self, key: Key) -> (r: KeyAction)
        ensures
            final(self).state() == key_step(old(self).state(), key).0,
            r == key_step(old(self).state(), key).1,
    {
        match self.input_mode {
            InputMode::Normal => match key {
                Key::Char('q') => KeyAction::Quit,
                Key::Down | Key::Char('j') => {
                    self.next();
                    KeyAction::Continue
                },
                Key::Up | Key::Char('k') => {
                    self.prev();
                    KeyAction::Continue
                },
                Key::Char('g') => {
                    self.first();
                    KeyAction::Continue
                },
                Key::Char('G') => {
                    self.last();
                    KeyAction::Continue
                },
                Key::Char('r') => KeyAction::Replay,
                Key::Char('/') => {
                    self.input_mode = InputMode::Filter;
                    self.filter_buffer = String::new();
                    KeyAction::Continue
                },
                Key::Char('c') => {
                    self.clear();
                    KeyAction::Continue
                },
                Key::Char('x') => {
                    self.hide_connect = !self.hide_connect;
                    KeyAction::Continue
                },
                _ => KeyAction::Continue,
            },
            InputMode::Filter => match key {
                Key::Esc => {
                    self.input_mode = InputMode::Normal;
                    self.filter_buffer = String::new();
                    KeyAction::Continue
                },
                Key::Enter => {
                    self.apply_filter();
                    self.input_mode = InputMode::Normal;
                    KeyAction::Continue
                },
                Key::Backspace => {
                    pop_char(&mut self.filter_buffer);
                    KeyAction::Continue
                },
                Key::Char(c) => {
                    crate::text::push_char(&mut self.filter_buffer, c);
                    KeyAction::Continue
                },
                _ => KeyAction::Continue,
            },
        }
    }

    /// Sets the status line.
    pub fn set_status_line(&mut self, text: String)
        ensures
            final(self).status_text() == text@,
            final(self).flows() == old(self).flows(),
            final(self).selected() == old(self).selected(),
            final(self).mode() == old(self).mode(),
            final(self).filter_text() == old(self).filter_text(),
            final(self).filter() == old(self).filter(),
            final(self).latest() == old(self).latest(),
            final(self).hides_connect() == old(self).hides_connect(),
    {
        self.status_line = text;
    }

    /// What a replay of the selected row would send: its method and its
    /// absolute URI, or why it cannot be replayed.
    pub fn replay_target(&self) -> (r: Result<(String, String), ReplayRefusal>)
        ensures
            self.selected() >= self.visible_rows().len() ==> r == Err::<(String, String), ReplayRefusal>(
                ReplayRefusal::NoFlowSelected,
            ),
            self.selected() < self.visible_rows().len() ==> {
                let f = self.flows()[self.visible_rows()[self.selected() as int] as int];
                match (f.method, f.uri) {
                    (None, _) => r == Err::<(String, String), ReplayRefusal>(ReplayRefusal::NoMethod),
                    (Some(_), None) => r == Err::<(String, String), ReplayRefusal>(ReplayRefusal::NoUri),
                    (Some(m), Some(u)) => if !(has_prefix(u, "http://"@) || has_prefix(u, "https://"@)) {
                        r == Err::<(String, String), ReplayRefusal>(ReplayRefusal::NotAbsolute)
                    } else if !method_accepted(m) {
                        r == Err::<(String, String), ReplayRefusal>(ReplayRefusal::InvalidMethod)
                    } else {
                        r matches Ok((rm, ru)) && rm@ == m && ru@ == u
                    },
                }
            },
    {
        let flow = match self.selected_flow() {
            Some(f) => f,
            None => return Err(ReplayRefusal::NoFlowSelected),
        };
        let method = match &flow.method {
            Some(m) => m.clone(),
            None => return Err(ReplayRefusal::NoMethod),
        };
        let uri = match &flow.uri {
            Some(u) => u.clone(),
            None => return Err(ReplayRefusal::NoUri),
        };
        if !crate::text::str_starts_with(uri.as_str(), "http://") && !crate::text::str_starts_with(
            uri.as_str(),
            "https://",
        ) {
            return Err(ReplayRefusal::NotAbsolute);
        }
        if !method_parses(method.as_str()) {
            return Err(ReplayRefusal::InvalidMethod);
        }
        Ok((method, uri))
    }
}

/// The text of an optional value, or `-`.
pub open spec fn or_dash(o: Option<Seq<char>>) -> Seq<char> {
    match o {
        Some(t) => t,
        None => "-"@,
    }
}

pub open spec fn status_cell(s: Option<u16>) -> Seq<char> {
    match s {
        Some(v) => crate::text::decimal(v as nat),
        None => "-"@,
    }
}

fn text_or_dash(o: &Option<String>) -> (r: String)
    ensures
        r@ == or_dash(opt_text(*o)),
{
    match o {
        Some(t) => t.clone(),
        None => "-".to_owned(),
    }
}

fn status_text_of(s: Option<u16>) -> (r: String)
    ensures
        r@ == status_cell(s),
{
    match s {
        Some(v) => {
            let mut out = String::new();
            push_decimal(&mut out, v as u64);
            assert(out@ =~= crate::text::decimal(v as nat));
            out
        },
        None => "-".to_owned(),
    }
}

/// The cells of a row of the flow list: method, status and URI, each `-`
/// when not known.
pub fn row_cells(flow: &Flow) -> (r: (String, String, String))
    ensures
        r.0@ == or_dash(flow.model().method),
        r.1@ == status_cell(flow.model().status),
        r.2@ == or_dash(flow.model().uri),
{
    (text_or_dash(&flow.method), status_text_of(flow.status), text_or_dash(&flow.uri))
}

/// The lines of the detail pane for a flow.
pub open spec fn detail_text(f: FlowModel) -> Seq<Seq<char>> {
    seq![
        "Client: "@ + f.client,
        "Method: "@ + or_dash(f.method),
        "URI: "@ + or_dash(f.uri),
        "Host: "@ + or_dash(
            match f.uri {
                Some(u) => host_of_uri(u),
                None => None,
            },
        ),
        "Status: "@ + status_cell(f.status),
    ]
}

pub open spec fn line_texts(v: Seq<String>) -> Seq<Seq<char>> {
    v.map_values(|s: String| s@)
}

fn prefixed(prefix: &str, text: &str) -> (r: String)
    ensures
        r@ == prefix@ + text@,
{
    let mut out = prefix.to_owned();
    push_str(&mut out, text);
    out
}

/// The title of the filter box.
pub open spec fn filter_title_text(m: InputMode) -> Seq<char> {
    match m {
        InputMode::Normal => "Filter (press / to edit)"@,
        InputMode::Filter => "Filter (Enter apply, Esc cancel)"@,
    }
}

/// Title of the filter box in a mode.
pub fn filter_title(m: InputMode) -> (r: &'static str)
    ensures
        r@ == filter_title_text(m),
{
    match m {
        InputMode::Normal => "Filter (press / to edit)",
        InputMode::Filter => "Filter (Enter apply, Esc cancel)",
    }
}

impl App {
    /// The input mode.
    pub fn input_mode(&self) -> (r: InputMode)
        ensures
            r == self.mode(),
    {
        self.input_mode
    }

    /// The filter being typed.
    pub fn filter_buffer(&self) -> (r: &str)
        ensures
            r@ == self.filter_text(),
    {
        self.filter_buffer.as_str()
    }

    /// The number of flows, shown or not.
    pub fn flow_count(&self) -> (r: usize)
        ensures
            r == self.flows().len(),
    {
        self.flows.len()
    }

    /// The flow at `i` (of all flows, visible or not).
    pub fn flow(&self, i: usize) -> (r: &Flow)
        requires
            i < self.flows().len(),
        ensures
            r.model() == self.flows()[i as int],
    {
        &self.flows[i]
    }

    /// The lines of the detail pane: the selected flow's client, method,
    /// URI, host and status, or a note that none is selected.
    pub fn detail_lines(&self) -> (r: Vec<String>)
        ensures
            self.selected() < self.visible_rows().len() ==> line_texts(r@) == detail_text(
                self.flows()[self.visible_rows()[self.selected() as int] as int],
            ),
            self.selected() >= self.visible_rows().len() ==> line_texts(r@) == seq!["No flow selected"@],
    {
        let mut out: Vec<String> = Vec::new();
        match self.selected_flow() {
            Some(flow) => {
                let host = match &flow.uri {
                    Some(u) => parse_host_from_uri(u.as_str()),
                    None => None,
                };
                out.push(prefixed("Client: ", flow.client.as_str()));
                out.push(prefixed("Method: ", text_or_dash(&flow.method).as_str()));
                out.push(prefixed("URI: ", text_or_dash(&flow.uri).as_str()));
                let h = text_or_dash(&host);
                out.push(prefixed("Host: ", h.as_str()));
                out.push(prefixed("Status: ", status_text_of(flow.status).as_str()));
                proof {
                    assert(opt_text(host) == match flow.model().uri {
                        Some(u) => host_of_uri(u),
                        None => None,
                    });
                }
                assert(line_texts(out@) =~= detail_text(flow.model()));
            },
            None => {
                out.push("No flow selected".to_owned());
                assert(line_texts(out@) =~= seq!["No flow selected"@]);
            },
        }
        out
    }
}

pub proof fn lemma_visible_bounds(flows: Seq<FlowModel>, filter: Option<ExprModel>, hide: bool, n: int)
    requires
        n <= flows.len(),
    ensures
        forall|j: int| 0 <= j < visible(flows, filter, hide, n).len() ==> (#[trigger] visible(flows, filter, hide, n)[j]) < n,
        visible(flows, filter, hide, n).len() <= if n < 0 { 0 } else { n },
    decreases n,
{
    if n > 0 {
        lemma_visible_bounds(flows, filter, hide, n - 1);
    }
}

impl Default for App {
    fn default() -> (r: Self)
        ensures
            r.flows().len() == 0,
            r.selected() == 0,
            r.mode() == InputMode::Normal,
            r.filter() is None,
    {
        App::new()
    }
}

/// With no filter and CONNECT flows not hidden, every flow is shown, in order.
pub proof fn law_no_filter_shows_all(flows: Seq<FlowModel>, n: int)
    requires
        0 <= n <= flows.len(),
        n <= usize::MAX,
    ensures
        visible(flows, None, false, n) == Seq::new(n as nat, |i: int| i as usize),
    decreases n,
{
    if n > 0 {
        law_no_filter_shows_all(flows, n - 1);
        assert(visible(flows, None, false, n) =~= Seq::new(n as nat, |i: int| i as usize));
    } else {
        assert(visible(flows, None, false, n) =~= Seq::new(n as nat, |i: int| i as usize));
    }
}

/// With CONNECT flows hidden, no shown row is a CONNECT flow, and every
/// other flow that passes the filter is shown.
pub proof fn law_hidden_connect_rows(flows: Seq<FlowModel>, filter: Option<ExprModel>, n: int)
    requires
        0 <= n <= flows.len(),
        n <= usize::MAX,
    ensures
        forall|j: int|
            0 <= j < visible(flows, filter, true, n).len() ==> !(flows[#[trigger] visible(flows, filter, true, n)[j] as int].method matches Some(m)
                && is_connect(m)),
        forall|k: int|
            0 <= k < n && flow_matches(filter, flows[k]) && !(flows[k].method matches Some(m) && is_connect(m))
                ==> visible(flows, filter, true, n).contains(k as usize),
    decreases n,
{
    lemma_visible_bounds(flows, filter, true, n);
    if n > 0 {
        law_hidden_connect_rows(flows, filter, n - 1);
        let prev = visible(flows, filter, true, n - 1);
        let cur = visible(flows, filter, true, n);
        assert forall|j: int| 0 <= j < cur.len() implies !(flows[#[trigger] cur[j] as int].method matches Some(m)
            && is_connect(m)) by {
            if flow_passes(filter, true, flows[n - 1]) {
                assert(cur == prev.push((n - 1) as usize));
                if j < prev.len() {
                    assert(cur[j] == prev[j]);
                    assert(!(flows[prev[j] as int].method matches Some(m) && is_connect(m)));
                } else {
                    assert(cur[j] == (n - 1) as usize);
                }
            } else {
                assert(cur == prev);
                assert(!(flows[prev[j] as int].method matches Some(m) && is_connect(m)));
            }
        }
        assert forall|k: int|
            0 <= k < n && flow_matches(filter, flows[k]) && !(flows[k].method matches Some(m) && is_connect(m))
                implies cur.contains(k as usize) by {
            if k < n - 1 {
                let w = choose|w: int| 0 <= w < prev.len() && prev[w] == k as usize;
                assert(cur[w] == k as usize);
            } else {
                assert(cur[cur.len() - 1] == k as usize);
            }
        }
    }
}

/// In normal mode, Up (or `k`) moves the selection exactly one row up,
/// staying on row 0, and changes nothing else; Down then comes back to the
/// row left; and after `G` on two or more shown rows, Up selects the row
/// before the last.
pub proof fn law_up_moves_one_row(s: AppState)
    requires
        s.mode == InputMode::Normal,
        s.flows.len() <= usize::MAX,
    ensures
        key_step(s, Key::Up).1 == KeyAction::Continue,
        key_step(s, Key::Char('k')) == key_step(s, Key::Up),
        s.selected > 0 ==> key_step(s, Key::Up).0.selected + 1 == s.selected,
        s.selected == 0 ==> key_step(s, Key::Up).0.selected == 0,
        key_step(s, Key::Up).0 == (AppState { selected: key_step(s, Key::Up).0.selected, ..s }),
        0 < s.selected < state_visible(s).len() ==> key_step(key_step(s, Key::Up).0, Key::Down).0.selected
            == s.selected,
        state_visible(s).len() >= 2 ==> key_step(key_step(s, Key::Char('G')).0, Key::Char('k')).0.selected
            == state_visible(s).len() - 2,
{
    let up = key_step(s, Key::Up).0;
    assert(state_visible(up) == state_visible(s));
    let last = key_step(s, Key::Char('G')).0;
    assert(state_visible(last) == state_visible(s));
    lemma_visible_bounds(s.flows, s.filter, s.hide_connect, s.flows.len() as int);
    if state_visible(s).len() >= 2 {
        assert(last.selected == state_visible(s).len() - 1);
        assert(last.mode == InputMode::Normal);
        assert(key_step(last, Key::Char('k')).0 == after_prev(last));
    }
}

} // verus!
