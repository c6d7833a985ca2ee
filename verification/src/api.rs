//! Events of the backend event stream (and of the JSONL flow log).
use vstd::prelude::*;

verus! {

/// One event of the stream. The JSON form is tagged by `type`.
#[derive(Debug, Clone)]
pub enum ApiEvent {
    HttpRequest {
        timestamp_ms: u64,
        request_id: Option<String>,
        client: String,
        method: String,
        uri: String,
        headers: Vec<(String, String)>,
        body_b64: Option<String>,
        body_truncated: bool,
        body_size: Option<usize>,
    },
    HttpResponse {
        timestamp_ms: u64,
        request_id: Option<String>,
        client: String,
        status: u16,
        headers: Vec<(String, String)>,
        body_b64: Option<String>,
        body_truncated: bool,
        body_size: Option<usize>,
    },
    WebSocketFrame {
        timestamp_ms: u64,
        client: Option<String>,
        kind: String,
        payload_len: usize,
        preview: Option<String>,
    },
}

/// `SystemTime::now().duration_since(UNIX_EPOCH)` in milliseconds, `None`
/// when the clock is before the epoch. It reads the clock, so nothing is
/// stated of the reading.
#[verifier::external_body]
fn clock_epoch_millis() -> (r: Option<u128>) {
    std::time::SystemTime::now().duration_since(std::time::UNIX_EPOCH).ok().map(|d| d.as_millis())
}

/// A clock reading as events record it: milliseconds truncated to 64 bits,
/// 0 for a clock before the epoch.
pub fn millis_field(ms: Option<u128>) -> (r: u64)
    ensures
        r == match ms {
            Some(m) => m as u64,
            None => 0,
        },
{
    match ms {
        Some(m) => m as u64,
        None => 0,
    }
}

/// Milliseconds since the Unix epoch (see [`millis_field`]).
pub fn now_ms() -> u64 {
    millis_field(clock_epoch_millis())
}

/// Events that a stream client has missed, against the number after which
/// its connection is closed.
pub struct LagBudget {
    lagged_total: u64,
    max_lag: u64,
}

impl LagBudget {
    pub closed spec fn missed(&self) -> u64 {
        self.lagged_total
    }

    pub closed spec fn limit(&self) -> u64 {
        self.max_lag
    }

    /// Nothing missed yet.
    pub fn new(max_lag: u64) -> (r: Self)
        ensures
            r.missed() == 0,
            r.limit() == max_lag,
    {
        LagBudget { lagged_total: 0, max_lag }
    }

    /// Counts `skipped` more missed events (saturating) and tells whether
    /// the client is now over the limit and must be dropped.
    pub fn record(&mut self, skipped: u64) -> (exceeded: bool)
        ensures
            final(self).missed() == old(self).missed().saturating_add(skipped),
            final(self).limit() == old(self).limit(),
            exceeded == (final(self).missed() > final(self).limit()),
    {
        self.lagged_total = self.lagged_total.saturating_add(skipped);
        self.lagged_total > self.max_lag
    }

    /// Events missed so far.
    pub fn lagged_total(&self) -> (r: u64)
        ensures
            r == self.missed(),
    {
        self.lagged_total
    }
}

/// A client over the lag limit stays over it: the count of missed events
/// never goes down.
pub proof fn law_lag_only_grows(missed: u64, skipped: u64, limit: u64)
    ensures
        missed.saturating_add(skipped) >= missed,
        missed > limit ==> missed.saturating_add(skipped) > limit,
{
}

} // verus!
