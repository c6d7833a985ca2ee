//! Which files are Wasm plugins, what the plugins ask for, merged over all
//! plugins, and the failure budget after which a plugin is no longer called.
use vstd::prelude::*;
use crate::text::{chars_of, lemma_rfind_char_bounds, rfind_char, rfind_char_range, string_from_range};

verus! {

/// What plugins ask of a request: headers to add.
#[derive(Debug, Clone)]
pub struct RequestMutation {
    pub add_headers: Vec<(String, String)>,
}

/// What plugins ask of a response: headers to add, a new status, a new body.
#[derive(Debug, Clone)]
pub struct ResponseMutation {
    pub add_headers: Vec<(String, String)>,
    pub set_status: Option<u16>,
    pub replace_body: Option<String>,
}

pub open spec fn pair_texts(v: Seq<(String, String)>) -> Seq<(Seq<char>, Seq<char>)> {
    v.map_values(|p: (String, String)| (p.0@, p.1@))
}

pub open spec fn opt_text(o: Option<String>) -> Option<Seq<char>> {
    match o {
        Some(s) => Some(s@),
        None => None,
    }
}

impl Default for RequestMutation {
    fn default() -> (r: Self)
        ensures
            r.add_headers@.len() == 0,
    {
        RequestMutation { add_headers: Vec::new() }
    }
}

impl Default for ResponseMutation {
    fn default() -> (r: Self)
        ensures
            r.add_headers@.len() == 0,
            r.set_status is None,
            r.replace_body is None,
    {
        ResponseMutation { add_headers: Vec::new(), set_status: None, replace_body: None }
    }
}

impl RequestMutation {
    /// Takes in the answer of one more plugin: its headers come after those
    /// asked for before.
    pub fn merge(&mut self, action: RequestMutation)
        ensures
            final(self).add_headers@ == old(self).add_headers@ + action.add_headers@,
    {
        let mut extra = action.add_headers;
        self.add_headers.append(&mut extra);
    }
}

impl ResponseMutation {
    /// Takes in the answer of one more plugin: its headers come after those
    /// asked for before; the first plugin to set a status, or a body, wins.
    pub fn merge(&mut self, action: ResponseMutation)
        ensures
            final(self).add_headers@ == old(self).add_headers@ + action.add_headers@,
            final(self).set_status == match old(self).set_status {
                Some(s) => Some(s),
                None => action.set_status,
            },
            opt_text(final(self).replace_body) == match old(self).replace_body {
                Some(b) => Some(b@),
                None => opt_text(action.replace_body),
            },
    {
        let ResponseMutation { add_headers, set_status, replace_body } = action;
        let mut extra = add_headers;
        self.add_headers.append(&mut extra);
        if self.set_status.is_none() {
            self.set_status = set_status;
        }
        if self.replace_body.is_none() {
            self.replace_body = replace_body;
        }
    }
}

/// The failures of each plugin so far, against the number after which a
/// plugin is skipped.
pub struct FailureBudget {
    failures: Vec<u64>,
    max_failures: u64,
}

impl FailureBudget {
    pub closed spec fn counts(&self) -> Seq<u64> {
        self.failures@
    }

    pub closed spec fn limit(&self) -> u64 {
        self.max_failures
    }

    /// No failures yet for each of `plugins` plugins.
    pub fn new(plugins: usize, max_failures: u64) -> (r: Self)
        ensures
            r.counts() == Seq::new(plugins as nat, |i: int| 0u64),
            r.limit() == max_failures,
    {
        let mut failures: Vec<u64> = Vec::new();
        let mut i: usize = 0;
        while i < plugins
            invariant
                i <= plugins,
                failures@ == Seq::new(i as nat, |j: int| 0u64),
            decreases plugins - i,
        {
            failures.push(0);
            i = i + 1;
            assert(failures@ =~= Seq::new(i as nat, |j: int| 0u64));
        }
        FailureBudget { failures, max_failures }
    }

    /// A plugin is called while its failures are below the limit.
    pub fn enabled(&self, plugin: usize) -> (r: bool)
        requires
            plugin < self.counts().len(),
        ensures
            r == (self.counts()[plugin as int] < self.limit()),
    {
        self.failures[plugin] < self.max_failures
    }

    /// Counts one more failure of a plugin (wrapping, as an atomic counter
    /// does) and gives the new count.
    pub fn record_failure(&mut self, plugin: usize) -> (r: u64)
        requires
            plugin < old(self).counts().len(),
        ensures
            r == old(self).counts()[plugin as int].wrapping_add(1),
            final(self).counts() == old(self).counts().update(plugin as int, r),
            final(self).limit() == old(self).limit(),
    {
        let n = self.failures[plugin].wrapping_add(1);
        self.failures.set(plugin, n);
        n
    }

    /// Which plugins a round of hook calls calls: those still enabled.
    pub fn enabled_plugins(&self) -> (r: Vec<bool>)
        ensures
            r@.len() == self.counts().len(),
            forall|i: int| 0 <= i < r@.len() ==> r@[i] == (self.counts()[i] < self.limit()),
    {
        let mut out: Vec<bool> = Vec::new();
        let mut i: usize = 0;
        while i < self.failures.len()
            invariant
                i <= self.failures@.len(),
                out@.len() == i,
                forall|j: int| 0 <= j < i ==> out@[j] == (self.counts()[j] < self.limit()),
            decreases self.failures.len() - i,
        {
            out.push(self.failures[i] < self.max_failures);
            i = i + 1;
        }
        out
    }

    /// Records a round of hook calls: `failed[i]` tells whether the call of
    /// plugin `i` failed. Disabled plugins were not called, so only the
    /// enabled ones that failed count one more failure (wrapping).
    pub fn record_round(&mut self, failed: &Vec<bool>)
        requires
            failed@.len() == old(self).counts().len(),
        ensures
            final(self).limit() == old(self).limit(),
            final(self).counts().len() == old(self).counts().len(),
            forall|i: int|
                0 <= i < old(self).counts().len() ==> #[trigger] final(self).counts()[i] == if old(
                    self,
                ).counts()[i] < old(self).limit() && failed@[i] {
                    old(self).counts()[i].wrapping_add(1)
                } else {
                    old(self).counts()[i]
                },
    {
        let n = self.failures.len();
        let mut i: usize = 0;
        while i < n
            invariant
                n == self.failures@.len(),
                n == old(self).counts().len(),
                failed@.len() == n,
                i <= n,
                self.max_failures == old(self).limit(),
                forall|j: int|
                    0 <= j < n ==> #[trigger] self.failures@[j] == if j < i && old(self).counts()[j]
                        < old(self).limit() && failed@[j] {
                        old(self).counts()[j].wrapping_add(1)
                    } else {
                        old(self).counts()[j]
                    },
            decreases n - i,
        {
            if failed[i] && self.failures[i] < self.max_failures {
                let c = self.failures[i].wrapping_add(1);
                self.failures.set(i, c);
            }
            i = i + 1;
        }
    }
}

/// The high 32 bits of a packed result, as a signed number.
pub open spec fn packed_ptr(packed: i64) -> i32 {
    (((packed as u64) >> 32u64) as u32) as i32
}

/// The low 32 bits of a packed result, as a signed number.
pub open spec fn packed_len(packed: i64) -> i32 {
    ((packed as u64) as u32) as i32
}

/// Where a mutation hook left its output: the pointer in the high half and
/// the length in the low half of its result; none when the result is 0 or
/// either half is not positive.
pub fn unpack_output(packed: i64) -> (r: Option<(i32, i32)>)
    ensures
        packed == 0 || packed_ptr(packed) <= 0 || packed_len(packed) <= 0 ==> r is None,
        !(packed == 0 || packed_ptr(packed) <= 0 || packed_len(packed) <= 0) ==> r == Some(
            (packed_ptr(packed), packed_len(packed)),
        ),
{
    if packed == 0 {
        return None;
    }
    let out_ptr = ((packed >> 32) & 0xffff_ffff) as i32;
    let out_len = (packed & 0xffff_ffff) as i32;
    assert(out_ptr == packed_ptr(packed) && out_len == packed_len(packed)) by (bit_vector)
        requires
            out_ptr == ((packed >> 32) & 0xffff_ffff) as i32,
            out_len == (packed & 0xffff_ffff) as i32,
    ;
    if out_ptr <= 0 || out_len <= 0 {
        return None;
    }
    Some((out_ptr, out_len))
}

/// The plugin name of a file in the plugin directory: the stem of a file
/// name whose extension (after the last `.`, that `.` not being the first
/// character) is `wasm`; `None` for any other file.
pub open spec fn plugin_name_of(file_name: Seq<char>) -> Option<Seq<char>> {
    match rfind_char(file_name, 0, file_name.len() as int, '.') {
        Some(p) => if p > 0 && file_name.subrange(p + 1, file_name.len() as int) == "wasm"@ {
            Some(file_name.subrange(0, p))
        } else {
            None
        },
        None => None,
    }
}

/// The plugin name of a file (see [`plugin_name_of`]).
pub fn plugin_name(file_name: &str) -> (r: Option<String>)
    ensures
        match r {
            Some(n) => plugin_name_of(file_name@) == Some(n@),
            None => plugin_name_of(file_name@) is None,
        },
{
    let v = chars_of(file_name);
    let ext = chars_of("wasm");
    proof {
        reveal_strlit("wasm");
        lemma_rfind_char_bounds(v@, 0, v@.len() as int, '.');
    }
    match rfind_char_range(&v, 0, v.len(), '.') {
        Some(p) => {
            if p > 0 && crate::text::range_eq(&v, p + 1, v.len(), &ext) {
                Some(string_from_range(&v, 0, p))
            } else {
                None
            }
        },
        None => None,
    }
}

} // verus!
