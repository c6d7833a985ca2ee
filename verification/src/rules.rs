//! The rule file: one rule per line. A rule is a condition (an expression of
//! the query language) and what to do when it holds:
//! - `deny <expr>`, or a bare `<expr>`: refuse the request;
//! - `req.set_header Name: Value if <expr>`: set a request header;
//! - `res.set_header Name: Value if <expr>`: set a response header;
//! - `res.set_status <code> if <expr>`: answer with another status (100 to 999);
//! - `res.replace_body "text" if <expr>`: answer with another body.
//!
//! The condition of an action starts after the first ` if ` of the line. For
//! the status and the body, the first rule that holds wins.
use vstd::prelude::*;
use crate::headers::{header_name, header_value_ok, parse_header_name, value_accepted};
use crate::query::{parse_range, parse_range_exec, ContextModel, EvalContext, Expr, ExprModel, ParseError, ParseErrorModel};
use crate::text::{
    chars_of, find_from, find_in_range, is_whitespace, is_ws, lemma_find_from_bounds, lemma_line_end,
    lemma_skip_back_bounds, lemma_skip_fwd_bounds, lemma_trim_bounds, line_end, newline, parse_int,
    parse_int_range, quote_pred, range_eq, skip_back, skip_fwd, skip_quotes_back, skip_quotes_fwd,
    string_from_range, trim, trim_hi, trim_lo, trim_range, trimmed_string,
};

verus! {

/// What a rule does when its condition holds.
#[derive(Debug, Clone)]
pub enum RuleAction {
    /// Refuse the request.
    Deny,
    /// Set a request header (normalized name, value).
    SetRequestHeader(String, String),
    /// Set a response header (normalized name, value).
    SetResponseHeader(String, String),
    /// Answer with this status.
    SetStatus(u16),
    /// Answer with this body.
    ReplaceBody(String),
}

/// One line of the rule file.
#[derive(Debug, Clone)]
pub struct Rule {
    pub action: RuleAction,
    pub condition: Expr,
}

/// The rules of a rule file, in the order of their lines.
#[derive(Debug, Clone)]
pub struct RuleEngine {
    rules: Vec<Rule>,
}

/// Why a rule line was refused.
#[derive(Debug, Clone, PartialEq, Eq)]
pub enum RuleError {
    /// The condition (or a bare rule) is not an expression.
    Expr(ParseError),
    /// An action without ` if <expr>`.
    MissingCondition,
    /// A header action whose argument is not `Name: Value`.
    HeaderFormat,
    /// A header name or value that HTTP refuses.
    InvalidHeader,
    /// A status that is not a number from 100 to 999.
    InvalidStatus,
}

/// Model of a [`RuleError`].
pub enum RuleErrorModel {
    Expr(ParseErrorModel),
    MissingCondition,
    HeaderFormat,
    InvalidHeader,
    InvalidStatus,
}

impl RuleError {
    pub open spec fn model(&self) -> RuleErrorModel {
        match self {
            RuleError::Expr(x) => RuleErrorModel::Expr(x.model()),
            RuleError::MissingCondition => RuleErrorModel::MissingCondition,
            RuleError::HeaderFormat => RuleErrorModel::HeaderFormat,
            RuleError::InvalidHeader => RuleErrorModel::InvalidHeader,
            RuleError::InvalidStatus => RuleErrorModel::InvalidStatus,
        }
    }
}

/// Model of a [`RuleAction`].
pub enum ActionModel {
    Deny,
    SetRequestHeader(Seq<char>, Seq<char>),
    SetResponseHeader(Seq<char>, Seq<char>),
    SetStatus(u16),
    ReplaceBody(Seq<char>),
}

/// Model of a [`Rule`].
pub struct RuleModel {
    pub action: ActionModel,
    pub condition: ExprModel,
}

impl RuleAction {
    pub open spec fn model(&self) -> ActionModel {
        match self {
            RuleAction::Deny => ActionModel::Deny,
            RuleAction::SetRequestHeader(k, v) => ActionModel::SetRequestHeader(k@, v@),
            RuleAction::SetResponseHeader(k, v) => ActionModel::SetResponseHeader(k@, v@),
            RuleAction::SetStatus(c) => ActionModel::SetStatus(*c),
            RuleAction::ReplaceBody(b) => ActionModel::ReplaceBody(b@),
        }
    }
}

impl Rule {
    pub open spec fn model(&self) -> RuleModel {
        RuleModel { action: self.action.model(), condition: self.condition.model() }
    }
}

/// Whether the trimmed line `s[a..b]` carries no rule (empty, or a `#` comment).
pub open spec fn is_blank_or_comment(s: Seq<char>, a: int, b: int) -> bool {
    b <= a || s[a] == '#'
}

/// Whether `s[a..b]` starts with the word `kw` followed by whitespace.
pub open spec fn keyword_at(s: Seq<char>, a: int, b: int, kw: Seq<char>) -> bool {
    &&& kw.len() < b - a
    &&& s.subrange(a, a + kw.len()) == kw
    &&& is_ws(s[a + kw.len()])
}

pub open spec fn if_sep() -> Seq<char> {
    " if "@
}

/// The condition of a rule in `s[a..b]`.
pub open spec fn condition_of(s: Seq<char>, a: int, b: int) -> Result<ExprModel, RuleErrorModel> {
    match parse_range(s, a, b) {
        Ok(e) => Ok(e),
        Err(x) => Err(RuleErrorModel::Expr(x)),
    }
}

/// A header argument `Name: Value` in the trimmed range `s[a..b]`: the
/// normalized name and the trimmed value.
pub open spec fn header_arg(s: Seq<char>, a: int, b: int) -> Result<(Seq<char>, Seq<char>), RuleErrorModel> {
    match find_from(s, a, b, seq![':']) {
        None => Err(RuleErrorModel::HeaderFormat),
        Some(c) => {
            let name = trim(s.subrange(a, c));
            let value = trim(s.subrange(c + 1, b));
            match header_name(name) {
                None => Err(RuleErrorModel::InvalidHeader),
                Some(n) => if header_value_ok(value) {
                    Ok((n, value))
                } else {
                    Err(RuleErrorModel::InvalidHeader)
                },
            }
        },
    }
}

/// A status argument in the trimmed range `s[a..b]`.
pub open spec fn status_arg(s: Seq<char>, a: int, b: int) -> Result<u16, RuleErrorModel> {
    match parse_int(s.subrange(a, b), 0, 999) {
        Some(v) => if v >= 100 {
            Ok(v as u16)
        } else {
            Err(RuleErrorModel::InvalidStatus)
        },
        None => Err(RuleErrorModel::InvalidStatus),
    }
}

/// A body argument in the trimmed range `s[a..b]`, without surrounding `"`.
pub open spec fn body_arg(s: Seq<char>, a: int, b: int) -> Seq<char> {
    let qa = skip_fwd(s, a, b, quote_pred());
    let qb = skip_back(s, qa, b, quote_pred());
    s.subrange(qa, qb)
}

/// The action of kind `kind` (1: request header, 2: response header,
/// 3: status, 4: body) whose argument is in `s[a..b]`.
pub open spec fn action_of(kind: int, s: Seq<char>, a: int, b: int) -> Result<ActionModel, RuleErrorModel> {
    let aa = trim_lo(s, a, b);
    let ab = trim_hi(s, a, b);
    if kind == 1 {
        match header_arg(s, aa, ab) {
            Ok((k, v)) => Ok(ActionModel::SetRequestHeader(k, v)),
            Err(e) => Err(e),
        }
    } else if kind == 2 {
        match header_arg(s, aa, ab) {
            Ok((k, v)) => Ok(ActionModel::SetResponseHeader(k, v)),
            Err(e) => Err(e),
        }
    } else if kind == 3 {
        match status_arg(s, aa, ab) {
            Ok(c) => Ok(ActionModel::SetStatus(c)),
            Err(e) => Err(e),
        }
    } else {
        Ok(ActionModel::ReplaceBody(body_arg(s, aa, ab)))
    }
}

/// An action line whose argument starts at `st`: the argument runs to the
/// first ` if `, the condition follows it.
pub open spec fn action_rule(kind: int, s: Seq<char>, st: int, b: int) -> Result<RuleModel, RuleErrorModel> {
    match find_from(s, st, b, if_sep()) {
        None => Err(RuleErrorModel::MissingCondition),
        Some(p) => match action_of(kind, s, st, p) {
            Err(e) => Err(e),
            Ok(act) => match condition_of(s, p + 4, b) {
                Err(e) => Err(e),
                Ok(c) => Ok(RuleModel { action: act, condition: c }),
            },
        },
    }
}

pub open spec fn kw_deny() -> Seq<char> {
    "deny"@
}

pub open spec fn kw_req_header() -> Seq<char> {
    "req.set_header"@
}

pub open spec fn kw_res_header() -> Seq<char> {
    "res.set_header"@
}

pub open spec fn kw_status() -> Seq<char> {
    "res.set_status"@
}

pub open spec fn kw_body() -> Seq<char> {
    "res.replace_body"@
}

/// The rule of the trimmed, non-empty line `s[a..b]`.
pub open spec fn rule_line(s: Seq<char>, a: int, b: int) -> Result<RuleModel, RuleErrorModel> {
    if keyword_at(s, a, b, kw_deny()) {
        match condition_of(s, a + 4, b) {
            Ok(c) => Ok(RuleModel { action: ActionModel::Deny, condition: c }),
            Err(e) => Err(e),
        }
    } else if keyword_at(s, a, b, kw_req_header()) {
        action_rule(1, s, a + 14, b)
    } else if keyword_at(s, a, b, kw_res_header()) {
        action_rule(2, s, a + 14, b)
    } else if keyword_at(s, a, b, kw_status()) {
        action_rule(3, s, a + 14, b)
    } else if keyword_at(s, a, b, kw_body()) {
        action_rule(4, s, a + 16, b)
    } else {
        match condition_of(s, a, b) {
            Ok(c) => Ok(RuleModel { action: ActionModel::Deny, condition: c }),
            Err(e) => Err(e),
        }
    }
}

pub open spec fn prepend(acc: Seq<RuleModel>, r: Result<Seq<RuleModel>, RuleErrorModel>) -> Result<
    Seq<RuleModel>,
    RuleErrorModel,
> {
    match r {
        Ok(rs) => Ok(acc + rs),
        Err(e) => Err(e),
    }
}

/// The rules of the lines of `s` from position `i` on: each line is trimmed,
/// empty and `#` lines are skipped, every other line must be a rule; the
/// first line that is not gives the error.
pub open spec fn rules_from(s: Seq<char>, i: int) -> Result<Seq<RuleModel>, RuleErrorModel>
    decreases s.len() - i + 1,
{
    if i < 0 || i >= s.len() {
        Ok(Seq::empty())
    } else {
        let e = line_end(s, i);
        proof {
            lemma_line_end(s, i);
        }
        let a = trim_lo(s, i, e);
        let b = trim_hi(s, i, e);
        if is_blank_or_comment(s, a, b) {
            rules_from(s, e + 1)
        } else {
            match rule_line(s, a, b) {
                Err(x) => Err(x),
                Ok(r) => prepend(seq![r], rules_from(s, e + 1)),
            }
        }
    }
}

/// The rules of a whole rule file.
pub open spec fn spec_rules(s: Seq<char>) -> Result<Seq<RuleModel>, RuleErrorModel> {
    rules_from(s, 0)
}

/// Number of lines of `s` from `i` on that carry a rule.
pub open spec fn rule_line_count(s: Seq<char>, i: int) -> nat
    decreases s.len() - i + 1,
{
    if i < 0 || i >= s.len() {
        0
    } else {
        let e = line_end(s, i);
        proof {
            lemma_line_end(s, i);
        }
        if is_blank_or_comment(s, trim_lo(s, i, e), trim_hi(s, i, e)) {
            rule_line_count(s, e + 1)
        } else {
            1 + rule_line_count(s, e + 1)
        }
    }
}

/// The context in which a request (without a response yet) is judged.
pub open spec fn request_context(method: Seq<char>, uri: Seq<char>, host: Seq<char>) -> ContextModel {
    ContextModel {
        req_method: Some(method),
        req_uri: Some(uri),
        req_host: Some(host),
        res_status: None,
    }
}

/// The context in which the response to a request is judged.
pub open spec fn response_context(method: Seq<char>, uri: Seq<char>, host: Seq<char>, status: u16) -> ContextModel {
    ContextModel {
        req_method: Some(method),
        req_uri: Some(uri),
        req_host: Some(host),
        res_status: Some(status),
    }
}

/// Whether some deny rule holds.
pub open spec fn denied(rules: Seq<RuleModel>, ctx: ContextModel) -> bool {
    exists|i: int|
        0 <= i < rules.len() && (#[trigger] rules[i]).action is Deny && rules[i].condition.holds(ctx)
}

/// The headers set by the first `n` rules that hold: request headers when
/// `request` is true, else response headers, in rule order.
pub open spec fn headers_set(rules: Seq<RuleModel>, ctx: ContextModel, request: bool, n: int) -> Seq<
    (Seq<char>, Seq<char>),
>
    decreases n,
{
    if n <= 0 {
        Seq::empty()
    } else {
        let prev = headers_set(rules, ctx, request, n - 1);
        let r = rules[n - 1];
        if r.condition.holds(ctx) {
            match r.action {
                ActionModel::SetRequestHeader(k, v) => if request {
                    prev.push((k, v))
                } else {
                    prev
                },
                ActionModel::SetResponseHeader(k, v) => if !request {
                    prev.push((k, v))
                } else {
                    prev
                },
                _ => prev,
            }
        } else {
            prev
        }
    }
}

/// The status of the first status rule from `i` on that holds.
pub open spec fn first_status(rules: Seq<RuleModel>, ctx: ContextModel, i: int) -> Option<u16>
    decreases rules.len() - i,
{
    if i < 0 || i >= rules.len() {
        None
    } else if rules[i].action is SetStatus && rules[i].condition.holds(ctx) {
        Some(rules[i].action->SetStatus_0)
    } else {
        first_status(rules, ctx, i + 1)
    }
}

/// The body of the first body rule from `i` on that holds.
pub open spec fn first_body(rules: Seq<RuleModel>, ctx: ContextModel, i: int) -> Option<Seq<char>>
    decreases rules.len() - i,
{
    if i < 0 || i >= rules.len() {
        None
    } else if rules[i].action is ReplaceBody && rules[i].condition.holds(ctx) {
        Some(rules[i].action->ReplaceBody_0)
    } else {
        first_body(rules, ctx, i + 1)
    }
}

/// What the rules do to a response.
#[derive(Debug)]
pub struct ResponsePlan {
    /// Headers to set, in rule order.
    pub headers: Vec<(String, String)>,
    /// The status to answer with.
    pub status: Option<u16>,
    /// The body to answer with.
    pub body: Option<String>,
}

pub open spec fn pair_texts(v: Seq<(String, String)>) -> Seq<(Seq<char>, Seq<char>)> {
    v.map_values(|p: (String, String)| (p.0@, p.1@))
}

pub proof fn lemma_prepend_push(acc: Seq<RuleModel>, x: RuleModel, r: Result<Seq<RuleModel>, RuleErrorModel>)
    ensures
        prepend(acc, prepend(seq![x], r)) == prepend(acc.push(x), r),
{
    if let Ok(rs) = r {
        assert(acc + (seq![x] + rs) =~= acc.push(x) + rs);
    }
}

pub proof fn lemma_rules_count(s: Seq<char>, i: int)
    ensures
        rules_from(s, i) matches Ok(rs) ==> rs.len() == rule_line_count(s, i),
    decreases s.len() - i + 1,
{
    if !(i < 0 || i >= s.len()) {
        let e = line_end(s, i);
        lemma_line_end(s, i);
        lemma_rules_count(s, e + 1);
    }
}

/// The trimmed ranges of the lines of `s` from position `i` on that carry
/// a rule (not empty, not a `#` comment), in order.
pub open spec fn rule_line_ranges(s: Seq<char>, i: int) -> Seq<(int, int)>
    decreases s.len() - i + 1,
{
    if i < 0 || i >= s.len() {
        Seq::empty()
    } else {
        let e = line_end(s, i);
        proof {
            lemma_line_end(s, i);
        }
        let a = trim_lo(s, i, e);
        let b = trim_hi(s, i, e);
        if is_blank_or_comment(s, a, b) {
            rule_line_ranges(s, e + 1)
        } else {
            seq![(a, b)] + rule_line_ranges(s, e + 1)
        }
    }
}

/// Loading a rule file: when every line that carries a rule is a rule, the
/// file gives one rule per such line, in order, each the rule of its line;
/// otherwise it gives the error of the first line that is not a rule.
pub proof fn law_rule_file_load(s: Seq<char>, i: int)
    ensures
        (forall|k: int|
            0 <= k < rule_line_ranges(s, i).len() ==> rule_line(
                s,
                (#[trigger] rule_line_ranges(s, i)[k]).0,
                rule_line_ranges(s, i)[k].1,
            ) is Ok) ==> (rules_from(s, i) matches Ok(rs) && rs.len() == rule_line_ranges(s, i).len()
            && forall|k: int|
            0 <= k < rs.len() ==> Ok::<RuleModel, RuleErrorModel>(#[trigger] rs[k]) == rule_line(
                s,
                rule_line_ranges(s, i)[k].0,
                rule_line_ranges(s, i)[k].1,
            )),
        rules_from(s, i) matches Err(x) ==> exists|k: int|
            0 <= k < rule_line_ranges(s, i).len() && rule_line(
                s,
                (#[trigger] rule_line_ranges(s, i)[k]).0,
                rule_line_ranges(s, i)[k].1,
            ) == Err::<RuleModel, RuleErrorModel>(x),
    decreases s.len() - i + 1,
{
    if !(i < 0 || i >= s.len()) {
        let e = line_end(s, i);
        lemma_line_end(s, i);
        law_rule_file_load(s, e + 1);
        let a = trim_lo(s, i, e);
        let b = trim_hi(s, i, e);
        let rest = rule_line_ranges(s, e + 1);
        if !is_blank_or_comment(s, a, b) {
            let all = rule_line_ranges(s, i);
            assert(all == seq![(a, b)] + rest);
            assert(all[0] == (a, b));
            assert forall|k: int| 0 <= k < rest.len() implies #[trigger] all[k + 1] == rest[k] by {}
            if (forall|k: int| 0 <= k < all.len() ==> rule_line(s, (#[trigger] all[k]).0, all[k].1) is Ok) {
                assert(rule_line(s, all[0].0, all[0].1) is Ok);
                assert forall|k: int| 0 <= k < rest.len() implies rule_line(s, (#[trigger] rest[k]).0, rest[k].1) is Ok by {
                    assert(all[k + 1] == rest[k]);
                }
                let r = rule_line(s, a, b)->Ok_0;
                let rs_rest = rules_from(s, e + 1)->Ok_0;
                let rs = seq![r] + rs_rest;
                assert(rules_from(s, i) == Ok::<Seq<RuleModel>, RuleErrorModel>(rs));
                assert forall|k: int| 0 <= k < rs.len() implies Ok::<RuleModel, RuleErrorModel>(#[trigger] rs[k])
                    == rule_line(s, all[k].0, all[k].1) by {
                    if k > 0 {
                        assert(rs[k] == rs_rest[k - 1]);
                        assert(all[k] == rest[k - 1]);
                    }
                }
            }
            if rules_from(s, i) is Err {
                let x = rules_from(s, i)->Err_0;
                if rule_line(s, a, b) is Err {
                    assert(rule_line(s, all[0].0, all[0].1) == Err::<RuleModel, RuleErrorModel>(x));
                } else {
                    let k = choose|k: int|
                        0 <= k < rest.len() && rule_line(s, (#[trigger] rest[k]).0, rest[k].1) == Err::<
                            RuleModel,
                            RuleErrorModel,
                        >(x);
                    assert(all[k + 1] == rest[k]);
                }
            }
        }
    }
}

/// Whether a rule line's condition is the expression of the whole line:
/// it starts with no action word (`deny`, `req.set_header`, ...).
pub open spec fn is_bare_line(s: Seq<char>, a: int, b: int) -> bool {
    &&& !keyword_at(s, a, b, kw_deny())
    &&& !keyword_at(s, a, b, kw_req_header())
    &&& !keyword_at(s, a, b, kw_res_header())
    &&& !keyword_at(s, a, b, kw_status())
    &&& !keyword_at(s, a, b, kw_body())
}

/// The rule file, in one piece: when every line that carries a rule is a
/// rule, the file loads into as many rules as it has such lines, a bare
/// line is a deny rule whose condition is the line's expression, and a
/// request is refused exactly when some line is a deny rule whose condition
/// holds of it.
pub proof fn law_rule_file_denies(s: Seq<char>, method: Seq<char>, uri: Seq<char>, host: Seq<char>)
    requires
        forall|k: int|
            0 <= k < rule_line_ranges(s, 0).len() ==> rule_line(
                s,
                (#[trigger] rule_line_ranges(s, 0)[k]).0,
                rule_line_ranges(s, 0)[k].1,
            ) is Ok,
    ensures
        spec_rules(s) matches Ok(rs) && rs.len() == rule_line_count(s, 0) && rs.len() == rule_line_ranges(
            s,
            0,
        ).len() && (denied(rs, request_context(method, uri, host)) <==> exists|k: int|
            0 <= k < rs.len() && (#[trigger] rule_line(
                s,
                rule_line_ranges(s, 0)[k].0,
                rule_line_ranges(s, 0)[k].1,
            ) matches Ok(r) && r.action is Deny && r.condition.holds(request_context(method, uri, host)))),
        forall|k: int|
            0 <= k < rule_line_ranges(s, 0).len() && is_bare_line(
                s,
                (#[trigger] rule_line_ranges(s, 0)[k]).0,
                rule_line_ranges(s, 0)[k].1,
            ) ==> (rule_line(s, rule_line_ranges(s, 0)[k].0, rule_line_ranges(s, 0)[k].1) matches Ok(r)
                && r.action is Deny && Ok::<ExprModel, ParseErrorModel>(r.condition) == parse_range(
                s,
                rule_line_ranges(s, 0)[k].0,
                rule_line_ranges(s, 0)[k].1,
            )),
{
    law_rule_file_load(s, 0);
    lemma_rules_count(s, 0);
    let rs = spec_rules(s)->Ok_0;
    let ctx = request_context(method, uri, host);
    let ranges = rule_line_ranges(s, 0);
    if denied(rs, ctx) {
        let i = choose|i: int| 0 <= i < rs.len() && (#[trigger] rs[i]).action is Deny && rs[i].condition.holds(ctx);
        assert(Ok::<RuleModel, RuleErrorModel>(rs[i]) == rule_line(s, ranges[i].0, ranges[i].1));
    }
    if exists|k: int|
        0 <= k < rs.len() && (#[trigger] rule_line(s, ranges[k].0, ranges[k].1) matches Ok(r) && r.action is Deny
            && r.condition.holds(ctx)) {
        let k = choose|k: int|
            0 <= k < rs.len() && (#[trigger] rule_line(s, ranges[k].0, ranges[k].1) matches Ok(r) && r.action
                is Deny && r.condition.holds(ctx));
        assert(Ok::<RuleModel, RuleErrorModel>(rs[k]) == rule_line(s, ranges[k].0, ranges[k].1));
        assert(rs[k].action is Deny && rs[k].condition.holds(ctx));
    }
    assert forall|k: int|
        0 <= k < ranges.len() && is_bare_line(s, (#[trigger] ranges[k]).0, ranges[k].1) implies (rule_line(
            s,
            ranges[k].0,
            ranges[k].1,
        ) matches Ok(r) && r.action is Deny && Ok::<ExprModel, ParseErrorModel>(r.condition) == parse_range(
            s,
            ranges[k].0,
            ranges[k].1,
        )) by {
        assert(rule_line(s, ranges[k].0, ranges[k].1) is Ok);
    }
}

/// Whether a rule sets a request header (`request`) or a response header
/// (otherwise) and its condition holds.
pub open spec fn sets_header(ctx: ContextModel, request: bool) -> spec_fn(RuleModel) -> bool {
    |r: RuleModel|
        r.condition.holds(ctx) && if request {
            r.action is SetRequestHeader
        } else {
            r.action is SetResponseHeader
        }
}

/// The (name, value) that a header rule sets.
pub open spec fn header_of(r: RuleModel) -> (Seq<char>, Seq<char>) {
    match r.action {
        ActionModel::SetRequestHeader(k, v) => (k, v),
        ActionModel::SetResponseHeader(k, v) => (k, v),
        _ => (Seq::empty(), Seq::empty()),
    }
}

/// Every header rule whose condition holds sets its header, not only the
/// first: the headers set by the first `n` rules are the (name, value) of
/// exactly those of them that are header rules of the kind asked and hold,
/// in rule order, one per such rule.
pub proof fn law_header_rules_all_apply(rules: Seq<RuleModel>, ctx: ContextModel, request: bool, n: int)
    requires
        0 <= n <= rules.len(),
    ensures
        headers_set(rules, ctx, request, n) == rules.take(n).filter(sets_header(ctx, request)).map_values(
            |r: RuleModel| header_of(r),
        ),
        headers_set(rules, ctx, request, n).len() == rules.take(n).filter(sets_header(ctx, request)).len(),
        forall|i: int|
            0 <= i < n && sets_header(ctx, request)(rules[i]) ==> headers_set(rules, ctx, request, n).contains(
                header_of(#[trigger] rules[i]),
            ),
    decreases n,
{
    reveal(Seq::filter);
    let f = sets_header(ctx, request);
    let hs = headers_set(rules, ctx, request, n);
    if n > 0 {
        law_header_rules_all_apply(rules, ctx, request, n - 1);
        let t = rules.take(n);
        assert(t.drop_last() =~= rules.take(n - 1));
        assert(t.last() == rules[n - 1]);
        let prevf = rules.take(n - 1).filter(f);
        if f(rules[n - 1]) {
            assert(t.filter(f) == prevf.push(rules[n - 1]));
            assert(t.filter(f).map_values(|r: RuleModel| header_of(r)) =~= prevf.map_values(
                |r: RuleModel| header_of(r),
            ).push(header_of(rules[n - 1])));
        } else {
            assert(t.filter(f) == prevf);
        }
        assert forall|i: int| 0 <= i < n && f(rules[i]) implies hs.contains(header_of(#[trigger] rules[i])) by {
            if i < n - 1 {
                let prev = headers_set(rules, ctx, request, n - 1);
                assert(prev.contains(header_of(rules[i])));
                let w = choose|w: int| 0 <= w < prev.len() && prev[w] == header_of(rules[i]);
                if f(rules[n - 1]) {
                    assert(hs[w] == prev[w]);
                } else {
                    assert(hs == prev);
                }
            } else {
                assert(hs[hs.len() - 1] == header_of(rules[i]));
            }
        }
    } else {
        assert(rules.take(0) =~= Seq::<RuleModel>::empty());
        assert(rules.take(0).filter(f) =~= Seq::<RuleModel>::empty());
        assert(rules.take(0).filter(f).map_values(|r: RuleModel| header_of(r)) =~= Seq::<(Seq<char>, Seq<char>)>::empty());
    }
}

fn keyword_exec(v: &Vec<char>, a: usize, b: usize, kw: &str) -> (r: bool)
    requires
        a <= b <= v.len(),
    ensures
        r == keyword_at(v@, a as int, b as int, kw@),
{
    let k = chars_of(kw);
    k.len() < b - a && range_eq(v, a, a + k.len(), &k) && is_whitespace(v[a + k.len()])
}

fn condition_exec(v: &Vec<char>, a: usize, b: usize) -> (r: Result<Expr, RuleError>)
    requires
        a <= b <= v.len(),
    ensures
        match r {
            Ok(e) => condition_of(v@, a as int, b as int) == Ok::<ExprModel, RuleErrorModel>(e.model()),
            Err(x) => condition_of(v@, a as int, b as int) == Err::<ExprModel, RuleErrorModel>(x.model()),
        },
{
    match parse_range_exec(v, a, b) {
        Ok(e) => Ok(e),
        Err(x) => Err(RuleError::Expr(x)),
    }
}

fn header_arg_exec(v: &Vec<char>, a: usize, b: usize) -> (r: Result<(String, String), RuleError>)
    requires
        a <= b <= v.len(),
    ensures
        match r {
            Ok((k, x)) => header_arg(v@, a as int, b as int) == Ok::<(Seq<char>, Seq<char>), RuleErrorModel>((k@, x@)),
            Err(e) => header_arg(v@, a as int, b as int) == Err::<(Seq<char>, Seq<char>), RuleErrorModel>(e.model()),
        },
{
    let colon = vec![':'];
    assert(colon@ =~= seq![':']);
    proof {
        lemma_find_from_bounds(v@, a as int, b as int, seq![':']);
    }
    match find_in_range(v, a, b, &colon) {
        None => Err(RuleError::HeaderFormat),
        Some(c) => {
            let name = trimmed_string(v, a, c);
            let value = trimmed_string(v, c + 1, b);
            proof {
                assert(trim(v@.subrange(a as int, c as int)) =~= v@.subrange(
                    trim_lo(v@, a as int, c as int),
                    trim_hi(v@, a as int, c as int),
                )) by {
                    crate::text::lemma_trim_sub(v@, a as int, c as int);
                }
                assert(trim(v@.subrange(c + 1, b as int)) =~= v@.subrange(
                    trim_lo(v@, c + 1, b as int),
                    trim_hi(v@, c + 1, b as int),
                )) by {
                    crate::text::lemma_trim_sub(v@, c + 1, b as int);
                }
            }
            match parse_header_name(name.as_str()) {
                None => Err(RuleError::InvalidHeader),
                Some(n) => if value_accepted(value.as_str()) {
                    Ok((n, value))
                } else {
                    Err(RuleError::InvalidHeader)
                },
            }
        },
    }
}

fn action_exec(kind: u8, v: &Vec<char>, a: usize, b: usize) -> (r: Result<RuleAction, RuleError>)
    requires
        a <= b <= v.len(),
        1 <= kind <= 4,
    ensures
        match r {
            Ok(x) => action_of(kind as int, v@, a as int, b as int) == Ok::<ActionModel, RuleErrorModel>(x.model()),
            Err(e) => action_of(kind as int, v@, a as int, b as int) == Err::<ActionModel, RuleErrorModel>(e.model()),
        },
{
    let (aa, ab) = trim_range(v, a, b);
    if kind == 1 || kind == 2 {
        match header_arg_exec(v, aa, ab) {
            Ok((k, x)) => if kind == 1 {
                Ok(RuleAction::SetRequestHeader(k, x))
            } else {
                Ok(RuleAction::SetResponseHeader(k, x))
            },
            Err(e) => Err(e),
        }
    } else if kind == 3 {
        match parse_int_range(v, aa, ab, 0, 999) {
            Some(x) => if x >= 100 {
                Ok(RuleAction::SetStatus(x as u16))
            } else {
                Err(RuleError::InvalidStatus)
            },
            None => Err(RuleError::InvalidStatus),
        }
    } else {
        let qa = skip_quotes_fwd(v, aa, ab);
        let qb = skip_quotes_back(v, qa, ab);
        Ok(RuleAction::ReplaceBody(string_from_range(v, qa, qb)))
    }
}

fn action_rule_exec(kind: u8, v: &Vec<char>, st: usize, b: usize) -> (r: Result<Rule, RuleError>)
    requires
        st <= b <= v.len(),
        1 <= kind <= 4,
    ensures
        match r {
            Ok(x) => action_rule(kind as int, v@, st as int, b as int) == Ok::<RuleModel, RuleErrorModel>(x.model()),
            Err(e) => action_rule(kind as int, v@, st as int, b as int) == Err::<RuleModel, RuleErrorModel>(e.model()),
        },
{
    let sep = chars_of(" if ");
    proof {
        reveal_strlit(" if ");
        lemma_find_from_bounds(v@, st as int, b as int, if_sep());
    }
    match find_in_range(v, st, b, &sep) {
        None => Err(RuleError::MissingCondition),
        Some(p) => match action_exec(kind, v, st, p) {
            Err(e) => Err(e),
            Ok(act) => match condition_exec(v, p + 4, b) {
                Err(e) => Err(e),
                Ok(c) => Ok(Rule { action: act, condition: c }),
            },
        },
    }
}

fn rule_line_exec(v: &Vec<char>, a: usize, b: usize) -> (r: Result<Rule, RuleError>)
    requires
        a <= b <= v.len(),
    ensures
        match r {
            Ok(x) => rule_line(v@, a as int, b as int) == Ok::<RuleModel, RuleErrorModel>(x.model()),
            Err(e) => rule_line(v@, a as int, b as int) == Err::<RuleModel, RuleErrorModel>(e.model()),
        },
{
    proof {
        reveal_strlit("deny");
        reveal_strlit("req.set_header");
        reveal_strlit("res.set_header");
        reveal_strlit("res.set_status");
        reveal_strlit("res.replace_body");
    }
    if keyword_exec(v, a, b, "deny") {
        match condition_exec(v, a + 4, b) {
            Ok(c) => Ok(Rule { action: RuleAction::Deny, condition: c }),
            Err(e) => Err(e),
        }
    } else if keyword_exec(v, a, b, "req.set_header") {
        action_rule_exec(1, v, a + 14, b)
    } else if keyword_exec(v, a, b, "res.set_header") {
        action_rule_exec(2, v, a + 14, b)
    } else if keyword_exec(v, a, b, "res.set_status") {
        action_rule_exec(3, v, a + 14, b)
    } else if keyword_exec(v, a, b, "res.replace_body") {
        action_rule_exec(4, v, a + 16, b)
    } else {
        match condition_exec(v, a, b) {
            Ok(c) => Ok(Rule { action: RuleAction::Deny, condition: c }),
            Err(e) => Err(e),
        }
    }
}

impl RuleEngine {
    /// The rules, in the order of their lines.
    pub closed spec fn rules(&self) -> Seq<RuleModel> {
        self.rules@.map_values(|r: Rule| r.model())
    }

    /// An engine without rules (what a missing rule file gives).
    pub fn new() -> (r: Self)
        ensures
            r.rules() == Seq::<RuleModel>::empty(),
    {
        let r = RuleEngine { rules: Vec::new() };
        assert(r.rules() =~= Seq::<RuleModel>::empty());
        r
    }

    /// Builds the engine from the text of a rule file.
    pub fn from_rules_text(content: &str) -> (r: Result<Self, RuleError>)
        ensures
            match r {
                Ok(e) => spec_rules(content@) == Ok::<Seq<RuleModel>, RuleErrorModel>(e.rules()),
                Err(x) => spec_rules(content@) == Err::<Seq<RuleModel>, RuleErrorModel>(x.model()),
            },
            r matches Ok(e) ==> e.rules().len() == rule_line_count(content@, 0),
    {
        let v = chars_of(content);
        let n = v.len();
        let nl = vec!['\n'];
        assert(nl@ =~= newline());
        let mut rules: Vec<Rule> = Vec::new();
        let mut i: usize = 0;
        while i < n
            invariant
                n == v.len(),
                v@ == content@,
                nl@ == newline(),
                i <= n,
                spec_rules(v@) == prepend(rules@.map_values(|e: Rule| e.model()), rules_from(v@, i as int)),
            decreases n - i,
        {
            proof {
                lemma_line_end(v@, i as int);
                lemma_find_from_bounds(v@, i as int, n as int, newline());
            }
            let e = match find_in_range(&v, i, n, &nl) {
                Some(k) => k,
                None => n,
            };
            assert(e == line_end(v@, i as int));
            let (a, b) = trim_range(&v, i, e);
            let ghost before = rules@.map_values(|x: Rule| x.model());
            if !(b <= a || v[a] == '#') {
                match rule_line_exec(&v, a, b) {
                    Ok(x) => {
                        rules.push(x);
                        assert(rules@.map_values(|y: Rule| y.model()) =~= before.push(x.model()));
                        proof {
                            lemma_prepend_push(before, x.model(), rules_from(v@, e + 1));
                        }
                    },
                    Err(x) => {
                        return Err(x);
                    },
                }
            }
            if e == n {
                proof {
                    assert(rules_from(v@, (e + 1) as int) == Ok::<Seq<RuleModel>, RuleErrorModel>(Seq::empty()));
                }
                i = n;
            } else {
                i = e + 1;
            }
        }
        let r = RuleEngine { rules };
        proof {
            assert(r.rules@.map_values(|y: Rule| y.model()) + Seq::<RuleModel>::empty() =~= r.rules());
            lemma_rules_count(v@, 0);
        }
        Ok(r)
    }

    /// Whether some deny rule holds for the request.
    pub fn should_deny_request(&self, method: &str, uri: &str, host: &str) -> (r: bool)
        ensures
            r == denied(self.rules(), request_context(method@, uri@, host@)),
    {
        let ctx = EvalContext {
            req_method: Some(method.to_owned()),
            req_uri: Some(uri.to_owned()),
            req_host: Some(host.to_owned()),
            res_status: None,
        };
        assert(ctx.model() == request_context(method@, uri@, host@));
        let n = self.rules.len();
        let mut i: usize = 0;
        while i < n
            invariant
                n == self.rules.len(),
                i <= n,
                ctx.model() == request_context(method@, uri@, host@),
                forall|j: int|
                    0 <= j < i ==> !((#[trigger] self.rules()[j]).action is Deny && self.rules()[j].condition.holds(
                        ctx.model(),
                    )),
            decreases n - i,
        {
            assert(self.rules()[i as int] == self.rules@[i as int].model());
            let is_deny = match self.rules[i].action {
                RuleAction::Deny => true,
                _ => false,
            };
            if is_deny && self.rules[i].condition.eval(&ctx) {
                return true;
            }
            i = i + 1;
        }
        false
    }

    /// The request headers that the rules that hold set, in rule order.
    pub fn request_headers(&self, method: &str, uri: &str, host: &str) -> (r: Vec<(String, String)>)
        ensures
            pair_texts(r@) == headers_set(self.rules(), request_context(method@, uri@, host@), true, self.rules().len() as int),
    {
        let ctx = EvalContext {
            req_method: Some(method.to_owned()),
            req_uri: Some(uri.to_owned()),
            req_host: Some(host.to_owned()),
            res_status: None,
        };
        assert(ctx.model() == request_context(method@, uri@, host@));
        self.headers_in(&ctx, true)
    }

    fn headers_in(&self, ctx: &EvalContext, request: bool) -> (r: Vec<(String, String)>)
        ensures
            pair_texts(r@) == headers_set(self.rules(), ctx.model(), request, self.rules().len() as int),
    {
        let n = self.rules.len();
        let mut out: Vec<(String, String)> = Vec::new();
        let mut i: usize = 0;
        while i < n
            invariant
                n == self.rules.len(),
                i <= n,
                pair_texts(out@) == headers_set(self.rules(), ctx.model(), request, i as int),
            decreases n - i,
        {
            assert(self.rules()[i as int] == self.rules@[i as int].model());
            let ghost before = out@;
            if self.rules[i].condition.eval(ctx) {
                match &self.rules[i].action {
                    RuleAction::SetRequestHeader(k, x) => if request {
                        out.push((k.clone(), x.clone()));
                        assert(pair_texts(out@) =~= pair_texts(before).push((k@, x@)));
                    },
                    RuleAction::SetResponseHeader(k, x) => if !request {
                        out.push((k.clone(), x.clone()));
                        assert(pair_texts(out@) =~= pair_texts(before).push((k@, x@)));
                    },
                    _ => {},
                }
            }
            i = i + 1;
        }
        out
    }

    /// What the rules that hold do to the response to a request: the
    /// response headers they set, in rule order, and the status and body of
    /// the first status rule and the first body rule that hold.
    pub fn response_plan(&self, method: &str, uri: &str, host: &str, status: u16) -> (r: ResponsePlan)
        ensures
            ({
                let ctx = response_context(method@, uri@, host@, status);
                &&& pair_texts(r.headers@) == headers_set(self.rules(), ctx, false, self.rules().len() as int)
                &&& r.status == first_status(self.rules(), ctx, 0)
                &&& (match r.body {
                    Some(b) => first_body(self.rules(), ctx, 0) == Some(b@),
                    None => first_body(self.rules(), ctx, 0) is None,
                })
            }),
    {
        let ctx = EvalContext {
            req_method: Some(method.to_owned()),
            req_uri: Some(uri.to_owned()),
            req_host: Some(host.to_owned()),
            res_status: Some(status),
        };
        assert(ctx.model() == response_context(method@, uri@, host@, status));
        let headers = self.headers_in(&ctx, false);
        let n = self.rules.len();
        let mut st: Option<u16> = None;
        let mut body: Option<String> = None;
        let mut i: usize = 0;
        while i < n
            invariant
                n == self.rules.len(),
                i <= n,
                match st {
                    Some(c) => first_status(self.rules(), ctx.model(), 0) == Some(c),
                    None => first_status(self.rules(), ctx.model(), 0) == first_status(self.rules(), ctx.model(), i as int),
                },
                match body {
                    Some(b) => first_body(self.rules(), ctx.model(), 0) == Some(b@),
                    None => first_body(self.rules(), ctx.model(), 0) == first_body(self.rules(), ctx.model(), i as int),
                },
            decreases n - i,
        {
            assert(self.rules()[i as int] == self.rules@[i as int].model());
            let holds = self.rules[i].condition.eval(&ctx);
            match &self.rules[i].action {
                RuleAction::SetStatus(c) => {
                    if holds && st.is_none() {
                        st = Some(*c);
                    }
                },
                RuleAction::ReplaceBody(b) => {
                    if holds && body.is_none() {
                        body = Some(b.clone());
                    }
                },
                _ => {},
            }
            i = i + 1;
        }
        ResponsePlan { headers, status: st, body }
    }

    /// Number of rules.
    pub fn count(&self) -> (r: usize)
        ensures
            r == self.rules().len(),
    {
        self.rules.len()
    }
}

/// Text of a rule error.
pub open spec fn rule_error_text(e: RuleErrorModel) -> Seq<char> {
    match e {
        RuleErrorModel::Expr(x) => crate::tui::parse_error_text(x),
        RuleErrorModel::MissingCondition => "rule action without `if <expr>`"@,
        RuleErrorModel::HeaderFormat => "header action expects `Name: Value`"@,
        RuleErrorModel::InvalidHeader => "invalid header name or value in rule"@,
        RuleErrorModel::InvalidStatus => "status must be a number from 100 to 999"@,
    }
}

/// The message of a rule error.
pub fn rule_error_message(e: &RuleError) -> (r: String)
    ensures
        r@ == rule_error_text(e.model()),
{
    match e {
        RuleError::Expr(x) => crate::tui::parse_error_message(x),
        RuleError::MissingCondition => "rule action without `if <expr>`".to_owned(),
        RuleError::HeaderFormat => "header action expects `Name: Value`".to_owned(),
        RuleError::InvalidHeader => "invalid header name or value in rule".to_owned(),
        RuleError::InvalidStatus => "status must be a number from 100 to 999".to_owned(),
    }
}

} // verus!
