//! The filter/rule expression language: `req.method == "POST" && res.status >= 400`.
//!
//! Grammar (as parsed by [`parse`]):
//! - the whole input is trimmed; an empty input is an error;
//! - the first top-level `||` (outside parentheses) splits into an `Or`;
//! - otherwise the first top-level `&&` splits into an `And`;
//! - otherwise the input is a comparison `field OP value`, where `OP` is the
//!   first of `==`, `~=`, `>=`, `<=`, `starts_with`, `ends_with`, `matches`
//!   that occurs in it.
//!
//! The text fields (`req.method`, `req.uri`, `req.host`) take `==`, `~=`
//! (contains), `starts_with`, `ends_with` and `matches` (a light regular
//! expression, see [`regex_matches`]); `res.status` takes `==`, `>=`, `<=`.
use vstd::prelude::*;
use crate::text::{
    chars_of, find_from, find_in_range, lemma_find_from_bounds, lemma_skip_back_bounds,
    lemma_skip_fwd_bounds, lemma_trim_bounds, parse_int, parse_int_range, quote_pred, range_eq, skip_quotes_back, skip_quotes_fwd, string_from_range,
    is_digit, seq_contains, skip_back, skip_fwd, str_contains, trim_hi, trim_lo, trim_range,
};

verus! {

/// Fields of a flow that an expression can test.
#[derive(Debug, Clone, Copy, PartialEq, Eq)]
pub enum Field {
    ReqMethod,
    ReqUri,
    ReqHost,
    ResStatus,
}

/// Comparison operators.
#[derive(Debug, Clone, Copy, PartialEq, Eq)]
pub enum Op {
    Eq,
    Contains,
    StartsWith,
    EndsWith,
    Matches,
    Gte,
    Lte,
}

/// Right-hand side of a comparison.
#[derive(Debug)]
pub enum Value {
    Str(String),
    Int(i64),
}

/// A parsed expression.
#[derive(Debug)]
pub enum Expr {
    And(Box<Expr>, Box<Expr>),
    Or(Box<Expr>, Box<Expr>),
    Cmp(Field, Op, Value),
}

/// What an expression is evaluated against.
#[derive(Debug, Clone)]
pub struct EvalContext {
    pub req_method: Option<String>,
    pub req_uri: Option<String>,
    pub req_host: Option<String>,
    pub res_status: Option<u16>,
}

/// Why a text is not an `i64`, as `str::parse::<i64>` tells it.
#[derive(Debug, Clone, Copy, PartialEq, Eq)]
pub enum NumberError {
    /// The text is empty.
    Empty,
    /// A character is not a digit (or there is only a sign).
    InvalidDigit,
    /// The number is above `i64::MAX`.
    PosOverflow,
    /// The number is below `i64::MIN`.
    NegOverflow,
}

/// Why an expression was rejected.
#[derive(Debug, Clone, PartialEq, Eq)]
pub enum ParseError {
    /// The (trimmed) expression or one of its operands is empty.
    Empty,
    /// A comparison holds no operator (the trimmed comparison).
    UnsupportedOperator(String),
    /// The left side of a comparison is not a known field (the trimmed left side).
    UnsupportedField(String),
    /// The value compared with `res.status` is not an `i64`.
    InvalidNumber(NumberError),
}

/// Model of a [`ParseError`].
pub enum ParseErrorModel {
    Empty,
    UnsupportedOperator(Seq<char>),
    UnsupportedField(Seq<char>),
    InvalidNumber(NumberError),
}

impl ParseError {
    pub open spec fn model(&self) -> ParseErrorModel {
        match self {
            ParseError::Empty => ParseErrorModel::Empty,
            ParseError::UnsupportedOperator(t) => ParseErrorModel::UnsupportedOperator(t@),
            ParseError::UnsupportedField(t) => ParseErrorModel::UnsupportedField(t@),
            ParseError::InvalidNumber(k) => ParseErrorModel::InvalidNumber(*k),
        }
    }
}

/// Mathematical model of a [`Value`].
pub enum ValueModel {
    Str(Seq<char>),
    Int(i64),
}

/// Mathematical model of an [`Expr`].
pub enum ExprModel {
    And(Box<ExprModel>, Box<ExprModel>),
    Or(Box<ExprModel>, Box<ExprModel>),
    Cmp(Field, Op, ValueModel),
}

/// Mathematical model of an [`EvalContext`].
pub struct ContextModel {
    pub req_method: Option<Seq<char>>,
    pub req_uri: Option<Seq<char>>,
    pub req_host: Option<Seq<char>>,
    pub res_status: Option<u16>,
}

pub open spec fn opt_str_model(o: Option<String>) -> Option<Seq<char>> {
    match o {
        Some(s) => Some(s@),
        None => None,
    }
}

impl Value {
    pub open spec fn model(&self) -> ValueModel {
        match self {
            Value::Str(s) => ValueModel::Str(s@),
            Value::Int(i) => ValueModel::Int(*i),
        }
    }
}

impl Expr {
    pub open spec fn model(&self) -> ExprModel
        decreases self,
    {
        match self {
            Expr::And(a, b) => ExprModel::And(Box::new(a.model()), Box::new(b.model())),
            Expr::Or(a, b) => ExprModel::Or(Box::new(a.model()), Box::new(b.model())),
            Expr::Cmp(f, o, v) => ExprModel::Cmp(*f, *o, v.model()),
        }
    }
}

impl Clone for Value {
    fn clone(&self) -> (r: Self)
        ensures
            r.model() == self.model(),
    {
        match self {
            Value::Str(s) => Value::Str(s.clone()),
            Value::Int(i) => Value::Int(*i),
        }
    }
}

impl Clone for Expr {
    fn clone(&self) -> (r: Self)
        ensures
            r.model() == self.model(),
        decreases self,
    {
        match self {
            Expr::And(a, b) => {
                let l: Expr = (**a).clone();
                let r: Expr = (**b).clone();
                Expr::And(Box::new(l), Box::new(r))
            },
            Expr::Or(a, b) => {
                let l: Expr = (**a).clone();
                let r: Expr = (**b).clone();
                Expr::Or(Box::new(l), Box::new(r))
            },
            Expr::Cmp(f, o, v) => Expr::Cmp(*f, *o, v.clone()),
        }
    }
}

impl EvalContext {
    pub open spec fn model(&self) -> ContextModel {
        ContextModel {
            req_method: opt_str_model(self.req_method),
            req_uri: opt_str_model(self.req_uri),
            req_host: opt_str_model(self.req_host),
            res_status: self.res_status,
        }
    }
}

impl Default for EvalContext {
    fn default() -> (r: Self)
        ensures
            r.req_method is None,
            r.req_uri is None,
            r.req_host is None,
            r.res_status is None,
    {
        EvalContext { req_method: None, req_uri: None, req_host: None, res_status: None }
    }
}

/// The text a field denotes in a context (`res.status` is no text).
pub open spec fn field_text(f: Field, ctx: ContextModel) -> Option<Seq<char>> {
    match f {
        Field::ReqMethod => ctx.req_method,
        Field::ReqUri => ctx.req_uri,
        Field::ReqHost => ctx.req_host,
        Field::ResStatus => None,
    }
}

pub open spec fn seq_starts_with(x: Seq<char>, p: Seq<char>) -> bool {
    p.len() <= x.len() && x.subrange(0, p.len() as int) == p
}

pub open spec fn seq_ends_with(x: Seq<char>, p: Seq<char>) -> bool {
    p.len() <= x.len() && x.subrange(x.len() - p.len(), x.len() as int) == p
}

/// Length of the pattern atom at `pi`: an escaped character `\c` or one
/// character.
pub open spec fn atom_len(p: Seq<char>, pi: int) -> int {
    if p[pi] == '\\' && pi + 1 < p.len() {
        2
    } else {
        1
    }
}

/// Whether the atom at `pi` accepts `c`: `.` accepts any character, an
/// escaped character itself, any other character itself.
pub open spec fn atom_accepts(p: Seq<char>, pi: int, c: char) -> bool {
    if p[pi] == '\\' && pi + 1 < p.len() {
        p[pi + 1] == c
    } else {
        p[pi] == '.' || p[pi] == c
    }
}

/// Whether the pattern from `pi` on matches a prefix of `t[ti..]`: atoms in
/// turn, an atom followed by `*` any number of times, and a final `$` only
/// at the end of the text.
pub open spec fn re_here(p: Seq<char>, pi: int, t: Seq<char>, ti: int) -> bool
    decreases p.len() - pi, t.len() - ti,
{
    if pi >= p.len() {
        true
    } else if p[pi] == '$' && pi + 1 == p.len() {
        ti == t.len()
    } else if pi + atom_len(p, pi) < p.len() && p[pi + atom_len(p, pi)] == '*' {
        re_here(p, pi + atom_len(p, pi) + 1, t, ti) || (0 <= ti < t.len() && atom_accepts(p, pi, t[ti])
            && re_here(p, pi, t, ti + 1))
    } else {
        0 <= ti < t.len() && atom_accepts(p, pi, t[ti]) && re_here(p, pi + atom_len(p, pi), t, ti + 1)
    }
}

/// Whether the pattern matches starting at some position `k` or later.
pub open spec fn re_search(p: Seq<char>, t: Seq<char>, k: int) -> bool
    decreases t.len() + 1 - k,
{
    if k < 0 || k > t.len() {
        false
    } else {
        re_here(p, 0, t, k) || re_search(p, t, k + 1)
    }
}

/// The `matches` operator: a light regular expression (`^` anchors at the
/// start, `$` at the end, `.` is any character, `*` repeats the atom before
/// it, `\` escapes a character; every other character stands for itself)
/// found anywhere in the text.
pub open spec fn regex_matches(pattern: Seq<char>, text: Seq<char>) -> bool {
    if pattern.len() > 0 && pattern[0] == '^' {
        re_here(pattern, 1, text, 0)
    } else {
        re_search(pattern, text, 0)
    }
}

/// When a text operator holds of field text `x` and value `s`.
pub open spec fn text_op_holds(op: Op, x: Seq<char>, s: Seq<char>) -> bool {
    match op {
        Op::Eq => x == s,
        Op::Contains => seq_contains(x, s),
        Op::StartsWith => seq_starts_with(x, s),
        Op::EndsWith => seq_ends_with(x, s),
        Op::Matches => regex_matches(s, x),
        _ => false,
    }
}

/// When a single comparison holds: a text value against a text field, or a
/// number against `res.status`, of a field that the context has. Other
/// combinations (such as `res.status starts_with ...`) never hold.
pub open spec fn comparison_holds(f: Field, op: Op, v: ValueModel, ctx: ContextModel) -> bool {
    match v {
        ValueModel::Str(s) => field_text(f, ctx) matches Some(x) && text_op_holds(op, x, s),
        ValueModel::Int(i) => f == Field::ResStatus && (ctx.res_status matches Some(x) && match op {
            Op::Eq => x == i,
            Op::Gte => x >= i,
            Op::Lte => x <= i,
            _ => false,
        }),
    }
}

impl ExprModel {
    /// Truth value of an expression in a context.
    pub open spec fn holds(self, ctx: ContextModel) -> bool
        decreases self,
    {
        match self {
            ExprModel::And(a, b) => a.holds(ctx) && b.holds(ctx),
            ExprModel::Or(a, b) => a.holds(ctx) || b.holds(ctx),
            ExprModel::Cmp(f, o, v) => comparison_holds(f, o, v, ctx),
        }
    }
}

fn str_ends_with(x: &str, p: &str) -> (r: bool)
    ensures
        r == seq_ends_with(x@, p@),
{
    let v = chars_of(x);
    let pv = chars_of(p);
    pv.len() <= v.len() && range_eq(&v, v.len() - pv.len(), v.len(), &pv)
}

fn re_here_exec(p: &Vec<char>, pi: usize, t: &Vec<char>, ti: usize) -> (r: bool)
    requires
        pi <= p.len(),
        ti <= t.len(),
    ensures
        r == re_here(p@, pi as int, t@, ti as int),
    decreases p.len() - pi, t.len() - ti,
{
    if pi >= p.len() {
        return true;
    }
    if p[pi] == '$' && pi + 1 == p.len() {
        return ti == t.len();
    }
    let escaped = p[pi] == '\\' && pi + 1 < p.len();
    let al: usize = if escaped { 2 } else { 1 };
    assert(al == atom_len(p@, pi as int));
    let accepts = ti < t.len() && if escaped {
        p[pi + 1] == t[ti]
    } else {
        p[pi] == '.' || p[pi] == t[ti]
    };
    assert(accepts == (0 <= ti < t@.len() && atom_accepts(p@, pi as int, t@[ti as int])));
    if pi + al < p.len() && p[pi + al] == '*' {
        if re_here_exec(p, pi + al + 1, t, ti) {
            return true;
        }
        accepts && re_here_exec(p, pi, t, ti + 1)
    } else {
        accepts && re_here_exec(p, pi + al, t, ti + 1)
    }
}

/// Whether `pattern` (see [`regex_matches`]) is found in `text`.
pub fn regex_match(pattern: &str, text: &str) -> (r: bool)
    ensures
        r == regex_matches(pattern@, text@),
{
    let p = chars_of(pattern);
    let t = chars_of(text);
    if p.len() > 0 && p[0] == '^' {
        return re_here_exec(&p, 1, &t, 0);
    }
    let n = t.len();
    let mut k: usize = 0;
    while k <= n
        invariant
            n == t@.len(),
            p@ == pattern@,
            t@ == text@,
            !(p@.len() > 0 && p@[0] == '^'),
            k <= n + 1,
            re_search(p@, t@, 0) == re_search(p@, t@, k as int),
        decreases n + 1 - k,
    {
        let here = re_here_exec(&p, 0, &t, k);
        assert(re_search(p@, t@, k as int) == (here || re_search(p@, t@, k + 1)));
        if here {
            return true;
        }
        if k == n {
            assert(!re_search(p@, t@, k + 1));
            return false;
        }
        k = k + 1;
    }
    false
}

fn text_op(op: Op, x: &String, s: &String) -> (r: bool)
    ensures
        r == text_op_holds(op, x@, s@),
{
    match op {
        Op::Eq => *x == *s,
        Op::Contains => str_contains(x.as_str(), s.as_str()),
        Op::StartsWith => crate::text::str_starts_with(x.as_str(), s.as_str()),
        Op::EndsWith => str_ends_with(x.as_str(), s.as_str()),
        Op::Matches => regex_match(s.as_str(), x.as_str()),
        _ => false,
    }
}

fn compare_eval(f: Field, op: Op, v: &Value, ctx: &EvalContext) -> (r: bool)
    ensures
        r == comparison_holds(f, op, v.model(), ctx.model()),
{
    match v {
        Value::Str(s) => {
            let x = match f {
                Field::ReqMethod => &ctx.req_method,
                Field::ReqUri => &ctx.req_uri,
                Field::ReqHost => &ctx.req_host,
                Field::ResStatus => return false,
            };
            assert(opt_str_model(*x) == field_text(f, ctx.model()));
            match x {
                Some(t) => text_op(op, t, s),
                None => false,
            }
        },
        Value::Int(i) => match f {
            Field::ResStatus => match ctx.res_status {
                Some(x) => match op {
                    Op::Eq => x as i64 == *i,
                    Op::Gte => x as i64 >= *i,
                    Op::Lte => x as i64 <= *i,
                    _ => false,
                },
                None => false,
            },
            _ => false,
        },
    }
}

impl Expr {
    /// Evaluates the expression against a context.
    pub fn eval(&self, ctx: &EvalContext) -> (r: bool)
        ensures
            r == self.model().holds(ctx.model()),
        decreases self,
    {
        match self {
            Expr::And(a, b) => a.eval(ctx) && b.eval(ctx),
            Expr::Or(a, b) => a.eval(ctx) || b.eval(ctx),
            Expr::Cmp(f, o, v) => compare_eval(*f, *o, v, ctx),
        }
    }
}


/// `+1` for `(`, `-1` for `)`, `0` otherwise.
pub open spec fn paren_delta(c: char) -> int {
    if c == '(' {
        1
    } else if c == ')' {
        -1
    } else {
        0
    }
}

/// First position `k >= i` with `k + sep.len() <= hi` at which `sep` occurs
/// while the parenthesis depth, counted up to and including `s[k]`, is zero.
/// `depth` is the depth counted over the positions before `i`.
pub open spec fn find_top(s: Seq<char>, i: int, hi: int, sep: Seq<char>, depth: int) -> Option<int>
    decreases hi - i + 1,
{
    if i + sep.len() <= hi {
        let d = depth + paren_delta(s[i]);
        if d == 0 && s.subrange(i, i + sep.len()) == sep {
            Some(i)
        } else {
            find_top(s, i + 1, hi, sep, d)
        }
    } else {
        None
    }
}

pub proof fn lemma_find_top_bounds(s: Seq<char>, i: int, hi: int, sep: Seq<char>, depth: int)
    ensures
        find_top(s, i, hi, sep, depth) matches Some(k) ==> i <= k && k + sep.len() <= hi,
    decreases hi - i + 1,
{
    if i + sep.len() <= hi {
        let d = depth + paren_delta(s[i]);
        if !(d == 0 && s.subrange(i, i + sep.len()) == sep) {
            lemma_find_top_bounds(s, i + 1, hi, sep, d);
        }
    }
}

pub open spec fn or_sep() -> Seq<char> {
    seq!['|', '|']
}

pub open spec fn and_sep() -> Seq<char> {
    seq!['&', '&']
}

pub open spec fn eq_sep() -> Seq<char> {
    seq!['=', '=']
}

pub open spec fn contains_sep() -> Seq<char> {
    seq!['~', '=']
}

pub open spec fn gte_sep() -> Seq<char> {
    seq!['>', '=']
}

pub open spec fn lte_sep() -> Seq<char> {
    seq!['<', '=']
}

pub open spec fn starts_sep() -> Seq<char> {
    "starts_with"@
}

pub open spec fn ends_sep() -> Seq<char> {
    "ends_with"@
}

pub open spec fn matches_sep() -> Seq<char> {
    "matches"@
}

/// Number of characters of an operator's text.
pub open spec fn op_len(op: Op) -> int {
    match op {
        Op::StartsWith => 11,
        Op::EndsWith => 9,
        Op::Matches => 7,
        _ => 2,
    }
}

/// The field that a (trimmed) field name denotes.
pub open spec fn field_named(name: Seq<char>) -> Option<Field> {
    if name == "req.method"@ {
        Some(Field::ReqMethod)
    } else if name == "req.uri"@ {
        Some(Field::ReqUri)
    } else if name == "req.host"@ {
        Some(Field::ReqHost)
    } else if name == "res.status"@ {
        Some(Field::ResStatus)
    } else {
        None
    }
}

/// The operator of a comparison in `s[a..b]` and its position: the first
/// of `==`, `~=`, `>=`, `<=`, `starts_with`, `ends_with`, `matches` that
/// occurs, tried in that order, at its first occurrence.
pub open spec fn operator_at(s: Seq<char>, a: int, b: int) -> Option<(Op, int)> {
    match find_from(s, a, b, eq_sep()) {
        Some(i) => Some((Op::Eq, i)),
        None => match find_from(s, a, b, contains_sep()) {
            Some(i) => Some((Op::Contains, i)),
            None => match find_from(s, a, b, gte_sep()) {
                Some(i) => Some((Op::Gte, i)),
                None => match find_from(s, a, b, lte_sep()) {
                    Some(i) => Some((Op::Lte, i)),
                    None => match find_from(s, a, b, starts_sep()) {
                        Some(i) => Some((Op::StartsWith, i)),
                        None => match find_from(s, a, b, ends_sep()) {
                            Some(i) => Some((Op::EndsWith, i)),
                            None => match find_from(s, a, b, matches_sep()) {
                                Some(i) => Some((Op::Matches, i)),
                                None => None,
                            },
                        },
                    },
                },
            },
        },
    }
}

pub open spec fn int_to_i64(v: int) -> i64 {
    v as i64
}

pub open spec fn digit_pred() -> spec_fn(char) -> bool {
    |c: char| is_digit(c)
}

/// Why `s[lo..hi]` is not an `i64` (for a text that is not one): empty; a
/// sign alone, or a non-digit found before the digits read so far leave the
/// range; or else the digits leave the range, above or below by the sign.
pub open spec fn number_error(s: Seq<char>, lo: int, hi: int) -> NumberError {
    if hi <= lo {
        NumberError::Empty
    } else {
        let neg = s[lo] == '-';
        let start = if s[lo] == '+' || neg { lo + 1 } else { lo };
        let k = skip_fwd(s, start, hi, digit_pred());
        if k == start {
            NumberError::InvalidDigit
        } else if parse_int(s.subrange(lo, k), i64::MIN as int, i64::MAX as int) is None {
            if neg {
                NumberError::NegOverflow
            } else {
                NumberError::PosOverflow
            }
        } else {
            NumberError::InvalidDigit
        }
    }
}

/// The value of a comparison: for `res.status` an `i64` literal, for the
/// other fields the text with surrounding `"` characters removed.
pub open spec fn value_of(f: Field, s: Seq<char>, ra: int, rb: int) -> Result<ValueModel, ParseErrorModel> {
    match f {
        Field::ResStatus => match parse_int(
            s.subrange(ra, rb),
            i64::MIN as int,
            i64::MAX as int,
        ) {
            Some(v) => Ok(ValueModel::Int(int_to_i64(v))),
            None => Err(ParseErrorModel::InvalidNumber(number_error(s, ra, rb))),
        },
        _ => {
            let qa = skip_fwd(s, ra, rb, quote_pred());
            let qb = skip_back(s, qa, rb, quote_pred());
            Ok(ValueModel::Str(s.subrange(qa, qb)))
        },
    }
}

/// A single comparison `field OP value` in the trimmed range `s[a..b]`.
pub open spec fn parse_comparison(s: Seq<char>, a: int, b: int) -> Result<ExprModel, ParseErrorModel> {
    match operator_at(s, a, b) {
        None => Err(ParseErrorModel::UnsupportedOperator(s.subrange(a, b))),
        Some((op, i)) => match field_named(s.subrange(trim_lo(s, a, i), trim_hi(s, a, i))) {
            None => Err(ParseErrorModel::UnsupportedField(s.subrange(trim_lo(s, a, i), trim_hi(s, a, i)))),
            Some(f) => match value_of(f, s, trim_lo(s, i + op_len(op), b), trim_hi(s, i + op_len(op), b)) {
                Ok(v) => Ok(ExprModel::Cmp(f, op, v)),
                Err(e) => Err(e),
            },
        },
    }
}

pub open spec fn join_or(l: Result<ExprModel, ParseErrorModel>, r: Result<ExprModel, ParseErrorModel>) -> Result<
    ExprModel,
    ParseErrorModel,
> {
    match l {
        Err(e) => Err(e),
        Ok(x) => match r {
            Err(e) => Err(e),
            Ok(y) => Ok(ExprModel::Or(Box::new(x), Box::new(y))),
        },
    }
}

pub open spec fn join_and(l: Result<ExprModel, ParseErrorModel>, r: Result<ExprModel, ParseErrorModel>) -> Result<
    ExprModel,
    ParseErrorModel,
> {
    match l {
        Err(e) => Err(e),
        Ok(x) => match r {
            Err(e) => Err(e),
            Ok(y) => Ok(ExprModel::And(Box::new(x), Box::new(y))),
        },
    }
}

/// The expression denoted by `s[lo..hi]`.
pub open spec fn parse_range(s: Seq<char>, lo: int, hi: int) -> Result<ExprModel, ParseErrorModel>
    decreases hi - lo,
{
    let a = trim_lo(s, lo, hi);
    let b = trim_hi(s, lo, hi);
    if hi <= lo || b <= a {
        Err(ParseErrorModel::Empty)
    } else {
        proof {
            lemma_trim_bounds(s, lo, hi);
            lemma_find_top_bounds(s, a, b, or_sep(), 0);
            lemma_find_top_bounds(s, a, b, and_sep(), 0);
        }
        match find_top(s, a, b, or_sep(), 0) {
            Some(i) => join_or(parse_range(s, a, i), parse_range(s, i + 2, b)),
            None => match find_top(s, a, b, and_sep(), 0) {
                Some(i) => join_and(parse_range(s, a, i), parse_range(s, i + 2, b)),
                None => parse_comparison(s, a, b),
            },
        }
    }
}

/// The expression denoted by a whole text.
pub open spec fn spec_parse(s: Seq<char>) -> Result<ExprModel, ParseErrorModel> {
    parse_range(s, 0, s.len() as int)
}


fn find_top_exec(v: &Vec<char>, lo: usize, hi: usize, sep: &Vec<char>) -> (r: Option<usize>)
    requires
        lo <= hi <= v.len(),
        sep.len() >= 1,
    ensures
        match r {
            Some(i) => find_top(v@, lo as int, hi as int, sep@, 0) == Some(i as int),
            None => find_top(v@, lo as int, hi as int, sep@, 0) is None,
        },
{
    let n = sep.len();
    if n > hi - lo {
        return None;
    }
    let last = hi - n;
    let mut i = lo;
    let mut depth: i128 = 0;
    while i <= last
        invariant
            lo <= i <= last + 1,
            last == hi - n,
            n == sep.len(),
            n >= 1,
            hi <= v.len(),
            -(i - lo) <= depth <= i - lo,
            find_top(v@, i as int, hi as int, sep@, depth as int) == find_top(
                v@,
                lo as int,
                hi as int,
                sep@,
                0,
            ),
        decreases last + 1 - i,
    {
        let c = v[i];
        let ghost old_depth = depth;
        if c == '(' {
            depth = depth + 1;
        } else if c == ')' {
            depth = depth - 1;
        }
        if depth == 0 && range_eq(v, i, i + n, sep) {
            return Some(i);
        }
        assert(find_top(v@, i as int, hi as int, sep@, old_depth as int) == find_top(
            v@,
            i + 1,
            hi as int,
            sep@,
            depth as int,
        ));
        if i == last {
            assert(find_top(v@, i + 1, hi as int, sep@, depth as int) is None);
            return None;
        }
        i = i + 1;
    }
    None
}

fn operator_exec(v: &Vec<char>, a: usize, b: usize) -> (r: Option<(Op, usize)>)
    requires
        a <= b <= v.len(),
    ensures
        match r {
            Some((op, i)) => operator_at(v@, a as int, b as int) == Some((op, i as int)) && a
                <= i && i + op_len(op) <= b,
            None => operator_at(v@, a as int, b as int) is None,
        },
{
    let eq = vec!['=', '='];
    let ct = vec!['~', '='];
    let ge = vec!['>', '='];
    let le = vec!['<', '='];
    let sw = chars_of("starts_with");
    let ew = chars_of("ends_with");
    let mt = chars_of("matches");
    proof {
        reveal_strlit("starts_with");
        reveal_strlit("ends_with");
        reveal_strlit("matches");
    }
    assert(eq@ =~= eq_sep());
    assert(ct@ =~= contains_sep());
    assert(ge@ =~= gte_sep());
    assert(le@ =~= lte_sep());
    let ghost ga = a as int;
    let ghost gb = b as int;
    proof {
        lemma_find_from_bounds(v@, ga, gb, eq_sep());
        lemma_find_from_bounds(v@, ga, gb, contains_sep());
        lemma_find_from_bounds(v@, ga, gb, starts_sep());
        lemma_find_from_bounds(v@, ga, gb, ends_sep());
        lemma_find_from_bounds(v@, ga, gb, matches_sep());
        lemma_find_from_bounds(v@, ga, gb, gte_sep());
        lemma_find_from_bounds(v@, ga, gb, lte_sep());
    }
    if let Some(i) = find_in_range(v, a, b, &eq) {
        return Some((Op::Eq, i));
    }
    if let Some(i) = find_in_range(v, a, b, &ct) {
        return Some((Op::Contains, i));
    }
    if let Some(i) = find_in_range(v, a, b, &ge) {
        return Some((Op::Gte, i));
    }
    if let Some(i) = find_in_range(v, a, b, &le) {
        return Some((Op::Lte, i));
    }
    if let Some(i) = find_in_range(v, a, b, &sw) {
        return Some((Op::StartsWith, i));
    }
    if let Some(i) = find_in_range(v, a, b, &ew) {
        return Some((Op::EndsWith, i));
    }
    if let Some(i) = find_in_range(v, a, b, &mt) {
        return Some((Op::Matches, i));
    }
    None
}

fn op_len_exec(op: Op) -> (r: usize)
    ensures
        r == op_len(op),
{
    match op {
        Op::StartsWith => 11,
        Op::EndsWith => 9,
        Op::Matches => 7,
        _ => 2,
    }
}

fn field_exec(v: &Vec<char>, a: usize, b: usize) -> (r: Option<Field>)
    requires
        a <= b <= v.len(),
    ensures
        r == field_named(v@.subrange(a as int, b as int)),
{
    if range_eq(v, a, b, &chars_of("req.method")) {
        Some(Field::ReqMethod)
    } else if range_eq(v, a, b, &chars_of("req.uri")) {
        Some(Field::ReqUri)
    } else if range_eq(v, a, b, &chars_of("req.host")) {
        Some(Field::ReqHost)
    } else if range_eq(v, a, b, &chars_of("res.status")) {
        Some(Field::ResStatus)
    } else {
        None
    }
}

fn i128_to_i64(x: i128) -> (r: i64)
    requires
        i64::MIN <= x <= i64::MAX,
    ensures
        r == x,
        r == int_to_i64(x as int),
{
    x as i64
}

fn number_error_exec(v: &Vec<char>, lo: usize, hi: usize) -> (r: NumberError)
    requires
        lo <= hi <= v.len(),
    ensures
        r == number_error(v@, lo as int, hi as int),
{
    if hi <= lo {
        return NumberError::Empty;
    }
    let neg = v[lo] == '-';
    let start = if v[lo] == '+' || neg { lo + 1 } else { lo };
    proof {
        crate::text::lemma_skip_fwd_bounds(v@, start as int, hi as int, digit_pred());
    }
    let mut k = start;
    while k < hi && '0' <= v[k] && v[k] <= '9'
        invariant
            start <= k <= hi <= v.len(),
            skip_fwd(v@, k as int, hi as int, digit_pred()) == skip_fwd(v@, start as int, hi as int, digit_pred()),
        decreases hi - k,
    {
        k = k + 1;
    }
    if k == start {
        NumberError::InvalidDigit
    } else if parse_int_range(v, lo, k, 9223372036854775808u64, 9223372036854775807u64).is_none() {
        if neg {
            NumberError::NegOverflow
        } else {
            NumberError::PosOverflow
        }
    } else {
        NumberError::InvalidDigit
    }
}

fn value_exec(f: Field, v: &Vec<char>, ra: usize, rb: usize) -> (r: Result<Value, ParseError>)
    requires
        ra <= rb <= v.len(),
    ensures
        match r {
            Ok(x) => value_of(f, v@, ra as int, rb as int) == Ok::<ValueModel, ParseErrorModel>(
                x.model(),
            ),
            Err(e) => value_of(f, v@, ra as int, rb as int) == Err::<ValueModel, ParseErrorModel>(e.model()),
        },
{
    match f {
        Field::ResStatus => {
            match parse_int_range(v, ra, rb, 9223372036854775808u64, 9223372036854775807u64) {
                Some(x) => Ok(Value::Int(i128_to_i64(x))),
                None => Err(ParseError::InvalidNumber(number_error_exec(v, ra, rb))),
            }
        },
        _ => {
            let qa = skip_quotes_fwd(v, ra, rb);
            let qb = skip_quotes_back(v, qa, rb);
            Ok(Value::Str(string_from_range(v, qa, qb)))
        },
    }
}

fn parse_comparison_exec(v: &Vec<char>, a: usize, b: usize) -> (r: Result<Expr, ParseError>)
    requires
        a <= b <= v.len(),
    ensures
        match r {
            Ok(e) => parse_comparison(v@, a as int, b as int) == Ok::<ExprModel, ParseErrorModel>(
                e.model(),
            ),
            Err(x) => parse_comparison(v@, a as int, b as int) == Err::<ExprModel, ParseErrorModel>(x.model()),
        },
{
    let (op, i) = match operator_exec(v, a, b) {
        Some(x) => x,
        None => return Err(ParseError::UnsupportedOperator(string_from_range(v, a, b))),
    };
    let (fa, fb) = trim_range(v, a, i);
    let f = match field_exec(v, fa, fb) {
        Some(f) => f,
        None => return Err(ParseError::UnsupportedField(string_from_range(v, fa, fb))),
    };
    let (ra, rb) = trim_range(v, i + op_len_exec(op), b);
    match value_exec(f, v, ra, rb) {
        Ok(val) => Ok(Expr::Cmp(f, op, val)),
        Err(e) => Err(e),
    }
}

/// Parses the expression in `v[lo..hi]`.
pub(crate) fn parse_range_exec(v: &Vec<char>, lo: usize, hi: usize) -> (r: Result<Expr, ParseError>)
    requires
        lo <= hi <= v.len(),
    ensures
        match r {
            Ok(e) => parse_range(v@, lo as int, hi as int) == Ok::<ExprModel, ParseErrorModel>(
                e.model(),
            ),
            Err(x) => parse_range(v@, lo as int, hi as int) == Err::<ExprModel, ParseErrorModel>(x.model()),
        },
    decreases hi - lo,
{
    let (a, b) = trim_range(v, lo, hi);
    if hi <= lo || b <= a {
        return Err(ParseError::Empty);
    }
    proof {
        lemma_find_top_bounds(v@, a as int, b as int, or_sep(), 0);
        lemma_find_top_bounds(v@, a as int, b as int, and_sep(), 0);
    }
    let or_s = vec!['|', '|'];
    let and_s = vec!['&', '&'];
    assert(or_s@ =~= or_sep());
    assert(and_s@ =~= and_sep());
    match find_top_exec(v, a, b, &or_s) {
        Some(i) => {
            let l = match parse_range_exec(v, a, i) {
                Ok(e) => e,
                Err(x) => return Err(x),
            };
            let r = match parse_range_exec(v, i + 2, b) {
                Ok(e) => e,
                Err(x) => return Err(x),
            };
            Ok(Expr::Or(Box::new(l), Box::new(r)))
        },
        None => match find_top_exec(v, a, b, &and_s) {
            Some(i) => {
                let l = match parse_range_exec(v, a, i) {
                    Ok(e) => e,
                    Err(x) => return Err(x),
                };
                let r = match parse_range_exec(v, i + 2, b) {
                    Ok(e) => e,
                    Err(x) => return Err(x),
                };
                Ok(Expr::And(Box::new(l), Box::new(r)))
            },
            None => parse_comparison_exec(v, a, b),
        },
    }
}

/// Parses an expression.
pub fn parse(input: &str) -> (r: Result<Expr, ParseError>)
    ensures
        match r {
            Ok(e) => spec_parse(input@) == Ok::<ExprModel, ParseErrorModel>(e.model()),
            Err(x) => spec_parse(input@) == Err::<ExprModel, ParseErrorModel>(x.model()),
        },
{
    let v = chars_of(input);
    parse_range_exec(&v, 0, v.len())
}

/// `||` holds when either side holds and `&&` when both do, in every
/// context; in particular an `||` holds as soon as its left side holds,
/// whatever its right side.
pub proof fn law_or_and_hold(a: ExprModel, b: ExprModel, ctx: ContextModel)
    ensures
        ExprModel::Or(Box::new(a), Box::new(b)).holds(ctx) <==> (a.holds(ctx) || b.holds(ctx)),
        ExprModel::And(Box::new(a), Box::new(b)).holds(ctx) <==> (a.holds(ctx) && b.holds(ctx)),
        a.holds(ctx) ==> ExprModel::Or(Box::new(a), Box::new(b)).holds(ctx),
        b.holds(ctx) ==> ExprModel::Or(Box::new(a), Box::new(b)).holds(ctx),
        !a.holds(ctx) ==> !ExprModel::And(Box::new(a), Box::new(b)).holds(ctx),
{
}

/// A text with a top-level `||` parses into an expression that holds
/// exactly when the expression before the `||` or the one after it holds.
pub proof fn law_parsed_or(s: Seq<char>, ctx: ContextModel)
    requires
        spec_parse(s) is Ok,
        find_top(s, trim_lo(s, 0, s.len() as int), trim_hi(s, 0, s.len() as int), or_sep(), 0) is Some,
    ensures
        ({
            let i = find_top(s, trim_lo(s, 0, s.len() as int), trim_hi(s, 0, s.len() as int), or_sep(), 0)->0;
            &&& parse_range(s, trim_lo(s, 0, s.len() as int), i) is Ok
            &&& parse_range(s, i + 2, trim_hi(s, 0, s.len() as int)) is Ok
            &&& spec_parse(s)->Ok_0.holds(ctx) <==> (parse_range(s, trim_lo(s, 0, s.len() as int), i)->Ok_0.holds(
                ctx,
            ) || parse_range(s, i + 2, trim_hi(s, 0, s.len() as int))->Ok_0.holds(ctx))
        }),
{
    lemma_trim_bounds(s, 0, s.len() as int);
}

} // verus!
