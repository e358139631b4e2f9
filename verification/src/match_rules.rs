//! D-Bus match rule parsing and matching.
//!
//! Clients subscribe to signals with match rules: comma-separated
//! `key='value'` pairs, parsed as the D-Bus specification describes.

use vstd::prelude::*;
use vstd::string::StringExecFns;

use std::collections::HashMap;

use zbus::message::Message;

use crate::message::{message_fields, model_of};

use crate::text::{
    chars_of, concat, is_prefix, prefix_of, cut_ws, find_char, find_in, leading_ws, parse_unsigned, read_unsigned, skip_ws, str_eq, substring,
    trailing_ws, trim, trim_end, trim_start,
};

verus! {


/// A parsed D-Bus match rule.
#[derive(Debug, Clone, PartialEq, Eq)]
pub struct MatchRule {
    /// The original rule string.
    pub rule_string: String,
    /// Message type filter (signal, method_call, method_return, error).
    pub msg_type: Option<String>,
    /// Sender filter.
    pub sender: Option<String>,
    /// Interface filter.
    pub interface: Option<String>,
    /// Member (method/signal name) filter.
    pub member: Option<String>,
    /// Object path filter.
    pub path: Option<String>,
    /// Object path namespace filter (matches path and all children).
    pub path_namespace: Option<String>,
    /// Destination filter.
    pub destination: Option<String>,
    /// Argument filters (arg0, arg1, etc.).
    pub args: HashMap<u8, String>,
    /// Argument path filters (arg0path, arg1path, etc.).
    pub arg_paths: HashMap<u8, String>,
    /// Eavesdrop flag (usually ignored for security).
    pub eavesdrop: bool,
}

/// Errors that can occur when parsing match rules.
#[derive(Debug, Clone, PartialEq, Eq)]
pub enum MatchRuleError {
    /// Invalid match rule format.
    InvalidFormat(String),
    /// Invalid argument index.
    InvalidArgIndex(String),
}

/// The abstract content of a match rule.
pub struct RuleModel {
    pub rule_string: Seq<char>,
    pub msg_type: Option<Seq<char>>,
    pub sender: Option<Seq<char>>,
    pub interface: Option<Seq<char>>,
    pub member: Option<Seq<char>>,
    pub path: Option<Seq<char>>,
    pub path_namespace: Option<Seq<char>>,
    pub destination: Option<Seq<char>>,
    pub args: Map<u8, Seq<char>>,
    pub arg_paths: Map<u8, Seq<char>>,
    pub eavesdrop: bool,
}

/// The abstract content of a parse error.
pub enum RuleErrorModel {
    InvalidFormat(Seq<char>),
    InvalidArgIndex(Seq<char>),
}

pub open spec fn opt_view(o: Option<String>) -> Option<Seq<char>> {
    match o {
        Some(s) => Some(s@),
        None => None,
    }
}

pub open spec fn strings_view(m: Map<u8, String>) -> Map<u8, Seq<char>> {
    m.map_values(|s: String| s@)
}

impl View for MatchRule {
    type V = RuleModel;

    open spec fn view(&self) -> RuleModel {
        RuleModel {
            rule_string: self.rule_string@,
            msg_type: opt_view(self.msg_type),
            sender: opt_view(self.sender),
            interface: opt_view(self.interface),
            member: opt_view(self.member),
            path: opt_view(self.path),
            path_namespace: opt_view(self.path_namespace),
            destination: opt_view(self.destination),
            args: strings_view(self.args@),
            arg_paths: strings_view(self.arg_paths@),
            eavesdrop: self.eavesdrop,
        }
    }
}

/// The text of a parse error, as it is displayed.
pub open spec fn spec_rule_error_text(e: RuleErrorModel) -> Seq<char> {
    match e {
        RuleErrorModel::InvalidFormat(m) => "Invalid match rule format: "@ + m,
        RuleErrorModel::InvalidArgIndex(k) => "Invalid argument index: "@ + k,
    }
}

impl MatchRuleError {
    /// The error's text, as it is displayed.
    pub fn to_string(&self) -> (r: String)
        ensures
            r@ == spec_rule_error_text(self@),
    {
        match self {
            MatchRuleError::InvalidFormat(m) => concat("Invalid match rule format: ", m.as_str()),
            MatchRuleError::InvalidArgIndex(k) => concat("Invalid argument index: ", k.as_str()),
        }
    }
}

impl View for MatchRuleError {
    type V = RuleErrorModel;

    open spec fn view(&self) -> RuleErrorModel {
        match self {
            MatchRuleError::InvalidFormat(s) => RuleErrorModel::InvalidFormat(s@),
            MatchRuleError::InvalidArgIndex(s) => RuleErrorModel::InvalidArgIndex(s@),
        }
    }
}

/// The rule that matches everything, written as `rule_string`.
pub open spec fn empty_rule(rule_string: Seq<char>) -> RuleModel {
    RuleModel {
        rule_string,
        msg_type: None,
        sender: None,
        interface: None,
        member: None,
        path: None,
        path_namespace: None,
        destination: None,
        args: Map::empty(),
        arg_paths: Map::empty(),
        eavesdrop: false,
    }
}

/// Whether `key` starts with "arg".
pub open spec fn starts_with_arg(key: Seq<char>) -> bool {
    key.len() >= 3 && key[0] == 'a' && key[1] == 'r' && key[2] == 'g'
}

/// Whether `key` ends with "path".
pub open spec fn ends_with_path(key: Seq<char>) -> bool {
    let n = key.len();
    n >= 4 && key[n - 4] == 'p' && key[n - 3] == 'a' && key[n - 2] == 't' && key[n - 1] == 'h'
}

/// The argument index written in `digits`, when it is a valid one (0 to 63).
pub open spec fn arg_index(digits: Seq<char>) -> Option<u8> {
    match parse_unsigned(digits, 255) {
        Some(n) => if n <= 63 { Some(n as u8) } else { None },
        None => None,
    }
}

/// The rule `m` once the pair `key`=`value` is taken into account. Unknown
/// keys are ignored; an argument key with a bad index is an error.
pub open spec fn spec_apply_pair(m: RuleModel, key: Seq<char>, value: Seq<char>) -> Result<RuleModel, RuleErrorModel> {
    if key == "type"@ {
        Ok(RuleModel { msg_type: Some(value), ..m })
    } else if key == "sender"@ {
        Ok(RuleModel { sender: Some(value), ..m })
    } else if key == "interface"@ {
        Ok(RuleModel { interface: Some(value), ..m })
    } else if key == "member"@ {
        Ok(RuleModel { member: Some(value), ..m })
    } else if key == "path"@ {
        Ok(RuleModel { path: Some(value), ..m })
    } else if key == "path_namespace"@ {
        Ok(RuleModel { path_namespace: Some(value), ..m })
    } else if key == "destination"@ {
        Ok(RuleModel { destination: Some(value), ..m })
    } else if key == "eavesdrop"@ {
        Ok(RuleModel { eavesdrop: value == "true"@, ..m })
    } else if starts_with_arg(key) && ends_with_path(key) {
        match arg_index(key.subrange(3, key.len() - 4)) {
            Some(n) => Ok(RuleModel { arg_paths: m.arg_paths.insert(n, value), ..m }),
            None => Err(RuleErrorModel::InvalidArgIndex(key)),
        }
    } else if starts_with_arg(key) {
        match arg_index(key.skip(3)) {
            Some(n) => Ok(RuleModel { args: m.args.insert(n, value), ..m }),
            None => Err(RuleErrorModel::InvalidArgIndex(key)),
        }
    } else {
        Ok(m)
    }
}

pub proof fn lemma_ws_bounds(s: Seq<char>)
    ensures
        leading_ws(s) <= s.len(),
        trailing_ws(s) <= s.len(),
    decreases s.len(),
{
    if s.len() > 0 {
        lemma_ws_bounds(s.drop_first());
        lemma_ws_bounds(s.drop_last());
    }
}

pub proof fn lemma_find_bound(s: Seq<char>, c: char)
    ensures
        find_char(s, c) matches Some(i) ==> i < s.len() && s[i as int] == c,
    decreases s.len(),
{
    if s.len() > 0 {
        lemma_find_bound(s.drop_first(), c);
    }
}

/// `rest` with leading white space and then one separating comma (and the
/// white space after it) skipped.
pub open spec fn skip_separator(rest: Seq<char>) -> Seq<char> {
    let r1 = trim_start(rest);
    if r1.len() > 0 && r1[0] == ',' { trim_start(r1.drop_first()) } else { r1 }
}

/// What the front of the unparsed text holds.
pub enum PairStep {
    /// Nothing is left.
    Done,
    /// A pair `key` = `value`, then the text `rest`.
    Pair(Seq<char>, Seq<char>, Seq<char>),
    /// Text that is not a pair.
    Malformed(Seq<char>),
}

/// The value at the front of `r3` and the text after it: either quoted with
/// single quotes, or running to the next comma with white space around it
/// cut off. `None` when a quote is not closed.
pub open spec fn spec_value(r3: Seq<char>) -> Option<(Seq<char>, Seq<char>)> {
    if r3.len() > 0 && r3[0] == '\'' {
        match find_char(r3.drop_first(), '\'') {
            None => None,
            Some(e) => Some((r3.subrange(1, e + 1int), r3.skip(e + 2int))),
        }
    } else {
        let end = match find_char(r3, ',') {
            Some(c) => c as int,
            None => r3.len() as int,
        };
        Some((trim(r3.take(end)), r3.skip(end)))
    }
}

/// The first pair of `rest`: a key, '=', then a value.
pub open spec fn spec_next_pair(rest: Seq<char>) -> PairStep {
    let r2 = skip_separator(rest);
    if r2.len() == 0 {
        PairStep::Done
    } else {
        match find_char(r2, '=') {
            None => PairStep::Malformed("Missing '=' in: "@ + r2),
            Some(eq) => match spec_value(trim_start(r2.skip(eq + 1int))) {
                None => PairStep::Malformed("Unclosed quote"@),
                Some((value, r)) => PairStep::Pair(trim(r2.take(eq as int)), value, r),
            },
        }
    }
}

pub proof fn lemma_trim_start_len(s: Seq<char>)
    ensures
        trim_start(s).len() <= s.len(),
{
    lemma_ws_bounds(s);
}

pub proof fn lemma_skip_separator_len(rest: Seq<char>)
    ensures
        skip_separator(rest).len() <= rest.len(),
{
    lemma_trim_start_len(rest);
    let r1 = trim_start(rest);
    if r1.len() > 0 {
        lemma_trim_start_len(r1.drop_first());
    }
}

pub proof fn lemma_value_shrinks(r3: Seq<char>)
    ensures
        spec_value(r3) matches Some((_, r)) ==> r.len() <= r3.len(),
{
    lemma_find_bound(r3, ',');
    if r3.len() > 0 {
        lemma_find_bound(r3.drop_first(), '\'');
    }
}

pub proof fn lemma_next_pair_shrinks(rest: Seq<char>)
    ensures
        spec_next_pair(rest) matches PairStep::Pair(_, _, r) ==> r.len() < rest.len(),
{
    lemma_skip_separator_len(rest);
    let r2 = skip_separator(rest);
    lemma_find_bound(r2, '=');
    if r2.len() > 0 {
        if let Some(eq) = find_char(r2, '=') {
            let r3 = trim_start(r2.skip(eq + 1int));
            lemma_trim_start_len(r2.skip(eq + 1int));
            lemma_value_shrinks(r3);
        }
    }
}

/// Parses the pairs of `rest` into `m`, one at a time, stopping at the
/// first error.
pub open spec fn spec_parse_pairs(rest: Seq<char>, m: RuleModel) -> Result<RuleModel, RuleErrorModel>
    decreases rest.len(),
{
    proof { lemma_next_pair_shrinks(rest); }
    match spec_next_pair(rest) {
        PairStep::Done => Ok(m),
        PairStep::Malformed(msg) => Err(RuleErrorModel::InvalidFormat(msg)),
        PairStep::Pair(key, value, r) => match spec_apply_pair(m, key, value) {
            Ok(m2) => spec_parse_pairs(r, m2),
            Err(x) => Err(x),
        },
    }
}

/// The outcome of parsing `rule`.
pub open spec fn spec_parse(rule: Seq<char>) -> Result<RuleModel, RuleErrorModel> {
    spec_parse_pairs(trim(rule), empty_rule(rule))
}

impl MatchRule {
    /// The rule that matches everything, written as `rule`.
    fn matching_all(rule: &str) -> (r: MatchRule)
        ensures
            r@ == empty_rule(rule@),
    {
        broadcast use vstd::std_specs::hash::group_hash_axioms;

        let r = MatchRule {
            rule_string: rule.to_owned(),
            msg_type: None,
            sender: None,
            interface: None,
            member: None,
            path: None,
            path_namespace: None,
            destination: None,
            args: HashMap::new(),
            arg_paths: HashMap::new(),
            eavesdrop: false,
        };
        assert(r@.args =~= Map::<u8, Seq<char>>::empty());
        assert(r@.arg_paths =~= Map::<u8, Seq<char>>::empty());
        r
    }

    /// Takes the pair `rule[klo..khi]` = `value` into account.
    fn apply_pair(&mut self, rule: &str, cs: &Vec<char>, klo: usize, khi: usize, value: String) -> (r: Result<(), MatchRuleError>)
        requires
            cs@ == rule@,
            klo <= khi <= cs@.len(),
        ensures
            match r {
                Ok(()) => spec_apply_pair(old(self)@, cs@.subrange(klo as int, khi as int), value@) == Ok::<RuleModel, RuleErrorModel>(final(self)@),
                Err(e) => spec_apply_pair(old(self)@, cs@.subrange(klo as int, khi as int), value@) == Err::<RuleModel, RuleErrorModel>(e@),
            },
    {
        broadcast use vstd::std_specs::hash::group_hash_axioms;

        let key = substring(rule, klo, khi);
        let ghost k = key@;
        assert(k == cs@.subrange(klo as int, khi as int));
        if str_eq(key.as_str(), "type") {
            self.msg_type = Some(value);
        } else if str_eq(key.as_str(), "sender") {
            self.sender = Some(value);
        } else if str_eq(key.as_str(), "interface") {
            self.interface = Some(value);
        } else if str_eq(key.as_str(), "member") {
            self.member = Some(value);
        } else if str_eq(key.as_str(), "path") {
            self.path = Some(value);
        } else if str_eq(key.as_str(), "path_namespace") {
            self.path_namespace = Some(value);
        } else if str_eq(key.as_str(), "destination") {
            self.destination = Some(value);
        } else if str_eq(key.as_str(), "eavesdrop") {
            self.eavesdrop = str_eq(value.as_str(), "true");
        } else if khi - klo >= 3 && cs[klo] == 'a' && cs[klo + 1] == 'r' && cs[klo + 2] == 'g' {
            assert(starts_with_arg(k));
            let n = khi - klo;
            let is_path = n >= 4 && cs[khi - 4] == 'p' && cs[khi - 3] == 'a' && cs[khi - 2] == 't' && cs[khi - 1] == 'h';
            assert(is_path == ends_with_path(k));
            let idx = if is_path {
                assert(k.subrange(3, k.len() - 4) =~= cs@.subrange(klo + 3, khi - 4));
                read_unsigned(cs, klo + 3, khi - 4, 255)
            } else {
                assert(k.skip(3) =~= cs@.subrange(klo + 3, khi as int));
                read_unsigned(cs, klo + 3, khi, 255)
            };
            match idx {
                Some(v) => {
                    if v > 63 {
                        return Err(MatchRuleError::InvalidArgIndex(key));
                    }
                    let ghost val = value@;
                    let ghost old_args = self@.args;
                    let ghost old_paths = self@.arg_paths;
                    if is_path {
                        self.arg_paths.insert(v as u8, value);
                        assert(self@.arg_paths =~= old_paths.insert(v as u8, val));
                    } else {
                        self.args.insert(v as u8, value);
                        assert(self@.args =~= old_args.insert(v as u8, val));
                    }
                },
                None => {
                    return Err(MatchRuleError::InvalidArgIndex(key));
                },
            }
        }
        Ok(())
    }

    /// Where the text of `cs[pos..hi]` resumes after white space and one
    /// separating comma.
    fn separator_end(cs: &Vec<char>, pos: usize, hi: usize) -> (p2: usize)
        requires
            pos <= hi <= cs@.len(),
        ensures
            pos <= p2 <= hi,
            skip_separator(cs@.subrange(pos as int, hi as int)) == cs@.subrange(p2 as int, hi as int),
    {
        let ghost rest = cs@.subrange(pos as int, hi as int);
        let p1 = skip_ws(cs, pos, hi);
        assert(trim_start(rest) =~= cs@.subrange(p1 as int, hi as int));
        if p1 < hi && cs[p1] == ',' {
            let p = skip_ws(cs, p1 + 1, hi);
            assert(trim_start(rest).drop_first() =~= cs@.subrange(p1 + 1, hi as int));
            assert(trim_start(trim_start(rest).drop_first()) =~= cs@.subrange(p as int, hi as int));
            p
        } else {
            p1
        }
    }

    /// Bounds of `cs[lo..hi]` with white space cut off at both ends.
    fn trimmed(cs: &Vec<char>, lo: usize, hi: usize) -> (r: (usize, usize))
        requires
            lo <= hi <= cs@.len(),
        ensures
            lo <= r.0 <= r.1 <= hi,
            trim(cs@.subrange(lo as int, hi as int)) == cs@.subrange(r.0 as int, r.1 as int),
    {
        let a = skip_ws(cs, lo, hi);
        let b = cut_ws(cs, a, hi);
        assert(trim_start(cs@.subrange(lo as int, hi as int)) =~= cs@.subrange(a as int, hi as int));
        assert(trim(cs@.subrange(lo as int, hi as int)) =~= cs@.subrange(a as int, b as int));
        (a, b)
    }

    /// Bounds of the value at the front of `cs[p3..hi]` and where the text
    /// after it starts.
    fn value_at(cs: &Vec<char>, p3: usize, hi: usize) -> (r: Option<(usize, usize, usize)>)
        requires
            p3 <= hi <= cs@.len(),
        ensures
            match r {
                Some((vlo, vhi, next)) => vlo <= vhi <= hi && p3 <= next <= hi
                    && spec_value(cs@.subrange(p3 as int, hi as int)) == Some((
                        cs@.subrange(vlo as int, vhi as int),
                        cs@.subrange(next as int, hi as int),
                    )),
                None => spec_value(cs@.subrange(p3 as int, hi as int)) is None,
            },
    {
        let ghost r3 = cs@.subrange(p3 as int, hi as int);
        if p3 < hi && cs[p3] == '\'' {
            assert(r3.drop_first() =~= cs@.subrange(p3 + 1, hi as int));
            match find_in(cs, p3 + 1, hi, '\'') {
                None => None,
                Some(q) => {
                    let ghost qe = (q - p3 - 1) as nat;
                    assert(r3.subrange(1, qe + 1int) =~= cs@.subrange(p3 + 1, q as int));
                    assert(r3.skip(qe + 2int) =~= cs@.subrange(q + 1, hi as int));
                    Some((p3 + 1, q, q + 1))
                },
            }
        } else {
            let end = match find_in(cs, p3, hi, ',') {
                Some(c) => c,
                None => hi,
            };
            let ghost ev = (end - p3) as int;
            assert(r3.take(ev) =~= cs@.subrange(p3 as int, end as int));
            assert(r3.skip(ev) =~= cs@.subrange(end as int, hi as int));
            let (vlo, vhi) = MatchRule::trimmed(cs, p3, end);
            Some((vlo, vhi, end))
        }
    }

    /// Locates the first pair of `cs[pos..hi]`.
    fn next_pair(rule: &str, cs: &Vec<char>, pos: usize, hi: usize) -> (r: Result<Option<(usize, usize, usize, usize, usize)>, MatchRuleError>)
        requires
            cs@ == rule@,
            pos <= hi <= cs@.len(),
        ensures
            match r {
                Ok(None) => spec_next_pair(cs@.subrange(pos as int, hi as int)) == PairStep::Done,
                Ok(Some((klo, khi, vlo, vhi, next))) => {
                    &&& klo <= khi <= cs@.len()
                    &&& vlo <= vhi <= cs@.len()
                    &&& pos <= next <= hi
                    &&& spec_next_pair(cs@.subrange(pos as int, hi as int)) == PairStep::Pair(
                        cs@.subrange(klo as int, khi as int),
                        cs@.subrange(vlo as int, vhi as int),
                        cs@.subrange(next as int, hi as int),
                    )
                },
                Err(e) => e@ matches RuleErrorModel::InvalidFormat(msg)
                    && spec_next_pair(cs@.subrange(pos as int, hi as int)) == PairStep::Malformed(msg),
            },
    {
        let p2 = MatchRule::separator_end(cs, pos, hi);
        let ghost r2 = cs@.subrange(p2 as int, hi as int);
        if p2 == hi {
            assert(r2.len() == 0);
            return Ok(None);
        }
        match find_in(cs, p2, hi, '=') {
            None => {
                let mut msg = "Missing '=' in: ".to_owned();
                let tail = substring(rule, p2, hi);
                msg.append(tail.as_str());
                Err(MatchRuleError::InvalidFormat(msg))
            },
            Some(e) => {
                let ghost eq = (e - p2) as nat;
                assert(r2.take(eq as int) =~= cs@.subrange(p2 as int, e as int));
                let (klo, khi) = MatchRule::trimmed(cs, p2, e);
                let p3 = skip_ws(cs, e + 1, hi);
                assert(r2.skip(eq + 1int) =~= cs@.subrange(e + 1, hi as int));
                assert(trim_start(r2.skip(eq + 1int)) =~= cs@.subrange(p3 as int, hi as int));
                match MatchRule::value_at(cs, p3, hi) {
                    None => Err(MatchRuleError::InvalidFormat("Unclosed quote".to_owned())),
                    Some((vlo, vhi, next)) => Ok(Some((klo, khi, vlo, vhi, next))),
                }
            },
        }
    }

    /// Parse a match rule string.
    ///
    /// Match rules are comma-separated key=value pairs, e.g.
    /// "type='signal',interface='org.freedesktop.DBus',member='NameOwnerChanged'".
    /// Unknown keys are ignored; an empty rule matches everything.
    pub fn parse(rule: &str) -> (r: Result<MatchRule, MatchRuleError>)
        ensures
            match r {
                Ok(m) => spec_parse(rule@) == Ok::<RuleModel, RuleErrorModel>(m@),
                Err(e) => spec_parse(rule@) == Err::<RuleModel, RuleErrorModel>(e@),
            },
    {
        let cs = chars_of(rule);
        let n = cs.len();
        let lo = skip_ws(&cs, 0, n);
        let hi = cut_ws(&cs, lo, n);
        proof {
            assert(cs@.subrange(0, n as int) =~= rule@);
            assert(trim_start(rule@) =~= cs@.subrange(lo as int, n as int));
            assert(trim(rule@) =~= cs@.subrange(lo as int, hi as int));
        }
        let mut result = MatchRule::matching_all(rule);
        let mut pos = lo;
        loop
            invariant
                cs@ == rule@,
                lo <= pos <= hi <= cs@.len(),
                spec_parse_pairs(cs@.subrange(pos as int, hi as int), result@) == spec_parse(rule@),
            decreases hi - pos,
        {
            proof { lemma_next_pair_shrinks(cs@.subrange(pos as int, hi as int)); }
            match MatchRule::next_pair(rule, &cs, pos, hi) {
                Ok(None) => {
                    return Ok(result);
                },
                Err(e) => {
                    return Err(e);
                },
                Ok(Some((klo, khi, vlo, vhi, next))) => {
                    let value = substring(rule, vlo, vhi);
                    match result.apply_pair(rule, &cs, klo, khi, value) {
                        Ok(()) => {},
                        Err(err) => {
                            return Err(err);
                        },
                    }
                    pos = next;
                },
            }
        }
    }
}

/// The kind of a D-Bus message.
#[derive(Debug, Clone, Copy, PartialEq, Eq, Structural)]
pub enum MessageType {
    MethodCall,
    MethodReturn,
    Error,
    Signal,
}

/// One argument of a message body, as match rules see it.
#[derive(Debug, Clone, PartialEq, Eq)]
pub enum ArgValue {
    /// A string argument.
    Str(String),
    /// An object path argument.
    Path(String),
    /// An argument of another type.
    Other,
}

/// The parts of a message that match rules look at.
#[derive(Debug, Clone, PartialEq, Eq)]
pub struct MessageFields {
    pub msg_type: MessageType,
    pub sender: Option<String>,
    pub interface: Option<String>,
    pub member: Option<String>,
    pub path: Option<String>,
    pub destination: Option<String>,
    /// The body's arguments in order; `None` when the body could not be read.
    pub args: Option<Vec<ArgValue>>,
}

/// The abstract content of an argument.
pub enum ArgModel {
    Str(Seq<char>),
    Path(Seq<char>),
    Other,
}

/// The abstract content of the parts of a message that rules look at.
pub struct MessageModel {
    pub msg_type: MessageType,
    pub sender: Option<Seq<char>>,
    pub interface: Option<Seq<char>>,
    pub member: Option<Seq<char>>,
    pub path: Option<Seq<char>>,
    pub destination: Option<Seq<char>>,
    pub args: Option<Seq<ArgModel>>,
}

impl View for ArgValue {
    type V = ArgModel;

    open spec fn view(&self) -> ArgModel {
        match self {
            ArgValue::Str(s) => ArgModel::Str(s@),
            ArgValue::Path(s) => ArgModel::Path(s@),
            ArgValue::Other => ArgModel::Other,
        }
    }
}

impl View for MessageFields {
    type V = MessageModel;

    open spec fn view(&self) -> MessageModel {
        MessageModel {
            msg_type: self.msg_type,
            sender: opt_view(self.sender),
            interface: opt_view(self.interface),
            member: opt_view(self.member),
            path: opt_view(self.path),
            destination: opt_view(self.destination),
            args: match self.args {
                Some(a) => Some(a@.map_values(|v: ArgValue| v@)),
                None => None,
            },
        }
    }
}

/// One field of a message body as read from the bus: a string, an object
/// path, an array (each element a string, or `None` for an element of
/// another type), or a value of another type.
#[derive(Debug, Clone, PartialEq, Eq)]
pub enum BodyField {
    Str(String),
    Path(String),
    Array(Vec<Option<String>>),
    Other,
}

/// The abstract content of a body field.
pub enum BodyFieldModel {
    Str(Seq<char>),
    Path(Seq<char>),
    Array(Seq<Option<Seq<char>>>),
    Other,
}

impl View for BodyField {
    type V = BodyFieldModel;

    open spec fn view(&self) -> BodyFieldModel {
        match self {
            BodyField::Str(s) => BodyFieldModel::Str(s@),
            BodyField::Path(s) => BodyFieldModel::Path(s@),
            BodyField::Array(a) => BodyFieldModel::Array(a@.map_values(|e: Option<String>| opt_view(e))),
            BodyField::Other => BodyFieldModel::Other,
        }
    }
}

/// The argument that a body field gives when it stands among the others.
pub open spec fn field_arg(f: BodyFieldModel) -> ArgModel {
    match f {
        BodyFieldModel::Str(s) => ArgModel::Str(s),
        BodyFieldModel::Path(p) => ArgModel::Path(p),
        _ => ArgModel::Other,
    }
}

/// Whether every element of an array is a string.
pub open spec fn all_strings(a: Seq<Option<Seq<char>>>) -> bool {
    forall|i: int| 0 <= i < a.len() ==> #[trigger] a[i] is Some
}

/// The arguments of a body with fields `f`: a body that is one array of
/// strings gives its elements in order; any other body gives one argument
/// per field.
pub open spec fn body_args_of(f: Seq<BodyFieldModel>) -> Seq<ArgModel> {
    match string_array_body(f) {
        Some(a) => a.map_values(|e: Option<Seq<char>>| ArgModel::Str(e.unwrap())),
        None => f.map_values(|x: BodyFieldModel| field_arg(x)),
    }
}

/// The elements of a body that is one array of strings; `None` for any
/// other body.
pub open spec fn string_array_body(f: Seq<BodyFieldModel>) -> Option<Seq<Option<Seq<char>>>> {
    if f.len() == 1 {
        match f[0] {
            BodyFieldModel::Array(a) => if all_strings(a) { Some(a) } else { None },
            _ => None,
        }
    } else {
        None
    }
}

/// The elements of `a` as string arguments, when all of them are strings.
fn string_elements(a: &Vec<Option<String>>) -> (r: Option<Vec<ArgValue>>)
    ensures
        r is Some <==> all_strings(a@.map_values(|e: Option<String>| opt_view(e))),
        r matches Some(v) ==> v@.map_values(|x: ArgValue| x@)
            == a@.map_values(|e: Option<String>| opt_view(e)).map_values(|e: Option<Seq<char>>| ArgModel::Str(e.unwrap())),
{
    let ghost am = a@.map_values(|e: Option<String>| opt_view(e));
    let mut out: Vec<ArgValue> = Vec::new();
    for i in 0..a.len()
        invariant
            am == a@.map_values(|e: Option<String>| opt_view(e)),
            out@.len() == i,
            forall|j: int| 0 <= j < i ==> #[trigger] am[j] is Some,
            forall|j: int| 0 <= j < i ==> #[trigger] out@[j]@ == ArgModel::Str(am[j].unwrap()),
    {
        match &a[i] {
            Some(t) => {
                out.push(ArgValue::Str(t.clone()));
            },
            None => {
                assert(!(am[i as int] is Some));
                return None;
            },
        }
    }
    assert(out@.map_values(|x: ArgValue| x@) =~= am.map_values(|e: Option<Seq<char>>| ArgModel::Str(e.unwrap())));
    Some(out)
}

/// The arguments that match rules see in a body with the given fields: a
/// body that is one array of strings gives its elements; any other body
/// gives one argument per field, strings and object paths as they are.
pub fn body_arguments(fields: &Vec<BodyField>) -> (r: Vec<ArgValue>)
    ensures
        r@.map_values(|v: ArgValue| v@) == body_args_of(fields@.map_values(|f: BodyField| f@)),
{
    let ghost fm = fields@.map_values(|f: BodyField| f@);
    if fields.len() == 1 {
        if let BodyField::Array(a) = &fields[0] {
            if let Some(v) = string_elements(a) {
                return v;
            }
        }
    }
    let mut out: Vec<ArgValue> = Vec::new();
    for i in 0..fields.len()
        invariant
            fm == fields@.map_values(|f: BodyField| f@),
            out@.len() == i,
            forall|j: int| 0 <= j < i ==> #[trigger] out@[j]@ == field_arg(fm[j]),
    {
        let v = match &fields[i] {
            BodyField::Str(t) => ArgValue::Str(t.clone()),
            BodyField::Path(t) => ArgValue::Path(t.clone()),
            _ => ArgValue::Other,
        };
        out.push(v);
    }
    assert(out@.map_values(|v: ArgValue| v@) =~= fm.map_values(|x: BodyFieldModel| field_arg(x)));
    out
}

/// The name of a message type in match rules.
pub open spec fn message_type_name(t: MessageType) -> Seq<char> {
    match t {
        MessageType::MethodCall => "method_call"@,
        MessageType::MethodReturn => "method_return"@,
        MessageType::Error => "error"@,
        MessageType::Signal => "signal"@,
    }
}

/// Whether `s` ends with '/'.
pub open spec fn ends_with_slash(s: Seq<char>) -> bool {
    s.len() > 0 && s.last() == '/'
}

/// Whether `path` is `ns` or lies below it.
pub open spec fn in_namespace(path: Seq<char>, ns: Seq<char>) -> bool {
    path == ns || is_prefix(ns.push('/'), path)
}

/// Whether an argument matches an `argNpath` filter: they are equal, or one
/// of them ends with '/' and is a prefix of the other.
pub open spec fn arg_path_matches(arg: Seq<char>, filter: Seq<char>) -> bool {
    ||| arg == filter
    ||| (ends_with_slash(filter) && is_prefix(filter, arg))
    ||| (ends_with_slash(arg) && is_prefix(arg, filter))
}

/// A filter on an optional header field: absent filters accept anything.
pub open spec fn field_matches(filter: Option<Seq<char>>, actual: Option<Seq<char>>) -> bool {
    match filter {
        Some(f) => actual == Some(f),
        None => true,
    }
}

/// The text of an argument that `argNpath` filters look at.
pub open spec fn path_text(a: ArgModel) -> Option<Seq<char>> {
    match a {
        ArgModel::Str(s) => Some(s),
        ArgModel::Path(s) => Some(s),
        ArgModel::Other => None,
    }
}

/// Whether the arguments `a` satisfy the argument filters of `r`: each
/// `argN` names a string argument equal to it, each `argNpath` a string or
/// path argument that matches it as a path.
pub open spec fn args_match(r: RuleModel, a: Seq<ArgModel>) -> bool {
    &&& forall|i: u8| #[trigger] r.args.contains_key(i) ==> i < a.len() && a[i as int] == ArgModel::Str(r.args[i])
    &&& forall|i: u8| #[trigger] r.arg_paths.contains_key(i) ==> i < a.len() && (path_text(a[i as int]) matches Some(t)
        && arg_path_matches(t, r.arg_paths[i]))
}

/// Whether rule `r` matches message `m`.
pub open spec fn spec_matches(r: RuleModel, m: MessageModel) -> bool {
    &&& (r.msg_type matches Some(t) ==> t == message_type_name(m.msg_type))
    &&& field_matches(r.sender, m.sender)
    &&& field_matches(r.interface, m.interface)
    &&& field_matches(r.member, m.member)
    &&& field_matches(r.path, m.path)
    &&& (r.path_namespace matches Some(ns) ==> (m.path matches Some(p) && in_namespace(p, ns)))
    &&& (r.destination matches Some(d) ==> match m.destination {
        Some(a) => a == d,
        None => d.len() == 0,
    })
    &&& (!r.args.is_empty() || !r.arg_paths.is_empty()) ==> (m.args matches Some(a) && args_match(r, a))
}

/// Whether an optional field equals the filter.
fn field_ok(filter: &Option<String>, actual: &Option<String>) -> (r: bool)
    ensures
        r == field_matches(opt_view(*filter), opt_view(*actual)),
{
    match filter {
        None => true,
        Some(f) => match actual {
            Some(a) => str_eq(a.as_str(), f.as_str()),
            None => false,
        },
    }
}

fn ends_with_slash_chars(s: &Vec<char>) -> (r: bool)
    ensures
        r == ends_with_slash(s@),
{
    s.len() > 0 && s[s.len() - 1] == '/'
}

/// Whether `arg` matches the path filter `filter`.
fn path_arg_ok(arg: &str, filter: &str) -> (r: bool)
    ensures
        r == arg_path_matches(arg@, filter@),
{
    if str_eq(arg, filter) {
        return true;
    }
    let a = chars_of(arg);
    let f = chars_of(filter);
    (ends_with_slash_chars(&f) && prefix_of(&f, &a)) || (ends_with_slash_chars(&a) && prefix_of(&a, &f))
}

impl MatchRule {
    /// Whether the argument filters hold for the arguments `a`.
    fn args_ok(&self, a: &Vec<ArgValue>) -> (r: bool)
        ensures
            r == args_match(self@, a@.map_values(|v: ArgValue| v@)),
    {
        broadcast use vstd::std_specs::hash::group_hash_axioms;
        let ghost av = a@.map_values(|v: ArgValue| v@);
        let mut i: u32 = 0;
        while i < 256
            invariant
                i <= 256,
                av == a@.map_values(|v: ArgValue| v@),
                forall|k: u8| k < i && #[trigger] self@.args.contains_key(k) ==> k < av.len() && av[k as int] == ArgModel::Str(self@.args[k]),
                forall|k: u8| k < i && #[trigger] self@.arg_paths.contains_key(k) ==> k < av.len()
                    && (path_text(av[k as int]) matches Some(t) && arg_path_matches(t, self@.arg_paths[k])),
            decreases 256 - i,
        {
            let k = i as u8;
            assert(k == i);
            match self.args.get(&k) {
                Some(expected) => {
                    assert(self@.args.contains_key(k) && self@.args[k] == expected@);
                    if (k as usize) >= a.len() {
                        return false;
                    }
                    assert(av[k as int] == a@[k as int]@);
                    match &a[k as usize] {
                        ArgValue::Str(actual) => {
                            if !str_eq(actual.as_str(), expected.as_str()) {
                                return false;
                            }
                        },
                        _ => {
                            return false;
                        },
                    }
                },
                None => {},
            }
            match self.arg_paths.get(&k) {
                Some(prefix) => {
                    assert(self@.arg_paths.contains_key(k) && self@.arg_paths[k] == prefix@);
                    assert(k < a@.len() ==> av[k as int] == a@[k as int]@);
                    if (k as usize) >= a.len() {
                        return false;
                    }
                    let ok = match &a[k as usize] {
                        ArgValue::Str(actual) => path_arg_ok(actual.as_str(), prefix.as_str()),
                        ArgValue::Path(actual) => path_arg_ok(actual.as_str(), prefix.as_str()),
                        ArgValue::Other => false,
                    };
                    if !ok {
                        return false;
                    }
                },
                None => {},
            }
            i = i + 1;
        }
        true
    }

    /// Check if a message matches this rule. The message's parts are read
    /// once (`message_fields`) and judged by `matches_fields`.
    pub fn matches(&self, msg: &Message) -> (r: bool)
        ensures
            r == spec_matches(self@, model_of(*msg)),
    {
        let fields = message_fields(msg);
        self.matches_fields(&fields)
    }

    /// Check if the message described by `msg` matches this rule.
    pub fn matches_fields(&self, msg: &MessageFields) -> (r: bool)
        ensures
            r == spec_matches(self@, msg@),
            (self@.destination matches Some(d) && d.len() > 0 && msg@.destination is None) ==> !r,
    {
        broadcast use vstd::std_specs::hash::group_hash_axioms;
        match &self.msg_type {
            Some(t) => {
                let name = match msg.msg_type {
                    MessageType::MethodCall => "method_call",
                    MessageType::MethodReturn => "method_return",
                    MessageType::Error => "error",
                    MessageType::Signal => "signal",
                };
                if !str_eq(t.as_str(), name) {
                    return false;
                }
            },
            None => {},
        }
        if !field_ok(&self.sender, &msg.sender) {
            return false;
        }
        if !field_ok(&self.interface, &msg.interface) {
            return false;
        }
        if !field_ok(&self.member, &msg.member) {
            return false;
        }
        if !field_ok(&self.path, &msg.path) {
            return false;
        }
        match &self.path_namespace {
            Some(ns) => match &msg.path {
                Some(p) => {
                    if !str_eq(p.as_str(), ns.as_str()) {
                        let mut with_slash = chars_of(ns.as_str());
                        with_slash.push('/');
                        let pc = chars_of(p.as_str());
                        if !prefix_of(&with_slash, &pc) {
                            return false;
                        }
                    }
                },
                None => {
                    return false;
                },
            },
            None => {},
        }
        match &self.destination {
            Some(d) => match &msg.destination {
                Some(a) => {
                    if !str_eq(a.as_str(), d.as_str()) {
                        return false;
                    }
                },
                None => {
                    if !d.as_str().is_empty() {
                        return false;
                    }
                },
            },
            None => {},
        }
        let ghost r = self@;
        assert(r.args.is_empty() == self.args@.is_empty());
        assert(r.arg_paths.is_empty() == self.arg_paths@.is_empty());
        if !self.args.is_empty() || !self.arg_paths.is_empty() {
            match &msg.args {
                Some(a) => {
                    if !self.args_ok(a) {
                        return false;
                    }
                },
                None => {
                    return false;
                },
            }
        }
        true
    }
}

/// Whether some rule of `rules` was written as `s`.
pub open spec fn has_rule(rules: Seq<RuleModel>, s: Seq<char>) -> bool {
    exists|i: int| 0 <= i < rules.len() && rules[i].rule_string == s
}

/// The position of the rule written as `s`.
pub open spec fn rule_index(rules: Seq<RuleModel>, s: Seq<char>) -> int {
    choose|i: int| 0 <= i < rules.len() && rules[i].rule_string == s
}

/// `rules` without the rule written as `s`.
pub open spec fn without_rule(rules: Seq<RuleModel>, s: Seq<char>) -> Seq<RuleModel> {
    if has_rule(rules, s) { rules.remove(rule_index(rules, s)) } else { rules }
}

/// Whether any of `rules` matches message `m`.
pub open spec fn any_rule_matches(rules: Seq<RuleModel>, m: MessageModel) -> bool {
    exists|i: int| 0 <= i < rules.len() && spec_matches(#[trigger] rules[i], m)
}

/// Collection of match rules for a client; no two are written alike.
pub struct ClientMatchRules {
    rules: Vec<MatchRule>,
}

impl View for ClientMatchRules {
    type V = Seq<RuleModel>;

    closed spec fn view(&self) -> Seq<RuleModel> {
        self.rules@.map_values(|r: MatchRule| r@)
    }
}

impl ClientMatchRules {
    /// No two rules are written alike.
    pub closed spec fn wf(&self) -> bool {
        forall|i: int, j: int| 0 <= i < j < self@.len() ==> self@[i].rule_string != self@[j].rule_string
    }

    /// In a well-formed collection each rule string is held once.
    pub proof fn lemma_wf(&self)
        requires
            self.wf(),
        ensures
            forall|i: int, j: int| 0 <= i < j < self@.len() ==> self@[i].rule_string != self@[j].rule_string,
    {
    }

    /// Create a new empty match rule collection.
    pub fn new() -> (r: Self)
        ensures
            r.wf(),
            r@ == Seq::<RuleModel>::empty(),
    {
        let r = ClientMatchRules { rules: Vec::new() };
        assert(r@ =~= Seq::<RuleModel>::empty());
        r
    }

    fn position(&self, rule_string: &str) -> (r: Option<usize>)
        ensures
            match r {
                Some(i) => i < self@.len() && self@[i as int].rule_string == rule_string@,
                None => !has_rule(self@, rule_string@),
            },
    {
        for i in 0..self.rules.len()
            invariant
                forall|j: int| 0 <= j < i ==> self@[j].rule_string != rule_string@,
        {
            if str_eq(self.rules[i].rule_string.as_str(), rule_string) {
                return Some(i);
            }
        }
        None
    }

    /// Add a match rule, unless one written alike is already held.
    pub fn add(&mut self, rule: MatchRule)
        requires
            old(self).wf(),
        ensures
            final(self).wf(),
            final(self)@ == if has_rule(old(self)@, rule@.rule_string) { old(self)@ } else { old(self)@.push(rule@) },
    {
        if self.position(rule.rule_string.as_str()).is_none() {
            let ghost rv = rule@;
            self.rules.push(rule);
            assert(self@ =~= old(self)@.push(rv));
        }
    }

    /// Remove the match rule written as `rule_string`; returns whether one
    /// was held.
    pub fn remove(&mut self, rule_string: &str) -> (removed: bool)
        requires
            old(self).wf(),
        ensures
            final(self).wf(),
            removed == has_rule(old(self)@, rule_string@),
            final(self)@ == without_rule(old(self)@, rule_string@),
    {
        match self.position(rule_string) {
            Some(i) => {
                let ghost old_v = self@;
                self.rules.remove(i);
                proof {
                    let ri = rule_index(old_v, rule_string@);
                    assert(ri == i);
                    assert(self@ =~= old_v.remove(i as int));
                    assert forall|a: int, b: int| 0 <= a < b < self@.len() implies self@[a].rule_string != self@[b].rule_string by {
                        let a2 = if a < i { a } else { a + 1 };
                        let b2 = if b < i { b } else { b + 1 };
                        assert(self@[a] == old_v[a2]);
                        assert(self@[b] == old_v[b2]);
                    }
                }
                true
            },
            None => false,
        }
    }

    /// Check if any rule matches a message. The message's parts are read
    /// once (`message_fields`) and judged by `matches_fields`.
    pub fn matches(&self, msg: &Message) -> (r: bool)
        ensures
            r == any_rule_matches(self@, model_of(*msg)),
    {
        let fields = message_fields(msg);
        self.matches_fields(&fields)
    }

    /// Whether any rule matches the message described by `msg`.
    pub fn matches_fields(&self, msg: &MessageFields) -> (r: bool)
        ensures
            r == any_rule_matches(self@, msg@),
    {
        for i in 0..self.rules.len()
            invariant
                forall|j: int| 0 <= j < i ==> !spec_matches(#[trigger] self@[j], msg@),
        {
            if self.rules[i].matches_fields(msg) {
                assert(spec_matches(self@[i as int], msg@));
                return true;
            }
        }
        false
    }

    /// Whether there are no rules.
    pub fn is_empty(&self) -> (r: bool)
        ensures
            r == (self@.len() == 0),
    {
        self.rules.len() == 0
    }

    /// Number of rules.
    pub fn len(&self) -> (n: usize)
        ensures
            n == self@.len(),
    {
        self.rules.len()
    }

    /// The rule strings, in the order the rules were added.
    pub fn rule_strings(&self) -> (out: Vec<String>)
        ensures
            out@.len() == self@.len(),
            forall|i: int| 0 <= i < out@.len() ==> #[trigger] out@[i]@ == self@[i].rule_string,
    {
        let mut out: Vec<String> = Vec::new();
        for i in 0..self.rules.len()
            invariant
                out@.len() == i,
                forall|j: int| 0 <= j < i ==> #[trigger] out@[j]@ == self@[j].rule_string,
        {
            out.push(self.rules[i].rule_string.clone());
        }
        out
    }
}

/// The texts of a sequence of strings.
pub open spec fn strings_view_seq(v: Seq<String>) -> Seq<Seq<char>> {
    v.map_values(|s: String| s@)
}

/// Counts of (bus, rule) pairs after one client drops the pair `k`, and
/// whether the pair is gone (its count reached zero).
pub open spec fn spec_decrement(m: Map<(Seq<char>, Seq<char>), u64>, k: (Seq<char>, Seq<char>)) -> (Map<(Seq<char>, Seq<char>), u64>, bool) {
    if !m.contains_key(k) {
        (m, false)
    } else if m[k] <= 1 {
        (m.remove(k), true)
    } else {
        (m.insert(k, (m[k] - 1) as u64), false)
    }
}

/// Counts after one client drops each of `rules` on `bus`, in order, and
/// the rules whose count reached zero.
pub open spec fn spec_drop_rules(m: Map<(Seq<char>, Seq<char>), u64>, bus: Seq<char>, rules: Seq<Seq<char>>) -> (Map<(Seq<char>, Seq<char>), u64>, Seq<Seq<char>>)
    decreases rules.len(),
{
    if rules.len() == 0 {
        (m, Seq::empty())
    } else {
        let (m1, gone1) = spec_drop_rules(m, bus, rules.drop_last());
        let (m2, gone) = spec_decrement(m1, (bus, rules.last()));
        (m2, if gone { gone1.push(rules.last()) } else { gone1 })
    }
}

/// Reference counts of match rules installed on the upstream buses, so that
/// a rule is added to a bus once and removed when its last client drops it.
pub struct MatchRuleRefCount {
    entries: Vec<(String, String, u64)>,
}

impl View for MatchRuleRefCount {
    type V = Map<(Seq<char>, Seq<char>), u64>;

    closed spec fn view(&self) -> Map<(Seq<char>, Seq<char>), u64> {
        Map::new(|k: (Seq<char>, Seq<char>)| self.keys().contains(k), |k: (Seq<char>, Seq<char>)| self.entries@[self.keys().index_of(k)].2)
    }
}

impl MatchRuleRefCount {
    closed spec fn keys(&self) -> Seq<(Seq<char>, Seq<char>)> {
        self.entries@.map_values(|e: (String, String, u64)| (e.0@, e.1@))
    }

    /// Each (bus, rule) pair is held once, with a positive count.
    pub closed spec fn wf(&self) -> bool {
        &&& self.keys().no_duplicates()
        &&& forall|i: int| 0 <= i < self.entries@.len() ==> #[trigger] self.entries@[i].2 > 0
    }

    proof fn lemma_view_at(&self, i: int)
        requires
            self.wf(),
            0 <= i < self.entries@.len(),
        ensures
            self@.contains_key(self.keys()[i]),
            self@[self.keys()[i]] == self.entries@[i].2,
    {
        let k = self.keys()[i];
        let j = self.keys().index_of(k);
        assert(self.keys()[j] == k);
    }

    /// All counts are positive.
    pub proof fn lemma_positive(&self)
        requires
            self.wf(),
        ensures
            forall|k: (Seq<char>, Seq<char>)| #[trigger] self@.contains_key(k) ==> self@[k] > 0,
    {
        assert forall|k: (Seq<char>, Seq<char>)| #[trigger] self@.contains_key(k) implies self@[k] > 0 by {
            let j = self.keys().index_of(k);
            assert(self.keys()[j] == k);
        }
    }

    /// Create an empty reference count table.
    pub fn new() -> (r: Self)
        ensures
            r.wf(),
            r@ == Map::<(Seq<char>, Seq<char>), u64>::empty(),
    {
        let r = MatchRuleRefCount { entries: Vec::new() };
        assert(r@ =~= Map::<(Seq<char>, Seq<char>), u64>::empty());
        r
    }

    fn position(&self, bus: &str, rule: &str) -> (r: Option<usize>)
        requires
            self.wf(),
        ensures
            match r {
                Some(i) => i < self.entries@.len() && self.keys()[i as int] == (bus@, rule@)
                    && self@.contains_key((bus@, rule@)) && self@[(bus@, rule@)] == self.entries@[i as int].2,
                None => !self@.contains_key((bus@, rule@)),
            },
    {
        for i in 0..self.entries.len()
            invariant
                self.wf(),
                forall|j: int| 0 <= j < i ==> self.keys()[j] != (bus@, rule@),
        {
            if str_eq(self.entries[i].0.as_str(), bus) && str_eq(self.entries[i].1.as_str(), rule) {
                assert(self.keys()[i as int] == (bus@, rule@));
                proof { self.lemma_view_at(i as int); }
                return Some(i);
            }
        }
        proof {
            if self.keys().contains((bus@, rule@)) {
                let k = choose|k: int| 0 <= k < self.keys().len() && self.keys()[k] == (bus@, rule@);
                assert(self.keys()[k] == (bus@, rule@));
            }
        }
        None
    }

    proof fn lemma_set_view(&self, old_rc: Self, i: int)
        requires
            old_rc.wf(),
            0 <= i < old_rc.entries@.len(),
            self.entries@ == old_rc.entries@.update(i, self.entries@[i]),
            self.keys()[i] == old_rc.keys()[i],
            self.entries@[i].2 > 0,
        ensures
            self.wf(),
            self@ == old_rc@.insert(old_rc.keys()[i], self.entries@[i].2),
    {
        assert(self.keys() =~= old_rc.keys());
        let k = old_rc.keys()[i];
        assert forall|key: (Seq<char>, Seq<char>)| #[trigger] self@.contains_key(key) implies self@[key] == old_rc@.insert(k, self.entries@[i].2)[key] by {
            let j = self.keys().index_of(key);
            assert(self.keys()[j] == key);
            self.lemma_view_at(j);
            if j != i { old_rc.lemma_view_at(j); }
        }
        assert(self@ =~= old_rc@.insert(k, self.entries@[i].2));
    }

    /// A client adds `rule` on `bus`; returns whether the rule must be
    /// added to the bus (no client had it before).
    pub fn increment(&mut self, bus: &str, rule: &str) -> (first: bool)
        requires
            old(self).wf(),
        ensures
            final(self).wf(),
            first == !old(self)@.contains_key((bus@, rule@)),
            final(self)@ == spec_increment(old(self)@, (bus@, rule@)),
    {
        match self.position(bus, rule) {
            Some(i) => {
                let c = self.entries[i].2;
                let n = if c == u64::MAX { c } else { c + 1 };
                let b = self.entries[i].0.clone();
                let r = self.entries[i].1.clone();
                let ghost old_rc = *self;
                self.entries.set(i, (b, r, n));
                proof { self.lemma_set_view(old_rc, i as int); }
                false
            },
            None => {
                let ghost mid = *self;
                self.entries.push((bus.to_owned(), rule.to_owned(), 1));
                assert(self.keys() =~= mid.keys().push((bus@, rule@)));
                proof { self.lemma_view_at(self.entries@.len() - 1); }
                assert forall|k: (Seq<char>, Seq<char>)| #[trigger] self@.contains_key(k) <==> mid@.insert((bus@, rule@), 1).contains_key(k) by {
                    if mid.keys().contains(k) {
                        let j = choose|j: int| 0 <= j < mid.keys().len() && mid.keys()[j] == k;
                        assert(self.keys()[j] == k);
                    }
                }
                assert forall|k: (Seq<char>, Seq<char>)| #[trigger] self@.contains_key(k) && k != (bus@, rule@) implies self@[k] == mid@[k] by {
                    let j = self.keys().index_of(k);
                    assert(self.keys()[j] == k);
                    self.lemma_view_at(j);
                    mid.lemma_view_at(j);
                }
                assert(self@ =~= mid@.insert((bus@, rule@), 1));
                true
            },
        }
    }

    /// A client drops `rule` on `bus`; returns whether the rule must be
    /// removed from the bus (the last client dropped it).
    pub fn decrement(&mut self, bus: &str, rule: &str) -> (last: bool)
        requires
            old(self).wf(),
        ensures
            final(self).wf(),
            (final(self)@, last) == spec_decrement(old(self)@, (bus@, rule@)),
    {
        match self.position(bus, rule) {
            Some(i) => {
                let c = self.entries[i].2;
                if c <= 1 {
                    let ghost old_keys = self.keys();
                    let ghost k = (bus@, rule@);
                    self.entries.remove(i);
                    proof {
                        assert(self.keys() =~= old_keys.remove(i as int));
                        assert forall|a: int| 0 <= a < self.entries@.len() implies #[trigger] self.entries@[a].2 > 0 by {
                            if a < i { assert(self.entries@[a] == old(self).entries@[a]); } else { assert(self.entries@[a] == old(self).entries@[a + 1]); }
                        }
                        assert forall|key: (Seq<char>, Seq<char>)| #[trigger] self@.contains_key(key) <==> old(self)@.remove(k).contains_key(key) by {
                            if self.keys().contains(key) {
                                let j = choose|j: int| 0 <= j < self.keys().len() && self.keys()[j] == key;
                                if j < i { assert(old_keys[j] == key); } else { assert(old_keys[j + 1] == key); }
                            }
                            if key != k && old_keys.contains(key) {
                                let j = choose|j: int| 0 <= j < old_keys.len() && old_keys[j] == key;
                                if j < i { assert(self.keys()[j] == key); } else { assert(self.keys()[j - 1] == key); }
                            }
                        }
                        assert forall|key: (Seq<char>, Seq<char>)| #[trigger] self@.contains_key(key) implies self@[key] == old(self)@[key] by {
                            let j = self.keys().index_of(key);
                            assert(self.keys()[j] == key);
                            self.lemma_view_at(j);
                            if j < i { old(self).lemma_view_at(j); } else { old(self).lemma_view_at(j + 1); }
                        }
                        assert(self@ =~= old(self)@.remove(k));
                    }
                    true
                } else {
                    let b = self.entries[i].0.clone();
                    let r = self.entries[i].1.clone();
                    let ghost old_rc = *self;
                    self.entries.set(i, (b, r, c - 1));
                    proof { self.lemma_set_view(old_rc, i as int); }
                    false
                }
            },
            None => false,
        }
    }

    /// Whether `r` is among the first `n` pairs held for `bus`.
    closed spec fn seen(&self, n: int, bus: Seq<char>, r: Seq<char>) -> bool {
        exists|j: int| 0 <= j < n && self.keys()[j] == (bus, r)
    }

    /// The rules installed on `bus`, each once.
    pub fn rules_for_bus(&self, bus: &str) -> (out: Vec<String>)
        requires
            self.wf(),
        ensures
            strings_view_seq(out@).no_duplicates(),
            forall|r: Seq<char>| #![trigger strings_view_seq(out@).contains(r)]
                self@.contains_key((bus@, r)) <==> strings_view_seq(out@).contains(r),
    {
        let mut out: Vec<String> = Vec::new();
        for i in 0..self.entries.len()
            invariant
                self.wf(),
                strings_view_seq(out@).no_duplicates(),
                forall|r: Seq<char>| #![trigger strings_view_seq(out@).contains(r)]
                    self.seen(i as int, bus@, r) <==> strings_view_seq(out@).contains(r),
        {
            let ghost old_out = out@;
            let ghost before = strings_view_seq(out@);
            if str_eq(self.entries[i].0.as_str(), bus) {
                out.push(self.entries[i].1.clone());
                proof {
                    let r0 = self.entries@[i as int].1@;
                    assert(self.keys()[i as int] == (bus@, r0));
                    assert(strings_view_seq(out@) =~= before.push(r0));
                    assert(!before.contains(r0)) by {
                        if before.contains(r0) {
                            let j = choose|j: int| 0 <= j < i && self.keys()[j] == (bus@, r0);
                            assert(self.keys()[j] == self.keys()[i as int]);
                        }
                    }
                    assert forall|r: Seq<char>| #![trigger strings_view_seq(out@).contains(r)]
                        self.seen(i + 1, bus@, r) <==> strings_view_seq(out@).contains(r) by {
                        if self.seen(i + 1, bus@, r) {
                            let j = choose|j: int| 0 <= j < i + 1 && self.keys()[j] == (bus@, r);
                            if j == i {
                                assert(strings_view_seq(out@)[before.len() as int] == r);
                            } else {
                                assert(self.seen(i as int, bus@, r));
                                assert(strings_view_seq(old_out).contains(r));
                                let k = choose|k: int| 0 <= k < before.len() && before[k] == r;
                                assert(strings_view_seq(out@)[k] == r);
                            }
                        }
                        if strings_view_seq(out@).contains(r) {
                            let k = choose|k: int| 0 <= k < before.len() + 1 && strings_view_seq(out@)[k] == r;
                            if k == before.len() {
                                assert(self.keys()[i as int] == (bus@, r));
                            } else {
                                assert(before[k] == r);
                                assert(strings_view_seq(old_out).contains(r));
                            }
                        }
                    }
                }
            } else {
                proof {
                    assert(strings_view_seq(out@) == before);
                    assert forall|r: Seq<char>| #![trigger strings_view_seq(out@).contains(r)]
                        self.seen(i + 1, bus@, r) <==> strings_view_seq(out@).contains(r) by {
                        if self.seen(i + 1, bus@, r) {
                            let j = choose|j: int| 0 <= j < i + 1 && self.keys()[j] == (bus@, r);
                            assert(j != i);
                            assert(self.seen(i as int, bus@, r));
                        }
                    }
                }
            }
        }
        proof {
            assert forall|r: Seq<char>| #![trigger strings_view_seq(out@).contains(r)]
                self@.contains_key((bus@, r)) <==> strings_view_seq(out@).contains(r) by {
                if self@.contains_key((bus@, r)) {
                    let j = self.keys().index_of((bus@, r));
                    assert(self.keys()[j] == (bus@, r));
                    assert(self.seen(self.entries@.len() as int, bus@, r));
                }
                if self.seen(self.entries@.len() as int, bus@, r) {
                    let j = choose|j: int| 0 <= j < self.entries@.len() && self.keys()[j] == (bus@, r);
                    assert(self.keys().contains((bus@, r)));
                }
            }
        }
        out
    }

    /// A client that held `rules` on `bus` goes away; returns the rules that
    /// no client holds any more (to be removed from the bus).
    pub fn remove_client_rules(&mut self, bus: &str, rules: &Vec<String>) -> (gone: Vec<String>)
        requires
            old(self).wf(),
        ensures
            final(self).wf(),
            ({
                let (m, g) = spec_drop_rules(old(self)@, bus@, rules@.map_values(|s: String| s@));
                final(self)@ == m && gone@.map_values(|s: String| s@) == g
            }),
    {
        let ghost rv = rules@.map_values(|s: String| s@);
        let mut gone: Vec<String> = Vec::new();
        for i in 0..rules.len()
            invariant
                self.wf(),
                rv == rules@.map_values(|s: String| s@),
                ({
                    let (m, g) = spec_drop_rules(old(self)@, bus@, rv.take(i as int));
                    self@ == m && gone@.map_values(|s: String| s@) == g
                }),
        {
            let ghost before = gone@;
            assert(rv.take(i + 1).drop_last() =~= rv.take(i as int));
            assert(rv.take(i + 1).last() == rules@[i as int]@);
            if self.decrement(bus, rules[i].as_str()) {
                gone.push(rules[i].clone());
                assert(gone@.map_values(|s: String| s@) =~= before.map_values(|s: String| s@).push(rules@[i as int]@));
            }
        }
        assert(rv.take(rules@.len() as int) =~= rv);
        gone
    }
}


/// A rule with nothing but white space is the rule that matches every
/// message.
pub proof fn lemma_blank_rule_matches_all(rule: Seq<char>, m: MessageModel)
    requires
        trim(rule).len() == 0,
    ensures
        spec_parse(rule) == Ok::<RuleModel, RuleErrorModel>(empty_rule(rule)),
        spec_matches(empty_rule(rule), m),
{
    lemma_trim_start_len(trim(rule));
    assert(skip_separator(trim(rule)).len() == 0) by {
        lemma_skip_separator_len(trim(rule));
    }
}

/// A rule that filters on the message type matches only messages of that
/// type.
pub proof fn lemma_type_filter(r: RuleModel, m: MessageModel)
    requires
        r.msg_type matches Some(t) && t != message_type_name(m.msg_type),
    ensures
        !spec_matches(r, m),
{
}

/// Adding a rule twice is adding it once.
pub proof fn lemma_add_rule_idempotent(rules: Seq<RuleModel>, rule: RuleModel)
    ensures
        ({
            let once = if has_rule(rules, rule.rule_string) { rules } else { rules.push(rule) };
            &&& has_rule(once, rule.rule_string)
            &&& (if has_rule(once, rule.rule_string) { once } else { once.push(rule) }) == once
        }),
{
    if !has_rule(rules, rule.rule_string) {
        let once = rules.push(rule);
        assert(once[rules.len() as int].rule_string == rule.rule_string);
    }
}

/// Removing a rule after adding a rule not yet held gives the rules back.
pub proof fn lemma_add_then_remove(rules: Seq<RuleModel>, rule: RuleModel)
    requires
        !has_rule(rules, rule.rule_string),
    ensures
        without_rule(rules.push(rule), rule.rule_string) == rules,
{
    let once = rules.push(rule);
    assert(once[rules.len() as int].rule_string == rule.rule_string);
    let i = rule_index(once, rule.rule_string);
    assert(i == rules.len()) by {
        if i < rules.len() { assert(once[i] == rules[i]); }
    }
    assert(once.remove(i) =~= rules);
}

/// The count of a (bus, rule) pair after one more client added it.
pub open spec fn spec_increment(m: Map<(Seq<char>, Seq<char>), u64>, k: (Seq<char>, Seq<char>)) -> Map<(Seq<char>, Seq<char>), u64> {
    m.insert(k, if !m.contains_key(k) {
        1u64
    } else if m[k] == u64::MAX {
        u64::MAX
    } else {
        (m[k] + 1) as u64
    })
}

/// A client that adds a rule and drops it again leaves the counts as they
/// were; the rule is removed from the bus only when no other client holds
/// it.
pub proof fn lemma_increment_then_decrement(m: Map<(Seq<char>, Seq<char>), u64>, k: (Seq<char>, Seq<char>))
    requires
        forall|x: (Seq<char>, Seq<char>)| #[trigger] m.contains_key(x) ==> m[x] > 0,
        m.contains_key(k) ==> m[k] < u64::MAX,
    ensures
        spec_decrement(spec_increment(m, k), k).0 == m,
        spec_decrement(spec_increment(m, k), k).1 == !m.contains_key(k),
{
    let m1 = spec_increment(m, k);
    if m.contains_key(k) {
        assert(m1.insert(k, (m1[k] - 1) as u64) =~= m);
    } else {
        assert(m1.remove(k) =~= m);
    }
}

} // verus!
