//! What a rule of one quoted filter matches.
//!
//! A rule written as a single `key='value'` pair is parsed into that one
//! filter; the laws below say, for the `path_namespace` and `argNpath`
//! filters, which messages such a rule matches, how unquoted values are
//! read, and what a destination filter asks of a message.

use vstd::prelude::*;

use crate::match_rules::{
    arg_path_matches, empty_rule, in_namespace, path_text, skip_separator, spec_apply_pair, spec_matches,
    spec_next_pair, spec_parse, spec_parse_pairs, spec_value, MessageModel, PairStep, RuleErrorModel, RuleModel,
};
use crate::text::{
    decimal, find_char, is_digit, is_ws, lemma_decimal, lemma_parse_decimal, leading_ws, trailing_ws, trim, trim_end,
    trim_start,
};

verus! {

/// Whether `c` occurs in `s`.
pub open spec fn holds_char(s: Seq<char>, c: char) -> bool {
    exists|i: int| 0 <= i < s.len() && s[i] == c
}

/// The text of the rule `key='value'`.
pub open spec fn single_pair(key: Seq<char>, value: Seq<char>) -> Seq<char> {
    key + seq!['=', '\''] + value + seq!['\'']
}

proof fn lemma_find_char_after(a: Seq<char>, b: Seq<char>, c: char)
    requires
        !holds_char(a, c),
    ensures
        find_char(a + b, c) == (match find_char(b, c) {
            Some(i) => Some((i + a.len()) as nat),
            None => None::<nat>,
        }),
    decreases a.len(),
{
    if a.len() == 0 {
        assert(a + b =~= b);
    } else {
        assert((a + b).drop_first() =~= a.drop_first() + b);
        assert(a[0] != c);
        assert(!holds_char(a.drop_first(), c)) by {
            if holds_char(a.drop_first(), c) {
                let i = choose|i: int| 0 <= i < a.drop_first().len() && a.drop_first()[i] == c;
                assert(a[i + 1] == c);
            }
        }
        lemma_find_char_after(a.drop_first(), b, c);
    }
}

proof fn lemma_no_leading_ws(s: Seq<char>)
    requires
        s.len() > 0,
        !is_ws(s[0]),
    ensures
        trim_start(s) == s,
{
    assert(leading_ws(s) == 0);
    assert(s.skip(0) =~= s);
}

proof fn lemma_no_trailing_ws(s: Seq<char>)
    requires
        s.len() > 0,
        !is_ws(s.last()),
    ensures
        trim_end(s) == s,
{
    assert(trailing_ws(s) == 0);
    assert(s.take(s.len() as int) =~= s);
}

proof fn lemma_trimmed(s: Seq<char>)
    requires
        s.len() > 0,
        !is_ws(s[0]),
        !is_ws(s.last()),
    ensures
        trim(s) == s,
{
    lemma_no_leading_ws(s);
    lemma_no_trailing_ws(s);
}

/// A rule written as one pair `key='value'`, where the key has no '=' and
/// neither starts with white space or a comma nor ends with white space,
/// and the value holds no quote, is parsed as that one pair applied to the
/// rule that matches everything.
pub proof fn lemma_parse_single_pair(key: Seq<char>, value: Seq<char>)
    requires
        key.len() > 0,
        !is_ws(key[0]),
        key[0] != ',',
        !is_ws(key.last()),
        !holds_char(key, '='),
        !holds_char(value, '\''),
    ensures
        spec_parse(single_pair(key, value)) == spec_apply_pair(empty_rule(single_pair(key, value)), key, value),
{
    let t = single_pair(key, value);
    let tail = seq!['=', '\''] + value + seq!['\''];
    assert(t =~= key + tail);
    assert(t[0] == key[0]);
    assert(t.last() == '\'');
    lemma_trimmed(t);
    assert(skip_separator(t) == t) by {
        lemma_no_leading_ws(t);
    }
    lemma_find_char_after(key, tail, '=');
    assert(tail[0] == '=');
    assert(find_char(tail, '=') == Some(0nat));
    assert(find_char(t, '=') == Some(key.len()));
    let r3 = seq!['\''] + value + seq!['\''];
    assert(t.skip(key.len() + 1int) =~= r3);
    lemma_no_leading_ws(r3);
    assert(r3.drop_first() =~= value + seq!['\'']);
    lemma_find_char_after(value, seq!['\''], '\'');
    assert(find_char(seq!['\''], '\'') == Some(0nat));
    assert(r3.subrange(1, value.len() + 1int) =~= value);
    assert(r3.skip(value.len() + 2int) =~= Seq::<char>::empty());
    assert(spec_value(r3) == Some((value, Seq::<char>::empty())));
    assert(t.take(key.len() as int) =~= key);
    lemma_trimmed(key);
    assert(spec_next_pair(t) == PairStep::Pair(key, value, Seq::<char>::empty()));
    let e = Seq::<char>::empty();
    assert(leading_ws(e) == 0);
    assert(trim_start(e) =~= e);
    assert(skip_separator(e) =~= e);
    assert(spec_next_pair(e) == PairStep::Done);
    match spec_apply_pair(empty_rule(t), key, value) {
        Ok(m) => {
            assert(spec_parse_pairs(e, m) == Ok::<RuleModel, crate::match_rules::RuleErrorModel>(m));
        },
        Err(_) => {},
    }
}

/// The rule `path_namespace='ns'` (with no quote in `ns`) is parsed, and it
/// matches exactly the messages whose path is `ns` or lies below it: a
/// namespace such as "/org/freedesktop" takes "/org/freedesktop" and
/// "/org/freedesktop/DBus", not "/org/freedesktopX".
pub proof fn law_path_namespace_rule(ns: Seq<char>, m: MessageModel)
    requires
        !holds_char(ns, '\''),
    ensures
        spec_parse(single_pair("path_namespace"@, ns)) matches Ok(r)
            && (spec_matches(r, m) <==> (m.path matches Some(p) && in_namespace(p, ns))),
{
    reveal_strlit("path_namespace");
    reveal_strlit("type");
    reveal_strlit("sender");
    reveal_strlit("interface");
    reveal_strlit("member");
    reveal_strlit("path");
    let key = "path_namespace"@;
    assert(!holds_char(key, '=')) by {
        if holds_char(key, '=') {
            let i = choose|i: int| 0 <= i < key.len() && key[i] == '=';
            assert(key[i] == '=');
        }
    }
    lemma_parse_single_pair(key, ns);
    let t = single_pair(key, ns);
    assert(key != "type"@);
    assert(key != "sender"@);
    assert(key != "interface"@);
    assert(key != "member"@);
    assert(key != "path"@);
    let r = RuleModel { path_namespace: Some(ns), ..empty_rule(t) };
    assert(spec_parse(t) == Ok::<RuleModel, crate::match_rules::RuleErrorModel>(r));
    assert(r.args.is_empty() && r.arg_paths.is_empty());
}

/// The rule `argNpath='f'`, with `N` the decimal text of an index up to 63
/// and no quote in `f`, is parsed, and it matches exactly the messages
/// whose argument `N` is a string or object path that equals `f`, or where
/// one of the two ends with '/' and is a prefix of the other.
pub proof fn law_arg_path_rule(n: u8, f: Seq<char>, m: MessageModel)
    requires
        n <= 63,
        !holds_char(f, '\''),
    ensures
        spec_parse(single_pair("arg"@ + decimal(n as nat) + "path"@, f)) matches Ok(r) && (spec_matches(r, m) <==> (
            m.args matches Some(a) && n < a.len() && (path_text(a[n as int]) matches Some(x) && arg_path_matches(x, f)))),
{
    reveal_strlit("type");
    reveal_strlit("sender");
    reveal_strlit("interface");
    reveal_strlit("member");
    reveal_strlit("path");
    reveal_strlit("path_namespace");
    reveal_strlit("destination");
    reveal_strlit("eavesdrop");
    reveal_strlit("arg");
    let d = decimal(n as nat);
    lemma_decimal(n as nat);
    lemma_parse_decimal(n as nat, 255);
    let key = "arg"@ + d + "path"@;
    assert(key[0] == 'a');
    assert(key.last() == 'h');
    assert(!holds_char(key, '=')) by {
        if holds_char(key, '=') {
            let i = choose|i: int| 0 <= i < key.len() && key[i] == '=';
            if 3 <= i < 3 + d.len() {
                assert(key[i] == d[i - 3]);
                assert(is_digit(d[i - 3]));
            }
        }
    }
    lemma_parse_single_pair(key, f);
    let t = single_pair(key, f);
    assert(key != "type"@);
    assert(key != "sender"@);
    assert(key != "interface"@);
    assert(key != "member"@);
    assert(key[0] != "path"@[0]);
    assert(key != "path"@);
    assert(key[0] != "path_namespace"@[0]);
    assert(key != "path_namespace"@);
    assert(key != "destination"@);
    assert(key != "eavesdrop"@);
    assert(key.subrange(3, key.len() - 4) =~= d);
    let r = RuleModel { arg_paths: Map::<u8, Seq<char>>::empty().insert(n, f), ..empty_rule(t) };
    assert(spec_parse(t) == Ok::<RuleModel, crate::match_rules::RuleErrorModel>(r));
    assert(r.args.is_empty());
    assert(r.arg_paths.contains_key(n));
}

/// A rule that names a non-empty destination never matches a message that
/// has none (a broadcast signal): a message without a destination passes a
/// destination filter only when the filter is empty.
pub proof fn law_destination_filter_needs_destination(r: RuleModel, m: MessageModel)
    requires
        m.destination is None,
        r.destination is Some,
    ensures
        spec_matches(r, m) ==> r.destination.unwrap().len() == 0,
{
}

/// Whether `k` can stand as a key at the start of a rule: it is not empty,
/// holds no '=', and neither starts with white space or a comma nor ends
/// with white space.
pub open spec fn plain_key(k: Seq<char>) -> bool {
    &&& k.len() > 0
    &&& !is_ws(k[0])
    &&& k[0] != ','
    &&& !is_ws(k.last())
    &&& !holds_char(k, '=')
}

/// Whether `v` can be written without quotes: it holds no quote, no comma
/// and no white space.
pub open spec fn plain_value(v: Seq<char>) -> bool {
    forall|i: int| 0 <= i < v.len() ==> #[trigger] v[i] != '\'' && v[i] != ',' && !is_ws(v[i])
}

/// The outcome `r` of parsing, with the rule's text taken to be `s`.
pub open spec fn written_as(r: Result<RuleModel, RuleErrorModel>, s: Seq<char>) -> Result<RuleModel, RuleErrorModel> {
    match r {
        Ok(m) => Ok(RuleModel { rule_string: s, ..m }),
        Err(e) => Err(e),
    }
}

proof fn lemma_plain_value_trimmed(v: Seq<char>)
    requires
        plain_value(v),
    ensures
        trim(v) == v,
{
    if v.len() > 0 {
        assert(!is_ws(v[0]));
        assert(!is_ws(v[v.len() - 1]));
        lemma_trimmed(v);
    } else {
        assert(leading_ws(v) == 0);
        assert(trim_start(v) =~= v);
        assert(trailing_ws(v) == 0);
        assert(trim_end(v) =~= v);
    }
}

proof fn lemma_unquoted_pair(k: Seq<char>, v: Seq<char>, rest: Seq<char>)
    requires
        plain_key(k),
        plain_value(v),
        rest.len() == 0 || rest[0] == ',',
    ensures
        spec_next_pair(k + seq!['='] + v + rest) == PairStep::Pair(k, v, rest),
{
    let t = k + seq!['='] + v + rest;
    let tail = seq!['='] + v + rest;
    assert(t =~= k + tail);
    assert(t[0] == k[0]);
    lemma_no_leading_ws(t);
    assert(skip_separator(t) == t);
    lemma_find_char_after(k, tail, '=');
    assert(tail[0] == '=');
    assert(find_char(tail, '=') == Some(0nat));
    assert(find_char(t, '=') == Some(k.len()));
    let r3 = v + rest;
    assert(t.skip(k.len() + 1int) =~= r3);
    assert(!holds_char(v, ',')) by {
        if holds_char(v, ',') {
            let i = choose|i: int| 0 <= i < v.len() && v[i] == ',';
            assert(v[i] != ',');
        }
    }
    lemma_find_char_after(v, rest, ',');
    if rest.len() == 0 {
        assert(find_char(rest, ',') is None);
    } else {
        assert(find_char(rest, ',') == Some(0nat));
    }
    if v.len() > 0 {
        assert(r3[0] == v[0]);
        assert(v[0] != '\'' && !is_ws(v[0]));
        lemma_no_leading_ws(r3);
    } else {
        assert(r3 =~= rest);
        if rest.len() > 0 {
            assert(r3[0] == ',');
            lemma_no_leading_ws(r3);
        } else {
            assert(leading_ws(r3) == 0);
            assert(trim_start(r3) =~= r3);
        }
    }
    assert(trim_start(r3) == r3);
    assert(r3.take(v.len() as int) =~= v);
    assert(r3.skip(v.len() as int) =~= rest);
    lemma_plain_value_trimmed(v);
    assert(spec_value(r3) == Some((v, rest)));
    assert(t.take(k.len() as int) =~= k);
    lemma_trimmed(k);
}

proof fn lemma_quoted_pair(k: Seq<char>, v: Seq<char>, rest: Seq<char>)
    requires
        plain_key(k),
        !holds_char(v, '\''),
    ensures
        spec_next_pair(k + seq!['=', '\''] + v + seq!['\''] + rest) == PairStep::Pair(k, v, rest),
{
    let t = k + seq!['=', '\''] + v + seq!['\''] + rest;
    let tail = seq!['=', '\''] + v + seq!['\''] + rest;
    assert(t =~= k + tail);
    assert(t[0] == k[0]);
    lemma_no_leading_ws(t);
    assert(skip_separator(t) == t);
    lemma_find_char_after(k, tail, '=');
    assert(tail[0] == '=');
    assert(find_char(tail, '=') == Some(0nat));
    assert(find_char(t, '=') == Some(k.len()));
    let r3 = seq!['\''] + v + seq!['\''] + rest;
    assert(t.skip(k.len() + 1int) =~= r3);
    lemma_no_leading_ws(r3);
    assert(r3.drop_first() =~= v + (seq!['\''] + rest));
    lemma_find_char_after(v, seq!['\''] + rest, '\'');
    assert((seq!['\''] + rest)[0] == '\'');
    assert(find_char(seq!['\''] + rest, '\'') == Some(0nat));
    assert(r3.subrange(1, v.len() + 1int) =~= v);
    assert(r3.skip(v.len() + 2int) =~= rest);
    assert(spec_value(r3) == Some((v, rest)));
    assert(t.take(k.len() as int) =~= k);
    lemma_trimmed(k);
}

proof fn lemma_after_comma(x: Seq<char>)
    requires
        x.len() > 0,
        !is_ws(x[0]),
        x[0] != ',',
    ensures
        spec_next_pair(seq![','] + x) == spec_next_pair(x),
{
    let y = seq![','] + x;
    assert(y[0] == ',');
    lemma_no_leading_ws(y);
    assert(y.drop_first() =~= x);
    lemma_no_leading_ws(x);
    assert(skip_separator(y) == x);
    assert(skip_separator(x) == x);
}

proof fn lemma_apply_pair_text(m: RuleModel, s: Seq<char>, k: Seq<char>, v: Seq<char>)
    ensures
        spec_apply_pair(RuleModel { rule_string: s, ..m }, k, v) == written_as(spec_apply_pair(m, k, v), s),
{
}

/// An unquoted value ends at the next comma: for keys `k1`, `k2` and values
/// `v1`, `v2` without quotes, commas or white space, the rule
/// `k1=v1,k2=v2` is parsed as `k1='v1',k2='v2'` is (both fail alike, or
/// both give the same filters, each rule keeping its own text).
pub proof fn law_unquoted_values(k1: Seq<char>, v1: Seq<char>, k2: Seq<char>, v2: Seq<char>)
    requires
        plain_key(k1),
        plain_key(k2),
        plain_value(v1),
        plain_value(v2),
    ensures
        spec_parse(k1 + seq!['='] + v1 + seq![','] + k2 + seq!['='] + v2) == written_as(
            spec_parse(k1 + seq!['=', '\''] + v1 + seq!['\'', ','] + k2 + seq!['=', '\''] + v2 + seq!['\'']),
            k1 + seq!['='] + v1 + seq![','] + k2 + seq!['='] + v2,
        ),
{
    let u = k1 + seq!['='] + v1 + seq![','] + k2 + seq!['='] + v2;
    let q = k1 + seq!['=', '\''] + v1 + seq!['\'', ','] + k2 + seq!['=', '\''] + v2 + seq!['\''];
    assert(!holds_char(v1, '\'')) by {
        if holds_char(v1, '\'') {
            let i = choose|i: int| 0 <= i < v1.len() && v1[i] == '\'';
            assert(v1[i] != '\'');
        }
    }
    assert(!holds_char(v2, '\'')) by {
        if holds_char(v2, '\'') {
            let i = choose|i: int| 0 <= i < v2.len() && v2[i] == '\'';
            assert(v2[i] != '\'');
        }
    }
    let e = Seq::<char>::empty();
    assert(leading_ws(e) == 0);
    assert(trim_start(e) =~= e);
    assert(skip_separator(e) =~= e);
    assert(spec_next_pair(e) == PairStep::Done);

    // The unquoted text, pair by pair.
    let xu = k2 + seq!['='] + v2;
    let ru = seq![','] + xu;
    assert(u =~= k1 + seq!['='] + v1 + ru);
    lemma_unquoted_pair(k1, v1, ru);
    assert(xu =~= k2 + seq!['='] + v2 + e);
    lemma_unquoted_pair(k2, v2, e);
    assert(xu[0] == k2[0]);
    lemma_after_comma(xu);
    assert(spec_next_pair(ru) == PairStep::Pair(k2, v2, e));
    assert(u[0] == k1[0]);
    if v2.len() > 0 {
        assert(u.last() == v2.last());
        assert(!is_ws(v2[v2.len() - 1]));
    } else {
        assert(u.last() == '=');
    }
    lemma_trimmed(u);

    // The quoted text, pair by pair.
    let xq = k2 + seq!['=', '\''] + v2 + seq!['\''];
    let rq = seq![','] + xq;
    assert(q =~= k1 + seq!['=', '\''] + v1 + seq!['\''] + rq);
    lemma_quoted_pair(k1, v1, rq);
    assert(xq =~= k2 + seq!['=', '\''] + v2 + seq!['\''] + e);
    lemma_quoted_pair(k2, v2, e);
    assert(xq[0] == k2[0]);
    lemma_after_comma(xq);
    assert(spec_next_pair(rq) == PairStep::Pair(k2, v2, e));
    assert(q[0] == k1[0]);
    assert(q.last() == '\'');
    lemma_trimmed(q);

    let eq = empty_rule(q);
    let eu = empty_rule(u);
    assert(eu == RuleModel { rule_string: u, ..eq });
    lemma_apply_pair_text(eq, u, k1, v1);
    assert(spec_parse(q) == spec_parse_pairs(q, eq));
    assert(spec_parse(u) == spec_parse_pairs(u, eu));
    match spec_apply_pair(eq, k1, v1) {
        Ok(m1) => {
            let m1u = RuleModel { rule_string: u, ..m1 };
            assert(spec_parse_pairs(q, eq) == spec_parse_pairs(rq, m1));
            assert(spec_parse_pairs(u, eu) == spec_parse_pairs(ru, m1u));
            lemma_apply_pair_text(m1, u, k2, v2);
            match spec_apply_pair(m1, k2, v2) {
                Ok(m2) => {
                    assert(spec_parse_pairs(rq, m1) == spec_parse_pairs(e, m2));
                    assert(spec_parse_pairs(e, m2) == Ok::<RuleModel, RuleErrorModel>(m2));
                    let m2u = RuleModel { rule_string: u, ..m2 };
                    assert(spec_parse_pairs(ru, m1u) == spec_parse_pairs(e, m2u));
                    assert(spec_parse_pairs(e, m2u) == Ok::<RuleModel, RuleErrorModel>(m2u));
                },
                Err(x) => {
                    assert(spec_parse_pairs(rq, m1) == Err::<RuleModel, RuleErrorModel>(x));
                    assert(spec_parse_pairs(ru, m1u) == Err::<RuleModel, RuleErrorModel>(x));
                },
            }
        },
        Err(x) => {
            assert(spec_parse_pairs(q, eq) == Err::<RuleModel, RuleErrorModel>(x));
            assert(spec_parse_pairs(u, eu) == Err::<RuleModel, RuleErrorModel>(x));
        },
    }
}

} // verus!
