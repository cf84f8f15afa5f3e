//! Assignments in JavaScript: `var/let/const X = value`, `X = value`,
//! `window.X = value` and `window["X"] = value` (also on `self` and
//! `globalThis`), and the values they assign.

use vstd::prelude::*;

use crate::candidate::{candidate_models, Candidate, CandidateModel, PendingModel, PendingValue};
use crate::devalue::option_model;
use crate::json::{Json, JsonNum, JsonNumber, JsonValue};
use crate::reading::{
    js_string_literal, js_string_value, json5_text_value, json_string_literal, json_string_value,
    json_text_value, read_json5_text, read_json_text,
};
use crate::syntax::{field_child, first_named_child, subtree_end, lemma_subtree_end_bounds, NodeModel, SyntaxTree};
use crate::text::{chars_of, decimal_i64, parse_i64, trim, trim_text, CharClass};

verus! {

/// The JSON number of an `i64` (`serde_json::Number::from`).
pub open spec fn integer_number(x: i64) -> JsonNum {
    if x >= 0 {
        JsonNum::PosInt(x as u64)
    } else {
        JsonNum::NegInt(x)
    }
}

/// The content of the string literal `raw`, escapes decoded: a
/// double-quoted literal read as a JSON string, a single-quoted one as a
/// JavaScript string; `None` when it reads as neither.
pub open spec fn string_literal_content(raw: Seq<char>) -> Option<Seq<char>> {
    if raw.len() > 0 && raw[0] == '"' {
        json_string_literal(raw)
    } else if raw.len() > 0 && raw[0] == '\'' {
        js_string_literal(raw)
    } else {
        None
    }
}

/// The string that the literal `raw` stands for: its content, or where that
/// cannot be read, its text without the surrounding quote characters.
pub open spec fn string_value(raw: Seq<char>) -> Seq<char> {
    match string_literal_content(raw) {
        Some(s) => s,
        None => trim(raw, CharClass::Quote),
    }
}

/// The value of the first string argument of a `JSON.parse` call whose
/// content can be read, from child `c` of the arguments on: that content
/// read as JSON (`None` when it is no JSON). `None` when there is no such
/// argument.
pub open spec fn json_parse_args(t: Seq<NodeModel>, c: int, stop: int) -> Option<Json>
    decreases t.len() - c,
{
    if c < 0 || c >= stop || c >= t.len() {
        None
    } else {
        proof {
            lemma_subtree_end_bounds(t, c);
        }
        if t[c].kind == "string"@ && string_literal_content(t[c].text) is Some {
            json_text_value(string_literal_content(t[c].text)->0)
        } else {
            json_parse_args(t, subtree_end(t, c), stop)
        }
    }
}

/// What call expression `v` gives: for `JSON.parse(...)`, the value of its
/// first readable string argument; nothing for any other call.
pub open spec fn json_parse_call(t: Seq<NodeModel>, v: int) -> Option<Json> {
    match field_child(t, v, "function"@) {
        None => None,
        Some(f) => if t[f].text != "JSON.parse"@ {
            None
        } else {
            match field_child(t, v, "arguments"@) {
                None => None,
                Some(a) => json_parse_args(t, a + 1, subtree_end(t, a)),
            }
        },
    }
}

/// A value found, as a value ready to be set.
pub open spec fn ready(v: Option<Json>) -> Option<PendingModel> {
    match v {
        Some(j) => Some(PendingModel::Ready(j)),
        None => None,
    }
}

/// The value that value node `v` assigns, by its kind: a string literal its
/// string, an `i64` number that integer and another number its text (read
/// as a float later), `true`, `false`, `null` (also for `undefined`), for a
/// call the value of `JSON.parse(...)`, and for an object, an array or any
/// other expression its text read as JSON5.
pub open spec fn js_value(t: Seq<NodeModel>, v: int) -> Option<PendingModel> {
    let kind = t[v].kind;
    let text = t[v].text;
    if kind == "string"@ {
        Some(PendingModel::Ready(Json::Str(string_value(text))))
    } else if kind == "number"@ {
        Some(
            match decimal_i64(text) {
                Some(x) => PendingModel::Ready(Json::Number(integer_number(x))),
                None => PendingModel::NumberText(text),
            },
        )
    } else if kind == "true"@ {
        Some(PendingModel::Ready(Json::Bool(true)))
    } else if kind == "false"@ {
        Some(PendingModel::Ready(Json::Bool(false)))
    } else if kind == "null"@ || kind == "undefined"@ {
        Some(PendingModel::Ready(Json::Null))
    } else if kind == "call_expression"@ {
        ready(json_parse_call(t, v))
    } else {
        ready(json5_text_value(text))
    }
}

/// `window`, `self` or `globalThis`.
pub open spec fn is_global_object(text: Seq<char>) -> bool {
    text == "window"@ || text == "self"@ || text == "globalThis"@
}

/// The key that member expression `m` assigns to: `X` of `window.X`,
/// `self.X` or `globalThis.X` (quotes trimmed from a string property).
pub open spec fn member_key(t: Seq<NodeModel>, m: int) -> Option<Seq<char>> {
    match (field_child(t, m, "object"@), field_child(t, m, "property"@)) {
        (Some(o), Some(p)) => {
            if !is_global_object(t[o].text) {
                None
            } else if t[p].kind == "property_identifier"@ {
                Some(t[p].text)
            } else if t[p].kind == "string"@ || t[p].kind == "string_fragment"@ {
                Some(trim(t[p].text, CharClass::Quote))
            } else {
                None
            }
        },
        _ => None,
    }
}

/// The key that subscript expression `s` assigns to: the string `X` of
/// `window["X"]`, `self["X"]` or `globalThis["X"]`.
pub open spec fn subscript_key(t: Seq<NodeModel>, s: int) -> Option<Seq<char>> {
    match (field_child(t, s, "object"@), field_child(t, s, "index"@)) {
        (Some(o), Some(i)) => {
            if is_global_object(t[o].text) && t[i].kind == "string"@ {
                Some(string_value(t[i].text))
            } else {
                None
            }
        },
        _ => None,
    }
}

/// A key and the value found for it, as the sequence of the one candidate,
/// or none.
pub open spec fn found(key: Seq<char>, v: Option<PendingModel>) -> Seq<CandidateModel> {
    match v {
        None => Seq::empty(),
        Some(pv) => seq![CandidateModel { key: key, value: pv }],
    }
}

/// The key that the left side `l` of an assignment names.
pub open spec fn assigned_key(t: Seq<NodeModel>, l: int) -> Option<Seq<char>> {
    if t[l].kind == "identifier"@ {
        Some(t[l].text)
    } else if t[l].kind == "member_expression"@ {
        member_key(t, l)
    } else if t[l].kind == "subscript_expression"@ {
        subscript_key(t, l)
    } else {
        None
    }
}

/// What assignment expression `a` assigns: to an identifier, or to a member
/// of `window`, `self` or `globalThis`.
pub open spec fn assignment_of(t: Seq<NodeModel>, a: int) -> Seq<CandidateModel> {
    match (field_child(t, a, "left"@), field_child(t, a, "right"@)) {
        (Some(l), Some(r)) => match assigned_key(t, l) {
            Some(k) => found(k, js_value(t, r)),
            None => Seq::empty(),
        },
        _ => Seq::empty(),
    }
}

/// What variable declarator `d` assigns: its name, if an identifier, and its
/// initial value.
pub open spec fn declarator_of(t: Seq<NodeModel>, d: int) -> Seq<CandidateModel> {
    match (field_child(t, d, "name"@), field_child(t, d, "value"@)) {
        (Some(n), Some(v)) => if t[n].kind == "identifier"@ {
            found(t[n].text, js_value(t, v))
        } else {
            Seq::empty()
        },
        _ => Seq::empty(),
    }
}

/// What the declarators among the children of a declaration assign, from
/// child `c` on.
pub open spec fn declaration_of(t: Seq<NodeModel>, c: int, stop: int) -> Seq<CandidateModel>
    decreases t.len() - c,
{
    if c < 0 || c >= stop || c >= t.len() {
        Seq::empty()
    } else {
        proof {
            lemma_subtree_end_bounds(t, c);
        }
        let here = if t[c].kind == "variable_declarator"@ {
            declarator_of(t, c)
        } else {
            Seq::empty()
        };
        here + declaration_of(t, subtree_end(t, c), stop)
    }
}

/// What statement-level node `c` assigns: a declaration its declarators, an
/// expression statement its assignment, any other node what its children
/// assign.
pub open spec fn statement_of(t: Seq<NodeModel>, c: int) -> Seq<CandidateModel>
    decreases t.len() - c, 0int,
{
    if c < 0 || c >= t.len() {
        Seq::empty()
    } else {
        proof {
            lemma_subtree_end_bounds(t, c);
        }
        let kind = t[c].kind;
        if kind == "lexical_declaration"@ || kind == "variable_declaration"@ {
            declaration_of(t, c + 1, subtree_end(t, c))
        } else if kind == "expression_statement"@ {
            match first_named_child(t, c) {
                Some(e) => if t[e].kind == "assignment_expression"@ {
                    assignment_of(t, e)
                } else {
                    Seq::empty()
                },
                None => Seq::empty(),
            }
        } else {
            statements_of(t, c + 1, subtree_end(t, c))
        }
    }
}

/// What the children of a node assign, from child `c` on, in order.
pub open spec fn statements_of(t: Seq<NodeModel>, c: int, stop: int) -> Seq<CandidateModel>
    decreases t.len() - c, 1int,
{
    if c < 0 || c >= stop || c >= t.len() {
        Seq::empty()
    } else {
        proof {
            lemma_subtree_end_bounds(t, c);
        }
        statement_of(t, c) + statements_of(t, subtree_end(t, c), stop)
    }
}

/// What the children of node `node` assign, in order.
pub open spec fn tree_assignments(t: Seq<NodeModel>, node: int) -> Seq<CandidateModel> {
    statements_of(t, node + 1, subtree_end(t, node))
}

/// The model of an optional pending value.
pub open spec fn pending_option_model(r: Option<PendingValue>) -> Option<PendingModel> {
    match r {
        Some(v) => Some(v@),
        None => None,
    }
}

/// The model of an optional string.
pub open spec fn string_option_model(r: Option<String>) -> Option<Seq<char>> {
    match r {
        Some(s) => Some(s@),
        None => None,
    }
}

/// The content of the string literal `raw`, escapes decoded.
fn literal_content(raw: &String) -> (r: Option<String>)
    ensures
        string_option_model(r) == string_literal_content(raw@),
{
    let chars = chars_of(raw.as_str());
    if chars.len() == 0 {
        None
    } else if chars[0] == '"' {
        json_string_value(raw.as_str())
    } else if chars[0] == '\'' {
        js_string_value(raw.as_str())
    } else {
        None
    }
}

/// The string that the literal `raw` stands for.
fn literal_string(raw: &String) -> (r: String)
    ensures
        r@ == string_value(raw@),
{
    match literal_content(raw) {
        Some(s) => s,
        None => trim_text(raw.as_str(), &CharClass::Quote),
    }
}

/// The value of the first readable string argument, from child `c0` of the
/// arguments on.
fn json_parse_args_value(t: &SyntaxTree, c0: usize, stop: usize) -> (r: Option<JsonValue>)
    requires
        stop <= t@.len(),
    ensures
        option_model(r) == json_parse_args(t@, c0 as int, stop as int),
{
    let mut c = c0;
    while c < stop
        invariant
            stop <= t@.len(),
            json_parse_args(t@, c0 as int, stop as int) == json_parse_args(t@, c as int, stop as int),
        decreases t@.len() - c,
    {
        proof {
            lemma_subtree_end_bounds(t@, c as int);
        }
        if t.kind_is(c, "string") {
            assert(t@[c as int].text == t.nodes@[c as int].text@);
            match literal_content(&t.nodes[c].text) {
                Some(s) => {
                    return read_json_text(s.as_str());
                },
                None => {},
            }
        }
        c = t.subtree_end(c);
    }
    None
}

/// What call expression `v` gives: for `JSON.parse(...)`, the value of its
/// first readable string argument.
fn json_parse_call_value(t: &SyntaxTree, v: usize) -> (r: Option<JsonValue>)
    requires
        v < t@.len(),
    ensures
        option_model(r) == json_parse_call(t@, v as int),
{
    let f = match t.child_by_field_name(v, "function") {
        Some(f) => f,
        None => {
            return None;
        },
    };
    if !t.text_is(f, "JSON.parse") {
        return None;
    }
    let a = match t.child_by_field_name(v, "arguments") {
        Some(a) => a,
        None => {
            return None;
        },
    };
    let stop = t.subtree_end(a);
    json_parse_args_value(t, a + 1, stop)
}

/// A value read, as a value ready to be set.
fn ready_value(v: Option<JsonValue>) -> (r: Option<PendingValue>)
    ensures
        pending_option_model(r) == ready(option_model(v)),
{
    match v {
        Some(j) => Some(PendingValue::Ready(j)),
        None => None,
    }
}

/// The value that value node `node` assigns: a string literal its string
/// (escapes decoded), an `i64` number that integer, another number its text
/// (to be read as a float), `true`, `false`, `null` (also for `undefined`),
/// `JSON.parse("...")` the JSON value of its first readable string argument,
/// and an object, an array or any other expression the value of its text
/// read as JSON5 (`json5::from_str`: unquoted keys, single quotes, trailing
/// commas accepted). `None` when there is no value.
pub fn parse_js_value(t: &SyntaxTree, node: usize) -> (r: Option<PendingValue>)
    requires
        node < t@.len(),
    ensures
        pending_option_model(r) == js_value(t@, node as int),
{
    let text = &t.nodes[node].text;
    assert(t@[node as int].text == text@);
    if t.kind_is(node, "string") {
        Some(PendingValue::Ready(JsonValue::String(literal_string(text))))
    } else if t.kind_is(node, "number") {
        let chars = chars_of(text.as_str());
        match parse_i64(&chars) {
            Some(x) => {
                let n = if x >= 0 {
                    JsonNumber::PosInt(x as u64)
                } else {
                    JsonNumber::NegInt(x)
                };
                Some(PendingValue::Ready(JsonValue::Number(n)))
            },
            None => Some(PendingValue::NumberText(text.clone())),
        }
    } else if t.kind_is(node, "true") {
        Some(PendingValue::Ready(JsonValue::Bool(true)))
    } else if t.kind_is(node, "false") {
        Some(PendingValue::Ready(JsonValue::Bool(false)))
    } else if t.kind_is(node, "null") || t.kind_is(node, "undefined") {
        Some(PendingValue::Ready(JsonValue::Null))
    } else if t.kind_is(node, "call_expression") {
        ready_value(json_parse_call_value(t, node))
    } else {
        ready_value(read_json5_text(text.as_str()))
    }
}

/// Whether node `o` is `window`, `self` or `globalThis`.
fn names_global_object(t: &SyntaxTree, o: usize) -> (r: bool)
    requires
        o < t@.len(),
    ensures
        r == is_global_object(t@[o as int].text),
{
    t.text_is(o, "window") || t.text_is(o, "self") || t.text_is(o, "globalThis")
}

/// The key that member expression `m` assigns to.
fn member_expression_key(t: &SyntaxTree, m: usize) -> (r: Option<String>)
    requires
        m < t@.len(),
    ensures
        string_option_model(r) == member_key(t@, m as int),
{
    let o = match t.child_by_field_name(m, "object") {
        Some(o) => o,
        None => {
            return None;
        },
    };
    let p = match t.child_by_field_name(m, "property") {
        Some(p) => p,
        None => {
            return None;
        },
    };
    if !names_global_object(t, o) {
        return None;
    }
    assert(t@[p as int].text == t.nodes@[p as int].text@);
    if t.kind_is(p, "property_identifier") {
        Some(t.nodes[p].text.clone())
    } else if t.kind_is(p, "string") || t.kind_is(p, "string_fragment") {
        Some(trim_text(t.nodes[p].text.as_str(), &CharClass::Quote))
    } else {
        None
    }
}

/// The key that subscript expression `s` assigns to.
fn subscript_expression_key(t: &SyntaxTree, s: usize) -> (r: Option<String>)
    requires
        s < t@.len(),
    ensures
        string_option_model(r) == subscript_key(t@, s as int),
{
    let o = match t.child_by_field_name(s, "object") {
        Some(o) => o,
        None => {
            return None;
        },
    };
    let i = match t.child_by_field_name(s, "index") {
        Some(i) => i,
        None => {
            return None;
        },
    };
    if names_global_object(t, o) && t.kind_is(i, "string") {
        assert(t@[i as int].text == t.nodes@[i as int].text@);
        Some(literal_string(&t.nodes[i].text))
    } else {
        None
    }
}

/// The key that the left side `l` of an assignment names.
fn assigned_key_of(t: &SyntaxTree, l: usize) -> (r: Option<String>)
    requires
        l < t@.len(),
    ensures
        string_option_model(r) == assigned_key(t@, l as int),
{
    assert(t@[l as int].text == t.nodes@[l as int].text@);
    if t.kind_is(l, "identifier") {
        Some(t.nodes[l].text.clone())
    } else if t.kind_is(l, "member_expression") {
        member_expression_key(t, l)
    } else if t.kind_is(l, "subscript_expression") {
        subscript_expression_key(t, l)
    } else {
        None
    }
}

/// Appends the candidate for `key` and `v`, if there is a value.
fn push_found(key: String, v: Option<PendingValue>, out: &mut Vec<Candidate>)
    ensures
        candidate_models(final(out)@) == candidate_models(old(out)@) + found(
            key@,
            pending_option_model(v),
        ),
{
    match v {
        None => {
            assert(candidate_models(out@) =~= candidate_models(out@) + Seq::<CandidateModel>::empty());
        },
        Some(pv) => {
            let c = Candidate { key, value: pv };
            out.push(c);
            assert(candidate_models(out@) =~= candidate_models(old(out)@) + seq![c@]);
        },
    }
}

/// Appends what assignment expression `a` assigns.
fn assignment_candidates(t: &SyntaxTree, a: usize, out: &mut Vec<Candidate>)
    requires
        a < t@.len(),
    ensures
        candidate_models(final(out)@) == candidate_models(old(out)@) + assignment_of(t@, a as int),
{
    let l = t.child_by_field_name(a, "left");
    let r = t.child_by_field_name(a, "right");
    match (l, r) {
        (Some(l), Some(r)) => match assigned_key_of(t, l) {
            Some(k) => {
                let v = parse_js_value(t, r);
                push_found(k, v, out);
            },
            None => {
                assert(candidate_models(out@) =~= candidate_models(out@) + Seq::<
                    CandidateModel,
                >::empty());
            },
        },
        _ => {
            assert(candidate_models(out@) =~= candidate_models(out@) + Seq::<CandidateModel>::empty());
        },
    }
}

/// Appends what variable declarator `d` assigns.
fn declarator_candidates(t: &SyntaxTree, d: usize, out: &mut Vec<Candidate>)
    requires
        d < t@.len(),
    ensures
        candidate_models(final(out)@) == candidate_models(old(out)@) + declarator_of(t@, d as int),
{
    let n = t.child_by_field_name(d, "name");
    let v = t.child_by_field_name(d, "value");
    match (n, v) {
        (Some(n), Some(v)) => {
            if t.kind_is(n, "identifier") {
                assert(t@[n as int].text == t.nodes@[n as int].text@);
                let value = parse_js_value(t, v);
                push_found(t.nodes[n].text.clone(), value, out);
            } else {
                assert(candidate_models(out@) =~= candidate_models(out@) + Seq::<
                    CandidateModel,
                >::empty());
            }
        },
        _ => {
            assert(candidate_models(out@) =~= candidate_models(out@) + Seq::<CandidateModel>::empty());
        },
    }
}

/// Appends what the declarators among the children of a declaration assign,
/// from child `c0` on.
fn declaration_candidates(t: &SyntaxTree, c0: usize, stop: usize, out: &mut Vec<Candidate>)
    requires
        stop <= t@.len(),
    ensures
        candidate_models(final(out)@) == candidate_models(old(out)@) + declaration_of(
            t@,
            c0 as int,
            stop as int,
        ),
{
    let mut c = c0;
    while c < stop
        invariant
            stop <= t@.len(),
            candidate_models(old(out)@) + declaration_of(t@, c0 as int, stop as int)
                == candidate_models(out@) + declaration_of(t@, c as int, stop as int),
        decreases t@.len() - c,
    {
        proof {
            lemma_subtree_end_bounds(t@, c as int);
        }
        let ghost before = candidate_models(out@);
        if t.kind_is(c, "variable_declarator") {
            declarator_candidates(t, c, out);
        } else {
            assert(candidate_models(out@) =~= candidate_models(out@) + Seq::<CandidateModel>::empty());
        }
        let ghost here = if t@[c as int].kind == "variable_declarator"@ {
            declarator_of(t@, c as int)
        } else {
            Seq::<CandidateModel>::empty()
        };
        let next = t.subtree_end(c);
        proof {
            assert(declaration_of(t@, c as int, stop as int) == here + declaration_of(
                t@,
                next as int,
                stop as int,
            ));
            assert(before + (here + declaration_of(t@, next as int, stop as int)) =~= (before
                + here) + declaration_of(t@, next as int, stop as int));
        }
        c = next;
    }
    assert(candidate_models(out@) + declaration_of(t@, c as int, stop as int) =~= candidate_models(
        out@,
    ));
}

/// Appends what statement-level node `c` assigns.
fn statement_candidates(t: &SyntaxTree, c: usize, out: &mut Vec<Candidate>)
    requires
        c < t@.len(),
    ensures
        candidate_models(final(out)@) == candidate_models(old(out)@) + statement_of(t@, c as int),
    decreases t@.len() - c, 0int,
{
    proof {
        lemma_subtree_end_bounds(t@, c as int);
    }
    if t.kind_is(c, "lexical_declaration") || t.kind_is(c, "variable_declaration") {
        let stop = t.subtree_end(c);
        declaration_candidates(t, c + 1, stop, out);
    } else if t.kind_is(c, "expression_statement") {
        match t.first_named_child(c) {
            Some(e) => {
                if t.kind_is(e, "assignment_expression") {
                    assignment_candidates(t, e, out);
                } else {
                    assert(candidate_models(out@) =~= candidate_models(out@) + Seq::<
                        CandidateModel,
                    >::empty());
                }
            },
            None => {
                assert(candidate_models(out@) =~= candidate_models(out@) + Seq::<
                    CandidateModel,
                >::empty());
            },
        }
    } else {
        let stop = t.subtree_end(c);
        statements_candidates(t, c + 1, stop, out);
    }
}

/// Appends what the children of a node assign, from child `c0` on.
fn statements_candidates(t: &SyntaxTree, c0: usize, stop: usize, out: &mut Vec<Candidate>)
    requires
        stop <= t@.len(),
    ensures
        candidate_models(final(out)@) == candidate_models(old(out)@) + statements_of(
            t@,
            c0 as int,
            stop as int,
        ),
    decreases t@.len() - c0, 1int,
{
    let mut c = c0;
    while c < stop
        invariant
            stop <= t@.len(),
            c0 <= c,
            candidate_models(old(out)@) + statements_of(t@, c0 as int, stop as int)
                == candidate_models(out@) + statements_of(t@, c as int, stop as int),
        decreases t@.len() - c,
    {
        proof {
            lemma_subtree_end_bounds(t@, c as int);
        }
        let ghost before = candidate_models(out@);
        statement_candidates(t, c, out);
        let next = t.subtree_end(c);
        proof {
            assert(before + (statement_of(t@, c as int) + statements_of(t@, next as int, stop as int))
                =~= (before + statement_of(t@, c as int)) + statements_of(
                t@,
                next as int,
                stop as int,
            ));
        }
        c = next;
    }
    assert(candidate_models(out@) + statements_of(t@, c as int, stop as int) =~= candidate_models(
        out@,
    ));
}

/// Appends to `result` what the children of node `node` assign, in order:
/// each `var`, `let` or `const` declarator with an identifier name and an
/// initial value, each assignment `X = value`, `window.X = value` or
/// `window["X"] = value` (also on `self`, `globalThis`) that is an expression
/// statement; the other nodes are searched the same way.
pub fn extract_assignments_from_tree(t: &SyntaxTree, node: usize, result: &mut Vec<Candidate>)
    requires
        node < t@.len(),
    ensures
        candidate_models(final(result)@) == candidate_models(old(result)@) + tree_assignments(
            t@,
            node as int,
        ),
{
    let stop = t.subtree_end(node);
    statements_candidates(t, node + 1, stop, result);
}

/// Whether `d` is one of the children of a node, taken from child `c` on,
/// that start before `stop`: the children are found by skipping subtrees.
pub open spec fn on_sibling_chain(t: Seq<NodeModel>, c: int, d: int, stop: int) -> bool
    decreases t.len() - c,
{
    if c < 0 || c >= stop || c >= t.len() {
        false
    } else if c == d {
        true
    } else {
        proof {
            lemma_subtree_end_bounds(t, c);
        }
        on_sibling_chain(t, subtree_end(t, c), d, stop)
    }
}

/// A child on the chain from `c` lies between `c` and `stop`.
pub proof fn lemma_sibling_chain_bounds(t: Seq<NodeModel>, c: int, d: int, stop: int)
    requires
        on_sibling_chain(t, c, d, stop),
    ensures
        0 <= c <= d < stop,
        d < t.len(),
    decreases t.len() - c,
{
    if c != d {
        lemma_subtree_end_bounds(t, c);
        lemma_sibling_chain_bounds(t, subtree_end(t, c), d, stop);
    }
}

/// Every variable declarator among the children of a declaration
/// contributes what it assigns, after what the children before it assign and
/// before what the children after it assign: `var a = 1, b = 2;` assigns both.
pub proof fn law_every_declarator_contributes(t: Seq<NodeModel>, c: int, d: int, stop: int)
    requires
        on_sibling_chain(t, c, d, stop),
        t[d].kind == "variable_declarator"@,
    ensures
        declaration_of(t, c, stop) == declaration_of(t, c, d) + declarator_of(t, d) + declaration_of(
            t,
            subtree_end(t, d),
            stop,
        ),
    decreases t.len() - c,
{
    lemma_sibling_chain_bounds(t, c, d, stop);
    lemma_subtree_end_bounds(t, c);
    let next = subtree_end(t, c);
    if c == d {
        assert(declaration_of(t, c, d) == Seq::<CandidateModel>::empty());
        assert(declaration_of(t, c, stop) =~= declaration_of(t, c, d) + declarator_of(t, d)
            + declaration_of(t, next, stop));
    } else {
        law_every_declarator_contributes(t, next, d, stop);
        let here = if t[c].kind == "variable_declarator"@ {
            declarator_of(t, c)
        } else {
            Seq::empty()
        };
        assert(declaration_of(t, c, d) == here + declaration_of(t, next, d));
        assert(declaration_of(t, c, stop) == here + declaration_of(t, next, stop));
        assert(here + (declaration_of(t, next, d) + declarator_of(t, d) + declaration_of(
            t,
            subtree_end(t, d),
            stop,
        )) =~= (here + declaration_of(t, next, d)) + declarator_of(t, d) + declaration_of(
            t,
            subtree_end(t, d),
            stop,
        ));
    }
}

/// Every child of a node contributes what it assigns, after what the
/// children before it assign and before what the children after it assign.
pub proof fn law_every_statement_contributes(t: Seq<NodeModel>, c: int, d: int, stop: int)
    requires
        on_sibling_chain(t, c, d, stop),
    ensures
        statements_of(t, c, stop) == statements_of(t, c, d) + statement_of(t, d) + statements_of(
            t,
            subtree_end(t, d),
            stop,
        ),
    decreases t.len() - c,
{
    lemma_sibling_chain_bounds(t, c, d, stop);
    lemma_subtree_end_bounds(t, c);
    let next = subtree_end(t, c);
    if c == d {
        assert(statements_of(t, c, d) == Seq::<CandidateModel>::empty());
        assert(statements_of(t, c, stop) =~= statements_of(t, c, d) + statement_of(t, d)
            + statements_of(t, next, stop));
    } else {
        law_every_statement_contributes(t, next, d, stop);
        let here = statement_of(t, c);
        assert(statements_of(t, c, d) == here + statements_of(t, next, d));
        assert(statements_of(t, c, stop) == here + statements_of(t, next, stop));
        assert(here + (statements_of(t, next, d) + statement_of(t, d) + statements_of(
            t,
            subtree_end(t, d),
            stop,
        )) =~= (here + statements_of(t, next, d)) + statement_of(t, d) + statements_of(
            t,
            subtree_end(t, d),
            stop,
        ));
    }
}

/// A `true` or `false` literal assigns its own truth value, and `null` and
/// `undefined` assign `null`.
pub proof fn law_literals_assign_themselves(t: Seq<NodeModel>, v: int)
    requires
        0 <= v < t.len(),
    ensures
        t[v].kind == "true"@ ==> js_value(t, v) == Some(PendingModel::Ready(Json::Bool(true))),
        t[v].kind == "false"@ ==> js_value(t, v) == Some(PendingModel::Ready(Json::Bool(false))),
        t[v].kind == "null"@ || t[v].kind == "undefined"@ ==> js_value(t, v) == Some(
            PendingModel::Ready(Json::Null),
        ),
{
    reveal_strlit("string");
    reveal_strlit("number");
    reveal_strlit("true");
    reveal_strlit("false");
    reveal_strlit("null");
    reveal_strlit("undefined");
    assert("true"@ != "string"@ && "true"@ != "number"@) by {
        assert("true"@.len() != "string"@.len());
        assert("true"@.len() != "number"@.len());
    }
    assert("false"@ != "string"@ && "false"@ != "number"@ && "false"@ != "true"@) by {
        assert("false"@.len() != "string"@.len());
        assert("false"@.len() != "number"@.len());
        assert("false"@.len() != "true"@.len());
    }
    assert("null"@ != "string"@ && "null"@ != "number"@ && "null"@ != "true"@ && "null"@
        != "false"@) by {
        assert("null"@.len() != "string"@.len());
        assert("null"@.len() != "number"@.len());
        assert("null"@[0] != "true"@[0]);
        assert("null"@.len() != "false"@.len());
    }
    assert("undefined"@ != "string"@ && "undefined"@ != "number"@ && "undefined"@ != "true"@
        && "undefined"@ != "false"@) by {
        assert("undefined"@.len() != "string"@.len());
        assert("undefined"@.len() != "number"@.len());
        assert("undefined"@.len() != "true"@.len());
        assert("undefined"@.len() != "false"@.len());
    }
}

/// A string literal assigns its content with escapes decoded; a decimal
/// integer that fits in an `i64` assigns that integer.
pub proof fn law_strings_and_integers_assign_their_values(t: Seq<NodeModel>, v: int)
    requires
        0 <= v < t.len(),
    ensures
        t[v].kind == "string"@ && string_literal_content(t[v].text) is Some ==> js_value(t, v)
            == Some(PendingModel::Ready(Json::Str(string_literal_content(t[v].text)->0))),
        t[v].kind == "number"@ && decimal_i64(t[v].text) is Some ==> js_value(t, v) == Some(
            PendingModel::Ready(
                Json::Number(
                    if decimal_i64(t[v].text)->0 >= 0 {
                        JsonNum::PosInt(decimal_i64(t[v].text)->0 as u64)
                    } else {
                        JsonNum::NegInt(decimal_i64(t[v].text)->0)
                    },
                ),
            ),
        ),
{
    reveal_strlit("string");
    reveal_strlit("number");
    assert("number"@ != "string"@) by {
        assert("number"@[0] != "string"@[0]);
    }
}

/// `window.X`, `self.X` and `globalThis.X` name the key `X`, as do
/// `window["X"]`, `self["X"]` and `globalThis["X"]` with the content of the
/// string literal; a member of any other object names no key.
pub proof fn law_global_object_members_name_keys(t: Seq<NodeModel>, l: int)
    requires
        0 <= l < t.len(),
    ensures
        ({
            let o = field_child(t, l, "object"@);
            let p = field_child(t, l, "property"@);
            let i = field_child(t, l, "index"@);
            &&& t[l].kind == "member_expression"@ && o is Some && p is Some && is_global_object(
                t[o->0].text,
            ) && t[p->0].kind == "property_identifier"@ ==> assigned_key(t, l) == Some(
                t[p->0].text,
            )
            &&& t[l].kind == "subscript_expression"@ && o is Some && i is Some && is_global_object(
                t[o->0].text,
            ) && t[i->0].kind == "string"@ && string_literal_content(t[i->0].text) is Some
                ==> assigned_key(t, l) == string_literal_content(t[i->0].text)
            &&& (t[l].kind == "member_expression"@ || t[l].kind == "subscript_expression"@)
                && o is Some && !is_global_object(t[o->0].text) ==> assigned_key(t, l) is None
        }),
{
    reveal_strlit("identifier");
    reveal_strlit("member_expression");
    reveal_strlit("subscript_expression");
    assert("member_expression"@ != "identifier"@ && "subscript_expression"@ != "identifier"@
        && "subscript_expression"@ != "member_expression"@) by {
        assert("member_expression"@.len() != "identifier"@.len());
        assert("subscript_expression"@.len() != "identifier"@.len());
        assert("subscript_expression"@.len() != "member_expression"@.len());
    }
}

} // verus!
