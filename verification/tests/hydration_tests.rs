use hydration::candidate::{Candidate, PendingValue};
use hydration::devalue::{deserialize_devalue, is_devalue_format};
use hydration::html::{extract_json_scripts, script_key, HtmlDocument, HtmlElement};
use hydration::hydration::{extract_hydration_state, hydration_candidates};
use hydration::json::{JsonNumber, JsonValue};
use hydration::js::{extract_assignments_from_tree, parse_js_value};
use hydration::state::HydrationState;
use hydration::syntax::SyntaxTree;
use hydration::text::{parse_i64, trim_text, CharClass};
use hydration::window::extract_window_assignments;

fn to_json_value(v: &serde_json::Value) -> JsonValue {
    match v {
        serde_json::Value::Null => JsonValue::Null,
        serde_json::Value::Bool(b) => JsonValue::Bool(*b),
        serde_json::Value::Number(n) => {
            if let Some(u) = n.as_u64() {
                JsonValue::Number(JsonNumber::PosInt(u))
            } else if let Some(i) = n.as_i64() {
                JsonValue::Number(JsonNumber::NegInt(i))
            } else {
                JsonValue::Number(JsonNumber::Float(n.to_string()))
            }
        }
        serde_json::Value::String(s) => JsonValue::String(s.clone()),
        serde_json::Value::Array(a) => JsonValue::Array(a.iter().map(to_json_value).collect()),
        serde_json::Value::Object(o) => {
            JsonValue::Object(o.iter().map(|(k, v)| (k.clone(), to_json_value(v))).collect())
        }
    }
}

fn json(text: &str) -> JsonValue {
    to_json_value(&serde_json::from_str::<serde_json::Value>(text).unwrap())
}

fn flat(text: &str) -> Vec<JsonValue> {
    match json(text) {
        JsonValue::Array(items) => items,
        _ => panic!("not an array"),
    }
}

fn number_read(c: &Candidate) -> Option<JsonValue> {
    match &c.value {
        PendingValue::Ready(_) => None,
        PendingValue::NumberText(t) => t
            .parse::<f64>()
            .ok()
            .and_then(serde_json::Number::from_f64)
            .map(|n| to_json_value(&serde_json::Value::Number(n))),
    }
}

fn state_of(candidates: &Vec<Candidate>) -> HydrationState {
    let values: Vec<Option<JsonValue>> = candidates.iter().map(number_read).collect();
    extract_hydration_state(candidates, &values)
}

fn json_script_state(html: &str) -> HydrationState {
    state_of(&extract_json_scripts(&HtmlDocument::parse_document(html)))
}

fn window_state(html: &str) -> HydrationState {
    state_of(&extract_window_assignments(&HtmlDocument::parse_document(html)))
}

fn document_state(html: &str) -> HydrationState {
    state_of(&hydration_candidates(&HtmlDocument::parse_document(html)))
}

fn member<'a>(v: &'a JsonValue, key: &str) -> &'a JsonValue {
    match v {
        JsonValue::Object(members) => &members.iter().find(|(k, _)| k == key).unwrap().1,
        _ => panic!("not an object"),
    }
}

#[test]
fn test_devalue_simple() {
    // [{"message":1},"hello"] → {"message":"hello"}
    let flat = flat(r#"[{"message":1},"hello"]"#);
    let result = deserialize_devalue(&flat).unwrap();
    assert!(result.equals(&json(r#"{"message": "hello"}"#)));
}

#[test]
fn test_devalue_nested() {
    let flat = flat(r#"[{"name":1,"price":2},"Mozzarella",1.99]"#);
    let result = deserialize_devalue(&flat).unwrap();
    assert!(result.equals(&json(r#"{"name": "Mozzarella", "price": 1.99}"#)));
}

#[test]
fn test_devalue_cycle() {
    // [{"self":0}] → {"self": null} (cycle broken)
    let flat = flat(r#"[{"self":0}]"#);
    let result = deserialize_devalue(&flat).unwrap();
    assert!(result.equals(&json(r#"{"self": null}"#)));
}

#[test]
fn test_not_devalue() {
    let arr = vec![JsonValue::String("hello".into()), JsonValue::Number(JsonNumber::PosInt(42))];
    assert!(!is_devalue_format(&arr));
}

#[test]
fn test_extract_json_scripts() {
    let result = json_script_state(
        r#"<html><head>
            <script id="__NEXT_DATA__" type="application/json">{"props":{"pageProps":{"name":"test"}}}</script>
            </head><body></body></html>"#,
    );
    assert!(result.contains_key("__NEXT_DATA__"));
    let data = result.get("__NEXT_DATA__").unwrap();
    let name = member(member(member(data, "props"), "pageProps"), "name");
    assert!(name.equals(&JsonValue::String("test".into())));
}

#[test]
fn test_extract_window_assignment() {
    let result = window_state(
        r#"<html><body>
            <script>window.__INITIAL_STATE__ = {"user": "test", "count": 42};</script>
            </body></html>"#,
    );
    assert!(result.contains_key("__INITIAL_STATE__"));
}

#[test]
fn test_extract_var_declaration() {
    let result = window_state(
        r#"<html><body>
            <script>var dataLayer = [{"event": "pageview"}];</script>
            </body></html>"#,
    );
    assert!(result.contains_key("dataLayer"));
}

#[test]
fn test_html_entity_decode() {
    let result = window_state(
        r#"<html><body>
            <script>window.__data = {&quot;name&quot;: &quot;test&quot;};</script>
            </body></html>"#,
    );
    assert!(result.contains_key("__data"));
}

#[test]
fn devalue_of_empty_array_is_none() {
    assert!(deserialize_devalue(&[]).is_none());
}

#[test]
fn devalue_keeps_out_of_range_and_non_index_numbers() {
    let result = deserialize_devalue(&flat(r#"[{"a":5,"b":-1,"c":1.5},"x"]"#)).unwrap();
    assert!(result.equals(&json(r#"{"a":5,"b":-1,"c":1.5}"#)));
}

#[test]
fn devalue_resolves_arrays_and_shared_references() {
    let result = deserialize_devalue(&flat(r#"[{"items":1,"again":2},[2,3],"a","b"]"#)).unwrap();
    assert!(result.equals(&json(r#"{"items":["a","b"],"again":"a"}"#)));
}

#[test]
fn devalue_breaks_indirect_cycle() {
    let result = deserialize_devalue(&flat(r#"[{"a":1},{"b":0}]"#)).unwrap();
    assert!(result.equals(&json(r#"{"a":{"b":null}}"#)));
}

#[test]
fn devalue_reference_free_root_is_itself() {
    let items = flat(r#"[{"a":"x","b":true},"unused"]"#);
    let result = deserialize_devalue(&items).unwrap();
    assert!(result.equals(&items[0]));
}

#[test]
fn devalue_format_detection() {
    assert!(is_devalue_format(&flat(r#"[{"a":1,"b":"x"},"y"]"#)));
    assert!(!is_devalue_format(&flat(r#"[{"a":"x","b":"y","c":1},"z"]"#)));
    assert!(!is_devalue_format(&flat(r#"[{},1]"#)));
    assert!(!is_devalue_format(&flat(r#"[{"a":0}]"#)));
    assert!(!is_devalue_format(&flat(r#"[[1],1]"#)));
    assert!(!is_devalue_format(&flat(r#"[{"a":2},1]"#)));
}

#[test]
fn integers_read_like_str_parse() {
    let p = |s: &str| parse_i64(&s.chars().collect());
    assert_eq!(p("42"), Some(42));
    assert_eq!(p("-5"), Some(-5));
    assert_eq!(p("+7"), Some(7));
    assert_eq!(p("9223372036854775807"), Some(i64::MAX));
    assert_eq!(p("-9223372036854775808"), Some(i64::MIN));
    assert_eq!(p("9223372036854775808"), None);
    assert_eq!(p("-9223372036854775809"), None);
    assert_eq!(p("99999999999999999999999"), None);
    assert_eq!(p(""), None);
    assert_eq!(p("-"), None);
    assert_eq!(p("1a"), None);
    assert_eq!(p("1.5"), None);
    assert_eq!(p("0x1F"), None);
}

#[test]
fn trimming_white_space_and_quotes() {
    assert_eq!(trim_text("\u{3000} a b \u{85}\n", &CharClass::WhiteSpace), "a b");
    assert_eq!(trim_text("   ", &CharClass::WhiteSpace), "");
    assert_eq!(trim_text("'\"x\"'", &CharClass::Quote), "x");
    assert_eq!(trim_text("''", &CharClass::Quote), "");
    assert_eq!(trim_text("a'b", &CharClass::Quote), "a'b");
}

fn element(id: Option<&str>, attrs: &[(&str, &str)]) -> HtmlElement {
    HtmlElement {
        id: id.map(|s| s.to_string()),
        attrs: attrs.iter().map(|(n, v)| (n.to_string(), v.to_string())).collect(),
        text: String::new(),
    }
}

#[test]
fn json_script_keys() {
    assert_eq!(script_key(&element(Some("main"), &[("data-x", "y")])), "main");
    assert_eq!(script_key(&element(None, &[("class", "c"), ("data-target", "app"), ("data-z", "z")])), "app");
    assert_eq!(script_key(&element(None, &[("class", "c"), ("dat", "no")])), "anonymous");
}

#[test]
fn json_scripts_blank_invalid_and_data_keys() {
    let doc = HtmlDocument::parse_document(
        r#"<html><head>
        <script type="application/json">   </script>
        <script type="application/json" data-target="app">  {"a":1}  </script>
        <script type="application/json" id="broken">{not json}</script>
        <script type="application/json">[1,2]</script>
        <script>var ignored = 1;</script>
        </head></html>"#,
    );
    let candidates = extract_json_scripts(&doc);
    assert_eq!(candidates.len(), 2);
    assert_eq!(candidates[0].key, "app");
    match &candidates[0].value {
        PendingValue::Ready(v) => assert!(v.equals(&json(r#"{"a":1}"#))),
        other => panic!("unexpected {:?}", other),
    }
    let state = state_of(&candidates);
    assert!(state.contains_key("app"));
    assert!(!state.contains_key("broken"));
    assert!(state.get("anonymous").unwrap().equals(&json("[1,2]")));
    assert_eq!(state.len(), 2);
}

#[test]
fn window_assignment_forms() {
    let state = window_state(
        r#"<script>
        self.a = 1;
        globalThis.b = "s";
        foo.c = 2;
        let d = 5;
        const e = 'hi';
        var f = undefined;
        g = true;
        var h = 1.5;
        var i = null;
        var j = -3;
        </script>"#,
    );
    assert!(state.get("a").unwrap().equals(&JsonValue::Number(JsonNumber::PosInt(1))));
    assert!(state.get("b").unwrap().equals(&JsonValue::String("s".into())));
    assert!(!state.contains_key("c"));
    assert!(!state.contains_key("foo"));
    assert!(state.get("d").unwrap().equals(&JsonValue::Number(JsonNumber::PosInt(5))));
    assert!(state.get("e").unwrap().equals(&JsonValue::String("hi".into())));
    assert!(state.get("f").unwrap().equals(&JsonValue::Null));
    assert!(state.get("g").unwrap().equals(&JsonValue::Bool(true)));
    assert!(state.get("h").unwrap().equals(&json("1.5")));
    assert!(state.get("i").unwrap().equals(&JsonValue::Null));
    assert!(state.get("j").unwrap().equals(&JsonValue::Number(JsonNumber::NegInt(-3))));
}

#[test]
fn numbers_that_are_not_integers_wait_for_float_reading() {
    let cands = extract_window_assignments(&HtmlDocument::parse_document(
        "<script>var h = 1.5; var big = 99999999999999999999; var hex = 0x1F;</script>",
    ));
    assert_eq!(cands.len(), 3);
    match &cands[0].value {
        PendingValue::NumberText(t) => assert_eq!(t, "1.5"),
        other => panic!("unexpected {:?}", other),
    }
    let state = state_of(&cands);
    assert!(state.contains_key("big"));
    assert!(!state.contains_key("hex"));
}

#[test]
fn json_parse_calls() {
    let state = window_state(
        r#"<script>
        var d = JSON.parse("{\"a\":1}");
        var s = JSON.parse('{\"b\":2}');
        var unescaped = JSON.parse('{"b":2}');
        var other = Foo.parse("{\"c\":3}");
        var none = JSON.parse(x);
        </script>"#,
    );
    assert!(state.get("d").unwrap().equals(&json(r#"{"a":1}"#)));
    assert!(state.get("s").unwrap().equals(&json(r#"{"b":2}"#)));
    assert!(state.get("unescaped").unwrap().equals(&json(r#"{"b":2}"#)));
    assert!(!state.contains_key("other"));
    assert!(!state.contains_key("none"));
}

#[test]
fn only_untyped_and_javascript_scripts_are_read() {
    let state = window_state(
        r#"<script type="module">var m = 1;</script>
        <script type="text/javascript">var t = 2;</script>
        <script type="application/json">{"x":1}</script>"#,
    );
    assert!(!state.contains_key("m"));
    assert!(state.contains_key("t"));
    assert_eq!(state.len(), 1);
}

#[test]
fn nested_statements_are_searched() {
    let state = window_state("<script>if (ok) { var inner = 1; } function f() { var g = 2; }</script>");
    assert!(state.contains_key("inner"));
    assert!(state.contains_key("g"));
}

#[test]
fn later_value_of_a_key_wins() {
    let state = document_state(
        r#"<script id="k" type="application/json">{"from":"json"}</script>
        <script>var k = 1; var k = 2; var keep = 3; var keep = JSON.parse(y);</script>"#,
    );
    assert!(state.get("k").unwrap().equals(&JsonValue::Number(JsonNumber::PosInt(2))));
    assert!(state.get("keep").unwrap().equals(&JsonValue::Number(JsonNumber::PosInt(3))));
}

#[test]
fn devalue_arrays_in_state_are_resolved() {
    let state = window_state(r#"<script>window.__pinia = [{"a":1},"x"]; window.plain = [1,2];</script>"#);
    assert!(state.get("__pinia").unwrap().equals(&json(r#"{"a":"x"}"#)));
    assert!(state.get("plain").unwrap().equals(&json("[1,2]")));
}

#[test]
fn entities_are_decoded_only_when_encoded_quotes_or_ampersands_appear() {
    let state = window_state(r#"<script>window.a = "&#65;"; </script><script>window.b = "&amp;&#65;";</script>"#);
    assert!(state.get("a").unwrap().equals(&JsonValue::String("&#65;".into())));
    assert!(state.get("b").unwrap().equals(&JsonValue::String("&A".into())));
}

#[test]
fn state_insert_and_get() {
    let mut state = HydrationState::new();
    assert_eq!(state.len(), 0);
    state.insert("a".to_string(), JsonValue::Null);
    state.insert("b".to_string(), JsonValue::Bool(false));
    state.insert("a".to_string(), JsonValue::Bool(true));
    assert_eq!(state.len(), 2);
    assert!(state.get("a").unwrap().equals(&JsonValue::Bool(true)));
    assert!(state.get("c").is_none());
    let entries = state.into_entries();
    assert_eq!(entries.len(), 2);
}

#[test]
fn syntax_tree_from_tree_sitter() {
    let tree = SyntaxTree::parse_javascript("var a = 1;").unwrap();
    assert_eq!(tree.nodes[0].kind, "program");
    assert_eq!(tree.nodes[0].depth, 0);
    assert_eq!(tree.nodes[0].text, "var a = 1;");
    let value = tree.nodes.iter().position(|n| n.kind == "number").unwrap();
    assert_eq!(tree.nodes[value].field.as_deref(), Some("value"));
    match parse_js_value(&tree, value).unwrap() {
        PendingValue::Ready(v) => assert!(v.equals(&JsonValue::Number(JsonNumber::PosInt(1)))),
        other => panic!("unexpected {:?}", other),
    }
    let mut found = Vec::new();
    extract_assignments_from_tree(&tree, 0, &mut found);
    assert_eq!(found.len(), 1);
    assert_eq!(found[0].key, "a");
}

#[test]
fn subscript_assignments_on_global_objects() {
    let state = window_state(
        r#"<script>
        window["__pinia"] = {"a": "b"};
        self['single'] = 1;
        globalThis["esc\u0041ped"] = 2;
        foo["x"] = 3;
        window[key] = 4;
        </script>"#,
    );
    assert!(state.get("__pinia").unwrap().equals(&json(r#"{"a":"b"}"#)));
    assert!(state.get("single").unwrap().equals(&JsonValue::Number(JsonNumber::PosInt(1))));
    assert!(state.get("escAped").unwrap().equals(&JsonValue::Number(JsonNumber::PosInt(2))));
    assert!(!state.contains_key("x"));
    assert!(!state.contains_key("key"));
    assert_eq!(state.len(), 3);
}

#[test]
fn string_literal_escapes_are_decoded() {
    let state = window_state(
        r#"<script>
        var a = "a\"b";
        var b = 'it\'s';
        var c = "tab\there";
        var d = '\x41\u0042';
        </script>"#,
    );
    assert!(state.get("a").unwrap().equals(&JsonValue::String("a\"b".into())));
    assert!(state.get("b").unwrap().equals(&JsonValue::String("it's".into())));
    assert!(state.get("c").unwrap().equals(&JsonValue::String("tab\there".into())));
    assert!(state.get("d").unwrap().equals(&JsonValue::String("AB".into())));
}

#[test]
fn json_parse_with_hex_and_unicode_escapes() {
    let state = window_state(
        r#"<script>
        var hex = JSON.parse('{\x22a\x22:[1,2]}');
        var uni = JSON.parse('{\u0022b\u0022:true}');
        var bad = JSON.parse('{oops}');
        </script>"#,
    );
    assert!(state.get("hex").unwrap().equals(&json(r#"{"a":[1,2]}"#)));
    assert!(state.get("uni").unwrap().equals(&json(r#"{"b":true}"#)));
    assert!(!state.contains_key("bad"));
}

#[test]
fn object_literals_are_read_as_json5() {
    let state = window_state(
        r#"<script>
        var o = {unquoted: 'single', trailing: [1, 2,],};
        var neg = -2.5;
        var f = function () {};
        </script>"#,
    );
    assert!(state.get("o").unwrap().equals(&json(r#"{"unquoted":"single","trailing":[1,2]}"#)));
    assert!(state.get("neg").unwrap().equals(&json("-2.5")));
    assert!(!state.contains_key("f"));
}

#[test]
fn applying_the_same_candidates_twice_changes_nothing() {
    let doc = HtmlDocument::parse_document(
        r#"<script id="k" type="application/json">{"a":1}</script><script>var v = 1.5; var w = "x";</script>"#,
    );
    let once = hydration_candidates(&doc);
    let mut twice = hydration_candidates(&doc);
    twice.extend(hydration_candidates(&doc));
    let a = state_of(&once);
    let b = state_of(&twice);
    assert_eq!(a.len(), b.len());
    for key in ["k", "v", "w"] {
        assert!(a.get(key).unwrap().equals(b.get(key).unwrap()));
    }
}

#[test]
fn assignments_override_json_scripts_and_keep_the_rest() {
    let state = document_state(
        r#"<script id="both" type="application/json">{"from":"json"}</script>
        <script id="only_json" type="application/json">[1]</script>
        <script>window.both = "script";</script>"#,
    );
    assert!(state.get("both").unwrap().equals(&JsonValue::String("script".into())));
    assert!(state.get("only_json").unwrap().equals(&json("[1]")));
    assert_eq!(state.len(), 2);
}
