//! Anti-forgery token discovery and the JSON reader.
use phab_comments::token::{find_csrf_token, find_csrf_token_document};
use phab_comments::json::{parse_json, Json, obj_get, find_sugg, payload_changeset};

fn chars(s: &str) -> Vec<char> {
    let mut v = Vec::new();
    for c in s.chars() {
        v.push(c);
    }
    v
}

fn string_of(v: &Vec<char>) -> String {
    let mut s = String::new();
    for c in v.iter() {
        s.push(*c);
    }
    s
}

#[test]
fn hidden_field_pattern_wins_over_json_literal() {
    let page = "<input name=\"__csrf__token\" value=\"FIELD-TOKEN\"> {\"current\":\"JSON-TOKEN\"}";
    assert_eq!(find_csrf_token(page), Some("FIELD-TOKEN".to_string()));
}

#[test]
fn json_literal_pattern_is_the_fallback() {
    let page = "var conf = {\"current\":\"JSON-TOKEN\"};";
    assert_eq!(find_csrf_token(page), Some("JSON-TOKEN".to_string()));
}

#[test]
fn hidden_field_must_sit_on_one_line() {
    let page = "x __csrf__ y\nvalue=\"WRONG\"";
    assert_eq!(find_csrf_token(page), None);
}

#[test]
fn token_absence_is_reported_as_absence() {
    assert_eq!(find_csrf_token("an ordinary page"), None);
}

#[test]
fn metadata_tag_carries_the_document_token() {
    let page = "<meta name=\"csrf-token\" content=\"META-TOKEN\"><body>";
    assert_eq!(find_csrf_token_document(page), Some("META-TOKEN".to_string()));
}

#[test]
fn script_pattern_reads_the_document_token() {
    let page = "<script>config = {csrf: \"SCRIPT-TOKEN\"};</script>";
    assert_eq!(find_csrf_token_document(page), Some("SCRIPT-TOKEN".to_string()));
}

#[test]
fn json_reader_accepts_scalars_and_nesting() {
    let v = chars(" { \"a\" : [ 1 , -2 , true , null , \"s\" ] , \"b\" : { } } ");
    let parsed = parse_json(&v).expect("well-formed document");
    match &parsed {
        Json::Obj(ms) => {
            match obj_get(ms, &chars("a")) {
                Some(Json::Arr(es)) => {
                    assert_eq!(es.len(), 5);
                    assert!(matches!(es[0], Json::Int(1)));
                    assert!(matches!(es[1], Json::Int(-2)));
                    assert!(matches!(es[2], Json::Bool(true)));
                    assert!(matches!(es[3], Json::Null));
                    match &es[4] {
                        Json::Str(t) => assert_eq!(string_of(t), "s"),
                        _ => panic!("expected a string element"),
                    }
                },
                _ => panic!("missing array member"),
            }
            assert!(matches!(obj_get(ms, &chars("b")), Some(Json::Obj(_))));
        },
        _ => panic!("expected an object"),
    }
}

#[test]
fn json_reader_resolves_string_escapes() {
    let v = chars("{\"k\":\"a\\n\\t\\\"\\\\\\/\\u0041\"}");
    let parsed = parse_json(&v).expect("well-formed document");
    match &parsed {
        Json::Obj(ms) => match obj_get(ms, &chars("k")) {
            Some(Json::Str(t)) => assert_eq!(string_of(t), "a\n\t\"\\/A"),
            _ => panic!("missing string member"),
        },
        _ => panic!("expected an object"),
    }
}

#[test]
fn json_reader_combines_surrogate_escapes() {
    let v = chars("{\"k\":\"\\ud83d\\ude00\"}");
    let parsed = parse_json(&v).expect("well-formed document");
    match &parsed {
        Json::Obj(ms) => match obj_get(ms, &chars("k")) {
            Some(Json::Str(t)) => assert_eq!(string_of(t), "\u{1F600}"),
            _ => panic!("missing string member"),
        },
        _ => panic!("expected an object"),
    }
}

#[test]
fn json_reader_refuses_malformed_text() {
    assert!(parse_json(&chars("{")).is_none());
    assert!(parse_json(&chars("{} trailing")).is_none());
    assert!(parse_json(&chars("{\"a\":01}")).is_none());
    assert!(parse_json(&chars("[1,]")).is_none());
    assert!(parse_json(&chars("")).is_none());
}

#[test]
fn later_duplicate_member_shadows_the_earlier() {
    let v = chars("{\"k\":1,\"k\":2}");
    let parsed = parse_json(&v).expect("well-formed document");
    match &parsed {
        Json::Obj(ms) => assert!(matches!(obj_get(ms, &chars("k")), Some(Json::Int(2)))),
        _ => panic!("expected an object"),
    }
}

#[test]
fn suggestion_search_skips_blank_and_unmarked_values() {
    let v = chars("{\"x\":{\"suggestionText\":\"   \"},\"y\":{\"suggestionText\":\"-real\"}}");
    let parsed = parse_json(&v).expect("well-formed document");
    let found = find_sugg(&parsed).expect("the marked value");
    assert_eq!(string_of(found), "-real");
}

#[test]
fn payload_changeset_reads_the_nested_fragment() {
    let v = chars("{\"payload\":{\"changeset\":\"<table></table>\"}}");
    let parsed = parse_json(&v).expect("well-formed document");
    let h = payload_changeset(&parsed).expect("the fragment");
    assert_eq!(string_of(h), "<table></table>");
    let w = chars("{\"payload\":{}}");
    let parsed2 = parse_json(&w).expect("well-formed document");
    assert!(payload_changeset(&parsed2).is_none());
}

#[test]
fn empty_json_literal_capture_is_skipped() {
    let page = "first {\"current\":\"\"} then {\"current\":\"REAL\"}";
    assert_eq!(find_csrf_token(page), Some("REAL".to_string()));
}
