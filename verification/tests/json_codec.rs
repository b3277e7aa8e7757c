use txpool_parser::encode::to_pretty_text;
use txpool_parser::json::Json;
use txpool_parser::parse::parse_json;

fn cv(s: &str) -> Vec<char> {
    s.chars().collect()
}

fn render(v: &Json) -> String {
    to_pretty_text(v).into_iter().collect()
}

#[test]
fn encoder_pretty_prints_nested_values() {
    let v = Json::Obj(vec![
        (cv("a"), Json::Num(cv("1"))),
        (cv("b"), Json::Arr(vec![Json::Num(cv("1")), Json::Num(cv("2"))])),
        (cv("c"), Json::Obj(vec![])),
        (cv("d"), Json::Arr(vec![])),
        (cv("e"), Json::Bool(false)),
        (cv("f"), Json::Null),
    ]);
    assert_eq!(
        render(&v),
        "{\n  \"a\": 1,\n  \"b\": [\n    1,\n    2\n  ],\n  \"c\": {},\n  \"d\": [],\n  \"e\": false,\n  \"f\": null\n}"
    );
}

#[test]
fn encoder_escapes_strings() {
    let v = Json::Str(cv("a\"b\\c\nd"));
    assert_eq!(render(&v), "\"a\\\"b\\\\c\\nd\"");
}

#[test]
fn encoder_renders_large_numbers() {
    let v = Json::Num(cv("340282366920938463463374607431768211455"));
    assert_eq!(render(&v), "340282366920938463463374607431768211455");
}

#[test]
fn parser_reads_scalars_and_whitespace() {
    assert_eq!(render(&parse_json(&cv("  42  ")).unwrap()), "42");
    assert_eq!(render(&parse_json(&cv("null")).unwrap()), "null");
    assert_eq!(render(&parse_json(&cv("true")).unwrap()), "true");
    assert_eq!(render(&parse_json(&cv("false")).unwrap()), "false");
    assert_eq!(render(&parse_json(&cv("\"0x\"")).unwrap()), "\"0x\"");
}

#[test]
fn parser_rejects_malformed_documents() {
    assert!(parse_json(&cv("")).is_err());
    assert!(parse_json(&cv("01")).is_err());
    assert!(parse_json(&cv("{\"a\" 1}")).is_err());
    assert!(parse_json(&cv("[1 2]")).is_err());
    assert!(parse_json(&cv("{\"a\": 1} trailing")).is_err());
    assert!(parse_json(&cv("[1,]")).is_err());
}

#[test]
fn parser_keeps_numbers_beyond_sixty_four_bits() {
    let v = parse_json(&cv("115792089237316195423570985008687907853269984665640564039457584007913129639935")).unwrap();
    assert_eq!(
        render(&v),
        "115792089237316195423570985008687907853269984665640564039457584007913129639935"
    );
}

#[test]
fn parser_error_position_is_exact() {
    assert_eq!(parse_json(&cv("[1 2]")).unwrap_err(), 3);
    assert_eq!(parse_json(&cv("nope")).unwrap_err(), 0);
}

#[test]
fn duplicate_object_key_keeps_last_value_in_place() {
    let v = parse_json(&cv("{\"a\": 1, \"b\": 2, \"a\": 3}")).unwrap();
    assert_eq!(render(&v), "{\n  \"a\": 3,\n  \"b\": 2\n}");
}

#[test]
fn parse_then_encode_round_trips() {
    let text = "{\n  \"a\": [\n    1,\n    {\n      \"b\": \"0xff\"\n    }\n  ]\n}";
    let v = parse_json(&cv(text)).unwrap();
    assert_eq!(render(&v), text);
}

#[test]
fn parser_decodes_escapes() {
    let v = parse_json(&cv("\"a\\n\\t\\\"\\\\b\"")).unwrap();
    match v {
        Json::Str(s) => {
            let s: String = s.into_iter().collect();
            assert_eq!(s, "a\n\t\"\\b");
        },
        other => panic!("expected a string, got {:?}", other),
    }
}
