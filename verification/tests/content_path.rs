use txpool_parser::encode::to_pretty_text;
use txpool_parser::json::Json;
use txpool_parser::normalize::normalize_commas;
use txpool_parser::parse::parse_json;
use txpool_parser::translate::{parse_debug_format, parse_txpool_content, TranslateError};

fn cv(s: &str) -> Vec<char> {
    s.chars().collect()
}

fn render(v: &Json) -> String {
    to_pretty_text(v).into_iter().collect()
}

const WRAPPERS: [&str; 31] = [
    "TxpoolContent",
    "AnyRpcTransaction",
    "WithOtherFields",
    "Transaction",
    "Recovered",
    "Ethereum",
    "Eip1559",
    "Signed",
    "TxEip1559",
    "Call",
    "OnceLock",
    "PrimitiveSignature",
    "AccessList",
    "OtherFields",
    "AnyRpc",
    "Tx",
    "Legacy",
    "TxLegacy",
    "Eip2930",
    "TxEip2930",
    "Eip4844",
    "TxEip4844",
    "DepositReceipt",
    "DepositTransaction",
    "OpDepositReceipt",
    "SequentialReceipt",
    "Create",
    "AccessListItem",
    "TxEip7702",
    "Eip7702",
    "Authorization",
];

#[test]
fn every_wrapper_token_is_erased() {
    for w in WRAPPERS {
        let input = cv(&format!("{} {{\"pending\": 7}}", w));
        let got = parse_txpool_content(&input).unwrap();
        let expected = Json::Obj(vec![(cv("pending"), Json::Num(cv("7")))]);
        assert_eq!(render(&got), render(&expected), "wrapper {}", w);
    }
}

#[test]
fn wrapper_round_trip_nested() {
    // wrap a minimal object in every cataloged token, alternating the struct
    // and the tuple form, and check the pipeline reproduces the plain object
    let mut wrapped = String::from("{}");
    let mut plain = String::from("{}");
    for (i, w) in WRAPPERS.iter().enumerate() {
        if i % 2 == 0 {
            wrapped = format!("{} {{\"pending\": {}}}", w, wrapped);
            plain = format!("{{\"pending\": {}}}", plain);
        } else {
            wrapped = format!("{}({})", w, wrapped);
        }
    }
    let got = parse_debug_format(&cv(&wrapped)).unwrap();
    let expected = parse_json(&cv(&plain)).unwrap();
    assert_eq!(render(&got), render(&expected));
}

#[test]
fn wrapper_with_line_break_before_brace() {
    let input = cv("TxpoolContent {\"inner\": Signed\n  {\"nonce\": 3}}");
    let got = parse_txpool_content(&input).unwrap();
    let expected = Json::Obj(vec![(
        cv("inner"),
        Json::Obj(vec![(cv("nonce"), Json::Num(cv("3")))]),
    )]);
    assert_eq!(render(&got), render(&expected));
}

#[test]
fn optional_values_are_flattened() {
    let input = cv("TxpoolContent { to: Some(5), from: None, }");
    let got = parse_txpool_content(&input).unwrap();
    let expected = Json::Obj(vec![
        (cv("to"), Json::Num(cv("5"))),
        (cv("from"), Json::Null),
    ]);
    assert_eq!(render(&got), render(&expected));
}

#[test]
fn bare_field_names_are_quoted() {
    let input = cv("TxpoolContent { gas: 21000, gas_price: 100 }");
    let got = parse_txpool_content(&input).unwrap();
    let expected = Json::Obj(vec![
        (cv("gas"), Json::Num(cv("21000"))),
        (cv("gas_price"), Json::Num(cv("100"))),
    ]);
    assert_eq!(render(&got), render(&expected));
}

#[test]
fn create_marker_maps_to_null_after_field_quoting() {
    let input = cv("TxpoolContent { to: Create,\n value: 5 }");
    let got = parse_txpool_content(&input).unwrap();
    let expected = Json::Obj(vec![
        (cv("to"), Json::Null),
        (cv("value"), Json::Num(cv("5"))),
    ]);
    assert_eq!(render(&got), render(&expected));
}

#[test]
fn empty_hex_literal_becomes_a_string() {
    let input = cv("TxpoolContent { input: 0x }");
    let got = parse_txpool_content(&input).unwrap();
    let expected = Json::Obj(vec![(cv("input"), Json::Str(cv("0x")))]);
    assert_eq!(render(&got), render(&expected));
}

#[test]
fn hex_literals_are_quoted() {
    let input = cv("TxpoolContent { hash: 0xDeadBeef, value: 12 }");
    let got = parse_txpool_content(&input).unwrap();
    let expected = Json::Obj(vec![
        (cv("hash"), Json::Str(cv("0xDeadBeef"))),
        (cv("value"), Json::Num(cv("12"))),
    ]);
    assert_eq!(render(&got), render(&expected));
}

#[test]
fn digit_group_separators_are_stripped() {
    let input = cv("TxpoolContent { value: 1_000_000, gas: 21_000 }");
    let got = parse_txpool_content(&input).unwrap();
    let expected = Json::Obj(vec![
        (cv("value"), Json::Num(cv("1000000"))),
        (cv("gas"), Json::Num(cv("21000"))),
    ]);
    assert_eq!(render(&got), render(&expected));
}

#[test]
fn trailing_commas_are_normalized() {
    let input = cv("TxpoolContent {\"pending\": {\"nonce\": 1,},}");
    let got = parse_txpool_content(&input).unwrap();
    let expected = Json::Obj(vec![(
        cv("pending"),
        Json::Obj(vec![(cv("nonce"), Json::Num(cv("1")))]),
    )]);
    assert_eq!(render(&got), render(&expected));
}

#[test]
fn cross_line_trailing_comma_is_fixed() {
    let input = cv("TxpoolContent {\"pending\": {\"nonce\": 1},\n\n}");
    let got = parse_txpool_content(&input).unwrap();
    let expected = Json::Obj(vec![(
        cv("pending"),
        Json::Obj(vec![(cv("nonce"), Json::Num(cv("1")))]),
    )]);
    assert_eq!(render(&got), render(&expected));
}

#[test]
fn comma_normalization_is_idempotent() {
    let input = cv("{\"a\": 1,\n  ,\n},\n ]\n, }");
    let once = normalize_commas(&input);
    let twice = normalize_commas(&once);
    assert_eq!(once, twice);
}

#[test]
fn residual_tag_before_brace_is_erased() {
    // a capitalized name outside the catalog, directly before the brace
    let input = cv("TxpoolContent {\"other\": Zz9{\"v\": 1}}");
    let got = parse_txpool_content(&input).unwrap();
    let expected = Json::Obj(vec![(
        cv("other"),
        Json::Obj(vec![(cv("v"), Json::Num(cv("1")))]),
    )]);
    assert_eq!(render(&got), render(&expected));
}

#[test]
fn residual_tag_on_its_own_line_is_erased() {
    let input = cv("TxpoolContent {\"other\": Zz9\n  {\"v\": 2}}");
    let got = parse_txpool_content(&input).unwrap();
    let expected = Json::Obj(vec![(
        cv("other"),
        Json::Obj(vec![(cv("v"), Json::Num(cv("2")))]),
    )]);
    assert_eq!(render(&got), render(&expected));
}

#[test]
fn boolean_fields_pass_through() {
    let input = cv("TxpoolContent { y_parity: true, other: false }");
    let got = parse_txpool_content(&input).unwrap();
    let expected = Json::Obj(vec![
        (cv("y_parity"), Json::Bool(true)),
        (cv("other"), Json::Bool(false)),
    ]);
    assert_eq!(render(&got), render(&expected));
}

#[test]
fn match_counts_for_telemetry() {
    let text = cv("Signed { a Signed { b Signed( c");
    assert_eq!(
        txpool_parser::rewrite::count_matches(&text, &cv("Signed {")),
        2
    );
    assert_eq!(
        txpool_parser::rewrite::count_matches(&text, &cv("Signed(")),
        1
    );
    assert_eq!(txpool_parser::rewrite::count_matches(&text, &cv("aa")), 0);
    assert_eq!(txpool_parser::rewrite::count_matches(&cv("aaaa"), &cv("aa")), 2);
}

#[test]
fn unparseable_content_reports_line_and_column() {
    let input = cv("TxpoolContent {");
    match parse_txpool_content(&input) {
        Err(TranslateError::JsonSyntax { line, column, cleaned }) => {
            assert_eq!(line, 2);
            assert_eq!(column, 1);
            let text: String = cleaned.into_iter().collect();
            assert_eq!(text, "{\n");
        },
        other => panic!("expected a syntax error, got {:?}", other),
    }
}

#[test]
fn unterminated_string_reports_position() {
    let input = cv("TxpoolContent {\"pending\": \"abc}");
    match parse_debug_format(&input) {
        Err(TranslateError::JsonSyntax { line, column, .. }) => {
            assert_eq!(line, 2);
            assert_eq!(column, 1);
        },
        other => panic!("expected a syntax error, got {:?}", other),
    }
}
